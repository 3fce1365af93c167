//! Promotion across basic blocks: slot analysis, placeholders for merge
//! points, renaming in the entry block, and removal of unused slots.
use vstd::prelude::*;
use crate::strmap::StrMap;
use crate::text::{owned, string_push_str, str_eq};
use crate::optimizer::ir::{Function, InstV, Instruction, insts_view, copy_inst, texts};
use crate::optimizer::mem2reg::{alloca_names, store_count, load_count};

verus! {

/// What is known of a slot: its name, one entry per load and per store of
/// it, whether it is used within one block, and its predecessors.
#[derive(Debug, Clone)]
struct AllocaInfo {
    name: String,
    uses: Vec<String>,
    stores: Vec<String>,
    is_single_block: bool,
    predecessors: Vec<String>,
}

/// A slot is dead when nothing loads it and it is stored at most once.
pub open spec fn dead_slot(body: Seq<InstV>, name: Seq<char>) -> bool {
    load_count(body, name) == 0 && store_count(body, name) <= 1
}

/// The body without its dead slots' allocations.
pub open spec fn without_dead(body: Seq<InstV>, insts: Seq<InstV>) -> Seq<InstV>
    decreases insts.len(),
{
    if insts.len() == 0 {
        Seq::empty()
    } else {
        without_dead(body, insts.drop_last()) + match insts.last() {
            InstV::Alloca { dest, .. } => if dead_slot(body, dest) { Seq::empty() } else { seq![insts.last()] },
            _ => seq![insts.last()],
        }
    }
}

/// Whether the body allocates a dead slot.
pub open spec fn has_dead_slot(body: Seq<InstV>) -> bool {
    exists|i: int| 0 <= i < body.len() && (#[trigger] body[i] matches InstV::Alloca { dest, .. } && dead_slot(body, dest))
}

/// The name of the placeholder for slot `q` of `es` at the label at `jj`.
spec fn phi_name(es: Seq<(String, AllocaInfo)>, q: int, v: Seq<InstV>, jj: int) -> Seq<char> {
    es[q].0@ + "."@ + v[jj]->Label_0
}

/// Slot `q` spans blocks and position `jj` is a label.
spec fn phi_made(es: Seq<(String, AllocaInfo)>, v: Seq<InstV>, q: int, jj: int) -> bool {
    0 <= q < es.len() && !es[q].1.is_single_block && 0 <= jj < v.len() && v[jj] is Label
}

/// `k` names a placeholder of a slot before `n`, or of slot `n` at a label
/// before `m`.
spec fn phi_keys_upto(es: Seq<(String, AllocaInfo)>, v: Seq<InstV>, n: int, m: int, k: Seq<char>) -> bool {
    exists|q: int, jj: int| #![trigger phi_name(es, q, v, jj)] phi_made(es, v, q, jj) && (q < n || (q == n && jj < m))
        && k == phi_name(es, q, v, jj)
}

/// `k` names a placeholder: a slot that spans blocks, `.`, and a label.
spec fn phi_key(es: Seq<(String, AllocaInfo)>, v: Seq<InstV>, k: Seq<char>) -> bool {
    phi_keys_upto(es, v, es.len() as int, 0, k)
}

/// The stores, as name and stored value, met in block `bb` from position
/// `i` on: a label `bb` opens the block, any other label after it ends it.
pub open spec fn scan_stores(v: Seq<InstV>, bb: Seq<char>, i: int, in_bb: bool) -> Seq<(Seq<char>, Seq<char>)>
    decreases v.len() - i,
{
    if i < 0 || i >= v.len() {
        Seq::empty()
    } else {
        match v[i] {
            InstV::Label(name) => if name == bb {
                scan_stores(v, bb, i + 1, true)
            } else if in_bb {
                Seq::empty()
            } else {
                scan_stores(v, bb, i + 1, in_bb)
            },
            InstV::Store { dest, src } => if in_bb {
                seq![(dest, src)] + scan_stores(v, bb, i + 1, in_bb)
            } else {
                scan_stores(v, bb, i + 1, in_bb)
            },
            _ => scan_stores(v, bb, i + 1, in_bb),
        }
    }
}

/// The stacks of versions after pushing each stored value on its name's
/// stack, in order.
pub open spec fn push_versions(m: Map<Seq<char>, Seq<Seq<char>>>, ps: Seq<(Seq<char>, Seq<char>)>) -> Map<Seq<char>, Seq<Seq<char>>>
    decreases ps.len(),
{
    if ps.len() == 0 {
        m
    } else {
        let m2 = push_versions(m, ps.drop_last());
        let d = ps.last().0;
        m2.insert(d, (if m2.contains_key(d) { m2[d] } else { Seq::empty() }).push(ps.last().1))
    }
}

/// The current versions after each store, in order.
pub open spec fn last_versions(m: Map<Seq<char>, Seq<char>>, ps: Seq<(Seq<char>, Seq<char>)>) -> Map<Seq<char>, Seq<char>>
    decreases ps.len(),
{
    if ps.len() == 0 {
        m
    } else {
        last_versions(m, ps.drop_last()).insert(ps.last().0, ps.last().1)
    }
}

/// Promotes slots across blocks.
pub struct FullMem2Reg {
    alloca_info: StrMap<AllocaInfo>,
    rename_stack: StrMap<Vec<String>>,
    current_version: StrMap<String>,
    phi_nodes: StrMap<Vec<(String, String)>>,
}

impl FullMem2Reg {
    /// For each slot: loads, stores, and whether it stays in one block.
    pub closed spec fn slot_info(&self) -> Map<Seq<char>, (nat, nat, bool)> {
        self.alloca_info@.map_values(|a: AllocaInfo| (a.uses@.len(), a.stores@.len(), a.is_single_block))
    }

    /// No slots known.
    pub fn new() -> (r: FullMem2Reg)
        ensures
            r.slot_info() == Map::<Seq<char>, (nat, nat, bool)>::empty(),
    {
        let r = FullMem2Reg {
            alloca_info: StrMap::new(),
            rename_stack: StrMap::new(),
            current_version: StrMap::new(),
            phi_nodes: StrMap::new(),
        };
        assert(r.slot_info() =~= Map::<Seq<char>, (nat, nat, bool)>::empty());
        r
    }

    /// Analyses the slots, places merge placeholders, renames in the entry
    /// block, and removes the allocations of dead slots; tells whether one
    /// was removed.
    pub fn promote(&mut self, func: &mut Function) -> (removed: bool)
        ensures
            insts_view(final(func).body@) == without_dead(insts_view(old(func).body@), insts_view(old(func).body@)),
            removed == has_dead_slot(insts_view(old(func).body@)),
            final(func).name == old(func).name,
            final(func).params == old(func).params,
            final(func).is_kernel == old(func).is_kernel,
            forall|n: Seq<char>| #[trigger] final(self).slot_info().contains_key(n) <==> alloca_names(
                insts_view(old(func).body@),
            ).contains(n),
            forall|n: Seq<char>| #[trigger] final(self).slot_info().contains_key(n) ==> final(self).slot_info()[n] == (
                load_count(insts_view(old(func).body@), n),
                store_count(insts_view(old(func).body@), n),
                load_count(insts_view(old(func).body@), n) <= 1 && store_count(insts_view(old(func).body@), n) <= 1,
            ),
    {
        self.analyze_allocas(func);
        let ghost info = self.slot_info();
        self.insert_phi_nodes(func);
        self.rename_variables(func);
        assert(self.slot_info() == info);
        self.remove_dead_allocas(func)
    }

    fn analyze_allocas(&mut self, func: &Function)
        ensures
            forall|n: Seq<char>| #[trigger] final(self).slot_info().contains_key(n) <==> alloca_names(insts_view(func.body@)).contains(n),
            forall|n: Seq<char>| #[trigger] final(self).slot_info().contains_key(n) ==> final(self).slot_info()[n] == (
                load_count(insts_view(func.body@), n),
                store_count(insts_view(func.body@), n),
                load_count(insts_view(func.body@), n) <= 1 && store_count(insts_view(func.body@), n) <= 1,
            ),
            final(self).rename_stack == old(self).rename_stack,
            final(self).current_version == old(self).current_version,
            final(self).phi_nodes == old(self).phi_nodes,
    {
        let ghost v = insts_view(func.body@);
        self.alloca_info.clear();
        let mut i: usize = 0;
        while i < func.body.len()
            invariant
                i <= func.body@.len(),
                v == insts_view(func.body@),
                forall|n: Seq<char>| #[trigger] self.alloca_info@.contains_key(n) <==> alloca_names(v.take(i as int)).contains(n),
                forall|n: Seq<char>| #[trigger] self.alloca_info@.contains_key(n) ==> self.alloca_info@[n].uses@.len() == 0
                    && self.alloca_info@[n].stores@.len() == 0,
                self.rename_stack == old(self).rename_stack,
                self.current_version == old(self).current_version,
                self.phi_nodes == old(self).phi_nodes,
            decreases func.body@.len() - i,
        {
            proof {
                assert(v.take(i + 1).drop_last() =~= v.take(i as int));
                assert(v.take(i + 1).last() == func.body@[i as int]@);
            }
            let ghost before = alloca_names(v.take(i as int));
            let ghost m_before = self.alloca_info@;
            if let Instruction::Alloca { dest, .. } = &func.body[i] {
                self.alloca_info.insert(dest.clone(), AllocaInfo {
                    name: dest.clone(),
                    uses: Vec::new(),
                    stores: Vec::new(),
                    is_single_block: true,
                    predecessors: Vec::new(),
                });
                proof {
                    assert(alloca_names(v.take(i + 1)) =~= before.push(dest@));
                    assert(self.alloca_info@.dom() =~= m_before.dom().insert(dest@));
                    assert forall|n: Seq<char>| alloca_names(v.take(i + 1)).contains(n) <==> (before.contains(n) || n == dest@) by {
                        let t = alloca_names(v.take(i + 1));
                        if t.contains(n) {
                            let q = choose|q: int| 0 <= q < t.len() && t[q] == n;
                            if q < before.len() {
                                assert(before[q] == n);
                            }
                        }
                        if before.contains(n) {
                            let q = choose|q: int| 0 <= q < before.len() && before[q] == n;
                            assert(t[q] == n);
                        }
                        if n == dest@ {
                            assert(t[before.len() as int] == n);
                        }
                    }
                    assert forall|n: Seq<char>| #[trigger] self.alloca_info@.contains_key(n) <==> alloca_names(v.take(i + 1)).contains(n) by {
                        assert(m_before.contains_key(n) <==> before.contains(n));
                    }
                }
            } else {
                proof {
                    assert(alloca_names(v.take(i + 1)) =~= before);
                }
            }
            i = i + 1;
        }
        assert(v.take(func.body@.len() as int) =~= v);
        let mut i: usize = 0;
        proof {
            assert(v.take(0) =~= Seq::<InstV>::empty());
        }
        while i < func.body.len()
            invariant
                i <= func.body@.len(),
                v == insts_view(func.body@),
                forall|n: Seq<char>| #[trigger] self.alloca_info@.contains_key(n) <==> alloca_names(v).contains(n),
                forall|n: Seq<char>| #[trigger] self.alloca_info@.contains_key(n) ==> self.alloca_info@[n].uses@.len() == load_count(v.take(i as int), n)
                    && self.alloca_info@[n].stores@.len() == store_count(v.take(i as int), n),
                self.rename_stack == old(self).rename_stack,
                self.current_version == old(self).current_version,
                self.phi_nodes == old(self).phi_nodes,
            decreases func.body@.len() - i,
        {
            proof {
                assert(v.take(i + 1).drop_last() =~= v.take(i as int));
                assert(v.take(i + 1).last() == func.body@[i as int]@);
            }
            let ghost m0 = self.alloca_info@;
            match &func.body[i] {
                Instruction::Load { src, .. } => {
                    match self.alloca_info.get(src.as_str()) {
                        Some(info) => {
                            let mut updated = clone_info(info);
                            updated.uses.push(src.clone());
                            self.alloca_info.insert(src.clone(), updated);
                        },
                        None => {},
                    }
                },
                Instruction::Store { dest, .. } => {
                    match self.alloca_info.get(dest.as_str()) {
                        Some(info) => {
                            let mut updated = clone_info(info);
                            updated.stores.push(dest.clone());
                            self.alloca_info.insert(dest.clone(), updated);
                        },
                        None => {},
                    }
                },
                _ => {},
            }
            i = i + 1;
        }
        assert(v.take(func.body@.len() as int) =~= v);
        self.mark_single_block(Ghost(v));
    }

    fn mark_single_block(&mut self, Ghost(v): Ghost<Seq<InstV>>)
        requires
            forall|n: Seq<char>| #[trigger] old(self).alloca_info@.contains_key(n) <==> alloca_names(v).contains(n),
            forall|n: Seq<char>| #[trigger] old(self).alloca_info@.contains_key(n) ==> old(self).alloca_info@[n].uses@.len()
                == load_count(v, n) && old(self).alloca_info@[n].stores@.len() == store_count(v, n),
        ensures
            forall|n: Seq<char>| #[trigger] final(self).slot_info().contains_key(n) <==> alloca_names(v).contains(n),
            forall|n: Seq<char>| #[trigger] final(self).slot_info().contains_key(n) ==> final(self).slot_info()[n] == (
                load_count(v, n),
                store_count(v, n),
                load_count(v, n) <= 1 && store_count(v, n) <= 1,
            ),
            final(self).rename_stack == old(self).rename_stack,
            final(self).current_version == old(self).current_version,
            final(self).phi_nodes == old(self).phi_nodes,
    {
        let ghost m0 = self.alloca_info@;
        let mut fresh: StrMap<AllocaInfo> = StrMap::new();
        let n = self.alloca_info.entry_count();
        let mut i: usize = 0;
        proof {
            self.alloca_info.lemma_view();
        }
        while i < n
            invariant
                i <= n,
                n == self.alloca_info.entries().len(),
                self.alloca_info@ == m0,
                m0 == crate::strmap::entries_map(self.alloca_info.entries()),
                forall|k: Seq<char>| #[trigger] fresh@.contains_key(k) ==> m0.contains_key(k)
                    && fresh@[k].uses@.len() == m0[k].uses@.len() && fresh@[k].stores@.len() == m0[k].stores@.len()
                    && fresh@[k].is_single_block == (m0[k].uses@.len() <= 1 && m0[k].stores@.len() <= 1),
                forall|j: int| 0 <= j < i ==> #[trigger] fresh@.contains_key(self.alloca_info.entries()[j].0@),
            decreases n - i,
        {
            let key = &self.alloca_info.entry_at(i).0;
            proof {
                crate::strmap::lemma_entry_key(self.alloca_info.entries(), i as int);
            }
            match self.alloca_info.get(key.as_str()) {
                Some(info) => {
                    let mut updated = clone_info(info);
                    updated.is_single_block = info.uses.len() <= 1 && info.stores.len() <= 1;
                    fresh.insert(key.clone(), updated);
                },
                None => {},
            }
            i = i + 1;
        }
        proof {
            assert forall|k: Seq<char>| #[trigger] m0.contains_key(k) implies fresh@.contains_key(k) by {
                crate::strmap::lemma_entries_cover(self.alloca_info.entries(), k);
                let q = choose|q: int| 0 <= q < self.alloca_info.entries().len() && self.alloca_info.entries()[q].0@ == k
                    && crate::strmap::entries_map(self.alloca_info.entries())[k] == self.alloca_info.entries()[q].1;
                assert(fresh@.contains_key(self.alloca_info.entries()[q].0@));
            }
        }
        self.alloca_info = fresh;
        proof {
            assert forall|k: Seq<char>| #[trigger] self.slot_info().contains_key(k) <==> alloca_names(v).contains(k) by {
                assert(self.slot_info().contains_key(k) <==> self.alloca_info@.contains_key(k));
                assert(m0.contains_key(k) <==> alloca_names(v).contains(k));
            }
        }
    }

    /// Each name's stack of stored versions, as texts.
    spec fn stack_view(&self) -> Map<Seq<char>, Seq<Seq<char>>> {
        self.rename_stack@.map_values(|v: Vec<String>| texts(v@))
    }

    /// Each name's current version, as text.
    spec fn version_view(&self) -> Map<Seq<char>, Seq<char>> {
        self.current_version@.map_values(|s: String| s@)
    }

    /// Clears the placeholders, then places an empty one named
    /// `slot.block` for every slot that is not confined to one block and
    /// every block label of the body.
    fn insert_phi_nodes(&mut self, func: &Function)
        ensures
            final(self).alloca_info == old(self).alloca_info,
            final(self).rename_stack == old(self).rename_stack,
            final(self).current_version == old(self).current_version,
            forall|k: Seq<char>| #[trigger] final(self).phi_nodes@.contains_key(k) <==> phi_key(
                old(self).alloca_info.entries(),
                insts_view(func.body@),
                k,
            ),
            forall|k: Seq<char>| #[trigger] final(self).phi_nodes@.contains_key(k) ==> final(self).phi_nodes@[k]@.len() == 0,
    {
        let ghost es = self.alloca_info.entries();
        let ghost v = insts_view(func.body@);
        self.phi_nodes.clear();
        let n = self.alloca_info.entry_count();
        let mut i: usize = 0;
        while i < n
            invariant
                i <= n,
                n == es.len(),
                es == self.alloca_info.entries(),
                v == insts_view(func.body@),
                self.alloca_info == old(self).alloca_info,
                self.rename_stack == old(self).rename_stack,
                self.current_version == old(self).current_version,
                forall|k: Seq<char>| #[trigger] self.phi_nodes@.contains_key(k) <==> phi_keys_upto(es, v, i as int, 0, k),
                forall|k: Seq<char>| #[trigger] self.phi_nodes@.contains_key(k) ==> self.phi_nodes@[k]@.len() == 0,
            decreases n - i,
        {
            let entry = self.alloca_info.entry_at(i);
            if !entry.1.is_single_block {
                let mut j: usize = 0;
                while j < func.body.len()
                    invariant
                        j <= func.body@.len(),
                        i < n,
                        n == es.len(),
                        es == self.alloca_info.entries(),
                        *entry == es[i as int],
                        !es[i as int].1.is_single_block,
                        v == insts_view(func.body@),
                        self.alloca_info == old(self).alloca_info,
                        self.rename_stack == old(self).rename_stack,
                        self.current_version == old(self).current_version,
                        forall|k: Seq<char>| #[trigger] self.phi_nodes@.contains_key(k) <==> phi_keys_upto(es, v, i as int, j as int, k),
                        forall|k: Seq<char>| #[trigger] self.phi_nodes@.contains_key(k) ==> self.phi_nodes@[k]@.len() == 0,
                    decreases func.body@.len() - j,
                {
                    assert(v[j as int] == func.body@[j as int]@);
                    if let Instruction::Label(bb) = &func.body[j] {
                        let mut key = owned(entry.0.as_str());
                        string_push_str(&mut key, ".");
                        string_push_str(&mut key, bb.as_str());
                        let ghost kv = key@;
                        assert(kv == phi_name(es, i as int, v, j as int));
                        self.phi_nodes.insert(key, Vec::new());
                        proof {
                            assert forall|k: Seq<char>| #[trigger] self.phi_nodes@.contains_key(k) <==> phi_keys_upto(es, v, i as int, j + 1, k) by {
                                if phi_keys_upto(es, v, i as int, j + 1, k) && k != kv {
                                    let (q, jj) = choose|q: int, jj: int| #![trigger phi_name(es, q, v, jj)] phi_made(es, v, q, jj)
                                        && (q < i || (q == i && jj < j + 1)) && k == phi_name(es, q, v, jj);
                                    assert(phi_name(es, q, v, jj) == k);
                                    if q == i && jj == j {
                                    } else {
                                        assert(phi_keys_upto(es, v, i as int, j as int, k));
                                    }
                                }
                                if k == kv {
                                    assert(phi_made(es, v, i as int, j as int));
                                    assert(phi_name(es, i as int, v, j as int) == k);
                                }
                                if phi_keys_upto(es, v, i as int, j as int, k) {
                                    let (q, jj) = choose|q: int, jj: int| #![trigger phi_name(es, q, v, jj)] phi_made(es, v, q, jj)
                                        && (q < i || (q == i && jj < j)) && k == phi_name(es, q, v, jj);
                                    assert(phi_name(es, q, v, jj) == k);
                                }
                            }
                        }
                    } else {
                        proof {
                            assert forall|k: Seq<char>| #[trigger] self.phi_nodes@.contains_key(k) <==> phi_keys_upto(es, v, i as int, j + 1, k) by {
                                if phi_keys_upto(es, v, i as int, j + 1, k) {
                                    let (q, jj) = choose|q: int, jj: int| #![trigger phi_name(es, q, v, jj)] phi_made(es, v, q, jj)
                                        && (q < i || (q == i && jj < j + 1)) && k == phi_name(es, q, v, jj);
                                    assert(phi_name(es, q, v, jj) == k);
                                    assert(jj != j || q != i);
                                }
                                if phi_keys_upto(es, v, i as int, j as int, k) {
                                    let (q, jj) = choose|q: int, jj: int| #![trigger phi_name(es, q, v, jj)] phi_made(es, v, q, jj)
                                        && (q < i || (q == i && jj < j)) && k == phi_name(es, q, v, jj);
                                    assert(phi_name(es, q, v, jj) == k);
                                }
                            }
                        }
                    }
                    j = j + 1;
                }
                proof {
                    assert forall|k: Seq<char>| #[trigger] self.phi_nodes@.contains_key(k) <==> phi_keys_upto(es, v, i + 1, 0, k) by {
                        if phi_keys_upto(es, v, i + 1, 0, k) {
                            let (q, jj) = choose|q: int, jj: int| #![trigger phi_name(es, q, v, jj)] phi_made(es, v, q, jj)
                                && (q < i + 1 || (q == i + 1 && jj < 0)) && k == phi_name(es, q, v, jj);
                            assert(phi_name(es, q, v, jj) == k);
                        }
                        if phi_keys_upto(es, v, i as int, v.len() as int, k) {
                            let (q, jj) = choose|q: int, jj: int| #![trigger phi_name(es, q, v, jj)] phi_made(es, v, q, jj)
                                && (q < i || (q == i && jj < v.len())) && k == phi_name(es, q, v, jj);
                            assert(phi_name(es, q, v, jj) == k);
                        }
                    }
                }
            } else {
                proof {
                    assert forall|k: Seq<char>| #[trigger] self.phi_nodes@.contains_key(k) <==> phi_keys_upto(es, v, i + 1, 0, k) by {
                        if phi_keys_upto(es, v, i + 1, 0, k) {
                            let (q, jj) = choose|q: int, jj: int| #![trigger phi_name(es, q, v, jj)] phi_made(es, v, q, jj)
                                && (q < i + 1 || (q == i + 1 && jj < 0)) && k == phi_name(es, q, v, jj);
                            assert(phi_name(es, q, v, jj) == k);
                            assert(q != i);
                        }
                        if phi_keys_upto(es, v, i as int, 0, k) {
                            let (q, jj) = choose|q: int, jj: int| #![trigger phi_name(es, q, v, jj)] phi_made(es, v, q, jj)
                                && (q < i || (q == i && jj < 0)) && k == phi_name(es, q, v, jj);
                            assert(phi_name(es, q, v, jj) == k);
                        }
                    }
                }
            }
            i = i + 1;
        }
    }

    /// Clears the version tables, then records the stores of the entry
    /// block when the body starts with a label.
    fn rename_variables(&mut self, func: &Function)
        ensures
            final(self).alloca_info == old(self).alloca_info,
            final(self).phi_nodes == old(self).phi_nodes,
            final(self).stack_view() == (if func.body@.len() > 0 && insts_view(func.body@)[0] is Label {
                push_versions(Map::empty(), scan_stores(insts_view(func.body@), insts_view(func.body@)[0]->Label_0, 0, false))
            } else {
                Map::empty()
            }),
            final(self).version_view() == (if func.body@.len() > 0 && insts_view(func.body@)[0] is Label {
                last_versions(Map::empty(), scan_stores(insts_view(func.body@), insts_view(func.body@)[0]->Label_0, 0, false))
            } else {
                Map::empty()
            }),
    {
        self.rename_stack.clear();
        self.current_version.clear();
        assert(self.stack_view() =~= Map::empty());
        assert(self.version_view() =~= Map::empty());
        if func.body.len() > 0 {
            assert(insts_view(func.body@)[0] == func.body@[0]@);
            if let Instruction::Label(name) = &func.body[0] {
                self.rename_block(name, func);
            }
        }
    }

    /// Records each store of block `bb`: the stored value is pushed on the
    /// name's stack of versions and becomes its current version.
    fn rename_block(&mut self, bb: &String, func: &Function)
        ensures
            final(self).alloca_info == old(self).alloca_info,
            final(self).phi_nodes == old(self).phi_nodes,
            final(self).stack_view() == push_versions(old(self).stack_view(), scan_stores(insts_view(func.body@), bb@, 0, false)),
            final(self).version_view() == last_versions(old(self).version_view(), scan_stores(insts_view(func.body@), bb@, 0, false)),
    {
        let ghost v = insts_view(func.body@);
        let ghost sv0 = self.stack_view();
        let ghost vv0 = self.version_view();
        let ghost mut done: Seq<(Seq<char>, Seq<char>)> = Seq::empty();
        let mut in_bb = false;
        let mut i: usize = 0;
        assert(done + scan_stores(v, bb@, 0, false) =~= scan_stores(v, bb@, 0, false));
        while i < func.body.len()
            invariant_except_break
                done + scan_stores(v, bb@, i as int, in_bb) == scan_stores(v, bb@, 0, false),
            invariant
                i <= func.body@.len(),
                v == insts_view(func.body@),
                self.alloca_info == old(self).alloca_info,
                self.phi_nodes == old(self).phi_nodes,
                self.stack_view() == push_versions(sv0, done),
                self.version_view() == last_versions(vv0, done),
            ensures
                done == scan_stores(v, bb@, 0, false),
            decreases func.body@.len() - i,
        {
            assert(v[i as int] == func.body@[i as int]@);
            match &func.body[i] {
                Instruction::Label(name) => {
                    if str_eq(name.as_str(), bb.as_str()) {
                        in_bb = true;
                    } else if in_bb {
                        assert(done + Seq::<(Seq<char>, Seq<char>)>::empty() =~= done);
                        break;
                    }
                },
                Instruction::Store { dest, src } => {
                    if in_bb {
                        let ghost sv = self.stack_view();
                        let ghost vv = self.version_view();
                        let mut versions: Vec<String> = match self.rename_stack.get(dest.as_str()) {
                            Some(vs) => clone_names(vs),
                            None => Vec::new(),
                        };
                        let ghost prev = texts(versions@);
                        assert(prev == (if sv.contains_key(dest@) { sv[dest@] } else { Seq::<Seq<char>>::empty() }));
                        versions.push(src.clone());
                        assert(texts(versions@) =~= prev.push(src@));
                        self.rename_stack.insert(dest.clone(), versions);
                        self.current_version.insert(dest.clone(), src.clone());
                        proof {
                            assert(self.stack_view() =~= sv.insert(dest@, prev.push(src@)));
                            assert(self.version_view() =~= vv.insert(dest@, src@));
                            let d2 = done.push((dest@, src@));
                            assert(d2.drop_last() =~= done);
                            assert(done + scan_stores(v, bb@, i as int, in_bb) =~= d2 + scan_stores(v, bb@, i + 1, in_bb));
                            done = d2;
                        }
                    }
                },
                _ => {},
            }
            i = i + 1;
        }
        proof {
            if i >= func.body.len() {
                assert(done + Seq::<(Seq<char>, Seq<char>)>::empty() =~= done);
            }
        }
    }

    fn remove_dead_allocas(&self, func: &mut Function) -> (removed: bool)
        requires
            forall|n: Seq<char>| #[trigger] self.slot_info().contains_key(n) <==> alloca_names(insts_view(old(func).body@)).contains(n),
            forall|n: Seq<char>| #[trigger] self.slot_info().contains_key(n) ==> self.slot_info()[n] == (
                load_count(insts_view(old(func).body@), n),
                store_count(insts_view(old(func).body@), n),
                load_count(insts_view(old(func).body@), n) <= 1 && store_count(insts_view(old(func).body@), n) <= 1,
            ),
        ensures
            insts_view(final(func).body@) == without_dead(insts_view(old(func).body@), insts_view(old(func).body@)),
            removed == has_dead_slot(insts_view(old(func).body@)),
            final(func).name == old(func).name,
            final(func).params == old(func).params,
            final(func).is_kernel == old(func).is_kernel,
    {
        let ghost v = insts_view(func.body@);
        let mut removed_count: usize = 0;
        let mut new_body: Vec<Instruction> = Vec::new();
        let mut i: usize = 0;
        proof {
            assert(v.take(0) =~= Seq::<InstV>::empty());
        }
        while i < func.body.len()
            invariant
                i <= func.body@.len(),
                v == insts_view(func.body@),
                v == insts_view(old(func).body@),
                insts_view(new_body@) == without_dead(v, v.take(i as int)),
                removed_count <= i,
                (removed_count > 0) == exists|j: int| 0 <= j < i && (#[trigger] v[j] matches InstV::Alloca { dest, .. } && dead_slot(v, dest)),
                forall|n: Seq<char>| #[trigger] self.slot_info().contains_key(n) <==> alloca_names(v).contains(n),
                forall|n: Seq<char>| #[trigger] self.slot_info().contains_key(n) ==> self.slot_info()[n] == (
                    load_count(v, n),
                    store_count(v, n),
                    load_count(v, n) <= 1 && store_count(v, n) <= 1,
                ),
            decreases func.body@.len() - i,
        {
            proof {
                assert(v.take(i + 1).drop_last() =~= v.take(i as int));
                assert(v.take(i + 1).last() == func.body@[i as int]@);
            }
            let ghost before = new_body@;
            let inst = &func.body[i];
            let mut drop = false;
            if let Instruction::Alloca { dest, .. } = inst {
                proof {
                    lemma_alloca_listed(v, i as int);
                }
                match self.alloca_info.get(dest.as_str()) {
                    Some(info) => {
                        if info.is_single_block && info.uses.len() == 0 {
                            drop = true;
                        }
                        proof {
                            assert(self.slot_info().contains_key(dest@));
                        }
                    },
                    None => {
                        proof {
                            assert(self.slot_info().contains_key(dest@));
                        }
                    },
                }
            }
            if drop {
                removed_count = removed_count + 1;
            } else {
                new_body.push(copy_inst(inst));
            }
            proof {
                assert(insts_view(new_body@) =~= without_dead(v, v.take(i + 1)));
            }
            i = i + 1;
        }
        assert(v.take(func.body@.len() as int) =~= v);
        if removed_count > 0 {
            func.body = new_body;
        } else {
            proof {
                lemma_none_dead(v, v);
                assert(insts_view(new_body@) =~= v);
            }
        }
        removed_count > 0
    }
}

/// An allocation's name is among the allocated slots.
proof fn lemma_alloca_listed(v: Seq<InstV>, i: int)
    requires
        0 <= i < v.len(),
        v[i] is Alloca,
    ensures
        alloca_names(v).contains(v[i]->Alloca_dest),
    decreases v.len(),
{
    if i < v.len() - 1 {
        lemma_alloca_listed(v.drop_last(), i);
        let t = alloca_names(v.drop_last());
        let q = choose|q: int| 0 <= q < t.len() && t[q] == v[i]->Alloca_dest;
        assert(alloca_names(v)[q] == t[q]);
    } else {
        assert(alloca_names(v)[alloca_names(v).len() - 1] == v[i]->Alloca_dest);
    }
}

/// With no dead slot, nothing is removed.
proof fn lemma_none_dead(body: Seq<InstV>, insts: Seq<InstV>)
    requires
        forall|j: int| 0 <= j < insts.len() ==> !(#[trigger] insts[j] matches InstV::Alloca { dest, .. } && dead_slot(body, dest)),
    ensures
        without_dead(body, insts) == insts,
    decreases insts.len(),
{
    if insts.len() > 0 {
        assert forall|j: int| 0 <= j < insts.drop_last().len() implies !(#[trigger] insts.drop_last()[j] matches InstV::Alloca { dest, .. } && dead_slot(body, dest)) by {
            assert(insts.drop_last()[j] == insts[j]);
        }
        lemma_none_dead(body, insts.drop_last());
        assert(!(insts[insts.len() - 1] matches InstV::Alloca { dest, .. } && dead_slot(body, dest)));
        assert(without_dead(body, insts) =~= insts);
    }
}

/// A copy of a slot's record.
fn clone_info(a: &AllocaInfo) -> (r: AllocaInfo)
    ensures
        r.uses@.len() == a.uses@.len(),
        r.stores@.len() == a.stores@.len(),
        r.is_single_block == a.is_single_block,
{
    AllocaInfo {
        name: a.name.clone(),
        uses: clone_names(&a.uses),
        stores: clone_names(&a.stores),
        is_single_block: a.is_single_block,
        predecessors: clone_names(&a.predecessors),
    }
}

/// A copy of a list of names.
fn clone_names(v: &Vec<String>) -> (r: Vec<String>)
    ensures
        texts(r@) == texts(v@),
        r@.len() == v@.len(),
{
    let r = crate::optimizer::ir::copy_names(v);
    assert(r@.len() == texts(r@).len());
    r
}

} // verus!
