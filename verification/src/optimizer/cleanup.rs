//! Dead-code elimination, common-subexpression elimination and algebraic
//! simplification.
use vstd::prelude::*;
use crate::strmap::StrMap;
use crate::text::{owned, string_push_str, str_eq};
use crate::optimizer::ir::{BinKind, InstV, Instruction, insts_view, copy_inst, texts};
use crate::optimizer::gvn::{Leaf, leaf_of, leaf_value, apply_op, run_step, run_all, plain_dests, gvn_written};

verus! {

// ---------------------------------------------------------------------------
// Dead-code elimination.
// ---------------------------------------------------------------------------

/// The names an instruction reads: the source of a load or a store, the
/// operands of an operation, a branch condition, a returned value, the
/// arguments of a call.
pub open spec fn reads(inst: InstV) -> Set<Seq<char>> {
    match inst {
        InstV::Load { src, .. } => set![src],
        InstV::Store { src, .. } => set![src],
        InstV::CondBr { cond, .. } => set![cond],
        InstV::Bin { left, right, .. } => set![left, right],
        InstV::Return(Some(v)) => set![v],
        InstV::ReturnInPlace(v) => set![v],
        InstV::Call { args, .. } => Set::new(|x: Seq<char>| args.contains(x)),
        _ => Set::empty(),
    }
}

/// The names a list of instructions reads.
pub open spec fn used_names(insts: Seq<InstV>) -> Set<Seq<char>>
    decreases insts.len(),
{
    if insts.len() == 0 {
        Set::empty()
    } else {
        used_names(insts.drop_last()).union(reads(insts.last()))
    }
}

/// Whether an instruction stays: control flow and calls always; a store,
/// allocation, load or arithmetic operation only when its destination is
/// read; anything else stays.
pub open spec fn is_live(used: Set<Seq<char>>, inst: InstV) -> bool {
    match inst {
        InstV::Store { dest, .. } => used.contains(dest),
        InstV::Alloca { dest, .. } => used.contains(dest),
        InstV::Load { dest, .. } => used.contains(dest),
        InstV::Bin { op, dest, .. } => if op == BinKind::Add || op == BinKind::Sub || op == BinKind::Mul
            || op == BinKind::Div || op == BinKind::Mod {
            used.contains(dest)
        } else {
            true
        },
        _ => true,
    }
}

/// The instructions that stay, in order.
pub open spec fn live_insts(used: Set<Seq<char>>, insts: Seq<InstV>) -> Seq<InstV>
    decreases insts.len(),
{
    if insts.len() == 0 {
        Seq::empty()
    } else {
        live_insts(used, insts.drop_last()) + if is_live(used, insts.last()) {
            seq![insts.last()]
        } else {
            Seq::empty()
        }
    }
}

/// The name an assignment writes: a store, allocation, load or operation.
pub open spec fn assigned(inst: InstV) -> Option<Seq<char>> {
    match inst {
        InstV::Store { dest, .. } => Some(dest),
        InstV::Alloca { dest, .. } => Some(dest),
        InstV::Load { dest, .. } => Some(dest),
        InstV::Bin { dest, .. } => Some(dest),
        _ => None,
    }
}

proof fn lemma_reads_used(insts: Seq<InstV>, j: int)
    requires
        0 <= j < insts.len(),
    ensures
        reads(insts[j]).subset_of(used_names(insts)),
    decreases insts.len(),
{
    if j < insts.len() - 1 {
        lemma_reads_used(insts.drop_last(), j);
        assert(insts.drop_last()[j] == insts[j]);
    }
}

proof fn lemma_live_filter(used: Set<Seq<char>>, insts: Seq<InstV>)
    ensures
        live_insts(used, insts) == insts.filter(|x: InstV| is_live(used, x)),
    decreases insts.len(),
{
    reveal(Seq::filter);
    if insts.len() > 0 {
        lemma_live_filter(used, insts.drop_last());
        let sub = insts.drop_last().filter(|x: InstV| is_live(used, x));
        if is_live(used, insts.last()) {
            assert(sub + seq![insts.last()] =~= sub.push(insts.last()));
        } else {
            assert(sub + Seq::<InstV>::empty() =~= sub);
        }
    }
}

/// The laws of dead-code elimination: the instructions that stay are the
/// input filtered in order by liveness; every branch, label, return and
/// call stays; and an instruction is dropped only if it assigns a name that
/// no instruction of the input reads.
pub proof fn lemma_dce_laws(insts: Seq<InstV>)
    ensures
        live_insts(used_names(insts), insts) == insts.filter(|x: InstV| is_live(used_names(insts), x)),
        forall|i: int| 0 <= i < insts.len() && assigned(insts[i]) is None ==> is_live(used_names(insts), #[trigger] insts[i]),
        forall|i: int, j: int|
            0 <= i < insts.len() && 0 <= j < insts.len() && !is_live(used_names(insts), #[trigger] insts[i]) ==> assigned(insts[i]) is Some
                && !reads(#[trigger] insts[j]).contains(assigned(insts[i])->0),
{
    lemma_live_filter(used_names(insts), insts);
    assert forall|i: int, j: int|
        0 <= i < insts.len() && 0 <= j < insts.len() && !is_live(used_names(insts), #[trigger] insts[i]) implies assigned(insts[i]) is Some
            && !reads(#[trigger] insts[j]).contains(assigned(insts[i])->0) by {
        lemma_reads_used(insts, j);
    }
}

/// Removes assignments whose results nothing reads.
pub struct DeadCodeEliminator {
    used_vars: StrMap<()>,
}

impl DeadCodeEliminator {
    /// The names found read by the last run.
    pub closed spec fn used(&self) -> Set<Seq<char>> {
        self.used_vars@.dom()
    }

    /// Nothing found read yet.
    pub fn new() -> (r: DeadCodeEliminator)
        ensures
            r.used() == Set::<Seq<char>>::empty(),
    {
        let r = DeadCodeEliminator { used_vars: StrMap::new() };
        assert(r.used() =~= Set::<Seq<char>>::empty());
        r
    }

    /// The instructions whose results are read, or that have effects.
    pub fn eliminate(&mut self, insts: &[Instruction]) -> (r: Vec<Instruction>)
        ensures
            final(self).used() == used_names(insts_view(insts@)),
            insts_view(r@) == live_insts(used_names(insts_view(insts@)), insts_view(insts@)),
    {
        self.used_vars.clear();
        self.mark_used_vars(insts);
        let mut result: Vec<Instruction> = Vec::new();
        let mut i: usize = 0;
        while i < insts.len()
            invariant
                i <= insts@.len(),
                self.used() == used_names(insts_view(insts@)),
                insts_view(result@) == live_insts(self.used(), insts_view(insts@).take(i as int)),
            decreases insts@.len() - i,
        {
            proof {
                let v = insts_view(insts@);
                assert(v.take(i + 1).drop_last() =~= v.take(i as int));
                assert(v.take(i + 1).last() == insts@[i as int]@);
            }
            let ghost before = result@;
            if self.is_used(&insts[i]) {
                result.push(copy_inst(&insts[i]));
            }
            proof {
                assert(insts_view(result@) =~= live_insts(self.used(), insts_view(insts@).take(i + 1)));
            }
            i = i + 1;
        }
        assert(insts_view(insts@).take(insts@.len() as int) =~= insts_view(insts@));
        result
    }

    fn mark(&mut self, name: &String)
        ensures
            final(self).used() == old(self).used().insert(name@),
    {
        self.used_vars.insert(name.clone(), ());
        assert(self.used() =~= old(self).used().insert(name@));
    }

    fn mark_used_vars(&mut self, insts: &[Instruction])
        ensures
            final(self).used() == old(self).used().union(used_names(insts_view(insts@))),
    {
        let ghost start = self.used();
        let mut i: usize = 0;
        while i < insts.len()
            invariant
                i <= insts@.len(),
                self.used() == start.union(used_names(insts_view(insts@).take(i as int))),
            decreases insts@.len() - i,
        {
            let ghost before = self.used();
            proof {
                let v = insts_view(insts@);
                assert(v.take(i + 1).drop_last() =~= v.take(i as int));
                assert(v.take(i + 1).last() == insts@[i as int]@);
            }
            match &insts[i] {
                Instruction::Load { src, .. } | Instruction::Store { src, .. } => {
                    self.mark(src);
                },
                Instruction::CondBr { cond, .. } => {
                    self.mark(cond);
                },
                Instruction::Add { left, right, .. } | Instruction::Sub { left, right, .. }
                | Instruction::Mul { left, right, .. } | Instruction::Div { left, right, .. }
                | Instruction::Mod { left, right, .. } | Instruction::Eq { left, right, .. }
                | Instruction::Ne { left, right, .. } | Instruction::Lt { left, right, .. }
                | Instruction::Le { left, right, .. } | Instruction::Gt { left, right, .. }
                | Instruction::Ge { left, right, .. } => {
                    self.mark(left);
                    self.mark(right);
                },
                Instruction::Return(Some(val)) => {
                    self.mark(val);
                },
                Instruction::ReturnInPlace(val) => {
                    self.mark(val);
                },
                Instruction::Call { args, .. } => {
                    let mut j: usize = 0;
                    while j < args.len()
                        invariant
                            j <= args@.len(),
                            self.used() == before.union(Set::new(|x: Seq<char>| texts(args@).take(j as int).contains(x))),
                        decreases args@.len() - j,
                    {
                        let ghost prev = self.used();
                        self.mark(&args[j]);
                        proof {
                            let a = texts(args@);
                            assert(self.used() == prev.insert(args@[j as int]@));
                            assert(a.take(j + 1) =~= a.take(j as int).push(args@[j as int]@));
                            assert forall|x: Seq<char>| a.take(j + 1).contains(x) <==> (a.take(j as int).contains(x) || x == args@[j as int]@) by {
                                let t1 = a.take(j + 1);
                                if t1.contains(x) {
                                    let q = choose|q: int| 0 <= q < t1.len() && t1[q] == x;
                                    if q < j {
                                        assert(a.take(j as int)[q] == x);
                                    }
                                }
                                let t0 = a.take(j as int);
                                if t0.contains(x) {
                                    let q = choose|q: int| 0 <= q < t0.len() && t0[q] == x;
                                    assert(a.take(j + 1)[q] == x);
                                }
                                if x == args@[j as int]@ {
                                    assert(a.take(j + 1)[j as int] == x);
                                }
                            }
                            assert forall|x: Seq<char>| self.used().contains(x) <==> before.union(Set::new(|y: Seq<char>| a.take(j + 1).contains(y))).contains(x) by {
                                assert(prev.contains(x) <==> (before.contains(x) || a.take(j as int).contains(x)));
                            }
                            assert(self.used() =~= before.union(Set::new(|x: Seq<char>| a.take(j + 1).contains(x))));
                        }
                        j = j + 1;
                    }
                    assert(texts(args@).take(args@.len() as int) =~= texts(args@));
                },
                _ => {},
            }
            proof {
                assert(self.used() =~= start.union(used_names(insts_view(insts@).take(i + 1))));
            }
            i = i + 1;
        }
        assert(insts_view(insts@).take(insts@.len() as int) =~= insts_view(insts@));
    }

    fn is_used(&self, inst: &Instruction) -> (r: bool)
        ensures
            r == is_live(self.used(), inst@),
    {
        match inst {
            Instruction::Return(_) | Instruction::ReturnInPlace(_) | Instruction::Call { .. } | Instruction::Br(_)
            | Instruction::CondBr { .. } | Instruction::Label(_) => true,
            Instruction::Store { dest, .. } => self.used_vars.contains_key(dest.as_str()),
            Instruction::Alloca { dest, .. } => self.used_vars.contains_key(dest.as_str()),
            Instruction::Add { dest, .. } | Instruction::Sub { dest, .. } | Instruction::Mul { dest, .. }
            | Instruction::Div { dest, .. } | Instruction::Mod { dest, .. } | Instruction::Load { dest, .. } => {
                self.used_vars.contains_key(dest.as_str())
            },
            _ => true,
        }
    }
}

// ---------------------------------------------------------------------------
// Common-subexpression elimination.
// ---------------------------------------------------------------------------

/// The key of an expression: the operation's tag, then its operands, joined
/// by underscores.
pub open spec fn expr_key(tag: Seq<char>, left: Seq<char>, right: Seq<char>) -> Seq<char> {
    tag + "_"@ + left + "_"@ + right
}

/// The tag of an operation that the eliminator reuses.
pub open spec fn cse_tag(op: BinKind) -> Option<Seq<char>> {
    match op {
        BinKind::Add => Some("add"@),
        BinKind::Sub => Some("sub"@),
        BinKind::Mul => Some("mul"@),
        _ => None,
    }
}

/// A remembered computation: its key, the name holding its result, and its
/// two operands.
pub type CseEntry = (Seq<char>, Seq<char>, Seq<char>, Seq<char>);

/// Whether a remembered computation involves `d`, as its result or as an
/// operand.
pub open spec fn mentions(e: CseEntry, d: Seq<char>) -> bool {
    e.1 == d || e.2 == d || e.3 == d
}

/// The table without the computations that involve `d`: once `d` is
/// written, neither an expression over `d` nor a result held in `d` can be
/// reused.
pub open spec fn kill(t: Seq<CseEntry>, d: Seq<char>) -> Seq<CseEntry>
    decreases t.len(),
{
    if t.len() == 0 {
        Seq::empty()
    } else {
        kill(t.drop_last(), d) + if mentions(t.last(), d) {
            Seq::<CseEntry>::empty()
        } else {
            seq![t.last()]
        }
    }
}

/// The result name of the first remembered computation with `key`.
pub open spec fn lookup(t: Seq<CseEntry>, key: Seq<char>) -> Option<Seq<char>>
    decreases t.len(),
{
    if t.len() == 0 {
        None
    } else {
        match lookup(t.drop_last(), key) {
            Some(x) => Some(x),
            None => if t.last().0 == key { Some(t.last().1) } else { None },
        }
    }
}

/// The name an instruction writes, if any.
pub open spec fn written(inst: InstV) -> Option<Seq<char>> {
    match inst {
        InstV::Alloca { dest, .. } => Some(dest),
        InstV::Store { dest, .. } => Some(dest),
        InstV::Load { dest, .. } => Some(dest),
        InstV::Bin { dest, .. } => Some(dest),
        InstV::Call { dest, .. } => dest,
        _ => None,
    }
}

/// One step: an addition, subtraction or multiplication already computed
/// (same key, operands unchanged since) becomes a store of the earlier
/// result; otherwise it is remembered, unless it overwrites one of its own
/// operands. Any instruction that writes a name first forgets every
/// computation involving that name.
pub open spec fn cse_step(st: (Seq<InstV>, Seq<CseEntry>), inst: InstV) -> (Seq<InstV>, Seq<CseEntry>) {
    let (out, t) = st;
    match inst {
        InstV::Bin { op, dest, left, right } => match cse_tag(op) {
            Some(tag) => {
                let key = expr_key(tag, left, right);
                match lookup(t, key) {
                    Some(held) => (out.push(InstV::Store { dest, src: held }), kill(t, dest)),
                    None => (
                        out.push(inst),
                        if left != dest && right != dest {
                            kill(t, dest).push((key, dest, left, right))
                        } else {
                            kill(t, dest)
                        },
                    ),
                }
            },
            None => (out.push(inst), kill(t, dest)),
        },
        _ => match written(inst) {
            Some(d) => (out.push(inst), kill(t, d)),
            None => (out.push(inst), t),
        },
    }
}

/// The result and table after a list of instructions.
pub open spec fn cse_run(insts: Seq<InstV>) -> (Seq<InstV>, Seq<CseEntry>)
    decreases insts.len(),
{
    if insts.len() == 0 {
        (Seq::empty(), Seq::empty())
    } else {
        cse_step(cse_run(insts.drop_last()), insts.last())
    }
}

/// A first match in a prefix is the first match in the whole table.
proof fn lemma_lookup_prefix(t: Seq<CseEntry>, key: Seq<char>, n: int)
    requires
        0 <= n <= t.len(),
        lookup(t.take(n), key) is Some,
    ensures
        lookup(t, key) == lookup(t.take(n), key),
    decreases t.len() - n,
{
    if n < t.len() {
        assert(t.take(n + 1).drop_last() =~= t.take(n));
        lemma_lookup_prefix(t, key, n + 1);
    } else {
        assert(t.take(n) =~= t);
    }
}

/// Reuses the results of repeated additions, subtractions and
/// multiplications.
pub struct CommonSubexprEliminator {
    expr_map: Vec<(String, String, String, String)>,
}

/// A table entry as texts.
pub open spec fn entry_text(e: (String, String, String, String)) -> CseEntry {
    (e.0@, e.1@, e.2@, e.3@)
}

impl CommonSubexprEliminator {
    /// The computations remembered by the last run, oldest first.
    pub closed spec fn table(&self) -> Seq<CseEntry> {
        self.expr_map@.map_values(|e: (String, String, String, String)| entry_text(e))
    }

    /// An empty table.
    pub fn new() -> (r: CommonSubexprEliminator)
        ensures
            r.table() == Seq::<CseEntry>::empty(),
    {
        let r = CommonSubexprEliminator { expr_map: Vec::new() };
        assert(r.table() =~= Seq::<CseEntry>::empty());
        r
    }

    /// The instructions with repeated computations replaced by stores of
    /// their first results.
    pub fn eliminate(&mut self, insts: &[Instruction]) -> (r: Vec<Instruction>)
        ensures
            (insts_view(r@), final(self).table()) == cse_run(insts_view(insts@)),
    {
        self.expr_map.clear();
        let mut result: Vec<Instruction> = Vec::new();
        let mut i: usize = 0;
        proof {
            assert(self.table() =~= Seq::<CseEntry>::empty());
            assert(insts_view(result@) =~= Seq::<InstV>::empty());
        }
        while i < insts.len()
            invariant
                i <= insts@.len(),
                (insts_view(result@), self.table()) == cse_run(insts_view(insts@).take(i as int)),
            decreases insts@.len() - i,
        {
            proof {
                let v = insts_view(insts@);
                assert(v.take(i + 1).drop_last() =~= v.take(i as int));
                assert(v.take(i + 1).last() == insts@[i as int]@);
            }
            let ghost before = result@;
            let ghost tbl = self.table();
            let inst = &insts[i];
            match inst {
                Instruction::Add { dest, left, right } => self.reuse(BinKind::Add, "add", dest, left, right, inst, &mut result),
                Instruction::Sub { dest, left, right } => self.reuse(BinKind::Sub, "sub", dest, left, right, inst, &mut result),
                Instruction::Mul { dest, left, right } => self.reuse(BinKind::Mul, "mul", dest, left, right, inst, &mut result),
                Instruction::Div { dest, .. } | Instruction::Mod { dest, .. } | Instruction::Eq { dest, .. }
                | Instruction::Ne { dest, .. } | Instruction::Lt { dest, .. } | Instruction::Le { dest, .. }
                | Instruction::Gt { dest, .. } | Instruction::Ge { dest, .. } | Instruction::Store { dest, .. }
                | Instruction::Load { dest, .. } | Instruction::Alloca { dest, .. }
                | Instruction::Call { dest: Some(dest), .. } => {
                    self.forget(dest);
                    result.push(copy_inst(inst));
                },
                _ => {
                    result.push(copy_inst(inst));
                },
            }
            proof {
                assert(insts_view(result@) =~= insts_view(before).push(cse_step((insts_view(before), tbl), inst@).0.last()));
                assert((insts_view(result@), self.table()) == cse_step((insts_view(before), tbl), inst@));
            }
            i = i + 1;
        }
        assert(insts_view(insts@).take(insts@.len() as int) =~= insts_view(insts@));
        result
    }

    /// Drops every remembered computation that involves `d`.
    fn forget(&mut self, d: &String)
        ensures
            final(self).table() == kill(old(self).table(), d@),
    {
        let ghost t = self.table();
        let mut kept: Vec<(String, String, String, String)> = Vec::new();
        let mut i: usize = 0;
        while i < self.expr_map.len()
            invariant
                i <= self.expr_map@.len(),
                t == self.table(),
                kept@.map_values(|e: (String, String, String, String)| entry_text(e)) == kill(t.take(i as int), d@),
            decreases self.expr_map@.len() - i,
        {
            proof {
                assert(t.take(i + 1).drop_last() =~= t.take(i as int));
                assert(t.take(i + 1).last() == entry_text(self.expr_map@[i as int]));
            }
            let ghost k0 = kept@.map_values(|e: (String, String, String, String)| entry_text(e));
            let e = &self.expr_map[i];
            if !(str_eq(e.1.as_str(), d.as_str()) || str_eq(e.2.as_str(), d.as_str()) || str_eq(e.3.as_str(), d.as_str())) {
                kept.push((e.0.clone(), e.1.clone(), e.2.clone(), e.3.clone()));
                assert(kept@.map_values(|e: (String, String, String, String)| entry_text(e)) =~= k0.push(t[i as int]));
            } else {
                assert(kept@.map_values(|e: (String, String, String, String)| entry_text(e)) =~= k0 + Seq::<CseEntry>::empty());
            }
            i = i + 1;
        }
        assert(t.take(i as int) =~= t);
        self.expr_map = kept;
    }

    /// The result name of the first remembered computation with `key`.
    fn find(&self, key: &String) -> (r: Option<String>)
        ensures
            match r {
                Some(x) => lookup(self.table(), key@) == Some(x@),
                None => lookup(self.table(), key@) is None,
            },
    {
        let ghost t = self.table();
        let mut i: usize = 0;
        while i < self.expr_map.len()
            invariant
                i <= self.expr_map@.len(),
                t == self.table(),
                lookup(t.take(i as int), key@) is None,
            decreases self.expr_map@.len() - i,
        {
            proof {
                assert(t.take(i + 1).drop_last() =~= t.take(i as int));
                assert(t.take(i + 1).last() == entry_text(self.expr_map@[i as int]));
            }
            if str_eq(self.expr_map[i].0.as_str(), key.as_str()) {
                proof {
                    lemma_lookup_prefix(t, key@, i + 1);
                }
                return Some(self.expr_map[i].1.clone());
            }
            i = i + 1;
        }
        assert(t.take(i as int) =~= t);
        None
    }

    fn reuse(&mut self, op: BinKind, tag: &str, dest: &String, left: &String, right: &String, inst: &Instruction, result: &mut Vec<Instruction>)
        requires
            cse_tag(op) == Some(tag@),
            inst@ == (InstV::Bin { op, dest: dest@, left: left@, right: right@ }),
        ensures
            (insts_view(final(result)@), final(self).table()) == cse_step((insts_view(old(result)@), old(self).table()), inst@),
    {
        let mut key = owned(tag);
        string_push_str(&mut key, "_");
        string_push_str(&mut key, left.as_str());
        string_push_str(&mut key, "_");
        string_push_str(&mut key, right.as_str());
        assert(key@ == expr_key(tag@, left@, right@));
        let ghost tbl = self.table();
        let ghost before = result@;
        match self.find(&key) {
            Some(held) => {
                result.push(Instruction::Store { dest: dest.clone(), src: held });
                self.forget(dest);
                assert(insts_view(result@) =~= insts_view(before).push(InstV::Store { dest: dest@, src: lookup(tbl, key@)->0 }));
            },
            None => {
                self.forget(dest);
                let ghost killed = self.table();
                if !str_eq(left.as_str(), dest.as_str()) && !str_eq(right.as_str(), dest.as_str()) {
                    self.expr_map.push((key, dest.clone(), left.clone(), right.clone()));
                    assert(self.table() =~= killed.push((expr_key(tag@, left@, right@), dest@, left@, right@)));
                }
                result.push(copy_inst(inst));
                assert(insts_view(result@) =~= insts_view(before).push(inst@));
            },
        }
    }
}

/// Whether a name has no underscore.
pub open spec fn no_underscore(s: Seq<char>) -> bool {
    forall|i: int| 0 <= i < s.len() ==> #[trigger] s[i] != '_'
}

/// Every operand of an addition, subtraction or multiplication has no
/// underscore, so that the key of a computation names it alone.
pub open spec fn plain_operands(insts: Seq<InstV>) -> bool {
    forall|i: int| 0 <= i < insts.len() ==> (#[trigger] insts[i] matches InstV::Bin { op, left, right, .. }
        ==> cse_tag(op) is Some ==> no_underscore(left) && no_underscore(right))
}

/// Texts joined by an underscore are split back where the first part ends,
/// when the first parts have no underscore.
proof fn lemma_underscore_split(a: Seq<char>, b: Seq<char>, c: Seq<char>, d: Seq<char>)
    requires
        no_underscore(a),
        no_underscore(c),
        a + "_"@ + b == c + "_"@ + d,
    ensures
        a == c,
        b == d,
{
    reveal_strlit("_");
    let s = a + "_"@ + b;
    if a.len() < c.len() {
        assert(s[a.len() as int] == '_');
        assert((c + "_"@ + d)[a.len() as int] == c[a.len() as int]);
    } else if c.len() < a.len() {
        assert((c + "_"@ + d)[c.len() as int] == '_');
        assert(s[c.len() as int] == a[c.len() as int]);
    }
    assert(a =~= s.subrange(0, a.len() as int));
    assert(c =~= (c + "_"@ + d).subrange(0, c.len() as int));
    assert(b =~= s.subrange(a.len() as int + 1, s.len() as int));
    assert(d =~= (c + "_"@ + d).subrange(c.len() as int + 1, s.len() as int));
}

/// The key of a computation determines the operation and its operands.
proof fn lemma_expr_key_injective(op: BinKind, l: Seq<char>, r: Seq<char>, op2: BinKind, l2: Seq<char>, r2: Seq<char>)
    requires
        cse_tag(op) is Some,
        cse_tag(op2) is Some,
        no_underscore(l),
        no_underscore(l2),
        expr_key(cse_tag(op)->0, l, r) == expr_key(cse_tag(op2)->0, l2, r2),
    ensures
        op == op2,
        l == l2,
        r == r2,
{
    reveal_strlit("add");
    reveal_strlit("sub");
    reveal_strlit("mul");
    let t = cse_tag(op)->0;
    let t2 = cse_tag(op2)->0;
    assert(no_underscore(t));
    assert(no_underscore(t2));
    assert(expr_key(t, l, r) == t + "_"@ + (l + "_"@ + r));
    assert(expr_key(t2, l2, r2) == t2 + "_"@ + (l2 + "_"@ + r2));
    lemma_underscore_split(t, l + "_"@ + r, t2, l2 + "_"@ + r2);
    lemma_underscore_split(l, r, l2, r2);
    if op != op2 {
        assert(t[0] != t2[0] || t[1] != t2[1] || t[2] != t2[2]);
    }
}

/// A remembered computation holds: its key names it, its operands have no
/// underscore, and its holder is a plain name holding its value.
pub open spec fn cse_entry_holds(e: CseEntry, env: Map<Seq<char>, int>) -> bool {
    exists|op: BinKind| #[trigger] cse_tag(op) is Some && e.0 == expr_key(cse_tag(op)->0, e.2, e.3) && no_underscore(e.2)
        && no_underscore(e.3) && leaf_of(e.1) == Leaf::Name(e.1) && env[e.1] == apply_op(
        op,
        leaf_value(env, leaf_of(e.2)),
        leaf_value(env, leaf_of(e.3)),
    )
}

/// Every remembered computation holds.
pub open spec fn cse_table_holds(t: Seq<CseEntry>, env: Map<Seq<char>, int>) -> bool {
    forall|j: int| 0 <= j < t.len() ==> #[trigger] cse_entry_holds(t[j], env)
}

/// The entries that survive a write of `d` are entries of the table that
/// do not involve `d`.
proof fn lemma_cse_kill_members(t: Seq<CseEntry>, d: Seq<char>)
    ensures
        forall|j: int| 0 <= j < kill(t, d).len() ==> t.contains(#[trigger] kill(t, d)[j]) && !mentions(kill(t, d)[j], d),
    decreases t.len(),
{
    if t.len() > 0 {
        lemma_cse_kill_members(t.drop_last(), d);
        let k = kill(t, d);
        let k0 = kill(t.drop_last(), d);
        assert forall|j: int| 0 <= j < k.len() implies t.contains(#[trigger] k[j]) && !mentions(k[j], d) by {
            if j < k0.len() {
                assert(k[j] == k0[j]);
                let q = choose|q: int| 0 <= q < t.drop_last().len() && t.drop_last()[q] == k0[j];
                assert(t[q] == k0[j]);
            } else {
                assert(k[j] == t.last());
                assert(t[t.len() - 1] == t.last());
            }
        }
    }
}

/// After a write of `d`, the surviving entries still hold.
proof fn lemma_cse_kill_holds(t: Seq<CseEntry>, d: Seq<char>, env: Map<Seq<char>, int>, env2: Map<Seq<char>, int>)
    requires
        cse_table_holds(t, env),
        forall|x: Seq<char>| x != d ==> #[trigger] env2[x] == env[x],
    ensures
        cse_table_holds(kill(t, d), env2),
{
    lemma_cse_kill_members(t, d);
    let k = kill(t, d);
    assert forall|j: int| 0 <= j < k.len() implies #[trigger] cse_entry_holds(k[j], env2) by {
        let e = k[j];
        let q = choose|q: int| 0 <= q < t.len() && t[q] == e;
        assert(cse_entry_holds(t[q], env));
        let op = choose|op: BinKind| #[trigger] cse_tag(op) is Some && e.0 == expr_key(cse_tag(op)->0, e.2, e.3)
            && no_underscore(e.2) && no_underscore(e.3) && leaf_of(e.1) == Leaf::Name(e.1) && env[e.1] == apply_op(
            op,
            leaf_value(env, leaf_of(e.2)),
            leaf_value(env, leaf_of(e.3)),
        );
        assert(leaf_value(env2, leaf_of(e.2)) == leaf_value(env, leaf_of(e.2)));
        assert(leaf_value(env2, leaf_of(e.3)) == leaf_value(env, leaf_of(e.3)));
    }
}

/// The holder `lookup` gives is that of an entry with the key.
proof fn lemma_lookup_member(t: Seq<CseEntry>, key: Seq<char>)
    requires
        lookup(t, key) is Some,
    ensures
        exists|j: int| 0 <= j < t.len() && t[j].0 == key && #[trigger] t[j].1 == lookup(t, key)->0,
    decreases t.len(),
{
    if lookup(t.drop_last(), key) is Some {
        lemma_lookup_member(t.drop_last(), key);
        let j = choose|j: int| 0 <= j < t.drop_last().len() && t.drop_last()[j].0 == key && #[trigger] t.drop_last()[j].1
            == lookup(t.drop_last(), key)->0;
        assert(t[j] == t.drop_last()[j]);
    } else {
        assert(t[t.len() - 1] == t.last());
    }
}

/// Common-subexpression elimination preserves what straight-line code
/// computes: running the result gives the same environment as running the
/// original, whenever every written name is a plain name and no operand of
/// an addition, subtraction or multiplication has an underscore (with an
/// underscore, two different computations can share a key).
pub proof fn lemma_cse_preserves(insts: Seq<InstV>, env: Map<Seq<char>, int>)
    requires
        plain_dests(insts),
        plain_operands(insts),
    ensures
        run_all(cse_run(insts).0, env) == run_all(insts, env),
        cse_table_holds(cse_run(insts).1, run_all(insts, env)),
    decreases insts.len(),
{
    if insts.len() > 0 {
        let p = insts.drop_last();
        assert forall|i: int| 0 <= i < p.len() implies (#[trigger] gvn_written(p[i]) matches Some(d) ==> leaf_of(d) == Leaf::Name(d)) by {
            assert(p[i] == insts[i]);
        }
        assert forall|i: int| 0 <= i < p.len() implies (#[trigger] p[i] matches InstV::Bin { op, left, right, .. }
            ==> cse_tag(op) is Some ==> no_underscore(left) && no_underscore(right)) by {
            assert(p[i] == insts[i]);
        }
        lemma_cse_preserves(p, env);
        let st = cse_run(p);
        let e = run_all(p, env);
        let inst = insts.last();
        assert(inst == insts[insts.len() - 1]);
        let st2 = cse_step(st, inst);
        assert(st2 == cse_run(insts));
        let e2 = run_step(e, inst);
        assert(e2 == run_all(insts, env));
        assert(st2.0.drop_last() == st.0);
        match inst {
            InstV::Bin { op, dest, left, right } => {
                assert(leaf_of(dest) == Leaf::Name(dest));
                lemma_cse_kill_holds(st.1, dest, e, e2);
                match cse_tag(op) {
                    Some(tag) => {
                        let key = expr_key(tag, left, right);
                        match lookup(st.1, key) {
                            Some(held) => {
                                lemma_lookup_member(st.1, key);
                                let j = choose|j: int| 0 <= j < st.1.len() && st.1[j].0 == key && #[trigger] st.1[j].1 == held;
                                let ent = st.1[j];
                                assert(cse_entry_holds(ent, e));
                                let op2 = choose|op2: BinKind| #[trigger] cse_tag(op2) is Some && ent.0 == expr_key(
                                    cse_tag(op2)->0,
                                    ent.2,
                                    ent.3,
                                ) && no_underscore(ent.2) && no_underscore(ent.3) && leaf_of(ent.1) == Leaf::Name(ent.1)
                                    && e[ent.1] == apply_op(op2, leaf_value(e, leaf_of(ent.2)), leaf_value(e, leaf_of(ent.3)));
                                lemma_expr_key_injective(op, left, right, op2, ent.2, ent.3);
                                assert(run_step(e, InstV::Store { dest, src: held }) == e2);
                            },
                            None => {
                                if left != dest && right != dest {
                                    let t2 = kill(st.1, dest).push((key, dest, left, right));
                                    assert(st2.1 == t2);
                                    assert forall|q: int| 0 <= q < t2.len() implies #[trigger] cse_entry_holds(t2[q], e2) by {
                                        if q < t2.len() - 1 {
                                            assert(t2[q] == kill(st.1, dest)[q]);
                                        } else {
                                            assert(leaf_value(e2, leaf_of(left)) == leaf_value(e, leaf_of(left)));
                                            assert(leaf_value(e2, leaf_of(right)) == leaf_value(e, leaf_of(right)));
                                            assert(cse_tag(op) is Some);
                                        }
                                    }
                                }
                            },
                        }
                    },
                    None => {},
                }
            },
            _ => {
                match gvn_written(inst) {
                    Some(d) => {
                        lemma_cse_kill_holds(st.1, d, e, e2);
                    },
                    None => {},
                }
            },
        }
    }
}

// ---------------------------------------------------------------------------
// Algebraic simplification.
// ---------------------------------------------------------------------------

/// Whether an operand is the constant zero.
pub open spec fn is_zero_spec(v: Seq<char>) -> bool {
    v == "const.i32.0"@ || v == "const.i64.0"@
}

/// Whether an operand is the constant one.
pub open spec fn is_one_spec(v: Seq<char>) -> bool {
    v == "const.i32.1"@ || v == "const.i64.1"@
}

/// An instruction simplified by `x + 0 = 0 + x = x`, `x - 0 = x`,
/// `x * 0 = 0 * x = 0`, `x * 1 = 1 * x = x` and `x / 1 = x`.
pub open spec fn simplified(inst: InstV) -> InstV {
    match inst {
        InstV::Bin { op, dest, left, right } => match op {
            BinKind::Add => if is_zero_spec(right) {
                InstV::Store { dest, src: left }
            } else if is_zero_spec(left) {
                InstV::Store { dest, src: right }
            } else {
                inst
            },
            BinKind::Sub => if is_zero_spec(right) {
                InstV::Store { dest, src: left }
            } else {
                inst
            },
            BinKind::Mul => if is_zero_spec(left) || is_zero_spec(right) {
                InstV::Store { dest, src: "const.i32.0"@ }
            } else if is_one_spec(right) {
                InstV::Store { dest, src: left }
            } else if is_one_spec(left) {
                InstV::Store { dest, src: right }
            } else {
                inst
            },
            BinKind::Div => if is_one_spec(right) {
                InstV::Store { dest, src: left }
            } else {
                inst
            },
            _ => inst,
        },
        _ => inst,
    }
}

/// The operand `const.iNN.d` for a single digit `d` reads as that digit.
proof fn lemma_digit_leaf(v: Seq<char>, d: char)
    requires
        '0' <= d <= '9',
        v.len() == 11,
        v.take(10) == "const.i32."@ || v.take(10) == "const.i64."@,
        v[10] == d,
    ensures
        leaf_of(v) == Leaf::Int((d as int - '0' as int) as i64),
{
    reveal_strlit("const.i32.");
    reveal_strlit("const.i64.");
    let t = v.skip(10);
    assert(t =~= seq![d]);
    assert(t.drop_last() =~= Seq::<char>::empty());
    assert(crate::stdlib::conv::digits_value(Seq::<char>::empty(), 10) == 0);
    assert(t.last() == d);
    assert(crate::stdlib::conv::digit_value(d, 10) == d as int - '0' as int);
    assert(crate::stdlib::conv::digits_value(t, 10) == d as int - '0' as int);
    assert(crate::stdlib::conv::all_digits(t, 10));
    if v.take(10) == "const.i64."@ {
        assert(v.take(10)[8] != "const.i32."@[8]);
    }
}

/// The constant operands zero and one read as the integers zero and one.
proof fn lemma_zero_one_leaves(v: Seq<char>)
    ensures
        is_zero_spec(v) ==> leaf_of(v) == Leaf::Int(0),
        is_one_spec(v) ==> leaf_of(v) == Leaf::Int(1),
{
    reveal_strlit("const.i32.0");
    reveal_strlit("const.i64.0");
    reveal_strlit("const.i32.1");
    reveal_strlit("const.i64.1");
    reveal_strlit("const.i32.");
    reveal_strlit("const.i64.");
    if v == "const.i32.0"@ || v == "const.i64.0"@ || v == "const.i32.1"@ || v == "const.i64.1"@ {
        assert(v.take(10) =~= "const.i32."@ || v.take(10) =~= "const.i64."@);
        lemma_digit_leaf(v, v[10]);
    }
}

/// Algebraic simplification keeps what an instruction computes: running
/// the simplified instruction on any integer environment gives the same
/// environment as running the original.
pub proof fn lemma_simplify_preserves(env: Map<Seq<char>, int>, inst: InstV)
    ensures
        run_step(env, simplified(inst)) == run_step(env, inst),
{
    match inst {
        InstV::Bin { op, dest, left, right } => {
            lemma_zero_one_leaves(left);
            lemma_zero_one_leaves(right);
            lemma_zero_one_leaves("const.i32.0"@);
            assert(is_zero_spec("const.i32.0"@));
        },
        _ => {},
    }
}

/// Simplifies arithmetic with neutral and absorbing constants.
pub struct AlgebraicSimplifier;

impl AlgebraicSimplifier {
    pub fn new() -> (r: AlgebraicSimplifier) {
        AlgebraicSimplifier
    }

    /// Each instruction simplified.
    pub fn simplify(&self, insts: &[Instruction]) -> (r: Vec<Instruction>)
        ensures
            insts_view(r@) == insts_view(insts@).map_values(|i: InstV| simplified(i)),
    {
        let mut r: Vec<Instruction> = Vec::new();
        let mut i: usize = 0;
        while i < insts.len()
            invariant
                i <= insts@.len(),
                r@.len() == i,
                forall|j: int| 0 <= j < i ==> #[trigger] r@[j]@ == simplified(insts@[j]@),
            decreases insts@.len() - i,
        {
            r.push(self.simplify_instruction(&insts[i]));
            i = i + 1;
        }
        assert(insts_view(r@) =~= insts_view(insts@).map_values(|i: InstV| simplified(i)));
        r
    }

    fn simplify_instruction(&self, inst: &Instruction) -> (r: Instruction)
        ensures
            r@ == simplified(inst@),
    {
        match inst {
            Instruction::Add { dest, left, right } => {
                if self.is_zero(right) {
                    Instruction::Store { dest: dest.clone(), src: left.clone() }
                } else if self.is_zero(left) {
                    Instruction::Store { dest: dest.clone(), src: right.clone() }
                } else {
                    copy_inst(inst)
                }
            },
            Instruction::Sub { dest, left, right } => {
                if self.is_zero(right) {
                    Instruction::Store { dest: dest.clone(), src: left.clone() }
                } else {
                    copy_inst(inst)
                }
            },
            Instruction::Mul { dest, left, right } => {
                if self.is_zero(left) || self.is_zero(right) {
                    let zero = owned("const.i32.0");
                    Instruction::Store { dest: dest.clone(), src: zero }
                } else if self.is_one(right) {
                    Instruction::Store { dest: dest.clone(), src: left.clone() }
                } else if self.is_one(left) {
                    Instruction::Store { dest: dest.clone(), src: right.clone() }
                } else {
                    copy_inst(inst)
                }
            },
            Instruction::Div { dest, left, right } => {
                if self.is_one(right) {
                    Instruction::Store { dest: dest.clone(), src: left.clone() }
                } else {
                    copy_inst(inst)
                }
            },
            _ => copy_inst(inst),
        }
    }

    fn is_zero(&self, var: &String) -> (r: bool)
        ensures
            r == is_zero_spec(var@),
    {
        str_eq(var.as_str(), "const.i32.0") || str_eq(var.as_str(), "const.i64.0")
    }

    fn is_one(&self, var: &String) -> (r: bool)
        ensures
            r == is_one_spec(var@),
    {
        str_eq(var.as_str(), "const.i32.1") || str_eq(var.as_str(), "const.i64.1")
    }
}

} // verus!
