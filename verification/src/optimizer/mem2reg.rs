//! Promotion of stack slots to values.
use vstd::prelude::*;
use crate::strmap::StrMap;
use crate::text::str_eq;
use crate::optimizer::ir::{Function, InstV, Instruction, insts_view, copy_inst, texts};
use crate::optimizer::names::{has_prefix, starts_with};

verus! {

/// The slots an instruction list allocates, in order.
pub open spec fn alloca_names(insts: Seq<InstV>) -> Seq<Seq<char>>
    decreases insts.len(),
{
    if insts.len() == 0 {
        Seq::empty()
    } else {
        alloca_names(insts.drop_last()) + match insts.last() {
            InstV::Alloca { dest, .. } => seq![dest],
            _ => Seq::empty(),
        }
    }
}

/// Number of stores to `name`.
pub open spec fn store_count(insts: Seq<InstV>, name: Seq<char>) -> nat
    decreases insts.len(),
{
    if insts.len() == 0 {
        0
    } else {
        store_count(insts.drop_last(), name) + match insts.last() {
            InstV::Store { dest, .. } => if dest == name { 1nat } else { 0nat },
            _ => 0nat,
        }
    }
}

/// Number of loads from `name`.
pub open spec fn load_count(insts: Seq<InstV>, name: Seq<char>) -> nat
    decreases insts.len(),
{
    if insts.len() == 0 {
        0
    } else {
        load_count(insts.drop_last(), name) + match insts.last() {
            InstV::Load { src, .. } => if src == name { 1nat } else { 0nat },
            _ => 0nat,
        }
    }
}

/// Whether some store other than to `name` goes through a `ptr.` or `ref.`
/// name.
pub open spec fn has_alias(insts: Seq<InstV>, name: Seq<char>) -> bool {
    exists|i: int|
        0 <= i < insts.len() && (#[trigger] insts[i] matches InstV::Store { dest, .. } && dest != name && (has_prefix(
            dest,
            "ptr."@,
        ) || has_prefix(dest, "ref."@)))
}

/// A slot is promoted when it is stored once, loaded at least once, and no
/// store may alias it.
pub open spec fn promotable(insts: Seq<InstV>, name: Seq<char>) -> bool {
    store_count(insts, name) == 1 && load_count(insts, name) > 0 && !has_alias(insts, name)
}

/// One instruction of a round: promotable allocations go, stores to slots
/// record the stored value instead, loads from slots with a recorded value
/// become stores of it; the rest is kept.
pub open spec fn m2r_step(
    slots: Seq<Seq<char>>,
    body: Seq<InstV>,
    st: (Seq<InstV>, Map<Seq<char>, Seq<char>>),
    inst: InstV,
) -> (Seq<InstV>, Map<Seq<char>, Seq<char>>) {
    let (out, cv) = st;
    match inst {
        InstV::Alloca { dest, .. } => if promotable(body, dest) { (out, cv) } else { (out.push(inst), cv) },
        InstV::Store { dest, src } => if slots.contains(dest) { (out, cv.insert(dest, src)) } else { (out.push(inst), cv) },
        InstV::Load { dest, src } => if slots.contains(src) && cv.contains_key(src) {
            (out.push(InstV::Store { dest, src: cv[src] }), cv)
        } else {
            (out.push(inst), cv)
        },
        _ => (out.push(inst), cv),
    }
}

/// A round over a prefix of the body.
pub open spec fn m2r_scan(slots: Seq<Seq<char>>, body: Seq<InstV>, insts: Seq<InstV>) -> (Seq<InstV>, Map<Seq<char>, Seq<char>>)
    decreases insts.len(),
{
    if insts.len() == 0 {
        (Seq::empty(), Map::empty())
    } else {
        m2r_step(slots, body, m2r_scan(slots, body, insts.drop_last()), insts.last())
    }
}

/// The body after one round.
pub open spec fn m2r_round(body: Seq<InstV>) -> Seq<InstV> {
    m2r_scan(alloca_names(body), body, body).0
}

/// Rounds repeated while the body has allocations and a round shortens it:
/// a round that keeps the length keeps the body, so this is where the
/// rounds stop changing anything.
pub open spec fn m2r_fix(body: Seq<InstV>) -> Seq<InstV>
    decreases body.len(),
{
    if alloca_names(body).len() == 0 {
        body
    } else {
        let next = m2r_round(body);
        if next.len() < body.len() {
            m2r_fix(next)
        } else {
            body
        }
    }
}

/// Repeating rounds never lengthens the body.
pub proof fn lemma_m2r_fix_len(body: Seq<InstV>)
    ensures
        m2r_fix(body).len() <= body.len(),
    decreases body.len(),
{
    if alloca_names(body).len() != 0 && m2r_round(body).len() < body.len() {
        lemma_m2r_fix_len(m2r_round(body));
    }
}

/// What is known of a promoted value: nothing yet, one constant, or that
/// it varies.
#[derive(Debug, Clone, Copy, PartialEq, Eq, Structural)]
pub enum LatticeValue {
    Undefined,
    Constant(i64),
    NotConstant,
}

/// Promotes stack slots that are stored once and loaded to the stored
/// values.
pub struct Mem2Reg {
    allocas: Vec<String>,
    var_to_allocas: StrMap<String>,
    phi_nodes: StrMap<String>,
    current_version: StrMap<String>,
}

impl Mem2Reg {
    /// The slots found in the last round.
    pub closed spec fn slots(&self) -> Seq<Seq<char>> {
        texts(self.allocas@)
    }

    /// No slots.
    pub fn new() -> (r: Mem2Reg)
        ensures
            r.slots() == Seq::<Seq<char>>::empty(),
    {
        let r = Mem2Reg {
            allocas: Vec::new(),
            var_to_allocas: StrMap::new(),
            phi_nodes: StrMap::new(),
            current_version: StrMap::new(),
        };
        assert(r.slots() =~= Seq::<Seq<char>>::empty());
        r
    }

    /// Repeats rounds while allocations are left and a round changes the
    /// body; tells whether anything was promoted (the body got shorter).
    pub fn promote(&mut self, func: &mut Function) -> (changed: bool)
        ensures
            insts_view(final(func).body@) == m2r_fix(insts_view(old(func).body@)),
            changed == (m2r_fix(insts_view(old(func).body@)).len() < old(func).body@.len()),
            final(func).name == old(func).name,
            final(func).params == old(func).params,
            final(func).is_kernel == old(func).is_kernel,
    {
        let ghost b0 = insts_view(func.body@);
        let mut changed = false;
        loop
            invariant
                b0 == insts_view(old(func).body@),
                m2r_fix(insts_view(func.body@)) == m2r_fix(b0),
                changed == (func.body@.len() < b0.len()),
                func.body@.len() <= b0.len(),
                func.name == old(func).name,
                func.params == old(func).params,
                func.is_kernel == old(func).is_kernel,
            ensures
                insts_view(func.body@) == m2r_fix(b0),
                changed == (func.body@.len() < b0.len()),
                func.name == old(func).name,
                func.params == old(func).params,
                func.is_kernel == old(func).is_kernel,
            decreases func.body@.len(),
        {
            self.allocas = Vec::new();
            self.var_to_allocas.clear();
            self.phi_nodes.clear();
            self.current_version.clear();
            let ghost b = insts_view(func.body@);
            self.find_allocas(&func.body);
            if self.allocas.len() == 0 {
                proof {
                    assert(self.slots() == alloca_names(b));
                }
                break;
            }
            let new_body = self.transform_function(&func.body);
            proof {
                assert(self.slots() == alloca_names(b));
                assert(insts_view(new_body@) == m2r_round(b));
            }
            if new_body.len() >= func.body.len() {
                break;
            }
            changed = true;
            func.body = new_body;
        }
        proof {
            lemma_m2r_fix_len(b0);
        }
        changed
    }

    /// Appends the slots the instructions allocate; tells whether there is
    /// one.
    fn find_allocas(&mut self, insts: &Vec<Instruction>) -> (found: bool)
        ensures
            final(self).slots() == old(self).slots() + alloca_names(insts_view(insts@)),
            found == (alloca_names(insts_view(insts@)).len() > 0),
    {
        let mut found = false;
        let mut i: usize = 0;
        while i < insts.len()
            invariant
                i <= insts@.len(),
                self.slots() == old(self).slots() + alloca_names(insts_view(insts@).take(i as int)),
                found == (alloca_names(insts_view(insts@).take(i as int)).len() > 0),
            decreases insts@.len() - i,
        {
            proof {
                let v = insts_view(insts@);
                assert(v.take(i + 1).drop_last() =~= v.take(i as int));
                assert(v.take(i + 1).last() == insts@[i as int]@);
            }
            let ghost prev = self.slots();
            if let Instruction::Alloca { dest, ty: _ } = &insts[i] {
                self.allocas.push(dest.clone());
                assert(self.slots() =~= prev.push(dest@));
                self.var_to_allocas.insert(dest.clone(), dest.clone());
                found = true;
            }
            proof {
                assert(self.slots() =~= old(self).slots() + alloca_names(insts_view(insts@).take(i + 1)));
            }
            i = i + 1;
        }
        assert(insts_view(insts@).take(insts@.len() as int) =~= insts_view(insts@));
        found
    }

    fn transform_function(&self, insts: &Vec<Instruction>) -> (r: Vec<Instruction>)
        ensures
            insts_view(r@) == m2r_scan(self.slots(), insts_view(insts@), insts_view(insts@)).0,
    {
        let ghost body = insts_view(insts@);
        let mut result: Vec<Instruction> = Vec::new();
        let mut current_version: StrMap<String> = StrMap::new();
        let mut i: usize = 0;
        proof {
            assert(body.take(0) =~= Seq::<InstV>::empty());
            assert(current_version@.map_values(|s: String| s@) =~= Map::<Seq<char>, Seq<char>>::empty());
        }
        while i < insts.len()
            invariant
                i <= insts@.len(),
                body == insts_view(insts@),
                (insts_view(result@), current_version@.map_values(|s: String| s@)) == m2r_scan(self.slots(), body, body.take(i as int)),
            decreases insts@.len() - i,
        {
            proof {
                assert(body.take(i + 1).drop_last() =~= body.take(i as int));
                assert(body.take(i + 1).last() == insts@[i as int]@);
            }
            let ghost before = result@;
            let ghost cv = current_version@.map_values(|s: String| s@);
            let inst = &insts[i];
            match inst {
                Instruction::Alloca { dest, .. } => {
                    if !should_promote(dest, insts) {
                        result.push(copy_inst(inst));
                    }
                },
                Instruction::Store { dest, src } => {
                    if contains_name(&self.allocas, dest) {
                        current_version.insert(dest.clone(), src.clone());
                        assert(current_version@.map_values(|s: String| s@) =~= cv.insert(dest@, src@));
                    } else {
                        result.push(copy_inst(inst));
                    }
                },
                Instruction::Load { dest, src } => {
                    let mut done = false;
                    if contains_name(&self.allocas, src) {
                        match current_version.get(src.as_str()) {
                            Some(version) => {
                                result.push(Instruction::Store { dest: dest.clone(), src: version.clone() });
                                done = true;
                            },
                            None => {},
                        }
                    }
                    if !done {
                        result.push(copy_inst(inst));
                    }
                },
                _ => {
                    result.push(copy_inst(inst));
                },
            }
            proof {
                let want = m2r_step(self.slots(), body, (insts_view(before), cv), inst@);
                assert(insts_view(result@) =~= want.0);
                assert(current_version@.map_values(|s: String| s@) =~= want.1);
            }
            i = i + 1;
        }
        assert(body.take(insts@.len() as int) =~= body);
        result
    }
}

/// Whether the list holds a name equal to `s`.
fn contains_name(v: &Vec<String>, s: &String) -> (r: bool)
    ensures
        r == texts(v@).contains(s@),
{
    let mut i: usize = 0;
    while i < v.len()
        invariant
            i <= v@.len(),
            forall|j: int| 0 <= j < i ==> v@[j]@ != s@,
        decreases v@.len() - i,
    {
        if str_eq(v[i].as_str(), s.as_str()) {
            assert(texts(v@)[i as int] == s@);
            return true;
        }
        i = i + 1;
    }
    proof {
        if texts(v@).contains(s@) {
            let j = choose|j: int| 0 <= j < texts(v@).len() && texts(v@)[j] == s@;
            assert(v@[j]@ == s@);
        }
    }
    false
}

/// Whether a slot is promoted, as `promotable`.
fn should_promote(alloca_name: &String, insts: &Vec<Instruction>) -> (r: bool)
    ensures
        r == promotable(insts_view(insts@), alloca_name@),
{
    let ghost v = insts_view(insts@);
    let mut stores: usize = 0;
    let mut loads: usize = 0;
    let mut alias = false;
    let mut i: usize = 0;
    while i < insts.len()
        invariant
            i <= insts@.len(),
            v == insts_view(insts@),
            stores == store_count(v.take(i as int), alloca_name@),
            loads == load_count(v.take(i as int), alloca_name@),
            stores <= i,
            loads <= i,
            alias == has_alias(v.take(i as int), alloca_name@),
        decreases insts@.len() - i,
    {
        proof {
            assert(v.take(i + 1).drop_last() =~= v.take(i as int));
            assert(v.take(i + 1).last() == insts@[i as int]@);
        }
        let ghost prev_alias = alias;
        match &insts[i] {
            Instruction::Store { dest, .. } => {
                if str_eq(dest.as_str(), alloca_name.as_str()) {
                    stores = stores + 1;
                } else if starts_with(dest.as_str(), "ptr.") || starts_with(dest.as_str(), "ref.") {
                    alias = true;
                }
            },
            Instruction::Load { src, .. } => {
                if str_eq(src.as_str(), alloca_name.as_str()) {
                    loads = loads + 1;
                }
            },
            _ => {},
        }
        proof {
            let t = v.take(i + 1);
            assert forall|j: int| 0 <= j < i + 1 implies (#[trigger] t[j] == if j < i { v.take(i as int)[j] } else { v[i as int] }) by {}
            if has_alias(t, alloca_name@) && !prev_alias {
                let j = choose|j: int| 0 <= j < t.len() && (#[trigger] t[j] matches InstV::Store { dest, .. } && dest != alloca_name@ && (has_prefix(dest, "ptr."@) || has_prefix(dest, "ref."@)));
                if j < i {
                    assert(v.take(i as int)[j] == t[j]);
                }
            }
            if prev_alias {
                let j = choose|j: int| 0 <= j < v.take(i as int).len() && (#[trigger] v.take(i as int)[j] matches InstV::Store { dest, .. } && dest != alloca_name@ && (has_prefix(dest, "ptr."@) || has_prefix(dest, "ref."@)));
                assert(t[j] == v.take(i as int)[j]);
            }
            if alias && !prev_alias {
                assert(t[i as int] == v[i as int]);
            }
        }
        i = i + 1;
    }
    assert(v.take(insts@.len() as int) =~= v);
    stores == 1 && loads > 0 && !alias
}

} // verus!
