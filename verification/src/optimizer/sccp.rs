//! Sparse conditional constant propagation.
use vstd::prelude::*;
use crate::strmap::StrMap;
use crate::text::str_eq;
use crate::optimizer::ir::{BinKind, Function, InstV, Instruction, insts_view, copy_inst};
use crate::optimizer::cleanup::written;
use crate::optimizer::names::{has_prefix, number_after, numbered, parse_number_after, make_numbered, starts_with};

verus! {

/// What is known of a value.
#[derive(Debug, Clone, Copy, PartialEq, Eq, Structural)]
pub enum ConstState {
    Undefined,
    Constant(i64),
    Overdefined,
}

/// A value's known constant.
pub open spec fn known_const(m: Map<Seq<char>, ConstState>, src: Seq<char>) -> Option<i64> {
    if m.contains_key(src) && m[src] matches ConstState::Constant(v) {
        Some(m[src]->Constant_0)
    } else {
        None
    }
}

/// The number of a `const.i32.` or `const.i64.` operand.
pub open spec fn literal_const(src: Seq<char>) -> Option<i64> {
    if has_prefix(src, "const.i32."@) {
        number_after(src, "const.i32."@)
    } else if has_prefix(src, "const.i64."@) {
        number_after(src, "const.i64."@)
    } else {
        None
    }
}

/// The state of a sum: constant when both operands are.
pub open spec fn sum_state(m: Map<Seq<char>, ConstState>, l: Seq<char>, r: Seq<char>) -> ConstState {
    match (known_const(m, l), known_const(m, r)) {
        (Some(a), Some(b)) => ConstState::Constant(vstd::wrapping::i64_specs::wrapping_add(a, b)),
        _ => ConstState::Overdefined,
    }
}

/// The table after one instruction of a block.
pub open spec fn block_step(m: Map<Seq<char>, ConstState>, inst: InstV) -> Map<Seq<char>, ConstState> {
    match inst {
        InstV::Bin { op: BinKind::Add, dest, left, right } => m.insert(dest, sum_state(m, left, right)),
        InstV::Store { dest, src } => match known_const(m, src) {
            Some(v) => m.insert(dest, ConstState::Constant(v)),
            None => if has_prefix(src, "const."@) {
                match literal_const(src) {
                    Some(n) => m.insert(dest, ConstState::Constant(n)),
                    None => m,
                }
            } else {
                m.insert(dest, ConstState::Overdefined)
            },
        },
        _ => m,
    }
}

/// Whether a conditional branch on a known 0 or 1 is met.
pub open spec fn decided_branch(m: Map<Seq<char>, ConstState>, inst: InstV) -> bool {
    match inst {
        InstV::CondBr { cond, .. } => m.contains_key(cond) && (m[cond] == ConstState::Constant(1) || m[cond]
            == ConstState::Constant(0)),
        _ => false,
    }
}

/// The scan of a block: whether it has started, whether it has ended, the
/// table, and whether a decided branch was met.
pub struct BlockScan {
    pub started: bool,
    pub ended: bool,
    pub table: Map<Seq<char>, ConstState>,
    pub decided: bool,
}

/// One instruction of the scan for block `bb`: its label starts the block,
/// another label after the start ends it, and the instructions between are
/// evaluated.
pub open spec fn scan_step(bb: Seq<char>, s: BlockScan, inst: InstV) -> BlockScan {
    if s.ended {
        s
    } else {
        match inst {
            InstV::Label(name) => if name == bb {
                BlockScan { started: true, ..s }
            } else if s.started {
                BlockScan { ended: true, ..s }
            } else {
                s
            },
            _ => if !s.started {
                s
            } else {
                BlockScan {
                    table: block_step(s.table, inst),
                    decided: s.decided || decided_branch(s.table, inst),
                    ..s
                }
            },
        }
    }
}

/// The scan over a list of instructions.
pub open spec fn scan_run(bb: Seq<char>, s: BlockScan, insts: Seq<InstV>) -> BlockScan
    decreases insts.len(),
{
    if insts.len() == 0 {
        s
    } else {
        scan_step(bb, scan_run(bb, s, insts.drop_last()), insts.last())
    }
}

/// The constant an operand stands for: the known value of a name, or the
/// number of a `const.i32.` / `const.i64.` literal.
pub open spec fn value_const(m: Map<Seq<char>, ConstState>, src: Seq<char>) -> Option<i64> {
    match known_const(m, src) {
        Some(v) => Some(v),
        None => literal_const(src),
    }
}

/// The instructions after simplification: an addition of two constants
/// becomes a store of its `const.i32.` sum; a store of a constant makes its
/// destination known; any other write makes its destination unknown.
pub open spec fn simplify_step(
    st: (Seq<InstV>, Map<Seq<char>, ConstState>),
    inst: InstV,
) -> (Seq<InstV>, Map<Seq<char>, ConstState>) {
    let (out, m) = st;
    match inst {
        InstV::Bin { op: BinKind::Add, dest, left, right } => match (value_const(m, left), value_const(m, right)) {
            (Some(a), Some(b)) => {
                let s = vstd::wrapping::i64_specs::wrapping_add(a, b);
                (out.push(InstV::Store { dest, src: numbered("const.i32."@, s as int) }), m.insert(dest, ConstState::Constant(s)))
            },
            _ => (out.push(inst), m.insert(dest, ConstState::Overdefined)),
        },
        InstV::Store { dest, src } => (out.push(inst), m.insert(dest, match value_const(m, src) {
            Some(v) => ConstState::Constant(v),
            None => ConstState::Overdefined,
        })),
        _ => match written(inst) {
            Some(d) => (out.push(inst), m.insert(d, ConstState::Overdefined)),
            None => (out.push(inst), m),
        },
    }
}

/// Simplification over a list of instructions.
pub open spec fn simplify_run(insts: Seq<InstV>) -> (Seq<InstV>, Map<Seq<char>, ConstState>)
    decreases insts.len(),
{
    if insts.len() == 0 {
        (Seq::empty(), Map::empty())
    } else {
        simplify_step(simplify_run(insts.drop_last()), insts.last())
    }
}

/// The labels of a body, in order.
pub open spec fn labels_of(insts: Seq<InstV>) -> Seq<Seq<char>>
    decreases insts.len(),
{
    if insts.len() == 0 {
        Seq::empty()
    } else {
        labels_of(insts.drop_last()) + match insts.last() {
            InstV::Label(n) => seq![n],
            _ => Seq::empty(),
        }
    }
}

/// Propagates constants through basic blocks.
pub struct SCCP {
    bb_states: StrMap<StrMap<ConstState>>,
}

impl SCCP {
    /// The blocks that have a table.
    pub closed spec fn blocks(&self) -> Set<Seq<char>> {
        self.bb_states@.dom()
    }

    /// The table of block `bb`.
    pub closed spec fn block_table(&self, bb: Seq<char>) -> Map<Seq<char>, ConstState> {
        self.bb_states@[bb]@
    }

    /// No block tables.
    pub fn new() -> (r: SCCP)
        ensures
            r.blocks() == Set::<Seq<char>>::empty(),
    {
        let r = SCCP { bb_states: StrMap::new() };
        assert(r.blocks() =~= Set::<Seq<char>>::empty());
        r
    }

    /// Gives each block a table, propagates constants through the blocks up
    /// to ten times while something changes, and returns the function's
    /// body simplified.
    pub fn run(&mut self, func: &Function) -> (r: Vec<Instruction>)
        ensures
            insts_view(r@) == simplify_run(insts_view(func.body@)).0,
            final(self).blocks() == Set::new(|b: Seq<char>| labels_of(insts_view(func.body@)).contains(b)),
    {
        self.bb_states.clear();
        let labels = collect_labels(&func.body);
        let mut k: usize = 0;
        let ghost names = labels@.map_values(|s: String| s@);
        proof {
            assert(self.blocks() =~= Set::new(|b: Seq<char>| names.take(0).contains(b)));
        }
        while k < labels.len()
            invariant
                k <= labels@.len(),
                names == labels@.map_values(|s: String| s@),
                self.blocks() == Set::new(|b: Seq<char>| names.take(k as int).contains(b)),
            decreases labels@.len() - k,
        {
            let ghost before = self.blocks();
            self.bb_states.insert(labels[k].clone(), StrMap::new());
            proof {
                let t1 = names.take(k + 1);
                let t0 = names.take(k as int);
                assert(self.blocks() =~= before.insert(labels@[k as int]@));
                assert forall|b: Seq<char>| t1.contains(b) <==> (t0.contains(b) || b == labels@[k as int]@) by {
                    if t1.contains(b) {
                        let q = choose|q: int| 0 <= q < t1.len() && t1[q] == b;
                        if q < k {
                            assert(t0[q] == b);
                        }
                    }
                    if t0.contains(b) {
                        let q = choose|q: int| 0 <= q < t0.len() && t0[q] == b;
                        assert(t1[q] == b);
                    }
                    if b == labels@[k as int]@ {
                        assert(t1[k as int] == b);
                    }
                }
                assert(self.blocks() =~= Set::new(|b: Seq<char>| t1.contains(b)));
            }
            k = k + 1;
        }
        assert(names.take(labels@.len() as int) =~= names);
        let ghost dom = self.blocks();
        let mut changed = true;
        let mut iterations: usize = 0;
        while changed && iterations < 10
            invariant
                iterations <= 10,
                self.blocks() == dom,
            decreases 10 - iterations,
        {
            changed = false;
            iterations = iterations + 1;
            let mut j: usize = 0;
            while j < labels.len()
                invariant
                    j <= labels@.len(),
                    self.blocks() == dom,
                decreases labels@.len() - j,
            {
                if self.process_basic_block(&labels[j], func) {
                    changed = true;
                }
                j = j + 1;
            }
        }
        simplify_function(func)
    }

    /// Scans block `bb` from its table and stores the result; tells whether
    /// the table changed or a branch on a known 0 or 1 was met.
    fn process_basic_block(&mut self, bb: &String, func: &Function) -> (r: bool)
        ensures
            ({
                let start = if old(self).blocks().contains(bb@) { old(self).block_table(bb@) } else { Map::empty() };
                let s = scan_run(bb@, BlockScan { started: false, ended: false, table: start, decided: false }, insts_view(func.body@));
                &&& final(self).blocks() == old(self).blocks()
                &&& forall|b: Seq<char>| b != bb@ && old(self).blocks().contains(b) ==> #[trigger] final(self).block_table(b)
                    == old(self).block_table(b)
                &&& old(self).blocks().contains(bb@) ==> final(self).block_table(bb@) == s.table
                &&& r == ((old(self).blocks().contains(bb@) && s.table != start) || s.decided)
            }),
    {
        let ghost start = if self.blocks().contains(bb@) { self.block_table(bb@) } else { Map::empty() };
        let mut in_const: StrMap<ConstState> = match self.bb_states.get(bb.as_str()) {
            Some(states) => copy_table(states),
            None => StrMap::new(),
        };
        let ghost v = insts_view(func.body@);
        let mut started = false;
        let mut bb_changed = false;
        let mut i: usize = 0;
        assert(v.take(v.len() as int) =~= v);
        while i < func.body.len()
            invariant
                i <= func.body@.len(),
                v == insts_view(func.body@),
                v.take(v.len() as int) == v,
                ({
                    let s = scan_run(bb@, BlockScan { started: false, ended: false, table: start, decided: false }, v.take(i as int));
                    !s.ended && s.started == started && s.table == in_const@ && s.decided == bb_changed
                }),
            ensures
                ({
                    let s = scan_run(bb@, BlockScan { started: false, ended: false, table: start, decided: false }, v);
                    s.table == in_const@ && s.decided == bb_changed
                }),
            decreases func.body@.len() - i,
        {
            proof {
                assert(v.take(i + 1).drop_last() =~= v.take(i as int));
                assert(v.take(i + 1).last() == func.body@[i as int]@);
            }
            let inst = &func.body[i];
            match inst {
                Instruction::Label(name) => {
                    if str_eq(name.as_str(), bb.as_str()) {
                        started = true;
                    } else if started {
                        proof {
                            lemma_scan_ended(bb@, BlockScan { started: false, ended: false, table: start, decided: false }, v, i + 1);
                        }
                        break;
                    }
                },
                _ => {
                    if started {
                        let ghost before = in_const@;
                        if let Instruction::CondBr { cond, .. } = inst {
                            match in_const.get(cond.as_str()) {
                                Some(ConstState::Constant(c)) => {
                                    if *c == 1 || *c == 0 {
                                        bb_changed = true;
                                    }
                                },
                                _ => {},
                            }
                        }
                        eval_into(&mut in_const, inst);
                    }
                },
            }
            i = i + 1;
        }
        let changed = match self.bb_states.get(bb.as_str()) {
            Some(states) => !same_table(states, &in_const),
            None => false,
        };
        if self.bb_states.contains_key(bb.as_str()) {
            self.bb_states.insert(bb.clone(), in_const);
            assert(self.blocks() =~= old(self).blocks());
        }
        changed || bb_changed
    }
}

/// Once the block has ended, later instructions change nothing.
proof fn lemma_scan_ended(bb: Seq<char>, s0: BlockScan, v: Seq<InstV>, n: int)
    requires
        0 <= n <= v.len(),
        scan_run(bb, s0, v.take(n)).ended,
    ensures
        scan_run(bb, s0, v) == scan_run(bb, s0, v.take(n)),
    decreases v.len() - n,
{
    if n < v.len() {
        assert(v.take(n + 1).drop_last() =~= v.take(n));
        lemma_scan_ended(bb, s0, v, n + 1);
    } else {
        assert(v.take(n) =~= v);
    }
}

/// Evaluates one instruction of a block into the table.
fn eval_into(m: &mut StrMap<ConstState>, inst: &Instruction)
    ensures
        final(m)@ == block_step(old(m)@, inst@),
{
    match inst {
        Instruction::Add { dest, left, right } => {
            let s = eval_add(left, right, m);
            m.insert(dest.clone(), s);
        },
        Instruction::Store { dest, src } => {
            match eval_const(src, m) {
                Some(val) => {
                    m.insert(dest.clone(), ConstState::Constant(val));
                },
                None => {
                    if starts_with(src.as_str(), "const.") {
                        match parse_const(src) {
                            Some(num) => {
                                m.insert(dest.clone(), ConstState::Constant(num));
                            },
                            None => {},
                        }
                    } else {
                        m.insert(dest.clone(), ConstState::Overdefined);
                    }
                },
            }
        },
        _ => {},
    }
}

/// The state of a sum, as `sum_state`.
fn eval_add(left: &String, right: &String, m: &StrMap<ConstState>) -> (r: ConstState)
    ensures
        r == sum_state(m@, left@, right@),
{
    match (eval_const(left, m), eval_const(right, m)) {
        (Some(l), Some(r)) => ConstState::Constant(l.wrapping_add(r)),
        _ => ConstState::Overdefined,
    }
}

/// A value's known constant, as `known_const`.
fn eval_const(src: &String, m: &StrMap<ConstState>) -> (r: Option<i64>)
    ensures
        r == known_const(m@, src@),
{
    match m.get(src.as_str()) {
        Some(ConstState::Constant(v)) => Some(*v),
        _ => None,
    }
}

/// The constant an operand stands for, as `value_const`.
fn value_of(src: &String, m: &StrMap<ConstState>) -> (r: Option<i64>)
    ensures
        r == value_const(m@, src@),
{
    match eval_const(src, m) {
        Some(v) => Some(v),
        None => parse_const(src),
    }
}

/// The number of a constant operand, as `literal_const`.
fn parse_const(src: &String) -> (r: Option<i64>)
    ensures
        r == literal_const(src@),
{
    if starts_with(src.as_str(), "const.i32.") {
        parse_number_after(src.as_str(), "const.i32.")
    } else if starts_with(src.as_str(), "const.i64.") {
        parse_number_after(src.as_str(), "const.i64.")
    } else {
        None
    }
}

/// A copy of a table.
fn copy_table(t: &StrMap<ConstState>) -> (r: StrMap<ConstState>)
    ensures
        r@ == t@,
{
    let mut r: StrMap<ConstState> = StrMap::new();
    let n = t.entry_count();
    let mut i: usize = n;
    proof {
        t.lemma_view();
    }
    while i > 0
        invariant
            i <= n,
            n == t.entries().len(),
            forall|k: Seq<char>| #[trigger] r@.contains_key(k) <==> crate::strmap::entries_map(t.entries().skip(i as int)).contains_key(k),
            forall|k: Seq<char>| #[trigger] r@.contains_key(k) ==> r@[k] == crate::strmap::entries_map(t.entries().skip(i as int))[k],
        decreases i,
    {
        i = i - 1;
        let e = t.entry_at(i);
        r.insert(e.0.clone(), e.1);
        proof {
            let s = t.entries().skip(i as int);
            assert(s.drop_first() =~= t.entries().skip(i + 1));
            assert(s[0] == *e);
        }
    }
    proof {
        assert(t.entries().skip(0) =~= t.entries());
        assert(r@ =~= t@);
    }
    r
}

/// Both tables hold `k`, with the same state.
pub open spec fn same_at(a: Map<Seq<char>, ConstState>, b: Map<Seq<char>, ConstState>, k: Seq<char>) -> bool {
    a.contains_key(k) && b.contains_key(k) && a[k] == b[k]
}

/// Whether two tables are equal.
fn same_table(a: &StrMap<ConstState>, b: &StrMap<ConstState>) -> (r: bool)
    ensures
        r == (a@ == b@),
{
    let n = a.entry_count();
    let mut i: usize = 0;
    proof {
        a.lemma_view();
        b.lemma_view();
    }
    while i < n
        invariant
            i <= n,
            n == a.entries().len(),
            a@ == crate::strmap::entries_map(a.entries()),
            b@ == crate::strmap::entries_map(b.entries()),
            forall|j: int| 0 <= j < i ==> #[trigger] same_at(a@, b@, a.entries()[j].0@),
        decreases n - i,
    {
        let key = &a.entry_at(i).0;
        proof {
            crate::strmap::lemma_entry_key(a.entries(), i as int);
        }
        match (a.get(key.as_str()), b.get(key.as_str())) {
            (Some(x), Some(y)) => {
                if *x != *y {
                    assert(a@[key@] != b@[key@]);
                    return false;
                }
                assert(same_at(a@, b@, key@));
            },
            _ => {
                assert(a@.contains_key(key@));
                assert(!b@.contains_key(key@));
                return false;
            },
        }
        i = i + 1;
    }
    let m = b.entry_count();
    let mut j: usize = 0;
    while j < m
        invariant
            j <= m,
            m == b.entries().len(),
            a@ == crate::strmap::entries_map(a.entries()),
            b@ == crate::strmap::entries_map(b.entries()),
            forall|q: int| 0 <= q < j ==> #[trigger] a@.contains_key(b.entries()[q].0@),
        decreases m - j,
    {
        let key = &b.entry_at(j).0;
        proof {
            crate::strmap::lemma_entry_key(b.entries(), j as int);
        }
        if !a.contains_key(key.as_str()) {
            return false;
        }
        j = j + 1;
    }
    proof {
        assert forall|k: Seq<char>| #[trigger] a@.contains_key(k) implies b@.contains_key(k) && b@[k] == a@[k] by {
            crate::strmap::lemma_entries_cover(a.entries(), k);
            let q = choose|q: int| 0 <= q < a.entries().len() && a.entries()[q].0@ == k && crate::strmap::entries_map(a.entries())[k] == a.entries()[q].1;
            assert(same_at(a@, b@, a.entries()[q].0@));
        }
        assert forall|k: Seq<char>| #[trigger] b@.contains_key(k) implies a@.contains_key(k) by {
            crate::strmap::lemma_entries_cover(b.entries(), k);
            let q = choose|q: int| 0 <= q < b.entries().len() && b.entries()[q].0@ == k && crate::strmap::entries_map(b.entries())[k] == b.entries()[q].1;
            assert(a@.contains_key(b.entries()[q].0@));
        }
        assert(a@ =~= b@);
    }
    true
}

/// The labels of a body, in order.
fn collect_labels(body: &Vec<Instruction>) -> (r: Vec<String>)
    ensures
        r@.map_values(|s: String| s@) == labels_of(insts_view(body@)),
{
    let mut r: Vec<String> = Vec::new();
    let mut i: usize = 0;
    while i < body.len()
        invariant
            i <= body@.len(),
            r@.map_values(|s: String| s@) == labels_of(insts_view(body@).take(i as int)),
        decreases body@.len() - i,
    {
        proof {
            let v = insts_view(body@);
            assert(v.take(i + 1).drop_last() =~= v.take(i as int));
            assert(v.take(i + 1).last() == body@[i as int]@);
        }
        let ghost before = r@;
        if let Instruction::Label(name) = &body[i] {
            r.push(name.clone());
        }
        proof {
            assert(r@.map_values(|s: String| s@) =~= labels_of(insts_view(body@).take(i + 1)));
        }
        i = i + 1;
    }
    assert(insts_view(body@).take(body@.len() as int) =~= insts_view(body@));
    r
}

/// The body with additions of known constants folded, as `simplify_run`.
fn simplify_function(func: &Function) -> (r: Vec<Instruction>)
    ensures
        insts_view(r@) == simplify_run(insts_view(func.body@)).0,
{
    let ghost v = insts_view(func.body@);
    let mut result: Vec<Instruction> = Vec::new();
    let mut active: StrMap<ConstState> = StrMap::new();
    let mut i: usize = 0;
    proof {
        assert(v.take(0) =~= Seq::<InstV>::empty());
        assert(insts_view(result@) =~= Seq::<InstV>::empty());
    }
    while i < func.body.len()
        invariant
            i <= func.body@.len(),
            v == insts_view(func.body@),
            (insts_view(result@), active@) == simplify_run(v.take(i as int)),
        decreases func.body@.len() - i,
    {
        proof {
            assert(v.take(i + 1).drop_last() =~= v.take(i as int));
            assert(v.take(i + 1).last() == func.body@[i as int]@);
        }
        let ghost before = result@;
        let ghost m = active@;
        let inst = &func.body[i];
        match inst {
            Instruction::Add { dest, left, right } => {
                match (value_of(left, &active), value_of(right, &active)) {
                    (Some(l), Some(r)) => {
                        let s = l.wrapping_add(r);
                        result.push(Instruction::Store { dest: dest.clone(), src: make_numbered("const.i32.", s) });
                        active.insert(dest.clone(), ConstState::Constant(s));
                    },
                    _ => {
                        result.push(Instruction::Add { dest: dest.clone(), left: left.clone(), right: right.clone() });
                        active.insert(dest.clone(), ConstState::Overdefined);
                    },
                }
            },
            Instruction::Store { dest, src } => {
                let st = match value_of(src, &active) {
                    Some(val) => ConstState::Constant(val),
                    None => ConstState::Overdefined,
                };
                active.insert(dest.clone(), st);
                result.push(Instruction::Store { dest: dest.clone(), src: src.clone() });
            },
            Instruction::Sub { dest, .. } | Instruction::Mul { dest, .. } | Instruction::Div { dest, .. }
            | Instruction::Mod { dest, .. } | Instruction::Eq { dest, .. } | Instruction::Ne { dest, .. }
            | Instruction::Lt { dest, .. } | Instruction::Le { dest, .. } | Instruction::Gt { dest, .. }
            | Instruction::Ge { dest, .. } | Instruction::Load { dest, .. } | Instruction::Alloca { dest, .. }
            | Instruction::Call { dest: Some(dest), .. } => {
                active.insert(dest.clone(), ConstState::Overdefined);
                result.push(copy_inst(inst));
            },
            _ => {
                result.push(copy_inst(inst));
            },
        }
        proof {
            let want = simplify_step((insts_view(before), m), inst@);
            assert(insts_view(result@) =~= want.0);
        }
        i = i + 1;
    }
    assert(v.take(func.body@.len() as int) =~= v);
    result
}

} // verus!
