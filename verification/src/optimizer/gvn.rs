//! Global value numbering.
use vstd::prelude::*;
use crate::text::str_eq;
use crate::optimizer::ir::{BinKind, InstV, Instruction, insts_view, copy_inst};
use crate::optimizer::names::{has_prefix, number_after, parse_number_after, starts_with};

verus! {

/// An expression whose value can be numbered.
#[derive(Debug, PartialEq, Eq, Hash)]
pub enum GVNExpr {
    ConstInt(i64),
    ConstBool(bool),
    Var(String),
    Add(Box<GVNExpr>, Box<GVNExpr>),
    Sub(Box<GVNExpr>, Box<GVNExpr>),
    Mul(Box<GVNExpr>, Box<GVNExpr>),
    Div(Box<GVNExpr>, Box<GVNExpr>),
    Mod(Box<GVNExpr>, Box<GVNExpr>),
    Eq(Box<GVNExpr>, Box<GVNExpr>),
    Ne(Box<GVNExpr>, Box<GVNExpr>),
    Lt(Box<GVNExpr>, Box<GVNExpr>),
    Le(Box<GVNExpr>, Box<GVNExpr>),
    Gt(Box<GVNExpr>, Box<GVNExpr>),
    Ge(Box<GVNExpr>, Box<GVNExpr>),
    And(Box<GVNExpr>, Box<GVNExpr>),
    Or(Box<GVNExpr>, Box<GVNExpr>),
    Not(Box<GVNExpr>),
    Load(String),
    Call(String, Vec<GVNExpr>),
}

/// An operand as value numbering sees it: an integer or a name.
pub enum Leaf {
    Int(i64),
    Name(Seq<char>),
}

/// The operand an instruction names: the number of a `const.i32.` or
/// `const.i64.` operand, otherwise the name itself.
pub open spec fn leaf_of(v: Seq<char>) -> Leaf {
    if has_prefix(v, "const.i32."@) && number_after(v, "const.i32."@) is Some {
        Leaf::Int(number_after(v, "const.i32."@)->Some_0)
    } else if has_prefix(v, "const.i64."@) && number_after(v, "const.i64."@) is Some {
        Leaf::Int(number_after(v, "const.i64."@)->Some_0)
    } else if v == "const.i32.0"@ || v == "const.i64.0"@ {
        Leaf::Int(0)
    } else if v == "const.i32.1"@ || v == "const.i64.1"@ {
        Leaf::Int(1)
    } else {
        Leaf::Name(v)
    }
}

/// The leaf an expression is, if it is a constant integer or a name.
pub open spec fn leaf_view(e: GVNExpr) -> Option<Leaf> {
    match e {
        GVNExpr::ConstInt(n) => Some(Leaf::Int(n)),
        GVNExpr::Var(s) => Some(Leaf::Name(s@)),
        _ => None,
    }
}

/// The key of an arithmetic expression on two leaves.
pub open spec fn key_view(e: GVNExpr) -> Option<(BinKind, Leaf, Leaf)> {
    match e {
        GVNExpr::Add(a, b) => if leaf_view(*a) is Some && leaf_view(*b) is Some {
            Some((BinKind::Add, leaf_view(*a)->Some_0, leaf_view(*b)->Some_0))
        } else {
            None
        },
        GVNExpr::Sub(a, b) => if leaf_view(*a) is Some && leaf_view(*b) is Some {
            Some((BinKind::Sub, leaf_view(*a)->Some_0, leaf_view(*b)->Some_0))
        } else {
            None
        },
        GVNExpr::Mul(a, b) => if leaf_view(*a) is Some && leaf_view(*b) is Some {
            Some((BinKind::Mul, leaf_view(*a)->Some_0, leaf_view(*b)->Some_0))
        } else {
            None
        },
        GVNExpr::Div(a, b) => if leaf_view(*a) is Some && leaf_view(*b) is Some {
            Some((BinKind::Div, leaf_view(*a)->Some_0, leaf_view(*b)->Some_0))
        } else {
            None
        },
        _ => None,
    }
}

/// A numbered expression: its key and the name that holds its value.
pub type GvnEntry = ((BinKind, Leaf, Leaf), Seq<char>);

/// The state of numbering: the output so far, the numbered expressions
/// still valid (oldest first), and how many expressions were numbered.
pub struct GvnState {
    pub out: Seq<InstV>,
    pub table: Seq<GvnEntry>,
    pub next: nat,
}

/// The holder of each key: the first entry with a key wins.
pub open spec fn number_table(t: Seq<GvnEntry>) -> Map<(BinKind, Leaf, Leaf), Seq<char>>
    decreases t.len(),
{
    if t.len() == 0 {
        Map::empty()
    } else {
        let rest = number_table(t.drop_last());
        if rest.contains_key(t.last().0) { rest } else { rest.insert(t.last().0, t.last().1) }
    }
}

/// Whether a numbered expression involves `d`: as its holder or as an
/// operand.
pub open spec fn gvn_mentions(e: GvnEntry, d: Seq<char>) -> bool {
    e.1 == d || e.0.1 == Leaf::Name(d) || e.0.2 == Leaf::Name(d)
}

/// The numbered expressions that stay valid once `d` is written.
pub open spec fn gvn_kill(t: Seq<GvnEntry>, d: Seq<char>) -> Seq<GvnEntry>
    decreases t.len(),
{
    if t.len() == 0 {
        Seq::empty()
    } else {
        gvn_kill(t.drop_last(), d) + if gvn_mentions(t.last(), d) {
            Seq::<GvnEntry>::empty()
        } else {
            seq![t.last()]
        }
    }
}

/// The name an instruction writes, if any.
pub open spec fn gvn_written(inst: InstV) -> Option<Seq<char>> {
    match inst {
        InstV::Alloca { dest, .. } => Some(dest),
        InstV::Store { dest, .. } => Some(dest),
        InstV::Load { dest, .. } => Some(dest),
        InstV::Bin { dest, .. } => Some(dest),
        InstV::Call { dest, .. } => dest,
        _ => None,
    }
}

/// One instruction numbered: an addition, subtraction, multiplication or
/// division whose expression is already held by a name becomes a store of
/// that name; otherwise it is kept and its destination becomes the holder
/// of its expression (unless it overwrites one of its own operands). Any
/// write of a name first drops the numbered expressions that involve it.
pub open spec fn gvn_step(st: GvnState, inst: InstV) -> GvnState {
    match inst {
        InstV::Bin { op, dest, left, right } => if op == BinKind::Add || op == BinKind::Sub || op == BinKind::Mul
            || op == BinKind::Div {
            let key = (op, leaf_of(left), leaf_of(right));
            let nt = number_table(st.table);
            if nt.contains_key(key) {
                GvnState {
                    out: st.out.push(InstV::Store { dest, src: nt[key] }),
                    table: gvn_kill(st.table, dest),
                    next: st.next,
                }
            } else if key.1 != Leaf::Name(dest) && key.2 != Leaf::Name(dest) {
                GvnState { out: st.out.push(inst), table: gvn_kill(st.table, dest).push((key, dest)), next: st.next + 1 }
            } else {
                GvnState { out: st.out.push(inst), table: gvn_kill(st.table, dest), next: st.next }
            }
        } else {
            GvnState { out: st.out.push(inst), table: gvn_kill(st.table, dest), next: st.next }
        },
        _ => match gvn_written(inst) {
            Some(d) => GvnState { out: st.out.push(inst), table: gvn_kill(st.table, d), next: st.next },
            None => GvnState { out: st.out.push(inst), ..st },
        },
    }
}

/// The state after a list of instructions, from nothing.
pub open spec fn gvn_run(insts: Seq<InstV>) -> GvnState
    decreases insts.len(),
{
    if insts.len() == 0 {
        GvnState { out: Seq::empty(), table: Seq::empty(), next: 0 }
    } else {
        gvn_step(gvn_run(insts.drop_last()), insts.last())
    }
}

/// Gives equal expressions one number and reuses the name that holds it.
pub struct GVN {
    expr_to_value: Vec<(GVNExpr, String)>,
    next_id: usize,
}

/// A table entry as a key and a name.
pub open spec fn entry_view(e: (GVNExpr, String)) -> GvnEntry {
    (key_view(e.0)->Some_0, e.1@)
}

impl GVN {
    /// The state of the last run.
    pub closed spec fn state(&self, out: Seq<InstV>) -> GvnState {
        GvnState {
            out,
            table: self.expr_to_value@.map_values(|e: (GVNExpr, String)| entry_view(e)),
            next: self.next_id as nat,
        }
    }

    /// Nothing numbered.
    pub fn new() -> (r: GVN)
        ensures
            r.state(Seq::empty()) == gvn_run(Seq::empty()),
    {
        let r = GVN { expr_to_value: Vec::new(), next_id: 0 };
        assert(r.state(Seq::empty()).table =~= Seq::<GvnEntry>::empty());
        r
    }

    /// The instructions with recomputed arithmetic replaced by stores of
    /// the name that already holds the value. Every write to a name forgets
    /// the remembered values that hold it or are computed from it (not only
    /// a `Store`), so that a reused value is always the one the name holds
    /// at that point.
    pub fn eliminate(&mut self, insts: &[Instruction]) -> (r: Vec<Instruction>)
        ensures
            final(self).state(insts_view(r@)) == gvn_run(insts_view(insts@)),
            insts_view(r@) == gvn_run(insts_view(insts@)).out,
    {
        self.expr_to_value = Vec::new();
        self.next_id = 0;
        let mut result: Vec<Instruction> = Vec::new();
        proof {
            assert(self.state(insts_view(result@)).table =~= Seq::<GvnEntry>::empty());
            assert(insts_view(result@) =~= Seq::<InstV>::empty());
            assert(self.state(insts_view(result@)) == gvn_run(insts_view(insts@).take(0)));
        }
        let mut i: usize = 0;
        while i < insts.len()
            invariant
                i <= insts@.len(),
                self.next_id <= i,
                self.state(insts_view(result@)) == gvn_run(insts_view(insts@).take(i as int)),
                forall|j: int| 0 <= j < self.expr_to_value@.len() ==> #[trigger] key_view(self.expr_to_value@[j].0) is Some,
            decreases insts@.len() - i,
        {
            proof {
                let v = insts_view(insts@);
                assert(v.take(i + 1).drop_last() =~= v.take(i as int));
                assert(v.take(i + 1).last() == insts@[i as int]@);
            }
            let inst = &insts[i];
            let ghost st = self.state(insts_view(result@));
            let ghost before = result@;
            match inst {
                Instruction::Add { dest, left, right } => self.number(BinKind::Add, inst, dest, left, right, &mut result),
                Instruction::Sub { dest, left, right } => self.number(BinKind::Sub, inst, dest, left, right, &mut result),
                Instruction::Mul { dest, left, right } => self.number(BinKind::Mul, inst, dest, left, right, &mut result),
                Instruction::Div { dest, left, right } => self.number(BinKind::Div, inst, dest, left, right, &mut result),
                Instruction::Mod { dest, .. } | Instruction::Eq { dest, .. } | Instruction::Ne { dest, .. }
                | Instruction::Lt { dest, .. } | Instruction::Le { dest, .. } | Instruction::Gt { dest, .. }
                | Instruction::Ge { dest, .. } | Instruction::Store { dest, .. } | Instruction::Load { dest, .. }
                | Instruction::Alloca { dest, .. } | Instruction::Call { dest: Some(dest), .. } => {
                    self.invalidate(dest);
                    result.push(copy_inst(inst));
                    assert(insts_view(result@) =~= insts_view(before).push(inst@));
                    assert(self.state(insts_view(result@)) == gvn_step(st, inst@));
                },
                _ => {
                    result.push(copy_inst(inst));
                    assert(insts_view(result@) =~= insts_view(before).push(inst@));
                    assert(self.state(insts_view(result@)) == gvn_step(st, inst@));
                },
            }
            i = i + 1;
        }
        assert(insts_view(insts@).take(insts@.len() as int) =~= insts_view(insts@));
        assert(self.state(insts_view(result@)).out == insts_view(result@));
        result
    }

    fn number(&mut self, op: BinKind, inst: &Instruction, dest: &String, left: &String, right: &String, result: &mut Vec<Instruction>)
        requires
            op == BinKind::Add || op == BinKind::Sub || op == BinKind::Mul || op == BinKind::Div,
            inst@ == (InstV::Bin { op, dest: dest@, left: left@, right: right@ }),
            old(self).next_id < usize::MAX,
            forall|j: int| 0 <= j < old(self).expr_to_value@.len() ==> #[trigger] key_view(old(self).expr_to_value@[j].0) is Some,
        ensures
            final(self).state(insts_view(final(result)@)) == gvn_step(old(self).state(insts_view(old(result)@)), inst@),
            final(self).next_id <= old(self).next_id + 1,
            forall|j: int| 0 <= j < final(self).expr_to_value@.len() ==> #[trigger] key_view(final(self).expr_to_value@[j].0) is Some,
    {
        let expr = make_bin_expr(op, make_expr(left), make_expr(right));
        let ghost key = (op, leaf_of(left@), leaf_of(right@));
        let ghost st = self.state(insts_view(result@));
        let ghost before = result@;
        match self.lookup(&expr) {
            Some(cached) => {
                result.push(Instruction::Store { dest: dest.clone(), src: cached });
                self.invalidate(dest);
                proof {
                    assert(insts_view(result@) =~= insts_view(before).push(InstV::Store { dest: dest@, src: number_table(st.table)[key] }));
                }
            },
            None => {
                self.invalidate(dest);
                let ghost killed = self.state(insts_view(result@)).table;
                let ghost t = self.expr_to_value@;
                if !expr_mentions(&expr, dest) {
                    self.next_id = self.next_id + 1;
                    self.expr_to_value.push((expr, dest.clone()));
                    proof {
                        assert(self.expr_to_value@.map_values(|e: (GVNExpr, String)| entry_view(e)) =~= killed.push((key, dest@)));
                        assert forall|j: int| 0 <= j < self.expr_to_value@.len() implies #[trigger] key_view(self.expr_to_value@[j].0) is Some by {
                            if j < t.len() {
                                assert(self.expr_to_value@[j] == t[j]);
                            }
                        }
                    }
                }
                result.push(copy_inst(inst));
                proof {
                    assert(insts_view(result@) =~= insts_view(before).push(inst@));
                }
            },
        }
    }

    /// The name holding an expression already numbered.
    fn lookup(&self, expr: &GVNExpr) -> (r: Option<String>)
        requires
            key_view(*expr) is Some,
            forall|j: int| 0 <= j < self.expr_to_value@.len() ==> #[trigger] key_view(self.expr_to_value@[j].0) is Some,
        ensures
            match r {
                Some(v) => number_table(self.state(Seq::empty()).table).contains_key(key_view(*expr)->Some_0)
                    && v@ == number_table(self.state(Seq::empty()).table)[key_view(*expr)->Some_0],
                None => !number_table(self.state(Seq::empty()).table).contains_key(key_view(*expr)->Some_0),
            },
    {
        let ghost k = key_view(*expr)->Some_0;
        let ghost t = self.state(Seq::empty()).table;
        let mut i: usize = 0;
        while i < self.expr_to_value.len()
            invariant
                i <= self.expr_to_value@.len(),
                t == self.state(Seq::empty()).table,
                k == key_view(*expr)->Some_0,
                key_view(*expr) is Some,
                forall|j: int| 0 <= j < self.expr_to_value@.len() ==> #[trigger] key_view(self.expr_to_value@[j].0) is Some,
                !number_table(t.take(i as int)).contains_key(k),
            decreases self.expr_to_value@.len() - i,
        {
            proof {
                assert(t.take(i + 1).drop_last() =~= t.take(i as int));
                assert(t.take(i + 1).last() == entry_view(self.expr_to_value@[i as int]));
            }
            if same_key(&self.expr_to_value[i].0, expr) {
                proof {
                    assert(number_table(t.take(i + 1))[k] == self.expr_to_value@[i as int].1@);
                    lemma_number_table_prefix(t, i + 1, k);
                }
                return Some(self.expr_to_value[i].1.clone());
            }
            i = i + 1;
        }
        assert(t.take(t.len() as int) =~= t);
        None
    }

    /// Drops the numbered expressions that involve `d`.
    fn invalidate(&mut self, d: &String)
        requires
            forall|j: int| 0 <= j < old(self).expr_to_value@.len() ==> #[trigger] key_view(old(self).expr_to_value@[j].0) is Some,
        ensures
            final(self).state(Seq::empty()).table == gvn_kill(old(self).state(Seq::empty()).table, d@),
            final(self).next_id == old(self).next_id,
            forall|j: int| 0 <= j < final(self).expr_to_value@.len() ==> #[trigger] key_view(final(self).expr_to_value@[j].0) is Some,
    {
        let ghost t = self.state(Seq::empty()).table;
        let mut kept: Vec<(GVNExpr, String)> = Vec::new();
        let mut i: usize = 0;
        while i < self.expr_to_value.len()
            invariant
                i <= self.expr_to_value@.len(),
                t == self.state(Seq::empty()).table,
                forall|j: int| 0 <= j < self.expr_to_value@.len() ==> #[trigger] key_view(self.expr_to_value@[j].0) is Some,
                forall|j: int| 0 <= j < kept@.len() ==> #[trigger] key_view(kept@[j].0) is Some,
                kept@.map_values(|e: (GVNExpr, String)| entry_view(e)) == gvn_kill(t.take(i as int), d@),
            decreases self.expr_to_value@.len() - i,
        {
            proof {
                assert(t.take(i + 1).drop_last() =~= t.take(i as int));
                assert(t.take(i + 1).last() == entry_view(self.expr_to_value@[i as int]));
            }
            let ghost k0 = kept@;
            let e = &self.expr_to_value[i];
            if !(str_eq(e.1.as_str(), d.as_str()) || expr_mentions(&e.0, d)) {
                kept.push((copy_key_expr(&e.0), e.1.clone()));
                proof {
                    assert(kept@.map_values(|e: (GVNExpr, String)| entry_view(e))
                        =~= k0.map_values(|e: (GVNExpr, String)| entry_view(e)).push(t[i as int]));
                    assert forall|j: int| 0 <= j < kept@.len() implies #[trigger] key_view(kept@[j].0) is Some by {
                        if j < k0.len() {
                            assert(kept@[j] == k0[j]);
                        }
                    }
                }
            } else {
                assert(kept@.map_values(|e: (GVNExpr, String)| entry_view(e))
                    =~= k0.map_values(|e: (GVNExpr, String)| entry_view(e)) + Seq::<GvnEntry>::empty());
            }
            i = i + 1;
        }
        assert(t.take(i as int) =~= t);
        self.expr_to_value = kept;
        assert(self.state(Seq::empty()).table =~= gvn_kill(t, d@));
    }
}

/// Whether an arithmetic expression on leaves has `d` as an operand.
fn expr_mentions(e: &GVNExpr, d: &String) -> (r: bool)
    requires
        key_view(*e) is Some,
    ensures
        r == (key_view(*e)->Some_0.1 == Leaf::Name(d@) || key_view(*e)->Some_0.2 == Leaf::Name(d@)),
{
    match e {
        GVNExpr::Add(a, b) | GVNExpr::Sub(a, b) | GVNExpr::Mul(a, b) | GVNExpr::Div(a, b) => leaf_is(a, d) || leaf_is(b, d),
        _ => false,
    }
}

/// Whether a leaf is the name `d`.
fn leaf_is(e: &GVNExpr, d: &String) -> (r: bool)
    requires
        leaf_view(*e) is Some,
    ensures
        r == (leaf_view(*e)->Some_0 == Leaf::Name(d@)),
{
    match e {
        GVNExpr::Var(x) => str_eq(x.as_str(), d.as_str()),
        _ => false,
    }
}

/// A copy of a leaf.
fn copy_leaf(e: &GVNExpr) -> (r: GVNExpr)
    requires
        leaf_view(*e) is Some,
    ensures
        leaf_view(r) == leaf_view(*e),
{
    match e {
        GVNExpr::ConstInt(n) => GVNExpr::ConstInt(*n),
        GVNExpr::Var(x) => GVNExpr::Var(x.clone()),
        _ => GVNExpr::ConstInt(0),
    }
}

/// A copy of an arithmetic expression on leaves.
fn copy_key_expr(e: &GVNExpr) -> (r: GVNExpr)
    requires
        key_view(*e) is Some,
    ensures
        key_view(r) == key_view(*e),
{
    match e {
        GVNExpr::Add(a, b) => GVNExpr::Add(Box::new(copy_leaf(a)), Box::new(copy_leaf(b))),
        GVNExpr::Sub(a, b) => GVNExpr::Sub(Box::new(copy_leaf(a)), Box::new(copy_leaf(b))),
        GVNExpr::Mul(a, b) => GVNExpr::Mul(Box::new(copy_leaf(a)), Box::new(copy_leaf(b))),
        _ => match e {
            GVNExpr::Div(a, b) => GVNExpr::Div(Box::new(copy_leaf(a)), Box::new(copy_leaf(b))),
            _ => GVNExpr::ConstInt(0),
        },
    }
}

/// A holder found in a prefix stays the holder in the whole list.
proof fn lemma_number_table_prefix(t: Seq<GvnEntry>, n: int, k: (BinKind, Leaf, Leaf))
    requires
        0 <= n <= t.len(),
        number_table(t.take(n)).contains_key(k),
    ensures
        number_table(t).contains_key(k),
        number_table(t)[k] == number_table(t.take(n))[k],
    decreases t.len() - n,
{
    if n < t.len() {
        assert(t.take(n + 1).drop_last() =~= t.take(n));
        lemma_number_table_prefix(t, n + 1, k);
    } else {
        assert(t.take(n) =~= t);
    }
}

/// Whether two arithmetic expressions on leaves have the same key.
fn same_key(a: &GVNExpr, b: &GVNExpr) -> (r: bool)
    requires
        key_view(*a) is Some,
        key_view(*b) is Some,
    ensures
        r == (key_view(*a) == key_view(*b)),
{
    match (a, b) {
        (GVNExpr::Add(x1, y1), GVNExpr::Add(x2, y2)) => same_leaf(x1, x2) && same_leaf(y1, y2),
        (GVNExpr::Sub(x1, y1), GVNExpr::Sub(x2, y2)) => same_leaf(x1, x2) && same_leaf(y1, y2),
        (GVNExpr::Mul(x1, y1), GVNExpr::Mul(x2, y2)) => same_leaf(x1, x2) && same_leaf(y1, y2),
        (GVNExpr::Div(x1, y1), GVNExpr::Div(x2, y2)) => same_leaf(x1, x2) && same_leaf(y1, y2),
        _ => false,
    }
}

/// Whether two leaves are equal.
fn same_leaf(a: &GVNExpr, b: &GVNExpr) -> (r: bool)
    requires
        leaf_view(*a) is Some,
        leaf_view(*b) is Some,
    ensures
        r == (leaf_view(*a) == leaf_view(*b)),
{
    match (a, b) {
        (GVNExpr::ConstInt(x), GVNExpr::ConstInt(y)) => *x == *y,
        (GVNExpr::Var(x), GVNExpr::Var(y)) => str_eq(x.as_str(), y.as_str()),
        _ => false,
    }
}

/// The expression of an operand: its integer when it is a constant,
/// otherwise the name.
fn make_expr(var: &String) -> (r: GVNExpr)
    ensures
        leaf_view(r) == Some(leaf_of(var@)),
{
    if starts_with(var.as_str(), "const.i32.") {
        if let Some(n) = parse_number_after(var.as_str(), "const.i32.") {
            return GVNExpr::ConstInt(n);
        }
    }
    if starts_with(var.as_str(), "const.i64.") {
        if let Some(n) = parse_number_after(var.as_str(), "const.i64.") {
            return GVNExpr::ConstInt(n);
        }
    }
    if str_eq(var.as_str(), "const.i32.0") || str_eq(var.as_str(), "const.i64.0") {
        return GVNExpr::ConstInt(0);
    }
    if str_eq(var.as_str(), "const.i32.1") || str_eq(var.as_str(), "const.i64.1") {
        return GVNExpr::ConstInt(1);
    }
    GVNExpr::Var(var.clone())
}

/// The arithmetic expression `a op b`.
fn make_bin_expr(op: BinKind, a: GVNExpr, b: GVNExpr) -> (r: GVNExpr)
    requires
        op == BinKind::Add || op == BinKind::Sub || op == BinKind::Mul || op == BinKind::Div,
        leaf_view(a) is Some,
        leaf_view(b) is Some,
    ensures
        key_view(r) == Some((op, leaf_view(a)->Some_0, leaf_view(b)->Some_0)),
{
    match op {
        BinKind::Add => GVNExpr::Add(Box::new(a), Box::new(b)),
        BinKind::Sub => GVNExpr::Sub(Box::new(a), Box::new(b)),
        BinKind::Mul => GVNExpr::Mul(Box::new(a), Box::new(b)),
        _ => GVNExpr::Div(Box::new(a), Box::new(b)),
    }
}


// ---------------------------------------------------------------------------
// What numbering preserves.
// ---------------------------------------------------------------------------

/// The value of an operand leaf in an environment.
pub open spec fn leaf_value(env: Map<Seq<char>, int>, l: Leaf) -> int {
    match l {
        Leaf::Int(n) => n as int,
        Leaf::Name(v) => env[v],
    }
}

/// The result of an operation on two values; a comparison gives 1 or 0.
pub open spec fn apply_op(op: BinKind, a: int, b: int) -> int {
    match op {
        BinKind::Add => a + b,
        BinKind::Sub => a - b,
        BinKind::Mul => a * b,
        BinKind::Div => a / b,
        BinKind::Mod => a % b,
        BinKind::Eq => if a == b { 1 } else { 0 },
        BinKind::Ne => if a != b { 1 } else { 0 },
        BinKind::Lt => if a < b { 1 } else { 0 },
        BinKind::Le => if a <= b { 1 } else { 0 },
        BinKind::Gt => if a > b { 1 } else { 0 },
        BinKind::Ge => if a >= b { 1 } else { 0 },
    }
}

/// Running one instruction of straight-line code on an environment of
/// integer values: an operation or a store sets its destination; any other
/// write leaves its destination unknown; the rest changes nothing.
pub open spec fn run_step(env: Map<Seq<char>, int>, inst: InstV) -> Map<Seq<char>, int> {
    match inst {
        InstV::Bin { op, dest, left, right } => env.insert(
            dest,
            apply_op(op, leaf_value(env, leaf_of(left)), leaf_value(env, leaf_of(right))),
        ),
        InstV::Store { dest, src } => env.insert(dest, leaf_value(env, leaf_of(src))),
        _ => match gvn_written(inst) {
            Some(d) => env.remove(d),
            None => env,
        },
    }
}

/// Running a list of instructions in order.
pub open spec fn run_all(insts: Seq<InstV>, env: Map<Seq<char>, int>) -> Map<Seq<char>, int>
    decreases insts.len(),
{
    if insts.len() == 0 {
        env
    } else {
        run_step(run_all(insts.drop_last(), env), insts.last())
    }
}

/// Every name the instructions write is a plain name, not a constant.
pub open spec fn plain_dests(insts: Seq<InstV>) -> bool {
    forall|i: int| 0 <= i < insts.len() ==> (#[trigger] gvn_written(insts[i]) matches Some(d) ==> leaf_of(d) == Leaf::Name(d))
}

/// A numbered expression whose holder is a plain name holding its value.
pub open spec fn entry_holds(e: GvnEntry, env: Map<Seq<char>, int>) -> bool {
    &&& leaf_of(e.1) == Leaf::Name(e.1)
    &&& env[e.1] == apply_op(e.0.0, leaf_value(env, e.0.1), leaf_value(env, e.0.2))
}

/// Every numbered expression holds.
pub open spec fn table_holds(t: Seq<GvnEntry>, env: Map<Seq<char>, int>) -> bool {
    forall|j: int| 0 <= j < t.len() ==> #[trigger] entry_holds(t[j], env)
}

/// The entries that survive a write of `d` are entries of the table that
/// do not involve `d`.
proof fn lemma_kill_members(t: Seq<GvnEntry>, d: Seq<char>)
    ensures
        forall|j: int| 0 <= j < gvn_kill(t, d).len() ==> t.contains(#[trigger] gvn_kill(t, d)[j]) && !gvn_mentions(
            gvn_kill(t, d)[j],
            d,
        ),
    decreases t.len(),
{
    if t.len() > 0 {
        lemma_kill_members(t.drop_last(), d);
        let k = gvn_kill(t, d);
        let k0 = gvn_kill(t.drop_last(), d);
        assert forall|j: int| 0 <= j < k.len() implies t.contains(#[trigger] k[j]) && !gvn_mentions(k[j], d) by {
            if j < k0.len() {
                assert(k[j] == k0[j]);
                let q = choose|q: int| 0 <= q < t.drop_last().len() && t.drop_last()[q] == k0[j];
                assert(t[q] == k0[j]);
            } else {
                assert(k[j] == t.last());
                assert(t[t.len() - 1] == t.last());
            }
        }
    }
}

/// After a write of `d`, the surviving entries still hold.
proof fn lemma_kill_holds(t: Seq<GvnEntry>, d: Seq<char>, env: Map<Seq<char>, int>, env2: Map<Seq<char>, int>)
    requires
        table_holds(t, env),
        forall|x: Seq<char>| x != d ==> #[trigger] env2[x] == env[x],
    ensures
        table_holds(gvn_kill(t, d), env2),
{
    lemma_kill_members(t, d);
    let k = gvn_kill(t, d);
    assert forall|j: int| 0 <= j < k.len() implies #[trigger] entry_holds(k[j], env2) by {
        let e = k[j];
        assert(t.contains(e));
        let q = choose|q: int| 0 <= q < t.len() && t[q] == e;
        assert(entry_holds(t[q], env));
        assert(leaf_value(env2, e.0.1) == leaf_value(env, e.0.1));
        assert(leaf_value(env2, e.0.2) == leaf_value(env, e.0.2));
    }
}

/// The holder the table gives a key is the holder of one of its entries
/// with that key.
proof fn lemma_number_table_member(t: Seq<GvnEntry>, k: (BinKind, Leaf, Leaf))
    requires
        number_table(t).contains_key(k),
    ensures
        exists|j: int| 0 <= j < t.len() && t[j].0 == k && #[trigger] t[j].1 == number_table(t)[k],
    decreases t.len(),
{
    let rest = number_table(t.drop_last());
    if rest.contains_key(k) {
        lemma_number_table_member(t.drop_last(), k);
        let j = choose|j: int| 0 <= j < t.drop_last().len() && t.drop_last()[j].0 == k && #[trigger] t.drop_last()[j].1 == rest[k];
        assert(t[j] == t.drop_last()[j]);
    } else {
        assert(t[t.len() - 1] == t.last());
    }
}

/// Value numbering preserves what straight-line code computes: running the
/// numbered instructions gives the same environment as running the
/// original ones, whenever every written name is a plain name.
pub proof fn lemma_gvn_preserves(insts: Seq<InstV>, env: Map<Seq<char>, int>)
    requires
        plain_dests(insts),
    ensures
        run_all(gvn_run(insts).out, env) == run_all(insts, env),
        table_holds(gvn_run(insts).table, run_all(insts, env)),
    decreases insts.len(),
{
    if insts.len() > 0 {
        let p = insts.drop_last();
        assert forall|i: int| 0 <= i < p.len() implies (#[trigger] gvn_written(p[i]) matches Some(d) ==> leaf_of(d) == Leaf::Name(d)) by {
            assert(p[i] == insts[i]);
        }
        lemma_gvn_preserves(p, env);
        let st = gvn_run(p);
        let e = run_all(p, env);
        let inst = insts.last();
        assert(inst == insts[insts.len() - 1]);
        let st2 = gvn_step(st, inst);
        assert(st2 == gvn_run(insts));
        let e2 = run_step(e, inst);
        assert(e2 == run_all(insts, env));
        assert(st.out.push(st2.out.last()) == st2.out);
        assert(st2.out.drop_last() == st.out);
        match inst {
            InstV::Bin { op, dest, left, right } => {
                assert(leaf_of(dest) == Leaf::Name(dest));
                lemma_kill_holds(st.table, dest, e, e2);
                if op == BinKind::Add || op == BinKind::Sub || op == BinKind::Mul || op == BinKind::Div {
                    let key = (op, leaf_of(left), leaf_of(right));
                    let nt = number_table(st.table);
                    if nt.contains_key(key) {
                        lemma_number_table_member(st.table, key);
                        let j = choose|j: int| 0 <= j < st.table.len() && st.table[j].0 == key && #[trigger] st.table[j].1 == nt[key];
                        assert(entry_holds(st.table[j], e));
                        assert(run_step(e, InstV::Store { dest, src: nt[key] }) == e2);
                    } else if key.1 != Leaf::Name(dest) && key.2 != Leaf::Name(dest) {
                        let t2 = gvn_kill(st.table, dest).push((key, dest));
                        assert(st2.table == t2);
                        assert forall|q: int| 0 <= q < t2.len() implies #[trigger] entry_holds(t2[q], e2) by {
                            if q < t2.len() - 1 {
                                assert(t2[q] == gvn_kill(st.table, dest)[q]);
                            } else {
                                assert(leaf_value(e2, key.1) == leaf_value(e, key.1));
                                assert(leaf_value(e2, key.2) == leaf_value(e, key.2));
                            }
                        }
                    }
                }
            },
            _ => {
                match gvn_written(inst) {
                    Some(d) => {
                        lemma_kill_holds(st.table, d, e, e2);
                    },
                    None => {},
                }
            },
        }
    }
}

} // verus!
