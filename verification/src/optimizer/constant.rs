//! Constant propagation and folding.
use vstd::prelude::*;
use crate::strmap::StrMap;
use crate::text::{tdiv, tdiv_exec};
use crate::optimizer::ir::{BinKind, Function, InstV, Instruction, insts_view, copy_inst};
use crate::optimizer::names::{has_prefix, number_after, numbered, parse_number_after, make_numbered, starts_with};

verus! {

/// What is known of a value: an integer, and whether it is a constant.
#[derive(Debug, Clone, Copy)]
pub struct ConstantValue {
    pub value: i64,
    pub is_constant: bool,
}

/// The prefix of 32-bit integer constant operands.
pub open spec fn i32_prefix() -> Seq<char> {
    "const.i32."@
}

/// The value of an operand: the number of a `const.i32.` operand, or the
/// constant that the table holds for the name.
pub open spec fn const_operand(m: Map<Seq<char>, ConstantValue>, src: Seq<char>) -> Option<i64> {
    if has_prefix(src, i32_prefix()) {
        number_after(src, i32_prefix())
    } else if m.contains_key(src) && m[src].is_constant {
        Some(m[src].value)
    } else {
        None
    }
}

/// Whether constant folding handles the operation.
pub open spec fn is_foldable(op: BinKind) -> bool {
    op == BinKind::Add || op == BinKind::Sub || op == BinKind::Mul || op == BinKind::Div
}

/// The folded value of `l op r`, in 64-bit two's-complement arithmetic.
pub open spec fn fold_value(op: BinKind, l: i64, r: i64) -> i64 {
    match op {
        BinKind::Add => vstd::wrapping::i64_specs::wrapping_add(l, r),
        BinKind::Sub => vstd::wrapping::i64_specs::wrapping_sub(l, r),
        BinKind::Mul => vstd::wrapping::i64_specs::wrapping_mul(l, r),
        _ => if l == i64::MIN && r == -1 {
            i64::MIN
        } else {
            tdiv(l as int, r as int) as i64
        },
    }
}

/// Two integers that differ by a multiple of 2^64.
pub open spec fn same_mod_2_64(a: int, b: int) -> bool {
    (a - b) % 0x1_0000_0000_0000_0000int == 0
}

/// Folding addition, subtraction and multiplication gives the exact sum,
/// difference (left minus right) and product where it fits in 64 bits, and
/// otherwise a value that agrees with it modulo 2^64.
pub proof fn lemma_fold_arith(l: i64, r: i64)
    ensures
        same_mod_2_64(fold_value(BinKind::Add, l, r) as int, l + r),
        same_mod_2_64(fold_value(BinKind::Sub, l, r) as int, l - r),
        same_mod_2_64(fold_value(BinKind::Mul, l, r) as int, l * r),
        i64::MIN <= l + r <= i64::MAX ==> fold_value(BinKind::Add, l, r) == l + r,
        i64::MIN <= l - r <= i64::MAX ==> fold_value(BinKind::Sub, l, r) == l - r,
        i64::MIN <= l * r <= i64::MAX ==> fold_value(BinKind::Mul, l, r) == l * r,
{
    let m = 0x1_0000_0000_0000_0000int;
    let p = l * r;
    let c = p % m;
    assert(0 <= c < m);
    let w = fold_value(BinKind::Mul, l, r) as int;
    assert(w == if c > i64::MAX { c - m } else { c });
    assert((p - c) % m == 0) by {
        vstd::arithmetic::div_mod::lemma_fundamental_div_mod(p, m);
        vstd::arithmetic::div_mod::lemma_mod_multiples_basic(p / m, m);
        assert(p - c == (p / m) * m) by (nonlinear_arith)
            requires
                p == m * (p / m) + c,
        {
        }
    }
    if c > i64::MAX {
        assert((p - (c - m)) % m == 0) by {
            assert(p - (c - m) == (p / m + 1) * m) by (nonlinear_arith)
                requires
                    p == m * (p / m) + c,
            {
            }
            vstd::arithmetic::div_mod::lemma_mod_multiples_basic(p / m + 1, m);
        }
        vstd::arithmetic::div_mod::lemma_mod_sub_multiples_vanish(w - p, m);
        assert(((w - p) % m) == 0) by {
            vstd::arithmetic::div_mod::lemma_mod_multiples_basic(-(p / m + 1), m);
            assert(w - p == (-(p / m + 1)) * m) by (nonlinear_arith)
                requires
                    p == m * (p / m) + c,
                    w == c - m,
            {
            }
        }
    } else {
        assert(((w - p) % m) == 0) by {
            vstd::arithmetic::div_mod::lemma_mod_multiples_basic(-(p / m), m);
            assert(w - p == (-(p / m)) * m) by (nonlinear_arith)
                requires
                    p == m * (p / m) + c,
                    w == c,
            {
            }
        }
    }
    if i64::MIN <= p <= i64::MAX {
        assert(w == p) by {
            if p >= 0 {
                vstd::arithmetic::div_mod::lemma_small_mod(p as nat, m as nat);
            } else {
                assert((p + m) % m == c) by {
                    vstd::arithmetic::div_mod::lemma_mod_add_multiples_vanish(p, m);
                }
                vstd::arithmetic::div_mod::lemma_small_mod((p + m) as nat, m as nat);
            }
        }
    }
}

/// Folding a division gives the quotient rounded toward zero: what is left,
/// `l - q * r`, is smaller than the divisor in size and has the sign of the
/// dividend (or is zero). The one quotient that does not fit, `MIN / -1`,
/// wraps to `MIN`.
pub proof fn lemma_fold_div(l: i64, r: i64)
    requires
        r != 0,
    ensures
        l == i64::MIN && r == -1 ==> fold_value(BinKind::Div, l, r) == i64::MIN,
        !(l == i64::MIN && r == -1) ==> ({
            let q = fold_value(BinKind::Div, l, r) as int;
            let rem = l - q * r;
            &&& (if rem >= 0 { rem } else { -rem }) < (if r >= 0 { r as int } else { -r })
            &&& (rem == 0 || (rem > 0) == (l > 0))
        }),
{
    if !(l == i64::MIN && r == -1) {
        let a = l as int;
        let b = r as int;
        let x = if a >= 0 { a } else { -a };
        let y = if b >= 0 { b } else { -b };
        let q0 = x / y;
        let r0 = x % y;
        vstd::arithmetic::div_mod::lemma_fundamental_div_mod(x, y);
        vstd::arithmetic::div_mod::lemma_mod_bound(x, y);
        assert(q0 >= 0) by {
            vstd::arithmetic::div_mod::lemma_div_pos_is_pos(x, y);
        }
        let t = tdiv(a, b);
        assert(t == q0 || t == -q0);
        assert(a - t * b == (if a >= 0 { r0 } else { -r0 })) by (nonlinear_arith)
            requires
                x == y * q0 + r0,
                x == (if a >= 0 { a } else { -a }),
                y == (if b >= 0 { b } else { -b }),
                t == (if (a >= 0) == (b > 0) { q0 } else { -q0 }),
        {
        }
        assert(q0 <= x) by (nonlinear_arith)
            requires
                x == y * q0 + r0,
                y >= 1,
                r0 >= 0,
                q0 >= 0,
        {
        }
        assert(i64::MIN <= t <= i64::MAX) by {
            if b == -1 || b == 1 {
                assert(y == 1);
                assert(q0 == x) by (nonlinear_arith) requires x == y * q0 + r0, y == 1, 0 <= r0 < y, {}
            } else {
                assert(q0 <= x / 2) by (nonlinear_arith)
                    requires
                        x == y * q0 + r0,
                        y >= 2,
                        r0 >= 0,
                        q0 >= 0,
                {
                }
            }
        }
    }
}

/// `l op r` for a foldable operation, dividing only by a nonzero number.
fn fold_binary(op: BinKind, l: i64, r: i64) -> (v: i64)
    requires
        is_foldable(op),
        op == BinKind::Div ==> r != 0,
    ensures
        v == fold_value(op, l, r),
{
    match op {
        BinKind::Add => l.wrapping_add(r),
        BinKind::Sub => l.wrapping_sub(r),
        BinKind::Mul => l.wrapping_mul(r),
        _ => {
            if l == i64::MIN && r == -1 {
                i64::MIN
            } else {
                tdiv_exec(l, r)
            }
        },
    }
}

/// The table after one instruction: an allocation forgets its name, a
/// store of a constant records it, a foldable operation on constants
/// records its value (a division by zero leaves the table as it is), and
/// otherwise the destination is forgotten; a call forgets its result.
pub open spec fn cp_step(m: Map<Seq<char>, ConstantValue>, inst: InstV) -> Map<Seq<char>, ConstantValue> {
    match inst {
        InstV::Alloca { dest, .. } => m.remove(dest),
        InstV::Store { dest, src } => match const_operand(m, src) {
            Some(v) => m.insert(dest, ConstantValue { value: v, is_constant: true }),
            None => m.remove(dest),
        },
        InstV::Bin { op, dest, left, right } => if is_foldable(op) {
            match (const_operand(m, left), const_operand(m, right)) {
                (Some(l), Some(r)) => if op == BinKind::Div && r == 0 {
                    m
                } else {
                    m.insert(dest, ConstantValue { value: fold_value(op, l, r), is_constant: true })
                },
                _ => m.remove(dest),
            }
        } else {
            m
        },
        InstV::Call { dest: Some(d), .. } => m.remove(d),
        _ => m,
    }
}

/// The table after a list of instructions.
pub open spec fn cp_run(m: Map<Seq<char>, ConstantValue>, insts: Seq<InstV>) -> Map<Seq<char>, ConstantValue>
    decreases insts.len(),
{
    if insts.len() == 0 {
        m
    } else {
        cp_step(cp_run(m, insts.drop_last()), insts.last())
    }
}

/// An instruction folded against the table: a foldable operation on
/// constants becomes a store of its `const.i32.` value (not a division by
/// zero), a load of a constant operand disappears (`Nop`), and everything
/// else is kept.
pub open spec fn fold_inst(m: Map<Seq<char>, ConstantValue>, inst: InstV) -> InstV {
    match inst {
        InstV::Bin { op, dest, left, right } => if is_foldable(op) {
            match (const_operand(m, left), const_operand(m, right)) {
                (Some(l), Some(r)) => if op == BinKind::Div && r == 0 {
                    inst
                } else {
                    InstV::Store { dest, src: numbered(i32_prefix(), fold_value(op, l, r) as int) }
                },
                _ => inst,
            }
        } else {
            inst
        },
        InstV::Load { src, .. } => if has_prefix(src, i32_prefix()) {
            InstV::Nop
        } else {
            inst
        },
        _ => inst,
    }
}

/// The folded instructions, without the ones that fold to `Nop`.
pub open spec fn folded(m: Map<Seq<char>, ConstantValue>, insts: Seq<InstV>) -> Seq<InstV>
    decreases insts.len(),
{
    if insts.len() == 0 {
        Seq::empty()
    } else {
        folded(m, insts.drop_last()) + if fold_inst(m, insts.last()) is Nop {
            Seq::empty()
        } else {
            seq![fold_inst(m, insts.last())]
        }
    }
}

/// Propagates integer constants through a function and folds them.
pub struct ConstantPropagator {
    pub constants: StrMap<ConstantValue>,
}

impl ConstantPropagator {
    /// An empty table.
    pub fn new() -> (r: ConstantPropagator)
        ensures
            r.constants@ == Map::<Seq<char>, ConstantValue>::empty(),
    {
        ConstantPropagator { constants: StrMap::new() }
    }

    /// Forgets every constant.
    pub fn reset(&mut self)
        ensures
            final(self).constants@ == Map::<Seq<char>, ConstantValue>::empty(),
    {
        self.constants.clear();
    }

    /// The table after the function's body, starting from nothing.
    pub fn analyze_function(&mut self, func: &Function)
        ensures
            final(self).constants@ == cp_run(Map::empty(), insts_view(func.body@)),
    {
        self.reset();
        let mut i: usize = 0;
        while i < func.body.len()
            invariant
                i <= func.body@.len(),
                self.constants@ == cp_run(Map::empty(), insts_view(func.body@).take(i as int)),
            decreases func.body@.len() - i,
        {
            self.analyze_instruction(&func.body[i]);
            proof {
                let v = insts_view(func.body@);
                assert(v.take(i + 1).drop_last() =~= v.take(i as int));
            }
            i = i + 1;
        }
        assert(insts_view(func.body@).take(func.body@.len() as int) =~= insts_view(func.body@));
    }

    fn analyze_instruction(&mut self, inst: &Instruction)
        ensures
            final(self).constants@ == cp_step(old(self).constants@, inst@),
    {
        match inst {
            Instruction::Alloca { dest, ty: _ } => {
                self.constants.remove(dest.as_str());
            },
            Instruction::Store { dest, src } => {
                match self.extract_constant(src.as_str()) {
                    Some(val) => {
                        self.constants.insert(dest.clone(), ConstantValue { value: val, is_constant: true });
                    },
                    None => {
                        self.constants.remove(dest.as_str());
                    },
                }
            },
            Instruction::Add { dest, left, right } => {
                self.analyze_binary(BinKind::Add, dest, left, right);
            },
            Instruction::Sub { dest, left, right } => {
                self.analyze_binary(BinKind::Sub, dest, left, right);
            },
            Instruction::Mul { dest, left, right } => {
                self.analyze_binary(BinKind::Mul, dest, left, right);
            },
            Instruction::Div { dest, left, right } => {
                self.analyze_binary(BinKind::Div, dest, left, right);
            },
            Instruction::Call { dest, .. } => {
                if let Some(d) = dest {
                    self.constants.remove(d.as_str());
                }
            },
            _ => {},
        }
    }

    fn analyze_binary(&mut self, op: BinKind, dest: &String, left: &String, right: &String)
        requires
            is_foldable(op),
        ensures
            final(self).constants@ == cp_step(
                old(self).constants@,
                InstV::Bin { op, dest: dest@, left: left@, right: right@ },
            ),
    {
        match (self.extract_constant(left.as_str()), self.extract_constant(right.as_str())) {
            (Some(l), Some(r)) => {
                if op != BinKind::Div || r != 0 {
                    let v = fold_binary(op, l, r);
                    self.constants.insert(dest.clone(), ConstantValue { value: v, is_constant: true });
                }
            },
            _ => {
                self.constants.remove(dest.as_str());
            },
        }
    }

    /// The value of an operand, as `const_operand`.
    pub fn extract_constant(&self, src: &str) -> (r: Option<i64>)
        ensures
            r == const_operand(self.constants@, src@),
    {
        if starts_with(src, "const.i32.") {
            parse_number_after(src, "const.i32.")
        } else {
            match self.constants.get(src) {
                Some(val) => {
                    if val.is_constant {
                        Some(val.value)
                    } else {
                        None
                    }
                },
                None => None,
            }
        }
    }

    /// The instructions folded against the table, without those that fold
    /// to nothing.
    pub fn optimize(&self, insts: &[Instruction]) -> (r: Vec<Instruction>)
        ensures
            insts_view(r@) == folded(self.constants@, insts_view(insts@)),
    {
        let mut optimized: Vec<Instruction> = Vec::new();
        let mut i: usize = 0;
        while i < insts.len()
            invariant
                i <= insts@.len(),
                insts_view(optimized@) == folded(self.constants@, insts_view(insts@).take(i as int)),
            decreases insts@.len() - i,
        {
            let new_inst = self.fold_instruction(&insts[i]);
            let ghost before = optimized@;
            proof {
                let v = insts_view(insts@);
                assert(v.take(i + 1).drop_last() =~= v.take(i as int));
                assert(v.take(i + 1).last() == insts@[i as int]@);
            }
            match new_inst {
                Instruction::Nop => {},
                _ => {
                    optimized.push(new_inst);
                },
            }
            proof {
                assert(insts_view(optimized@) =~= folded(self.constants@, insts_view(insts@).take(i + 1)));
            }
            i = i + 1;
        }
        assert(insts_view(insts@).take(insts@.len() as int) =~= insts_view(insts@));
        optimized
    }

    fn fold_instruction(&self, inst: &Instruction) -> (r: Instruction)
        ensures
            r@ == fold_inst(self.constants@, inst@),
    {
        match inst {
            Instruction::Add { dest, left, right } => self.fold_binary_inst(BinKind::Add, inst, dest, left, right),
            Instruction::Sub { dest, left, right } => self.fold_binary_inst(BinKind::Sub, inst, dest, left, right),
            Instruction::Mul { dest, left, right } => self.fold_binary_inst(BinKind::Mul, inst, dest, left, right),
            Instruction::Div { dest, left, right } => self.fold_binary_inst(BinKind::Div, inst, dest, left, right),
            Instruction::Load { dest: _, src } => {
                if starts_with(src.as_str(), "const.i32.") {
                    return Instruction::Nop;
                }
                copy_inst(inst)
            },
            _ => copy_inst(inst),
        }
    }

    fn fold_binary_inst(&self, op: BinKind, inst: &Instruction, dest: &String, left: &String, right: &String) -> (r: Instruction)
        requires
            is_foldable(op),
            inst@ == (InstV::Bin { op, dest: dest@, left: left@, right: right@ }),
        ensures
            r@ == fold_inst(self.constants@, inst@),
    {
        match (self.extract_constant(left.as_str()), self.extract_constant(right.as_str())) {
            (Some(l), Some(r)) => {
                if op == BinKind::Div && r == 0 {
                    copy_inst(inst)
                } else {
                    let v = fold_binary(op, l, r);
                    Instruction::Store { dest: dest.clone(), src: make_numbered("const.i32.", v) }
                }
            },
            _ => copy_inst(inst),
        }
    }
}

} // verus!
