//! Loop unrolling and detection of vectorisable loops.
use vstd::prelude::*;
use crate::text::{owned, string_push_str};
use crate::optimizer::ir::{BinKind, Function, InstV, Instruction, insts_view, copy_inst};

verus! {

/// A loop found in a body: the positions of its first and second label,
/// its length, and whether it is simple.
#[derive(Debug, Clone, Copy)]
pub struct LoopInfo {
    start: usize,
    end: usize,
    body_len: usize,
    is_simple: bool,
}

impl LoopInfo {
    /// Start, end, length and simplicity.
    pub closed spec fn parts(&self) -> (usize, usize, usize, bool) {
        (self.start, self.end, self.body_len, self.is_simple)
    }
}

/// The loop search from position `idx` on, having seen `labels` labels
/// (the first at `first`) and, when `cond`, a conditional branch: a loop
/// runs from the first label to the second when a conditional branch came
/// before the second label and the loop has at most 20 instructions.
pub open spec fn scan_loop(insts: Seq<InstV>, idx: int, labels: nat, cond: bool, first: int) -> Option<(int, int)>
    decreases insts.len() - idx,
{
    if idx < 0 || idx >= insts.len() {
        None
    } else {
        match insts[idx] {
            InstV::Label(_) => if labels == 0 {
                scan_loop(insts, idx + 1, 1, cond, idx)
            } else if cond && 0 < idx - first <= 20 {
                Some((first, idx))
            } else {
                None
            },
            InstV::CondBr { .. } => scan_loop(insts, idx + 1, labels, true, first),
            _ => scan_loop(insts, idx + 1, labels, cond, first),
        }
    }
}

/// The loop that starts at or after `s`, if any.
pub open spec fn detect(insts: Seq<InstV>, s: int) -> Option<(int, int)> {
    scan_loop(insts, s, 0, false, 0)
}

/// An instruction copied for another iteration: arithmetic and loads write
/// to `dest.u`.
pub open spec fn renamed_copy(inst: InstV) -> InstV {
    match inst {
        InstV::Bin { op, dest, left, right } => if op == BinKind::Add || op == BinKind::Sub || op == BinKind::Mul
            || op == BinKind::Div {
            InstV::Bin { op, dest: dest + ".u"@, left, right }
        } else {
            inst
        },
        InstV::Load { dest, src } => InstV::Load { dest: dest + ".u"@, src },
        _ => inst,
    }
}

/// One position of the unroller: a loop found there with at most ten
/// instructions is replaced by two renamed copies of itself.
pub open spec fn unroll_at(body: Seq<InstV>, i: int) -> (Seq<InstV>, bool) {
    match detect(body, i) {
        Some((s, e)) => if e - s <= 10 {
            let seg = body.subrange(s, e).map_values(|x: InstV| renamed_copy(x));
            (body.subrange(0, s) + seg + seg + body.subrange(e, body.len() as int), true)
        } else {
            (body, false)
        },
        None => (body, false),
    }
}

/// The unroller from position `i` on, below `max` positions.
pub open spec fn unroll_from(body: Seq<InstV>, i: nat, max: nat, changed: bool) -> (Seq<InstV>, bool)
    decreases max - i,
{
    if i < body.len() && i < max {
        let (b2, c2) = unroll_at(body, i as int);
        unroll_from(b2, i + 1, max, changed || c2)
    } else {
        (body, changed)
    }
}

/// Unrolls small loops twice.
pub struct LoopUnroller {
    max_unroll_factor: usize,
    max_iterations: usize,
}

impl LoopUnroller {
    /// The number of positions tried.
    pub closed spec fn positions(&self) -> usize {
        self.max_iterations
    }

    /// Unroll factor 4, at most 1000 positions.
    pub fn new() -> (r: LoopUnroller)
        ensures
            r.positions() == 1000,
    {
        LoopUnroller { max_unroll_factor: 4, max_iterations: 1000 }
    }

    /// Tries each position in turn and unrolls the loop found there; tells
    /// whether a loop was unrolled.
    pub fn unroll(&mut self, func: &mut Function) -> (changed: bool)
        ensures
            (insts_view(final(func).body@), changed) == unroll_from(insts_view(old(func).body@), 0, old(self).positions() as nat, false),
            final(func).name == old(func).name,
            final(func).params == old(func).params,
            final(func).is_kernel == old(func).is_kernel,
            final(self).positions() == old(self).positions(),
    {
        let mut changed = false;
        let mut i: usize = 0;
        let ghost max = self.max_iterations as nat;
        while i < func.body.len() && i < self.max_iterations
            invariant
                max == self.max_iterations as nat,
                self.positions() == old(self).positions(),
                i <= self.max_iterations,
                unroll_from(insts_view(func.body@), i as nat, max, changed) == unroll_from(
                    insts_view(old(func).body@),
                    0,
                    max,
                    false,
                ),
                func.name == old(func).name,
                func.params == old(func).params,
                func.is_kernel == old(func).is_kernel,
            decreases self.max_iterations - i,
        {
            let ghost b = insts_view(func.body@);
            match self.detect_loop(&func.body, i) {
                Some(loop_info) => {
                    let unrolled = self.unroll_loop(&func.body, &loop_info);
                    if unrolled.len() != loop_info.body_len {
                        changed = true;
                        let start = loop_info.start;
                        let end = loop_info.end;
                        let new_body = splice(&func.body, start, end, unrolled);
                        func.body = new_body;
                    }
                    proof {
                        let (s, e) = detect(b, i as int)->Some_0;
                        let seg = b.subrange(s, e).map_values(|x: InstV| renamed_copy(x));
                        if e - s <= 10 {
                            assert(insts_view(func.body@) =~= b.subrange(0, s) + seg + seg + b.subrange(e, b.len() as int));
                        }
                    }
                },
                None => {},
            }
            i = i + 1;
        }
        changed
    }

    fn detect_loop(&self, insts: &Vec<Instruction>, start_idx: usize) -> (r: Option<LoopInfo>)
        ensures
            match detect(insts_view(insts@), start_idx as int) {
                Some((s, e)) => r matches Some(li) && li.parts() == (s as usize, e as usize, (e - s) as usize, true)
                    && 0 <= s < e <= insts@.len(),
                None => r is None,
            },
    {
        let ghost v = insts_view(insts@);
        let mut label_count: usize = 0;
        let mut cond = false;
        let mut body_start: usize = 0;
        let mut idx: usize = start_idx;
        while idx < insts.len()
            invariant
                v == insts_view(insts@),
                start_idx <= idx,
                label_count <= 1,
                label_count == 1 ==> start_idx <= body_start < idx,
                detect(v, start_idx as int) == scan_loop(v, idx as int, label_count as nat, cond, body_start as int),
            decreases insts@.len() - idx,
        {
            match &insts[idx] {
                Instruction::Label(_) => {
                    if label_count == 0 {
                        label_count = 1;
                        body_start = idx;
                    } else {
                        if cond && idx - body_start <= 20 {
                            return Some(LoopInfo { start: body_start, end: idx, body_len: idx - body_start, is_simple: true });
                        }
                        return None;
                    }
                },
                Instruction::CondBr { .. } => {
                    cond = true;
                },
                _ => {},
            }
            idx = idx + 1;
        }
        None
    }

    fn unroll_loop(&self, insts: &Vec<Instruction>, loop_info: &LoopInfo) -> (r: Vec<Instruction>)
        requires
            loop_info.parts().0 <= loop_info.parts().1 <= insts@.len(),
            loop_info.parts().2 == loop_info.parts().1 - loop_info.parts().0,
            loop_info.parts().3,
        ensures
            ({
                let seg = insts_view(insts@).subrange(loop_info.parts().0 as int, loop_info.parts().1 as int).map_values(
                    |x: InstV| renamed_copy(x),
                );
                insts_view(r@) == if loop_info.parts().2 <= 10 { seg + seg } else { seg }
            }),
    {
        let ghost seg = insts_view(insts@).subrange(loop_info.start as int, loop_info.end as int).map_values(
            |x: InstV| renamed_copy(x),
        );
        let mut result: Vec<Instruction> = Vec::new();
        let ghost n = loop_info.end - loop_info.start;
        let mut k: usize = loop_info.start;
        while k < loop_info.end
            invariant
                loop_info.start <= k <= loop_info.end <= insts@.len(),
                n == loop_info.end - loop_info.start,
                seg.len() == n,
                forall|j: int| 0 <= j < n ==> #[trigger] seg[j] == renamed_copy(insts@[loop_info.start + j]@),
                result@.len() == k - loop_info.start,
                forall|j: int| 0 <= j < result@.len() ==> #[trigger] result@[j]@ == seg[j],
            decreases loop_info.end - k,
        {
            result.push(clone_inst_with_new_dest(&insts[k]));
            k = k + 1;
        }
        if loop_info.is_simple && loop_info.body_len <= 10 {
            let mut k: usize = loop_info.start;
            while k < loop_info.end
                invariant
                    loop_info.start <= k <= loop_info.end <= insts@.len(),
                    n == loop_info.end - loop_info.start,
                    seg.len() == n,
                    forall|j: int| 0 <= j < n ==> #[trigger] seg[j] == renamed_copy(insts@[loop_info.start + j]@),
                    result@.len() == n + k - loop_info.start,
                    forall|j: int| 0 <= j < result@.len() ==> #[trigger] result@[j]@ == (seg + seg)[j],
                decreases loop_info.end - k,
            {
                result.push(clone_inst_with_new_dest(&insts[k]));
                k = k + 1;
            }
            assert(insts_view(result@) =~= seg + seg);
        } else {
            assert(insts_view(result@) =~= seg);
        }
        result
    }
}

/// An instruction copied for another iteration, as `renamed_copy`.
fn clone_inst_with_new_dest(inst: &Instruction) -> (r: Instruction)
    ensures
        r@ == renamed_copy(inst@),
{
    match inst {
        Instruction::Add { dest, left, right } => Instruction::Add { dest: suffixed(dest), left: left.clone(), right: right.clone() },
        Instruction::Sub { dest, left, right } => Instruction::Sub { dest: suffixed(dest), left: left.clone(), right: right.clone() },
        Instruction::Mul { dest, left, right } => Instruction::Mul { dest: suffixed(dest), left: left.clone(), right: right.clone() },
        Instruction::Div { dest, left, right } => Instruction::Div { dest: suffixed(dest), left: left.clone(), right: right.clone() },
        Instruction::Load { dest, src } => Instruction::Load { dest: suffixed(dest), src: src.clone() },
        Instruction::Store { dest, src } => Instruction::Store { dest: dest.clone(), src: src.clone() },
        _ => copy_inst(inst),
    }
}

/// `dest.u`.
fn suffixed(dest: &String) -> (r: String)
    ensures
        r@ == dest@ + ".u"@,
{
    let mut s = owned(dest.as_str());
    string_push_str(&mut s, ".u");
    s
}

/// The body with positions `start..end` replaced by `mid`.
fn splice(body: &Vec<Instruction>, start: usize, end: usize, mid: Vec<Instruction>) -> (r: Vec<Instruction>)
    requires
        start <= end <= body@.len(),
    ensures
        insts_view(r@) == insts_view(body@).subrange(0, start as int) + insts_view(mid@) + insts_view(body@).subrange(
            end as int,
            body@.len() as int,
        ),
{
    let ghost want = insts_view(body@).subrange(0, start as int) + insts_view(mid@) + insts_view(body@).subrange(
        end as int,
        body@.len() as int,
    );
    let mut r: Vec<Instruction> = Vec::new();
    let mut k: usize = 0;
    while k < start
        invariant
            k <= start <= end <= body@.len(),
            want == insts_view(body@).subrange(0, start as int) + insts_view(mid@) + insts_view(body@).subrange(end as int, body@.len() as int),
            r@.len() == k,
            forall|j: int| 0 <= j < r@.len() ==> #[trigger] r@[j]@ == want[j],
        decreases start - k,
    {
        r.push(copy_inst(&body[k]));
        k = k + 1;
    }
    let mut m: usize = 0;
    while m < mid.len()
        invariant
            m <= mid@.len(),
            k == start,
            start <= end <= body@.len(),
            want == insts_view(body@).subrange(0, start as int) + insts_view(mid@) + insts_view(body@).subrange(end as int, body@.len() as int),
            r@.len() == start + m,
            forall|j: int| 0 <= j < r@.len() ==> #[trigger] r@[j]@ == want[j],
        decreases mid@.len() - m,
    {
        r.push(copy_inst(&mid[m]));
        m = m + 1;
    }
    let mut k: usize = end;
    while k < body.len()
        invariant
            start <= end <= k <= body@.len(),
            want == insts_view(body@).subrange(0, start as int) + insts_view(mid@) + insts_view(body@).subrange(end as int, body@.len() as int),
            r@.len() == start + mid@.len() + (k - end),
            forall|j: int| 0 <= j < r@.len() ==> #[trigger] r@[j]@ == want[j],
        decreases body@.len() - k,
    {
        r.push(copy_inst(&body[k]));
        k = k + 1;
    }
    assert(insts_view(r@) =~= want);
    r
}

/// Counts over the window of up to 30 instructions from `s`, stopping at a
/// label: additions, multiplications, and loads and stores.
pub open spec fn window_counts(insts: Seq<InstV>, s: int, k: nat) -> (nat, nat, nat)
    decreases k,
{
    if k == 0 || s < 0 || s >= insts.len() {
        (0, 0, 0)
    } else if insts[s] is Label {
        (0, 0, 0)
    } else {
        let rest = window_counts(insts, s + 1, (k - 1) as nat);
        match insts[s] {
            InstV::Bin { op: BinKind::Add, .. } => (rest.0 + 1, rest.1, rest.2),
            InstV::Bin { op: BinKind::Mul, .. } => (rest.0, rest.1 + 1, rest.2),
            InstV::Load { .. } => (rest.0, rest.1, rest.2 + 1),
            InstV::Store { .. } => (rest.0, rest.1, rest.2 + 1),
            _ => rest,
        }
    }
}

/// Whether the window at `s` has at least two multiplications and four
/// memory accesses.
pub open spec fn vectorizable_at(insts: Seq<InstV>, s: int) -> bool {
    let c = window_counts(insts, s, 30);
    c.1 >= 2 && c.2 >= 4
}

/// Finds loops that SIMD instructions could run.
pub struct Vectorizer {
    vector_width: usize,
    min_loop_length: usize,
}

impl Vectorizer {
    /// The vector width and the shortest loop worth vectorising.
    pub closed spec fn settings(&self) -> (usize, usize) {
        (self.vector_width, self.min_loop_length)
    }

    /// Width 4, minimum length 8.
    pub fn new() -> (r: Vectorizer)
        ensures
            r.settings() == (4usize, 8usize),
    {
        Vectorizer { vector_width: 4, min_loop_length: 8 }
    }

    /// Whether some position starts a vectorisable window; the function is
    /// left as it is.
    pub fn vectorize(&mut self, func: &mut Function) -> (changed: bool)
        ensures
            changed == exists|i: int| 0 <= i < old(func).body@.len() && #[trigger] vectorizable_at(insts_view(old(func).body@), i),
            *final(func) == *old(func),
    {
        let mut changed = false;
        let mut i: usize = 0;
        while i < func.body.len()
            invariant
                i <= func.body@.len(),
                *func == *old(func),
                changed == exists|j: int| 0 <= j < i && #[trigger] vectorizable_at(insts_view(func.body@), j),
            decreases func.body@.len() - i,
        {
            if self.detect_vectorizable_loop(&func.body, i) {
                changed = true;
            }
            i = i + 1;
        }
        changed
    }

    fn detect_vectorizable_loop(&self, insts: &Vec<Instruction>, start_idx: usize) -> (r: bool)
        requires
            start_idx < insts@.len(),
        ensures
            r == vectorizable_at(insts_view(insts@), start_idx as int),
    {
        let ghost v = insts_view(insts@);
        let mut adds: usize = 0;
        let mut muls: usize = 0;
        let mut mem: usize = 0;
        let mut idx: usize = start_idx;
        let mut taken: usize = 0;
        while idx < insts.len() && taken < 30
            invariant
                v == insts_view(insts@),
                start_idx <= idx <= insts@.len(),
                taken == idx - start_idx,
                taken <= 30,
                ({
                    let total = window_counts(v, start_idx as int, 30);
                    let rest = window_counts(v, idx as int, (30 - taken) as nat);
                    total.0 == adds + rest.0 && total.1 == muls + rest.1 && total.2 == mem + rest.2
                }),
                adds <= taken && muls <= taken && mem <= taken,
            ensures
                window_counts(v, start_idx as int, 30).1 == muls,
                window_counts(v, start_idx as int, 30).2 == mem,
            decreases 30 - taken,
        {
            match &insts[idx] {
                Instruction::Add { .. } => adds = adds + 1,
                Instruction::Mul { .. } => muls = muls + 1,
                Instruction::Load { .. } | Instruction::Store { .. } => mem = mem + 1,
                Instruction::Label(_) => break,
                _ => {},
            }
            idx = idx + 1;
            taken = taken + 1;
        }
        muls >= 2 && mem >= 4
    }
}

} // verus!
