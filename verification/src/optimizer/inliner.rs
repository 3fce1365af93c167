//! Function inlining.
use vstd::prelude::*;
use crate::strmap::StrMap;
use crate::text::{decimal, owned, string_push_str, push_decimal};
use crate::optimizer::ir::{BinKind, Function, InstV, Instruction, Module, insts_view, copy_inst, copy_function, texts, opt_text, params_view};
use crate::optimizer::names::{has_prefix, starts_with};

verus! {

/// A name made fresh by a counter value: `base` followed by the counter's
/// decimal digits.
pub open spec fn fresh_name(base: Seq<char>, c: u64) -> Seq<char> {
    base + decimal(c as nat)
}

/// The counter after one use.
pub open spec fn next_count(c: u64) -> u64 {
    vstd::wrapping::u64_specs::wrapping_add(c, 1)
}

/// An operand under a renaming: temporaries and constants stay, a renamed
/// name takes its new name, anything else stays.
pub open spec fn map_var(m: Map<Seq<char>, Seq<char>>, v: Seq<char>) -> Seq<char> {
    if has_prefix(v, ".tmp"@) || has_prefix(v, "const."@) {
        v
    } else if m.contains_key(v) {
        m[v]
    } else {
        v
    }
}

/// The renaming of a function's parameters to the call's arguments, pair by
/// pair while both last.
pub open spec fn param_map(params: Seq<(Seq<char>, Seq<char>)>, args: Seq<Seq<char>>) -> Map<Seq<char>, Seq<char>>
    decreases params.len(),
{
    let n = if params.len() < args.len() { params.len() } else { args.len() };
    if n == 0 {
        Map::empty()
    } else {
        param_map(params.take(n - 1), args.take(n - 1)).insert(params[n - 1].0, args[n - 1])
    }
}

/// The state while a body is copied in: the instructions so far, the
/// renaming, and the counter for fresh names.
pub struct InlineState {
    pub out: Seq<InstV>,
    pub renames: Map<Seq<char>, Seq<char>>,
    pub count: u64,
}

/// One instruction of the inlined body copied in: allocations, loads and
/// arithmetic write to fresh `.inline.` names that later uses are renamed
/// to, stores go to renamed slots, calls get a fresh `.tmp` result when
/// either they or the inlined call have one, the returned value is stored
/// into the call's destination, and other instructions are kept.
pub open spec fn inline_step(st: InlineState, inst: InstV, dest: Option<Seq<char>>) -> InlineState {
    let m = st.renames;
    let c = st.count;
    match inst {
        InstV::Alloca { dest: d, ty } => {
            let nd = fresh_name(d + ".inline."@, c);
            InlineState { out: st.out.push(InstV::Alloca { dest: nd, ty }), renames: m.insert(d, nd), count: next_count(c) }
        },
        InstV::Store { dest: d, src } => {
            let md = if m.contains_key(d) { m[d] } else { d };
            InlineState { out: st.out.push(InstV::Store { dest: md, src: map_var(m, src) }), renames: m, count: c }
        },
        InstV::Load { dest: d, src } => {
            let nd = fresh_name(d + ".inline."@, c);
            InlineState {
                out: st.out.push(InstV::Load { dest: nd, src: map_var(m, src) }),
                renames: m.insert(d, nd),
                count: next_count(c),
            }
        },
        InstV::Bin { op, dest: d, left, right } => if op == BinKind::Add || op == BinKind::Sub || op == BinKind::Mul
            || op == BinKind::Div {
            let nd = fresh_name(d + ".inline."@, c);
            InlineState {
                out: st.out.push(InstV::Bin { op, dest: nd, left: map_var(m, left), right: map_var(m, right) }),
                renames: m.insert(d, nd),
                count: next_count(c),
            }
        } else {
            InlineState { out: st.out.push(inst), renames: m, count: c }
        },
        InstV::Call { dest: d, func, args } => {
            let margs = args.map_values(|a: Seq<char>| map_var(m, a));
            if d is Some || dest is Some {
                let nd = fresh_name(".tmp"@, c);
                InlineState {
                    out: st.out.push(InstV::Call { dest: Some(nd), func, args: margs }),
                    renames: match d {
                        Some(x) => m.insert(x, nd),
                        None => m,
                    },
                    count: next_count(c),
                }
            } else {
                InlineState { out: st.out.push(InstV::Call { dest: None, func, args: margs }), renames: m, count: c }
            }
        },
        InstV::Return(Some(val)) => match dest {
            Some(x) => InlineState { out: st.out.push(InstV::Store { dest: x, src: map_var(m, val) }), renames: m, count: c },
            None => st,
        },
        _ => InlineState { out: st.out.push(inst), renames: m, count: c },
    }
}

/// A body copied in after the given start state.
pub open spec fn inline_run(st: InlineState, body: Seq<InstV>, dest: Option<Seq<char>>) -> InlineState
    decreases body.len(),
{
    if body.len() == 0 {
        st
    } else {
        inline_step(inline_run(st, body.drop_last(), dest), body.last(), dest)
    }
}

/// A function as inlining reads it: its parameters and its body.
pub type FnView = (Seq<(Seq<char>, Seq<char>)>, Seq<InstV>);

/// The parameters and body of a function.
pub open spec fn fn_view(f: Function) -> FnView {
    (params_view(f.params@), insts_view(f.body@))
}

/// The instructions that replace a call of `f` with `args` whose result
/// goes to `dest`, and the counter afterwards.
pub open spec fn inline_body(f: FnView, args: Seq<Seq<char>>, dest: Option<Seq<char>>, c: u64) -> (Seq<InstV>, u64) {
    let st = inline_run(
        InlineState { out: Seq::empty(), renames: param_map(f.0, args), count: c },
        f.1,
        dest,
    );
    (st.out, st.count)
}

/// Calls of known functions replaced by their bodies, whose own calls are
/// replaced in turn while the depth stays below the limit; with the
/// counter afterwards.
pub open spec fn inline_rec(
    fns: Map<Seq<char>, FnView>,
    limit: nat,
    insts: Seq<InstV>,
    depth: nat,
    c: u64,
) -> (Seq<InstV>, u64)
    decreases limit - depth, insts.len(),
{
    if depth >= limit {
        (insts, c)
    } else if insts.len() == 0 {
        (Seq::empty(), c)
    } else {
        let pre = inline_rec(fns, limit, insts.drop_last(), depth, c);
        match insts.last() {
            InstV::Call { dest, func, args } => if fns.contains_key(func) {
                let body = inline_body(fns[func], args, dest, pre.1);
                let inner = inline_rec(fns, limit, body.0, depth + 1, body.1);
                (pre.0 + inner.0, inner.1)
            } else {
                (pre.0.push(insts.last()), pre.1)
            },
            _ => (pre.0.push(insts.last()), pre.1),
        }
    }
}

/// Number of labels in a body.
pub open spec fn label_count(body: Seq<InstV>) -> nat
    decreases body.len(),
{
    if body.len() == 0 {
        0
    } else {
        label_count(body.drop_last()) + if body.last() is Label { 1nat } else { 0nat }
    }
}

/// Whether the body calls `name`.
pub open spec fn calls_function(body: Seq<InstV>, name: Seq<char>) -> bool {
    exists|i: int| 0 <= i < body.len() && (#[trigger] body[i] matches InstV::Call { func, .. } && func == name)
}

/// Whether every instruction is arithmetic, memory access or a return.
pub open spec fn is_pure_arithmetic(body: Seq<InstV>) -> bool {
    forall|i: int|
        0 <= i < body.len() ==> match #[trigger] body[i] {
            InstV::Bin { op, .. } => op == BinKind::Add || op == BinKind::Sub || op == BinKind::Mul || op == BinKind::Div,
            InstV::Load { .. } => true,
            InstV::Store { .. } => true,
            InstV::Alloca { .. } => true,
            InstV::Return(_) => true,
            _ => false,
        }
}

/// Whether the body ends by returning a value whose name starts with the
/// function's name.
pub open spec fn is_tail_recursive_spec(f: Function) -> bool {
    let body = insts_view(f.body@);
    body.len() > 0 && (body.last() matches InstV::Return(Some(v)) && has_prefix(v, f.name@))
}

/// Replaces calls by the bodies of the functions it knows.
pub struct FunctionInliner {
    inlined_functions: StrMap<Function>,
    max_inline_size: usize,
    inline_threshold: usize,
    recursive_inline_depth: usize,
    hot_functions: StrMap<()>,
    call_count: StrMap<usize>,
    aggressive_mode: bool,
    next_temp: u64,
}

impl FunctionInliner {
    /// The functions that calls are replaced by.
    pub closed spec fn known(&self) -> Map<Seq<char>, FnView> {
        self.inlined_functions@.map_values(|f: Function| fn_view(f))
    }

    /// The names marked hot.
    pub closed spec fn hot(&self) -> Set<Seq<char>> {
        self.hot_functions@.dom()
    }

    /// The recorded number of calls of a name.
    pub closed spec fn calls_of(&self, n: Seq<char>) -> nat {
        if self.call_count@.contains_key(n) { self.call_count@[n] as nat } else { 0 }
    }

    /// The size limits and depth: small-function size, hot-function size,
    /// depth of nested inlining.
    pub closed spec fn limits(&self) -> (usize, usize, usize) {
        (self.max_inline_size, self.inline_threshold, self.recursive_inline_depth)
    }

    /// Whether inlining is aggressive.
    pub closed spec fn is_aggressive(&self) -> bool {
        self.aggressive_mode
    }

    /// The counter that makes names fresh.
    pub closed spec fn counter(&self) -> u64 {
        self.next_temp
    }

    /// No known functions, no hot names, no calls counted; sizes 10 and 20,
    /// depth 2, aggressive.
    pub fn new() -> (r: FunctionInliner)
        ensures
            r.known() == Map::<Seq<char>, FnView>::empty(),
            r.hot() == Set::<Seq<char>>::empty(),
            forall|n: Seq<char>| #[trigger] r.calls_of(n) == 0,
            r.limits() == (10usize, 20usize, 2usize),
            r.is_aggressive(),
            r.counter() == 0,
    {
        let r = FunctionInliner {
            inlined_functions: StrMap::new(),
            max_inline_size: 10,
            inline_threshold: 20,
            recursive_inline_depth: 2,
            hot_functions: StrMap::new(),
            call_count: StrMap::new(),
            aggressive_mode: true,
            next_temp: 0,
        };
        assert(r.hot() =~= Set::<Seq<char>>::empty());
        assert(r.known() =~= Map::<Seq<char>, FnView>::empty());
        r
    }

    /// Aggressive inlining with sizes 30 and 50 and depth 4.
    pub fn enable_aggressive_inlining(&mut self)
        ensures
            final(self).is_aggressive(),
            final(self).limits() == (30usize, 50usize, 4usize),
            final(self).known() == old(self).known(),
            final(self).hot() == old(self).hot(),
            forall|n: Seq<char>| #[trigger] final(self).calls_of(n) == old(self).calls_of(n),
            final(self).counter() == old(self).counter(),
    {
        self.aggressive_mode = true;
        self.max_inline_size = 30;
        self.inline_threshold = 50;
        self.recursive_inline_depth = 4;
    }

    /// Counts a call of `func_name`; more than five calls make it hot.
    pub fn record_call(&mut self, func_name: &str)
        requires
            old(self).calls_of(func_name@) < usize::MAX,
        ensures
            forall|n: Seq<char>| #[trigger] final(self).calls_of(n) == if n == func_name@ {
                old(self).calls_of(n) + 1
            } else {
                old(self).calls_of(n)
            },
            final(self).hot() == if old(self).calls_of(func_name@) + 1 > 5 {
                old(self).hot().insert(func_name@)
            } else {
                old(self).hot()
            },
            final(self).known() == old(self).known(),
            final(self).limits() == old(self).limits(),
            final(self).is_aggressive() == old(self).is_aggressive(),
            final(self).counter() == old(self).counter(),
    {
        let count = self.get_call_count(func_name);
        let c = count + 1;
        self.call_count.insert(func_name.to_string(), c);
        if c > 5 {
            self.mark_hot_function(func_name);
        }
    }

    /// The recorded number of calls of `func_name`.
    pub fn get_call_count(&self, func_name: &str) -> (r: usize)
        ensures
            r == self.calls_of(func_name@),
    {
        match self.call_count.get(func_name) {
            Some(c) => *c,
            None => 0,
        }
    }

    /// Marks `name` hot.
    pub fn mark_hot_function(&mut self, name: &str)
        ensures
            final(self).hot() == old(self).hot().insert(name@),
            final(self).known() == old(self).known(),
            forall|n: Seq<char>| #[trigger] final(self).calls_of(n) == old(self).calls_of(n),
            final(self).limits() == old(self).limits(),
            final(self).is_aggressive() == old(self).is_aggressive(),
            final(self).counter() == old(self).counter(),
    {
        self.hot_functions.insert(name.to_string(), ());
        assert(self.hot() =~= old(self).hot().insert(name@));
    }

    /// Whether `name` is hot.
    pub fn is_hot(&self, name: &str) -> (r: bool)
        ensures
            r == self.hot().contains(name@),
    {
        self.hot_functions.contains_key(name)
    }

    /// Makes `func` known under its name.
    pub fn register_function(&mut self, func: Function)
        ensures
            final(self).known() == old(self).known().insert(func.name@, fn_view(func)),
            final(self).hot() == old(self).hot(),
            forall|n: Seq<char>| #[trigger] final(self).calls_of(n) == old(self).calls_of(n),
            final(self).limits() == old(self).limits(),
            final(self).is_aggressive() == old(self).is_aggressive(),
            final(self).counter() == old(self).counter(),
    {
        let key = func.name.clone();
        let ghost f = func;
        self.inlined_functions.insert(key, func);
        assert(self.known() =~= old(self).known().insert(f.name@, fn_view(f)));
    }

    /// Whether inlining a function pays, as the inliner's settings decide.
    pub open spec fn should_inline_spec(&self, f: Function) -> bool {
        let body = insts_view(f.body@);
        let (max_size, threshold, _) = self.limits();
        let hot = self.hot().contains(f.name@);
        if f.is_kernel {
            false
        } else if self.is_aggressive() {
            if body.len() <= 5 {
                true
            } else if hot && body.len() <= threshold {
                true
            } else if is_pure_arithmetic(body) && body.len() <= 20 {
                true
            } else if label_count(body) > 5 {
                false
            } else if is_tail_recursive_spec(f) {
                true
            } else {
                body.len() <= max_size
            }
        } else {
            let limit = if hot { threshold } else { max_size };
            body.len() <= limit && label_count(body) <= 2 && !calls_function(body, f.name@)
        }
    }

    /// Makes known each function of the module that pays to inline.
    pub fn analyze_module(&mut self, module: &Module)
        ensures
            forall|n: Seq<char>| #[trigger] final(self).known().contains_key(n) <==> (old(self).known().contains_key(n)
                || exists|i: int| 0 <= i < module.functions@.len() && module.functions@[i].name@ == n
                    && old(self).should_inline_spec(module.functions@[i])),
            final(self).hot() == old(self).hot(),
            forall|n: Seq<char>| #[trigger] final(self).calls_of(n) == old(self).calls_of(n),
            final(self).limits() == old(self).limits(),
            final(self).is_aggressive() == old(self).is_aggressive(),
            final(self).counter() == old(self).counter(),
    {
        let ghost old_self = *self;
        let mut i: usize = 0;
        while i < module.functions.len()
            invariant
                i <= module.functions@.len(),
                self.hot() == old_self.hot(),
                self.call_count == old_self.call_count,
                forall|n: Seq<char>| #[trigger] self.calls_of(n) == old_self.calls_of(n),
                self.limits() == old_self.limits(),
                self.is_aggressive() == old_self.is_aggressive(),
                self.counter() == old_self.counter(),
                forall|n: Seq<char>| #[trigger] self.known().contains_key(n) <==> (old_self.known().contains_key(n)
                    || exists|j: int| 0 <= j < i && module.functions@[j].name@ == n
                        && old_self.should_inline_spec(module.functions@[j])),
            decreases module.functions@.len() - i,
        {
            let func = &module.functions[i];
            let ghost before = self.known();
            let take = self.should_inline(func);
            assert(take == old_self.should_inline_spec(module.functions@[i as int]));
            if take {
                let copy = copy_function(func);
                self.inlined_functions.insert(func.name.clone(), copy);
                assert(self.known().dom() =~= before.dom().insert(func.name@));
            }
            proof {
                assert forall|n: Seq<char>| #[trigger] self.known().contains_key(n) <==> (old_self.known().contains_key(n)
                    || exists|j: int| 0 <= j < i + 1 && module.functions@[j].name@ == n
                        && old_self.should_inline_spec(module.functions@[j])) by {
                    if exists|j: int| 0 <= j < i + 1 && module.functions@[j].name@ == n
                        && old_self.should_inline_spec(module.functions@[j]) {
                        let j = choose|j: int| 0 <= j < i + 1 && module.functions@[j].name@ == n
                            && old_self.should_inline_spec(module.functions@[j]);
                        if j < i {
                            assert(exists|jj: int| 0 <= jj < i && module.functions@[jj].name@ == n
                                && old_self.should_inline_spec(module.functions@[jj]));
                        }
                    }
                    if before.contains_key(n) {
                        assert(self.known().contains_key(n));
                    }
                    if self.known().contains_key(n) && !before.contains_key(n) {
                        assert(take && n == module.functions@[i as int].name@);
                    }
                }
            }
            i = i + 1;
        }
    }

    fn should_inline(&self, func: &Function) -> (r: bool)
        ensures
            r == self.should_inline_spec(*func),
    {
        if func.is_kernel {
            return false;
        }
        if self.aggressive_mode {
            return self.should_inline_aggressive(func);
        }
        let threshold = if self.is_hot(func.name.as_str()) {
            self.inline_threshold
        } else {
            self.max_inline_size
        };
        if func.body.len() > threshold {
            return false;
        }
        if count_labels(&func.body) > 2 {
            return false;
        }
        !has_call_to(&func.body, &func.name)
    }

    fn should_inline_aggressive(&self, func: &Function) -> (r: bool)
        requires
            !func.is_kernel,
            self.is_aggressive(),
        ensures
            r == self.should_inline_spec(*func),
    {
        if func.body.len() <= 5 {
            return true;
        }
        if self.is_hot(func.name.as_str()) && func.body.len() <= self.inline_threshold {
            return true;
        }
        if pure_arithmetic(&func.body) && func.body.len() <= 20 {
            return true;
        }
        if count_labels(&func.body) > 5 {
            return false;
        }
        if self.is_tail_recursive(func) {
            return true;
        }
        func.body.len() <= self.max_inline_size
    }

    fn is_tail_recursive(&self, func: &Function) -> (r: bool)
        ensures
            r == is_tail_recursive_spec(*func),
    {
        if func.body.len() == 0 {
            return false;
        }
        let last = &func.body[func.body.len() - 1];
        match last {
            Instruction::Return(Some(val)) => starts_with(val.as_str(), func.name.as_str()),
            _ => false,
        }
    }

    /// Replaces calls of known functions by their bodies, to the depth
    /// limit, naming new values from the inliner's counter.
    pub fn inline_calls(&mut self, insts: &[Instruction]) -> (r: Vec<Instruction>)
        ensures
            (insts_view(r@), final(self).counter()) == inline_rec(
                old(self).known(),
                old(self).limits().2 as nat,
                insts_view(insts@),
                0,
                old(self).counter(),
            ),
            final(self).known() == old(self).known(),
            final(self).hot() == old(self).hot(),
            forall|n: Seq<char>| #[trigger] final(self).calls_of(n) == old(self).calls_of(n),
            final(self).limits() == old(self).limits(),
            final(self).is_aggressive() == old(self).is_aggressive(),
    {
        let mut c = self.next_temp;
        let r = self.inline_calls_recursive(insts, 0, &mut c);
        self.next_temp = c;
        r
    }

    fn inline_calls_recursive(&self, insts: &[Instruction], depth: usize, c: &mut u64) -> (r: Vec<Instruction>)
        ensures
            (insts_view(r@), *final(c)) == inline_rec(
                self.known(),
                self.limits().2 as nat,
                insts_view(insts@),
                depth as nat,
                *old(c),
            ),
        decreases self.limits().2 - depth,
    {
        let ghost limit = self.limits().2 as nat;
        if depth >= self.recursive_inline_depth {
            return crate::optimizer::ir::copy_insts(insts);
        }
        let mut inlined: Vec<Instruction> = Vec::new();
        let mut i: usize = 0;
        proof {
            assert(insts_view(insts@).take(0) =~= Seq::<InstV>::empty());
        }
        while i < insts.len()
            invariant
                i <= insts@.len(),
                depth < limit,
                limit == self.limits().2 as nat,
                (insts_view(inlined@), *c) == inline_rec(self.known(), limit, insts_view(insts@).take(i as int), depth as nat, *old(c)),
            decreases insts@.len() - i,
        {
            let ghost v = insts_view(insts@);
            proof {
                assert(v.take(i + 1).drop_last() =~= v.take(i as int));
                assert(v.take(i + 1).last() == insts@[i as int]@);
            }
            let inst = &insts[i];
            let mut done = false;
            if let Instruction::Call { dest, func, args } = inst {
                match self.inlined_functions.get(func.as_str()) {
                    Some(target) => {
                        let d = match dest {
                            Some(x) => Some(x),
                            None => None,
                        };
                        let call_insts = self.inline_function(target, args, d, c);
                        let mut inner = self.inline_calls_recursive(call_insts.as_slice(), depth + 1, c);
                        let ghost before = inlined@;
                        let ghost added = inner@;
                        inlined.append(&mut inner);
                        proof {
                            assert(insts_view(inlined@) =~= insts_view(before) + insts_view(added));
                        }
                        done = true;
                    },
                    None => {},
                }
            }
            if !done {
                let ghost before = inlined@;
                inlined.push(copy_inst(inst));
                proof {
                    assert(insts_view(inlined@) =~= insts_view(before).push(inst@));
                }
            }
            i = i + 1;
        }
        assert(insts_view(insts@).take(insts@.len() as int) =~= insts_view(insts@));
        inlined
    }

    fn inline_function(&self, func: &Function, args: &Vec<String>, dest: Option<&String>, c: &mut u64) -> (r: Vec<Instruction>)
        ensures
            (insts_view(r@), *final(c)) == inline_body(fn_view(*func), texts(args@), match dest {
                Some(d) => Some(d@),
                None => None,
            }, *old(c)),
    {
        let ghost dv = match dest {
            Some(d) => Some(d@),
            None => None::<Seq<char>>,
        };
        let mut var_map: StrMap<String> = StrMap::new();
        let mut k: usize = 0;
        let n = if func.params.len() < args.len() { func.params.len() } else { args.len() };
        while k < n
            invariant
                k <= n,
                n as int == if func.params@.len() < args@.len() { func.params@.len() as int } else { args@.len() as int },
                texts_map(var_map@) == param_map(params_view(func.params@).take(k as int), texts(args@).take(k as int)),
            decreases n - k,
        {
            var_map.insert(func.params[k].0.clone(), args[k].clone());
            proof {
                let p = params_view(func.params@);
                let a = texts(args@);
                assert(p.take(k + 1).take(k as int) =~= p.take(k as int));
                assert(a.take(k + 1).take(k as int) =~= a.take(k as int));
                assert(texts_map(var_map@) =~= param_map(p.take(k + 1), a.take(k + 1)));
            }
            k = k + 1;
        }
        proof {
            lemma_param_map_trunc(params_view(func.params@), texts(args@));
        }
        let mut insts: Vec<Instruction> = Vec::new();
        let ghost start = InlineState { out: Seq::empty(), renames: texts_map(var_map@), count: *c };
        let mut i: usize = 0;
        while i < func.body.len()
            invariant
                i <= func.body@.len(),
                dv == match dest {
                    Some(d) => Some(d@),
                    None => None::<Seq<char>>,
                },
                ({
                    let st = inline_run(start, insts_view(func.body@).take(i as int), dv);
                    insts_view(insts@) == st.out && texts_map(var_map@) == st.renames && *c == st.count
                }),
            decreases func.body@.len() - i,
        {
            proof {
                let v = insts_view(func.body@);
                assert(v.take(i + 1).drop_last() =~= v.take(i as int));
                assert(v.take(i + 1).last() == func.body@[i as int]@);
            }
            let ghost st_i = inline_run(start, insts_view(func.body@).take(i as int), dv);
            proof {
                assert(st_i == InlineState { out: insts_view(insts@), renames: texts_map(var_map@), count: *c });
            }
            self.inline_one(&func.body[i], dest, &mut insts, &mut var_map, c);
            proof {
                let st_next = inline_run(start, insts_view(func.body@).take(i + 1), dv);
                assert(st_next == inline_step(st_i, func.body@[i as int]@, dv));
            }
            i = i + 1;
        }
        assert(insts_view(func.body@).take(func.body@.len() as int) =~= insts_view(func.body@));
        insts
    }

    fn inline_one(
        &self,
        inst: &Instruction,
        dest: Option<&String>,
        insts: &mut Vec<Instruction>,
        var_map: &mut StrMap<String>,
        c: &mut u64,
    )
        ensures
            ({
                let st = inline_step(
                    InlineState { out: insts_view(old(insts)@), renames: texts_map(old(var_map)@), count: *old(c) },
                    inst@,
                    match dest {
                        Some(d) => Some(d@),
                        None => None,
                    },
                );
                insts_view(final(insts)@) == st.out && texts_map(final(var_map)@) == st.renames && *final(c) == st.count
            }),
    {
        let ghost before = insts@;
        match inst {
            Instruction::Alloca { dest: d, ty } => {
                let new_dest = fresh(d, c);
                insts.push(Instruction::Alloca { dest: new_dest.clone(), ty: ty.clone() });
                var_map.insert(d.clone(), new_dest);
            },
            Instruction::Store { dest: d, src } => {
                let mapped_dest = match var_map.get(d.as_str()) {
                    Some(x) => x.clone(),
                    None => d.clone(),
                };
                let mapped_src = map_variable(src, var_map);
                insts.push(Instruction::Store { dest: mapped_dest, src: mapped_src });
            },
            Instruction::Load { dest: d, src } => {
                let mapped_src = map_variable(src, var_map);
                let new_dest = fresh(d, c);
                insts.push(Instruction::Load { dest: new_dest.clone(), src: mapped_src });
                var_map.insert(d.clone(), new_dest);
            },
            Instruction::Add { dest: d, left, right } => {
                let new_dest = fresh(d, c);
                insts.push(Instruction::Add { dest: new_dest.clone(), left: map_variable(left, var_map), right: map_variable(right, var_map) });
                var_map.insert(d.clone(), new_dest);
            },
            Instruction::Sub { dest: d, left, right } => {
                let new_dest = fresh(d, c);
                insts.push(Instruction::Sub { dest: new_dest.clone(), left: map_variable(left, var_map), right: map_variable(right, var_map) });
                var_map.insert(d.clone(), new_dest);
            },
            Instruction::Mul { dest: d, left, right } => {
                let new_dest = fresh(d, c);
                insts.push(Instruction::Mul { dest: new_dest.clone(), left: map_variable(left, var_map), right: map_variable(right, var_map) });
                var_map.insert(d.clone(), new_dest);
            },
            Instruction::Div { dest: d, left, right } => {
                let new_dest = fresh(d, c);
                insts.push(Instruction::Div { dest: new_dest.clone(), left: map_variable(left, var_map), right: map_variable(right, var_map) });
                var_map.insert(d.clone(), new_dest);
            },
            Instruction::Call { dest: d, func: f, args: call_args } => {
                let mut mapped_args: Vec<String> = Vec::new();
                let mut j: usize = 0;
                while j < call_args.len()
                    invariant
                        j <= call_args@.len(),
                        mapped_args@.len() == j,
                        forall|q: int| 0 <= q < j ==> #[trigger] mapped_args@[q]@ == map_var(texts_map(var_map@), call_args@[q]@),
                    decreases call_args@.len() - j,
                {
                    mapped_args.push(map_variable(&call_args[j], var_map));
                    j = j + 1;
                }
                proof {
                    assert(texts(mapped_args@) =~= texts(call_args@).map_values(|a: Seq<char>| map_var(texts_map(var_map@), a)));
                }
                if d.is_some() || dest.is_some() {
                    let new_dest = fresh_tmp(c);
                    insts.push(Instruction::Call { dest: Some(new_dest.clone()), func: f.clone(), args: mapped_args });
                    if let Some(dst) = d {
                        var_map.insert(dst.clone(), new_dest);
                    }
                } else {
                    insts.push(Instruction::Call { dest: None, func: f.clone(), args: mapped_args });
                }
            },
            Instruction::Return(Some(val)) => {
                if let Some(dst) = dest {
                    insts.push(Instruction::Store { dest: dst.clone(), src: map_variable(val, var_map) });
                }
            },
            _ => {
                insts.push(copy_inst(inst));
            },
        }
        proof {
            let st = inline_step(
                InlineState { out: insts_view(before), renames: texts_map(old(var_map)@), count: *old(c) },
                inst@,
                match dest {
                    Some(d) => Some(d@),
                    None => None,
                },
            );
            assert(insts_view(insts@) =~= st.out);
            assert(texts_map(var_map@) =~= st.renames);
        }
    }
}

/// The renaming a map of names holds, as texts.
pub open spec fn texts_map(m: Map<Seq<char>, String>) -> Map<Seq<char>, Seq<char>> {
    m.map_values(|s: String| s@)
}

/// Pairing stops at the shorter list.
proof fn lemma_param_map_trunc(p: Seq<(Seq<char>, Seq<char>)>, a: Seq<Seq<char>>)
    ensures
        ({
            let n = if p.len() < a.len() { p.len() } else { a.len() };
            param_map(p.take(n as int), a.take(n as int)) == param_map(p, a)
        }),
{
    let n = if p.len() < a.len() { p.len() } else { a.len() };
    if n > 0 {
        assert(p.take(n as int).take(n - 1) =~= p.take(n - 1));
        assert(a.take(n as int).take(n - 1) =~= a.take(n - 1));
    }
}

/// `d.inline.N` for the counter value `N`, advancing the counter.
fn fresh(d: &String, c: &mut u64) -> (r: String)
    ensures
        r@ == fresh_name(d@ + ".inline."@, *old(c)),
        *final(c) == next_count(*old(c)),
{
    let mut s = owned(d.as_str());
    string_push_str(&mut s, ".inline.");
    push_decimal(&mut s, *c);
    *c = c.wrapping_add(1);
    s
}

/// `.tmpN` for the counter value `N`, advancing the counter.
fn fresh_tmp(c: &mut u64) -> (r: String)
    ensures
        r@ == fresh_name(".tmp"@, *old(c)),
        *final(c) == next_count(*old(c)),
{
    let mut s = owned(".tmp");
    push_decimal(&mut s, *c);
    *c = c.wrapping_add(1);
    s
}

/// An operand under the renaming, as `map_var`.
fn map_variable(var: &String, var_map: &StrMap<String>) -> (r: String)
    ensures
        r@ == map_var(texts_map(var_map@), var@),
{
    if starts_with(var.as_str(), ".tmp") || starts_with(var.as_str(), "const.") {
        var.clone()
    } else {
        match var_map.get(var.as_str()) {
            Some(x) => x.clone(),
            None => var.clone(),
        }
    }
}

/// Number of labels, as `label_count`.
fn count_labels(body: &Vec<Instruction>) -> (r: usize)
    ensures
        r == label_count(insts_view(body@)),
{
    let mut n: usize = 0;
    let mut i: usize = 0;
    while i < body.len()
        invariant
            i <= body@.len(),
            n == label_count(insts_view(body@).take(i as int)),
            n <= i,
        decreases body@.len() - i,
    {
        proof {
            let v = insts_view(body@);
            assert(v.take(i + 1).drop_last() =~= v.take(i as int));
            assert(v.take(i + 1).last() == body@[i as int]@);
        }
        if let Instruction::Label(_) = &body[i] {
            n = n + 1;
        }
        i = i + 1;
    }
    assert(insts_view(body@).take(body@.len() as int) =~= insts_view(body@));
    n
}

/// Whether the body calls `name`.
fn has_call_to(body: &Vec<Instruction>, name: &String) -> (r: bool)
    ensures
        r == calls_function(insts_view(body@), name@),
{
    let mut i: usize = 0;
    while i < body.len()
        invariant
            i <= body@.len(),
            forall|j: int| 0 <= j < i ==> !(#[trigger] insts_view(body@)[j] matches InstV::Call { func, .. } && func == name@),
        decreases body@.len() - i,
    {
        if let Instruction::Call { func, .. } = &body[i] {
            if crate::text::str_eq(func.as_str(), name.as_str()) {
                assert(insts_view(body@)[i as int] matches InstV::Call { func, .. } && func == name@);
                return true;
            }
        }
        assert(!(insts_view(body@)[i as int] matches InstV::Call { func, .. } && func == name@));
        i = i + 1;
    }
    false
}

/// Whether every instruction is arithmetic, memory access or a return.
fn pure_arithmetic(body: &Vec<Instruction>) -> (r: bool)
    ensures
        r == is_pure_arithmetic(insts_view(body@)),
{
    let mut i: usize = 0;
    while i < body.len()
        invariant
            i <= body@.len(),
            forall|j: int| 0 <= j < i ==> match #[trigger] insts_view(body@)[j] {
                InstV::Bin { op, .. } => op == BinKind::Add || op == BinKind::Sub || op == BinKind::Mul || op == BinKind::Div,
                InstV::Load { .. } => true,
                InstV::Store { .. } => true,
                InstV::Alloca { .. } => true,
                InstV::Return(_) => true,
                _ => false,
            },
        decreases body@.len() - i,
    {
        let ok = match &body[i] {
            Instruction::Add { .. } | Instruction::Sub { .. } | Instruction::Mul { .. } | Instruction::Div { .. }
            | Instruction::Load { .. } | Instruction::Store { .. } | Instruction::Alloca { .. } | Instruction::Return(_) => true,
            _ => false,
        };
        if !ok {
            assert(!match insts_view(body@)[i as int] {
                InstV::Bin { op, .. } => op == BinKind::Add || op == BinKind::Sub || op == BinKind::Mul || op == BinKind::Div,
                InstV::Load { .. } => true,
                InstV::Store { .. } => true,
                InstV::Alloca { .. } => true,
                InstV::Return(_) => true,
                _ => false,
            });
            return false;
        }
        i = i + 1;
    }
    true
}

} // verus!
