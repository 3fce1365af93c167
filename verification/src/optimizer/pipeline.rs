//! The optimisation pipeline: which passes run at each level, and in
//! which order.
use vstd::prelude::*;
use crate::optimizer::ir::{Function, InstV, Instruction, Module, insts_view, params_view, copy_function};
use crate::optimizer::constant::{ConstantPropagator, cp_run, folded};
use crate::optimizer::inliner::{FunctionInliner, FnView, inline_rec};
use crate::optimizer::cleanup::{
    AlgebraicSimplifier, CommonSubexprEliminator, DeadCodeEliminator, cse_run, live_insts, simplified, used_names,
};
use crate::optimizer::mem2reg::{Mem2Reg, m2r_fix};
use crate::optimizer::sccp::{SCCP, simplify_run};
use crate::optimizer::gvn::{GVN, gvn_run};
use crate::optimizer::loops::{LoopUnroller, Vectorizer, unroll_from};
use crate::optimizer::full_mem2reg::{FullMem2Reg, without_dead};

verus! {

/// The body after the first level: algebraic simplification, constant
/// propagation and folding, dead-code elimination.
pub open spec fn level1(b: Seq<InstV>) -> Seq<InstV> {
    let b1 = b.map_values(|i: InstV| simplified(i));
    let b2 = folded(cp_run(Map::empty(), b1), b1);
    live_insts(used_names(b2), b2)
}

/// Promotion repeated until it changes nothing.
pub open spec fn m2r_full(b: Seq<InstV>) -> Seq<InstV> {
    m2r_fix(b)
}

/// The first part of level two: promotion, constant propagation, value
/// numbering, common-subexpression elimination.
pub open spec fn level2_first(b3: Seq<InstV>) -> Seq<InstV> {
    cse_run(gvn_run(simplify_run(m2r_full(b3)).0).out).0
}

/// The last part of level two: promotion, constant propagation, value
/// numbering, dead-code elimination.
pub open spec fn level2_last(b10: Seq<InstV>) -> Seq<InstV> {
    let b13 = gvn_run(simplify_run(m2r_full(b10)).0).out;
    live_insts(used_names(b13), b13)
}

/// What optimising one function gives: its body, and the inliner's
/// functions and counter afterwards.
pub struct OptRun {
    pub body: Seq<InstV>,
    pub known: Map<Seq<char>, FnView>,
    pub count: u64,
}

/// Optimising a function named `name` with parameters `params` and body
/// `b0` at `level`: level one as `level1`; level two then promotes memory,
/// propagates constants, numbers values, eliminates common subexpressions,
/// makes the function known to the inliner and inlines calls, unrolls
/// loops, removes dead slots, promotes memory again, propagates constants,
/// numbers values and eliminates dead code again.
pub open spec fn opt_body(
    level: u32,
    name: Seq<char>,
    params: Seq<(Seq<char>, Seq<char>)>,
    b0: Seq<InstV>,
    known: Map<Seq<char>, FnView>,
    limit: nat,
    c: u64,
    positions: nat,
) -> OptRun {
    let b3 = if level >= 1 { level1(b0) } else { b0 };
    if level < 2 {
        OptRun { body: b3, known, count: c }
    } else {
        let b7 = level2_first(b3);
        let k2 = known.insert(name, (params, b7));
        let inl = inline_rec(k2, limit, b7, 0, c);
        let b9 = unroll_from(inl.0, 0, positions, false).0;
        let b10 = without_dead(b9, b9);
        OptRun { body: level2_last(b10), known: k2, count: inl.1 }
    }
}

/// A function as the pipeline reads it: name, parameters, body.
pub open spec fn fn_state(f: Function) -> (Seq<char>, Seq<(Seq<char>, Seq<char>)>, Seq<InstV>) {
    (f.name@, params_view(f.params@), insts_view(f.body@))
}

/// Runs the passes over a function at its optimisation level.
pub struct Optimizer {
    pub constant_prop: ConstantPropagator,
    pub inliner: FunctionInliner,
    pub dce: DeadCodeEliminator,
    pub cse: CommonSubexprEliminator,
    pub algebraic: AlgebraicSimplifier,
    pub mem2reg: Mem2Reg,
    pub sccp: SCCP,
    pub gvn: GVN,
    pub loop_unroller: LoopUnroller,
    pub vectorizer: Vectorizer,
    pub full_mem2reg: FullMem2Reg,
    pub opt_level: u32,
}

/// A round over the module's functions, in order: the bodies after it, the
/// inliner's functions and counter, and whether some body's length changed.
pub open spec fn module_round(
    level: u32,
    fs: Seq<(Seq<char>, Seq<(Seq<char>, Seq<char>)>, Seq<InstV>)>,
    known: Map<Seq<char>, FnView>,
    limit: nat,
    c: u64,
    positions: nat,
) -> (Seq<(Seq<char>, Seq<(Seq<char>, Seq<char>)>, Seq<InstV>)>, Map<Seq<char>, FnView>, u64, bool)
    decreases fs.len(),
{
    if fs.len() == 0 {
        (Seq::empty(), known, c, false)
    } else {
        let prev = module_round(level, fs.drop_last(), known, limit, c, positions);
        let f = fs.last();
        let r = opt_body(level, f.0, f.1, f.2, prev.1, limit, prev.2, positions);
        (prev.0.push((f.0, f.1, r.body)), r.known, r.count, prev.3 || r.body.len() != f.2.len())
    }
}

/// Rounds until one changes nothing, at most `rounds` of them: the
/// functions and the inliner's functions and counter.
pub open spec fn module_run(
    level: u32,
    fs: Seq<(Seq<char>, Seq<(Seq<char>, Seq<char>)>, Seq<InstV>)>,
    known: Map<Seq<char>, FnView>,
    limit: nat,
    c: u64,
    positions: nat,
    rounds: nat,
) -> (Seq<(Seq<char>, Seq<(Seq<char>, Seq<char>)>, Seq<InstV>)>, Map<Seq<char>, FnView>, u64)
    decreases rounds,
{
    if rounds == 0 {
        (fs, known, c)
    } else {
        let r = module_round(level, fs, known, limit, c, positions);
        if !r.3 {
            (r.0, r.1, r.2)
        } else {
            module_run(level, r.0, r.1, limit, r.2, positions, (rounds - 1) as nat)
        }
    }
}

impl Optimizer {
    /// The pipeline at `opt_level` with fresh passes.
    pub fn new(opt_level: u32) -> (r: Optimizer)
        ensures
            r.opt_level == opt_level,
            r.inliner.known() == Map::<Seq<char>, FnView>::empty(),
            r.inliner.counter() == 0,
            r.inliner.limits() == (10usize, 20usize, 2usize),
            r.loop_unroller.positions() == 1000,
    {
        Optimizer {
            constant_prop: ConstantPropagator::new(),
            inliner: FunctionInliner::new(),
            dce: DeadCodeEliminator::new(),
            cse: CommonSubexprEliminator::new(),
            algebraic: AlgebraicSimplifier::new(),
            mem2reg: Mem2Reg::new(),
            sccp: SCCP::new(),
            gvn: GVN::new(),
            loop_unroller: LoopUnroller::new(),
            vectorizer: Vectorizer::new(),
            full_mem2reg: FullMem2Reg::new(),
            opt_level,
        }
    }

    /// The run that optimising `f` in the current state gives.
    pub open spec fn run_of(&self, f: Function) -> OptRun {
        opt_body(
            self.opt_level,
            f.name@,
            params_view(f.params@),
            insts_view(f.body@),
            self.inliner.known(),
            self.inliner.limits().2 as nat,
            self.inliner.counter(),
            self.loop_unroller.positions() as nat,
        )
    }

    /// Optimises a function; tells whether its body's length changed.
    pub fn optimize_function(&mut self, func: &mut Function) -> (changed: bool)
        ensures
            insts_view(final(func).body@) == old(self).run_of(*old(func)).body,
            changed == (old(self).run_of(*old(func)).body.len() != old(func).body@.len()),
            final(func).name == old(func).name,
            final(func).params == old(func).params,
            final(func).is_kernel == old(func).is_kernel,
            final(self).inliner.known() == old(self).run_of(*old(func)).known,
            final(self).inliner.counter() == old(self).run_of(*old(func)).count,
            final(self).inliner.limits() == old(self).inliner.limits(),
            final(self).inliner.hot() == old(self).inliner.hot(),
            final(self).inliner.is_aggressive() == old(self).inliner.is_aggressive(),
            final(self).loop_unroller.positions() == old(self).loop_unroller.positions(),
            final(self).opt_level == old(self).opt_level,
    {
        let ghost b0 = insts_view(func.body@);
        let original_len = func.body.len();
        if self.opt_level >= 1 {
            self.run_level1(func);
        }
        if self.opt_level >= 2 {
            self.run_level2_first(func);
            let ghost b7 = insts_view(func.body@);
            let copy = copy_function(func);
            self.inliner.register_function(copy);
            func.body = self.inliner.inline_calls(func.body.as_slice());
            self.loop_unroller.unroll(func);
            self.vectorizer.vectorize(func);
            self.full_mem2reg.promote(func);
            self.run_level2_last(func);
        }
        func.body.len() != original_len
    }

    fn run_level1(&mut self, func: &mut Function)
        ensures
            insts_view(final(func).body@) == level1(insts_view(old(func).body@)),
            final(func).name == old(func).name,
            final(func).params == old(func).params,
            final(func).is_kernel == old(func).is_kernel,
            final(self).inliner == old(self).inliner,
            final(self).loop_unroller == old(self).loop_unroller,
            final(self).opt_level == old(self).opt_level,
    {
        func.body = self.algebraic.simplify(func.body.as_slice());
        self.constant_prop.analyze_function(func);
        func.body = self.constant_prop.optimize(func.body.as_slice());
        func.body = self.dce.eliminate(func.body.as_slice());
    }

    fn run_level2_first(&mut self, func: &mut Function)
        ensures
            insts_view(final(func).body@) == level2_first(insts_view(old(func).body@)),
            final(func).name == old(func).name,
            final(func).params == old(func).params,
            final(func).is_kernel == old(func).is_kernel,
            final(self).inliner == old(self).inliner,
            final(self).loop_unroller == old(self).loop_unroller,
            final(self).opt_level == old(self).opt_level,
    {
        let ghost b3 = insts_view(func.body@);
        self.mem2reg.promote(func);
        let ghost b4 = insts_view(func.body@);
        assert(b4 == m2r_full(b3));
        let b5 = self.sccp.run(func);
        assert(insts_view(b5@) == simplify_run(b4).0);
        let b6 = self.gvn.eliminate(b5.as_slice());
        assert(insts_view(b6@) == gvn_run(simplify_run(b4).0).out);
        let b7 = self.cse.eliminate(b6.as_slice());
        assert(insts_view(b7@) == level2_first(b3));
        func.body = b7;
    }

    fn run_level2_last(&mut self, func: &mut Function)
        ensures
            insts_view(final(func).body@) == level2_last(insts_view(old(func).body@)),
            final(func).name == old(func).name,
            final(func).params == old(func).params,
            final(func).is_kernel == old(func).is_kernel,
            final(self).inliner == old(self).inliner,
            final(self).loop_unroller == old(self).loop_unroller,
            final(self).opt_level == old(self).opt_level,
    {
        let ghost b10 = insts_view(func.body@);
        self.mem2reg.promote(func);
        let ghost b11 = insts_view(func.body@);
        assert(b11 == m2r_full(b10));
        let b12 = self.sccp.run(func);
        assert(insts_view(b12@) == simplify_run(b11).0);
        let b13 = self.gvn.eliminate(b12.as_slice());
        assert(insts_view(b13@) == gvn_run(simplify_run(b11).0).out);
        let b14 = self.dce.eliminate(b13.as_slice());
        assert(insts_view(b14@) == level2_last(b10));
        func.body = b14;
    }

    /// Optimises every function, in rounds until a round changes no body's
    /// length, at most five; nothing at level zero.
    #[verifier::rlimit(50)]
    pub fn optimize_module(&mut self, module: &mut Module)
        ensures
            old(self).opt_level == 0 ==> *final(module) == *old(module),
            old(self).opt_level != 0 ==> ({
                let r = module_run(
                    old(self).opt_level,
                    old(module).functions@.map_values(|f: Function| fn_state(f)),
                    old(self).inliner.known(),
                    old(self).inliner.limits().2 as nat,
                    old(self).inliner.counter(),
                    old(self).loop_unroller.positions() as nat,
                    5,
                );
                &&& final(module).functions@.map_values(|f: Function| fn_state(f)) == r.0
                &&& final(self).inliner.known() == r.1
                &&& final(self).inliner.counter() == r.2
            }),
            final(self).opt_level == old(self).opt_level,
    {
        if self.opt_level == 0 {
            return;
        }
        let ghost level = self.opt_level;
        let ghost limit = self.inliner.limits().2 as nat;
        let ghost positions = self.loop_unroller.positions() as nat;
        let ghost goal = module_run(
            level,
            module.functions@.map_values(|f: Function| fn_state(f)),
            self.inliner.known(),
            limit,
            self.inliner.counter(),
            positions,
            5,
        );
        let mut round: usize = 0;
        while round < 5
            invariant_except_break
                goal == module_run(
                    level,
                    module.functions@.map_values(|f: Function| fn_state(f)),
                    self.inliner.known(),
                    limit,
                    self.inliner.counter(),
                    positions,
                    (5 - round) as nat,
                ),
            invariant
                round <= 5,
                level == self.opt_level,
                level != 0,
                limit == self.inliner.limits().2 as nat,
                positions == self.loop_unroller.positions() as nat,
            ensures
                goal.0 == module.functions@.map_values(|f: Function| fn_state(f)),
                goal.1 == self.inliner.known(),
                goal.2 == self.inliner.counter(),
                level == self.opt_level,
            decreases 5 - round,
        {
            let ghost fs0 = module.functions@.map_values(|f: Function| fn_state(f));
            let ghost rr = module_round(level, fs0, self.inliner.known(), limit, self.inliner.counter(), positions);
            let changed = self.optimize_round(module, Ghost(fs0));
            proof {
                let fs1 = module.functions@.map_values(|f: Function| fn_state(f));
                assert(fs1 == rr.0);
                assert(self.inliner.known() == rr.1);
                assert(self.inliner.counter() == rr.2);
                assert(changed == rr.3);
            }
            round = round + 1;
            if !changed {
                break;
            }
        }
        proof {
            if round == 5 {
                assert(goal == module_run(
                    level,
                    module.functions@.map_values(|f: Function| fn_state(f)),
                    self.inliner.known(),
                    limit,
                    self.inliner.counter(),
                    positions,
                    0,
                ));
            }
        }
    }

    /// One round over the module's functions.
    fn optimize_round(&mut self, module: &mut Module, Ghost(fs0): Ghost<Seq<(Seq<char>, Seq<(Seq<char>, Seq<char>)>, Seq<InstV>)>>) -> (changed: bool)
        requires
            fs0 == old(module).functions@.map_values(|f: Function| fn_state(f)),
        ensures
            ({
                let r = module_round(
                    old(self).opt_level,
                    fs0,
                    old(self).inliner.known(),
                    old(self).inliner.limits().2 as nat,
                    old(self).inliner.counter(),
                    old(self).loop_unroller.positions() as nat,
                );
                &&& final(module).functions@.map_values(|f: Function| fn_state(f)) == r.0
                &&& final(self).inliner.known() == r.1
                &&& final(self).inliner.counter() == r.2
                &&& changed == r.3
            }),
            final(self).opt_level == old(self).opt_level,
            final(self).inliner.limits() == old(self).inliner.limits(),
            final(self).loop_unroller.positions() == old(self).loop_unroller.positions(),
    {
        let ghost level = self.opt_level;
        let ghost limit = self.inliner.limits().2 as nat;
        let ghost positions = self.loop_unroller.positions() as nat;
        let ghost k0 = self.inliner.known();
        let ghost c0 = self.inliner.counter();
        let mut changed = false;
        let n = module.functions.len();
        let mut i: usize = 0;
        proof {
            assert(fs0.take(0) =~= Seq::empty());
        }
        while i < n
            invariant
                i <= n,
                n == module.functions@.len(),
                n == fs0.len(),
                fs0 == old(module).functions@.map_values(|f: Function| fn_state(f)),
                level == self.opt_level,
                limit == self.inliner.limits().2 as nat,
                positions == self.loop_unroller.positions() as nat,
                self.inliner.limits() == old(self).inliner.limits(),
                self.loop_unroller.positions() == old(self).loop_unroller.positions(),
                ({
                    let r = module_round(level, fs0.take(i as int), k0, limit, c0, positions);
                    &&& r.0.len() == i
                    &&& forall|j: int| 0 <= j < i ==> #[trigger] fn_state(module.functions@[j]) == r.0[j]
                    &&& self.inliner.known() == r.1
                    &&& self.inliner.counter() == r.2
                    &&& changed == r.3
                }),
                forall|j: int| i <= j < n ==> #[trigger] module.functions@[j] == old(module).functions@[j],
            decreases n - i,
        {
            let ghost prev = module_round(level, fs0.take(i as int), k0, limit, c0, positions);
            proof {
                assert(fs0.take(i + 1).drop_last() =~= fs0.take(i as int));
                assert(fs0.take(i + 1).last() == fs0[i as int]);
                assert(fs0[i as int] == fn_state(old(module).functions@[i as int]));
            }
            let ghost before = module.functions@;
            let mut f = module.functions.remove(i);
            let did = self.optimize_function(&mut f);
            if did {
                changed = true;
            }
            module.functions.insert(i, f);
            proof {
                assert(module.functions@ =~= before.update(i as int, f));
                let r = module_round(level, fs0.take(i + 1), k0, limit, c0, positions);
                assert(r.0 =~= prev.0.push((fs0[i as int].0, fs0[i as int].1, insts_view(f.body@))));
                assert(fn_state(f) == r.0[i as int]);
                assert forall|j: int| 0 <= j < i + 1 implies #[trigger] fn_state(module.functions@[j]) == r.0[j] by {
                    if j < i {
                        assert(module.functions@[j] == before[j]);
                        assert(r.0[j] == prev.0[j]);
                    }
                }
            }
            i = i + 1;
        }
        proof {
            assert(fs0.take(n as int) =~= fs0);
            assert(module.functions@.map_values(|f: Function| fn_state(f)) =~= module_round(level, fs0, k0, limit, c0, positions).0);
        }
        changed
    }
}

impl Default for Optimizer {
    fn default() -> (r: Optimizer)
        ensures
            r.opt_level == 1,
    {
        Optimizer::new(1)
    }
}

} // verus!
