//! Return value optimisation: a function that returns a freshly built
//! struct can build it directly in the caller's frame, and a return of a
//! temporary becomes a return in place.
use vstd::prelude::*;
use crate::ast::{Expression, Statement};
use crate::optimizer::ir::{Function, InstV, Instruction, Module, insts_view, copy_inst};
use crate::optimizer::names::{has_prefix, starts_with};

verus! {

/// Whether a function body returns a struct construction directly: it is
/// one, or it is a block whose last statement returns one.
pub open spec fn direct_struct_return(body: Expression) -> bool {
    match body {
        Expression::Block(stmts) => stmts@.len() > 0 && (stmts@.last() matches Statement::Return(Some(e))
            && e is Struct),
        Expression::Struct { .. } => true,
        _ => false,
    }
}

/// A return of a `.tmp` temporary becomes a return in place; every other
/// instruction stays.
pub open spec fn rvo_inst(i: InstV) -> InstV {
    match i {
        InstV::Return(Some(v)) => if has_prefix(v, ".tmp"@) { InstV::ReturnInPlace(v) } else { i },
        _ => i,
    }
}

/// Whether an instruction is a return that the optimisation rewrites.
pub open spec fn rewritten(i: InstV) -> bool {
    i matches InstV::Return(Some(v)) && has_prefix(v, ".tmp"@)
}

/// How many returns of a body are rewritten.
pub open spec fn rvo_count(body: Seq<InstV>) -> nat
    decreases body.len(),
{
    if body.len() == 0 {
        0
    } else {
        rvo_count(body.drop_last()) + if rewritten(body.last()) { 1nat } else { 0nat }
    }
}

/// The laws of return value optimisation on a body: the count is the
/// number of returns of `.tmp` temporaries, each of which becomes a return
/// in place of the same name, while every other instruction stays as it is.
pub proof fn lemma_rvo_laws(body: Seq<InstV>)
    ensures
        rvo_count(body) == body.filter(|i: InstV| rewritten(i)).len(),
        forall|k: int| 0 <= k < body.len() && !rewritten(body[k]) ==> rvo_inst(#[trigger] body[k]) == body[k],
        forall|k: int| 0 <= k < body.len() && rewritten(body[k]) ==> (#[trigger] body[k] matches InstV::Return(Some(v))
            && rvo_inst(body[k]) == InstV::ReturnInPlace(v)),
    decreases body.len(),
{
    reveal(Seq::filter);
    if body.len() > 0 {
        lemma_rvo_laws(body.drop_last());
    }
}

/// How many returns of the functions are rewritten.
pub open spec fn module_rvo_count(fs: Seq<Function>) -> nat
    decreases fs.len(),
{
    if fs.len() == 0 {
        0
    } else {
        module_rvo_count(fs.drop_last()) + rvo_count(insts_view(fs.last().body@))
    }
}

/// Applies return value optimisation and counts the returns it rewrote.
pub struct RVOOptimizer {
    optimized_count: usize,
}

impl RVOOptimizer {
    /// The number of returns rewritten so far.
    pub closed spec fn count(&self) -> nat {
        self.optimized_count as nat
    }

    /// Nothing rewritten yet.
    pub fn new() -> (r: RVOOptimizer)
        ensures
            r.count() == 0,
    {
        RVOOptimizer { optimized_count: 0 }
    }

    /// Whether a statement is a function whose body returns a struct
    /// construction directly.
    pub fn can_optimize(&self, func: &Statement) -> (r: bool)
        ensures
            r == (*func matches Statement::Function { body, .. } && direct_struct_return(body)),
    {
        match func {
            Statement::Function { body, .. } => self.has_direct_return(body),
            _ => false,
        }
    }

    fn has_direct_return(&self, body: &Expression) -> (r: bool)
        ensures
            r == direct_struct_return(*body),
    {
        match body {
            Expression::Block(stmts) => {
                if stmts.len() == 0 {
                    return false;
                }
                match &stmts[stmts.len() - 1] {
                    Statement::Return(Some(expr)) => {
                        match expr {
                            Expression::Struct { .. } => true,
                            _ => false,
                        }
                    },
                    _ => false,
                }
            },
            Expression::Struct { .. } => true,
            _ => false,
        }
    }

    /// Rewrites each return of a `.tmp` temporary into a return in place;
    /// tells whether there was one.
    pub fn optimize_function(&mut self, func: &mut Function) -> (optimized: bool)
        requires
            old(self).count() + rvo_count(insts_view(old(func).body@)) <= usize::MAX,
        ensures
            insts_view(final(func).body@) == insts_view(old(func).body@).map_values(|i: InstV| rvo_inst(i)),
            optimized == (rvo_count(insts_view(old(func).body@)) > 0),
            final(self).count() == old(self).count() + rvo_count(insts_view(old(func).body@)),
            final(func).name == old(func).name,
            final(func).params == old(func).params,
            final(func).is_kernel == old(func).is_kernel,
    {
        let ghost v = insts_view(func.body@);
        let ghost c0 = self.count();
        let mut optimized = false;
        let mut new_body: Vec<Instruction> = Vec::new();
        let mut i: usize = 0;
        while i < func.body.len()
            invariant
                i <= func.body@.len(),
                v == insts_view(func.body@),
                c0 + rvo_count(v) <= usize::MAX,
                insts_view(new_body@) == v.take(i as int).map_values(|x: InstV| rvo_inst(x)),
                self.count() == c0 + rvo_count(v.take(i as int)),
                optimized == (rvo_count(v.take(i as int)) > 0),
            decreases func.body@.len() - i,
        {
            proof {
                assert(v.take(i + 1).drop_last() =~= v.take(i as int));
                assert(v.take(i + 1).last() == func.body@[i as int]@);
                lemma_count_prefix(v, i + 1);
            }
            let ghost before = new_body@;
            let inst = &func.body[i];
            match inst {
                Instruction::Return(Some(value)) => {
                    if starts_with(value.as_str(), ".tmp") {
                        new_body.push(Instruction::ReturnInPlace(value.clone()));
                        optimized = true;
                        self.optimized_count = self.optimized_count + 1;
                    } else {
                        new_body.push(copy_inst(inst));
                    }
                },
                _ => {
                    new_body.push(copy_inst(inst));
                },
            }
            proof {
                assert(insts_view(new_body@) =~= insts_view(before).push(rvo_inst(v[i as int])));
                assert(v.take(i + 1).map_values(|x: InstV| rvo_inst(x))
                    =~= v.take(i as int).map_values(|x: InstV| rvo_inst(x)).push(rvo_inst(v[i as int])));
            }
            i = i + 1;
        }
        proof {
            assert(v.take(i as int) =~= v);
        }
        if optimized {
            func.body = new_body;
        } else {
            proof {
                lemma_no_rewrite(v);
            }
        }
        optimized
    }

    /// Applies the optimisation to every function of the module.
    pub fn optimize_module(&mut self, module: &mut Module)
        requires
            old(self).count() + module_rvo_count(old(module).functions@) <= usize::MAX,
        ensures
            final(module).functions@.len() == old(module).functions@.len(),
            forall|j: int| 0 <= j < old(module).functions@.len() ==> {
                let f = #[trigger] final(module).functions@[j];
                let g = old(module).functions@[j];
                &&& insts_view(f.body@) == insts_view(g.body@).map_values(|i: InstV| rvo_inst(i))
                &&& f.name == g.name
                &&& f.params == g.params
                &&& f.is_kernel == g.is_kernel
            },
            final(self).count() == old(self).count() + module_rvo_count(old(module).functions@),
    {
        let ghost fs0 = module.functions@;
        let ghost c0 = self.count();
        let n = module.functions.len();
        let mut i: usize = 0;
        while i < n
            invariant
                i <= n,
                n == module.functions@.len(),
                n == fs0.len(),
                fs0 == old(module).functions@,
                c0 == old(self).count(),
                c0 + module_rvo_count(fs0) <= usize::MAX,
                self.count() == c0 + module_rvo_count(fs0.take(i as int)),
                forall|j: int| 0 <= j < i ==> {
                    let f = #[trigger] module.functions@[j];
                    let g = fs0[j];
                    &&& insts_view(f.body@) == insts_view(g.body@).map_values(|x: InstV| rvo_inst(x))
                    &&& f.name == g.name
                    &&& f.params == g.params
                    &&& f.is_kernel == g.is_kernel
                },
                forall|j: int| i <= j < n ==> #[trigger] module.functions@[j] == fs0[j],
            decreases n - i,
        {
            proof {
                assert(fs0.take(i + 1).drop_last() =~= fs0.take(i as int));
                assert(fs0.take(i + 1).last() == fs0[i as int]);
                lemma_module_count_prefix(fs0, i + 1);
            }
            let ghost before = module.functions@;
            let mut f = module.functions.remove(i);
            self.optimize_function(&mut f);
            module.functions.insert(i, f);
            proof {
                assert(module.functions@ =~= before.update(i as int, f));
            }
            i = i + 1;
        }
        proof {
            assert(fs0.take(n as int) =~= fs0);
        }
    }

    /// The number of returns rewritten so far.
    pub fn get_stats(&self) -> (r: usize)
        ensures
            r == self.count(),
    {
        self.optimized_count
    }
}

impl Default for RVOOptimizer {
    fn default() -> (r: RVOOptimizer)
        ensures
            r.count() == 0,
    {
        RVOOptimizer::new()
    }
}

/// The rewritten returns of a prefix are no more than those of the whole.
proof fn lemma_count_prefix(v: Seq<InstV>, k: int)
    requires
        0 <= k <= v.len(),
    ensures
        rvo_count(v.take(k)) <= rvo_count(v),
    decreases v.len() - k,
{
    if k < v.len() {
        lemma_count_prefix(v, k + 1);
        assert(v.take(k + 1).drop_last() =~= v.take(k));
    } else {
        assert(v.take(k) =~= v);
    }
}

/// The same for the functions of a module.
proof fn lemma_module_count_prefix(fs: Seq<Function>, k: int)
    requires
        0 <= k <= fs.len(),
    ensures
        module_rvo_count(fs.take(k)) <= module_rvo_count(fs),
    decreases fs.len() - k,
{
    if k < fs.len() {
        lemma_module_count_prefix(fs, k + 1);
        assert(fs.take(k + 1).drop_last() =~= fs.take(k));
    } else {
        assert(fs.take(k) =~= fs);
    }
}

/// A body with no rewritten return is left as it is by the rewrite.
proof fn lemma_no_rewrite(v: Seq<InstV>)
    requires
        rvo_count(v) == 0,
    ensures
        v.map_values(|i: InstV| rvo_inst(i)) == v,
    decreases v.len(),
{
    if v.len() > 0 {
        lemma_no_rewrite(v.drop_last());
        assert(v.drop_last().map_values(|i: InstV| rvo_inst(i)) == v.drop_last());
        assert(v.map_values(|i: InstV| rvo_inst(i)) =~= v.drop_last().map_values(|i: InstV| rvo_inst(i)).push(rvo_inst(v.last())));
        assert(v =~= v.drop_last().push(v.last()));
    }
}

} // verus!
