//! Optimisation passes over the intermediate representation: constant
//! propagation and folding, inlining, dead-code and common-subexpression
//! elimination, algebraic simplification, promotion of memory to
//! registers, sparse conditional constant propagation, value numbering,
//! loop unrolling and vectorisation detection, and the pass pipeline.
pub mod ir;
pub mod names;
pub mod constant;
pub mod inliner;
pub mod cleanup;
pub mod gvn;
pub mod mem2reg;
pub mod sccp;
pub mod loops;
pub mod full_mem2reg;
pub mod pipeline;

pub use self::ir::{Function, Instruction, Module};
pub use self::constant::{ConstantPropagator, ConstantValue};
pub use self::inliner::FunctionInliner;
pub use self::cleanup::{AlgebraicSimplifier, CommonSubexprEliminator, DeadCodeEliminator};
pub use self::gvn::{GVNExpr, GVN};
pub use self::mem2reg::{LatticeValue, Mem2Reg};
pub use self::sccp::{ConstState, SCCP};
pub use self::loops::{LoopInfo, LoopUnroller, Vectorizer};
pub use self::full_mem2reg::FullMem2Reg;
pub use self::pipeline::Optimizer;
