//! Verified core of the Chim compiler: layout analysis, semantic helpers,
//! IR optimisation passes, a memory pool, a random number generator and the
//! Chim standard library's computational parts.
pub mod text;
pub mod assoc;
pub mod strmap;

pub mod ast;
pub mod parser;
pub mod memory_layout;
pub mod sized;
pub mod semantic;
pub mod radix_pool;
pub mod rand;
pub mod sync;
pub mod procedural_macros;
pub mod pattern;
pub mod termination;
pub mod optimizer;
pub mod rvo;

pub mod strops;
pub mod stdlib;
pub mod toon;
pub mod toml;
pub mod thread_local;
