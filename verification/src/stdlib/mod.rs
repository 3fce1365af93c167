//! The computational parts of the Chim standard library.
pub mod time;
pub mod collections;
pub mod math;
pub mod conv;
pub mod string;
pub mod error;
pub mod fmt;
pub mod net;
pub mod path;
pub mod fs;
pub mod generics;
pub mod module;
pub mod regex;
pub mod serde;
