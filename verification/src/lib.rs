//! A small toolbelt: list comprehensions expanded from Rust tokens, and the
//! decisions behind background workers and a thread pool.

pub mod comp;
pub mod error;
pub mod sync;

pub use crate::error::Error;
pub use crate::error::Result;
