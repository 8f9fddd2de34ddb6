//! Reversible byte obfuscation with a repeating XOR keystream, together with
//! the decisions that drive it over a single file or a directory tree.

pub mod args;
pub mod digest;
pub mod engine;
pub mod job;
pub mod schedule;
pub mod walk;
