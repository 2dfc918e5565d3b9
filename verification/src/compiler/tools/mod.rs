//! Helpers of the compiler.
pub mod tools;
