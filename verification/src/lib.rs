//! A verified core for the Zilang toolchain: the expression and type helpers of
//! the Iris database shell, and the pieces of the Zilang compilers (operator
//! tables, postfix conversion, the assembly tracker).
use vstd::prelude::*;

pub mod text;
pub mod stack;
pub mod tracker;
pub mod hammer;
pub mod expression;
pub mod tools;
pub mod compiler;
pub mod compile;
pub mod iris;

verus! {
} // verus!
