//! The second Vulcain compiler: a tokenizer driving one tool per grammar
//! group, and an optimiser that follows the values of registers.
pub mod hammer;
pub mod tools;
