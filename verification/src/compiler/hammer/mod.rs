//! The second compiler: its data, its memory of names and scopes, and the
//! tracker that folds the constants of the assembly it emits.
pub mod registers;
pub mod tracker;
pub mod structs;
pub mod definitions;
pub mod prog_manager;
pub mod tokenizer;
pub mod tools;
pub mod memory;
