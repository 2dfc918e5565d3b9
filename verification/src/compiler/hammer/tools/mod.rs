//! The tools that turn the groups of tokens of a program into assembly.
pub mod exp_tools;
pub mod bloc_tools;
pub mod var_tools;
