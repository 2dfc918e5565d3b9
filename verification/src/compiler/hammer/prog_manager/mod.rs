//! The program manager: the types it knows, the jumps of its blocks.
pub mod definitions;
pub mod type_manager;
pub mod prog_datas;
