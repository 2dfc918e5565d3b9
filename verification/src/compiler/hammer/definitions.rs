//! The types, functions and variables as the compiler's memory keeps them.
use vstd::prelude::*;

verus! {

/// A type: its name, its size in bytes and its number of stars (pointers).
pub struct Type {
    pub name: String,
    pub size: u8,
    pub stars: i32,
}

/// A function: its arguments, its return type and its name.
pub struct Function {
    pub args: Vec<VariableDefinition>,
    pub return_type: Type,
    pub name: String,
}

/// A variable: its name, its type and its address on the stack.
pub struct VariableDefinition {
    pub name: String,
    pub type_var: Type,
    pub addr: usize,
}

impl VariableDefinition {
    /// The size the variable takes: that of its type, or 4 for a pointer.
    pub fn get_size(&self) -> (r: u8)
        ensures
            r == if self.type_var.stars == 0 { self.type_var.size } else { 4 },
    {
        if self.type_var.stars == 0 {
            self.type_var.size
        } else {
            4
        }
    }
}

/// The assembly name of each size (in bytes, up to 8).
pub open spec fn spec_asm_size(size: int) -> Seq<char> {
    if size == 1 {
        "byte"@
    } else if size == 2 {
        "word"@
    } else if size == 4 {
        "dword"@
    } else if size == 8 {
        "qword"@
    } else {
        ""@
    }
}

/// The part of `rax` of each size (in bytes, up to 8).
pub open spec fn spec_rax_size(size: int) -> Seq<char> {
    if size == 1 {
        "al"@
    } else if size == 2 {
        "ax"@
    } else if size == 4 {
        "eax"@
    } else if size == 8 {
        "rax"@
    } else {
        ""@
    }
}

/// The assembly name of a size (`ASM_SIZES`).
pub fn asm_size(size: usize) -> (r: &'static str)
    requires
        size < 9,
    ensures
        r@ == spec_asm_size(size as int),
{
    if size == 1 {
        "byte"
    } else if size == 2 {
        "word"
    } else if size == 4 {
        "dword"
    } else if size == 8 {
        "qword"
    } else {
        ""
    }
}

/// The part of `rax` of a size (`RAX_SIZE`).
pub fn rax_size(size: usize) -> (r: &'static str)
    requires
        size < 9,
    ensures
        r@ == spec_rax_size(size as int),
{
    if size == 1 {
        "al"
    } else if size == 2 {
        "ax"
    } else if size == 4 {
        "eax"
    } else if size == 8 {
        "rax"
    } else {
        ""
    }
}

} // verus!
