//! The types, functions, variables and block jumps of the program manager.
use vstd::prelude::*;

verus! {

/// A block entered: the stack index to go back to and the addresses of the
/// variables declared in it.
pub struct Jump {
    pub stack_index: usize,
    pub addr_to_remove: Vec<usize>,
}

impl Jump {
    /// A block entered at `stack_index`, with no variable yet.
    pub fn new(stack_index: usize) -> (r: Jump)
        ensures
            r.stack_index == stack_index,
            r.addr_to_remove@ == Seq::<usize>::empty(),
    {
        Jump { stack_index, addr_to_remove: Vec::new() }
    }

    /// Records a variable declared in the block.
    pub fn add_addr(&mut self, addr: usize)
        ensures
            final(self).stack_index == old(self).stack_index,
            final(self).addr_to_remove@ == old(self).addr_to_remove@.push(addr),
    {
        self.addr_to_remove.push(addr);
    }
}

/// A type: its name, its size in bytes and its number of stars.
pub struct Type {
    name: String,
    size: u8,
    stars: u32,
}

impl View for Type {
    type V = (Seq<char>, u8, u32);

    closed spec fn view(&self) -> (Seq<char>, u8, u32) {
        (self.name@, self.size, self.stars)
    }
}

impl PartialEq for Type {
    fn eq(&self, other: &Type) -> (r: bool) {
        self.stars == other.stars && self.size == other.size && crate::text::str_eq(
            self.name.as_str(),
            other.name.as_str(),
        )
    }
}

impl vstd::std_specs::cmp::PartialEqSpecImpl for Type {
    open spec fn obeys_eq_spec() -> bool {
        true
    }

    open spec fn eq_spec(&self, other: &Type) -> bool {
        self@ == other@
    }
}

impl Type {
    /// A type.
    pub fn new(name: String, size: u8, stars: u32) -> (r: Type)
        ensures
            r@ == (name@, size, stars),
    {
        Type { name, size, stars }
    }

    /// Its name.
    pub fn name(&self) -> (r: &String)
        ensures
            r@ == self@.0,
    {
        &self.name
    }

    /// Its size in bytes.
    pub fn size(&self) -> (r: u8)
        ensures
            r == self@.1,
    {
        self.size
    }

    /// Its number of stars.
    pub fn stars(&self) -> (r: u32)
        ensures
            r == self@.2,
    {
        self.stars
    }

    /// A copy.
    pub fn clone(&self) -> (r: Type)
        ensures
            r@ == self@,
    {
        Type { name: crate::text::copy_str(self.name.as_str()), size: self.size, stars: self.stars }
    }
}

/// A function: its address, its name, the types of its arguments and its
/// return type.
pub struct Function {
    addr: usize,
    name: String,
    args: Vec<Type>,
    return_type: Type,
}

impl View for Function {
    type V = (usize, Seq<char>, Seq<(Seq<char>, u8, u32)>, (Seq<char>, u8, u32));

    closed spec fn view(&self) -> (usize, Seq<char>, Seq<(Seq<char>, u8, u32)>, (Seq<char>, u8, u32)) {
        (self.addr, self.name@, self.args@.map_values(|t: Type| t@), self.return_type@)
    }
}

impl Function {
    /// A function.
    pub fn new(addr: usize, name: String, args: Vec<Type>, return_type: Type) -> (r: Function)
        ensures
            r@ == (addr, name@, args@.map_values(|t: Type| t@), return_type@),
    {
        Function { addr, name, args, return_type }
    }

    /// Its address.
    pub fn addr(&self) -> (r: usize)
        ensures
            r == self@.0,
    {
        self.addr
    }

    /// Its name.
    pub fn name(&self) -> (r: &String)
        ensures
            r@ == self@.1,
    {
        &self.name
    }

    /// The types of its arguments.
    pub fn args(&self) -> (r: &Vec<Type>)
        ensures
            r@.map_values(|t: Type| t@) == self@.2,
    {
        &self.args
    }

    /// Its return type.
    pub fn return_type(&self) -> (r: &Type)
        ensures
            r@ == self@.3,
    {
        &self.return_type
    }

    /// Its number of arguments.
    pub fn nb_arg(&self) -> (r: usize)
        ensures
            r == self@.2.len(),
    {
        self.args().len()
    }
}

/// A variable: its name, its type and its address.
pub struct VariableDefinition {
    pub name: String,
    pub type_var: Type,
    pub addr: usize,
}

impl VariableDefinition {
    /// The size the variable takes: that of its type, or 4 for a pointer.
    pub fn get_size(&self) -> (r: u8)
        ensures
            r == if self.type_var@.2 == 0 { self.type_var@.1 } else { 4 },
    {
        if self.type_var.stars() == 0 {
            self.type_var.size()
        } else {
            4
        }
    }
}

} // verus!
