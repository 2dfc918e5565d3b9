//! The data of the second compiler: types, variables, functions, macro calls
//! and the tokens of an expression.
use vstd::prelude::*;
use crate::text::copy_str;

verus! {

/// A type: its name, its size in bytes and its number of stars (pointers).
pub struct Type {
    pub name: String,
    pub size: u32,
    pub stars: u32,
}

impl View for Type {
    type V = (Seq<char>, u32, u32);

    open spec fn view(&self) -> (Seq<char>, u32, u32) {
        (self.name@, self.size, self.stars)
    }
}

impl Type {
    /// A copy.
    pub fn clone(&self) -> (r: Type)
        ensures
            r@ == self@,
    {
        Type { name: copy_str(self.name.as_str()), size: self.size, stars: self.stars }
    }
}

/// A variable: its name and its type.
pub struct VariableDefinition {
    pub name: String,
    pub type_var: Type,
}

impl View for VariableDefinition {
    type V = (Seq<char>, (Seq<char>, u32, u32));

    open spec fn view(&self) -> (Seq<char>, (Seq<char>, u32, u32)) {
        (self.name@, self.type_var@)
    }
}

impl VariableDefinition {
    /// A copy.
    pub fn clone(&self) -> (r: VariableDefinition)
        ensures
            r@ == self@,
    {
        VariableDefinition { name: copy_str(self.name.as_str()), type_var: self.type_var.clone() }
    }
}

/// A function: its arguments and its return type.
pub struct Function {
    pub args: Vec<VariableDefinition>,
    pub return_type: Type,
}

impl View for Function {
    type V = (Seq<(Seq<char>, (Seq<char>, u32, u32))>, (Seq<char>, u32, u32));

    open spec fn view(&self) -> (Seq<(Seq<char>, (Seq<char>, u32, u32))>, (Seq<char>, u32, u32)) {
        (self.args@.map_values(|a: VariableDefinition| a@), self.return_type@)
    }
}

impl Function {
    /// A copy.
    pub fn clone(&self) -> (r: Function)
        ensures
            r@ == self@,
    {
        let mut args_cloned: Vec<VariableDefinition> = Vec::new();
        let mut i: usize = 0;
        while i < self.args.len()
            invariant
                0 <= i <= self.args@.len(),
                args_cloned@.map_values(|a: VariableDefinition| a@) == self.args@.map_values(
                    |a: VariableDefinition| a@,
                ).subrange(0, i as int),
            decreases self.args.len() - i,
        {
            let ghost before = args_cloned@.map_values(|a: VariableDefinition| a@);
            args_cloned.push(self.args[i].clone());
            assert(args_cloned@.map_values(|a: VariableDefinition| a@) =~= before.push(self.args@[i as int]@));
            assert(self.args@.map_values(|a: VariableDefinition| a@).subrange(0, i + 1) =~= self.args@.map_values(
                |a: VariableDefinition| a@,
            ).subrange(0, i as int).push(self.args@[i as int]@));
            i = i + 1;
        }
        assert(self.args@.map_values(|a: VariableDefinition| a@).subrange(0, self.args@.len() as int) =~= self.args@.map_values(
            |a: VariableDefinition| a@,
        ));
        Function { args: args_cloned, return_type: self.return_type.clone() }
    }
}

/// How an assembly size is written: its long and short names, the part of
/// `rax` of that size and the move that widens it.
pub struct AsmType {
    pub long: &'static str,
    pub short: &'static str,
    pub register: &'static str,
    pub mov: &'static str,
}

/// A call of a macro: its name and its arguments, each a list of tokens.
pub struct MacroCall {
    pub macro_name: String,
    pub args: Vec<Vec<Token>>,
}

/// What a token stands for.
pub enum Interp {
    Function,
    Variable,
    Value,
    Operator,
}

/// A token of an expression.
pub struct Token {
    pub val: i32,
    pub nb_stars: i32,
    pub squares: Option<Vec<Vec<Token>>>,
    pub func_dec: Option<String>,
    pub interp: Interp,
}

impl Token {
    /// A value.
    pub fn new_val(val: i32) -> (r: Token)
        ensures
            r.val == val,
            r.squares is None,
            r.func_dec is None,
            r.nb_stars == 0,
            r.interp is Value,
    {
        Token { val, squares: None, func_dec: None, nb_stars: 0, interp: Interp::Value }
    }

    /// An operator, given by its code.
    pub fn new_op(op: i32) -> (r: Token)
        ensures
            r.val == op,
            r.squares is None,
            r.func_dec is None,
            r.nb_stars == 0,
            r.interp is Operator,
    {
        Token { val: op, squares: None, func_dec: None, nb_stars: 0, interp: Interp::Operator }
    }

    /// A call of the function `func`.
    pub fn new_func(func: String) -> (r: Token)
        ensures
            r.val == 0,
            r.squares is None,
            r.func_dec matches Some(f) && f@ == func@,
            r.nb_stars == 0,
            r.interp is Function,
    {
        Token { val: 0, squares: None, func_dec: Some(func), nb_stars: 0, interp: Interp::Function }
    }
}

} // verus!
