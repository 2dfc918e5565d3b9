//! The data of the first compiler: types, variables, functions, tokens, and
//! its first register follower.
use vstd::prelude::*;
use crate::stack::Stack;
use crate::text::{views, spec_split, split_str, str_eq, copy_str, parse_i64, spec_parse_i64, chars_of, string_of, spec_trim, trim_str};

verus! {

/// A type: its name, its id, its size in bytes and its number of stars.
pub struct Type {
    pub name: String,
    pub id: i32,
    pub size: u32,
    pub stars: u32,
}

impl View for Type {
    type V = (Seq<char>, i32, u32, u32);

    open spec fn view(&self) -> (Seq<char>, i32, u32, u32) {
        (self.name@, self.id, self.size, self.stars)
    }
}

impl Type {
    /// A copy.
    pub fn clone(&self) -> (r: Type)
        ensures
            r@ == self@,
    {
        Type { name: copy_str(self.name.as_str()), id: self.id, size: self.size, stars: self.stars }
    }
}

/// A variable: its name and its type.
pub struct VariableDefinition {
    pub name: String,
    pub type_var: Type,
}

impl View for VariableDefinition {
    type V = (Seq<char>, (Seq<char>, i32, u32, u32));

    open spec fn view(&self) -> (Seq<char>, (Seq<char>, i32, u32, u32)) {
        (self.name@, self.type_var@)
    }
}

impl VariableDefinition {
    /// A copy.
    pub fn clone(&self) -> (r: VariableDefinition)
        ensures
            r@ == self@,
    {
        VariableDefinition { name: copy_str(self.name.as_str()), type_var: self.type_var.clone() }
    }
}

/// A function: its arguments and its return type.
pub struct Function {
    pub args: Vec<VariableDefinition>,
    pub return_type: Type,
}

impl View for Function {
    type V = (Seq<(Seq<char>, (Seq<char>, i32, u32, u32))>, (Seq<char>, i32, u32, u32));

    open spec fn view(&self) -> (Seq<(Seq<char>, (Seq<char>, i32, u32, u32))>, (Seq<char>, i32, u32, u32)) {
        (self.args@.map_values(|a: VariableDefinition| a@), self.return_type@)
    }
}

impl Function {
    /// A copy.
    pub fn clone(&self) -> (r: Function)
        ensures
            r@ == self@,
    {
        let mut args_cloned: Vec<VariableDefinition> = Vec::new();
        let mut i: usize = 0;
        while i < self.args.len()
            invariant
                0 <= i <= self.args@.len(),
                args_cloned@.map_values(|a: VariableDefinition| a@) == self.args@.map_values(
                    |a: VariableDefinition| a@,
                ).subrange(0, i as int),
            decreases self.args.len() - i,
        {
            let ghost before = args_cloned@.map_values(|a: VariableDefinition| a@);
            args_cloned.push(self.args[i].clone());
            assert(args_cloned@.map_values(|a: VariableDefinition| a@) =~= before.push(self.args@[i as int]@));
            assert(self.args@.map_values(|a: VariableDefinition| a@).subrange(0, i + 1) =~= self.args@.map_values(
                |a: VariableDefinition| a@,
            ).subrange(0, i as int).push(self.args@[i as int]@));
            i = i + 1;
        }
        assert(self.args@.map_values(|a: VariableDefinition| a@).subrange(0, self.args@.len() as int) =~= self.args@.map_values(
            |a: VariableDefinition| a@,
        ));
        Function { args: args_cloned, return_type: self.return_type.clone() }
    }
}

/// How an assembly size is written.
pub struct AsmType {
    pub long: &'static str,
    pub short: &'static str,
    pub register: &'static str,
    pub mov: &'static str,
}

/// A call of a macro: its name and its arguments, each a list of tokens.
pub struct MacroCall {
    pub macro_name: String,
    pub args: Vec<Vec<Token>>,
}

/// What a token stands for.
pub enum Interp {
    Function,
    Variable,
    Value,
    Operator,
}

/// A token of an expression.
pub struct Token {
    pub val: i32,
    pub nb_stars: i32,
    pub squares: Option<Vec<Vec<Token>>>,
    pub func_dec: Option<String>,
    pub interp: Interp,
}

impl Token {
    /// A value.
    pub fn new_val(val: i32) -> (r: Token)
        ensures
            r.val == val,
            r.squares is None,
            r.func_dec is None,
            r.nb_stars == 0,
            r.interp is Value,
    {
        Token { val, squares: None, func_dec: None, nb_stars: 0, interp: Interp::Value }
    }

    /// An operator, given by its code.
    pub fn new_op(op: i32) -> (r: Token)
        ensures
            r.val == op,
            r.squares is None,
            r.func_dec is None,
            r.nb_stars == 0,
            r.interp is Operator,
    {
        Token { val: op, squares: None, func_dec: None, nb_stars: 0, interp: Interp::Operator }
    }

    /// A call of the function `func`.
    pub fn new_func(func: String) -> (r: Token)
        ensures
            r.val == 0,
            r.squares is None,
            r.func_dec matches Some(f) && f@ == func@,
            r.nb_stars == 0,
            r.interp is Function,
    {
        Token { val: 0, squares: None, func_dec: Some(func), nb_stars: 0, interp: Interp::Function }
    }
}

/// A constant put in a register, with the lines that made it.
pub struct Insertion {
    pub value: i64,
    pub lines: Vec<i32>,
    pub register: String,
}

/// The names that this follower knows: those of `rax` and of `rbx`, which it
/// all takes for `rax`.
pub open spec fn known_register(name: Seq<char>) -> bool {
    name == "rax"@ || name == "eax"@ || name == "ax"@ || name == "rbx"@ || name == "ebx"@ || name == "bx"@
}

/// The constant known in `rax`, the one register that the names lead to.
pub struct Registers {
    vals: Vec<Option<i64>>,
}

impl View for Registers {
    type V = Option<i64>;

    /// What is known of `rax`.
    closed spec fn view(&self) -> Option<i64> {
        self.vals@[0]
    }
}

impl Registers {
    /// The slots of `rax` and `rbx` exist.
    pub closed spec fn wf(&self) -> bool {
        self.vals@.len() == 2
    }

    /// Nothing is known.
    pub fn new() -> (r: Registers)
        ensures
            r.wf(),
            r@ is None,
    {
        let mut vals: Vec<Option<i64>> = Vec::new();
        vals.push(None);
        vals.push(None);
        Registers { vals }
    }

    /// Whether the name is known.
    pub fn is_followed(&self, register: &str) -> (r: bool)
        ensures
            r == known_register(register@),
    {
        str_eq(register, "rax") || str_eq(register, "eax") || str_eq(register, "ax") || str_eq(register, "rbx")
            || str_eq(register, "ebx") || str_eq(register, "bx")
    }

    /// What is known of the register; the name must be known.
    pub fn get_val(&self, register: &str) -> (r: Option<i64>)
        requires
            self.wf(),
            known_register(register@),
        ensures
            r == self@,
    {
        self.vals[0]
    }

    /// The register holds `val`; the name must be known.
    pub fn set_val(&mut self, register: &str, val: i64)
        requires
            old(self).wf(),
            known_register(register@),
        ensures
            final(self).wf(),
            final(self)@ == Some(val),
    {
        self.vals.set(0, Some(val));
    }

    /// Adds `val` to a known value (`Some`), or does nothing (`None`); the
    /// name must be known.
    pub fn add_val(&mut self, register: &str, val: i64) -> (r: Option<()>)
        requires
            old(self).wf(),
            known_register(register@),
            old(self)@ matches Some(p) ==> i64::MIN <= val + p <= i64::MAX,
        ensures
            final(self).wf(),
            r is Some == old(self)@ is Some,
            final(self)@ == match old(self)@ {
                Some(p) => Some((val + p) as i64),
                None => None,
            },
    {
        match self.vals[0] {
            Some(p) => {
                self.set_val(register, val + p);
                Some(())
            },
            None => None,
        }
    }

    /// The number written, or what is known of a register name.
    pub fn extract_val(&self, elt: &str) -> (r: Option<i64>)
        requires
            self.wf(),
        ensures
            r == match spec_parse_i64(elt@) {
                Some(v) => Some(v),
                None => if known_register(elt@) { self@ } else { None },
            },
    {
        match parse_i64(elt) {
            Some(v) => Some(v),
            None => {
                if self.is_followed(elt) {
                    return self.get_val(elt);
                }
                None
            },
        }
    }
}

/// The follower of the first compiler: the registers, the constants put on
/// the stack and the lines to drop.
pub struct Tracker {
    pub registers: Registers,
    pub stack: Stack<Insertion>,
    pub line_to_delete: Vec<i32>,
}

/// The removals of lines, last listed first, all fall inside the text as it
/// shrinks.
pub open spec fn removals_fit(n: int, lines: Seq<i32>) -> bool
    decreases lines.len(),
{
    if lines.len() == 0 {
        true
    } else {
        0 <= lines.last() < n && removals_fit(n - 1, lines.drop_last())
    }
}

impl Tracker {
    /// Nothing followed, nothing to drop.
    pub fn new() -> (r: Tracker)
        ensures
            r.registers.wf(),
            r.registers@ is None,
            r.stack@.len() == 0,
            r.line_to_delete@.len() == 0,
    {
        Tracker { registers: Registers::new(), stack: Stack::new(), line_to_delete: Vec::new() }
    }

    /// Drops the lines to delete from a copy of the text cut at its line
    /// feeds, the last listed first, and forgets them; the text itself is
    /// left as it is.
    pub fn clean_line(&mut self, txt: &mut String)
        requires
            removals_fit(spec_split(old(txt)@, "\n"@).len() as int, old(self).line_to_delete@),
        ensures
            final(txt)@ == old(txt)@,
            final(self).line_to_delete@.len() == 0,
            final(self).registers == old(self).registers,
            final(self).stack == old(self).stack,
    {
        proof {
            reveal_strlit("\n");
        }
        let mut split_txt = split_str(txt.as_str(), "\n");
        let mut k: usize = self.line_to_delete.len();
        assert(views(split_txt@).len() == split_txt@.len());
        assert(self.line_to_delete@.subrange(0, k as int) =~= self.line_to_delete@);
        while k > 0
            invariant
                k <= self.line_to_delete@.len(),
                self.line_to_delete@ == old(self).line_to_delete@,
                removals_fit(split_txt@.len() as int, self.line_to_delete@.subrange(0, k as int)),
            decreases k,
        {
            let ln = self.line_to_delete[k - 1];
            let ghost sub = self.line_to_delete@.subrange(0, k as int);
            assert(sub.last() == ln);
            assert(sub.drop_last() =~= self.line_to_delete@.subrange(0, k - 1));
            split_txt.remove(ln as usize);
            k = k - 1;
        }
        self.line_to_delete = Vec::new();
    }
}

/// Where the first `=` of an instruction stands, if it has one.
pub open spec fn first_equal(s: Seq<char>, i: int) -> Option<int>
    decreases s.len() - i,
{
    if i < 0 || i >= s.len() {
        None
    } else if s[i] == '=' {
        Some(i)
    } else {
        first_equal(s, i + 1)
    }
}

/// The operators that may come before `=` in an assignment.
pub open spec fn compound_op(c: char) -> bool {
    c == '*' || c == '+' || c == '-' || c == '/' || c == '%'
}

/// The characters before the first `=` are ASCII (the instruction is cut by
/// bytes there).
pub open spec fn ascii_before_equal(s: Seq<char>) -> bool {
    match first_equal(s, 0) {
        Some(k) => forall|j: int| 0 <= j < k ==> (#[trigger] s[j] as u32) < 128,
        None => true,
    }
}

/// An instruction made ready to cut at its spaces: the first `=` gets a
/// space on each side, and `a op= b` becomes `a = a op b` (written
/// `a = a  op b`); the result is trimmed.
pub open spec fn spec_setup_inst(s: Seq<char>) -> Seq<char> {
    match first_equal(s, 0) {
        None => spec_trim(s),
        Some(k) => {
            let prev = if k == 0 {
                ' '
            } else {
                s[k - 1]
            };
            if compound_op(prev) {
                spec_trim(s.take(k - 1) + " ="@ + " "@ + s.take(k - 1) + " "@ + " "@ + seq![prev] + s.skip(k + 1))
            } else {
                spec_trim(s.take(k) + " ="@ + " "@ + s.skip(k + 1))
            }
        },
    }
}

/// Makes an instruction ready to cut at its spaces.
pub fn setup_inst(inst: &mut String)
    requires
        ascii_before_equal(old(inst)@),
    ensures
        final(inst)@ == spec_setup_inst(old(inst)@),
{
    proof {
        reveal_strlit(" =");
        reveal_strlit(" ");
    }
    let cs = chars_of(inst.as_str());
    let ghost s = cs@;
    let mut prev = ' ';
    let mut i: usize = 0;
    while i < cs.len()
        invariant
            i <= cs@.len(),
            s == cs@,
            s == old(inst)@,
            s == inst@,
            ascii_before_equal(s),
            first_equal(s, 0) == first_equal(s, i as int),
            prev == if i == 0 {
                ' '
            } else {
                s[i - 1]
            },
        decreases cs@.len() - i,
    {
        if cs[i] == '=' {
            let mut out: Vec<char> = Vec::new();
            let op = prev == '*' || prev == '+' || prev == '-' || prev == '/' || prev == '%';
            let cut = if op {
                i - 1
            } else {
                i
            };
            let mut j: usize = 0;
            while j < cut
                invariant
                    j <= cut,
                    cut <= i,
                    i < cs@.len(),
                    out@ == s.take(j as int),
                    s == cs@,
                decreases cut - j,
            {
                out.push(cs[j]);
                assert(out@ =~= s.take(j + 1));
                j += 1;
            }
            out.push(' ');
            out.push('=');
            out.push(' ');
            let ghost g1 = out@;
            proof {
                reveal_strlit(" =");
                reveal_strlit(" ");
            }
            assert(g1 =~= s.take(cut as int) + " ="@ + " "@);
            if op {
                let mut j: usize = 0;
                let ghost base = out@;
                while j < cut
                    invariant
                        j <= cut,
                        cut < cs@.len(),
                        out@ == base + s.take(j as int),
                        s == cs@,
                    decreases cut - j,
                {
                    out.push(cs[j]);
                    assert(out@ =~= base + s.take(j + 1));
                    j += 1;
                }
                out.push(' ');
                out.push(' ');
                out.push(prev);
                assert(out@ =~= g1 + s.take(cut as int) + " "@ + " "@ + seq![prev]);
            }
            let ghost g2 = out@;
            let mut j: usize = i + 1;
            let ghost base = out@;
            while j < cs.len()
                invariant
                    i + 1 <= j <= cs@.len(),
                    out@ == base + s.subrange(i + 1, j as int),
                    s == cs@,
                decreases cs@.len() - j,
            {
                out.push(cs[j]);
                assert(out@ =~= base + s.subrange(i + 1, j + 1));
                j += 1;
            }
            let joined = string_of(&out);
            *inst = trim_str(joined.as_str());
            proof {
                assert(s.subrange(i + 1, s.len() as int) =~= s.skip(i + 1));
                assert(out@ == g2 + s.skip(i + 1));
                assert(first_equal(s, i as int) == Some(i as int));
                if op {
                    assert(out@ =~= s.take(i - 1) + " ="@ + " "@ + s.take(i - 1) + " "@ + " "@ + seq![prev] + s.skip(i + 1));
                } else {
                    assert(out@ =~= s.take(i as int) + " ="@ + " "@ + s.skip(i + 1));
                }
            }
            return;
        }
        prev = cs[i];
        i += 1;
    }
    assert(first_equal(s, i as int) is None);
    *inst = trim_str(inst.as_str());
}

/// Whether a part of an expression stands in a string: never, strings are
/// not read yet.
pub fn is_in_a_string(_exp: &String, _part: String) -> (r: bool)
    ensures
        !r,
{
    false
}

} // verus!
