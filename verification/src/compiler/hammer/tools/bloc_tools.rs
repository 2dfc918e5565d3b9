//! The tools of the blocks of the second compiler (`if`, `while`, `for`,
//! `return`) and of the small constructs (macro calls, escaped characters,
//! assignments): the labels and jumps of the assembly they emit.
use vstd::prelude::*;
use crate::text::{nat_digits, int_digits, new_string, push_str, push_nat, copy_str, str_eq};
use crate::compiler::hammer::definitions::{asm_size, rax_size, spec_asm_size, spec_rax_size};

verus! {

/// An `if` and its `else if` branches: the block's number and how many
/// conditions were closed.
pub struct IfTools {
    pub id_bloc: u128,
    pub nb_cond: u16,
}

impl IfTools {
    /// The `if` of the block numbered `id_bloc`.
    pub fn new(id_bloc: u128) -> (r: IfTools)
        ensures
            r.id_bloc == id_bloc,
            r.nb_cond == 0,
    {
        IfTools { id_bloc, nb_cond: 0 }
    }

    /// A keyword of the block: nothing to emit.
    pub fn new_keyword(&self, _kw: String) -> (r: String)
        ensures
            r@ == Seq::<char>::empty(),
    {
        new_string()
    }

    /// A condition: its value is tested and, when false, the next branch is
    /// jumped to.
    pub fn compare_exp(&self) -> (r: String)
        ensures
            r@ == "\npop rax\nand rax, rax\nje next_comp_if_"@ + nat_digits(self.id_bloc as nat) + "_"@ + nat_digits(
                self.nb_cond as nat,
            ),
    {
        let mut res = copy_str("\npop rax\nand rax, rax\nje next_comp_if_");
        push_nat(&mut res, self.id_bloc);
        push_str(&mut res, "_");
        push_nat(&mut res, self.nb_cond as u128);
        res
    }

    /// The end of a branch: a jump to the end of the `if`, and the label of
    /// the next branch, which is counted.
    pub fn end_bloc(&mut self) -> (r: String)
        requires
            old(self).nb_cond < u16::MAX,
        ensures
            r@ == "\njmp global_end_if_"@ + nat_digits(old(self).id_bloc as nat) + ":\nnext_comp_if_"@ + nat_digits(
                old(self).id_bloc as nat,
            ) + "_"@ + nat_digits(old(self).nb_cond as nat) + ":"@,
            final(self).id_bloc == old(self).id_bloc,
            final(self).nb_cond == old(self).nb_cond + 1,
    {
        let mut res = copy_str("\njmp global_end_if_");
        push_nat(&mut res, self.id_bloc);
        push_str(&mut res, ":\nnext_comp_if_");
        push_nat(&mut res, self.id_bloc);
        push_str(&mut res, "_");
        push_nat(&mut res, self.nb_cond as u128);
        push_str(&mut res, ":");
        self.nb_cond = self.nb_cond + 1;
        res
    }

    /// The end of the `if`: the label of the branch after the last, and the
    /// label of the end.
    pub fn build_asm(&self) -> (r: String)
        ensures
            r@ == "\nnext_comp_if_"@ + nat_digits(self.id_bloc as nat) + "_"@ + nat_digits(self.nb_cond as nat)
                + ":\nglobal_end_if_"@ + nat_digits(self.id_bloc as nat) + ":"@,
    {
        let mut res = copy_str("\nnext_comp_if_");
        push_nat(&mut res, self.id_bloc);
        push_str(&mut res, "_");
        push_nat(&mut res, self.nb_cond as u128);
        push_str(&mut res, ":\nglobal_end_if_");
        push_nat(&mut res, self.id_bloc);
        push_str(&mut res, ":");
        res
    }
}

/// A `while` block, by its number.
pub struct WhileTools {
    pub id_bloc: u128,
}

impl WhileTools {
    /// The `while` of the block numbered `id_bloc`.
    pub fn new(id_bloc: u128) -> (r: WhileTools)
        ensures
            r.id_bloc == id_bloc,
    {
        WhileTools { id_bloc }
    }

    /// The condition: when false, the end of the loop is jumped to.
    pub fn compare_exp(&self) -> (r: String)
        ensures
            r@ == "\npop rax\nand rax, rax\nje end_while_"@ + nat_digits(self.id_bloc as nat),
    {
        let mut res = copy_str("\npop rax\nand rax, rax\nje end_while_");
        push_nat(&mut res, self.id_bloc);
        res
    }

    /// The label of the end of the loop.
    pub fn build_asm(&self) -> (r: String)
        ensures
            r@ == "\nend_while_"@ + nat_digits(self.id_bloc as nat),
    {
        let mut res = copy_str("\nend_while_");
        push_nat(&mut res, self.id_bloc);
        res
    }
}

/// A `for` block, by its number; it emits nothing yet.
pub struct ForTools {
    pub id_bloc: u128,
}

impl ForTools {
    /// The `for` of the block numbered `id_bloc`.
    pub fn new(id_bloc: u128) -> (r: ForTools)
        ensures
            r.id_bloc == id_bloc,
    {
        ForTools { id_bloc }
    }

    /// The assembly of the loop: nothing.
    pub fn build_asm(&self) -> (r: String)
        ensures
            r@ == Seq::<char>::empty(),
    {
        new_string()
    }
}

/// A `do` loop. Its labels carry the number of the block the memory is in.
pub struct DoTools;

impl DoTools {
    /// A `do` loop.
    pub fn new() -> (r: DoTools) {
        DoTools
    }

    /// A keyword of a loop: a `for` emits nothing, a `while` or a `do` the
    /// label of the beginning of the loop.
    pub fn new_keyword(&self, kw: &str, bloc_id: u128) -> (r: String)
        requires
            kw@ == "for"@ || kw@ == "while"@ || kw@ == "do"@,
        ensures
            r@ == if kw@ == "for"@ {
                Seq::<char>::empty()
            } else {
                "\nbegin_loop_"@ + nat_digits(bloc_id as nat) + ":"@
            },
    {
        if str_eq(kw, "for") {
            new_string()
        } else {
            let mut res = copy_str("\nbegin_loop_");
            push_nat(&mut res, bloc_id);
            push_str(&mut res, ":");
            res
        }
    }

    /// The condition of the loop: when false, the end of the loop is jumped
    /// to.
    pub fn compare_exp(&self, bloc_id: u128) -> (r: String)
        ensures
            r@ == "\npop rax\nand rax, rax\nje end_loop_"@ + nat_digits(bloc_id as nat),
    {
        let mut res = copy_str("\npop rax\nand rax, rax\nje end_loop_");
        push_nat(&mut res, bloc_id);
        res
    }

    /// The end of the loop: a jump back to its beginning and the label of
    /// its end.
    pub fn end_loop(&self, bloc_id: u128) -> (r: String)
        ensures
            r@ == "\njmp begin_loop_"@ + nat_digits(bloc_id as nat) + "\nend_loop_"@ + nat_digits(bloc_id as nat)
                + ":"@,
    {
        let mut res = copy_str("\njmp begin_loop_");
        push_nat(&mut res, bloc_id);
        push_str(&mut res, "\nend_loop_");
        push_nat(&mut res, bloc_id);
        push_str(&mut res, ":");
        res
    }

    /// The end of the `do`: the number of the block whose `do` is raised,
    /// and no assembly.
    pub fn end(&self, bloc_id: u128) -> (r: (u128, String))
        ensures
            r.0 == bloc_id,
            r.1@ == Seq::<char>::empty(),
    {
        (bloc_id, new_string())
    }
}

/// An instruction made of a keyword block: it emits nothing of its own.
pub struct KeyWordTools;

impl KeyWordTools {
    /// A keyword instruction.
    pub fn new() -> (r: KeyWordTools) {
        KeyWordTools
    }

    /// The end of the instruction: no assembly.
    pub fn end(&self) -> (r: String)
        ensures
            r@ == Seq::<char>::empty(),
    {
        new_string()
    }
}

/// A `return`, with the stars of the value returned (`-1` before the
/// expression is read).
pub struct ReturnTools {
    pub stars: i32,
}

impl ReturnTools {
    /// A `return` before its expression.
    pub fn new() -> (r: ReturnTools)
        ensures
            r.stars == -1,
    {
        ReturnTools { stars: -1 }
    }

    /// The stars of the expression returned.
    pub fn set_exp(&mut self, stars: i32)
        ensures
            final(self).stars == stars,
    {
        self.stars = stars;
    }

    /// The assembly of the return.
    pub fn build_asm(&self) -> (r: String)
        ensures
            r@ == "\npop rax\nret"@,
    {
        copy_str("\npop rax\nret")
    }
}

/// The macros and the number of arguments each takes.
pub open spec fn macro_list() -> Seq<(Seq<char>, u8)> {
    seq![("dn"@, 1u8), ("exit"@, 1u8), ("print_char"@, 1u8)]
}

/// The arguments of a macro, from the last down to the first: each at its
/// place on the stack.
pub open spec fn macro_args(n: nat) -> Seq<char>
    decreases n,
{
    if n == 0 {
        seq![]
    } else {
        "[rsp + "@ + nat_digits(((n - 1) * 8) as nat) + "]"@ + macro_args((n - 1) as nat)
    }
}

/// A call of a macro: its name, the arguments read and the number it takes.
pub struct MacroCallTools {
    pub name: String,
    pub nb_param: u8,
    pub nb_param_attempt: u8,
}

impl MacroCallTools {
    /// A call before its name.
    pub fn new() -> (r: MacroCallTools)
        ensures
            r.name@ == Seq::<char>::empty(),
            r.nb_param == 0,
            r.nb_param_attempt == 0,
    {
        MacroCallTools { name: new_string(), nb_param: 0, nb_param_attempt: 0 }
    }

    /// The name of the macro: one of the macros, which fixes the number of
    /// arguments; another name is an error.
    pub fn def_name(&mut self, name: String) -> (r: Result<(), String>)
        ensures
            final(self).nb_param == old(self).nb_param,
            match r {
                Ok(()) => exists|i: int|
                    0 <= i < 3 && #[trigger] macro_list()[i].0 == name@ && final(self).name@ == name@
                        && final(self).nb_param_attempt == macro_list()[i].1,
                Err(e) => (forall|i: int| 0 <= i < 3 ==> #[trigger] macro_list()[i].0 != name@) && e@ == "Unknow macro: "@
                    + name@ && final(self).name@ == old(self).name@ && final(self).nb_param_attempt
                    == old(self).nb_param_attempt,
            },
    {
        let names: [&'static str; 3] = ["dn", "exit", "print_char"];
        let counts: [u8; 3] = [1, 1, 1];
        let mut i: usize = 0;
        while i < 3
            invariant
                i <= 3,
                names@ == seq!["dn", "exit", "print_char"],
                counts@ == seq![1u8, 1u8, 1u8],
                forall|j: int| 0 <= j < i ==> #[trigger] macro_list()[j].0 != name@,
                self.nb_param == old(self).nb_param,
                self.name@ == old(self).name@,
                self.nb_param_attempt == old(self).nb_param_attempt,
            decreases 3 - i,
        {
            assert(macro_list()[i as int].0 == names@[i as int]@);
            if str_eq(names[i], name.as_str()) {
                self.name = copy_str(names[i]);
                self.nb_param_attempt = counts[i];
                assert(macro_list()[i as int].1 == counts@[i as int]);
                return Ok(());
            }
            i += 1;
        }
        let mut e = copy_str("Unknow macro: ");
        push_str(&mut e, name.as_str());
        Err(e)
    }

    /// One more argument.
    pub fn new_expression(&mut self)
        requires
            old(self).nb_param < u8::MAX,
        ensures
            final(self).nb_param == old(self).nb_param + 1,
            final(self).name == old(self).name,
            final(self).nb_param_attempt == old(self).nb_param_attempt,
    {
        self.nb_param = self.nb_param + 1;
    }

    /// The call: the name, the arguments from the last down, then the
    /// stack freed.
    pub fn build_asm(&self) -> (r: String)
        requires
            self.nb_param * 8 <= u8::MAX,
        ensures
            r@ == "\n"@ + self.name@ + " "@ + macro_args(self.nb_param as nat) + "\nadd rsp, "@ + nat_digits(
                (self.nb_param * 8) as nat,
            ),
    {
        let mut res = copy_str("\n");
        push_str(&mut res, self.name.as_str());
        push_str(&mut res, " ");
        let ghost start = res@;
        let mut i: u8 = self.nb_param;
        while i > 0
            invariant
                i <= self.nb_param,
                res@ + macro_args(i as nat) == start + macro_args(self.nb_param as nat),
            decreases i,
        {
            let ghost before = res@;
            push_str(&mut res, "[rsp + ");
            push_nat(&mut res, ((i - 1) as u128) * 8);
            push_str(&mut res, "]");
            assert(macro_args(i as nat) == "[rsp + "@ + nat_digits(((i - 1) * 8) as nat) + "]"@ + macro_args(
                (i - 1) as nat,
            ));
            assert(res@ + macro_args((i - 1) as nat) =~= before + macro_args(i as nat));
            i -= 1;
        }
        assert(res@ + macro_args(0) =~= res@);
        push_str(&mut res, "\nadd rsp, ");
        push_nat(&mut res, (self.nb_param as u128) * 8);
        res
    }

    /// The end of the call: the arguments read must be those the macro
    /// takes; the assembly.
    pub fn end(&self) -> (r: Result<String, String>)
        requires
            self.nb_param * 8 <= u8::MAX,
        ensures
            self.nb_param != self.nb_param_attempt ==> (r matches Err(e) && e@ == nat_digits(self.nb_param as nat)
                + " args has been found for the macro "@ + self.name@ + " when "@ + nat_digits(
                self.nb_param_attempt as nat,
            ) + " was attempts"@),
            self.nb_param == self.nb_param_attempt ==> (r matches Ok(code) && code@ == "\n"@ + self.name@ + " "@
                + macro_args(self.nb_param as nat) + "\nadd rsp, "@ + nat_digits((self.nb_param * 8) as nat)),
    {
        if self.nb_param != self.nb_param_attempt {
            let mut e = new_string();
            push_nat(&mut e, self.nb_param as u128);
            push_str(&mut e, " args has been found for the macro ");
            push_str(&mut e, self.name.as_str());
            push_str(&mut e, " when ");
            push_nat(&mut e, self.nb_param_attempt as u128);
            push_str(&mut e, " was attempts");
            Err(e)
        } else {
            Ok(self.build_asm())
        }
    }
}

/// The code of an escaped character (`\0`, `\t`, `\n`, `\r`, `\"`, `\'`,
/// `\\`), if it is one.
pub open spec fn escape_code(c: char) -> Option<u8> {
    if c == '0' {
        Some(0)
    } else if c == 't' {
        Some(9)
    } else if c == 'n' {
        Some(10)
    } else if c == 'r' {
        Some(13)
    } else if c == '"' {
        Some(34)
    } else if c == '\'' {
        Some(39)
    } else if c == '\\' {
        Some(92)
    } else {
        None
    }
}

/// A character between quotes: whether a backslash came, and the symbol.
pub struct ComplexCharTools {
    pub bs: bool,
    pub symb: char,
}

impl ComplexCharTools {
    /// Before any symbol.
    pub fn new() -> (r: ComplexCharTools)
        ensures
            !r.bs,
            r.symb == '\0',
    {
        ComplexCharTools { bs: false, symb: '\0' }
    }

    /// A symbol: the first backslash marks an escape; anything else is the
    /// character.
    pub fn new_symbol(&mut self, symb: char)
        ensures
            symb == '\\' && !old(self).bs ==> final(self).bs && final(self).symb == old(self).symb,
            !(symb == '\\' && !old(self).bs) ==> final(self).bs == old(self).bs && final(self).symb == symb,
    {
        if symb == '\\' && !self.bs {
            self.bs = true
        } else {
            self.symb = symb
        }
    }

    /// The code of the character: an escape's code, or the low byte of the
    /// character; an unknown escape is an error.
    pub fn end(&self) -> (r: Result<u8, String>)
        ensures
            self.bs ==> match escape_code(self.symb) {
                Some(v) => r == Ok::<u8, String>(v),
                None => r matches Err(e) && e@ == "This char: \\"@ + seq![self.symb] + " doesn't exists."@,
            },
            !self.bs ==> r == Ok::<u8, String>(self.symb as u8),
    {
        if self.bs {
            let c = self.symb;
            if c == '0' {
                Ok(0)
            } else if c == 't' {
                Ok(9)
            } else if c == 'n' {
                Ok(10)
            } else if c == 'r' {
                Ok(13)
            } else if c == '"' {
                Ok(34)
            } else if c == '\'' {
                Ok(39)
            } else if c == '\\' {
                Ok(92)
            } else {
                let mut e = copy_str("This char: \\");
                crate::text::push_char(&mut e, c);
                push_str(&mut e, " doesn't exists.");
                Err(e)
            }
        } else {
            Ok(self.symb as u8)
        }
    }
}

/// The instruction of an assignment operator, if it is one.
pub open spec fn assign_op(code: Seq<char>) -> Option<Seq<char>> {
    if code == "="@ {
        Some("mov"@)
    } else if code == "+="@ {
        Some("add"@)
    } else if code == "-="@ {
        Some("sub"@)
    } else {
        None
    }
}

/// An instruction: the size of the variable assigned (none: `0`) and the
/// assignment operator.
pub struct InstructionTools {
    pub size_aff: u8,
    pub equal_code: String,
}

impl InstructionTools {
    /// An instruction that assigns nothing yet.
    pub fn new() -> (r: InstructionTools)
        ensures
            r.size_aff == 0,
            r.equal_code@ == Seq::<char>::empty(),
    {
        InstructionTools { size_aff: 0, equal_code: new_string() }
    }

    /// The size of the variable assigned.
    pub fn set_ident(&mut self, size: u8)
        ensures
            final(self).size_aff == size,
            final(self).equal_code == old(self).equal_code,
    {
        self.size_aff = size;
    }

    /// The assignment operator.
    pub fn set_equal_code(&mut self, equal_code: String)
        ensures
            final(self).equal_code == equal_code,
            final(self).size_aff == old(self).size_aff,
    {
        self.equal_code = equal_code;
    }

    /// The assignment: the value of the expression and the address of the
    /// variable are popped, and the value stored there with the operator's
    /// instruction; nothing where no variable is assigned.
    pub fn build_asm(&self) -> (r: String)
        requires
            self.size_aff != 0 ==> self.size_aff < 9 && assign_op(self.equal_code@) is Some,
        ensures
            self.size_aff == 0 ==> r@ == Seq::<char>::empty(),
            self.size_aff != 0 ==> r@ == "\npop rax     ; result of the expression\npop rbx     ; addr of the left ident\n\n"@
                + assign_op(self.equal_code@)->0 + " "@ + spec_asm_size(self.size_aff as int) + "[_stack + rbx], "@
                + spec_rax_size(self.size_aff as int),
    {
        if self.size_aff != 0 {
            let op = if str_eq(self.equal_code.as_str(), "=") {
                "mov"
            } else if str_eq(self.equal_code.as_str(), "+=") {
                "add"
            } else {
                "sub"
            };
            let mut res = copy_str("\npop rax     ; result of the expression\npop rbx     ; addr of the left ident\n\n");
            push_str(&mut res, op);
            push_str(&mut res, " ");
            push_str(&mut res, asm_size(self.size_aff as usize));
            push_str(&mut res, "[_stack + rbx], ");
            push_str(&mut res, rax_size(self.size_aff as usize));
            res
        } else {
            new_string()
        }
    }
}

/// A function being declared: its name.
pub struct FuncTools {
    pub name: String,
}

impl FuncTools {
    /// A function before its name.
    pub fn new() -> (r: FuncTools)
        ensures
            r.name@ == Seq::<char>::empty(),
    {
        FuncTools { name: new_string() }
    }

    /// The name of the function; its label.
    pub fn set_ident(&mut self, name: String) -> (r: String)
        ensures
            final(self).name@ == name@,
            r@ == name@ + ":"@,
    {
        self.name = name;
        let mut res = copy_str(self.name.as_str());
        push_str(&mut res, ":");
        res
    }
}

} // verus!
