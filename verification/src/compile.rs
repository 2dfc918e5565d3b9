//! The first compiler's driver: it reads a program instruction by
//! instruction (instructions end at `;`, blocks open at `{` and close at
//! `}`), keeps the blocks, loops and conditions open, and writes the
//! assembly of each instruction. An `import` of another file is answered by
//! the caller, who reads files; the imported program is compiled in place.
//!
//! Each step answers `None` where the program cannot be compiled at all (a
//! block closed that was never opened, a size with no assembly form, a
//! number past its integer type, calls nested deeper than a `u32` counts, a
//! program longer than a `u64` counts of steps): there the compiler has no
//! answer to give.
use vstd::prelude::*;
use crate::text::{
    copy_str, new_string, push_str, push_nat, push_int, str_eq, trim_str, chars_of, string_of, starts_with,
    ends_with, contains_str, count_char, replace_str, join_str, parse_u32, parse_i32,
    drop_last_char, occurs, spec_replace, lemma_replace_shorter, byte_len_upto, byte_len, char_width,
};
use crate::tools::split;
use crate::compiler::tools::tools::{from_char_to_number, spec_is_operator, spec_ascii_val, spec_operators};
use crate::expression::{Hammer, tokenize_expression, get_prof_pointer, no_txt_after_keyword};
use crate::hammer::{Type, VariableDefinition, Function, Token, Interp, setup_inst, first_equal, ascii_before_equal};

verus! {

/// The stars a value must carry when any will do.
pub const ANY_STARS: u32 = 10001;

/// The size of a pointer.
pub const POINTER_SIZE: u32 = 4;

/// What leaving a block does: end the program, write the block's closing
/// text, or close the function of that name.
pub enum JumpAction {
    EndProg,
    EndOfBloc(String),
    EndOfFunc(String),
}

/// An open block: the first free address when it opened, what leaving it
/// does, and its number.
pub struct Jump {
    pub stack_index: u32,
    pub action: JumpAction,
    pub bloc_index: u32,
}

/// A program being compiled: its instructions, the one being read, the
/// texts being written (the innermost function's last), and the numbers of
/// the loops and conditions open.
pub struct Program {
    pub inst_vec: Vec<String>,
    pub inst_index: usize,
    pub txt_stack: Vec<String>,
    pub loop_index_stack: Vec<u32>,
    pub cond_index_stack: Vec<u32>,
}

/// The compiler: the tables, the programs (imported ones on top), the
/// names, lines and return types of the programs under the top one, the
/// open blocks, the next block number, the files compiled, the assembly
/// written to the script and functions files.
pub struct Compiler {
    pub hammer: Hammer,
    pub progs: Vec<Program>,
    pub saved: Vec<(String, usize, Option<Type>)>,
    pub jumps: Vec<Jump>,
    pub blocs_index: u32,
    pub file_compiled: Vec<String>,
    pub script: String,
    pub functions: String,
}

/// The assembly forms of a size in bytes: the long name, the short name,
/// the register and the move that widens it.
pub open spec fn spec_size_info(s: u32) -> Option<(Seq<char>, Seq<char>, Seq<char>, Seq<char>)> {
    if s == 1 {
        Some(("byte"@, "db"@, "al"@, "movzx"@))
    } else if s == 2 {
        Some(("word"@, "dw"@, "ax"@, "movsx"@))
    } else if s == 4 {
        Some(("dword"@, "dd"@, "eax"@, "movsx"@))
    } else if s == 8 {
        Some(("qword"@, "dq"@, "rax"@, "mov"@))
    } else {
        None
    }
}

/// The assembly forms of a size in bytes.
pub fn size_info(s: u32) -> (r: Option<(&'static str, &'static str, &'static str, &'static str)>)
    ensures
        match spec_size_info(s) {
            Some((a, b, c, d)) => r matches Some((x, y, z, w)) && x@ == a && y@ == b && z@ == c && w@ == d,
            None => r is None,
        },
{
    if s == 1 {
        Some(("byte", "db", "al", "movzx"))
    } else if s == 2 {
        Some(("word", "dw", "ax", "movsx"))
    } else if s == 4 {
        Some(("dword", "dd", "eax", "movsx"))
    } else if s == 8 {
        Some(("qword", "dq", "rax", "mov"))
    } else {
        None
    }
}

/// The number of arguments of a macro of the language (`dn` and `exit`
/// take one), if it is one.
pub open spec fn spec_macro_args(name: Seq<char>) -> Option<u32> {
    if name == "dn"@ || name == "exit"@ {
        Some(1)
    } else {
        None
    }
}

/// The number of arguments of a macro, if it is one.
pub fn macro_args(name: &str) -> (r: Option<u32>)
    ensures
        r == spec_macro_args(name@),
{
    if str_eq(name, "dn") || str_eq(name, "exit") {
        Some(1)
    } else {
        None
    }
}

/// The keywords of the language.
pub open spec fn spec_is_keyword(name: Seq<char>) -> bool {
    name == "break"@ || name == "continue"@ || name == "if"@ || name == "else"@ || name == "loop"@
        || name == "while"@ || name == "func"@ || name == "return"@ || name == "for"@ || name == "import"@
}

/// Whether a word is a keyword of the language.
pub fn keyword_exists(name: &str) -> (r: bool)
    ensures
        r == spec_is_keyword(name@),
{
    str_eq(name, "break") || str_eq(name, "continue") || str_eq(name, "if") || str_eq(name, "else")
        || str_eq(name, "loop") || str_eq(name, "while") || str_eq(name, "func") || str_eq(name, "return")
        || str_eq(name, "for") || str_eq(name, "import")
}

/// `a` then `b`.
fn cat(a: &str, b: &str) -> (r: String)
    ensures
        r@ == a@ + b@,
{
    let mut r = copy_str(a);
    push_str(&mut r, b);
    r
}

/// `a`, the number `n`, then `b`.
fn cat_num(a: &str, n: u128, b: &str) -> (r: String)
    ensures
        r@ == a@ + crate::text::nat_digits(n as nat) + b@,
{
    let mut r = copy_str(a);
    push_nat(&mut r, n);
    push_str(&mut r, b);
    r
}

/// `s` without its first `k` characters.
fn skip_chars(s: &str, k: usize) -> (r: String)
    ensures
        k <= s@.len() ==> r@ == s@.skip(k as int),
{
    let cs = chars_of(s);
    let mut out: Vec<char> = Vec::new();
    let mut i: usize = k;
    while i < cs.len()
        invariant
            cs@ == s@,
            k <= s@.len() ==> k <= i <= cs@.len() && out@ == cs@.subrange(k as int, i as int),
        decreases cs.len() - i,
    {
        out.push(cs[i]);
        proof {
            if k <= s@.len() {
                assert(out@ =~= cs@.subrange(k as int, i + 1));
            }
        }
        i = i + 1;
    }
    proof {
        if k <= s@.len() {
            assert(cs@.subrange(k as int, cs@.len() as int) =~= s@.skip(k as int));
        }
    }
    string_of(&out)
}

/// Whether the characters before the first `=` are ASCII.
fn ascii_before_eq(s: &str) -> (r: bool)
    ensures
        r == ascii_before_equal(s@),
{
    let cs = chars_of(s);
    let mut ok = true;
    let mut i: usize = 0;
    while i < cs.len()
        invariant
            cs@ == s@,
            0 <= i <= cs@.len(),
            first_equal(s@, 0) == first_equal(s@, i as int),
            ok == (forall|j: int| 0 <= j < i ==> (#[trigger] s@[j] as u32) < 128),
        decreases cs.len() - i,
    {
        if cs[i] == '=' {
            return ok;
        }
        ok = ok && (cs[i] as u32) < 128;
        i = i + 1;
    }
    true
}

/// Whether reading a character literal would cut inside a character.
fn literal_cuts(s: &str) -> (r: bool)
    ensures
        r == crate::compiler::tools::tools::char_literal_cuts(s@),
{
    let b = byte_len_upto(s, 4);
    if b <= 2 {
        return false;
    }
    let cs = chars_of(s);
    if cs.len() < 2 {
        proof {
            if cs@.len() == 1 {
                assert(s@.drop_last().len() == 0);
                assert(byte_len(s@.drop_last()) == 0);
                assert(byte_len(s@) == byte_len(s@.drop_last()) + char_width(s@.last()));
            }
        }
        return false;
    }
    cs[0] == '\'' && cs[cs.len() - 1] == '\'' && b != 4 && (cs[1] as u32) >= 0x80
}

/// Every operator of the language has a code.
proof fn lemma_operator_has_code(x: Seq<char>)
    requires
        spec_is_operator(x),
    ensures
        spec_ascii_val(x) is Some,
{
    reveal_strlit("+");
    reveal_strlit("-");
    reveal_strlit("*");
    reveal_strlit("/");
    reveal_strlit("%");
    reveal_strlit("||");
    reveal_strlit("&&");
    reveal_strlit("==");
    reveal_strlit("!=");
    reveal_strlit("<");
    reveal_strlit(">");
    reveal_strlit("<=");
    reveal_strlit(">=");
    let k = choose|k: int| 0 <= k < spec_operators().len() && spec_operators()[k] == x;
    assert(0 <= k < 13);
    if k == 0 { assert(x == "+"@); }
    else if k == 1 { assert(x == "-"@); }
    else if k == 2 { assert(x == "*"@); }
    else if k == 3 { assert(x == "/"@); }
    else if k == 4 { assert(x == "%"@); }
    else if k == 5 { assert(x == "||"@); }
    else if k == 6 { assert(x == "&&"@); }
    else if k == 7 { assert(x == "=="@); }
    else if k == 8 { assert(x == "!="@); }
    else if k == 9 { assert(x == "<"@); }
    else if k == 10 { assert(x == ">"@); }
    else if k == 11 { assert(x == "<="@); }
    else { assert(x == ">="@); }
}

/// Runs of marks made one: `µµ` replaced by `µ` until none is left.
pub open spec fn collapse_marks(s: Seq<char>) -> Seq<char>
    decreases s.len(),
{
    if occurs(s, "µµ"@) {
        proof {
            reveal_strlit("µµ");
            reveal_strlit("µ");
            lemma_replace_shorter(s, "µµ"@, "µ"@);
        }
        collapse_marks(spec_replace(s, "µµ"@, "µ"@))
    } else {
        s
    }
}

/// Each operator and parenthesis wrapped in `µ` marks, in the order of the
/// operator list and then the parentheses.
pub open spec fn wrap_marks(s: Seq<char>) -> Seq<char> {
    spec_replace(spec_replace(spec_replace(spec_replace(spec_replace(spec_replace(spec_replace(spec_replace(spec_replace(spec_replace(spec_replace(spec_replace(spec_replace(spec_replace(spec_replace(s, "+"@, "µ+µ"@), "-"@, "µ-µ"@), "*"@, "µ*µ"@), "/"@, "µ/µ"@), "%"@, "µ%µ"@), "||"@, "µ||µ"@), "&&"@, "µ&&µ"@), "=="@, "µ==µ"@), "!="@, "µ!=µ"@), "<"@, "µ<µ"@), ">"@, "µ>µ"@), "<="@, "µ<=µ"@), ">="@, "µ>=µ"@), "("@, "µ(µ"@), ")"@, "µ)µ"@)
}

/// An expression ready to cut at its marks (see `format_string_exp`).
pub open spec fn spec_format_string_exp(s: Seq<char>) -> Seq<char> {
    spec_replace(spec_replace(collapse_marks(wrap_marks(s)), "<µ="@, "<=µ"@), ">µ="@, ">=µ"@)
}

/// Each operator wrapped in `µ` marks, parentheses too, runs of marks made
/// one, and `<µ=`, `>µ=` joined back into `<=µ`, `>=µ`: the expression ready
/// to cut at its marks.
pub fn format_string_exp(string_exp: &str) -> (r: String)
    ensures
        r@ == spec_format_string_exp(string_exp@),
{
    proof {
        reveal_strlit("+");
        reveal_strlit("-");
        reveal_strlit("*");
        reveal_strlit("/");
        reveal_strlit("%");
        reveal_strlit("||");
        reveal_strlit("&&");
        reveal_strlit("==");
        reveal_strlit("!=");
        reveal_strlit("<");
        reveal_strlit(">");
        reveal_strlit("<=");
        reveal_strlit(">=");
        reveal_strlit("(");
        reveal_strlit(")");
        reveal_strlit("µµ");
    }
    let mut s = copy_str(string_exp);
    s = replace_str(s.as_str(), "+", "µ+µ");
    s = replace_str(s.as_str(), "-", "µ-µ");
    s = replace_str(s.as_str(), "*", "µ*µ");
    s = replace_str(s.as_str(), "/", "µ/µ");
    s = replace_str(s.as_str(), "%", "µ%µ");
    s = replace_str(s.as_str(), "||", "µ||µ");
    s = replace_str(s.as_str(), "&&", "µ&&µ");
    s = replace_str(s.as_str(), "==", "µ==µ");
    s = replace_str(s.as_str(), "!=", "µ!=µ");
    s = replace_str(s.as_str(), "<", "µ<µ");
    s = replace_str(s.as_str(), ">", "µ>µ");
    s = replace_str(s.as_str(), "<=", "µ<=µ");
    s = replace_str(s.as_str(), ">=", "µ>=µ");
    s = replace_str(s.as_str(), "(", "µ(µ");
    s = replace_str(s.as_str(), ")", "µ)µ");
    assert(s@ == wrap_marks(string_exp@));
    let ghost target = collapse_marks(s@);
    while contains_str(s.as_str(), "µµ")
        invariant
            collapse_marks(s@) == target,
        decreases s@.len(),
    {
        proof {
            reveal_strlit("µ");
            reveal_strlit("µµ");
            lemma_replace_shorter(s@, "µµ"@, "µ"@);
        }
        s = replace_str(s.as_str(), "µµ", "µ");
    }
    proof {
        reveal_strlit("<µ=");
        reveal_strlit(">µ=");
    }
    s = replace_str(s.as_str(), "<µ=", "<=µ");
    s = replace_str(s.as_str(), ">µ=", ">=µ");
    s
}

} // verus!


verus! {

/// Both callbacks of the caller (whether a file exists, and its text) can
/// be called on any path.
pub open spec fn file_access<E: Fn(&str) -> bool, R: Fn(&str) -> Result<String, String>>(
    file_exists: &E,
    read_file: &R,
) -> bool {
    &&& forall|p: &str| #[trigger] file_exists.requires((p,))
    &&& forall|p: &str| #[trigger] read_file.requires((p,))
}

/// The stars of a type as a signed number, wrapping as a cast does.
fn stars_i32(x: u32) -> i32 {
    #[verifier::truncate]
    (x as i32)
}

/// An address as a signed number, wrapping as a cast does.
fn addr_i32(x: u32) -> i32 {
    #[verifier::truncate]
    (x as i32)
}

/// A signed number as an address, wrapping as a cast does.
fn i32_addr(x: i32) -> u32 {
    #[verifier::truncate]
    (x as u32)
}

/// The first piece of a split.
fn first_piece(s: &str, d: &str) -> (r: String) {
    let p = split(s, d);
    if p.len() == 0 {
        new_string()
    } else {
        copy_str(p[0].as_str())
    }
}

/// The pieces from the `k`-th on, joined with `d`.
fn join_from(p: &Vec<String>, k: usize, d: &str) -> (r: String) {
    let mut rest: Vec<String> = Vec::new();
    let mut i: usize = k;
    while i < p.len()
        decreases p.len() - i,
    {
        rest.push(copy_str(p[i].as_str()));
        i = i + 1;
    }
    join_str(&rest, d)
}

/// The last character of a text, if any.
fn last_of(s: &str) -> (r: Option<char>)
    ensures
        match r {
            Some(c) => s@.len() > 0 && c == s@.last(),
            None => s@.len() == 0,
        },
{
    let n = s.unicode_len();
    if n == 0 {
        None
    } else {
        Some(s.get_char(n - 1))
    }
}

/// The stars that end a text are no more than its characters.
proof fn lemma_trailing_le_len(s: Seq<char>, c: char)
    ensures
        crate::compiler::tools::tools::trailing_count(s, c) <= s.len(),
    decreases s.len(),
{
    if s.len() > 0 {
        lemma_trailing_le_len(s.drop_last(), c);
    }
}

/// The functions file holds whole functions: it is empty or ends with the
/// `ret` that closes the last one.
pub open spec fn whole_functions(f: Seq<char>) -> bool {
    f.len() == 0 || (f.len() >= 4 && f.subrange(f.len() - 4, f.len() as int) == "ret\n"@)
}

/// Whether a text is being written: a program is open and has one.
pub open spec fn writing(c: Compiler) -> bool {
    c.progs@.len() > 0 && c.progs@.last().txt_stack@.len() > 0
}

/// The text being written.
pub open spec fn current_txt(c: Compiler) -> Seq<char> {
    c.progs@.last().txt_stack@.last()@
}

/// The assembly of a value: put in `rax`, then pushed.
pub open spec fn value_asm(v: i32) -> Seq<char> {
    "mov rax, "@ + crate::text::int_digits(v as int) + "\npush rax\n"@
}

/// The assembly of a binary operator of code `code`: the right operand,
/// pushed last and so on top of the stack, is popped into `r11`, then the
/// left one into `r10`; `_operation` computes `r10 op r11` into `rax`,
/// which is pushed.
pub open spec fn operator_asm(code: i32) -> Seq<char> {
    "pop r11\n"@ + "pop r10\n"@ + "mov r12, "@ + crate::text::int_digits(code as int) + "\ncall _operation\npush rax\n"@
}

/// A token that is a value or an operator.
pub open spec fn simple_token(t: Token) -> bool {
    t.interp is Value || t.interp is Operator
}

/// The assembly of the values and operators of a postfix expression, in
/// order.
pub open spec fn simple_asm(exp: Seq<Token>) -> Seq<char>
    decreases exp.len(),
{
    if exp.len() == 0 {
        seq![]
    } else {
        simple_asm(exp.drop_last()) + if exp.last().interp is Operator {
            operator_asm(exp.last().val)
        } else {
            value_asm(exp.last().val)
        }
    }
}

/// A push followed at once by a pop made shorter: a value pushed then
/// popped into `rax` is left there, one popped into `r11` is moved there.
pub open spec fn clean_pushes(s: Seq<char>) -> Seq<char> {
    spec_replace(spec_replace(s, "push rax\npop rax\n"@, ""@), "push rax\npop r11\n"@, "mov r11, rax\n"@)
}

/// The code of a binary operator takes its right operand (the one on top of
/// the stack, pushed last) into `r11` and its left operand into `r10`:
/// the first line it writes pops into `r11`, the second into `r10`.
pub proof fn lemma_operator_takes_right_into_r11(code: i32)
    ensures
        operator_asm(code).subrange(0, 8) == "pop r11\n"@,
        operator_asm(code).subrange(8, 16) == "pop r10\n"@,
{
    reveal_strlit("pop r11\n");
    reveal_strlit("pop r10\n");
    let o = operator_asm(code);
    assert(o.subrange(0, 8) =~= "pop r11\n"@);
    assert(o.subrange(8, 16) =~= "pop r10\n"@);
}

/// The values and operators of an expression `e1 e2 op`, `e1` and `e2` being
/// complete, are written as those of `e1`, then those of `e2`, then the
/// operator: the left operand is pushed first and so is the one popped into
/// `r10`.
pub proof fn lemma_simple_asm_concat(e1: Seq<Token>, e2: Seq<Token>)
    ensures
        simple_asm(e1 + e2) == simple_asm(e1) + simple_asm(e2),
    decreases e2.len(),
{
    if e2.len() == 0 {
        assert(e1 + e2 =~= e1);
        assert(simple_asm(e1) + simple_asm(e2) =~= simple_asm(e1));
    } else {
        assert((e1 + e2).drop_last() =~= e1 + e2.drop_last());
        assert((e1 + e2).last() == e2.last());
        lemma_simple_asm_concat(e1, e2.drop_last());
        assert(simple_asm(e1 + e2) =~= simple_asm(e1) + simple_asm(e2));
    }
}

/// `c2` is `c1` with `t` written at the end of the text being written,
/// nothing else changed.
pub open spec fn wrote(c1: Compiler, c2: Compiler, t: Seq<char>) -> bool {
    &&& c2.hammer == c1.hammer
    &&& c2.jumps == c1.jumps
    &&& c2.blocs_index == c1.blocs_index
    &&& c2.saved == c1.saved
    &&& c2.file_compiled == c1.file_compiled
    &&& c2.script == c1.script
    &&& c2.functions == c1.functions
    &&& c2.progs@.len() == c1.progs@.len()
    &&& forall|i: int| 0 <= i < c1.progs@.len() - 1 ==> #[trigger] c2.progs@[i] == c1.progs@[i]
    &&& c2.progs@.last().inst_vec == c1.progs@.last().inst_vec
    &&& c2.progs@.last().inst_index == c1.progs@.last().inst_index
    &&& c2.progs@.last().loop_index_stack == c1.progs@.last().loop_index_stack
    &&& c2.progs@.last().cond_index_stack == c1.progs@.last().cond_index_stack
    &&& c2.progs@.last().txt_stack@.len() == c1.progs@.last().txt_stack@.len()
    &&& forall|j: int|
        0 <= j < c1.progs@.last().txt_stack@.len() - 1 ==> #[trigger] c2.progs@.last().txt_stack@[j]
            == c1.progs@.last().txt_stack@[j]
    &&& current_txt(c2) == current_txt(c1) + t
}

impl Program {
    /// A program of that text, about to read its first instruction, with one
    /// empty text and no loop or condition open.
    pub fn new(txt: &str) -> (r: Program)
        ensures
            crate::text::views(r.inst_vec@) == crate::text::spec_split_any(txt@, ";"@),
            r.inst_index == 0,
            r.txt_stack@.len() == 1 && r.txt_stack@[0]@ == Seq::<char>::empty(),
            r.loop_index_stack@.len() == 0,
            r.cond_index_stack@.len() == 0,
    {
        let mut txt_stack: Vec<String> = Vec::new();
        txt_stack.push(new_string());
        Program {
            inst_vec: split(txt, ";"),
            inst_index: 0,
            txt_stack,
            loop_index_stack: Vec::new(),
            cond_index_stack: Vec::new(),
        }
    }
}

impl Compiler {
    /// The compiler at the start of the program `prog_name` of text `txt`:
    /// the program alone, its block open, block numbers from 1, nothing
    /// written.
    pub fn new(prog_name: String, txt: &str) -> (r: Compiler)
        ensures
            r.hammer.prog_name == prog_name,
            r.progs@.len() == 1,
            r.jumps@.len() == 1 && r.jumps@[0].bloc_index == 0 && r.jumps@[0].action is EndProg,
            r.blocs_index == 1,
            r.script@.len() == 0,
            r.functions@.len() == 0,
    {
        let mut jumps: Vec<Jump> = Vec::new();
        jumps.push(Jump { stack_index: 0, action: JumpAction::EndProg, bloc_index: 0 });
        let mut progs: Vec<Program> = Vec::new();
        progs.push(Program::new(txt));
        Compiler {
            hammer: Hammer::new(prog_name),
            progs,
            saved: Vec::new(),
            jumps,
            blocs_index: 1,
            file_compiled: Vec::new(),
            script: new_string(),
            functions: new_string(),
        }
    }

    /// Writes at the end of the text being written.
    fn push_txt(&mut self, t: &str) -> (r: Option<()>)
        ensures
            whole_functions(old(self).functions@) ==> whole_functions(final(self).functions@),
            final(self).hammer == old(self).hammer,
            final(self).jumps == old(self).jumps,
            final(self).blocs_index == old(self).blocs_index,
            final(self).progs@.len() == old(self).progs@.len(),
            writing(*old(self)) ==> r is Some && wrote(*old(self), *final(self), t@),
            !writing(*old(self)) ==> r is None && *final(self) == *old(self),
    {
        let n = self.progs.len();
        if n == 0 {
            return None;
        }
        let m = self.progs[n - 1].txt_stack.len();
        if m == 0 {
            return None;
        }
        let ghost before = *self;
        let mut p = self.progs.pop().unwrap();
        let mut top = p.txt_stack.pop().unwrap();
        push_str(&mut top, t);
        p.txt_stack.push(top);
        self.progs.push(p);
        proof {
            assert(self.progs@.last().txt_stack@ =~= before.progs@.last().txt_stack@.drop_last().push(top));
            assert(forall|i: int| 0 <= i < before.progs@.len() - 1 ==> #[trigger] self.progs@[i] == before.progs@[i]);
        }
        Some(())
    }

    /// Replaces a text by another in the text being written.
    fn replace_txt(&mut self, a: &str, b: &str) -> (r: Option<()>)
        requires
            a@.len() > 0,
        ensures
            whole_functions(old(self).functions@) ==> whole_functions(final(self).functions@),
            final(self).hammer == old(self).hammer,
            final(self).progs@.len() == old(self).progs@.len(),
            writing(*old(self)) ==> r is Some && writing(*final(self)) && current_txt(*final(self)) == spec_replace(
                current_txt(*old(self)),
                a@,
                b@,
            ),
            !writing(*old(self)) ==> r is None,
    {
        let n = self.progs.len();
        if n == 0 {
            return None;
        }
        let m = self.progs[n - 1].txt_stack.len();
        if m == 0 {
            return None;
        }
        let t = replace_str(self.progs[n - 1].txt_stack[m - 1].as_str(), a, b);
        self.progs[n - 1].txt_stack.set(m - 1, t);
        Some(())
    }

    /// Takes off the text being written.
    fn pop_current_txt(&mut self) -> (r: Option<String>)
        ensures
            whole_functions(old(self).functions@) ==> whole_functions(final(self).functions@),
            final(self).hammer == old(self).hammer,
            final(self).progs@.len() == old(self).progs@.len(),
            final(self).script == old(self).script,
            final(self).functions == old(self).functions,
            final(self).jumps == old(self).jumps,
            final(self).saved == old(self).saved,
            final(self).file_compiled == old(self).file_compiled,
            writing(*old(self)) ==> (r matches Some(t) && t@ == current_txt(*old(self))),
            !writing(*old(self)) ==> r is None,
    {
        let n = self.progs.len();
        if n == 0 {
            return None;
        }
        self.progs[n - 1].txt_stack.pop()
    }

    /// Opens a block whose leaving writes `end_txt`.
    fn jump_in(&mut self, end_txt: String) -> (r: Option<()>)
        ensures
            whole_functions(old(self).functions@) ==> whole_functions(final(self).functions@),
            final(self).jumps@ == old(self).jumps@.push(
                Jump { stack_index: old(self).hammer.stack_index, action: JumpAction::EndOfBloc(end_txt), bloc_index: old(self).blocs_index },
            ),
            final(self).hammer.jump_vars@.len() == old(self).hammer.jump_vars@.len() + 1,
            final(self).hammer.jump_vars@.last()@.len() == 0,
            forall|i: int| 0 <= i < old(self).hammer.jump_vars@.len() ==> #[trigger] final(self).hammer.jump_vars@[i] == old(self).hammer.jump_vars@[i],
            final(self).hammer.stack_index == old(self).hammer.stack_index,
            final(self).hammer.line == old(self).hammer.line,
            final(self).hammer.prog_name == old(self).hammer.prog_name,
            final(self).progs == old(self).progs,
            old(self).blocs_index < u32::MAX ==> r is Some && final(self).blocs_index == old(self).blocs_index + 1,
            old(self).blocs_index == u32::MAX ==> r is None,
    {
        self.jumps.push(Jump { stack_index: self.hammer.stack_index, action: JumpAction::EndOfBloc(end_txt), bloc_index: self.blocs_index });
        self.hammer.jump_vars.push(Vec::new());
        if self.blocs_index == u32::MAX {
            return None;
        }
        self.blocs_index = self.blocs_index + 1;
        Some(())
    }

    /// Opens the loop of that number.
    fn new_loop(&mut self, loop_index: u32) -> (r: Option<()>)
        ensures
            whole_functions(old(self).functions@) ==> whole_functions(final(self).functions@),
            writing(*old(self)) ==> r is Some && writing(*final(self)) && current_txt(*final(self)) == current_txt(*old(self))
                + "_loop_"@ + crate::text::nat_digits(loop_index as nat) + ":\n"@
                && final(self).progs@.last().loop_index_stack@ == old(self).progs@.last().loop_index_stack@.push(loop_index),
            !writing(*old(self)) ==> r is None,
            final(self).hammer == old(self).hammer,
            final(self).jumps == old(self).jumps,
            final(self).blocs_index == old(self).blocs_index,
            final(self).progs@.len() == old(self).progs@.len(),
    {
        self.push_txt(cat_num("_loop_", loop_index as u128, ":\n").as_str())?;
        let n = self.progs.len();
        if n == 0 {
            return None;
        }
        self.progs[n - 1].loop_index_stack.push(loop_index);
        Some(())
    }

    /// Where the first entry of the address stands.
    fn addr_index(&self, addr: u32) -> (r: Option<usize>)
        ensures
            r matches Some(i) ==> i < self.hammer.addr_list@.len(),
    {
        let mut i: usize = 0;
        while i < self.hammer.addr_list.len()
            decreases self.hammer.addr_list.len() - i,
        {
            if self.hammer.addr_list[i].0 == addr {
                return Some(i);
            }
            i = i + 1;
        }
        None
    }

    /// Where the first entry of the name stands.
    fn name_index(&self, name: &str) -> (r: Option<usize>)
        ensures
            r matches Some(i) ==> i < self.hammer.defined_var_list@.len(),
    {
        let mut i: usize = 0;
        while i < self.hammer.defined_var_list.len()
            decreases self.hammer.defined_var_list.len() - i,
        {
            if str_eq(self.hammer.defined_var_list[i].0.as_str(), name) {
                return Some(i);
            }
            i = i + 1;
        }
        None
    }

    /// The innermost address of a name.
    fn lookup_addr(&self, name: &str) -> (r: Option<u32>) {
        let i = self.name_index(name)?;
        let st = &self.hammer.defined_var_list[i].1;
        if st.len() == 0 {
            None
        } else {
            Some(st[st.len() - 1])
        }
    }

    /// The innermost variable at an address.
    fn lookup_def(&self, addr: u32) -> (r: Option<VariableDefinition>) {
        let j = self.addr_index(addr)?;
        let st = &self.hammer.addr_list[j].1;
        if st.len() == 0 {
            None
        } else {
            Some(st[st.len() - 1].clone())
        }
    }

    /// The assembly forms of the size of the variable at an address.
    fn get_size_def(&self, addr: u32) -> (r: Option<(&'static str, &'static str, &'static str, &'static str)>) {
        let d = self.lookup_def(addr)?;
        size_info(d.type_var.size)
    }

    /// The first function of that name.
    fn lookup_func(&self, name: &str) -> (r: Option<Function>) {
        let mut i: usize = 0;
        while i < self.hammer.func_list.len()
            decreases self.hammer.func_list.len() - i,
        {
            if str_eq(self.hammer.func_list[i].0.as_str(), name) {
                return Some(self.hammer.func_list[i].1.clone());
            }
            i = i + 1;
        }
        None
    }

    /// Takes the innermost variable off an address, and its address off its
    /// name; an address or a name left with none is dropped.
    fn pop_var(&mut self, addr: u32) -> (r: Option<()>)
        ensures
            whole_functions(old(self).functions@) ==> whole_functions(final(self).functions@),
            final(self).hammer.jump_vars == old(self).hammer.jump_vars,
            final(self).progs == old(self).progs,
            final(self).jumps == old(self).jumps,
    {
        let i = self.addr_index(addr)?;
        if self.hammer.addr_list[i].1.len() == 0 {
            return None;
        }
        let def = self.hammer.addr_list[i].1.pop().unwrap();
        if self.hammer.addr_list[i].1.len() == 0 {
            self.hammer.addr_list.remove(i);
        }
        let k = self.name_index(def.name.as_str())?;
        if self.hammer.defined_var_list[k].1.len() == 0 {
            return None;
        }
        self.hammer.defined_var_list[k].1.pop();
        if self.hammer.defined_var_list[k].1.len() == 0 {
            self.hammer.defined_var_list.remove(k);
        }
        Some(())
    }

    /// Ends the program on top: its text goes to the script, and the
    /// program under it, if any, comes back.
    fn end_prog(&mut self) -> (r: Option<()>)
        ensures
            whole_functions(old(self).functions@) ==> whole_functions(final(self).functions@),
            writing(*old(self)) ==> r is Some && final(self).script@ == old(self).script@ + current_txt(*old(self))
                && final(self).progs@.len() == old(self).progs@.len() - 1 && final(self).functions == old(self).functions,
            !writing(*old(self)) ==> r is None,
    {
        let txt = self.pop_current_txt()?;
        push_str(&mut self.script, txt.as_str());
        self.progs.pop();
        match self.saved.pop() {
            Some((name, line, tr)) => {
                self.hammer.prog_name = name;
                self.hammer.line = line;
                self.hammer.type_return = tr;
            },
            None => {},
        }
        Some(())
    }

    /// Closes the function `func_name`: its text, a label before and a
    /// return after, goes to the functions file.
    fn end_of_func(&mut self, func_name: &str) -> (r: Option<()>)
        ensures
            whole_functions(old(self).functions@) ==> whole_functions(final(self).functions@),
            writing(*old(self)) ==> final(self).functions@ == old(self).functions@ + func_name@ + ":\n"@ + current_txt(
                *old(self),
            ) + "ret\n"@ && final(self).script == old(self).script,
            writing(*old(self)) && old(self).jumps@.len() > 0 ==> r is Some && final(self).hammer.stack_index
                == old(self).jumps@.last().stack_index && final(self).hammer.type_return is None,
            !writing(*old(self)) ==> r is None,
    {
        let txt = self.pop_current_txt()?;
        push_str(&mut self.functions, func_name);
        push_str(&mut self.functions, ":\n");
        push_str(&mut self.functions, txt.as_str());
        push_str(&mut self.functions, "ret\n");
        proof {
            reveal_strlit("ret\n");
            assert(self.functions@.subrange(self.functions@.len() - 4, self.functions@.len() as int) =~= "ret\n"@);
        }
        let n = self.jumps.len();
        if n == 0 {
            return None;
        }
        self.hammer.stack_index = self.jumps[n - 1].stack_index;
        self.hammer.type_return = None;
        Some(())
    }

    /// Leaves the innermost block: its loop closes, the free address comes
    /// back, its variables go, and what leaving it does is done.
    fn jump_out(&mut self) -> (r: Option<()>)
        ensures
            whole_functions(old(self).functions@) ==> whole_functions(final(self).functions@),
    {
        let nj = self.jumps.len();
        if nj == 0 {
            return None;
        }
        let bloc = self.jumps[nj - 1].bloc_index;
        let si = self.jumps[nj - 1].stack_index;
        let np = self.progs.len();
        if np == 0 {
            return None;
        }
        let nl = self.progs[np - 1].loop_index_stack.len();
        if nl > 0 && self.progs[np - 1].loop_index_stack[nl - 1] == bloc {
            self.progs[np - 1].loop_index_stack.pop();
        }
        self.hammer.stack_index = si;
        let nv = self.hammer.jump_vars.len();
        if nv == 0 {
            return None;
        }
        let mut k: usize = 0;
        while k < self.hammer.jump_vars[nv - 1].len()
            invariant
                whole_functions(old(self).functions@) ==> whole_functions(self.functions@),
                self.hammer.jump_vars@.len() == nv,
                nv > 0,
                self.jumps@.len() == nj,
                nj > 0,
            decreases self.hammer.jump_vars@[nv - 1]@.len() - k,
        {
            let addr = self.hammer.jump_vars[nv - 1][k];
            self.pop_var(addr)?;
            k = k + 1;
        }
        match &self.jumps[nj - 1].action {
            JumpAction::EndProg => {
                self.end_prog()?;
            },
            JumpAction::EndOfBloc(t) => {
                let t2 = copy_str(t.as_str());
                self.push_txt(t2.as_str())?;
            },
            JumpAction::EndOfFunc(f) => {
                let f2 = copy_str(f.as_str());
                self.end_of_func(f2.as_str())?;
            },
        }
        self.jumps.pop();
        self.hammer.jump_vars.pop();
        Some(())
    }
}

} // verus!

verus! {

impl Compiler {
    /// The start of each error message.
    fn error_msg(&self) -> (r: String)
        ensures
            r@ == crate::expression::spec_error_msg(self.hammer),
    {
        self.hammer.error_msg()
    }

    /// An error: the start of the messages, then `t`.
    fn err<T>(&self, t: &str) -> (r: Option<Result<T, String>>)
        ensures
            r matches Some(Err(e)) && e@ == crate::expression::spec_error_msg(self.hammer) + t@,
    {
        let mut e = self.error_msg();
        push_str(&mut e, t);
        Some(Err(e))
    }

    /// The tokens of each index written after a variable (`a[i][j]`), and
    /// the variable without them.
    fn tab_analyse(&self, var_s: &mut String, fuel: u32) -> (r: Option<Result<Vec<Vec<Token>>, String>>)
        decreases fuel,
    {
        if fuel == 0 {
            return None;
        }
        let var = split(var_s.as_str(), "[");
        if var.len() == 0 {
            return None;
        }
        let mut res: Vec<Vec<Token>> = Vec::new();
        let mut i: usize = 1;
        while i < var.len()
            invariant
                fuel > 0,
            decreases var.len() - i,
        {
            let v = var[i].as_str();
            if last_of(v) != Some(']') {
                return self.err(" You forgot to close with '['");
            }
            let inner = drop_last_char(v);
            match self.build_aff_vec(inner.as_str(), 0, fuel - 1) {
                None => {
                    return None;
                },
                Some(Err(e)) => {
                    return Some(Err(e));
                },
                Some(Ok(t)) => {
                    res.push(t);
                },
            }
            i = i + 1;
        }
        *var_s = copy_str(var[0].as_str());
        Some(Ok(res))
    }

    /// The postfix tokens of an expression; a variable must carry
    /// `nb_stars_await` stars once read, unless any will do.
    fn build_aff_vec(&self, string_exp: &str, nb_stars_await: u32, fuel: u32) -> (r: Option<Result<Vec<Token>, String>>)
        decreases fuel,
    {
        if fuel == 0 {
            return None;
        }
        let s = trim_str(string_exp);
        if s.unicode_len() == 0 {
            return self.err(" Syntax error.");
        }
        let f = format_string_exp(s.as_str());
        let exp = split(f.as_str(), "µ");
        if exp.len() >= 0x7fff_ffff {
            return None;
        }
        let cut = match tokenize_expression(&self.hammer, exp) {
            Ok(c) => c,
            Err(e) => {
                return Some(Err(e));
            },
        };
        let post = self.hammer.tools.checked_convert_in_postfix_exp(cut)?;
        let mut res: Vec<Token> = Vec::new();
        let mut i: usize = 0;
        while i < post.len()
            invariant
                fuel > 0,
            decreases post.len() - i,
        {
            match self.add_element_in_aff_exp(copy_str(post[i].as_str()), &mut res, nb_stars_await, fuel - 1) {
                None => {
                    return None;
                },
                Some(Err(e)) => {
                    return Some(Err(e));
                },
                Some(Ok(())) => {},
            }
            i = i + 1;
        }
        Some(Ok(res))
    }

    /// Adds one element of a postfix expression as a token: an operator, a
    /// number, a variable (with its marks and indexes), a call of a function
    /// or a character.
    fn add_element_in_aff_exp(&self, element: String, exp: &mut Vec<Token>, nb_stars_await: u32, fuel: u32) -> (r: Option<Result<(), String>>)
        decreases fuel,
    {
        if fuel == 0 {
            return None;
        }
        if element.unicode_len() == 0 {
            return self.err(" Syntax error.");
        }
        if self.hammer.tools.is_operator(element.as_str()) {
            proof {
                lemma_operator_has_code(element@);
            }
            exp.push(Token::new_op(self.hammer.tools.ascii_val(element.as_str())));
            return Some(Ok(()));
        }
        match parse_i32(element.as_str()) {
            Some(n) => {
                exp.push(Token::new_val(n));
                return Some(Ok(()));
            },
            None => {},
        }
        let mut element = element;
        if element.unicode_len() >= 0x7fff_ffff {
            return None;
        }
        let mut nb_stars = match get_prof_pointer(&self.hammer, &mut element, true) {
            Ok(n) => n,
            Err(e) => {
                return Some(Err(e));
            },
        };
        let var_name = first_piece(element.as_str(), "[");
        if self.hammer.var_exists(var_name.as_str()) {
            let a = self.lookup_addr(var_name.as_str())?;
            let var_def = self.lookup_def(a)?;
            let def_stars = stars_i32(var_def.type_var.stars);
            if def_stars < nb_stars {
                let mut e = self.error_msg();
                push_str(&mut e, " You tried to dereference the variable ");
                push_str(&mut e, var_def.name.as_str());
                push_str(&mut e, " ");
                push_int(&mut e, nb_stars as i128);
                push_str(&mut e, " times but you only have the right to dereference it ");
                push_nat(&mut e, var_def.type_var.stars as u128);
                push_str(&mut e, " times");
                return Some(Err(e));
            }
            let tab_vec = match self.tab_analyse(&mut element, fuel - 1) {
                None => {
                    return None;
                },
                Some(Err(e)) => {
                    return Some(Err(e));
                },
                Some(Ok(t)) => t,
            };
            let n = tab_vec.len();
            if n > 0x7fff_ffff {
                return None;
            }
            let n32 = n as i32;
            if nb_stars > i32::MAX - n32 {
                return None;
            }
            nb_stars = nb_stars + n32;
            if nb_stars_await != ANY_STARS {
                if nb_stars < 0 && def_stars > i32::MAX + nb_stars {
                    return None;
                }
                if nb_stars > 0 && def_stars < i32::MIN + nb_stars {
                    return None;
                }
                if def_stars - nb_stars != stars_i32(nb_stars_await) {
                    return self.err(" The two types are incompatibles.");
                }
            }
            nb_stars = nb_stars - n32;
            let addr = self.lookup_addr(element.as_str())?;
            exp.push(Token { val: addr_i32(addr), squares: Some(tab_vec), func_dec: None, nb_stars, interp: Interp::Variable });
            return Some(Ok(()));
        }
        let fname = first_piece(element.as_str(), "(");
        if self.hammer.func_exists(fname.as_str()) {
            let func = self.lookup_func(fname.as_str())?;
            let rt = &func.return_type;
            if rt.stars == nb_stars_await && nb_stars_await != ANY_STARS && !str_eq(rt.name.as_str(), "void") {
                exp.push(Token::new_func(element));
                return Some(Ok(()));
            }
            return self.err(" The two types are incompatibles.");
        }
        if literal_cuts(element.as_str()) {
            return None;
        }
        match from_char_to_number(&mut element) {
            Some(v) => {
                if nb_stars != 0 {
                    return self.err(" You tried to dereference a character");
                }
                exp.push(Token::new_val(v as i32));
                Some(Ok(()))
            },
            None => {
                let mut e = self.error_msg();
                push_str(&mut e, " we found an incorrect value: ");
                push_str(&mut e, element.as_str());
                Some(Err(e))
            },
        }
    }

    /// Writes the assembly that computes a postfix expression and leaves its
    /// value in `rax`.
    fn evaluate_exp(&mut self, exp: &Vec<Token>, fuel: u32) -> (r: Option<Result<(), String>>)
        ensures
            whole_functions(old(self).functions@) ==> whole_functions(final(self).functions@),
            fuel > 0 && writing(*old(self)) && (forall|j: int| 0 <= j < exp@.len() ==> simple_token(#[trigger] exp@[j]))
                ==> r == Some(Ok::<(), String>(())) && writing(*final(self)) && current_txt(*final(self)) == clean_pushes(
                current_txt(*old(self)) + simple_asm(exp@) + "pop rax\n"@,
            ),
        decreases fuel,
    {
        if fuel == 0 {
            return None;
        }
        let ghost simple = forall|j: int| 0 <= j < exp@.len() ==> simple_token(#[trigger] exp@[j]);
        let ghost start = current_txt(*self);
        let ghost was_writing = writing(*self);
        let mut k: usize = 0;
        assert(exp@.take(0) =~= Seq::<Token>::empty());
        while k < exp.len()
            invariant
                whole_functions(old(self).functions@) ==> whole_functions(self.functions@),
                fuel > 0,
                0 <= k <= exp@.len(),
                simple == (forall|j: int| 0 <= j < exp@.len() ==> simple_token(#[trigger] exp@[j])),
                was_writing == writing(*old(self)),
                start == current_txt(*old(self)),
                simple && was_writing ==> writing(*self) && current_txt(*self) == start + simple_asm(exp@.take(k as int)),
            decreases exp.len() - k,
        {
            let elt = &exp[k];
            proof {
                assert(exp@.take(k + 1).drop_last() =~= exp@.take(k as int));
                assert(exp@.take(k + 1).last() == exp@[k as int]);
                if simple {
                    assert(simple_token(exp@[k as int]));
                }
            }
            match elt.interp {
                Interp::Operator => {
                    let mut t = copy_str("pop r11\npop r10\nmov r12, ");
                    push_int(&mut t, elt.val as i128);
                    push_str(&mut t, "\ncall _operation\npush rax\n");
                    proof {
                        reveal_strlit("pop r11\npop r10\nmov r12, ");
                        reveal_strlit("pop r11\n");
                        reveal_strlit("pop r10\n");
                        reveal_strlit("mov r12, ");
                        assert("pop r11\npop r10\nmov r12, "@ =~= "pop r11\n"@ + "pop r10\n"@ + "mov r12, "@);
                        assert(t@ =~= operator_asm(elt.val));
                    }
                    self.push_txt(t.as_str())?;
                },
                Interp::Variable => {
                    let stars = match self.handle_variable_dereference(elt, fuel - 1) {
                        None => {
                            return None;
                        },
                        Some(Err(e)) => {
                            return Some(Err(e));
                        },
                        Some(Ok(s)) => s,
                    };
                    if elt.nb_stars == -1 {
                        self.push_txt("push rax\n")?;
                    } else if stars == 0 {
                        let (long, _short, _reg, mov) = self.get_size_def(i32_addr(elt.val))?;
                        let mut t = copy_str(mov);
                        push_str(&mut t, " rax, ");
                        push_str(&mut t, long);
                        push_str(&mut t, "[_stack+ rax]\npush rax\n");
                        self.push_txt(t.as_str())?;
                    } else {
                        self.push_txt("movsx rax, dword[_stack+ rax]\npush rax\n")?;
                    }
                },
                Interp::Value => {
                    let mut t = copy_str("mov rax, ");
                    push_int(&mut t, elt.val as i128);
                    push_str(&mut t, "\npush rax\n");
                    assert(t@ =~= value_asm(elt.val));
                    self.push_txt(t.as_str())?;
                },
                Interp::Function => {
                    let call = match &elt.func_dec {
                        Some(f) => copy_str(f.as_str()),
                        None => {
                            return None;
                        },
                    };
                    match self.handle_func_call(call, fuel - 1) {
                        None => {
                            return None;
                        },
                        Some(Err(e)) => {
                            return Some(Err(e));
                        },
                        Some(Ok(())) => {},
                    }
                    self.push_txt("push rax\n")?;
                },
            }
            k = k + 1;
        }
        assert(exp@.take(exp@.len() as int) =~= exp@);
        self.push_txt("pop rax\n")?;
        proof {
            reveal_strlit("push rax\npop rax\n");
            reveal_strlit("push rax\npop r11\n");
        }
        self.replace_txt("push rax\npop rax\n", "")?;
        self.replace_txt("push rax\npop r11\n", "mov r11, rax\n")?;
        Some(Ok(()))
    }

    /// Writes the assembly that leaves in `rax` the address a variable token
    /// reads (through its indexes and marks), checked against the stack; the
    /// stars left on it.
    fn handle_variable_dereference(&mut self, var: &Token, fuel: u32) -> (r: Option<Result<u32, String>>)
        ensures
            whole_functions(old(self).functions@) ==> whole_functions(final(self).functions@),
        decreases fuel,
    {
        if fuel == 0 {
            return None;
        }
        let var_def = self.lookup_def(i32_addr(var.val))?;
        let def_stars = stars_i32(var_def.type_var.stars);
        if var.nb_stars < 0 && def_stars > i32::MAX + var.nb_stars {
            return None;
        }
        if var.nb_stars > 0 && def_stars < i32::MIN + var.nb_stars {
            return None;
        }
        let mut stars: i32 = def_stars - var.nb_stars;
        let mut t = copy_str("mov rbx, ");
        push_int(&mut t, var.val as i128);
        push_str(&mut t, "\nadd rbx, r15\n");
        self.push_txt(t.as_str())?;
        let squares = match &var.squares {
            Some(sq) => sq,
            None => {
                return None;
            },
        };
        let mut k: usize = 0;
        while k < squares.len()
            invariant
                whole_functions(old(self).functions@) ==> whole_functions(self.functions@),
                fuel > 0,
            decreases squares.len() - k,
        {
            self.push_txt("push rbx\n")?;
            match self.evaluate_exp(&squares[k], fuel - 1) {
                None => {
                    return None;
                },
                Some(Err(e)) => {
                    return Some(Err(e));
                },
                Some(Ok(())) => {},
            }
            self.push_txt("pop rbx\n_deref 1\nmov rcx, 4\nmul rcx\nadd rbx, rax\n")?;
            if stars == i32::MIN {
                return None;
            }
            stars = stars - 1;
            k = k + 1;
        }
        if var.nb_stars > 0 {
            let mut t = copy_str("\n_deref ");
            push_int(&mut t, var.nb_stars as i128);
            push_str(&mut t, "\n");
            self.push_txt(t.as_str())?;
        }
        self.push_txt("mov rax, rbx\n")?;
        if stars < 0 {
            if def_stars > i32::MAX + stars {
                return None;
            }
            let mut e = self.error_msg();
            push_str(&mut e, " You tried to dereference the variable ");
            push_str(&mut e, var_def.name.as_str());
            push_str(&mut e, " ");
            push_int(&mut e, (def_stars as i128) - (stars as i128));
            push_str(&mut e, " times but you only have the right to dereference it ");
            push_nat(&mut e, var_def.type_var.stars as u128);
            push_str(&mut e, " times");
            return Some(Err(e));
        }
        let mut t = copy_str("mov rdx, r15\nadd rdx, ");
        push_nat(&mut t, self.hammer.stack_index as u128);
        push_str(&mut t, "\ncmp rax, rdx\njg _invalid_address\n");
        self.push_txt(t.as_str())?;
        Some(Ok(stars as u32))
    }

    /// Writes the call of a function (`f(a, b)`): each argument computed and
    /// stored after the variables, then the call.
    fn handle_func_call(&mut self, call: String, fuel: u32) -> (r: Option<Result<(), String>>)
        ensures
            whole_functions(old(self).functions@) ==> whole_functions(final(self).functions@),
        decreases fuel,
    {
        if fuel == 0 {
            return None;
        }
        let split_par = split(call.as_str(), "(");
        if split_par.len() == 0 {
            return None;
        }
        if split_par.len() == 1 {
            return self.err(" You have to specifie args between parenthesis.");
        }
        let func_name = copy_str(split_par[0].as_str());
        let func = self.lookup_func(func_name.as_str())?;
        let rest = join_from(&split_par, 1, "(");
        match last_of(rest.as_str()) {
            None => {
                return None;
            },
            Some(c) => {
                if c != ')' {
                    return self.err(" Parenthesis never closes.");
                }
            },
        }
        let inner = drop_last_char(rest.as_str());
        let mut split_virg = split(inner.as_str(), ",");
        if split_virg.len() == 1 && trim_str(split_virg[0].as_str()).unicode_len() == 0 {
            split_virg.remove(0);
        }
        if split_virg.len() != func.args.len() {
            let mut e = self.error_msg();
            push_str(&mut e, " We found ");
            push_nat(&mut e, split_virg.len() as u128);
            push_str(&mut e, " elements in the call of the function ");
            push_str(&mut e, func_name.as_str());
            push_str(&mut e, " but ");
            push_str(&mut e, func_name.as_str());
            push_str(&mut e, " takes ");
            push_nat(&mut e, func.args.len() as u128);
            push_str(&mut e, " arguments.");
            return Some(Err(e));
        }
        let mut decal: u32 = 0;
        let mut i: usize = 0;
        while i < split_virg.len()
            invariant
                whole_functions(old(self).functions@) ==> whole_functions(self.functions@),
                fuel > 0,
                split_virg@.len() == func.args@.len(),
            decreases split_virg.len() - i,
        {
            match self.put_res_in_rax(split_virg[i].as_str(), func.args[i].type_var.stars, fuel - 1) {
                None => {
                    return None;
                },
                Some(Err(e)) => {
                    return Some(Err(e));
                },
                Some(Ok(())) => {},
            }
            let size = func.args[i].type_var.size;
            let (_l, _s, reg, _m) = size_info(size)?;
            let at = self.hammer.stack_index.checked_add(decal)?;
            let mut t = copy_str("mov [_stack+r15+ ");
            push_nat(&mut t, at as u128);
            push_str(&mut t, "], ");
            push_str(&mut t, reg);
            push_str(&mut t, "\n");
            self.push_txt(t.as_str())?;
            decal = decal.checked_add(size)?;
            i = i + 1;
        }
        let mut t = copy_str("push r15\nadd r15, ");
        push_nat(&mut t, self.hammer.stack_index as u128);
        push_str(&mut t, "\ncall ");
        push_str(&mut t, func_name.as_str());
        push_str(&mut t, "\npop r15\n");
        self.push_txt(t.as_str())?;
        Some(Ok(()))
    }

    /// Writes the assembly that leaves the value of an expression in `rax`.
    fn put_res_in_rax(&mut self, exp: &str, nb_stars_await: u32, fuel: u32) -> (r: Option<Result<(), String>>)
        ensures
            whole_functions(old(self).functions@) ==> whole_functions(final(self).functions@),
        decreases fuel,
    {
        if fuel == 0 {
            return None;
        }
        match self.build_aff_vec(exp, nb_stars_await, fuel - 1) {
            None => None,
            Some(Err(e)) => Some(Err(e)),
            Some(Ok(toks)) => self.evaluate_exp(&toks, fuel - 1),
        }
    }

    /// Writes the call of a macro (`name(args)`, the `!` taken off).
    fn handle_macros_call(&mut self, line: String, fuel: u32) -> (r: Option<Result<(), String>>)
        ensures
            whole_functions(old(self).functions@) ==> whole_functions(final(self).functions@),
        decreases fuel,
    {
        if fuel == 0 {
            return None;
        }
        if last_of(line.as_str()) != Some(')') {
            return self.err(" Syntax error.");
        }
        let line = drop_last_char(line.as_str());
        let split_par = split(line.as_str(), "(");
        if split_par.len() == 0 {
            return None;
        }
        let name = trim_str(split_par[0].as_str());
        let expected = match macro_args(name.as_str()) {
            Some(n) => n,
            None => {
                let mut e = self.error_msg();
                push_str(&mut e, " The macro ");
                push_str(&mut e, name.as_str());
                push_str(&mut e, " doesn't exists.");
                return Some(Err(e));
            },
        };
        if split_par.len() < 2 {
            return self.err(" Parenthesis missing.");
        }
        proof {
            reveal_strlit(" ");
        }
        let rest = replace_str(split_par[1].as_str(), " ", "");
        let pieces = split(rest.as_str(), ",");
        let mut args: Vec<Vec<Token>> = Vec::new();
        let mut i: usize = 0;
        while i < pieces.len()
            invariant
                whole_functions(old(self).functions@) ==> whole_functions(self.functions@),
                fuel > 0,
            decreases pieces.len() - i,
        {
            if pieces[i].unicode_len() == 0 {
                break;
            }
            match self.build_aff_vec(pieces[i].as_str(), ANY_STARS, fuel - 1) {
                None => {
                    return None;
                },
                Some(Err(e)) => {
                    return Some(Err(e));
                },
                Some(Ok(t)) => {
                    args.push(t);
                },
            }
            i = i + 1;
        }
        if args.len() != expected as usize {
            let mut e = self.error_msg();
            push_str(&mut e, " Found ");
            push_nat(&mut e, args.len() as u128);
            push_str(&mut e, " arguments when ");
            push_nat(&mut e, expected as u128);
            push_str(&mut e, " was expected");
            return Some(Err(e));
        }
        self.insert_macro_call_in_txt(name.as_str(), &args, fuel - 1)
    }

    /// Writes a macro call: each argument computed and stored, then the
    /// macro with the places of its arguments.
    fn insert_macro_call_in_txt(&mut self, name: &str, args: &Vec<Vec<Token>>, fuel: u32) -> (r: Option<Result<(), String>>)
        ensures
            whole_functions(old(self).functions@) ==> whole_functions(final(self).functions@),
        decreases fuel,
    {
        if fuel == 0 {
            return None;
        }
        let mut i: u32 = 0;
        let mut k: usize = 0;
        while k < args.len()
            invariant
                whole_functions(old(self).functions@) ==> whole_functions(self.functions@),
                fuel > 0,
            decreases args.len() - k,
        {
            match self.evaluate_exp(&args[k], fuel - 1) {
                None => {
                    return None;
                },
                Some(Err(e)) => {
                    return Some(Err(e));
                },
                Some(Ok(())) => {},
            }
            let off = i.checked_mul(8)?;
            let at = self.hammer.stack_index.checked_add(off)?;
            self.push_txt(cat_num("mov [_stack+r15+ ", at as u128, "], rax\n").as_str())?;
            i = i.checked_add(1)?;
            k = k + 1;
        }
        let mut t = copy_str(name);
        push_str(&mut t, " ");
        self.push_txt(t.as_str())?;
        let mut j: u32 = 0;
        while j < i
            invariant
                whole_functions(old(self).functions@) ==> whole_functions(self.functions@),
            decreases i - j,
        {
            let off = j.checked_mul(8)?;
            let at = self.hammer.stack_index.checked_add(off)?;
            self.push_txt(cat_num("[_stack+r15+ ", at as u128, "] ").as_str())?;
            j = j + 1;
        }
        self.push_txt("\n")?;
        Some(Ok(()))
    }

    /// Writes an assignment `target = expression` (the target may carry
    /// marks and indexes).
    fn handle_affectation(&mut self, line: &str, fuel: u32) -> (r: Option<Result<(), String>>)
        ensures
            whole_functions(old(self).functions@) ==> whole_functions(final(self).functions@),
        decreases fuel,
    {
        if fuel == 0 {
            return None;
        }
        let pieces = split(line, "=");
        if pieces.len() < 2 {
            return self.err(" Invalid syntax.");
        }
        let mut var1 = trim_str(pieces[0].as_str());
        if var1.unicode_len() >= 0x7fff_ffff {
            return None;
        }
        let nb_stars = match get_prof_pointer(&self.hammer, &mut var1, false) {
            Ok(n) => n,
            Err(e) => {
                return Some(Err(e));
            },
        };
        let tab_vec = match self.tab_analyse(&mut var1, fuel - 1) {
            None => {
                return None;
            },
            Some(Err(e)) => {
                return Some(Err(e));
            },
            Some(Ok(t)) => t,
        };
        if !self.hammer.var_exists(var1.as_str()) {
            let mut e = self.error_msg();
            push_str(&mut e, " The variable ");
            push_str(&mut e, var1.as_str());
            push_str(&mut e, " doesn't exists.");
            return Some(Err(e));
        }
        proof {
            reveal_strlit(" = ");
        }
        let joined = join_from(&pieces, 1, "=");
        let right_exp = replace_str(joined.as_str(), " = ", "=");
        let addr = self.lookup_addr(var1.as_str())?;
        let tok = Token { val: addr_i32(addr), func_dec: None, squares: Some(tab_vec), nb_stars, interp: Interp::Variable };
        let stars_left = match self.handle_variable_dereference(&tok, fuel - 1) {
            None => {
                return None;
            },
            Some(Err(e)) => {
                return Some(Err(e));
            },
            Some(Ok(s)) => s,
        };
        self.push_txt("push rax\n")?;
        match self.put_res_in_rax(right_exp.as_str(), stars_left, fuel - 1) {
            None => {
                return None;
            },
            Some(Err(e)) => {
                return Some(Err(e));
            },
            Some(Ok(())) => {},
        }
        if stars_left != 0 {
            self.push_txt("pop rbx\nmov dword[_stack+ rbx], eax\n")?;
        } else {
            let (_l, _s, reg, _m) = self.get_size_def(addr)?;
            let mut t = copy_str("pop rbx\nmov [_stack+ rbx], ");
            push_str(&mut t, reg);
            push_str(&mut t, "\n");
            self.push_txt(t.as_str())?;
        }
        Some(Ok(()))
    }
}

} // verus!

verus! {

impl Compiler {
    /// The type a name with stars denotes (see `Hammer::type_exists`), the
    /// stars taken off `name`.
    fn type_of(&self, name: &mut String) -> (r: Option<Result<Type, String>>) {
        if name.unicode_len() > 0xffff_ffff {
            return None;
        }
        proof {
            lemma_trailing_le_len(name@, '*');
        }
        Some(self.hammer.type_exists(name))
    }

    /// Reserves the places of an array declared with sizes (`a[3][2]`): each
    /// level's pointers are written, and the free address moves past the
    /// values. The count and the first address of the last level.
    fn handle_tab_type_dec(&mut self, var: &Vec<String>, type_var: &mut Type) -> (r: Option<Result<(u32, u32), String>>)
        ensures
            whole_functions(old(self).functions@) ==> whole_functions(final(self).functions@),
    {
        let mut previous: (u32, u32) = (1, self.hammer.stack_index);
        if var.len() != 1 {
            let tab_addr = self.hammer.stack_index;
            let mut i: usize = 1;
            while i < var.len()
                invariant
                    whole_functions(old(self).functions@) ==> whole_functions(self.functions@),
                decreases var.len() - i,
            {
                let v = var[i].as_str();
                if last_of(v) != Some(']') {
                    return self.err(" You forgot to close the bracket with '['");
                }
                let stack_index = self.hammer.stack_index;
                let digits = drop_last_char(v);
                match parse_u32(digits.as_str()) {
                    Some(tab_size) => {
                        type_var.stars = type_var.stars.checked_add(1)?;
                        if i == usize::MAX - 1 {
                            return None;
                        }
                        let blen = byte_len_upto(v, i + 1);
                        let size: u32 = if blen != i + 1 {
                            POINTER_SIZE
                        } else {
                            type_var.size
                        };
                        let mut j: u32 = 0;
                        while j < previous.0
                            invariant
                                whole_functions(old(self).functions@) ==> whole_functions(self.functions@),
                            decreases previous.0 - j,
                        {
                            let (long, _s, _r, _m) = size_info(size)?;
                            let off = size.checked_mul(j)?;
                            let at = previous.1.checked_add(off)?;
                            let mut t = copy_str("mov ");
                            push_str(&mut t, long);
                            push_str(&mut t, "[_stack+r15+ ");
                            push_nat(&mut t, at as u128);
                            push_str(&mut t, "], ");
                            push_nat(&mut t, self.hammer.stack_index as u128);
                            push_str(&mut t, "\n");
                            self.push_txt(t.as_str())?;
                            let step = size.checked_mul(tab_size)?;
                            self.hammer.stack_index = self.hammer.stack_index.checked_add(step)?;
                            j = j + 1;
                        }
                        if i != var.len() - 1 {
                            previous.0 = previous.0.checked_mul(tab_size)?;
                        } else {
                            previous.0 = tab_size;
                        }
                    },
                    None => {
                        return self.err(" You didn't write a correct number between the brackets");
                    },
                }
                previous.1 = stack_index;
                i = i + 1;
            }
            let mut t = copy_str("mov rdx, ");
            push_nat(&mut t, tab_addr as u128);
            push_str(&mut t, "\nadd rdx, r15\nmov rax, ");
            push_nat(&mut t, self.hammer.stack_index as u128);
            push_str(&mut t, "\nadd rax, r15\nmov [_stack+ rax], edx\n");
            self.push_txt(t.as_str())?;
        }
        Some(Ok(previous))
    }

    /// Declares the variable named by the second word of a declaration, of
    /// the type given, with the places of its array if sizes follow it.
    fn dec_new_var(&mut self, inst_split: &Vec<String>, type_var: &mut Type) -> (r: Option<Result<(u32, u32), String>>)
        ensures
            whole_functions(old(self).functions@) ==> whole_functions(final(self).functions@),
    {
        if inst_split.len() < 2 {
            return self.err(" You should initialise a variable.");
        }
        let split_var = split(inst_split[1].as_str(), "[");
        if split_var.len() == 0 {
            return None;
        }
        match self.hammer.is_valid_name(split_var[0].as_str()) {
            Err(e) => {
                return Some(Err(e));
            },
            Ok(()) => {},
        }
        let data = match self.handle_tab_type_dec(&split_var, type_var) {
            None => {
                return None;
            },
            Some(Err(e)) => {
                return Some(Err(e));
            },
            Some(Ok(d)) => d,
        };
        if self.hammer.jump_vars.len() == 0 {
            return None;
        }
        self.hammer.stack_index.checked_add(type_var.size)?;
        self.hammer.define_new_var(copy_str(split_var[0].as_str()), type_var.clone());
        Some(Ok(data))
    }

    /// Declares an array and fills it from the values between brackets that
    /// follow (`int a[2][2] = {1, 2} {3, 4}`).
    fn direct_dec_tab(&mut self, inst: &str, rest_of_inst: &str, fuel: u32) -> (r: Option<Result<(), String>>)
        ensures
            whole_functions(old(self).functions@) ==> whole_functions(final(self).functions@),
        decreases fuel,
    {
        if fuel == 0 {
            return None;
        }
        let inst_split = split(inst, " ");
        if inst_split.len() == 0 {
            return None;
        }
        let mut first = copy_str(inst_split[0].as_str());
        let mut type_var = match self.type_of(&mut first) {
            None => {
                return None;
            },
            Some(Ok(t)) => t,
            Some(Err(_)) => {
                let mut e = self.error_msg();
                push_str(&mut e, " Syntax error, we found ");
                push_str(&mut e, inst);
                push_str(&mut e, " behind brackets.");
                return Some(Err(e));
            },
        };
        let data = match self.dec_new_var(&inst_split, &mut type_var) {
            None => {
                return None;
            },
            Some(Err(e)) => {
                return Some(Err(e));
            },
            Some(Ok(d)) => d,
        };
        let s = type_var.size;
        let arrays = split(rest_of_inst, "{");
        let mut i: u32 = 0;
        let mut k: usize = 0;
        while k < arrays.len()
            invariant
                whole_functions(old(self).functions@) ==> whole_functions(self.functions@),
                fuel > 0,
            decreases arrays.len() - k,
        {
            let mut arr = trim_str(arrays[k].as_str());
            if arr.unicode_len() != 0 {
                let c1 = last_of(arr.as_str());
                if c1.is_some() {
                    arr = drop_last_char(arr.as_str());
                }
                if c1 != Some('}') {
                    let c2 = last_of(arr.as_str());
                    if c2.is_some() {
                        arr = drop_last_char(arr.as_str());
                    }
                    if c2 != Some('}') {
                        return self.err(" You forgot to close a bracket.");
                    }
                }
                while last_of(arr.as_str()) == Some('}') || last_of(arr.as_str()) == Some(' ')
                    invariant
                        whole_functions(old(self).functions@) ==> whole_functions(self.functions@),
                    decreases arr@.len(),
                {
                    arr = drop_last_char(arr.as_str());
                }
                let val_vec = split(arr.as_str(), ",");
                if val_vec.len() > data.0 as usize {
                    let mut e = self.error_msg();
                    push_str(&mut e, " You put ");
                    push_nat(&mut e, val_vec.len() as u128);
                    push_str(&mut e, " values between bracket when ");
                    push_nat(&mut e, data.0 as u128);
                    push_str(&mut e, " at maximum was attempt.");
                    return Some(Err(e));
                }
                let mut j: usize = 0;
                while j < val_vec.len()
                    invariant
                        whole_functions(old(self).functions@) ==> whole_functions(self.functions@),
                        fuel > 0,
                        val_vec@.len() <= data.0,
                    decreases val_vec.len() - j,
                {
                    let v = trim_str(val_vec[j].as_str());
                    match self.put_res_in_rax(v.as_str(), type_var.stars, fuel - 1) {
                        None => {
                            return None;
                        },
                        Some(Err(e)) => {
                            return Some(Err(e));
                        },
                        Some(Ok(())) => {},
                    }
                    let (_l, _s, reg, _m) = size_info(s)?;
                    let a1 = i.checked_mul(s)?;
                    let a2 = a1.checked_mul(data.0)?;
                    let a3 = a2.checked_add(data.1)?;
                    let a4 = s.checked_mul(j as u32)?;
                    let at = a3.checked_add(a4)?;
                    let mut t = copy_str("mov [_stack+r15+ ");
                    push_nat(&mut t, at as u128);
                    push_str(&mut t, "], ");
                    push_str(&mut t, reg);
                    push_str(&mut t, "\n");
                    self.push_txt(t.as_str())?;
                    j = j + 1;
                }
                i = i.checked_add(1)?;
            }
            k = k + 1;
        }
        Some(Ok(()))
    }

    /// `break`: jumps to the end of the innermost loop.
    fn break_keyword(&mut self, rest_of_line: &str) -> (r: Option<Result<(), String>>)
        ensures
            whole_functions(old(self).functions@) ==> whole_functions(final(self).functions@),
            crate::text::spec_trim(rest_of_line@).len() != 0 ==> *final(self) == *old(self) && (r matches Some(Err(e))
                && e@ == crate::expression::spec_error_msg(old(self).hammer) + " we found text after the "@ + "break"@
                + " keyword: "@ + rest_of_line@),
            crate::text::spec_trim(rest_of_line@).len() == 0 && old(self).progs@.len() > 0
                && old(self).progs@.last().loop_index_stack@.len() == 0 ==> *final(self) == *old(self) && (r matches Some(
                Err(e),
            ) && e@ == crate::expression::spec_error_msg(old(self).hammer)
                + " You can't use the break keyword outside of a loop bloc."@),
            crate::text::spec_trim(rest_of_line@).len() == 0 && writing(*old(self))
                && old(self).progs@.last().loop_index_stack@.len() > 0 ==> r == Some(Ok::<(), String>(())) && wrote(
                *old(self),
                *final(self),
                "jmp _end_loop_"@ + crate::text::nat_digits(old(self).progs@.last().loop_index_stack@.last() as nat) + "\n"@,
            ),
    {
        match no_txt_after_keyword(&self.hammer, rest_of_line, "break") {
            Err(e) => {
                return Some(Err(e));
            },
            Ok(()) => {},
        }
        let n = self.progs.len();
        if n == 0 {
            return None;
        }
        let m = self.progs[n - 1].loop_index_stack.len();
        if m == 0 {
            return self.err(" You can't use the break keyword outside of a loop bloc.");
        }
        let idx = self.progs[n - 1].loop_index_stack[m - 1];
        self.push_txt(cat_num("jmp _end_loop_", idx as u128, "\n").as_str())?;
        Some(Ok(()))
    }

    /// `continue`: jumps to the start of the innermost loop.
    fn continue_keyword(&mut self, rest_of_line: &str) -> (r: Option<Result<(), String>>)
        ensures
            whole_functions(old(self).functions@) ==> whole_functions(final(self).functions@),
            crate::text::spec_trim(rest_of_line@).len() != 0 ==> *final(self) == *old(self) && (r matches Some(Err(e))
                && e@ == crate::expression::spec_error_msg(old(self).hammer) + " we found text after the "@ + "continue"@
                + " keyword: "@ + rest_of_line@),
            crate::text::spec_trim(rest_of_line@).len() == 0 && old(self).progs@.len() > 0
                && old(self).progs@.last().loop_index_stack@.len() == 0 ==> *final(self) == *old(self) && (r matches Some(
                Err(e),
            ) && e@ == crate::expression::spec_error_msg(old(self).hammer)
                + " You can't use the continue keyword outside of a loop bloc."@),
            crate::text::spec_trim(rest_of_line@).len() == 0 && writing(*old(self))
                && old(self).progs@.last().loop_index_stack@.len() > 0 ==> r == Some(Ok::<(), String>(())) && wrote(
                *old(self),
                *final(self),
                "jmp _loop_"@ + crate::text::nat_digits(old(self).progs@.last().loop_index_stack@.last() as nat) + "\n"@,
            ),
    {
        match no_txt_after_keyword(&self.hammer, rest_of_line, "continue") {
            Err(e) => {
                return Some(Err(e));
            },
            Ok(()) => {},
        }
        let n = self.progs.len();
        if n == 0 {
            return None;
        }
        let m = self.progs[n - 1].loop_index_stack.len();
        if m == 0 {
            return self.err(" You can't use the continue keyword outside of a loop bloc.");
        }
        let idx = self.progs[n - 1].loop_index_stack[m - 1];
        self.push_txt(cat_num("jmp _loop_", idx as u128, "\n").as_str())?;
        Some(Ok(()))
    }

    /// `return e`: the value of `e`, of the function's return type, then a
    /// return.
    fn return_keyword(&mut self, rest_of_line: &str, fuel: u32) -> (r: Option<Result<(), String>>)
        ensures
            whole_functions(old(self).functions@) ==> whole_functions(final(self).functions@),
        decreases fuel,
    {
        if fuel == 0 {
            return None;
        }
        let n = self.progs.len();
        if n == 0 {
            return None;
        }
        if self.progs[n - 1].txt_stack.len() == 1 {
            return self.err(" You can't use the return keyword outside of a function.");
        }
        let nb = match &self.hammer.type_return {
            Some(t) => t.stars,
            None => {
                return None;
            },
        };
        match self.put_res_in_rax(rest_of_line, nb, fuel - 1) {
            None => {
                return None;
            },
            Some(Err(e)) => {
                return Some(Err(e));
            },
            Some(Ok(())) => {},
        }
        self.push_txt("ret\n")?;
        Some(Ok(()))
    }

    /// `loop`: a loop without condition.
    fn loop_keyword(&mut self) -> (r: Option<Result<(), String>>)
        ensures
            whole_functions(old(self).functions@) ==> whole_functions(final(self).functions@),
            writing(*old(self)) && old(self).blocs_index < u32::MAX ==> ({
                let b = crate::text::nat_digits(old(self).blocs_index as nat);
                &&& r == Some(Ok::<(), String>(()))
                &&& current_txt(*final(self)) == current_txt(*old(self)) + "_loop_"@ + b + ":\n"@
                &&& final(self).progs@.last().loop_index_stack@ == old(self).progs@.last().loop_index_stack@.push(old(self).blocs_index)
                &&& final(self).jumps@.len() == old(self).jumps@.len() + 1
                &&& final(self).jumps@.last().bloc_index == old(self).blocs_index
                &&& final(self).jumps@.last().stack_index == old(self).hammer.stack_index
                &&& (final(self).jumps@.last().action matches JumpAction::EndOfBloc(t) && t@ == "jmp _loop_"@ + b
                    + "\n_end_loop_"@ + b + ":\n"@)
                &&& final(self).blocs_index == old(self).blocs_index + 1
            }),
    {
        let b = self.blocs_index;
        self.new_loop(b)?;
        let mut t = cat_num("jmp _loop_", b as u128, "\n_end_loop_");
        push_nat(&mut t, b as u128);
        push_str(&mut t, ":\n");
        self.jump_in(t)?;
        Some(Ok(()))
    }

    /// `if c`: skips the block when `c` is zero.
    fn if_keyword(&mut self, rest_of_line: &str, fuel: u32) -> (r: Option<Result<(), String>>)
        ensures
            whole_functions(old(self).functions@) ==> whole_functions(final(self).functions@),
        decreases fuel,
    {
        if fuel == 0 {
            return None;
        }
        match self.put_res_in_rax(rest_of_line, ANY_STARS, fuel - 1) {
            None => {
                return None;
            },
            Some(Err(e)) => {
                return Some(Err(e));
            },
            Some(Ok(())) => {},
        }
        let b = self.blocs_index;
        self.push_txt(cat_num("cmp rax, 0\nje _end_condition_", b as u128, "\n").as_str())?;
        let n = self.progs.len();
        if n == 0 {
            return None;
        }
        self.progs[n - 1].cond_index_stack.push(b);
        let mut t = cat_num("jmp _real_end_condition_", b as u128, "\n_end_condition_");
        push_nat(&mut t, b as u128);
        push_str(&mut t, ":\n_real_end_condition_");
        push_nat(&mut t, b as u128);
        push_str(&mut t, ":\n");
        self.jump_in(t)?;
        Some(Ok(()))
    }

    /// `else` or `else if c`: the previous condition's end moves after this
    /// block.
    fn else_keyword(&mut self, rest_of_line: &str, fuel: u32) -> (r: Option<Result<(), String>>)
        ensures
            whole_functions(old(self).functions@) ==> whole_functions(final(self).functions@),
        decreases fuel,
    {
        if fuel == 0 {
            return None;
        }
        let n = self.progs.len();
        if n == 0 {
            return None;
        }
        let m = self.progs[n - 1].cond_index_stack.len();
        if m == 0 {
            return None;
        }
        let c = self.progs[n - 1].cond_index_stack[m - 1];
        let pat = cat_num("_real_end_condition_", c as u128, ":\n");
        proof {
            reveal_strlit("_real_end_condition_");
        }
        assert(pat@.len() > 0);
        self.replace_txt(pat.as_str(), "")?;
        let end_txt;
        if rest_of_line.unicode_len() != 0 {
            let b = self.blocs_index;
            let mut t = cat_num("jmp _real_end_condition_", c as u128, "\n_end_condition_");
            push_nat(&mut t, b as u128);
            push_str(&mut t, ":\n_real_end_condition_");
            push_nat(&mut t, c as u128);
            push_str(&mut t, ":\n");
            end_txt = t;
            let first_word = first_piece(rest_of_line, " ");
            if str_eq(first_word.as_str(), "if") {
                let cond = skip_chars(rest_of_line, 2);
                match self.put_res_in_rax(cond.as_str(), ANY_STARS, fuel - 1) {
                    None => {
                        return None;
                    },
                    Some(Err(e)) => {
                        return Some(Err(e));
                    },
                    Some(Ok(())) => {},
                }
                let b2 = self.blocs_index;
                self.push_txt(cat_num("cmp rax, 0\nje _end_condition_", b2 as u128, "\n").as_str())?;
            } else {
                let mut e = self.error_msg();
                push_str(&mut e, " We found ");
                push_str(&mut e, first_word.as_str());
                push_str(&mut e, " when nothing or the if keyword was attempt.");
                return Some(Err(e));
            }
        } else {
            end_txt = cat_num("_real_end_condition_", c as u128, ":\n");
            let n2 = self.progs.len();
            if n2 == 0 {
                return None;
            }
            self.progs[n2 - 1].cond_index_stack.pop();
        }
        self.jump_in(end_txt)?;
        Some(Ok(()))
    }

    /// `while c`: a loop left when `c` is zero.
    fn while_keyword(&mut self, rest_of_line: &str, fuel: u32) -> (r: Option<Result<(), String>>)
        ensures
            whole_functions(old(self).functions@) ==> whole_functions(final(self).functions@),
        decreases fuel,
    {
        if fuel == 0 {
            return None;
        }
        let b = self.blocs_index;
        self.new_loop(b)?;
        match self.put_res_in_rax(rest_of_line, ANY_STARS, fuel - 1) {
            None => {
                return None;
            },
            Some(Err(e)) => {
                return Some(Err(e));
            },
            Some(Ok(())) => {},
        }
        let b2 = self.blocs_index;
        self.push_txt(cat_num("cmp rax, 0\nje _end_loop_", b2 as u128, "\n").as_str())?;
        let mut t = cat_num("jmp _loop_", b2 as u128, "\n_end_loop_");
        push_nat(&mut t, b2 as u128);
        push_str(&mut t, ":\n");
        self.jump_in(t)?;
        Some(Ok(()))
    }

    /// `func name(type arg, ...) -> type`: opens the function's block and
    /// text, declares its arguments and the function.
    fn func_keyword(&mut self, line: &str) -> (r: Option<Result<(), String>>)
        ensures
            whole_functions(old(self).functions@) ==> whole_functions(final(self).functions@),
    {
        if self.hammer.type_return.is_some() {
            return self.err(" You can't define a function in a function.");
        }
        let split_par = split(line, "(");
        if split_par.len() != 2 {
            return self.err(" Syntax error.");
        }
        let func_name = copy_str(split_par[0].as_str());
        match self.hammer.is_valid_name(func_name.as_str()) {
            Err(e) => {
                return Some(Err(e));
            },
            Ok(()) => {},
        }
        let split_par2 = split(split_par[1].as_str(), ")");
        if split_par2.len() != 2 {
            return self.err(" Bad parenthesis.");
        }
        let mut args: Vec<VariableDefinition> = Vec::new();
        let elts = split(split_par2[0].as_str(), ",");
        let mut k: usize = 0;
        while k < elts.len()
            invariant
                whole_functions(old(self).functions@) ==> whole_functions(self.functions@),
            decreases elts.len() - k,
        {
            let full_elt = elts[k].as_str();
            if args.len() == 0 && full_elt.unicode_len() == 0 {
                break;
            }
            let t = trim_str(full_elt);
            let split_elt = split(t.as_str(), " ");
            if split_elt.len() != 2 {
                let mut e = self.error_msg();
                push_str(&mut e, " We found ");
                push_str(&mut e, full_elt);
                push_str(&mut e, " when a variable definition was attempt.");
                return Some(Err(e));
            }
            let name_arg = trim_str(split_elt[1].as_str());
            match self.hammer.is_valid_name(name_arg.as_str()) {
                Err(e) => {
                    return Some(Err(e));
                },
                Ok(()) => {},
            }
            let mut tname = trim_str(split_elt[0].as_str());
            let type_var = match self.type_of(&mut tname) {
                None => {
                    return None;
                },
                Some(Err(e)) => {
                    return Some(Err(e));
                },
                Some(Ok(t)) => t,
            };
            args.push(VariableDefinition { name: name_arg, type_var });
            k = k + 1;
        }
        let split_arrow = split(split_par2[1].as_str(), "->");
        if split_arrow.len() != 2 || trim_str(split_arrow[0].as_str()).unicode_len() != 0 {
            let mut e = self.error_msg();
            push_str(&mut e, " Incorrect type return definition for the function ");
            push_str(&mut e, func_name.as_str());
            push_str(&mut e, ".");
            return Some(Err(e));
        }
        let n = self.progs.len();
        if n == 0 {
            return None;
        }
        self.progs[n - 1].txt_stack.push(new_string());
        self.jumps.push(Jump {
            stack_index: self.hammer.stack_index,
            action: JumpAction::EndOfFunc(copy_str(func_name.as_str())),
            bloc_index: self.blocs_index,
        });
        self.hammer.jump_vars.push(Vec::new());
        self.hammer.stack_index = 0;
        if self.blocs_index == u32::MAX {
            return None;
        }
        self.blocs_index = self.blocs_index + 1;
        let mut a: usize = 0;
        while a < args.len()
            invariant
                whole_functions(old(self).functions@) ==> whole_functions(self.functions@),
                self.hammer.jump_vars@.len() > 0,
            decreases args.len() - a,
        {
            self.hammer.stack_index.checked_add(args[a].type_var.size)?;
            self.hammer.define_new_var(copy_str(args[a].name.as_str()), args[a].type_var.clone());
            a = a + 1;
        }
        let mut rname = trim_str(split_arrow[1].as_str());
        let rt = match self.type_of(&mut rname) {
            None => {
                return None;
            },
            Some(Err(e)) => {
                return Some(Err(e));
            },
            Some(Ok(t)) => t,
        };
        match self.hammer.define_new_function(func_name, args, rt) {
            Err(e) => Some(Err(e)),
            Ok(()) => Some(Ok(())),
        }
    }
}

} // verus!

verus! {

impl Compiler {
    /// `for init : cond : next`: `init` once, then the loop that checks
    /// `cond` first and runs `next` at each turn after the first.
    fn for_keyword<E: Fn(&str) -> bool, R: Fn(&str) -> Result<String, String>>(
        &mut self,
        rest_of_line: &str,
        file_exists: &E,
        read_file: &R,
        fuel: u32,
    ) -> (r: Option<Result<(), String>>)
        requires
            file_access(file_exists, read_file),
        ensures
            whole_functions(old(self).functions@) ==> whole_functions(final(self).functions@),
        decreases fuel,
    {
        if fuel == 0 {
            return None;
        }
        let split_exp = split(rest_of_line, ":");
        if split_exp.len() != 3 {
            let mut e = self.error_msg();
            push_str(&mut e, " Bad declaration of the for loop, we found ");
            push_nat(&mut e, split_exp.len() as u128);
            push_str(&mut e, " instructions instead of 3.");
            return Some(Err(e));
        }
        let mut first = copy_str(split_exp[0].as_str());
        let mut last = copy_str(split_exp[2].as_str());
        if !ascii_before_eq(first.as_str()) || !ascii_before_eq(last.as_str()) {
            return None;
        }
        setup_inst(&mut first);
        setup_inst(&mut last);
        let b = self.blocs_index;
        let mut t = cat_num("jmp _loop_", b as u128, "\n_end_loop_");
        push_nat(&mut t, b as u128);
        push_str(&mut t, ":\n");
        self.jump_in(t)?;
        match self.handle_instruction(first, file_exists, read_file, fuel - 1) {
            None => {
                return None;
            },
            Some(Err(e)) => {
                return Some(Err(e));
            },
            Some(Ok(())) => {},
        }
        let b1 = self.blocs_index.checked_sub(1)?;
        self.push_txt(cat_num("jmp _loop_", b1 as u128, "_end_start_inst\n").as_str())?;
        let b2 = self.blocs_index.checked_sub(1)?;
        self.new_loop(b2)?;
        match self.handle_instruction(last, file_exists, read_file, fuel - 1) {
            None => {
                return None;
            },
            Some(Err(e)) => {
                return Some(Err(e));
            },
            Some(Ok(())) => {},
        }
        let b3 = self.blocs_index.checked_sub(1)?;
        self.push_txt(cat_num("_loop_", b3 as u128, "_end_start_inst:\n").as_str())?;
        match self.put_res_in_rax(split_exp[1].as_str(), ANY_STARS, fuel - 1) {
            None => {
                return None;
            },
            Some(Err(e)) => {
                return Some(Err(e));
            },
            Some(Ok(())) => {},
        }
        let b4 = self.blocs_index.checked_sub(1)?;
        self.push_txt(cat_num("cmp rax, 0\nje _end_loop_", b4 as u128, "\n").as_str())?;
        Some(Ok(()))
    }

    /// `import file.vu`: a file not compiled yet is compiled in place, the
    /// text written so far going first to the script.
    fn import_keyword<E: Fn(&str) -> bool, R: Fn(&str) -> Result<String, String>>(
        &mut self,
        file: &str,
        file_exists: &E,
        read_file: &R,
        fuel: u32,
    ) -> (r: Option<Result<(), String>>)
        requires
            file_access(file_exists, read_file),
        ensures
            whole_functions(old(self).functions@) ==> whole_functions(final(self).functions@),
            fuel > 0 && !(".vu"@.len() <= file@.len() && file@.subrange(file@.len() - ".vu"@.len(), file@.len() as int)
                == ".vu"@) ==> *final(self) == *old(self) && (r matches Some(Err(e)) && e@
                == crate::expression::spec_error_msg(old(self).hammer) + " You only can import .vu files."@),
            fuel > 0 && (".vu"@.len() <= file@.len() && file@.subrange(file@.len() - ".vu"@.len(), file@.len() as int)
                == ".vu"@) && crate::text::views(old(self).file_compiled@).contains(file@) ==> *final(self) == *old(self) && (r
                == Some(Ok::<(), String>(())) || (r matches Some(Err(e)) && e@ == crate::expression::spec_error_msg(
                old(self).hammer,
            ) + " The file "@ + file@ + " not exists."@)),
        decreases fuel,
    {
        if fuel == 0 {
            return None;
        }
        if !ends_with(file, ".vu") {
            return self.err(" You only can import .vu files.");
        }
        if !file_exists(file) {
            let mut e = self.error_msg();
            push_str(&mut e, " The file ");
            push_str(&mut e, file);
            push_str(&mut e, " not exists.");
            return Some(Err(e));
        }
        let mut k: usize = 0;
        while k < self.file_compiled.len()
            invariant
                whole_functions(old(self).functions@) ==> whole_functions(self.functions@),
                forall|j: int| 0 <= j < k ==> (#[trigger] self.file_compiled@[j])@ != file@,
                ".vu"@.len() <= file@.len() && file@.subrange(file@.len() - ".vu"@.len(), file@.len() as int) == ".vu"@,
                *self == *old(self),
            decreases self.file_compiled.len() - k,
        {
            if str_eq(self.file_compiled[k].as_str(), file) {
                return Some(Ok(()));
            }
            k = k + 1;
        }
        assert(!crate::text::views(self.file_compiled@).contains(file@)) by {
            if crate::text::views(self.file_compiled@).contains(file@) {
                let j = choose|j: int| 0 <= j < self.file_compiled@.len() && crate::text::views(self.file_compiled@)[j] == file@;
                assert(self.file_compiled@[j]@ == file@);
            }
        }
        self.file_compiled.push(copy_str(file));
        let txt = self.pop_current_txt()?;
        push_str(&mut self.script, txt.as_str());
        let n = self.progs.len();
        if n == 0 {
            return None;
        }
        self.progs[n - 1].txt_stack.push(new_string());
        let text = match read_file(file) {
            Ok(t) => t,
            Err(e) => {
                return Some(Err(e));
            },
        };
        self.compile_new_prog(copy_str(file), text.as_str(), file_exists, read_file, fuel - 1)
    }

    /// Compiles another program in place: the one on top is kept, with its
    /// name, line and return type, until the new one ends.
    fn compile_new_prog<E: Fn(&str) -> bool, R: Fn(&str) -> Result<String, String>>(
        &mut self,
        prog_name: String,
        txt: &str,
        file_exists: &E,
        read_file: &R,
        fuel: u32,
    ) -> (r: Option<Result<(), String>>)
        requires
            file_access(file_exists, read_file),
        ensures
            whole_functions(old(self).functions@) ==> whole_functions(final(self).functions@),
        decreases fuel,
    {
        if fuel == 0 {
            return None;
        }
        let tr = match &self.hammer.type_return {
            Some(t) => Some(t.clone()),
            None => None,
        };
        self.saved.push((copy_str(self.hammer.prog_name.as_str()), self.hammer.line, tr));
        self.hammer.prog_name = prog_name;
        self.hammer.line = 1;
        self.hammer.type_return = None;
        self.progs.push(Program::new(txt));
        self.jumps.push(Jump { stack_index: self.hammer.stack_index, action: JumpAction::EndProg, bloc_index: self.blocs_index });
        self.hammer.jump_vars.push(Vec::new());
        self.instruct_loop(file_exists, read_file, fuel - 1)
    }

    /// Calls the keyword `name` on the rest of the line.
    fn call_keyword<E: Fn(&str) -> bool, R: Fn(&str) -> Result<String, String>>(
        &mut self,
        name: &str,
        rest_of_line: &str,
        file_exists: &E,
        read_file: &R,
        fuel: u32,
    ) -> (r: Option<Result<(), String>>)
        requires
            file_access(file_exists, read_file),
        ensures
            whole_functions(old(self).functions@) ==> whole_functions(final(self).functions@),
        decreases fuel,
    {
        if fuel == 0 {
            return None;
        }
        if str_eq(name, "break") {
            self.break_keyword(rest_of_line)
        } else if str_eq(name, "continue") {
            self.continue_keyword(rest_of_line)
        } else if str_eq(name, "if") {
            self.if_keyword(rest_of_line, fuel - 1)
        } else if str_eq(name, "else") {
            self.else_keyword(rest_of_line, fuel - 1)
        } else if str_eq(name, "loop") {
            self.loop_keyword()
        } else if str_eq(name, "while") {
            self.while_keyword(rest_of_line, fuel - 1)
        } else if str_eq(name, "func") {
            self.func_keyword(rest_of_line)
        } else if str_eq(name, "return") {
            self.return_keyword(rest_of_line, fuel - 1)
        } else if str_eq(name, "for") {
            self.for_keyword(rest_of_line, file_exists, read_file, fuel - 1)
        } else if str_eq(name, "import") {
            self.import_keyword(rest_of_line, file_exists, read_file, fuel - 1)
        } else {
            None
        }
    }

    /// One instruction without brackets: a declaration (with its
    /// assignment), a call of a function, a macro (`!`), a keyword or an
    /// assignment.
    fn handle_instruction<E: Fn(&str) -> bool, R: Fn(&str) -> Result<String, String>>(
        &mut self,
        inst: String,
        file_exists: &E,
        read_file: &R,
        fuel: u32,
    ) -> (r: Option<Result<(), String>>)
        requires
            file_access(file_exists, read_file),
        ensures
            whole_functions(old(self).functions@) ==> whole_functions(final(self).functions@),
        decreases fuel,
    {
        if fuel == 0 {
            return None;
        }
        let line_split = split(inst.as_str(), " ");
        if line_split.len() == 0 {
            return None;
        }
        let mut first = copy_str(line_split[0].as_str());
        match self.type_of(&mut first) {
            None => None,
            Some(Ok(t)) => {
                let mut type_var = t;
                match self.dec_new_var(&line_split, &mut type_var) {
                    None => {
                        return None;
                    },
                    Some(Err(e)) => {
                        return Some(Err(e));
                    },
                    Some(Ok(_)) => {},
                }
                if contains_str(inst.as_str(), "=") {
                    let rest = join_from(&line_split, 1, " ");
                    return self.handle_affectation(rest.as_str(), fuel - 1);
                }
                Some(Ok(()))
            },
            Some(Err(_)) => {
                let fname = first_piece(first.as_str(), "(");
                if self.hammer.func_exists(fname.as_str()) {
                    self.handle_func_call(inst, fuel - 1)
                } else if starts_with(inst.as_str(), "!") {
                    let m = skip_chars(inst.as_str(), 1);
                    self.handle_macros_call(m, fuel - 1)
                } else if keyword_exists(first.as_str()) {
                    let rest = join_from(&line_split, 1, " ");
                    self.call_keyword(first.as_str(), rest.as_str(), file_exists, read_file, fuel - 1)
                } else if contains_str(inst.as_str(), "=") {
                    self.handle_affectation(inst.as_str(), fuel - 1)
                } else if inst.unicode_len() != 0 {
                    self.err(" Syntax error")
                } else {
                    Some(Ok(()))
                }
            },
        }
    }

    /// What stands before a `{`: a keyword opening its block, nothing (a
    /// bare block), or the declaration of an array filled by the values that
    /// follow. The rest of the line, left to read (nothing after an array).
    fn annalyse_inst_behind_bracket<E: Fn(&str) -> bool, R: Fn(&str) -> Result<String, String>>(
        &mut self,
        inst: &str,
        rest_of_inst: String,
        file_exists: &E,
        read_file: &R,
        fuel: u32,
    ) -> (r: Option<Result<String, String>>)
        requires
            file_access(file_exists, read_file),
        ensures
            whole_functions(old(self).functions@) ==> whole_functions(final(self).functions@),
        decreases fuel,
    {
        if fuel == 0 {
            return None;
        }
        let first_word = first_piece(inst, " ");
        if keyword_exists(first_word.as_str()) {
            let after = skip_chars(inst, first_word.unicode_len());
            let arg = trim_str(after.as_str());
            match self.call_keyword(first_word.as_str(), arg.as_str(), file_exists, read_file, fuel - 1) {
                None => {
                    return None;
                },
                Some(Err(e)) => {
                    return Some(Err(e));
                },
                Some(Ok(())) => {},
            }
        } else if inst.unicode_len() == 0 {
            self.jump_in(new_string())?;
        } else if ends_with(inst, "=") {
            match self.direct_dec_tab(inst, rest_of_inst.as_str(), fuel - 1) {
                None => {
                    return None;
                },
                Some(Err(e)) => {
                    return Some(Err(e));
                },
                Some(Ok(())) => {},
            }
            return Some(Ok(new_string()));
        } else {
            let mut e = self.error_msg();
            push_str(&mut e, " Syntax error, we found ");
            push_str(&mut e, inst);
            push_str(&mut e, " behind brackets.");
            return Some(Err(e));
        }
        Some(Ok(rest_of_inst))
    }

    /// Replaces the instruction being read by the top program.
    fn set_inst(&mut self, s: String) -> (r: Option<()>)
        ensures
            whole_functions(old(self).functions@) ==> whole_functions(final(self).functions@),
    {
        let n = self.progs.len();
        if n == 0 {
            return None;
        }
        let i = self.progs[n - 1].inst_index;
        if i >= self.progs[n - 1].inst_vec.len() {
            return None;
        }
        self.progs[n - 1].inst_vec.set(i, s);
        Some(())
    }

    /// Reads the instruction of the top program once: its line feeds are
    /// counted and dropped; a leading `}` closes a block, a `{` opens one
    /// (what stands before it is read, and the rest stays to read), and
    /// any other instruction is compiled and the next one comes.
    fn step_instruction<E: Fn(&str) -> bool, R: Fn(&str) -> Result<String, String>>(
        &mut self,
        file_exists: &E,
        read_file: &R,
        fuel: u32,
    ) -> (r: Option<Result<(), String>>)
        requires
            file_access(file_exists, read_file),
        ensures
            whole_functions(old(self).functions@) ==> whole_functions(final(self).functions@),
        decreases fuel,
    {
        if fuel == 0 {
            return None;
        }
        let n = self.progs.len();
        if n == 0 {
            return None;
        }
        let idx = self.progs[n - 1].inst_index;
        if idx >= self.progs[n - 1].inst_vec.len() {
            return None;
        }
        let inst = copy_str(self.progs[n - 1].inst_vec[idx].as_str());
        let nb = count_char(inst.as_str(), '\n');
        self.hammer.line = self.hammer.line.checked_add(nb)?;
        proof {
            reveal_strlit("\n");
        }
        let flat = replace_str(inst.as_str(), "\n", "");
        let inst2 = trim_str(flat.as_str());
        self.set_inst(copy_str(inst2.as_str()))?;
        if starts_with(inst2.as_str(), "}") {
            self.set_inst(skip_chars(inst2.as_str(), 1))?;
            self.jump_out()?;
            Some(Ok(()))
        } else if contains_str(inst2.as_str(), "{") {
            let pieces = split(inst2.as_str(), "{");
            if pieces.len() == 0 {
                return None;
            }
            let behind = trim_str(pieces[0].as_str());
            let rest = join_from(&pieces, 1, "{");
            match self.annalyse_inst_behind_bracket(behind.as_str(), rest, file_exists, read_file, fuel - 1) {
                None => None,
                Some(Err(e)) => Some(Err(e)),
                Some(Ok(new_inst)) => {
                    self.set_inst(new_inst)?;
                    Some(Ok(()))
                },
            }
        } else {
            let mut inst3 = inst2;
            if !ascii_before_eq(inst3.as_str()) {
                return None;
            }
            setup_inst(&mut inst3);
            self.set_inst(copy_str(inst3.as_str()))?;
            match self.handle_instruction(inst3, file_exists, read_file, fuel - 1) {
                None => {
                    return None;
                },
                Some(Err(e)) => {
                    return Some(Err(e));
                },
                Some(Ok(())) => {},
            }
            let n2 = self.progs.len();
            if n2 == 0 {
                return None;
            }
            let i2 = self.progs[n2 - 1].inst_index;
            self.progs[n2 - 1].inst_index = i2.checked_add(1)?;
            Some(Ok(()))
        }
    }

    /// Reads the top program to its end, then leaves its block.
    fn instruct_loop<E: Fn(&str) -> bool, R: Fn(&str) -> Result<String, String>>(
        &mut self,
        file_exists: &E,
        read_file: &R,
        fuel: u32,
    ) -> (r: Option<Result<(), String>>)
        requires
            file_access(file_exists, read_file),
        ensures
            whole_functions(old(self).functions@) ==> whole_functions(final(self).functions@),
        decreases fuel,
    {
        if fuel == 0 {
            return None;
        }
        let mut budget: u64 = u64::MAX;
        while budget > 0
            invariant
                whole_functions(old(self).functions@) ==> whole_functions(self.functions@),
                file_access(file_exists, read_file),
                fuel > 0,
            decreases budget,
        {
            budget = budget - 1;
            let n = self.progs.len();
            if n == 0 {
                return None;
            }
            let len = self.progs[n - 1].inst_vec.len();
            if len == 0 {
                return None;
            }
            if self.progs[n - 1].inst_index > len - 1 {
                self.jump_out()?;
                return Some(Ok(()));
            }
            match self.step_instruction(file_exists, read_file, fuel - 1) {
                None => {
                    return None;
                },
                Some(Err(e)) => {
                    return Some(Err(e));
                },
                Some(Ok(())) => {},
            }
        }
        None
    }
}

/// Compiles the program `prog_name` of text `input`; `file_exists` and
/// `read_file` answer for the files it imports. The text written to the
/// script file and to the functions file, and whether the compilation
/// succeeded (what was written before an error stays written). `None` where
/// the program cannot be compiled at all.
pub fn compile_txt<E: Fn(&str) -> bool, R: Fn(&str) -> Result<String, String>>(
    prog_name: String,
    input: &str,
    file_exists: &E,
    read_file: &R,
) -> (r: Option<(String, String, Result<(), String>)>)
    requires
        file_access(file_exists, read_file),
    ensures
        r matches Some((script, functions, res)) ==> whole_functions(functions@),
{
    let mut c = Compiler::new(prog_name, input);
    let res = c.instruct_loop(file_exists, read_file, u32::MAX)?;
    Some((c.script, c.functions, res))
}

} // verus!
