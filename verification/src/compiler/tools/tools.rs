//! Operators of the language, their priorities and codes, the conversion of an
//! expression to postfix order, and small text helpers.
use vstd::prelude::*;
use crate::tools::name_chars;
use crate::text::{
    spec_split_any, split_any, views, byte_len, byte_len_upto, chars_of, string_of, copy_str,
    new_string, push_char, str_eq, contains_char,
};

verus! {

/// The operators of the language.
pub open spec fn spec_operators() -> Seq<Seq<char>> {
    seq![
        "+"@, "-"@, "*"@, "/"@, "%"@, "||"@, "&&"@, "=="@, "!="@, "<"@, ">"@, "<="@, ">="@,
    ]
}

/// Whether `x` is an operator of the language.
pub open spec fn spec_is_operator(x: Seq<char>) -> bool {
    spec_operators().contains(x) && x.len() != 0
}

/// The priority of an operator or a parenthesis (higher binds tighter).
pub open spec fn spec_priority(op: Seq<char>) -> Option<u8> {
    if op == "+"@ || op == "-"@ {
        Some(3)
    } else if op == "%"@ || op == "*"@ || op == "/"@ || op == ")"@ {
        Some(4)
    } else if op == "("@ {
        Some(5)
    } else if op == "<"@ || op == "<="@ || op == ">"@ || op == ">="@ || op == "=="@ || op == "!="@ {
        Some(2)
    } else if op == "||"@ || op == "&&"@ {
        Some(1)
    } else {
        None
    }
}

/// The one-number code of an operator, as the operation routine reads it.
pub open spec fn spec_ascii_val(op: Seq<char>) -> Option<i32> {
    if op == "+"@ {
        Some(43)
    } else if op == "-"@ {
        Some(45)
    } else if op == "*"@ {
        Some(42)
    } else if op == "/"@ {
        Some(47)
    } else if op == "%"@ {
        Some(37)
    } else if op == "<"@ {
        Some(60)
    } else if op == ">"@ {
        Some(62)
    } else if op == "=="@ {
        Some(61)
    } else if op == "||"@ {
        Some(124)
    } else if op == "&&"@ {
        Some(38)
    } else if op == "!="@ {
        Some(64)
    } else if op == "<="@ {
        Some(59)
    } else if op == ">="@ {
        Some(63)
    } else {
        None
    }
}

/// The operator that a code stands for.
pub open spec fn spec_operator_string(code: i32) -> Option<Seq<char>> {
    if code == 43 {
        Some("+"@)
    } else if code == 45 {
        Some("-"@)
    } else if code == 42 {
        Some("*"@)
    } else if code == 47 {
        Some("/"@)
    } else if code == 37 {
        Some("%"@)
    } else if code == 60 {
        Some("<"@)
    } else if code == 62 {
        Some(">"@)
    } else if code == 61 {
        Some("=="@)
    } else if code == 124 {
        Some("||"@)
    } else if code == 38 {
        Some("&&"@)
    } else if code == 64 {
        Some("!="@)
    } else if code == 59 {
        Some("<="@)
    } else if code == 63 {
        Some(">="@)
    } else {
        None
    }
}

/// The characters allowed in a name: ASCII letters, digits, `-` and `_`.
pub open spec fn name_char(c: char) -> bool {
    ('a' <= c && c <= 'z') || ('A' <= c && c <= 'Z') || ('0' <= c && c <= '9') || c == '-' || c == '_'
}

/// Whether every character of `name` is allowed in a name.
pub open spec fn spec_valid_name(name: Seq<char>) -> bool {
    forall|i: int| 0 <= i < name.len() ==> name_char(#[trigger] name[i])
}

/// The postfix conversion state: the output so far and the operator stack.
pub type PostfixState = (Seq<Seq<char>>, Seq<Seq<char>>);

/// Moves to the output the operators on top of the stack that bind at least
/// as tightly as priority `p`, stopping at a parenthesis.
pub open spec fn pop_while_prio(out: Seq<Seq<char>>, stack: Seq<Seq<char>>, p: u8) -> PostfixState
    decreases stack.len(),
{
    if stack.len() > 0 && stack.last() != "("@ && spec_priority(stack.last()) is Some
        && spec_priority(stack.last())->0 >= p {
        pop_while_prio(out.push(stack.last()), stack.drop_last(), p)
    } else {
        (out, stack)
    }
}

/// Moves to the output the operators above the last opening parenthesis;
/// `None` when there is none.
pub open spec fn pop_until_paren(out: Seq<Seq<char>>, stack: Seq<Seq<char>>) -> Option<PostfixState>
    decreases stack.len(),
{
    if stack.len() == 0 {
        None
    } else if stack.last() == "("@ {
        Some((out, stack))
    } else {
        pop_until_paren(out.push(stack.last()), stack.drop_last())
    }
}

/// One element of the infix expression read.
pub open spec fn postfix_step(st: PostfixState, e: Seq<char>) -> Option<PostfixState> {
    if spec_is_operator(e) {
        let (o, s) = pop_while_prio(st.0, st.1, spec_priority(e)->0);
        Some((o, s.push(e)))
    } else if e == ")"@ {
        match pop_until_paren(st.0, st.1) {
            Some((o, s)) => Some((o, s.drop_last())),
            None => None,
        }
    } else if e == "("@ {
        Some((st.0, st.1.push(e)))
    } else {
        Some((st.0.push(e), st.1))
    }
}

/// The state once the first `n` elements are read; `None` when a closing
/// parenthesis has no opening one.
pub open spec fn postfix_run(exp: Seq<Seq<char>>, n: int) -> Option<PostfixState>
    decreases n,
{
    if n <= 0 {
        Some((seq![], seq![]))
    } else {
        match postfix_run(exp, n - 1) {
            Some(st) => postfix_step(st, exp[n - 1]),
            None => None,
        }
    }
}

/// The output followed by the stack emptied from its top.
pub open spec fn flush(out: Seq<Seq<char>>, stack: Seq<Seq<char>>) -> Seq<Seq<char>>
    decreases stack.len(),
{
    if stack.len() == 0 {
        out
    } else {
        flush(out.push(stack.last()), stack.drop_last())
    }
}

/// The postfix form of an infix expression (shunting-yard).
pub open spec fn spec_postfix(exp: Seq<Seq<char>>) -> Option<Seq<Seq<char>>> {
    match postfix_run(exp, exp.len() as int) {
        Some((o, s)) => Some(flush(o, s)),
        None => None,
    }
}

/// An operand: neither an operator nor a parenthesis.
pub open spec fn is_operand(e: Seq<char>) -> bool {
    !spec_is_operator(e) && e != "("@ && e != ")"@
}

/// The operands of an expression, in order.
pub open spec fn operands(exp: Seq<Seq<char>>) -> Seq<Seq<char>>
    decreases exp.len(),
{
    if exp.len() == 0 {
        seq![]
    } else if is_operand(exp.last()) {
        operands(exp.drop_last()).push(exp.last())
    } else {
        operands(exp.drop_last())
    }
}

/// No operand stands in the list.
pub open spec fn no_operand(s: Seq<Seq<char>>) -> bool {
    forall|i: int| 0 <= i < s.len() ==> !is_operand(#[trigger] s[i])
}

/// The operands after one more element.
pub proof fn lemma_operands_push(s: Seq<Seq<char>>, x: Seq<char>)
    ensures
        operands(s.push(x)) == if is_operand(x) { operands(s).push(x) } else { operands(s) },
{
    assert(s.push(x).drop_last() =~= s);
}

/// Moving operators from the stack to the output keeps the operands.
pub proof fn lemma_pop_while_operands(out: Seq<Seq<char>>, stack: Seq<Seq<char>>, p: u8)
    requires
        no_operand(stack),
    ensures
        operands(pop_while_prio(out, stack, p).0) == operands(out),
        no_operand(pop_while_prio(out, stack, p).1),
    decreases stack.len(),
{
    if stack.len() > 0 && stack.last() != "("@ && spec_priority(stack.last()) is Some
        && spec_priority(stack.last())->0 >= p {
        assert(!is_operand(stack[stack.len() - 1]));
        lemma_operands_push(out, stack.last());
        lemma_pop_while_operands(out.push(stack.last()), stack.drop_last(), p);
    }
}

/// Moving the operators above a parenthesis keeps the operands.
pub proof fn lemma_pop_until_paren_operands(out: Seq<Seq<char>>, stack: Seq<Seq<char>>)
    requires
        no_operand(stack),
    ensures
        pop_until_paren(out, stack) matches Some((o, s)) ==> operands(o) == operands(out) && no_operand(s)
            && s.len() > 0,
    decreases stack.len(),
{
    if stack.len() > 0 && stack.last() != "("@ {
        assert(!is_operand(stack[stack.len() - 1]));
        lemma_operands_push(out, stack.last());
        lemma_pop_until_paren_operands(out.push(stack.last()), stack.drop_last());
    }
}

/// Emptying the stack keeps the operands.
pub proof fn lemma_flush_operands(out: Seq<Seq<char>>, stack: Seq<Seq<char>>)
    requires
        no_operand(stack),
    ensures
        operands(flush(out, stack)) == operands(out),
    decreases stack.len(),
{
    if stack.len() > 0 {
        assert(!is_operand(stack[stack.len() - 1]));
        lemma_operands_push(out, stack.last());
        lemma_flush_operands(out.push(stack.last()), stack.drop_last());
    }
}

/// After `n` elements, the output holds the operands read, in order, and the
/// stack holds none.
pub proof fn lemma_postfix_run_operands(exp: Seq<Seq<char>>, n: int)
    requires
        0 <= n <= exp.len(),
    ensures
        postfix_run(exp, n) matches Some((o, s)) ==> operands(o) == operands(exp.subrange(0, n)) && no_operand(s),
    decreases n,
{
    if n > 0 {
        lemma_postfix_run_operands(exp, n - 1);
        assert(exp.subrange(0, n) =~= exp.subrange(0, n - 1).push(exp[n - 1]));
        lemma_operands_push(exp.subrange(0, n - 1), exp[n - 1]);
        match postfix_run(exp, n - 1) {
            Some((o, s)) => {
                let e = exp[n - 1];
                if spec_is_operator(e) {
                    lemma_pop_while_operands(o, s, spec_priority(e)->0);
                    let (o2, s2) = pop_while_prio(o, s, spec_priority(e)->0);
                    assert(no_operand(s2.push(e))) by {
                        assert forall|i: int| 0 <= i < s2.push(e).len() implies !is_operand(#[trigger] s2.push(e)[i]) by {
                            if i < s2.len() {
                                assert(s2.push(e)[i] == s2[i]);
                            }
                        }
                    }
                } else if e == ")"@ {
                    lemma_pop_until_paren_operands(o, s);
                    match pop_until_paren(o, s) {
                        Some((o2, s2)) => {
                            assert(no_operand(s2.drop_last())) by {
                                assert forall|i: int| 0 <= i < s2.drop_last().len() implies !is_operand(#[trigger] s2.drop_last()[i]) by {
                                    assert(s2.drop_last()[i] == s2[i]);
                                }
                            }
                        },
                        None => {},
                    }
                } else if e == "("@ {
                    assert(no_operand(s.push(e))) by {
                        assert forall|i: int| 0 <= i < s.push(e).len() implies !is_operand(#[trigger] s.push(e)[i]) by {
                            if i < s.len() {
                                assert(s.push(e)[i] == s[i]);
                            }
                        }
                    }
                } else {
                    lemma_operands_push(o, e);
                }
            },
            None => {},
        }
    } else {
        assert(exp.subrange(0, 0) =~= Seq::<Seq<char>>::empty());
    }
}

/// The postfix form keeps the operands of the expression, in their order:
/// only the operators and parentheses move.
pub proof fn lemma_postfix_keeps_operands(exp: Seq<Seq<char>>)
    requires
        spec_postfix(exp) is Some,
    ensures
        operands(spec_postfix(exp)->0) == operands(exp),
{
    lemma_postfix_run_operands(exp, exp.len() as int);
    assert(exp.subrange(0, exp.len() as int) =~= exp);
    match postfix_run(exp, exp.len() as int) {
        Some((o, s)) => {
            lemma_flush_operands(o, s);
        },
        None => {},
    }
}

/// `split`: the pieces of `string` between the occurrences of `splitter`.
pub fn split(string: &str, splitter: &str) -> (r: Vec<String>)
    ensures
        views(r@) == spec_split_any(string@, splitter@),
{
    split_any(string, splitter)
}

/// The character that a backslash escape letter stands for.
pub open spec fn spec_one_char(ch: char) -> Option<char> {
    if ch == '0' {
        Some('\0')
    } else if ch == 'n' {
        Some('\n')
    } else if ch == 'r' {
        Some('\r')
    } else {
        None
    }
}

/// The character that a backslash escape letter stands for.
pub fn convert_in_one_char(ch: char) -> (r: Option<char>)
    ensures
        r == spec_one_char(ch),
{
    match ch {
        '0' => Some('\0'),
        'n' => Some('\n'),
        'r' => Some('\r'),
        _ => None,
    }
}

/// Whether `from_char_to_number` would cut `s` inside a character.
pub open spec fn char_literal_cuts(s: Seq<char>) -> bool {
    &&& byte_len(s) > 2
    &&& s[0] == '\''
    &&& s.last() == '\''
    &&& byte_len(s) != 4
    &&& (s[1] as u32) >= 0x80
}

/// The code of a character literal such as `'a'` or `'\n'` (written with the
/// letter of the escape alone between the quotes and a backslash dropped
/// before: four bytes), and the literal as it reads once its escape is
/// replaced; `None` for any other text.
pub open spec fn spec_char_to_number(s: Seq<char>) -> (Option<i8>, Seq<char>) {
    if byte_len(s) <= 2 || s[0] != '\'' || s.last() != '\'' {
        (None, s)
    } else if byte_len(s) == 4 {
        match spec_one_char(s[2]) {
            Some(ch) => (Some(ch as i8), seq!['\'', ch, '\'']),
            None => (None, s),
        }
    } else {
        (Some(s[1] as i8), s)
    }
}

/// Two quotes or a lone quote make at most two bytes.
pub proof fn lemma_short_quoted(s: Seq<char>)
    requires
        0 < s.len() <= 2,
        s[0] == '\'',
        s.last() == '\'',
    ensures
        byte_len(s) <= 2,
{
    reveal_with_fuel(byte_len, 3);
    if s.len() == 2 {
        assert(s.drop_last().last() == s[0]);
        assert(s.drop_last().drop_last().len() == 0);
    } else {
        assert(s.drop_last().len() == 0);
    }
}

/// Reads a character literal; a four-byte literal `'xn'` is an escape, whose
/// letter (the third character) gives the character, and the literal is
/// rewritten to hold that character.
pub fn from_char_to_number(chara: &mut String) -> (r: Option<i8>)
    requires
        !char_literal_cuts(old(chara)@),
    ensures
        r == spec_char_to_number(old(chara)@).0,
        final(chara)@ == spec_char_to_number(old(chara)@).1,
{
    let len = byte_len_upto(chara.as_str(), 4);
    if len <= 2 {
        return None;
    }
    let cs = chars_of(chara.as_str());
    assert(cs@.len() > 0);
    if cs[0] != '\'' || cs[cs.len() - 1] != '\'' {
        return None;
    }
    proof {
        if cs@.len() <= 2 {
            lemma_short_quoted(cs@);
        }
    }
    if len == 4 {
        match convert_in_one_char(cs[2]) {
            Some(ch) => {
                let mut s = new_string();
                push_char(&mut s, '\'');
                push_char(&mut s, ch);
                push_char(&mut s, '\'');
                *chara = s;
                Some(ch as i8)
            },
            None => None,
        }
    } else {
        Some(#[verifier::truncate] (cs[1] as i8))
    }
}

/// The number of copies of `chara` that end `s`.
pub open spec fn trailing_count(s: Seq<char>, chara: char) -> nat
    decreases s.len(),
{
    if s.len() > 0 && s.last() == chara {
        trailing_count(s.drop_last(), chara) + 1
    } else {
        0
    }
}

/// Removes the copies of `chara` that end `s` and counts them.
pub fn extract_end_char(s: &mut String, chara: char) -> (r: u32)
    requires
        trailing_count(old(s)@, chara) <= u32::MAX,
    ensures
        r == trailing_count(old(s)@, chara),
        final(s)@ == old(s)@.subrange(0, old(s)@.len() - trailing_count(old(s)@, chara)),
{
    let mut cs = chars_of(s.as_str());
    let mut result: u32 = 0;
    let ghost s0 = s@;
    while cs.len() > 0 && cs[cs.len() - 1] == chara
        invariant
            cs@ == s0.subrange(0, s0.len() - result),
            result <= s0.len(),
            trailing_count(s0, chara) <= u32::MAX,
            trailing_count(s0, chara) == trailing_count(cs@, chara) + result,
        decreases cs.len(),
    {
        let ghost before = cs@;
        cs.pop();
        assert(cs@ == before.drop_last());
        result = result + 1;
    }
    *s = string_of(&cs);
    result
}

/// The last character of `s`.
pub fn last_char(s: &str) -> (r: char)
    requires
        s@.len() > 0,
    ensures
        r == s@.last(),
{
    s.get_char(s.unicode_len() - 1)
}

/// Integer division rounding towards zero, as Rust computes it.
pub open spec fn trunc_div(a: int, b: int) -> int {
    let q = (if a < 0 { -a } else { a }) / (if b < 0 { -b } else { b });
    if (a < 0) != (b < 0) { -q } else { q }
}

/// The remainder that goes with `trunc_div`.
pub open spec fn trunc_rem(a: int, b: int) -> int {
    a - b * trunc_div(a, b)
}

/// The result of the operation of code `operator` on two values; `None` where
/// it overflows, divides by zero or the code is unknown.
pub open spec fn spec_operation(val1: i64, val2: i64, operator: u8) -> Option<i64> {
    let c = operator as char;
    if c == '@' {
        Some(if val1 != val2 { 1 } else { 0 })
    } else if c == ';' {
        Some(if val1 <= val2 { 1 } else { 0 })
    } else if c == '?' {
        Some(if val1 >= val2 { 1 } else { 0 })
    } else if c == '&' {
        Some(if val1 != 0 && val2 != 0 { 1 } else { 0 })
    } else if c == '|' {
        Some(if val1 != 0 || val2 != 0 { 1 } else { 0 })
    } else if c == '<' {
        Some(if val1 < val2 { 1 } else { 0 })
    } else if c == '>' {
        Some(if val1 > val2 { 1 } else { 0 })
    } else if c == '=' {
        Some(if val1 == val2 { 1 } else { 0 })
    } else if c == '+' {
        if i64::MIN <= val1 + val2 <= i64::MAX { Some((val1 + val2) as i64) } else { None }
    } else if c == '-' {
        if i64::MIN <= val1 - val2 <= i64::MAX { Some((val1 - val2) as i64) } else { None }
    } else if c == '*' {
        if i64::MIN <= val1 * val2 <= i64::MAX { Some((val1 * val2) as i64) } else { None }
    } else if c == '/' {
        if val2 == 0 || (val1 == i64::MIN && val2 == -1) {
            None
        } else {
            Some(trunc_div(val1 as int, val2 as int) as i64)
        }
    } else if c == '%' {
        if val2 == 0 || (val1 == i64::MIN && val2 == -1) {
            None
        } else {
            Some(trunc_rem(val1 as int, val2 as int) as i64)
        }
    } else {
        None
    }
}

/// Truncating quotient and remainder of two 64-bit values.
fn div_rem(a: i64, b: i64) -> (r: (i64, i64))
    requires
        b != 0,
        !(a == i64::MIN && b == -1),
    ensures
        r.0 == trunc_div(a as int, b as int),
        r.1 == trunc_rem(a as int, b as int),
{
    let ua: u64 = if a < 0 { (0 - (a as i128)) as u64 } else { a as u64 };
    let ub: u64 = if b < 0 { (0 - (b as i128)) as u64 } else { b as u64 };
    let q: u64 = ua / ub;
    let ghost aa: int = ua as int;
    let ghost bb: int = ub as int;
    assert(aa == (if a < 0 { -(a as int) } else { a as int }));
    assert(bb == (if b < 0 { -(b as int) } else { b as int }));
    assert(q == aa / bb);
    proof {
        assert(bb >= 1);
        assert(q as int * bb <= aa) by (nonlinear_arith)
            requires q as int == aa / bb, bb >= 1, aa >= 0;
        assert(0 <= aa - bb * (q as int) < bb) by (nonlinear_arith)
            requires q as int == aa / bb, bb >= 1, aa >= 0;
        assert(q as int <= aa) by (nonlinear_arith)
            requires q as int * bb <= aa, bb >= 1, q >= 0;
        if (a < 0) == (b < 0) && aa == 0x8000_0000_0000_0000 {
            assert(bb >= 2);
            assert(q as int * 2 <= aa) by (nonlinear_arith)
                requires q as int * bb <= aa, bb >= 2, q >= 0;
        }
    }
    let qi: i128 = if (a < 0) != (b < 0) { 0 - (q as i128) } else { q as i128 };
    assert(i64::MIN <= qi <= i64::MAX);
    assert(qi == trunc_div(a as int, b as int));
    proof {
        assert((b as int) * (qi as int) == bb * (q as int) || (b as int) * (qi as int) == -(bb * (q as int))) by (nonlinear_arith)
            requires
                qi == q as int || qi == -(q as int),
                bb == b as int || bb == -(b as int);
        assert(0 <= bb * (q as int) <= aa) by (nonlinear_arith)
            requires q as int * bb <= aa, q >= 0, bb >= 1;
    }
    let rem: i128 = (a as i128) - (b as i128) * qi;
    proof {
        assert(-bb < rem < bb) by (nonlinear_arith)
            requires
                0 <= aa - bb * (q as int) < bb,
                rem == a as int - (b as int) * (qi as int),
                (b as int) * (qi as int) == bb * (q as int) || (b as int) * (qi as int) == -(bb * (q as int)),
                aa == a as int || aa == -(a as int),
                (a < 0) != (b < 0) ==> qi == -(q as int),
                (a < 0) == (b < 0) ==> qi == q as int,
                bb == (if b < 0 { -(b as int) } else { b as int }),
                aa == (if a < 0 { -(a as int) } else { a as int });
    }
    (qi as i64, rem as i64)
}

/// Applies the operation of code `operator` to two values.
pub fn operation(val1: i64, val2: i64, operator: u8) -> (r: i64)
    requires
        spec_operation(val1, val2, operator) is Some,
    ensures
        r == spec_operation(val1, val2, operator)->0,
{
    let c = operator as char;
    if c == '@' {
        (val1 != val2) as i64
    } else if c == ';' {
        (val1 <= val2) as i64
    } else if c == '?' {
        (val1 >= val2) as i64
    } else if c == '&' {
        (val1 != 0 && val2 != 0) as i64
    } else if c == '|' {
        (val1 != 0 || val2 != 0) as i64
    } else if c == '<' {
        (val1 < val2) as i64
    } else if c == '>' {
        (val1 > val2) as i64
    } else if c == '=' {
        (val1 == val2) as i64
    } else if c == '+' {
        val1 + val2
    } else if c == '-' {
        val1 - val2
    } else if c == '*' {
        val1 * val2
    } else if c == '/' {
        div_rem(val1, val2).0
    } else {
        div_rem(val1, val2).1
    }
}

/// The operator table of the compiler.
pub struct Tools {
    authorized_char_for_variable: &'static str,
}

impl Tools {
    /// The characters a name may be made of.
    pub closed spec fn authorized_chars(&self) -> Seq<char> {
        self.authorized_char_for_variable@
    }

    /// The table: the letters, digits, `-` and `_` for names.
    pub fn new() -> (r: Tools)
        ensures
            r.authorized_chars() == name_chars(),
    {
        Tools {
            authorized_char_for_variable: "azertyuiopqsdfghjklmwxcvbnAZERTYUIOPQSDFGHJKLMWXCVBN1234567890-_",
        }
    }

    /// Whether every character of `name` is allowed in a name.
    pub fn is_valid_name(&self, name: &str) -> (r: bool)
        ensures
            r == spec_valid_name(name@),
    {
        let n = name.unicode_len();
        let mut i: usize = 0;
        while i < n
            invariant
                0 <= i <= n,
                n == name@.len(),
                forall|j: int| 0 <= j < i ==> name_char(#[trigger] name@[j]),
            decreases n - i,
        {
            let c = name.get_char(i);
            if !(('a' <= c && c <= 'z') || ('A' <= c && c <= 'Z') || ('0' <= c && c <= '9') || c == '-'
                || c == '_') {
                return false;
            }
            i = i + 1;
        }
        true
    }

    /// Whether `x` is an operator of the language.
    pub fn is_operator(&self, x: &str) -> (r: bool)
        ensures
            r == spec_is_operator(x@),
    {
        let r = str_eq(x, "+") || str_eq(x, "-") || str_eq(x, "*") || str_eq(x, "/") || str_eq(x, "%")
            || str_eq(x, "||") || str_eq(x, "&&") || str_eq(x, "==") || str_eq(x, "!=") || str_eq(
            x,
            "<",
        ) || str_eq(x, ">") || str_eq(x, "<=") || str_eq(x, ">=");
        proof {
            reveal_strlit("+");
            reveal_strlit("-");
            reveal_strlit("*");
            reveal_strlit("/");
            reveal_strlit("%");
            reveal_strlit("||");
            reveal_strlit("&&");
            reveal_strlit("==");
            reveal_strlit("!=");
            reveal_strlit("<");
            reveal_strlit(">");
            reveal_strlit("<=");
            reveal_strlit(">=");
            if r {
                assert(spec_operators().contains(x@)) by {
                    if x@ == "+"@ { assert(spec_operators()[0] == x@); }
                    else if x@ == "-"@ { assert(spec_operators()[1] == x@); }
                    else if x@ == "*"@ { assert(spec_operators()[2] == x@); }
                    else if x@ == "/"@ { assert(spec_operators()[3] == x@); }
                    else if x@ == "%"@ { assert(spec_operators()[4] == x@); }
                    else if x@ == "||"@ { assert(spec_operators()[5] == x@); }
                    else if x@ == "&&"@ { assert(spec_operators()[6] == x@); }
                    else if x@ == "=="@ { assert(spec_operators()[7] == x@); }
                    else if x@ == "!="@ { assert(spec_operators()[8] == x@); }
                    else if x@ == "<"@ { assert(spec_operators()[9] == x@); }
                    else if x@ == ">"@ { assert(spec_operators()[10] == x@); }
                    else if x@ == "<="@ { assert(spec_operators()[11] == x@); }
                    else { assert(spec_operators()[12] == x@); }
                }
            } else {
                if spec_operators().contains(x@) {
                    let k = choose|k: int| 0 <= k < spec_operators().len() && spec_operators()[k] == x@;
                    assert(false);
                }
            }
        }
        r
    }

    /// The priority of an operator or parenthesis.
    pub fn priority(&self, op: &str) -> (r: Option<u8>)
        ensures
            r == spec_priority(op@),
    {
        if str_eq(op, "+") || str_eq(op, "-") {
            Some(3)
        } else if str_eq(op, "%") || str_eq(op, "*") || str_eq(op, "/") || str_eq(op, ")") {
            Some(4)
        } else if str_eq(op, "(") {
            Some(5)
        } else if str_eq(op, "<") || str_eq(op, "<=") || str_eq(op, ">") || str_eq(op, ">=") || str_eq(
            op,
            "==",
        ) || str_eq(op, "!=") {
            Some(2)
        } else if str_eq(op, "||") || str_eq(op, "&&") {
            Some(1)
        } else {
            None
        }
    }

    /// The code of an operator.
    pub fn ascii_val(&self, op: &str) -> (r: i32)
        requires
            spec_ascii_val(op@) is Some,
        ensures
            r == spec_ascii_val(op@)->0,
    {
        if str_eq(op, "+") {
            43
        } else if str_eq(op, "-") {
            45
        } else if str_eq(op, "*") {
            42
        } else if str_eq(op, "/") {
            47
        } else if str_eq(op, "%") {
            37
        } else if str_eq(op, "<") {
            60
        } else if str_eq(op, ">") {
            62
        } else if str_eq(op, "==") {
            61
        } else if str_eq(op, "||") {
            124
        } else if str_eq(op, "&&") {
            38
        } else if str_eq(op, "!=") {
            64
        } else if str_eq(op, "<=") {
            59
        } else {
            63
        }
    }

    /// The operator that a code stands for.
    pub fn get_operator_string(&self, op: i32) -> (r: &'static str)
        requires
            spec_operator_string(op) is Some,
        ensures
            r@ == spec_operator_string(op)->0,
    {
        if op == 43 {
            "+"
        } else if op == 45 {
            "-"
        } else if op == 42 {
            "*"
        } else if op == 47 {
            "/"
        } else if op == 37 {
            "%"
        } else if op == 60 {
            "<"
        } else if op == 62 {
            ">"
        } else if op == 61 {
            "=="
        } else if op == 124 {
            "||"
        } else if op == 38 {
            "&&"
        } else if op == 64 {
            "!="
        } else if op == 59 {
            "<="
        } else {
            ">="
        }
    }

    /// The operator that starts with `c1` followed by `c2`: two characters
    /// for `<=`, `>=`, `==`, `!=`, `||` and `&&`, `c1` alone otherwise.
    pub fn get_full_op(&self, c1: char, c2: char) -> (r: String)
        ensures
            r@ == if ((c1 == '<' || c1 == '>' || c1 == '=' || c1 == '!') && c2 == '=') || (c1 == '|'
                && c2 == '|') || (c1 == '&' && c2 == '&') {
                seq![c1, c2]
            } else {
                seq![c1]
            },
    {
        let mut res = new_string();
        push_char(&mut res, c1);
        if ((c1 == '<' || c1 == '>' || c1 == '=' || c1 == '!') && c2 == '=') || (c1 == '|' && c2 == '|')
            || (c1 == '&' && c2 == '&') {
            push_char(&mut res, c2);
        }
        res
    }

    /// Whether `c` may start an operator.
    pub fn can_be_operator(&self, c: char) -> (r: bool)
        ensures
            r == ("!=|&"@.contains(c) || spec_is_operator(seq![c])),
    {
        let mut s = new_string();
        push_char(&mut s, c);
        let r1 = contains_char("!=|&", c);
        let r2 = self.is_operator(s.as_str());
        assert(s@ == seq![c]);
        r1 || r2
    }

    /// Moves to `result` the operators on top of `stack` that bind at least
    /// as tightly as priority `p`.
    fn pop_by_priority(&self, result: &mut Vec<String>, stack: &mut Vec<String>, p: u8)
        ensures
            (views(final(result)@), views(final(stack)@)) == pop_while_prio(
                views(old(result)@),
                views(old(stack)@),
                p,
            ),
        decreases old(stack)@.len(),
    {
        if stack.len() == 0 {
            return;
        }
        let n = stack.len();
        assert(views(stack@).last() == stack@[n - 1]@);
        if str_eq(stack[n - 1].as_str(), "(") {
            return;
        }
        match self.priority(stack[n - 1].as_str()) {
            Some(q) => {
                if q < p {
                    return;
                }
            },
            None => {
                return;
            },
        }
        let ghost vs = stack@;
        let ghost vr = result@;
        let t = stack.pop().unwrap();
        result.push(t);
        assert(views(stack@) == views(vs).drop_last());
        assert(views(result@) == views(vr).push(views(vs).last()));
        self.pop_by_priority(result, stack, p);
    }

    /// Moves to `result` the operators above the last opening parenthesis of
    /// `stack`, and drops that parenthesis.
    fn pop_to_paren(&self, result: &mut Vec<String>, stack: &mut Vec<String>)
        requires
            pop_until_paren(views(old(result)@), views(old(stack)@)) is Some,
        ensures
            ({
                let (o, s) = pop_until_paren(views(old(result)@), views(old(stack)@))->0;
                views(final(result)@) == o && views(final(stack)@) == s.drop_last()
            }),
        decreases old(stack)@.len(),
    {
        let n = stack.len();
        assert(views(stack@).last() == stack@[n - 1]@);
        let ghost vs = stack@;
        let ghost vr = result@;
        if str_eq(stack[n - 1].as_str(), "(") {
            stack.pop();
            assert(views(stack@) == views(vs).drop_last());
            return;
        }
        let t = stack.pop().unwrap();
        result.push(t);
        assert(views(stack@) == views(vs).drop_last());
        assert(views(result@) == views(vr).push(views(vs).last()));
        self.pop_to_paren(result, stack);
    }

    /// Moves every operator left on `stack` to `result`, the top first.
    fn flush_stack(&self, result: &mut Vec<String>, stack: &mut Vec<String>)
        ensures
            views(final(result)@) == flush(views(old(result)@), views(old(stack)@)),
            final(stack)@.len() == 0,
        decreases old(stack)@.len(),
    {
        if stack.len() == 0 {
            return;
        }
        let n = stack.len();
        assert(views(stack@).last() == stack@[n - 1]@);
        let ghost vs = stack@;
        let ghost vr = result@;
        let t = stack.pop().unwrap();
        result.push(t);
        assert(views(stack@) == views(vs).drop_last());
        assert(views(result@) == views(vr).push(views(vs).last()));
        self.flush_stack(result, stack);
    }

    /// The postfix (reverse Polish) form of an infix expression given as a
    /// list of operators, parentheses and operands.
    pub fn convert_in_postfix_exp(&self, exp: Vec<String>) -> (r: Vec<String>)
        requires
            spec_postfix(views(exp@)) is Some,
        ensures
            views(r@) == spec_postfix(views(exp@))->0,
    {
        let ghost e = views(exp@);
        let mut result: Vec<String> = Vec::new();
        let mut stack: Vec<String> = Vec::new();
        let mut i: usize = 0;
        proof {
            lemma_postfix_run_prefix(e, e.len() as int);
            assert(views(result@) =~= seq![]);
            assert(views(stack@) =~= seq![]);
        }
        while i < exp.len()
            invariant
                0 <= i <= exp@.len(),
                e == views(exp@),
                spec_postfix(e) is Some,
                forall|k: int| 0 <= k <= e.len() ==> postfix_run(e, k) is Some,
                postfix_run(e, i as int) == Some((views(result@), views(stack@))),
            decreases exp.len() - i,
        {
            let elt = &exp[i];
            let ghost st = (views(result@), views(stack@));
            assert(e[i as int] == elt@);
            assert(postfix_run(e, i + 1) == postfix_step(st, elt@));
            if self.is_operator(elt.as_str()) {
                proof {
                    lemma_operator_has_priority(elt@);
                }
                let p = self.priority(elt.as_str()).unwrap();
                self.pop_by_priority(&mut result, &mut stack, p);
                let ghost vs = stack@;
                stack.push(copy_str(elt.as_str()));
                assert(views(stack@) == views(vs).push(elt@));
            } else if str_eq(elt.as_str(), ")") {
                proof {
                    reveal_strlit(")");
                }
                self.pop_to_paren(&mut result, &mut stack);
            } else if str_eq(elt.as_str(), "(") {
                let ghost vs = stack@;
                stack.push(copy_str(elt.as_str()));
                assert(views(stack@) == views(vs).push(elt@));
            } else {
                let ghost vr = result@;
                result.push(copy_str(elt.as_str()));
                assert(views(result@) == views(vr).push(elt@));
            }
            i = i + 1;
        }
        self.flush_stack(&mut result, &mut stack);
        result
    }
}

impl Tools {
    /// Moves to `result` the operators above the last opening parenthesis of
    /// `stack` and drops that parenthesis; `false` (and no defined state)
    /// when there is none.
    fn try_pop_to_paren(&self, result: &mut Vec<String>, stack: &mut Vec<String>) -> (ok: bool)
        ensures
            ok == (pop_until_paren(views(old(result)@), views(old(stack)@)) is Some),
            ok ==> ({
                let (o, s) = pop_until_paren(views(old(result)@), views(old(stack)@))->0;
                views(final(result)@) == o && views(final(stack)@) == s.drop_last()
            }),
        decreases old(stack)@.len(),
    {
        let n = stack.len();
        if n == 0 {
            return false;
        }
        assert(views(stack@).last() == stack@[n - 1]@);
        let ghost vs = stack@;
        let ghost vr = result@;
        if str_eq(stack[n - 1].as_str(), "(") {
            stack.pop();
            assert(views(stack@) == views(vs).drop_last());
            return true;
        }
        let t = stack.pop().unwrap();
        result.push(t);
        assert(views(stack@) == views(vs).drop_last());
        assert(views(result@) == views(vr).push(views(vs).last()));
        self.try_pop_to_paren(result, stack)
    }

    /// The postfix form of any infix expression; `None` where a closing
    /// parenthesis has no opening one.
    pub fn checked_convert_in_postfix_exp(&self, exp: Vec<String>) -> (r: Option<Vec<String>>)
        ensures
            match spec_postfix(views(exp@)) {
                Some(p) => r matches Some(v) && views(v@) == p,
                None => r is None,
            },
    {
        let ghost e = views(exp@);
        let mut result: Vec<String> = Vec::new();
        let mut stack: Vec<String> = Vec::new();
        let mut i: usize = 0;
        proof {
            assert(views(result@) =~= seq![]);
            assert(views(stack@) =~= seq![]);
        }
        while i < exp.len()
            invariant
                0 <= i <= exp@.len(),
                e == views(exp@),
                postfix_run(e, i as int) == Some((views(result@), views(stack@))),
            decreases exp.len() - i,
        {
            let elt = &exp[i];
            let ghost st = (views(result@), views(stack@));
            assert(e[i as int] == elt@);
            assert(postfix_run(e, i + 1) == postfix_step(st, elt@));
            if self.is_operator(elt.as_str()) {
                proof {
                    lemma_operator_has_priority(elt@);
                }
                let p = self.priority(elt.as_str()).unwrap();
                self.pop_by_priority(&mut result, &mut stack, p);
                let ghost vs = stack@;
                stack.push(copy_str(elt.as_str()));
                assert(views(stack@) == views(vs).push(elt@));
            } else if str_eq(elt.as_str(), ")") {
                proof {
                    reveal_strlit(")");
                }
                if !self.try_pop_to_paren(&mut result, &mut stack) {
                    proof {
                        lemma_postfix_run_none_stays(e, i + 1, e.len() as int);
                    }
                    return None;
                }
            } else if str_eq(elt.as_str(), "(") {
                let ghost vs = stack@;
                stack.push(copy_str(elt.as_str()));
                assert(views(stack@) == views(vs).push(elt@));
            } else {
                let ghost vr = result@;
                result.push(copy_str(elt.as_str()));
                assert(views(result@) == views(vr).push(elt@));
            }
            i = i + 1;
        }
        self.flush_stack(&mut result, &mut stack);
        Some(result)
    }
}

/// Once a run fails, every longer run fails.
proof fn lemma_postfix_run_none_stays(e: Seq<Seq<char>>, m: int, n: int)
    requires
        0 <= m <= n,
        postfix_run(e, m) is None,
    ensures
        postfix_run(e, n) is None,
    decreases n - m,
{
    if m < n {
        lemma_postfix_run_none_stays(e, m, n - 1);
    }
}

/// Every operator of the language has a priority.
pub proof fn lemma_operator_has_priority(x: Seq<char>)
    requires
        spec_is_operator(x),
    ensures
        spec_priority(x) is Some,
{
    reveal_strlit("+");
    reveal_strlit("-");
    reveal_strlit("*");
    reveal_strlit("/");
    reveal_strlit("%");
    reveal_strlit("||");
    reveal_strlit("&&");
    reveal_strlit("==");
    reveal_strlit("!=");
    reveal_strlit("<");
    reveal_strlit(">");
    reveal_strlit("<=");
    reveal_strlit(">=");
    let k = choose|k: int| 0 <= k < spec_operators().len() && spec_operators()[k] == x;
    assert(0 <= k < 13);
    if k == 0 { assert(x == "+"@); }
    else if k == 1 { assert(x == "-"@); }
    else if k == 2 { assert(x == "*"@); }
    else if k == 3 { assert(x == "/"@); }
    else if k == 4 { assert(x == "%"@); }
    else if k == 5 { assert(x == "||"@); }
    else if k == 6 { assert(x == "&&"@); }
    else if k == 7 { assert(x == "=="@); }
    else if k == 8 { assert(x == "!="@); }
    else if k == 9 { assert(x == "<"@); }
    else if k == 10 { assert(x == ">"@); }
    else if k == 11 { assert(x == "<="@); }
    else { assert(x == ">="@); }
}

/// If the whole run succeeds, every shorter run does.
pub proof fn lemma_postfix_run_prefix(e: Seq<Seq<char>>, n: int)
    requires
        0 <= n,
        postfix_run(e, n) is Some,
    ensures
        forall|k: int| 0 <= k <= n ==> postfix_run(e, k) is Some,
    decreases n,
{
    if n > 0 {
        lemma_postfix_run_prefix(e, n - 1);
    }
}

} // verus!

verus! {

/// `+` and `-` bind less tightly than `*`, `/` and `%`, and an operator of
/// one class is read left to right with one of the same rank: whatever the
/// operands, `a + b * c` becomes `a b c * +` and `a * b + c` becomes
/// `a b * c +` (and so for `-`, `/`, `%`).
pub proof fn lemma_products_bind_tighter(a: Seq<char>, b: Seq<char>, c: Seq<char>, lo: Seq<char>, hi: Seq<char>)
    requires
        is_operand(a),
        is_operand(b),
        is_operand(c),
        lo == "+"@ || lo == "-"@,
        hi == "*"@ || hi == "/"@ || hi == "%"@,
    ensures
        spec_postfix(seq![a, lo, b, hi, c]) == Some(seq![a, b, c, hi, lo]),
        spec_postfix(seq![a, hi, b, lo, c]) == Some(seq![a, b, hi, c, lo]),
        spec_priority(lo) is Some && spec_priority(hi) is Some && spec_priority(lo)->0 < spec_priority(hi)->0,
{
    reveal_strlit("+");
    reveal_strlit("-");
    reveal_strlit("*");
    reveal_strlit("/");
    reveal_strlit("%");
    reveal_strlit("(");
    reveal_strlit(")");
    reveal_strlit("||");
    reveal_strlit("&&");
    reveal_strlit("==");
    reveal_strlit("!=");
    reveal_strlit("<");
    reveal_strlit(">");
    reveal_strlit("<=");
    reveal_strlit(">=");
    assert(spec_operators().contains(lo)) by {
        if lo == "+"@ { assert(spec_operators()[0] == lo); } else { assert(spec_operators()[1] == lo); }
    }
    assert(spec_operators().contains(hi)) by {
        if hi == "*"@ { assert(spec_operators()[2] == hi); }
        else if hi == "/"@ { assert(spec_operators()[3] == hi); }
        else { assert(spec_operators()[4] == hi); }
    }
    assert(lo != "("@ && lo != ")"@ && hi != "("@ && hi != ")"@) by {
        assert(lo[0] != '(' && lo[0] != ')' && hi[0] != '(' && hi[0] != ')');
    }
    let e1 = seq![a, lo, b, hi, c];
    let e2 = seq![a, hi, b, lo, c];
    let pl = spec_priority(lo)->0;
    let ph = spec_priority(hi)->0;
    assert(pl == 3) by {
        if lo == "+"@ {} else { assert(lo != "+"@) by { assert(lo[0] != "+"@[0]); } }
    }
    assert(ph == 4) by {
        assert(hi != "+"@ && hi != "-"@) by { assert(hi[0] != "+"@[0] && hi[0] != "-"@[0]); }
    }
    let em: Seq<Seq<char>> = seq![];
    // a + b * c
    assert(postfix_run(e1, 0) == Some((em, em)));
    assert(postfix_run(e1, 1) == Some((seq![a], em)));
    assert(pop_while_prio(seq![a], em, pl) == (seq![a], em));
    assert(postfix_run(e1, 2) == Some((seq![a], seq![lo])));
    assert(postfix_run(e1, 3) == Some((seq![a, b], seq![lo])));
    assert(seq![lo].drop_last() =~= em);
    assert(pop_while_prio(seq![a, b], seq![lo], ph) == (seq![a, b], seq![lo]));
    assert(postfix_run(e1, 4) == Some((seq![a, b], seq![lo, hi])));
    assert(postfix_run(e1, 5) == Some((seq![a, b, c], seq![lo, hi])));
    assert(seq![lo, hi].drop_last() =~= seq![lo]);
    assert(seq![a, b, c].push(hi) =~= seq![a, b, c, hi]);
    assert(seq![a, b, c, hi].push(lo) =~= seq![a, b, c, hi, lo]);
    assert(flush(em, em) == em);
    assert(flush(seq![a, b, c, hi, lo], em) == seq![a, b, c, hi, lo]);
    assert(flush(seq![a, b, c, hi], seq![lo]) == seq![a, b, c, hi, lo]);
    assert(flush(seq![a, b, c], seq![lo, hi]) == seq![a, b, c, hi, lo]);
    // a * b + c
    assert(postfix_run(e2, 0) == Some((em, em)));
    assert(postfix_run(e2, 1) == Some((seq![a], em)));
    assert(pop_while_prio(seq![a], em, ph) == (seq![a], em));
    assert(postfix_run(e2, 2) == Some((seq![a], seq![hi])));
    assert(postfix_run(e2, 3) == Some((seq![a, b], seq![hi])));
    assert(seq![hi].drop_last() =~= em);
    assert(seq![a, b].push(hi) =~= seq![a, b, hi]);
    assert(pop_while_prio(seq![a, b, hi], em, pl) == (seq![a, b, hi], em));
    assert(pop_while_prio(seq![a, b], seq![hi], pl) == (seq![a, b, hi], em));
    assert(postfix_run(e2, 4) == Some((seq![a, b, hi], seq![lo])));
    assert(postfix_run(e2, 5) == Some((seq![a, b, hi, c], seq![lo])));
    assert(seq![a, b, hi, c].push(lo) =~= seq![a, b, hi, c, lo]);
    assert(flush(seq![a, b, hi, c, lo], em) == seq![a, b, hi, c, lo]);
    assert(flush(seq![a, b, hi, c], seq![lo]) == seq![a, b, hi, c, lo]);
}

} // verus!

verus! {

/// How tightly an operator binds: `||` and `&&` least, then the
/// comparisons, then `+` and `-`, then `*`, `/` and `%`.
pub open spec fn op_rank(o: Seq<char>) -> int {
    if o == "||"@ || o == "&&"@ {
        1
    } else if o == "<"@ || o == "<="@ || o == ">"@ || o == ">="@ || o == "=="@ || o == "!="@ {
        2
    } else if o == "+"@ || o == "-"@ {
        3
    } else {
        4
    }
}

/// The priority of each operator follows its rank.
proof fn lemma_priority_is_rank(o: Seq<char>)
    requires
        spec_is_operator(o),
    ensures
        spec_priority(o) == Some(op_rank(o) as u8),
        o != "("@ && o != ")"@,
{
    reveal_strlit("+");
    reveal_strlit("-");
    reveal_strlit("*");
    reveal_strlit("/");
    reveal_strlit("%");
    reveal_strlit("||");
    reveal_strlit("&&");
    reveal_strlit("==");
    reveal_strlit("!=");
    reveal_strlit("<");
    reveal_strlit(">");
    reveal_strlit("<=");
    reveal_strlit(">=");
    reveal_strlit("(");
    reveal_strlit(")");
    let k = choose|k: int| 0 <= k < spec_operators().len() && spec_operators()[k] == o;
    assert(0 <= k < 13);
    if k == 0 { assert(o == "+"@); assert(("+"@[0] != "-"@[0]) && ("+"@[0] != "*"@[0]) && ("+"@[0] != "/"@[0]) && ("+"@[0] != "%"@[0]) && ("+"@.len() != "||"@.len()) && ("+"@.len() != "&&"@.len()) && ("+"@.len() != "=="@.len()) && ("+"@.len() != "!="@.len()) && ("+"@[0] != "<"@[0]) && ("+"@[0] != ">"@[0]) && ("+"@.len() != "<="@.len()) && ("+"@.len() != ">="@.len()) && ("+"@[0] != "("@[0]) && ("+"@[0] != ")"@[0])); }
    else if k == 1 { assert(o == "-"@); assert(("-"@[0] != "+"@[0]) && ("-"@[0] != "*"@[0]) && ("-"@[0] != "/"@[0]) && ("-"@[0] != "%"@[0]) && ("-"@.len() != "||"@.len()) && ("-"@.len() != "&&"@.len()) && ("-"@.len() != "=="@.len()) && ("-"@.len() != "!="@.len()) && ("-"@[0] != "<"@[0]) && ("-"@[0] != ">"@[0]) && ("-"@.len() != "<="@.len()) && ("-"@.len() != ">="@.len()) && ("-"@[0] != "("@[0]) && ("-"@[0] != ")"@[0])); }
    else if k == 2 { assert(o == "*"@); assert(("*"@[0] != "+"@[0]) && ("*"@[0] != "-"@[0]) && ("*"@[0] != "/"@[0]) && ("*"@[0] != "%"@[0]) && ("*"@.len() != "||"@.len()) && ("*"@.len() != "&&"@.len()) && ("*"@.len() != "=="@.len()) && ("*"@.len() != "!="@.len()) && ("*"@[0] != "<"@[0]) && ("*"@[0] != ">"@[0]) && ("*"@.len() != "<="@.len()) && ("*"@.len() != ">="@.len()) && ("*"@[0] != "("@[0]) && ("*"@[0] != ")"@[0])); }
    else if k == 3 { assert(o == "/"@); assert(("/"@[0] != "+"@[0]) && ("/"@[0] != "-"@[0]) && ("/"@[0] != "*"@[0]) && ("/"@[0] != "%"@[0]) && ("/"@.len() != "||"@.len()) && ("/"@.len() != "&&"@.len()) && ("/"@.len() != "=="@.len()) && ("/"@.len() != "!="@.len()) && ("/"@[0] != "<"@[0]) && ("/"@[0] != ">"@[0]) && ("/"@.len() != "<="@.len()) && ("/"@.len() != ">="@.len()) && ("/"@[0] != "("@[0]) && ("/"@[0] != ")"@[0])); }
    else if k == 4 { assert(o == "%"@); assert(("%"@[0] != "+"@[0]) && ("%"@[0] != "-"@[0]) && ("%"@[0] != "*"@[0]) && ("%"@[0] != "/"@[0]) && ("%"@.len() != "||"@.len()) && ("%"@.len() != "&&"@.len()) && ("%"@.len() != "=="@.len()) && ("%"@.len() != "!="@.len()) && ("%"@[0] != "<"@[0]) && ("%"@[0] != ">"@[0]) && ("%"@.len() != "<="@.len()) && ("%"@.len() != ">="@.len()) && ("%"@[0] != "("@[0]) && ("%"@[0] != ")"@[0])); }
    else if k == 5 { assert(o == "||"@); assert(("||"@.len() != "+"@.len()) && ("||"@.len() != "-"@.len()) && ("||"@.len() != "*"@.len()) && ("||"@.len() != "/"@.len()) && ("||"@.len() != "%"@.len()) && ("||"@[0] != "&&"@[0]) && ("||"@[0] != "=="@[0]) && ("||"@[0] != "!="@[0]) && ("||"@.len() != "<"@.len()) && ("||"@.len() != ">"@.len()) && ("||"@[0] != "<="@[0]) && ("||"@[0] != ">="@[0]) && ("||"@.len() != "("@.len()) && ("||"@.len() != ")"@.len())); }
    else if k == 6 { assert(o == "&&"@); assert(("&&"@.len() != "+"@.len()) && ("&&"@.len() != "-"@.len()) && ("&&"@.len() != "*"@.len()) && ("&&"@.len() != "/"@.len()) && ("&&"@.len() != "%"@.len()) && ("&&"@[0] != "||"@[0]) && ("&&"@[0] != "=="@[0]) && ("&&"@[0] != "!="@[0]) && ("&&"@.len() != "<"@.len()) && ("&&"@.len() != ">"@.len()) && ("&&"@[0] != "<="@[0]) && ("&&"@[0] != ">="@[0]) && ("&&"@.len() != "("@.len()) && ("&&"@.len() != ")"@.len())); }
    else if k == 7 { assert(o == "=="@); assert(("=="@.len() != "+"@.len()) && ("=="@.len() != "-"@.len()) && ("=="@.len() != "*"@.len()) && ("=="@.len() != "/"@.len()) && ("=="@.len() != "%"@.len()) && ("=="@[0] != "||"@[0]) && ("=="@[0] != "&&"@[0]) && ("=="@[0] != "!="@[0]) && ("=="@.len() != "<"@.len()) && ("=="@.len() != ">"@.len()) && ("=="@[0] != "<="@[0]) && ("=="@[0] != ">="@[0]) && ("=="@.len() != "("@.len()) && ("=="@.len() != ")"@.len())); }
    else if k == 8 { assert(o == "!="@); assert(("!="@.len() != "+"@.len()) && ("!="@.len() != "-"@.len()) && ("!="@.len() != "*"@.len()) && ("!="@.len() != "/"@.len()) && ("!="@.len() != "%"@.len()) && ("!="@[0] != "||"@[0]) && ("!="@[0] != "&&"@[0]) && ("!="@[0] != "=="@[0]) && ("!="@.len() != "<"@.len()) && ("!="@.len() != ">"@.len()) && ("!="@[0] != "<="@[0]) && ("!="@[0] != ">="@[0]) && ("!="@.len() != "("@.len()) && ("!="@.len() != ")"@.len())); }
    else if k == 9 { assert(o == "<"@); assert(("<"@[0] != "+"@[0]) && ("<"@[0] != "-"@[0]) && ("<"@[0] != "*"@[0]) && ("<"@[0] != "/"@[0]) && ("<"@[0] != "%"@[0]) && ("<"@.len() != "||"@.len()) && ("<"@.len() != "&&"@.len()) && ("<"@.len() != "=="@.len()) && ("<"@.len() != "!="@.len()) && ("<"@[0] != ">"@[0]) && ("<"@.len() != "<="@.len()) && ("<"@.len() != ">="@.len()) && ("<"@[0] != "("@[0]) && ("<"@[0] != ")"@[0])); }
    else if k == 10 { assert(o == ">"@); assert((">"@[0] != "+"@[0]) && (">"@[0] != "-"@[0]) && (">"@[0] != "*"@[0]) && (">"@[0] != "/"@[0]) && (">"@[0] != "%"@[0]) && (">"@.len() != "||"@.len()) && (">"@.len() != "&&"@.len()) && (">"@.len() != "=="@.len()) && (">"@.len() != "!="@.len()) && (">"@[0] != "<"@[0]) && (">"@.len() != "<="@.len()) && (">"@.len() != ">="@.len()) && (">"@[0] != "("@[0]) && (">"@[0] != ")"@[0])); }
    else if k == 11 { assert(o == "<="@); assert(("<="@.len() != "+"@.len()) && ("<="@.len() != "-"@.len()) && ("<="@.len() != "*"@.len()) && ("<="@.len() != "/"@.len()) && ("<="@.len() != "%"@.len()) && ("<="@[0] != "||"@[0]) && ("<="@[0] != "&&"@[0]) && ("<="@[0] != "=="@[0]) && ("<="@[0] != "!="@[0]) && ("<="@.len() != "<"@.len()) && ("<="@.len() != ">"@.len()) && ("<="@[0] != ">="@[0]) && ("<="@.len() != "("@.len()) && ("<="@.len() != ")"@.len())); }
    else { assert(o == ">="@); assert((">="@.len() != "+"@.len()) && (">="@.len() != "-"@.len()) && (">="@.len() != "*"@.len()) && (">="@.len() != "/"@.len()) && (">="@.len() != "%"@.len()) && (">="@[0] != "||"@[0]) && (">="@[0] != "&&"@[0]) && (">="@[0] != "=="@[0]) && (">="@[0] != "!="@[0]) && (">="@.len() != "<"@.len()) && (">="@.len() != ">"@.len()) && (">="@[0] != "<="@[0]) && (">="@.len() != "("@.len()) && (">="@.len() != ")"@.len())); }
}

/// Precedence and left-to-right reading of two operators: `a o1 b o2 c`
/// binds `b o2 c` first when `o2` binds more tightly than `o1`
/// (`a b c o2 o1`), and `a o1 b` first otherwise (`a b o1 c o2`).
pub proof fn lemma_postfix_precedence(a: Seq<char>, b: Seq<char>, c: Seq<char>, o1: Seq<char>, o2: Seq<char>)
    requires
        is_operand(a),
        is_operand(b),
        is_operand(c),
        spec_is_operator(o1),
        spec_is_operator(o2),
    ensures
        op_rank(o1) < op_rank(o2) ==> spec_postfix(seq![a, o1, b, o2, c]) == Some(seq![a, b, c, o2, o1]),
        op_rank(o1) >= op_rank(o2) ==> spec_postfix(seq![a, o1, b, o2, c]) == Some(seq![a, b, o1, c, o2]),
{
    lemma_priority_is_rank(o1);
    lemma_priority_is_rank(o2);
    let e = seq![a, o1, b, o2, c];
    let p1 = spec_priority(o1)->0;
    let p2 = spec_priority(o2)->0;
    let em: Seq<Seq<char>> = seq![];
    assert(e[0] == a && e[1] == o1 && e[2] == b && e[3] == o2 && e[4] == c);
    assert(postfix_run(e, 0) == Some((em, em)));
    assert(postfix_run(e, 1) == Some((seq![a], em)));
    assert(pop_while_prio(seq![a], em, p1) == (seq![a], em));
    assert(postfix_run(e, 2) == Some((seq![a], seq![o1])));
    assert(postfix_run(e, 3) == Some((seq![a, b], seq![o1])));
    assert(seq![o1].drop_last() =~= em);
    if p1 >= p2 {
        assert(seq![a, b].push(o1) =~= seq![a, b, o1]);
        assert(pop_while_prio(seq![a, b, o1], em, p2) == (seq![a, b, o1], em));
        assert(pop_while_prio(seq![a, b], seq![o1], p2) == (seq![a, b, o1], em));
        assert(postfix_run(e, 4) == Some((seq![a, b, o1], seq![o2])));
        assert(postfix_run(e, 5) == Some((seq![a, b, o1, c], seq![o2])));
        assert(seq![o2].drop_last() =~= em);
        assert(seq![a, b, o1, c].push(o2) =~= seq![a, b, o1, c, o2]);
        assert(flush(seq![a, b, o1, c, o2], em) == seq![a, b, o1, c, o2]);
        assert(flush(seq![a, b, o1, c], seq![o2]) == seq![a, b, o1, c, o2]);
    } else {
        assert(pop_while_prio(seq![a, b], seq![o1], p2) == (seq![a, b], seq![o1]));
        assert(postfix_run(e, 4) == Some((seq![a, b], seq![o1, o2])));
        assert(postfix_run(e, 5) == Some((seq![a, b, c], seq![o1, o2])));
        assert(seq![o1, o2].drop_last() =~= seq![o1]);
        assert(seq![a, b, c].push(o2) =~= seq![a, b, c, o2]);
        assert(seq![a, b, c, o2].push(o1) =~= seq![a, b, c, o2, o1]);
        assert(flush(seq![a, b, c, o2, o1], em) == seq![a, b, c, o2, o1]);
        assert(flush(seq![a, b, c, o2], seq![o1]) == seq![a, b, c, o2, o1]);
        assert(flush(seq![a, b, c], seq![o1, o2]) == seq![a, b, c, o2, o1]);
    }
}

} // verus!
