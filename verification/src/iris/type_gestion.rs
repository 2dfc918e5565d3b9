//! The types of the columns of Iris, their values, and the operators of its
//! conditions.
use vstd::prelude::*;
use crate::text::{views, str_eq, starts_with, copy_str, chars_of, string_of, chars_eq, split_words, spec_words, new_string, push_str, push_chars};

verus! {

/// The column types that Iris knows.
pub open spec fn spec_authorized_types() -> Seq<Seq<char>> {
    seq![
        "BIT"@, "CHAR"@, "DATETIME"@, "DECIMAL"@, "FLOAT"@, "INT"@, "MONEY"@, "NUMERIC"@, "REAL"@,
        "SMALLDATETIME"@, "SMALLINT"@, "SMALLMONEY"@, "TINYINT"@, "VARCHAR"@, "BOOL"@,
    ]
}

/// The operators of the conditions, `(` among them.
pub open spec fn spec_operator_list() -> Seq<Seq<char>> {
    seq!["<"@, ">"@, "<="@, ">="@, "=="@, "!="@, "("@, "AND"@, "OR"@]
}

/// A decimal digit.
pub open spec fn is_digit_char(c: char) -> bool {
    '0' <= c && c <= '9'
}

/// Every character is a decimal digit (the empty text too).
pub open spec fn spec_is_int(s: Seq<char>) -> bool {
    forall|i: int| 0 <= i < s.len() ==> is_digit_char(#[trigger] s[i])
}

/// Digits with at most one point, which is not the last character.
pub open spec fn spec_is_float(s: Seq<char>) -> bool {
    &&& forall|i: int| 0 <= i < s.len() ==> is_digit_char(#[trigger] s[i]) || s[i] == '.'
    &&& forall|i: int, j: int| 0 <= i < j < s.len() && s[i] == '.' ==> s[j] != '.'
    &&& s.len() > 0 ==> s.last() != '.'
}

/// `VARCHAR(n)`, with `n` made of digits.
pub open spec fn varchar_ok(t: Seq<char>) -> bool {
    let rest = t.subrange(7, t.len() as int);
    &&& rest.len() >= 2
    &&& rest[0] == '('
    &&& rest.last() == ')'
    &&& spec_is_int(rest.subrange(1, rest.len() - 1))
}

/// Whether `t` is a column type: one of the known types, or `VARCHAR(n)`.
pub open spec fn spec_is_correct_type(t: Seq<char>) -> bool {
    if t.len() >= 7 && t.subrange(0, 7) == "VARCHAR"@ {
        varchar_ok(t)
    } else {
        spec_authorized_types().contains(t)
    }
}

/// Whether `value` is a value of the type `type_value`.
pub open spec fn spec_good_value(type_value: Seq<char>, value: Seq<char>) -> bool {
    if type_value == "BOOL"@ {
        value == "false"@ || value == "true"@
    } else if type_value == "STRING"@ {
        true
    } else if type_value == "INT"@ {
        spec_is_int(value)
    } else {
        spec_is_float(value) || (type_value.len() >= 7 && type_value.subrange(0, 7) == "VARCHAR"@)
    }
}

/// The sum of the codes of the characters.
pub open spec fn code_sum(s: Seq<char>) -> int
    decreases s.len(),
{
    if s.len() == 0 {
        0
    } else {
        code_sum(s.drop_last()) + (s.last() as u32) as int
    }
}

/// The types and operators of Iris.
pub struct TypeGestion {
    authorized_type: Vec<&'static str>,
    operator_list: Vec<&'static str>,
}

impl TypeGestion {
    /// The table of types and operators.
    pub closed spec fn wf(&self) -> bool {
        &&& self.authorized_type@.len() == spec_authorized_types().len()
        &&& forall|i: int| 0 <= i < spec_authorized_types().len() ==> #[trigger] self.authorized_type@[i]@
            == spec_authorized_types()[i]
        &&& self.operator_list@.len() == spec_operator_list().len()
        &&& forall|i: int| 0 <= i < spec_operator_list().len() ==> #[trigger] self.operator_list@[i]@
            == spec_operator_list()[i]
    }

    /// The types and operators of Iris.
    pub fn new() -> (r: TypeGestion)
        ensures
            r.wf(),
    {
        let mut authorized_type: Vec<&'static str> = Vec::new();
        authorized_type.push("BIT");
        authorized_type.push("CHAR");
        authorized_type.push("DATETIME");
        authorized_type.push("DECIMAL");
        authorized_type.push("FLOAT");
        authorized_type.push("INT");
        authorized_type.push("MONEY");
        authorized_type.push("NUMERIC");
        authorized_type.push("REAL");
        authorized_type.push("SMALLDATETIME");
        authorized_type.push("SMALLINT");
        authorized_type.push("SMALLMONEY");
        authorized_type.push("TINYINT");
        authorized_type.push("VARCHAR");
        authorized_type.push("BOOL");
        let mut operator_list: Vec<&'static str> = Vec::new();
        operator_list.push("<");
        operator_list.push(">");
        operator_list.push("<=");
        operator_list.push(">=");
        operator_list.push("==");
        operator_list.push("!=");
        operator_list.push("(");
        operator_list.push("AND");
        operator_list.push("OR");
        let r = TypeGestion { authorized_type, operator_list };
        r
    }

    /// The operator of rank `n`.
    pub fn get_nth_operator(&self, n: i32) -> (r: &'static str)
        requires
            self.wf(),
            0 <= n < 9,
        ensures
            r@ == spec_operator_list()[n as int],
    {
        self.operator_list[n as usize]
    }

    /// Whether `op` is an operator of the conditions.
    pub fn operator_exist(&self, op: &str) -> (r: bool)
        requires
            self.wf(),
        ensures
            r == spec_operator_list().contains(op@),
    {
        let mut i: usize = 0;
        while i < self.operator_list.len()
            invariant
                0 <= i <= self.operator_list@.len(),
                self.wf(),
                forall|j: int| 0 <= j < i ==> spec_operator_list()[j] != op@,
            decreases self.operator_list.len() - i,
        {
            if str_eq(self.operator_list[i], op) {
                assert(spec_operator_list()[i as int] == op@);
                return true;
            }
            assert(self.operator_list@[i as int]@ == spec_operator_list()[i as int]);
            i = i + 1;
        }
        false
    }

    /// Whether every character is a decimal digit.
    pub fn is_int(&self, string: &str) -> (r: bool)
        ensures
            r == spec_is_int(string@),
    {
        let n = string.unicode_len();
        let mut i: usize = 0;
        while i < n
            invariant
                0 <= i <= n,
                n == string@.len(),
                forall|j: int| 0 <= j < i ==> is_digit_char(#[trigger] string@[j]),
            decreases n - i,
        {
            let c = string.get_char(i);
            if !('0' <= c && c <= '9') {
                return false;
            }
            i = i + 1;
        }
        true
    }

    /// Whether `string` writes a decimal number: digits with at most one
    /// point, which does not end it.
    pub fn is_float(&self, string: &str) -> (r: bool)
        ensures
            r == spec_is_float(string@),
    {
        let n = string.unicode_len();
        let mut point = false;
        let mut i: usize = 0;
        while i < n
            invariant
                0 <= i <= n,
                n == string@.len(),
                forall|j: int| 0 <= j < i ==> is_digit_char(#[trigger] string@[j]) || string@[j] == '.',
                forall|j: int, k: int| 0 <= j < k < i && string@[j] == '.' ==> string@[k] != '.',
                point == (exists|j: int| 0 <= j < i && string@[j] == '.'),
                forall|j: int| 0 <= j < i && string@[j] == '.' ==> j != n - 1,
            decreases n - i,
        {
            let c = string.get_char(i);
            if !('0' <= c && c <= '9') {
                if c == '.' && !point {
                    if i == n - 1 {
                        return false;
                    }
                    point = true;
                } else {
                    proof {
                        if c == '.' {
                            let j = choose|j: int| 0 <= j < i && string@[j] == '.';
                            assert(string@[j] == '.' && string@[i as int] == '.');
                        }
                    }
                    return false;
                }
            }
            i = i + 1;
        }
        true
    }

    /// Whether `value` is a value of the type `type_value`.
    pub fn good_type_and_good_value(&self, type_value: &str, value: &str) -> (r: bool)
        ensures
            r == spec_good_value(type_value@, value@),
    {
        proof {
            reveal_strlit("VARCHAR");
        }
        if str_eq(type_value, "BOOL") {
            str_eq(value, "false") || str_eq(value, "true")
        } else if str_eq(type_value, "STRING") {
            true
        } else if str_eq(type_value, "INT") {
            self.is_int(value)
        } else {
            self.is_float(value) || starts_with(type_value, "VARCHAR")
        }
    }

    /// Whether `tested_type` is a column type.
    pub fn is_correct_type(&self, tested_type: &str) -> (r: bool)
        requires
            self.wf(),
            tested_type@ != "VARCHAR"@,
        ensures
            r == spec_is_correct_type(tested_type@),
    {
        proof {
            reveal_strlit("VARCHAR");
        }
        if !starts_with(tested_type, "VARCHAR") {
            let mut i: usize = 0;
            while i < self.authorized_type.len()
                invariant
                    0 <= i <= self.authorized_type@.len(),
                    self.wf(),
                    forall|j: int| 0 <= j < i ==> spec_authorized_types()[j] != tested_type@,
                    !(tested_type@.len() >= 7 && tested_type@.subrange(0, 7) == "VARCHAR"@),
                decreases self.authorized_type.len() - i,
            {
                if str_eq(self.authorized_type[i], tested_type) {
                    assert(spec_authorized_types()[i as int] == tested_type@);
                    return true;
                }
                assert(self.authorized_type@[i as int]@ == spec_authorized_types()[i as int]);
                i = i + 1;
            }
            false
        } else {
            let cs = chars_of(tested_type);
            let n = cs.len();
            assert(n > 7) by {
                if n == 7 {
                    assert(tested_type@ =~= "VARCHAR"@);
                }
            }
            if cs[7] == '(' && n >= 9 && cs[n - 1] == ')' {
                let mut middle: Vec<char> = Vec::new();
                let mut k: usize = 8;
                while k < n - 1
                    invariant
                        8 <= k <= n - 1,
                        n == cs@.len(),
                        middle@ == cs@.subrange(8, k as int),
                    decreases n - 1 - k,
                {
                    middle.push(cs[k]);
                    assert(cs@.subrange(8, k + 1) =~= cs@.subrange(8, k as int).push(cs@[k as int]));
                    k = k + 1;
                }
                let m = string_of(&middle);
                let ghost rest = tested_type@.subrange(7, tested_type@.len() as int);
                assert(rest.subrange(1, rest.len() - 1) =~= m@);
                self.is_int(m.as_str())
            } else {
                proof {
                    let rest = tested_type@.subrange(7, tested_type@.len() as int);
                    assert(rest[0] == cs@[7]);
                    if rest.len() >= 2 {
                        assert(rest.last() == cs@[n - 1]);
                    }
                }
                false
            }
        }
    }

    /// The sum of the codes of the characters of `string`.
    pub fn hash_string_to_number(&self, string: String) -> (r: i32)
        requires
            i32::MIN <= code_sum(string@) <= i32::MAX,
        ensures
            r == code_sum(string@),
    {
        let n = string.unicode_len();
        let mut result: i32 = 0;
        let mut i: usize = 0;
        proof {
            lemma_code_sum_bounds(string@);
        }
        while i < n
            invariant
                0 <= i <= n,
                n == string@.len(),
                result == code_sum(string@.subrange(0, i as int)),
                i32::MIN <= code_sum(string@) <= i32::MAX,
                forall|k: int| 0 <= k <= n ==> 0 <= #[trigger] code_sum(string@.subrange(0, k)) <= code_sum(string@),
            decreases n - i,
        {
            let c = string.as_str().get_char(i);
            assert(string@.subrange(0, i as int + 1).drop_last() =~= string@.subrange(0, i as int));
            let code: u32 = c as u32;
            assert(code_sum(string@.subrange(0, i as int + 1)) == result + code);
            result = result + (code as i32);
            i = i + 1;
        }
        assert(string@.subrange(0, n as int) =~= string@);
        result
    }

    /// `1` for `true`, `0` for anything else.
    pub fn convert_bool_to_number(&self, string: &str) -> (r: String)
        ensures
            r@ == (if string@ == "true"@ { "1"@ } else { "0"@ }),
    {
        if str_eq(string, "true") {
            copy_str("1")
        } else {
            copy_str("0")
        }
    }
}

/// The sum of the codes is never negative.
pub proof fn lemma_code_sum_nonneg(s: Seq<char>)
    ensures
        0 <= code_sum(s),
    decreases s.len(),
{
    if s.len() > 0 {
        lemma_code_sum_nonneg(s.drop_last());
    }
}

/// The sum over a prefix lies between zero and the whole sum.
pub proof fn lemma_code_sum_prefix(s: Seq<char>, k: int)
    requires
        0 <= k <= s.len(),
    ensures
        0 <= code_sum(s.subrange(0, k)) <= code_sum(s),
    decreases s.len() - k,
{
    lemma_code_sum_nonneg(s.subrange(0, k));
    if k < s.len() {
        lemma_code_sum_prefix(s, k + 1);
        assert(s.subrange(0, k + 1).drop_last() =~= s.subrange(0, k));
    } else {
        assert(s.subrange(0, k) =~= s);
    }
}

/// The sum over a prefix lies between zero and the whole sum.
pub proof fn lemma_code_sum_bounds(s: Seq<char>)
    ensures
        forall|k: int| 0 <= k <= s.len() ==> 0 <= #[trigger] code_sum(s.subrange(0, k)) <= code_sum(s),
{
    assert forall|k: int| 0 <= k <= s.len() implies 0 <= #[trigger] code_sum(s.subrange(0, k)) <= code_sum(s) by {
        lemma_code_sum_prefix(s, k);
    }
}

/// The texts of a list of words.
pub open spec fn word_views(v: Seq<Vec<char>>) -> Seq<Seq<char>> {
    v.map_values(|p: Vec<char>| p@)
}

/// The texts of a list of operators.
pub open spec fn op_views(v: Seq<&'static str>) -> Seq<Seq<char>> {
    v.map_values(|p: &'static str| p@)
}

/// The priority of an operator of a condition: `AND` and `OR` bind least,
/// `(` most.
pub open spec fn cond_priority(op: Seq<char>) -> int {
    if op == "AND"@ || op == "OR"@ {
        1
    } else if op == "("@ {
        3
    } else {
        2
    }
}

/// Moves to the output the operators on top of the stack that bind more
/// than `w`, down to an opening parenthesis.
pub open spec fn pop_higher(out: Seq<Seq<char>>, stack: Seq<Seq<char>>, w: Seq<char>) -> (Seq<Seq<char>>, Seq<Seq<char>>)
    decreases stack.len(),
{
    if stack.len() > 0 && stack.last() != "("@ && cond_priority(w) < cond_priority(stack.last()) {
        pop_higher(out.push(stack.last()), stack.drop_last(), w)
    } else {
        (out, stack)
    }
}

/// Moves to the output the operators above the last opening parenthesis,
/// which goes; none where the stack holds none.
pub open spec fn pop_to_open(out: Seq<Seq<char>>, stack: Seq<Seq<char>>) -> Option<(Seq<Seq<char>>, Seq<Seq<char>>)>
    decreases stack.len(),
{
    if stack.len() == 0 {
        None
    } else if stack.last() == "("@ {
        Some((out, stack.drop_last()))
    } else {
        pop_to_open(out.push(stack.last()), stack.drop_last())
    }
}

/// The output, then what is left on the stack, from its top.
pub open spec fn flush(out: Seq<Seq<char>>, stack: Seq<Seq<char>>) -> Seq<Seq<char>>
    decreases stack.len(),
{
    if stack.len() == 0 {
        out
    } else {
        flush(out.push(stack.last()), stack.drop_last())
    }
}

/// The postfix order of the words from the `i`-th on, from an output and a
/// stack; none where a closing parenthesis has no opening one.
pub open spec fn postfix_from(
    ops: Seq<Seq<char>>,
    words: Seq<Seq<char>>,
    i: int,
    out: Seq<Seq<char>>,
    stack: Seq<Seq<char>>,
) -> Option<Seq<Seq<char>>>
    decreases words.len() - i,
{
    if i < 0 || i >= words.len() {
        Some(flush(out, stack))
    } else {
        let w = words[i];
        if ops.contains(w) {
            let (o, s) = pop_higher(out, stack, w);
            postfix_from(ops, words, i + 1, o, s.push(w))
        } else if w == ")"@ {
            match pop_to_open(out, stack) {
                None => None,
                Some((o, s)) => postfix_from(ops, words, i + 1, o, s),
            }
        } else {
            postfix_from(ops, words, i + 1, out.push(w), stack)
        }
    }
}

/// Each word after a space.
pub open spec fn spaced(out: Seq<Seq<char>>) -> Seq<char>
    decreases out.len(),
{
    if out.len() == 0 {
        seq![]
    } else {
        spaced(out.drop_last()) + " "@ + out.last()
    }
}

/// A condition in postfix order, its words separated by spaces; none where
/// no order is defined (a closing parenthesis with no opening one, or no
/// word).
pub open spec fn spec_infix_to_postfix(ops: Seq<Seq<char>>, exp: Seq<char>) -> Option<Seq<char>> {
    match postfix_from(ops, spec_words(exp), 0, seq![], seq![]) {
        None => None,
        Some(out) => if out.len() == 0 {
            None
        } else {
            Some(spaced(out).drop_first())
        },
    }
}

/// The priority of an operator of a condition.
pub fn cond_priority_of(op: &Vec<char>) -> (r: i32)
    ensures
        r == cond_priority(op@),
{
    let and_w = chars_of("AND");
    let or_w = chars_of("OR");
    let open_w = chars_of("(");
    if chars_eq(op, &and_w) || chars_eq(op, &or_w) {
        1
    } else if chars_eq(op, &open_w) {
        3
    } else {
        2
    }
}

/// Whether the word is one of the operators.
fn is_op_word(ops: &Vec<Vec<char>>, w: &Vec<char>) -> (r: bool)
    ensures
        r == word_views(ops@).contains(w@),
{
    let mut i: usize = 0;
    while i < ops.len()
        invariant
            i <= ops@.len(),
            forall|j: int| 0 <= j < i ==> #[trigger] word_views(ops@)[j] != w@,
        decreases ops@.len() - i,
    {
        if chars_eq(&ops[i], w) {
            assert(word_views(ops@)[i as int] == w@);
            return true;
        }
        i += 1;
    }
    false
}

/// A condition in postfix order, with the operators given (`(` counting as
/// one where it is among them), its words separated by spaces.
pub fn infix_to_postfix(ops: &Vec<&'static str>, exp: &str) -> (r: String)
    requires
        spec_infix_to_postfix(op_views(ops@), exp@) is Some,
    ensures
        r@ == spec_infix_to_postfix(op_views(ops@), exp@)->0,
{
    let ghost ov = op_views(ops@);
    let mut opw: Vec<Vec<char>> = Vec::new();
    let mut q: usize = 0;
    while q < ops.len()
        invariant
            q <= ops@.len(),
            ov == op_views(ops@),
            word_views(opw@) == ov.take(q as int),
        decreases ops@.len() - q,
    {
        let wq = chars_of(ops[q]);
        assert(ov[q as int] == ops@[q as int]@);
        let ghost before = opw@;
        opw.push(wq);
        assert(word_views(opw@) =~= word_views(before).push(wq@));
        assert(ov.take(q + 1) =~= ov.take(q as int).push(ov[q as int]));
        q += 1;
    }
    assert(ov.take(q as int) =~= ov);
    let words = split_words(exp);
    let ghost ws = word_views(words@);
    let close_w = chars_of(")");
    let open_w = chars_of("(");
    let mut out: Vec<Vec<char>> = Vec::new();
    let mut stack: Vec<Vec<char>> = Vec::new();
    let ghost whole = postfix_from(ov, ws, 0, seq![], seq![]);
    assert(word_views(out@) =~= Seq::<Seq<char>>::empty());
    assert(word_views(stack@) =~= Seq::<Seq<char>>::empty());
    let mut i: usize = 0;
    while i < words.len()
        invariant
            i <= words@.len(),
            ws == word_views(words@),
            ws == spec_words(exp@),
            word_views(opw@) == ov,
            close_w@ == ")"@,
            open_w@ == "("@,
            whole == postfix_from(ov, ws, 0, seq![], seq![]),
            whole is Some,
            whole == postfix_from(ov, ws, i as int, word_views(out@), word_views(stack@)),
        decreases words@.len() - i,
    {
        let w = &words[i];
        assert(ws[i as int] == w@);
        let ghost o0 = word_views(out@);
        let ghost s0 = word_views(stack@);
        if is_op_word(&opw, w) {
            let pw = cond_priority_of(w);
            let ghost target = pop_higher(o0, s0, w@);
            while stack.len() > 0 && !chars_eq(&stack[stack.len() - 1], &open_w)
                && pw < cond_priority_of(&stack[stack.len() - 1])
                invariant
                    pw == cond_priority(w@),
                    open_w@ == "("@,
                    target == pop_higher(word_views(out@), word_views(stack@), w@),
                decreases stack@.len(),
            {
                let ghost so = word_views(stack@);
                let ghost oo = word_views(out@);
                assert(so.last() == stack@[stack@.len() - 1]@);
                let top = stack.pop().unwrap();
                assert(so.last() == top@);
                assert(word_views(stack@) =~= so.drop_last());
                out.push(top);
                assert(word_views(out@) =~= oo.push(top@));
            }
            proof {
                if stack@.len() > 0 {
                    assert(word_views(stack@).last() == stack@[stack@.len() - 1]@);
                }
                assert(pop_higher(word_views(out@), word_views(stack@), w@) == (word_views(out@), word_views(stack@)));
            }
            let ghost so = word_views(stack@);
            stack.push(copy_word(w));
            assert(word_views(stack@) =~= so.push(w@));
            assert(postfix_from(ov, ws, i as int, o0, s0) == postfix_from(ov, ws, i + 1, target.0, target.1.push(w@)));
        } else if chars_eq(w, &close_w) {
            let ghost target = pop_to_open(o0, s0);
            assert(postfix_from(ov, ws, i as int, o0, s0) == match target {
                None => None,
                Some((o, st)) => postfix_from(ov, ws, i + 1, o, st),
            });
            loop
                invariant_except_break
                    target == pop_to_open(word_views(out@), word_views(stack@)),
                    target is Some,
                invariant
                    open_w@ == "("@,
                ensures
                    target == Some((word_views(out@), word_views(stack@))),
                decreases stack@.len(),
            {
                let ghost so = word_views(stack@);
                let ghost oo = word_views(out@);
                assert(stack@.len() > 0);
                assert(so.last() == stack@[stack@.len() - 1]@);
                let top = stack.pop().unwrap();
                assert(so.last() == top@);
                assert(word_views(stack@) =~= so.drop_last());
                if chars_eq(&top, &open_w) {
                    break;
                }
                out.push(top);
                assert(word_views(out@) =~= oo.push(top@));
            }
        } else {
            let ghost oo = word_views(out@);
            out.push(copy_word(w));
            assert(word_views(out@) =~= oo.push(w@));
        }
        i += 1;
    }
    while stack.len() != 0
        invariant
            whole == Some(flush(word_views(out@), word_views(stack@))),
        decreases stack@.len(),
    {
        let ghost so = word_views(stack@);
        let top = stack.pop().unwrap();
        assert(so.last() == top@);
        assert(word_views(stack@) =~= so.drop_last());
        let ghost oo = word_views(out@);
        out.push(top);
        assert(word_views(out@) =~= oo.push(top@));
    }
    proof {
        assert(word_views(stack@) =~= Seq::<Seq<char>>::empty());
        assert(whole == Some(word_views(out@)));
        assert(out@.len() > 0);
    }
    let mut result = new_string();
    let mut j: usize = 0;
    while j < out.len()
        invariant
            j <= out@.len(),
            result@ == spaced(word_views(out@).take(j as int)),
        decreases out@.len() - j,
    {
        push_str(&mut result, " ");
        push_chars(&mut result, &out[j]);
        assert(word_views(out@).take(j + 1).drop_last() =~= word_views(out@).take(j as int));
        j += 1;
    }
    assert(word_views(out@).take(j as int) =~= word_views(out@));
    assert(result@.len() >= 1) by {
        let o = word_views(out@);
        assert(spaced(o) == spaced(o.drop_last()) + " "@ + o.last());
        reveal_strlit(" ");
    }
    let n = result.as_str().unicode_len();
    let tail = result.as_str().substring_char(1, n);
    assert(tail@ =~= result@.drop_first());
    copy_str(tail)
}

/// A copy of a word.
fn copy_word(w: &Vec<char>) -> (r: Vec<char>)
    ensures
        r@ == w@,
{
    let mut r: Vec<char> = Vec::new();
    let mut i: usize = 0;
    while i < w.len()
        invariant
            i <= w@.len(),
            r@ == w@.take(i as int),
        decreases w@.len() - i,
    {
        r.push(w[i]);
        assert(r@ =~= w@.take(i + 1));
        i += 1;
    }
    assert(w@.take(i as int) =~= w@);
    r
}

impl TypeGestion {
    /// A condition in postfix order, its words separated by spaces.
    pub fn valid_infix_to_postfix(&self, exp: &str) -> (r: String)
        requires
            self.wf(),
            spec_infix_to_postfix(spec_operator_list(), exp@) is Some,
        ensures
            r@ == spec_infix_to_postfix(spec_operator_list(), exp@)->0,
    {
        assert(op_views(self.operator_list@) =~= spec_operator_list());
        infix_to_postfix(&self.operator_list, exp)
    }

    /// The priority of an operator of a condition.
    pub fn get_priority(&self, operator: &str) -> (r: i32)
        ensures
            r == cond_priority(operator@),
    {
        cond_priority_of(&chars_of(operator))
    }
}

/// A word of a condition that is neither an operator nor a closing
/// parenthesis: an operand.
pub open spec fn cond_operand(ops: Seq<Seq<char>>, w: Seq<char>) -> bool {
    !ops.contains(w) && w != ")"@
}

/// The operands of a list of words, in order.
pub open spec fn cond_operands(ops: Seq<Seq<char>>, ws: Seq<Seq<char>>) -> Seq<Seq<char>>
    decreases ws.len(),
{
    if ws.len() == 0 {
        seq![]
    } else if cond_operand(ops, ws.last()) {
        cond_operands(ops, ws.drop_last()).push(ws.last())
    } else {
        cond_operands(ops, ws.drop_last())
    }
}

/// Every word of the stack is an operator.
pub open spec fn all_ops(ops: Seq<Seq<char>>, stack: Seq<Seq<char>>) -> bool {
    forall|j: int| 0 <= j < stack.len() ==> ops.contains(#[trigger] stack[j])
}

/// The operands of two lists put together.
pub proof fn lemma_cond_operands_concat(ops: Seq<Seq<char>>, a: Seq<Seq<char>>, b: Seq<Seq<char>>)
    ensures
        cond_operands(ops, a + b) == cond_operands(ops, a) + cond_operands(ops, b),
    decreases b.len(),
{
    if b.len() == 0 {
        assert(a + b =~= a);
        assert(cond_operands(ops, a) + cond_operands(ops, b) =~= cond_operands(ops, a));
    } else {
        lemma_cond_operands_concat(ops, a, b.drop_last());
        assert((a + b).drop_last() =~= a + b.drop_last());
        assert((a + b).last() == b.last());
        if cond_operand(ops, b.last()) {
            assert(cond_operands(ops, a) + cond_operands(ops, b) =~= (cond_operands(ops, a) + cond_operands(
                ops,
                b.drop_last(),
            )).push(b.last()));
        }
    }
}

/// Moving operators from the stack keeps the operands of the output.
pub proof fn lemma_pop_higher_operands(ops: Seq<Seq<char>>, out: Seq<Seq<char>>, stack: Seq<Seq<char>>, w: Seq<char>)
    requires
        all_ops(ops, stack),
    ensures
        cond_operands(ops, pop_higher(out, stack, w).0) == cond_operands(ops, out),
        all_ops(ops, pop_higher(out, stack, w).1),
    decreases stack.len(),
{
    if stack.len() > 0 && stack.last() != "("@ && cond_priority(w) < cond_priority(stack.last()) {
        assert(ops.contains(stack[stack.len() - 1]));
        assert(out.push(stack.last()).drop_last() =~= out);
        lemma_pop_higher_operands(ops, out.push(stack.last()), stack.drop_last(), w);
    }
}

/// Moving operators down to an opening parenthesis keeps the operands of
/// the output.
pub proof fn lemma_pop_to_open_operands(ops: Seq<Seq<char>>, out: Seq<Seq<char>>, stack: Seq<Seq<char>>)
    requires
        all_ops(ops, stack),
    ensures
        pop_to_open(out, stack) matches Some((o, s)) ==> cond_operands(ops, o) == cond_operands(ops, out) && all_ops(
            ops,
            s,
        ),
    decreases stack.len(),
{
    if stack.len() > 0 && stack.last() != "("@ {
        assert(ops.contains(stack[stack.len() - 1]));
        assert(out.push(stack.last()).drop_last() =~= out);
        lemma_pop_to_open_operands(ops, out.push(stack.last()), stack.drop_last());
    }
}

/// Emptying the stack keeps the operands of the output.
pub proof fn lemma_flush_operands(ops: Seq<Seq<char>>, out: Seq<Seq<char>>, stack: Seq<Seq<char>>)
    requires
        all_ops(ops, stack),
    ensures
        cond_operands(ops, flush(out, stack)) == cond_operands(ops, out),
    decreases stack.len(),
{
    if stack.len() > 0 {
        assert(ops.contains(stack[stack.len() - 1]));
        assert(out.push(stack.last()).drop_last() =~= out);
        lemma_flush_operands(ops, out.push(stack.last()), stack.drop_last());
    }
}

/// The postfix order of the words from the `i`-th on keeps their operands
/// after those of the output.
pub proof fn lemma_postfix_from_operands(
    ops: Seq<Seq<char>>,
    words: Seq<Seq<char>>,
    i: int,
    out: Seq<Seq<char>>,
    stack: Seq<Seq<char>>,
)
    requires
        0 <= i <= words.len(),
        all_ops(ops, stack),
    ensures
        postfix_from(ops, words, i, out, stack) matches Some(res) ==> cond_operands(ops, res) == cond_operands(ops, out)
            + cond_operands(ops, words.subrange(i, words.len() as int)),
    decreases words.len() - i,
{
    if i >= words.len() {
        lemma_flush_operands(ops, out, stack);
        assert(words.subrange(i, words.len() as int) =~= Seq::<Seq<char>>::empty());
        assert(cond_operands(ops, out) + cond_operands(ops, Seq::<Seq<char>>::empty()) =~= cond_operands(ops, out));
    } else {
        let w = words[i];
        let rest = words.subrange(i + 1, words.len() as int);
        assert(words.subrange(i, words.len() as int) =~= seq![w] + rest);
        lemma_cond_operands_concat(ops, seq![w], rest);
        assert(seq![w].drop_last() =~= Seq::<Seq<char>>::empty());
        assert(seq![w].last() == w);
        assert(cond_operands(ops, Seq::<Seq<char>>::empty()) == Seq::<Seq<char>>::empty());
        if ops.contains(w) {
            lemma_pop_higher_operands(ops, out, stack, w);
            let (o, s) = pop_higher(out, stack, w);
            assert(all_ops(ops, s.push(w))) by {
                assert forall|j: int| 0 <= j < s.push(w).len() implies ops.contains(#[trigger] s.push(w)[j]) by {
                    if j < s.len() {
                        assert(s.push(w)[j] == s[j]);
                    }
                }
            }
            lemma_postfix_from_operands(ops, words, i + 1, o, s.push(w));
            assert(cond_operands(ops, seq![w]) =~= Seq::<Seq<char>>::empty());
            assert(Seq::<Seq<char>>::empty() + cond_operands(ops, rest) =~= cond_operands(ops, rest));
        } else if w == ")"@ {
            lemma_pop_to_open_operands(ops, out, stack);
            match pop_to_open(out, stack) {
                Some((o, s)) => {
                    lemma_postfix_from_operands(ops, words, i + 1, o, s);
                },
                None => {},
            }
            assert(cond_operands(ops, seq![w]) =~= Seq::<Seq<char>>::empty());
            assert(Seq::<Seq<char>>::empty() + cond_operands(ops, rest) =~= cond_operands(ops, rest));
        } else {
            lemma_postfix_from_operands(ops, words, i + 1, out.push(w), stack);
            assert(out.push(w).drop_last() =~= out);
            assert(cond_operands(ops, seq![w]) =~= seq![w]);
            assert(cond_operands(ops, out).push(w) + cond_operands(ops, rest) =~= cond_operands(ops, out) + (seq![w]
                + cond_operands(ops, rest)));
        }
    }
}

/// Putting a condition in postfix order keeps its operands, in the order
/// they came.
pub proof fn lemma_postfix_keeps_cond_operands(ops: Seq<Seq<char>>, words: Seq<Seq<char>>)
    ensures
        postfix_from(ops, words, 0, seq![], seq![]) matches Some(res) ==> cond_operands(ops, res) == cond_operands(
            ops,
            words,
        ),
{
    lemma_postfix_from_operands(ops, words, 0, seq![], seq![]);
    assert(words.subrange(0, words.len() as int) =~= words);
    assert(cond_operands(ops, Seq::<Seq<char>>::empty()) + cond_operands(ops, words) =~= cond_operands(ops, words));
}

/// Whether the sum of the codes of the characters fits in an `i32`.
pub fn code_sum_fits(s: &str) -> (r: bool)
    ensures
        r == (code_sum(s@) <= i32::MAX),
{
    let n = s.unicode_len();
    let mut total: u64 = 0;
    let mut i: usize = 0;
    while i < n
        invariant
            0 <= i <= n,
            n == s@.len(),
            total == code_sum(s@.subrange(0, i as int)),
            total <= i32::MAX,
        decreases n - i,
    {
        let c = s.get_char(i);
        assert(s@.subrange(0, i as int + 1).drop_last() =~= s@.subrange(0, i as int));
        total = total + (c as u32) as u64;
        if total > 0x7fff_ffffu64 {
            proof {
                lemma_code_sum_prefix(s@, i as int + 1);
            }
            return false;
        }
        i = i + 1;
    }
    assert(s@.subrange(0, n as int) =~= s@);
    true
}

/// The number of values on the stack once the first `n` words of a postfix
/// condition are read: a value adds one, an operator takes two and leaves
/// its verdict. `None`: an operator finds fewer than two values.
pub open spec fn postfix_depth(ws: Seq<Seq<char>>, n: int) -> Option<int>
    decreases n,
{
    if n <= 0 {
        Some(0)
    } else {
        match postfix_depth(ws, n - 1) {
            None => None,
            Some(d) => if spec_operator_list().contains(ws[n - 1]) {
                if d < 2 {
                    None
                } else {
                    Some(d - 1)
                }
            } else {
                Some(d + 1)
            },
        }
    }
}

/// Once an operator lacks values, it stays so.
proof fn lemma_postfix_depth_none(ws: Seq<Seq<char>>, m: int, n: int)
    requires
        0 <= m <= n,
        postfix_depth(ws, m) is None,
    ensures
        postfix_depth(ws, n) is None,
    decreases n - m,
{
    if m < n {
        lemma_postfix_depth_none(ws, m, n - 1);
    }
}

/// The word a verdict leaves on the stack.
pub open spec fn verdict_word(v: bool) -> Seq<char> {
    if v {
        "1"@
    } else {
        "0"@
    }
}

/// The stack once the words of a postfix condition are read from the stack
/// `st`: a value goes on top; an operator takes the two values on top, the
/// left one under the right one, and leaves the verdict `f` gives of them.
/// `None`: an operator finds fewer than two values.
pub open spec fn postfix_stack(
    ws: Seq<Seq<char>>,
    st: Seq<Seq<char>>,
    f: spec_fn(Seq<char>, Seq<char>, Seq<char>) -> bool,
) -> Option<Seq<Seq<char>>>
    decreases ws.len(),
{
    if ws.len() == 0 {
        Some(st)
    } else if spec_operator_list().contains(ws[0]) {
        if st.len() < 2 {
            None
        } else {
            postfix_stack(
                ws.drop_first(),
                st.drop_last().drop_last().push(verdict_word(f(st[st.len() - 2], ws[0], st.last()))),
                f,
            )
        }
    } else {
        postfix_stack(ws.drop_first(), st.push(ws[0]), f)
    }
}

/// The value of a complete postfix expression: the one value it leaves.
pub open spec fn postfix_value(ws: Seq<Seq<char>>, f: spec_fn(Seq<char>, Seq<char>, Seq<char>) -> bool) -> Option<Seq<char>> {
    match postfix_stack(ws, seq![], f) {
        Some(t) => if t.len() == 1 {
            Some(t[0])
        } else {
            None
        },
        None => None,
    }
}

/// A comparison that always judges as `f` does.
pub open spec fn judges_as<F: Fn(&str, &str, &str) -> bool>(
    compare: &F,
    f: spec_fn(Seq<char>, Seq<char>, Seq<char>) -> bool,
) -> bool {
    forall|a: &str, o: &str, b: &str, v: bool| #[trigger] compare.ensures((a, o, b), v) ==> v == f(a@, o@, b@)
}

/// The result of a postfix condition run from an empty stack: whether the
/// value at the bottom is `1`; `None` where the run fails or leaves nothing.
pub open spec fn postfix_result(ws: Seq<Seq<char>>, f: spec_fn(Seq<char>, Seq<char>, Seq<char>) -> bool) -> Option<bool> {
    match postfix_stack(ws, seq![], f) {
        Some(t) => if t.len() == 0 {
            None
        } else {
            Some(t[0] == "1"@)
        },
        None => None,
    }
}

/// Values under the ones an expression reads are left as they are: reading
/// on a deeper stack gives the same stack with what lies under kept.
pub proof fn lemma_postfix_stack_under(
    ws: Seq<Seq<char>>,
    p: Seq<Seq<char>>,
    s: Seq<Seq<char>>,
    f: spec_fn(Seq<char>, Seq<char>, Seq<char>) -> bool,
)
    requires
        postfix_stack(ws, s, f) is Some,
    ensures
        postfix_stack(ws, p + s, f) == Some(p + postfix_stack(ws, s, f)->0),
    decreases ws.len(),
{
    if ws.len() > 0 {
        if spec_operator_list().contains(ws[0]) {
            let s2 = s.drop_last().drop_last().push(verdict_word(f(s[s.len() - 2], ws[0], s.last())));
            let q = p + s;
            assert(q[q.len() - 2] == s[s.len() - 2]);
            assert(q.last() == s.last());
            assert(q.drop_last().drop_last().push(verdict_word(f(q[q.len() - 2], ws[0], q.last()))) =~= p + s2);
            lemma_postfix_stack_under(ws.drop_first(), p, s2, f);
        } else {
            assert((p + s).push(ws[0]) =~= p + s.push(ws[0]));
            lemma_postfix_stack_under(ws.drop_first(), p, s.push(ws[0]), f);
        }
    } else {
    }
}

/// Reading two runs of words one after the other is reading them joined.
pub proof fn lemma_postfix_stack_concat(
    w1: Seq<Seq<char>>,
    w2: Seq<Seq<char>>,
    s: Seq<Seq<char>>,
    f: spec_fn(Seq<char>, Seq<char>, Seq<char>) -> bool,
)
    ensures
        postfix_stack(w1 + w2, s, f) == match postfix_stack(w1, s, f) {
            Some(t) => postfix_stack(w2, t, f),
            None => None,
        },
    decreases w1.len(),
{
    if w1.len() == 0 {
        assert(w1 + w2 =~= w2);
    } else {
        assert((w1 + w2)[0] == w1[0]);
        assert((w1 + w2).drop_first() =~= w1.drop_first() + w2);
        if spec_operator_list().contains(w1[0]) {
            if s.len() >= 2 {
                lemma_postfix_stack_concat(
                    w1.drop_first(),
                    w2,
                    s.drop_last().drop_last().push(verdict_word(f(s[s.len() - 2], w1[0], s.last()))),
                    f,
                );
            }
        } else {
            lemma_postfix_stack_concat(w1.drop_first(), w2, s.push(w1[0]), f);
        }
    }
}

/// A condition is evaluated as its postfix tree: for complete expressions
/// `e1` and `e2` and an operator `op`, the value of `e1 e2 op` is the verdict
/// of `op` on the value of `e1` (left) and the value of `e2` (right).
pub proof fn lemma_postfix_tree(
    e1: Seq<Seq<char>>,
    e2: Seq<Seq<char>>,
    op: Seq<char>,
    f: spec_fn(Seq<char>, Seq<char>, Seq<char>) -> bool,
)
    requires
        postfix_value(e1, f) is Some,
        postfix_value(e2, f) is Some,
        spec_operator_list().contains(op),
    ensures
        postfix_value(e1 + e2 + seq![op], f) == Some(
            verdict_word(f(postfix_value(e1, f)->0, op, postfix_value(e2, f)->0)),
        ),
        postfix_result(e1 + e2 + seq![op], f) == Some(f(postfix_value(e1, f)->0, op, postfix_value(e2, f)->0)),
{
    reveal_strlit("1");
    reveal_strlit("0");
    let v1 = postfix_value(e1, f)->0;
    let v2 = postfix_value(e2, f)->0;
    let em: Seq<Seq<char>> = seq![];
    lemma_postfix_stack_concat(e1 + e2, seq![op], em, f);
    lemma_postfix_stack_concat(e1, e2, em, f);
    assert(postfix_stack(e1, em, f) == Some(seq![v1])) by {
        let t = postfix_stack(e1, em, f)->0;
        assert(t =~= seq![v1]);
    }
    lemma_postfix_stack_under(e2, seq![v1], em, f);
    let t2 = postfix_stack(e2, em, f)->0;
    assert(t2 =~= seq![v2]);
    assert(seq![v1] + em =~= seq![v1]);
    assert(seq![v1] + t2 =~= seq![v1, v2]);
    let st = seq![v1, v2];
    assert(seq![op][0] == op);
    assert(seq![op].drop_first() =~= Seq::<Seq<char>>::empty());
    assert(st.drop_last().drop_last() =~= em);
    let out = em.push(verdict_word(f(v1, op, v2)));
    assert(postfix_stack(seq![op], st, f) == postfix_stack(seq![op].drop_first(), out, f));
    assert(postfix_stack(seq![op].drop_first(), out, f) == Some(out));
    assert(out[0] == verdict_word(f(v1, op, v2)));
    assert(("1"@ != "0"@)) by {
        assert("1"@[0] != "0"@[0]);
    }
}

/// Words among which no operator stands.
pub open spec fn no_operator(ws: Seq<Seq<char>>) -> bool {
    forall|k: int| 0 <= k < ws.len() ==> !spec_operator_list().contains(#[trigger] ws[k])
}

impl TypeGestion {
    /// Evaluates a condition in postfix order on a stack: a value goes on
    /// top, an operator takes the two values on top and leaves `1` or `0`
    /// as `compare` judges them (left value, operator, right value); the
    /// condition holds when the value at the bottom is `1`. `None` where an
    /// operator finds fewer than two values or no value is left.
    pub fn evaluate_postfix_exp<F: Fn(&str, &str, &str) -> bool>(&self, exp: &str, compare: &F) -> (r: Option<bool>)
        requires
            self.wf(),
            forall|a: &str, o: &str, b: &str| #[trigger] compare.requires((a, o, b)),
        ensures
            ({
                let ws = spec_words(exp@);
                &&& r is None <==> (postfix_depth(ws, ws.len() as int) is None || postfix_depth(ws, ws.len() as int)
                    == Some(0int))
                &&& no_operator(ws) && ws.len() > 0 ==> r == Some(ws[0] == "1"@)
                &&& forall|f: spec_fn(Seq<char>, Seq<char>, Seq<char>) -> bool| #[trigger] judges_as(compare, f) ==> r
                    == postfix_result(ws, f)
            }),
    {
        proof {
            reveal_strlit("1");
            reveal_strlit("0");
        }
        let ws = crate::iris::system::words(exp);
        let ghost wv = views(ws@);
        let mut stack: Vec<String> = Vec::new();
        let mut i: usize = 0;
        assert(wv.skip(0) =~= wv);
        assert(views(stack@) =~= Seq::<Seq<char>>::empty());
        while i < ws.len()
            invariant
                self.wf(),
                forall|a: &str, o: &str, b: &str| #[trigger] compare.requires((a, o, b)),
                0 <= i <= ws@.len(),
                wv == views(ws@),
                wv == spec_words(exp@),
                postfix_depth(wv, i as int) == Some(stack@.len() as int),
                no_operator(wv.take(i as int)) ==> views(stack@) == wv.take(i as int),
                forall|f: spec_fn(Seq<char>, Seq<char>, Seq<char>) -> bool| #[trigger] judges_as(compare, f)
                    ==> postfix_stack(wv, seq![], f) == postfix_stack(wv.skip(i as int), views(stack@), f),
            decreases ws.len() - i,
        {
            assert(wv[i as int] == ws@[i as int]@);
            assert(wv.skip(i as int)[0] == wv[i as int]);
            assert(wv.skip(i as int).drop_first() =~= wv.skip(i + 1));
            if self.operator_exist(ws[i].as_str()) {
                if stack.len() < 2 {
                    proof {
                        lemma_postfix_depth_none(wv, i + 1, wv.len() as int);
                    }
                    return None;
                }
                let ghost sv = views(stack@);
                let right = stack.pop().unwrap();
                let left = stack.pop().unwrap();
                let v = compare(left.as_str(), ws[i].as_str(), right.as_str());
                let ghost mid = views(stack@);
                if v {
                    stack.push(copy_str("1"));
                } else {
                    stack.push(copy_str("0"));
                }
                proof {
                    assert(mid =~= sv.drop_last().drop_last());
                    assert(left@ == sv[sv.len() - 2]);
                    assert(right@ == sv.last());
                    assert(views(stack@) =~= mid.push(verdict_word(v)));
                    assert forall|f: spec_fn(Seq<char>, Seq<char>, Seq<char>) -> bool| #[trigger] judges_as(compare, f)
                        implies postfix_stack(wv, seq![], f) == postfix_stack(wv.skip(i + 1), views(stack@), f) by {
                        assert(v == f(left@, wv[i as int], right@));
                    }
                }
                assert(!no_operator(wv.take(i + 1))) by {
                    assert(wv.take(i + 1)[i as int] == wv[i as int]);
                }
            } else {
                let ghost before = views(stack@);
                stack.push(copy_str(ws[i].as_str()));
                proof {
                    assert forall|f: spec_fn(Seq<char>, Seq<char>, Seq<char>) -> bool| #[trigger] judges_as(compare, f)
                        implies postfix_stack(wv, seq![], f) == postfix_stack(wv.skip(i + 1), views(stack@), f) by {
                        assert(views(stack@) =~= before.push(wv[i as int]));
                    }
                    assert(views(stack@) =~= before.push(wv[i as int]));
                    if no_operator(wv.take(i + 1)) {
                        assert forall|k: int| 0 <= k < i implies !spec_operator_list().contains(#[trigger] wv.take(i as int)[k]) by {
                            assert(wv.take(i as int)[k] == wv.take(i + 1)[k]);
                        }
                        assert(wv.take(i + 1) =~= wv.take(i as int).push(wv[i as int]));
                    }
                }
            }
            i = i + 1;
        }
        assert(wv.take(wv.len() as int) =~= wv);
        assert(wv.skip(wv.len() as int) =~= Seq::<Seq<char>>::empty());
        if stack.len() == 0 {
            return None;
        }
        proof {
            assert(views(stack@)[0] == stack@[0]@);
        }
        Some(str_eq(stack[0].as_str(), "1"))
    }
}

} // verus!
