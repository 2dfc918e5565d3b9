//! Text helpers of the first compiler: cutting, counting, and the checks of
//! values by type.
use vstd::prelude::*;
use crate::text::{views, spec_split_any, split_any, str_eq, copy_str, count_char, count_of};
use crate::iris::type_gestion::{
    spec_is_int, spec_is_float, is_digit_char, code_sum, lemma_code_sum_bounds, infix_to_postfix,
    spec_infix_to_postfix, op_views, cond_priority, cond_priority_of,
};

verus! {

/// The pieces of `string` between the occurrences of `splitter`.
pub fn split(string: &str, splitter: &str) -> (r: Vec<String>)
    ensures
        views(r@) == spec_split_any(string@, splitter@),
{
    split_any(string, splitter)
}

/// The number of occurrences of `x` in `string`.
pub fn count_occur(string: &str, x: char) -> (r: i32)
    requires
        count_of(string@, x) <= i32::MAX,
    ensures
        r == count_of(string@, x),
{
    let n = count_char(string, x);
    n as i32
}

/// `1` for `true`, `0` for anything else.
pub fn convert_bool_to_number(string: &str) -> (r: String)
    ensures
        r@ == (if string@ == "true"@ { "1"@ } else { "0"@ }),
{
    if str_eq(string, "true") {
        copy_str("1")
    } else {
        copy_str("0")
    }
}

/// The sum of the codes of the characters of `string`.
pub fn hash_string_to_number(string: String) -> (r: i32)
    requires
        code_sum(string@) <= i32::MAX,
    ensures
        r == code_sum(string@),
{
    let n = string.unicode_len();
    let mut result: i32 = 0;
    let mut i: usize = 0;
    proof {
        lemma_code_sum_bounds(string@);
    }
    while i < n
        invariant
            0 <= i <= n,
            n == string@.len(),
            result == code_sum(string@.subrange(0, i as int)),
            code_sum(string@) <= i32::MAX,
            forall|k: int| 0 <= k <= n ==> 0 <= #[trigger] code_sum(string@.subrange(0, k)) <= code_sum(string@),
        decreases n - i,
    {
        let c = string.as_str().get_char(i);
        assert(string@.subrange(0, i as int + 1).drop_last() =~= string@.subrange(0, i as int));
        let code: u32 = c as u32;
        assert(code_sum(string@.subrange(0, i as int + 1)) == result + code);
        result = result + (code as i32);
        i = i + 1;
    }
    assert(string@.subrange(0, n as int) =~= string@);
    result
}

/// Whether `value` is a value of the type `type_value`: `BOOL`, `STRING`,
/// `INT`, or a decimal number for any other type.
pub open spec fn spec_value_of_type(type_value: Seq<char>, value: Seq<char>) -> bool {
    if type_value == "BOOL"@ {
        value == "false"@ || value == "true"@
    } else if type_value == "STRING"@ {
        true
    } else if type_value == "INT"@ {
        spec_is_int(value)
    } else {
        spec_is_float(value)
    }
}

/// Whether `value` is a value of the type `type_value`.
pub fn good_type_and_good_value(type_value: &str, value: &str) -> (r: bool)
    ensures
        r == spec_value_of_type(type_value@, value@),
{
    if str_eq(type_value, "BOOL") {
        str_eq(value, "false") || str_eq(value, "true")
    } else if str_eq(type_value, "STRING") {
        true
    } else if str_eq(type_value, "INT") {
        is_int(value)
    } else {
        is_float(value)
    }
}

/// Whether every character is a decimal digit.
pub fn is_int(string: &str) -> (r: bool)
    ensures
        r == spec_is_int(string@),
{
    let n = string.unicode_len();
    let mut i: usize = 0;
    while i < n
        invariant
            0 <= i <= n,
            n == string@.len(),
            forall|j: int| 0 <= j < i ==> is_digit_char(#[trigger] string@[j]),
        decreases n - i,
    {
        let c = string.get_char(i);
        if !('0' <= c && c <= '9') {
            return false;
        }
        i = i + 1;
    }
    true
}

/// Whether `string` writes a decimal number: digits with at most one point,
/// which does not end it.
pub fn is_float(string: &str) -> (r: bool)
    ensures
        r == spec_is_float(string@),
{
    let n = string.unicode_len();
    let mut point = false;
    let mut i: usize = 0;
    while i < n
        invariant
            0 <= i <= n,
            n == string@.len(),
            forall|j: int| 0 <= j < i ==> is_digit_char(#[trigger] string@[j]) || string@[j] == '.',
            forall|j: int, k: int| 0 <= j < k < i && string@[j] == '.' ==> string@[k] != '.',
            point == (exists|j: int| 0 <= j < i && string@[j] == '.'),
            forall|j: int| 0 <= j < i && string@[j] == '.' ==> j != n - 1,
        decreases n - i,
    {
        let c = string.get_char(i);
        if !('0' <= c && c <= '9') {
            if c == '.' && !point {
                if i == n - 1 {
                    return false;
                }
                point = true;
            } else {
                proof {
                    if c == '.' {
                        let j = choose|j: int| 0 <= j < i && string@[j] == '.';
                        assert(string@[j] == '.' && string@[i as int] == '.');
                    }
                }
                return false;
            }
        }
        i = i + 1;
    }
    true
}

/// Whether `string` writes a value: a decimal number.
pub fn is_value(string: &str) -> (r: bool)
    ensures
        r == spec_is_float(string@),
{
    is_float(string)
}

/// The characters a variable name may hold.
pub open spec fn name_chars() -> Seq<char> {
    "azertyuiopqsdfghjklmwxcvbnAZERTYUIOPQSDFGHJKLMWXCVBN1234567890-_"@
}

/// The operators of the first shell's conditions.
pub open spec fn tools_operators() -> Seq<Seq<char>> {
    seq!["+"@]
}

/// The types, operators and name characters of the first shell.
pub struct Tools {
    authorized_type: Vec<&'static str>,
    operator_list: Vec<&'static str>,
    authorized_char_for_variable: &'static str,
}

impl Tools {
    /// The tables hold what `new` puts there.
    pub closed spec fn wf(&self) -> bool {
        &&& self.authorized_type@.len() == 1
        &&& self.authorized_type@[0]@ == "INT"@
        &&& op_views(self.operator_list@) == tools_operators()
        &&& self.authorized_char_for_variable@ == name_chars()
    }

    /// The tables of the first shell.
    pub fn new() -> (r: Tools)
        ensures
            r.wf(),
    {
        let r = Tools {
            authorized_type: vec!["INT"],
            operator_list: vec!["+"],
            authorized_char_for_variable: "azertyuiopqsdfghjklmwxcvbnAZERTYUIOPQSDFGHJKLMWXCVBN1234567890-_",
        };
        assert(op_views(r.operator_list@) =~= tools_operators());
        r
    }

    /// Whether every character of the name is a letter, a digit, `-` or `_`.
    pub fn is_correct_name(&self, name: &str) -> (r: bool)
        requires
            self.wf(),
        ensures
            r == (forall|i: int| 0 <= i < name@.len() ==> name_chars().contains(#[trigger] name@[i])),
    {
        let n = name.unicode_len();
        let allowed = self.authorized_char_for_variable;
        let m = allowed.unicode_len();
        let mut i: usize = 0;
        while i < n
            invariant
                i <= n,
                n == name@.len(),
                m == allowed@.len(),
                allowed@ == name_chars(),
                forall|j: int| 0 <= j < i ==> name_chars().contains(#[trigger] name@[j]),
            decreases n - i,
        {
            let letter = name.get_char(i);
            let mut k: usize = 0;
            let mut found = false;
            while k < m
                invariant
                    k <= m,
                    m == allowed@.len(),
                    allowed@ == name_chars(),
                    found ==> name_chars().contains(letter),
                    !found ==> forall|j: int| 0 <= j < k ==> allowed@[j] != letter,
                decreases m - k,
            {
                if allowed.get_char(k) == letter {
                    found = true;
                }
                k += 1;
            }
            if !found {
                assert(!name_chars().contains(name@[i as int]));
                return false;
            }
            i += 1;
        }
        true
    }

    /// The operator of rank `n`.
    pub fn get_nth_operator(&self, n: i32) -> (r: &'static str)
        requires
            self.wf(),
            0 <= n < 1,
        ensures
            r@ == tools_operators()[n as int],
    {
        assert(op_views(self.operator_list@).len() == self.operator_list@.len());
        assert(op_views(self.operator_list@)[n as int] == self.operator_list@[n as int]@);
        self.operator_list[n as usize]
    }

    /// Whether `op` is an operator.
    pub fn operator_exist(&self, op: &str) -> (r: bool)
        requires
            self.wf(),
        ensures
            r == tools_operators().contains(op@),
    {
        let mut i: usize = 0;
        while i < self.operator_list.len()
            invariant
                0 <= i <= self.operator_list@.len(),
                self.wf(),
                forall|j: int| 0 <= j < i ==> tools_operators()[j] != op@,
            decreases self.operator_list.len() - i,
        {
            assert(op_views(self.operator_list@)[i as int] == self.operator_list@[i as int]@);
            if str_eq(self.operator_list[i], op) {
                assert(tools_operators()[i as int] == op@);
                return true;
            }
            i = i + 1;
        }
        false
    }

    /// A condition in postfix order, its words separated by spaces.
    pub fn valid_infix_to_postfix(&self, exp: &str) -> (r: String)
        requires
            self.wf(),
            spec_infix_to_postfix(tools_operators(), exp@) is Some,
        ensures
            r@ == spec_infix_to_postfix(tools_operators(), exp@)->0,
    {
        infix_to_postfix(&self.operator_list, exp)
    }
}

/// The priority of an operator of a condition: `AND` and `OR` bind least,
/// `(` most.
pub fn get_priority(operator: &str) -> (r: i32)
    ensures
        r == cond_priority(operator@),
{
    cond_priority_of(&crate::text::chars_of(operator))
}

} // verus!
