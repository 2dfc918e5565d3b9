//! The reading of the requests of Iris: the request is cut in words, checked,
//! and turned into the arguments that the storage system receives.
use vstd::prelude::*;
use crate::text::{
    views, spec_split, split_str, spec_join, join_str, spec_words, split_words, occurs, contains_str,
    int_digits, nat_digits, str_eq, copy_str, new_string, push_str, push_int, string_of, starts_with, ends_with,
    chars_of, spec_trim, trim_str, count_of, count_char, byte_len, byte_len_upto, spec_replace,
    replace_str, spec_collapse, collapse_spaces, lemma_split_nonempty,
};
use crate::compiler::tools::tools::{spec_valid_name, name_char};
use crate::tools::name_chars;
use crate::iris::type_gestion::{
    TypeGestion, spec_operator_list, spec_is_float, code_sum, lemma_code_sum_nonneg, code_sum_fits,
    spec_is_correct_type, spec_good_value,
};
use crate::iris::arguments::Arguments;

verus! {

/// The arguments of a request, as a map.
pub type ArgMap = Map<Seq<char>, Seq<char>>;

/// The text begins with a space.
pub open spec fn starts_sp(p: Seq<char>) -> bool {
    p.len() > 0 && p[0] == ' '
}

/// The text ends with a space.
pub open spec fn ends_sp(p: Seq<char>) -> bool {
    p.len() > 0 && p.last() == ' '
}

/// A piece between two operators, with a space added where one is missing
/// before it (but for the first piece) and after it (but for the last one).
pub open spec fn pad(p: Seq<char>, first: bool, last: bool) -> Seq<char> {
    let p1 = if !first && !starts_sp(p) { " "@ + p } else { p };
    if !last && !ends_sp(p1) { p1 + " "@ } else { p1 }
}

/// Some piece lacks a space next to an operator.
pub open spec fn lacks_space(pieces: Seq<Seq<char>>) -> bool {
    exists|i: int|
        0 <= i < pieces.len() && ((i != 0 && !starts_sp(#[trigger] pieces[i])) || (i != pieces.len() - 1
            && !ends_sp(pieces[i])))
}

/// The condition with spaces around each occurrence of `op`; `None` when one
/// is missing and adding them is not allowed.
pub open spec fn spec_replace_the_space(cond: Seq<char>, op: Seq<char>, ok_to_replace: bool) -> Option<Seq<char>> {
    let pieces = spec_split(cond, op);
    if !ok_to_replace && lacks_space(pieces) {
        None
    } else {
        Some(
            spec_join(
                pieces.map(|i: int, p: Seq<char>| pad(p, i == 0, i == pieces.len() - 1)),
                op,
            ),
        )
    }
}

/// An operator of the conditions.
pub open spec fn op_exist(x: Seq<char>) -> bool {
    spec_operator_list().contains(x)
}

/// The text is a part of `()`.
pub open spec fn in_par(x: Seq<char>) -> bool {
    occurs("()"@, x)
}

/// A quoted string cut by spaces, gathered back: the words from `i` are
/// added to `acc` until it ends with a quote. `None`: the string read so far
/// is empty (no reading is defined there).
pub open spec fn merge_quote(ss: Seq<Seq<char>>, i: int, acc: Seq<char>) -> Option<(Seq<Seq<char>>, Seq<char>)>
    decreases ss.len(),
{
    if 0 <= i < ss.len() {
        if acc.len() == 0 {
            None
        } else if acc.last() != '\'' {
            merge_quote(ss.remove(i), i, acc + ss[i])
        } else {
            Some((ss, acc))
        }
    } else {
        Some((ss, acc))
    }
}

/// Gathering a quoted string never lengthens the list of words.
pub proof fn lemma_merge_quote_len(ss: Seq<Seq<char>>, i: int, acc: Seq<char>)
    requires
        0 <= i <= ss.len(),
    ensures
        merge_quote(ss, i, acc) matches Some((s2, a)) ==> i <= s2.len() <= ss.len(),
    decreases ss.len(),
{
    if 0 <= i < ss.len() && acc.len() > 0 && acc.last() != '\'' {
        lemma_merge_quote_len(ss.remove(i), i, acc + ss[i]);
    }
}

/// The checking of the words of a condition from `i` on (`n`: the index of
/// the last word at the start). The outer `None`: no reading is defined; the
/// inner `None`: the condition is refused; otherwise the words rewritten and
/// the columns named, with their tables.
pub open spec fn clean_loop(
    ss: Seq<Seq<char>>,
    i: int,
    n: int,
    opening: int,
    ending: int,
    arg: ArgMap,
) -> Option<Option<(Seq<Seq<char>>, ArgMap)>>
    decreases ss.len() - i,
{
    if i < 0 || i >= ss.len() {
        if ending != opening { Some(None) } else { Some(Some((ss, arg))) }
    } else {
        let w = ss[i];
        if op_exist(w) && w != "("@ {
            if i == 0 || i == n {
                Some(None)
            } else if op_exist(ss[i - 1]) && ss[i - 1] != "("@ {
                Some(None)
            } else if i + 1 >= ss.len() {
                None
            } else if op_exist(ss[i + 1]) && ss[i + 1] != "("@ {
                Some(None)
            } else {
                clean_loop(ss, i + 1, n, opening, ending, arg)
            }
        } else if w == "("@ {
            if i == n {
                Some(None)
            } else if i != 0 && !op_exist(ss[i - 1]) && !in_par(ss[i - 1]) {
                Some(None)
            } else if i + 1 >= ss.len() {
                None
            } else if op_exist(ss[i + 1]) && !in_par(ss[i + 1]) {
                Some(None)
            } else {
                clean_loop(ss, i + 1, n, opening + 1, ending, arg)
            }
        } else if w == ")"@ {
            if ending + 1 > opening {
                Some(None)
            } else if op_exist(ss[i - 1]) && !in_par(ss[i - 1]) {
                Some(None)
            } else if i != n && i + 1 >= ss.len() {
                None
            } else if i != n && !op_exist(ss[i + 1]) && !in_par(ss[i + 1]) {
                Some(None)
            } else {
                clean_loop(ss, i + 1, n, opening, ending + 1, arg)
            }
        } else {
            if i != 0 && !op_exist(ss[i - 1]) {
                Some(None)
            } else if i != n && i + 1 >= ss.len() {
                None
            } else if i != n && !op_exist(ss[i + 1]) && ss[i + 1] != ")"@ && w[0] != '\'' {
                Some(None)
            } else if spec_is_float(w) {
                clean_loop(ss, i + 1, n, opening, ending, arg)
            } else if w == "true"@ {
                clean_loop(ss.update(i, "1"@), i + 1, n, opening, ending, arg)
            } else if w == "false"@ {
                clean_loop(ss.update(i, "0"@), i + 1, n, opening, ending, arg)
            } else if w[0] == '\'' {
                match merge_quote(ss.remove(i), i, w.drop_first()) {
                    None => None,
                    Some((ss2, acc)) => if acc.len() == 0 || acc.last() != '\'' {
                        Some(None)
                    } else if code_sum(acc.drop_last()) > i32::MAX {
                        None
                    } else {
                        proof {
                            lemma_merge_quote_len(ss.remove(i), i, w.drop_first());
                        }
                        clean_loop(
                            ss2.insert(i, int_digits(code_sum(acc.drop_last()))),
                            i + 1,
                            n,
                            opening,
                            ending,
                            arg,
                        )
                    },
                }
            } else if occurs(w, "."@) {
                let p = spec_split(w, "."@);
                if p.len() != 2 || !spec_valid_name(p[0]) || !spec_valid_name(p[1]) {
                    Some(None)
                } else {
                    clean_loop(ss, i + 1, n, opening, ending, arg.insert(p[1], p[0]))
                }
            } else if !spec_valid_name(w) {
                Some(None)
            } else {
                clean_loop(ss, i + 1, n, opening, ending, arg.insert(w, seq![]))
            }
        }
    }
}

/// The arguments where the checking of the words of a condition from `i` on
/// stops: the columns named up to the word where it is refused (or where no
/// reading is defined), or up to the end.
pub open spec fn clean_arg(
    ss: Seq<Seq<char>>,
    i: int,
    n: int,
    opening: int,
    ending: int,
    arg: ArgMap,
) -> ArgMap
    decreases ss.len() - i,
{
    if i < 0 || i >= ss.len() {
        arg
    } else {
        let w = ss[i];
        if op_exist(w) && w != "("@ {
            if i == 0 || i == n {
                arg
            } else if op_exist(ss[i - 1]) && ss[i - 1] != "("@ {
                arg
            } else if i + 1 >= ss.len() {
                arg
            } else if op_exist(ss[i + 1]) && ss[i + 1] != "("@ {
                arg
            } else {
                clean_arg(ss, i + 1, n, opening, ending, arg)
            }
        } else if w == "("@ {
            if i == n {
                arg
            } else if i != 0 && !op_exist(ss[i - 1]) && !in_par(ss[i - 1]) {
                arg
            } else if i + 1 >= ss.len() {
                arg
            } else if op_exist(ss[i + 1]) && !in_par(ss[i + 1]) {
                arg
            } else {
                clean_arg(ss, i + 1, n, opening + 1, ending, arg)
            }
        } else if w == ")"@ {
            if ending + 1 > opening {
                arg
            } else if op_exist(ss[i - 1]) && !in_par(ss[i - 1]) {
                arg
            } else if i != n && i + 1 >= ss.len() {
                arg
            } else if i != n && !op_exist(ss[i + 1]) && !in_par(ss[i + 1]) {
                arg
            } else {
                clean_arg(ss, i + 1, n, opening, ending + 1, arg)
            }
        } else {
            if i != 0 && !op_exist(ss[i - 1]) {
                arg
            } else if i != n && i + 1 >= ss.len() {
                arg
            } else if i != n && !op_exist(ss[i + 1]) && ss[i + 1] != ")"@ && w[0] != '\'' {
                arg
            } else if spec_is_float(w) {
                clean_arg(ss, i + 1, n, opening, ending, arg)
            } else if w == "true"@ {
                clean_arg(ss.update(i, "1"@), i + 1, n, opening, ending, arg)
            } else if w == "false"@ {
                clean_arg(ss.update(i, "0"@), i + 1, n, opening, ending, arg)
            } else if w[0] == '\'' {
                match merge_quote(ss.remove(i), i, w.drop_first()) {
                    None => arg,
                    Some((ss2, acc)) => if acc.len() == 0 || acc.last() != '\'' {
                        arg
                    } else if code_sum(acc.drop_last()) > i32::MAX {
                        arg
                    } else {
                        proof {
                            lemma_merge_quote_len(ss.remove(i), i, w.drop_first());
                        }
                        clean_arg(
                            ss2.insert(i, int_digits(code_sum(acc.drop_last()))),
                            i + 1,
                            n,
                            opening,
                            ending,
                            arg,
                        )
                    },
                }
            } else if occurs(w, "."@) {
                let p = spec_split(w, "."@);
                if p.len() != 2 || !spec_valid_name(p[0]) || !spec_valid_name(p[1]) {
                    arg
                } else {
                    clean_arg(ss, i + 1, n, opening, ending, arg.insert(p[1], p[0]))
                }
            } else if !spec_valid_name(w) {
                arg
            } else {
                clean_arg(ss, i + 1, n, opening, ending, arg.insert(w, seq![]))
            }
        }
    }
}


/// The condition with spaces put around the comparison operators, `(` and
/// `)`.
pub open spec fn spaced_condition(c: Seq<char>) -> Seq<char> {
    let c1 = spec_replace_the_space(c, "<"@, true)->0;
    let c2 = spec_replace_the_space(c1, ">"@, true)->0;
    let c3 = spec_replace_the_space(c2, "<="@, true)->0;
    let c4 = spec_replace_the_space(c3, ">="@, true)->0;
    let c5 = spec_replace_the_space(c4, "=="@, true)->0;
    let c6 = spec_replace_the_space(c5, "!="@, true)->0;
    let c7 = spec_replace_the_space(c6, "("@, true)->0;
    spec_replace_the_space(c7, ")"@, true)->0
}

/// The reading of a condition. The outer `None`: no reading is defined; the
/// inner `None`: the condition does not respect the syntax; otherwise the
/// condition rewritten (booleans as `1` and `0`, a quoted string as the sum
/// of its character codes) and the arguments with each column named, mapped
/// to its table (empty when none is given).
pub open spec fn spec_clean_the_condition(cond: Seq<char>, arg: ArgMap) -> Option<Option<(Seq<char>, ArgMap)>> {
    match spec_replace_the_space(cond, "AND"@, false) {
        None => Some(None),
        Some(c1) => match spec_replace_the_space(c1, "OR"@, false) {
            None => Some(None),
            Some(c2) => {
                let ss = spec_words(spaced_condition(c2));
                if ss.len() == 0 {
                    None
                } else {
                    match clean_loop(ss, 0, ss.len() - 1, 0, 0, arg) {
                        None => None,
                        Some(None) => Some(None),
                        Some(Some((ss2, a))) => Some(Some((spec_join(ss2, " "@), a))),
                    }
                }
            },
        },
    }
}

/// The arguments once a condition is read: unchanged where its `AND`/`OR`
/// are refused or it has no word, else with the columns named up to where
/// the checking of its words stops.
pub open spec fn spec_clean_arg(cond: Seq<char>, arg: ArgMap) -> ArgMap {
    match spec_replace_the_space(cond, "AND"@, false) {
        None => arg,
        Some(c1) => match spec_replace_the_space(c1, "OR"@, false) {
            None => arg,
            Some(c2) => {
                let ss = spec_words(spaced_condition(c2));
                if ss.len() == 0 {
                    arg
                } else {
                    clean_arg(ss, 0, ss.len() - 1, 0, 0, arg)
                }
            },
        },
    }
}


/// Whether the text ends with a quote.
fn last_is_quote(s: &str) -> (r: bool)
    ensures
        r == (s@.len() > 0 && s@.last() == '\''),
{
    let n = s.unicode_len();
    n > 0 && s.get_char(n - 1) == '\''
}

/// Whether the text begins with a space.
fn first_is_space(s: &str) -> (r: bool)
    ensures
        r == starts_sp(s@),
{
    s.unicode_len() > 0 && s.get_char(0) == ' '
}

/// Whether the text ends with a space.
fn last_is_space(s: &str) -> (r: bool)
    ensures
        r == ends_sp(s@),
{
    let n = s.unicode_len();
    n > 0 && s.get_char(n - 1) == ' '
}

/// The reader of requests.
pub struct Interpreteur {
    authorized_char_for_variable: &'static str,
    type_gestion: TypeGestion,
}

impl Interpreteur {
    /// The reader's tables are in place.
    pub closed spec fn wf(&self) -> bool {
        self.type_gestion.wf()
    }

    /// The characters a name may be made of.
    pub closed spec fn authorized_chars(&self) -> Seq<char> {
        self.authorized_char_for_variable@
    }

    /// A reader of requests: the types and operators of Iris, and the
    /// letters, digits, `-` and `_` for names.
    pub fn new() -> (r: Interpreteur)
        ensures
            r.wf(),
            r.authorized_chars() == name_chars(),
    {
        Interpreteur {
            authorized_char_for_variable: "azertyuiopqsdfghjklmwxcvbnAZERTYUIOPQSDFGHJKLMWXCVBN1234567890-_",
            type_gestion: TypeGestion::new(),
        }
    }

    /// Whether every character of `name` is allowed in a name.
    pub fn is_correct_name(&self, name: &str) -> (r: bool)
        ensures
            r == spec_valid_name(name@),
    {
        let n = name.unicode_len();
        let mut i: usize = 0;
        while i < n
            invariant
                0 <= i <= n,
                n == name@.len(),
                forall|j: int| 0 <= j < i ==> name_char(#[trigger] name@[j]),
            decreases n - i,
        {
            let c = name.get_char(i);
            if !(('a' <= c && c <= 'z') || ('A' <= c && c <= 'Z') || ('0' <= c && c <= '9') || c == '-'
                || c == '_') {
                return false;
            }
            i = i + 1;
        }
        true
    }

    /// Puts spaces around each occurrence of `operator`; `None` when one is
    /// missing and `ok_to_replace` is false.
    pub fn replace_the_space(&self, cond: String, operator: &str, ok_to_replace: bool) -> (r: Option<String>)
        requires
            operator@.len() > 0,
        ensures
            opt_chars(r) == spec_replace_the_space(cond@, operator@, ok_to_replace),
    {
        let mut split = split_str(cond.as_str(), operator);
        let ghost pieces = views(split@);
        let n = split.len();
        let mut i: usize = 0;
        while i < n
            invariant
                0 <= i <= n,
                n == split@.len(),
                pieces.len() == n,
                pieces == spec_split(cond@, operator@),
                forall|j: int| 0 <= j < i ==> #[trigger] views(split@)[j] == pad(pieces[j], j == 0, j == n - 1),
                forall|j: int| i <= j < n ==> #[trigger] views(split@)[j] == pieces[j],
                !ok_to_replace ==> forall|j: int|
                    0 <= j < i ==> !((j != 0 && !starts_sp(#[trigger] pieces[j])) || (j != n - 1 && !ends_sp(pieces[j]))),
            decreases n - i,
        {
            let mut piece = copy_str(split[i].as_str());
            assert(views(split@)[i as int] == split@[i as int]@);
            if i != 0 && !first_is_space(piece.as_str()) {
                if !ok_to_replace {
                    proof {
                        assert(i != 0 && !starts_sp(pieces[i as int]));
                        assert(lacks_space(pieces));
                    }
                    return None;
                }
                let mut p2 = copy_str(" ");
                push_str(&mut p2, piece.as_str());
                piece = p2;
            }
            if i != n - 1 && !last_is_space(piece.as_str()) {
                if !ok_to_replace {
                    proof {
                        assert(i != n - 1 && !ends_sp(pieces[i as int]));
                        assert(lacks_space(pieces));
                    }
                    return None;
                }
                push_str(&mut piece, " ");
            }
            let ghost before = views(split@);
            split.set(i, piece);
            assert(views(split@) =~= before.update(i as int, pad(pieces[i as int], i == 0, i == n - 1)));
            i = i + 1;
        }
        proof {
            assert(views(split@) =~= pieces.map(|j: int, p: Seq<char>| pad(p, j == 0, j == pieces.len() - 1)));
            if !ok_to_replace && lacks_space(pieces) {
                let j = choose|j: int|
                    0 <= j < pieces.len() && ((j != 0 && !starts_sp(#[trigger] pieces[j])) || (j != pieces.len() - 1
                        && !ends_sp(pieces[j])));
                assert(false);
            }
        }
        Some(join_str(&split, operator))
    }
}

/// An optional text by its characters.
pub open spec fn opt_chars(o: Option<String>) -> Option<Seq<char>> {
    match o {
        Some(s) => Some(s@),
        None => None,
    }
}


/// The words of a text, as strings.
fn words_of(s: &str) -> (r: Vec<String>)
    ensures
        views(r@) == spec_words(s@),
{
    let w = split_words(s);
    let mut r: Vec<String> = Vec::new();
    let mut i: usize = 0;
    while i < w.len()
        invariant
            0 <= i <= w@.len(),
            w@.map_values(|p: Vec<char>| p@) == spec_words(s@),
            views(r@) == spec_words(s@).subrange(0, i as int),
        decreases w.len() - i,
    {
        let ghost before = views(r@);
        r.push(string_of(&w[i]));
        assert(w@.map_values(|p: Vec<char>| p@)[i as int] == w@[i as int]@);
        assert(views(r@) =~= before.push(w@[i as int]@));
        assert(spec_words(s@).subrange(0, i + 1) =~= spec_words(s@).subrange(0, i as int).push(spec_words(s@)[i as int]));
        i = i + 1;
    }
    assert(spec_words(s@).subrange(0, w@.len() as int) =~= spec_words(s@));
    r
}

impl Interpreteur {
    /// Puts spaces around the comparison operators, `(` and `)`.
    fn space_operators(&self, c: String) -> (r: String)
        requires
            self.wf(),
        ensures
            r@ == spaced_condition(c@),
    {
        proof {
            reveal_strlit("<");
            reveal_strlit(">");
            reveal_strlit("<=");
            reveal_strlit(">=");
            reveal_strlit("==");
            reveal_strlit("!=");
            reveal_strlit("(");
            reveal_strlit(")");
        }
        let c1 = self.replace_the_space(c, self.type_gestion.get_nth_operator(0), true).unwrap();
        let c2 = self.replace_the_space(c1, self.type_gestion.get_nth_operator(1), true).unwrap();
        let c3 = self.replace_the_space(c2, self.type_gestion.get_nth_operator(2), true).unwrap();
        let c4 = self.replace_the_space(c3, self.type_gestion.get_nth_operator(3), true).unwrap();
        let c5 = self.replace_the_space(c4, self.type_gestion.get_nth_operator(4), true).unwrap();
        let c6 = self.replace_the_space(c5, self.type_gestion.get_nth_operator(5), true).unwrap();
        let c7 = self.replace_the_space(c6, self.type_gestion.get_nth_operator(6), true).unwrap();
        self.replace_the_space(c7, ")", true).unwrap()
    }

    /// Checks the word at `i` of a condition and rewrites it; false when the
    /// condition is refused there, `None` where no reading is defined.
    fn clean_step(
        &self,
        ss: &mut Vec<String>,
        i: usize,
        n: usize,
        opening: &mut usize,
        ending: &mut usize,
        work: &mut Arguments,
    ) -> (r: Option<bool>)
        requires
            self.wf(),
            i < old(ss)@.len(),
            *old(opening) <= i,
            *old(ending) <= i,
            forall|k: int| 0 <= k < old(ss)@.len() ==> (#[trigger] old(ss)@[k])@.len() > 0,
        ensures
            r is None ==> clean_loop(views(old(ss)@), i as int, n as int, *old(opening) as int, *old(ending) as int,
                old(work)@) is None,
            r is None || r == Some(false) ==> final(work)@ == old(work)@ && clean_arg(views(old(ss)@), i as int, n as int,
                *old(opening) as int, *old(ending) as int, old(work)@) == old(work)@,
            r == Some(true) ==> clean_arg(views(old(ss)@), i as int, n as int, *old(opening) as int, *old(ending) as int, old(work)@)
                == clean_arg(views(final(ss)@), i + 1, n as int, *final(opening) as int, *final(ending) as int, final(work)@),
            r == Some(false) ==> clean_loop(views(old(ss)@), i as int, n as int, *old(opening) as int, *old(ending) as int, old(work)@)
                == Some(None::<(Seq<Seq<char>>, ArgMap)>),
            r == Some(true) ==> clean_loop(views(old(ss)@), i as int, n as int, *old(opening) as int, *old(ending) as int, old(work)@)
                == clean_loop(views(final(ss)@), i + 1, n as int, *final(opening) as int, *final(ending) as int, final(work)@),
            r == Some(true) ==> i + 1 <= final(ss)@.len() <= old(ss)@.len(),
            r == Some(true) ==> *final(opening) <= i + 1 && *final(ending) <= i + 1,
            r == Some(true) ==> forall|k: int| 0 <= k < final(ss)@.len() ==> (#[trigger] final(ss)@[k])@.len() > 0,
    {
        proof {
            reveal_strlit("(");
            reveal_strlit(")");
            reveal_strlit("()");
            reveal_strlit("true");
            reveal_strlit("false");
            reveal_strlit(".");
            reveal_strlit("1");
            reveal_strlit("0");
            reveal_strlit("");
        }
        let ghost cur = views(ss@);
        let ghost o0 = *opening as int;
        let ghost e0 = *ending as int;
        let len = ss.len();
        let w = copy_str(ss[i].as_str());
        assert(cur[i as int] == w@);
        assert(w@.len() > 0);
        if self.type_gestion.operator_exist(w.as_str()) && !str_eq(w.as_str(), "(") {
            if i == 0 || i == n {
                return Some(false);
            }
            assert(cur[i - 1] == ss@[i - 1]@);
            if self.type_gestion.operator_exist(ss[i - 1].as_str()) && !str_eq(ss[i - 1].as_str(), "(") {
                return Some(false);
            }
            if i + 1 >= ss.len() {
                return None;
            }
            assert(cur[i + 1] == ss@[i + 1]@);
            if self.type_gestion.operator_exist(ss[i + 1].as_str()) && !str_eq(ss[i + 1].as_str(), "(") {
                return Some(false);
            }
            return Some(true);
        } else if str_eq(w.as_str(), "(") {
            *opening = *opening + 1;
            if i == n {
                return Some(false);
            }
            if i != 0 {
                assert(cur[i - 1] == ss@[i - 1]@);
                if !self.type_gestion.operator_exist(ss[i - 1].as_str()) && !contains_str("()", ss[i - 1].as_str()) {
                    return Some(false);
                }
            }
            if i + 1 >= ss.len() {
                return None;
            }
            assert(cur[i + 1] == ss@[i + 1]@);
            if self.type_gestion.operator_exist(ss[i + 1].as_str()) && !contains_str("()", ss[i + 1].as_str()) {
                return Some(false);
            }
            return Some(true);
        } else if str_eq(w.as_str(), ")") {
            *ending = *ending + 1;
            if *ending > *opening {
                return Some(false);
            }
            assert(cur[i - 1] == ss@[i - 1]@);
            if self.type_gestion.operator_exist(ss[i - 1].as_str()) && !contains_str("()", ss[i - 1].as_str()) {
                return Some(false);
            }
            if i != n {
                if i + 1 >= ss.len() {
                return None;
            }
                assert(cur[i + 1] == ss@[i + 1]@);
                if !self.type_gestion.operator_exist(ss[i + 1].as_str()) && !contains_str("()", ss[i + 1].as_str()) {
                    return Some(false);
                }
            }
            return Some(true);
        }
        if i != 0 {
            assert(cur[i - 1] == ss@[i - 1]@);
            if !self.type_gestion.operator_exist(ss[i - 1].as_str()) {
                return Some(false);
            }
        }
        if i != n {
            if i + 1 >= ss.len() {
                return None;
            }
            assert(cur[i + 1] == ss@[i + 1]@);
            if !self.type_gestion.operator_exist(ss[i + 1].as_str()) && !str_eq(ss[i + 1].as_str(), ")")
                && w.as_str().get_char(0) != '\'' {
                return Some(false);
            }
        }
        if self.type_gestion.is_float(w.as_str()) {
            return Some(true);
        }
        if str_eq(w.as_str(), "true") {
            ss.set(i, copy_str("1"));
            assert(views(ss@) =~= cur.update(i as int, "1"@));
            return Some(true);
        }
        if str_eq(w.as_str(), "false") {
            ss.set(i, copy_str("0"));
            assert(views(ss@) =~= cur.update(i as int, "0"@));
            return Some(true);
        }
        if w.as_str().get_char(0) == '\'' {
            let wc = chars_of(w.as_str());
            let mut rest: Vec<char> = Vec::new();
            let mut k: usize = 1;
            while k < wc.len()
                invariant
                    1 <= k <= wc@.len(),
                    rest@ == wc@.subrange(1, k as int),
                decreases wc.len() - k,
            {
                rest.push(wc[k]);
                assert(wc@.subrange(1, k + 1) =~= wc@.subrange(1, k as int).push(wc@[k as int]));
                k = k + 1;
            }
            let mut the_string = string_of(&rest);
            assert(the_string@ =~= w@.drop_first());
            ss.remove(i);
            assert(views(ss@) =~= cur.remove(i as int));
            let ghost m0 = merge_quote(cur.remove(i as int), i as int, w@.drop_first());
            proof {
                lemma_merge_quote_len(cur.remove(i as int), i as int, w@.drop_first());
            }
            while i != ss.len() && !last_is_quote(the_string.as_str())
                invariant
                    i <= ss@.len(),
                    merge_quote(views(ss@), i as int, the_string@) == m0,
                    m0 is None ==> clean_loop(views(old(ss)@), i as int, n as int, *old(opening) as int,
                        *old(ending) as int, old(work)@) is None,
                    m0 is None ==> clean_arg(views(old(ss)@), i as int, n as int, *old(opening) as int,
                        *old(ending) as int, old(work)@) == old(work)@,
                    work@ == old(work)@,
                    forall|k: int| 0 <= k < ss@.len() ==> (#[trigger] ss@[k])@.len() > 0,
                decreases ss@.len(),
            {
                if the_string.as_str().unicode_len() == 0 {
                    return None;
                }
                let ghost vs = views(ss@);
                assert(vs[i as int] == ss@[i as int]@);
                push_str(&mut the_string, ss[i].as_str());
                let ghost before_rm = ss@;
                ss.remove(i);
                assert(views(ss@) =~= vs.remove(i as int));
                assert forall|k: int| 0 <= k < ss@.len() implies (#[trigger] ss@[k])@.len() > 0 by {
                    if k < i {
                        assert(ss@[k] == before_rm[k]);
                    } else {
                        assert(ss@[k] == before_rm[k + 1]);
                    }
                }
            }
            let tc = chars_of(the_string.as_str());
            if tc.len() == 0 || tc[tc.len() - 1] != '\'' {
                return Some(false);
            }
            let mut body: Vec<char> = Vec::new();
            let mut k2: usize = 0;
            while k2 < tc.len() - 1
                invariant
                    0 <= k2 <= tc@.len() - 1,
                    tc@.len() > 0,
                    body@ == tc@.subrange(0, k2 as int),
                decreases tc.len() - 1 - k2,
            {
                body.push(tc[k2]);
                assert(tc@.subrange(0, k2 + 1) =~= tc@.subrange(0, k2 as int).push(tc@[k2 as int]));
                k2 = k2 + 1;
            }
            let inner = string_of(&body);
            assert(inner@ =~= the_string@.drop_last());
            proof {
                lemma_code_sum_nonneg(inner@);
            }
            if !code_sum_fits(inner.as_str()) {
                return None;
            }
            let h = self.type_gestion.hash_string_to_number(inner);
            let mut hs = new_string();
            push_int(&mut hs, h as i128);
            proof {
                crate::text::lemma_int_digits_nonempty(h as int);
            }
            let ghost vs2 = ss@;
            ss.insert(i, hs);
            assert(views(ss@) =~= views(vs2).insert(i as int, int_digits(code_sum(the_string@.drop_last()))));
            assert forall|k: int| 0 <= k < ss@.len() implies (#[trigger] ss@[k])@.len() > 0 by {
                if k < i {
                    assert(ss@[k] == vs2[k]);
                } else if k > i {
                    assert(ss@[k] == vs2[k - 1]);
                }
            }
            return Some(true);
        }
        if contains_str(w.as_str(), ".") {
            let p = split_str(w.as_str(), ".");
            if p.len() != 2 {
                return Some(false);
            }
            assert(views(p@)[0] == p@[0]@ && views(p@)[1] == p@[1]@);
            if !self.is_correct_name(p[0].as_str()) || !self.is_correct_name(p[1].as_str()) {
                return Some(false);
            }
            work.set(p[1].as_str(), p[0].as_str());
            return Some(true);
        }
        if !self.is_correct_name(w.as_str()) {
            return Some(false);
        }
        work.set(w.as_str(), "");
        assert(""@ =~= Seq::<char>::empty());
        Some(true)
    }

    /// Checks a condition and rewrites it for the storage system: booleans
    /// become `1` and `0`, a quoted string the sum of its character codes, and
    /// each column named is added to `arg` (with its table, or an empty text).
    /// `None`, and `arg` unchanged, when the condition does not respect the
    /// syntax.
    pub fn clean_the_condition(&self, cond: String, arg: &mut Arguments) -> (r: Option<String>)
        requires
            self.wf(),
            spec_clean_the_condition(cond@, old(arg)@) is Some,
        ensures
            match r {
                None => spec_clean_the_condition(cond@, old(arg)@)->0 is None && final(arg)@ == spec_clean_arg(
                    cond@,
                    old(arg)@,
                ),
                Some(c) => spec_clean_the_condition(cond@, old(arg)@)->0 == Some((c@, final(arg)@)),
            },
    {
        match self.checked_clean_the_condition(cond, arg) {
            Some(r) => r,
            None => {
                proof {
                    assert(false);
                }
                None
            },
        }
    }

    /// `clean_the_condition` on any condition: `None` where no reading is
    /// defined, and `arg` unchanged unless the condition is kept.
    pub fn checked_clean_the_condition(&self, cond: String, arg: &mut Arguments) -> (r: Option<Option<String>>)
        requires
            self.wf(),
        ensures
            match spec_clean_the_condition(cond@, old(arg)@) {
                None => r is None && final(arg)@ == spec_clean_arg(cond@, old(arg)@),
                Some(None) => r == Some(None::<String>) && final(arg)@ == spec_clean_arg(cond@, old(arg)@),
                Some(Some((c, a))) => r matches Some(Some(x)) && x@ == c && final(arg)@ == a,
            },
    {
        proof {
            reveal_strlit("AND");
            reveal_strlit("OR");
        }
        let ghost arg0 = arg@;
        let c1 = match self.replace_the_space(cond, "AND", false) {
            Some(c) => c,
            None => {
                return Some(None);
            },
        };
        let c2 = match self.replace_the_space(c1, "OR", false) {
            Some(c) => c,
            None => {
                return Some(None);
            },
        };
        let spaced = self.space_operators(c2);
        let mut ss = words_of(spaced.as_str());
        proof {
            crate::text::lemma_words_from_nonempty(spaced@, 0, seq![]);
            assert forall|k: int| 0 <= k < ss@.len() implies (#[trigger] ss@[k])@.len() > 0 by {
                assert(views(ss@)[k] == ss@[k]@);
            }
        }
        let ghost ss0 = views(ss@);
        if ss.len() == 0 {
            return None;
        }
        let n = ss.len() - 1;
        let ghost l0 = clean_loop(ss0, 0, n as int, 0, 0, arg0);
        assert(spec_clean_the_condition(cond@, arg0) == finish(l0));
        let ghost a0 = clean_arg(ss0, 0, n as int, 0, 0, arg0);
        assert(spec_clean_arg(cond@, arg0) == a0);
        let mut work = arg.clone();
        let mut i: usize = 0;
        let mut opening: usize = 0;
        let mut ending: usize = 0;
        while i < ss.len()
            invariant
                self.wf(),
                0 <= i <= ss@.len(),
                opening <= i,
                ending <= i,
                clean_loop(views(ss@), i as int, n as int, opening as int, ending as int, work@) == l0,
                forall|k: int| 0 <= k < ss@.len() ==> (#[trigger] ss@[k])@.len() > 0,
                arg@ == arg0,
                old(arg)@ == arg0,
                spec_clean_the_condition(cond@, arg0) == finish(l0),
                clean_arg(views(ss@), i as int, n as int, opening as int, ending as int, work@) == a0,
                spec_clean_arg(cond@, arg0) == a0,
            decreases ss@.len() - i,
        {
            match self.clean_step(&mut ss, i, n, &mut opening, &mut ending, &mut work) {
                None => {
                    *arg = work;
                    return None;
                },
                Some(false) => {
                    *arg = work;
                    return Some(None);
                },
                Some(true) => {},
            }
            i = i + 1;
        }
        if ending != opening {
            *arg = work;
            return Some(None);
        }
        *arg = work;
        Some(Some(join_str(&ss, " ")))
    }
}

/// The result of the checking loop, with the words joined.
pub open spec fn finish(l: Option<Option<(Seq<Seq<char>>, ArgMap)>>) -> Option<Option<(Seq<char>, ArgMap)>> {
    match l {
        None => None,
        Some(None) => Some(None),
        Some(Some((ss, a))) => Some(Some((spec_join(ss, " "@), a))),
    }
}


/// The result of reading a request: `None` where no reading is defined, else the
/// arguments for the storage system or the error reported.
pub type Reading = Option<Result<ArgMap, Seq<char>>>;

/// `valid_table_name`: the first word names the table.
pub open spec fn spec_valid_table_name(arg: ArgMap, v: Seq<Seq<char>>) -> Result<(ArgMap, Seq<Seq<char>>), Seq<char>> {
    if spec_valid_name(v[0]) {
        Ok((arg.insert(":table_name"@, v[0]), v.drop_first()))
    } else {
        Err(v[0] + " isn't a correct name for a table."@)
    }
}

/// `catch_condition`: an optional `WHERE` and its condition (`1 == 1` when
/// there is none).
pub open spec fn spec_catch_condition(arg: ArgMap, v: Seq<Seq<char>>) -> Reading {
    if v.len() > 0 {
        if v[0] == "WHERE"@ {
            let rest = v.drop_first();
            if rest.len() == 0 {
                Some(Err("Condition missing"@))
            } else {
                match spec_clean_the_condition(spec_join(rest, " "@), arg) {
                    None => None,
                    Some(None) => Some(Err("The condition doesn't respect the syntax rules."@)),
                    Some(Some((c, a))) => Some(Ok(a.insert(":condition"@, c))),
                }
            }
        } else {
            Some(Err("Bad keyword: "@ + v[0]))
        }
    } else {
        Some(Ok(arg.insert(":condition"@, "1 == 1"@)))
    }
}

/// `s` without its last character, if any (`String::pop`).
pub open spec fn pop_last(s: Seq<char>) -> Seq<char> {
    if s.len() > 0 { s.drop_last() } else { s }
}

/// The `SET` list of an update: the columns and values, each followed by a
/// `/`, and the words left. `None`: no reading is defined.
pub open spec fn spec_set_loop(v: Seq<Seq<char>>, cols: Seq<char>, vals: Seq<char>) -> Option<(Seq<char>, Seq<char>, Seq<Seq<char>>)>
    decreases v.len(),
{
    if v.len() == 0 {
        Some((cols, vals, v))
    } else if count_of(v[0], '=') == 1 {
        let p = spec_split(v[0], "="@);
        if p.len() < 2 {
            None
        } else {
            spec_set_loop(v.drop_first(), cols + spec_trim(p[0]) + "/"@, vals + spec_trim(p[1]) + "/"@)
        }
    } else {
        Some((pop_last(cols), pop_last(vals), v.drop_first()))
    }
}

/// `UPDATE table SET col=val ... [WHERE condition]`.
pub open spec fn spec_update_request(v: Seq<Seq<char>>) -> Reading {
    if v.len() >= 3 {
        let a0 = Map::<Seq<char>, Seq<char>>::empty().insert(":request"@, "UPDATE"@);
        match spec_valid_table_name(a0, v) {
            Err(e) => Some(Err(e)),
            Ok((a1, v1)) => if v1[0] == "SET"@ {
                match spec_set_loop(v1.drop_first(), seq![], seq![]) {
                    None => None,
                    Some((cols, vals, v3)) => spec_catch_condition(
                        a1.insert(":cols"@, cols).insert(":values"@, vals),
                        v3,
                    ),
                }
            } else {
                Some(Err("The keyword "@ + v1[0] + " is unknow by the system."@))
            },
        }
    } else {
        Some(Err("Not enough token for the request UPDATE "@ + spec_join(v, " "@)))
    }
}

/// The list of selected columns: each followed by a `/`, and the words left.
/// `None`: no reading is defined (the list ends without `FROM`).
pub open spec fn spec_asked_loop(v: Seq<Seq<char>>, acc: Seq<char>) -> Option<(Seq<char>, Seq<Seq<char>>)>
    decreases v.len(),
{
    if v.len() == 0 {
        None
    } else {
        let acc2 = acc + v[0] + "/"@;
        let v2 = v.drop_first();
        if v2.len() == 0 {
            None
        } else if v2[0] != ","@ {
            Some((acc2, v2))
        } else {
            spec_asked_loop(v2.drop_first(), acc2)
        }
    }
}

/// The part of a selection after the list of columns.
pub open spec fn spec_select_from(a1: ArgMap, v1: Seq<Seq<char>>) -> Reading {
    if v1.len() > 0 {
        if v1[0] == "FROM"@ {
            let v2 = v1.drop_first();
            if v2.len() == 0 {
                None
            } else {
                match spec_valid_table_name(a1, v2) {
                    Err(e) => Some(Err(e)),
                    Ok((a2, v3)) => spec_catch_condition(a2, v3),
                }
            }
        } else {
            Some(Err(v1[0] + " found where From was expected"@))
        }
    } else {
        Some(Err("Nothing found where FROM was expected."@))
    }
}

/// `SELECT * | col , col ... FROM table [WHERE condition]`.
pub open spec fn spec_select_request(v: Seq<Seq<char>>) -> Reading {
    if v.len() >= 3 {
        let a0 = Map::<Seq<char>, Seq<char>>::empty().insert(":request"@, "SELECT"@).insert(":asked"@, "*"@);
        if v[0] == "*"@ {
            spec_select_from(a0, v.drop_first())
        } else {
            match spec_asked_loop(v, seq![]) {
                None => None,
                Some((asked, v1)) => if byte_len(asked) == 1 {
                    Some(Err("Nothing selected"@))
                } else {
                    spec_select_from(a0.insert(":asked"@, asked.drop_last()), v1)
                },
            }
        }
    } else {
        Some(Err("The request 'SELECT "@ + spec_join(v, " "@) + "' isn't valid."@))
    }
}

/// `DELETE FROM table [WHERE condition]`.
pub open spec fn spec_delete_line(v: Seq<Seq<char>>) -> Reading {
    if v.len() >= 2 {
        if v[0] == "FROM"@ {
            let v1 = v.drop_first();
            let t = v1[0];
            if byte_len(t) > 2 && spec_valid_name(t) {
                let a0 = Map::<Seq<char>, Seq<char>>::empty().insert(":asked"@, seq![]);
                spec_catch_condition(
                    a0.insert(":table_name"@, t).insert(":request"@, "DELETE_LINE_IF"@),
                    v1.drop_first(),
                )
            } else if byte_len(t) <= 2 {
                Some(Err("Nothing found when a table name was expected."@))
            } else {
                Some(Err("'"@ + t + "' isn't a correct name for a table."@))
            }
        } else {
            Some(Err("'"@ + v[0] + "' found whene FROM was expected"@))
        }
    } else {
        Some(Err("The request 'DELETE "@ + spec_join(v, " "@) + "' isn't valid."@))
    }
}

/// The request that drops one table.
pub open spec fn drop_one(t: Seq<char>) -> ArgMap {
    Map::<Seq<char>, Seq<char>>::empty().insert(":request"@, "DELETE_TABLE"@).insert(":table_name"@, t)
}

/// `DROP TABLE t1 t2 ...`: one request per table.
pub open spec fn spec_drop_req(v: Seq<Seq<char>>) -> Result<Seq<ArgMap>, Seq<char>> {
    if v.len() >= 2 {
        if v[0] == "TABLE"@ {
            Ok(v.drop_first().map_values(|t: Seq<char>| drop_one(t)))
        } else {
            Err(v[0] + " is unknow by the system"@)
        }
    } else {
        Err("DROP "@ + spec_join(v, " "@) + " isn't a valid command."@)
    }
}

/// The columns and values of an insertion, from `i` on.
pub open spec fn spec_insert_loop(a: ArgMap, names: Seq<Seq<char>>, vals: Seq<Seq<char>>, i: int) -> Result<ArgMap, Seq<char>>
    decreases names.len() - i,
{
    if i < 0 || i >= names.len() {
        Ok(a)
    } else if spec_valid_name(names[i]) {
        let x = vals[i];
        if x.len() > 0 && x[0] == '\'' {
            let y = x.drop_first();
            if y.len() == 0 || y.last() != '\'' {
                Err("You forgot to close this: '"@)
            } else {
                spec_insert_loop(a.insert(names[i], y.drop_last()), names, vals, i + 1)
            }
        } else {
            spec_insert_loop(a.insert(names[i], x), names, vals, i + 1)
        }
    } else {
        Err("This name isn't correct for a variable: "@ + names[i])
    }
}

/// The message of a missing parenthesis.
pub open spec fn paren_missing() -> Seq<char> {
    "A parenthésis is missing in your request."@
}

/// The part of an insertion after the table name.
pub open spec fn spec_insert_values(a2: ArgMap, v2: Seq<Seq<char>>) -> Reading {
    let req = spec_replace(spec_replace(spec_join(v2, " "@), ", "@, ","@), " ,"@, ","@);
    let parts = spec_split(req, " VALUES "@);
    if parts.len() == 2 {
        let arg_s = parts[0];
        let val_s = parts[1];
        if arg_s.len() == 0 {
            None
        } else if arg_s[0] != '(' {
            Some(Err(paren_missing()))
        } else if arg_s.drop_first().len() == 0 || arg_s.drop_first().last() != ')' {
            Some(Err(paren_missing()))
        } else if val_s.len() == 0 {
            None
        } else if val_s[0] != '(' || val_s.drop_first().len() == 0 || val_s.drop_first().last() != ')' {
            Some(Err(paren_missing()))
        } else {
            let names = spec_split(arg_s.drop_first().drop_last(), ","@);
            let vals = spec_split(val_s.drop_first().drop_last(), ","@);
            if vals.len() == names.len() {
                Some(spec_insert_loop(a2, names, vals, 0))
            } else {
                Some(Err("It seems like the number of values is different then the number of arguments"@))
            }
        }
    } else if parts.len() < 2 {
        Some(Err("The 'VALUES' keyword is missing."@))
    } else {
        Some(Err("The 'VALUES' keyword was found on two occasions."@))
    }
}

/// `INSERT INTO table (col, ...) VALUES (val, ...)`.
pub open spec fn spec_insert_request(v: Seq<Seq<char>>) -> Reading {
    if v.len() == 0 || v[0] != "INTO"@ {
        Some(Err("Invalid syntax for a INSERT request"@))
    } else if v.len() == 1 {
        None
    } else {
        match spec_valid_table_name(Map::<Seq<char>, Seq<char>>::empty(), v.drop_first()) {
            Err(e) => Some(Err(e)),
            Ok((a1, v2)) => spec_insert_values(a1.insert(":request"@, "INSERT"@), v2),
        }
    }
}

/// The columns of a new table, from `i` on; `pkey`: a primary key was met.
pub open spec fn spec_create_loop(a: ArgMap, cols: Seq<Seq<char>>, i: int, pkey: bool) -> Reading
    decreases cols.len() - i,
{
    if i < 0 || i >= cols.len() {
        if pkey { Some(Ok(a)) } else { Some(Err("Primary key is missing."@)) }
    } else {
        let ws = spec_words(cols[i]);
        if ws.len() < 2 || ws[1] == "VARCHAR"@ {
            None
        } else {
            let col = ws[0];
            let ty = ws[1];
            let rest = ws.subrange(2, ws.len() as int);
            if spec_valid_name(col) && spec_is_correct_type(ty) {
                if rest.len() > 0 {
                    let other = spec_join(rest, " "@);
                    if other == "PRIMARY KEY"@ {
                        if !pkey {
                            spec_create_loop(
                                a.insert(":primary"@, col).insert(col, ty + " "@ + "NOTNULL"@),
                                cols,
                                i + 1,
                                true,
                            )
                        } else {
                            Some(Err("It seems that you have declared two primary keys, so '"@ + col
                                + "' will not be primary key."@))
                        }
                    } else if other == "FOREIGN KEY"@ {
                        spec_create_loop(a.insert(col, ty + " "@ + "FOREIGN"@), cols, i + 1, pkey)
                    } else if other == "NOT NULL"@ {
                        spec_create_loop(a.insert(col, ty + " "@ + "NOTNULL"@), cols, i + 1, pkey)
                    } else if other.len() >= 8 && other.subrange(0, 8) == "DEFAULT "@ {
                        let o2 = other.subrange(8, other.len() as int);
                        if spec_good_value(ty, o2) {
                            spec_create_loop(
                                a.insert("$"@ + col, o2).insert(col, ty + " "@ + "DEFAULT"@),
                                cols,
                                i + 1,
                                pkey,
                            )
                        } else {
                            Some(Err(o2 + " isn't an appropriate value for the type "@ + ty + "."@))
                        }
                    } else {
                        Some(Err(other + " is unknow by the system."@))
                    }
                } else {
                    spec_create_loop(a.insert(col, ty + " "@), cols, i + 1, pkey)
                }
            } else if !spec_is_correct_type(ty) {
                Some(Err("The type "@ + ty + " isn't correct."@))
            } else {
                Some(Err("The name "@ + col + " isn't correct."@))
            }
        }
    }
}

/// `CREATE TABLE name(col type [option], ...)`.
pub open spec fn spec_create_req(v: Seq<Seq<char>>) -> Reading {
    if v.len() >= 2 {
        if v[0] == "TABLE"@ {
            let nt = spec_join(v.drop_first(), " "@);
            if nt.len() == 0 || nt.last() != ')' {
                Some(Err(paren_missing()))
            } else {
                let sp = spec_split(nt.drop_last(), "("@);
                match spec_valid_table_name(Map::<Seq<char>, Seq<char>>::empty(), sp) {
                    Err(e) => Some(Err(e)),
                    Ok((a1, sp2)) => if sp2.len() >= 2 {
                        spec_create_loop(
                            a1.insert(":request"@, "CREATE"@),
                            spec_split(spec_join(sp2, "("@), ","@),
                            0,
                            false,
                        )
                    } else {
                        Some(Err("You have to specify the column of a new table between parenthesis: (column1 type, column2 type ...)"@))
                    },
                }
            }
        } else {
            Some(Err(v[0] + " is unknow by the system."@))
        }
    } else {
        Some(Err("CREATE "@ + spec_join(v, " "@) + " n'est pas une commande valide"@))
    }
}


/// A result of the library matches a result of the specification.
pub open spec fn reading_is(r: Result<Arguments, String>, s: Result<ArgMap, Seq<char>>) -> bool {
    match (r, s) {
        (Ok(a), Ok(m)) => a@ == m,
        (Err(e), Err(m)) => e@ == m,
        _ => false,
    }
}

/// A result of the library, where one is defined, matches a reading of the
/// specification.
pub open spec fn reading_opt(r: Option<Result<Arguments, String>>, s: Reading) -> bool {
    match (r, s) {
        (None, None) => true,
        (Some(x), Some(y)) => reading_is(x, y),
        _ => false,
    }
}

/// `v` without its first element.
fn drop_first_vec(v: Vec<String>) -> (r: Vec<String>)
    requires
        v@.len() > 0,
    ensures
        views(r@) == views(v@).drop_first(),
        r@.len() == v@.len() - 1,
{
    let mut w = v;
    let ghost before = views(w@);
    w.remove(0);
    assert(views(w@) =~= before.drop_first());
    w
}

/// A text made of two pieces.
fn concat2(a: &str, b: &str) -> (r: String)
    ensures
        r@ == a@ + b@,
{
    let mut s = copy_str(a);
    push_str(&mut s, b);
    s
}

/// A text made of three pieces.
fn concat3(a: &str, b: &str, c: &str) -> (r: String)
    ensures
        r@ == a@ + b@ + c@,
{
    let mut s = copy_str(a);
    push_str(&mut s, b);
    push_str(&mut s, c);
    s
}

impl Interpreteur {
    /// Reads the table name at the front of `vect_req`.
    pub fn valid_table_name(&self, arguments: &mut Arguments, vect_req: &mut Vec<String>) -> (r: Result<(), String>)
        requires
            old(vect_req)@.len() > 0,
        ensures
            match spec_valid_table_name(old(arguments)@, views(old(vect_req)@)) {
                Ok((a, v)) => r is Ok && final(arguments)@ == a && views(final(vect_req)@) == v,
                Err(e) => r matches Err(x) && x@ == e,
            },
    {
        let ghost v0 = views(vect_req@);
        assert(v0[0] == vect_req@[0]@);
        let table_name = vect_req.remove(0);
        assert(views(vect_req@) =~= v0.drop_first());
        if self.is_correct_name(table_name.as_str()) {
            arguments.set(":table_name", table_name.as_str());
            Ok(())
        } else {
            Err(concat2(table_name.as_str(), " isn't a correct name for a table."))
        }
    }

    /// Reads the optional condition at the front of `vect_req`.
    pub fn catch_condition(&self, arguments: &mut Arguments, vect_req: Vec<String>) -> (r: Result<(), String>)
        requires
            self.wf(),
            spec_catch_condition(old(arguments)@, views(vect_req@)) is Some,
        ensures
            match spec_catch_condition(old(arguments)@, views(vect_req@))->0 {
                Ok(a) => r is Ok && final(arguments)@ == a,
                Err(e) => r matches Err(x) && x@ == e,
            },
    {
        match self.catch_condition_opt(arguments, vect_req) {
            Some(r) => r,
            None => {
                proof {
                    assert(false);
                }
                Ok(())
            },
        }
    }

    /// `catch_condition` on any words; `None` where no reading is defined.
    fn catch_condition_opt(&self, arguments: &mut Arguments, vect_req: Vec<String>) -> (r: Option<Result<(), String>>)
        requires
            self.wf(),
        ensures
            match spec_catch_condition(old(arguments)@, views(vect_req@)) {
                None => r is None,
                Some(Ok(a)) => r matches Some(Ok(_)) && final(arguments)@ == a,
                Some(Err(e)) => r matches Some(Err(x)) && x@ == e,
            },
    {
        if vect_req.len() > 0 {
            let ghost v0 = views(vect_req@);
            assert(v0[0] == vect_req@[0]@);
            if str_eq(vect_req[0].as_str(), "WHERE") {
                let rest = drop_first_vec(vect_req);
                if rest.len() == 0 {
                    return Some(Err(copy_str("Condition missing")));
                }
                let condition = join_str(&rest, " ");
                match self.checked_clean_the_condition(condition, arguments) {
                    None => None,
                    Some(Some(c)) => {
                        arguments.set(":condition", c.as_str());
                        Some(Ok(()))
                    },
                    Some(None) => Some(Err(copy_str("The condition doesn't respect the syntax rules."))),
                }
            } else {
                Some(Err(concat2("Bad keyword: ", vect_req[0].as_str())))
            }
        } else {
            arguments.set(":condition", "1 == 1");
            Some(Ok(()))
        }
    }

    /// The `SET` list of an update; `None` where no reading is defined.
    fn set_loop(&self, vect_req: Vec<String>, cols: String, vals: String) -> (r: Option<(String, String, Vec<String>)>)
        ensures
            match spec_set_loop(views(vect_req@), cols@, vals@) {
                None => r is None,
                Some((c, v, w)) => r matches Some((x, y, z)) && x@ == c && y@ == v && views(z@) == w,
            },
        decreases vect_req@.len(),
    {
        if vect_req.len() == 0 {
            return Some((cols, vals, vect_req));
        }
        let ghost v0 = views(vect_req@);
        assert(v0[0] == vect_req@[0]@);
        let exp = copy_str(vect_req[0].as_str());
        let rest = drop_first_vec(vect_req);
        proof {
            reveal_strlit("=");
        }
        if count_char(exp.as_str(), '=') == 1 {
            let p = split_str(exp.as_str(), "=");
            if p.len() < 2 {
                return None;
            }
            assert(views(p@)[0] == p@[0]@ && views(p@)[1] == p@[1]@);
            let mut c2 = cols;
            let t0 = trim_str(p[0].as_str());
            push_str(&mut c2, t0.as_str());
            push_str(&mut c2, "/");
            let mut v2 = vals;
            let t1 = trim_str(p[1].as_str());
            push_str(&mut v2, t1.as_str());
            push_str(&mut v2, "/");
            self.set_loop(rest, c2, v2)
        } else {
            let c2 = pop_string(cols);
            let v2 = pop_string(vals);
            Some((c2, v2, rest))
        }
    }

    /// `UPDATE table SET col=val ... [WHERE condition]`.
    pub fn update_request(&self, vect_req: Vec<String>) -> (r: Result<Arguments, String>)
        requires
            self.wf(),
            spec_update_request(views(vect_req@)) is Some,
        ensures
            reading_is(r, spec_update_request(views(vect_req@))->0),
    {
        match self.update_request_opt(vect_req) {
            Some(r) => r,
            None => {
                proof {
                    assert(false);
                }
                Err(new_string())
            },
        }
    }

    /// `update_request` on any words; `None` where no reading is defined.
    fn update_request_opt(&self, vect_req: Vec<String>) -> (r: Option<Result<Arguments, String>>)
        requires
            self.wf(),
        ensures
            reading_opt(r, spec_update_request(views(vect_req@))),
    {
        if vect_req.len() >= 3 {
            let mut arguments = Arguments::new();
            arguments.set(":request", "UPDATE");
            let mut v = vect_req;
            let ghost v0 = views(v@);
            match self.valid_table_name(&mut arguments, &mut v) {
                Ok(()) => {},
                Err(e) => {
                    return Some(Err(e));
                },
            }
            assert(views(v@)[0] == v@[0]@);
            if str_eq(v[0].as_str(), "SET") {
                let rest = drop_first_vec(v);
                let (cols, values, v3) = match self.set_loop(rest, new_string(), new_string()) {
                    Some(t) => t,
                    None => {
                        return None;
                    },
                };
                arguments.set(":cols", cols.as_str());
                arguments.set(":values", values.as_str());
                match self.catch_condition_opt(&mut arguments, v3) {
                    None => None,
                    Some(Ok(())) => Some(Ok(arguments)),
                    Some(Err(e)) => Some(Err(e)),
                }
            } else {
                Some(Err(concat3("The keyword ", v[0].as_str(), " is unknow by the system.")))
            }
        } else {
            let j = join_str(&vect_req, " ");
            Some(Err(concat2("Not enough token for the request UPDATE ", j.as_str())))
        }
    }
}

/// `s` without its last character, if any.
fn pop_string(s: String) -> (r: String)
    ensures
        r@ == pop_last(s@),
{
    if s.unicode_len() == 0 {
        return s;
    }
    crate::text::drop_last_char(s.as_str())
}


/// `s` without its first character.
fn drop_first_char(s: &str) -> (r: String)
    requires
        s@.len() > 0,
    ensures
        r@ == s@.drop_first(),
{
    let cs = chars_of(s);
    let mut out: Vec<char> = Vec::new();
    let mut k: usize = 1;
    while k < cs.len()
        invariant
            1 <= k <= cs@.len(),
            out@ == cs@.subrange(1, k as int),
        decreases cs.len() - k,
    {
        out.push(cs[k]);
        assert(cs@.subrange(1, k + 1) =~= cs@.subrange(1, k as int).push(cs@[k as int]));
        k = k + 1;
    }
    assert(out@ =~= s@.drop_first());
    string_of(&out)
}

/// The first character of `s`, if any.
fn first_char(s: &str) -> (r: Option<char>)
    ensures
        r == (if s@.len() > 0 { Some(s@[0]) } else { None }),
{
    if s.unicode_len() > 0 {
        Some(s.get_char(0))
    } else {
        None
    }
}

/// The last character of `s`, if any.
fn final_char(s: &str) -> (r: Option<char>)
    ensures
        r == (if s@.len() > 0 { Some(s@.last()) } else { None }),
{
    let n = s.unicode_len();
    if n > 0 {
        Some(s.get_char(n - 1))
    } else {
        None
    }
}

/// The selected columns gather a `/` each, so the list is never empty.
pub proof fn lemma_asked_nonempty(v: Seq<Seq<char>>, acc: Seq<char>)
    ensures
        spec_asked_loop(v, acc) matches Some((a, w)) ==> a.len() > 0,
    decreases v.len(),
{
    reveal_strlit("/");
    if v.len() > 0 {
        let acc2 = acc + v[0] + "/"@;
        let v2 = v.drop_first();
        if v2.len() > 0 && v2[0] == ","@ {
            lemma_asked_nonempty(v2.drop_first(), acc2);
        }
    }
}

impl Interpreteur {
    /// The list of selected columns; `None` where no reading is defined.
    fn asked_loop(&self, v: Vec<String>, acc: String) -> (r: Option<(String, Vec<String>)>)
        ensures
            match spec_asked_loop(views(v@), acc@) {
                None => r is None,
                Some((a, w)) => r matches Some((x, y)) && x@ == a && views(y@) == w,
            },
        decreases v@.len(),
    {
        if v.len() == 0 {
            return None;
        }
        let ghost v0 = views(v@);
        assert(v0[0] == v@[0]@);
        let mut acc2 = acc;
        push_str(&mut acc2, v[0].as_str());
        push_str(&mut acc2, "/");
        let v2 = drop_first_vec(v);
        if v2.len() == 0 {
            return None;
        }
        assert(views(v2@)[0] == v2@[0]@);
        if !str_eq(v2[0].as_str(), ",") {
            return Some((acc2, v2));
        }
        let v3 = drop_first_vec(v2);
        self.asked_loop(v3, acc2)
    }

    /// The part of a selection after the list of columns; `None` where no
    /// reading is defined.
    fn select_from(&self, arguments: Arguments, v1: Vec<String>) -> (r: Option<Result<Arguments, String>>)
        requires
            self.wf(),
        ensures
            reading_opt(r, spec_select_from(arguments@, views(v1@))),
    {
        if v1.len() > 0 {
            assert(views(v1@)[0] == v1@[0]@);
            if str_eq(v1[0].as_str(), "FROM") {
                let mut v2 = drop_first_vec(v1);
                if v2.len() == 0 {
                    return None;
                }
                let mut a = arguments;
                match self.valid_table_name(&mut a, &mut v2) {
                    Ok(()) => {},
                    Err(e) => {
                        return Some(Err(e));
                    },
                }
                match self.catch_condition_opt(&mut a, v2) {
                    None => None,
                    Some(Ok(())) => Some(Ok(a)),
                    Some(Err(e)) => Some(Err(e)),
                }
            } else {
                Some(Err(concat2(v1[0].as_str(), " found where From was expected")))
            }
        } else {
            Some(Err(copy_str("Nothing found where FROM was expected.")))
        }
    }

    /// `SELECT * | col , col ... FROM table [WHERE condition]`.
    pub fn select_request(&self, vect_req: Vec<String>) -> (r: Result<Arguments, String>)
        requires
            self.wf(),
            spec_select_request(views(vect_req@)) is Some,
        ensures
            reading_is(r, spec_select_request(views(vect_req@))->0),
    {
        match self.select_request_opt(vect_req) {
            Some(r) => r,
            None => {
                proof {
                    assert(false);
                }
                Err(new_string())
            },
        }
    }

    /// `select_request` on any words; `None` where no reading is defined.
    fn select_request_opt(&self, vect_req: Vec<String>) -> (r: Option<Result<Arguments, String>>)
        requires
            self.wf(),
        ensures
            reading_opt(r, spec_select_request(views(vect_req@))),
    {
        if vect_req.len() >= 3 {
            let mut arguments = Arguments::new();
            arguments.set(":request", "SELECT");
            arguments.set(":asked", "*");
            assert(views(vect_req@)[0] == vect_req@[0]@);
            if str_eq(vect_req[0].as_str(), "*") {
                let v1 = drop_first_vec(vect_req);
                self.select_from(arguments, v1)
            } else {
                let ghost v0 = views(vect_req@);
                let (asked, v1) = match self.asked_loop(vect_req, new_string()) {
                    Some(t) => t,
                    None => {
                        return None;
                    },
                };
                if byte_len_upto(asked.as_str(), 1) == 1 {
                    return Some(Err(copy_str("Nothing selected")));
                }
                proof {
                    lemma_asked_nonempty(v0, Seq::<char>::empty());
                }
                let a2 = pop_string(asked);
                arguments.set(":asked", a2.as_str());
                self.select_from(arguments, v1)
            }
        } else {
            let j = join_str(&vect_req, " ");
            Some(Err(concat3("The request 'SELECT ", j.as_str(), "' isn't valid.")))
        }
    }

    /// `DELETE FROM table [WHERE condition]`.
    pub fn delete_line(&self, vect_req: Vec<String>) -> (r: Result<Arguments, String>)
        requires
            self.wf(),
            spec_delete_line(views(vect_req@)) is Some,
        ensures
            reading_is(r, spec_delete_line(views(vect_req@))->0),
    {
        match self.delete_line_opt(vect_req) {
            Some(r) => r,
            None => {
                proof {
                    assert(false);
                }
                Err(new_string())
            },
        }
    }

    /// `delete_line` on any words; `None` where no reading is defined.
    fn delete_line_opt(&self, vect_req: Vec<String>) -> (r: Option<Result<Arguments, String>>)
        requires
            self.wf(),
        ensures
            reading_opt(r, spec_delete_line(views(vect_req@))),
    {
        if vect_req.len() >= 2 {
            assert(views(vect_req@)[0] == vect_req@[0]@);
            if str_eq(vect_req[0].as_str(), "FROM") {
                let mut v1 = drop_first_vec(vect_req);
                assert(views(v1@)[0] == v1@[0]@);
                let blen = byte_len_upto(v1[0].as_str(), 2);
                if blen > 2 && self.is_correct_name(v1[0].as_str()) {
                    let mut arguments = Arguments::new();
                    arguments.insert(copy_str(":asked"), new_string());
                    let _ = self.valid_table_name(&mut arguments, &mut v1);
                    arguments.set(":request", "DELETE_LINE_IF");
                    match self.catch_condition_opt(&mut arguments, v1) {
                        None => None,
                        Some(Ok(())) => Some(Ok(arguments)),
                        Some(Err(e)) => Some(Err(e)),
                    }
                } else if blen <= 2 {
                    Some(Err(copy_str("Nothing found when a table name was expected.")))
                } else {
                    Some(Err(concat3("'", v1[0].as_str(), "' isn't a correct name for a table.")))
                }
            } else {
                Some(Err(concat3("'", vect_req[0].as_str(), "' found whene FROM was expected")))
            }
        } else {
            let j = join_str(&vect_req, " ");
            Some(Err(concat3("The request 'DELETE ", j.as_str(), "' isn't valid.")))
        }
    }

    /// `DROP TABLE t1 t2 ...`: one request per table.
    pub fn drop_req(&self, vect_req: Vec<String>) -> (r: Result<Vec<Arguments>, String>)
        ensures
            match spec_drop_req(views(vect_req@)) {
                Ok(ms) => r matches Ok(l) && l@.len() == ms.len() && forall|i: int| 0 <= i < ms.len() ==> #[trigger] l@[i]@ == ms[i],
                Err(e) => r matches Err(x) && x@ == e,
            },
    {
        if vect_req.len() >= 2 {
            assert(views(vect_req@)[0] == vect_req@[0]@);
            if str_eq(vect_req[0].as_str(), "TABLE") {
                let ghost tables = views(vect_req@).drop_first();
                let mut res: Vec<Arguments> = Vec::new();
                let mut i: usize = 1;
                while i < vect_req.len()
                    invariant
                        1 <= i <= vect_req@.len(),
                        tables == views(vect_req@).drop_first(),
                        res@.len() == i - 1,
                        forall|k: int| 0 <= k < i - 1 ==> #[trigger] res@[k]@ == drop_one(tables[k]),
                    decreases vect_req.len() - i,
                {
                    let mut arguments = Arguments::new();
                    arguments.set(":request", "DELETE_TABLE");
                    arguments.set(":table_name", vect_req[i].as_str());
                    assert(tables[i - 1] == vect_req@[i as int]@);
                    res.push(arguments);
                    i = i + 1;
                }
                Ok(res)
            } else {
                Err(concat2(vect_req[0].as_str(), " is unknow by the system"))
            }
        } else {
            let j = join_str(&vect_req, " ");
            Err(concat3("DROP ", j.as_str(), " isn't a valid command."))
        }
    }

    /// `RESET`: the request that empties the base.
    pub fn reset_request(&self) -> (r: Arguments)
        ensures
            r@ == Map::<Seq<char>, Seq<char>>::empty().insert(":request"@, "RESET"@),
    {
        let mut arguments = Arguments::new();
        arguments.set(":request", "RESET");
        arguments
    }
}


/// `s` without its first and last characters.
fn middle_of(s: &str) -> (r: String)
    requires
        s@.len() >= 2,
    ensures
        r@ == s@.drop_first().drop_last(),
{
    let t = drop_first_char(s);
    crate::text::drop_last_char(t.as_str())
}

impl Interpreteur {
    /// The columns and values of an insertion, from `i` on.
    fn insert_loop(&self, arguments: Arguments, names: &Vec<String>, vals: &Vec<String>, i: usize) -> (r: Result<Arguments, String>)
        requires
            names@.len() == vals@.len(),
            i <= names@.len(),
        ensures
            reading_is(r, spec_insert_loop(arguments@, views(names@), views(vals@), i as int)),
        decreases names@.len() - i,
    {
        if i >= names.len() {
            return Ok(arguments);
        }
        assert(views(names@)[i as int] == names@[i as int]@);
        assert(views(vals@)[i as int] == vals@[i as int]@);
        if self.is_correct_name(names[i].as_str()) {
            let x = vals[i].as_str();
            let mut a = arguments;
            if first_char(x) == Some('\'') {
                let y = drop_first_char(x);
                if final_char(y.as_str()) != Some('\'') {
                    return Err(copy_str("You forgot to close this: '"));
                }
                let z = crate::text::drop_last_char(y.as_str());
                a.insert(copy_str(names[i].as_str()), z);
            } else {
                a.set(names[i].as_str(), x);
            }
            self.insert_loop(a, names, vals, i + 1)
        } else {
            Err(concat2("This name isn't correct for a variable: ", names[i].as_str()))
        }
    }

    /// The part of an insertion after the table name.
    fn insert_values(&self, arguments: Arguments, v2: Vec<String>) -> (r: Option<Result<Arguments, String>>)
        ensures
            reading_opt(r, spec_insert_values(arguments@, views(v2@))),
    {
        proof {
            reveal_strlit(", ");
            reveal_strlit(" ,");
            reveal_strlit(" VALUES ");
            reveal_strlit(",");
        }
        let req0 = join_str(&v2, " ");
        let req1 = replace_str(req0.as_str(), ", ", ",");
        let req = replace_str(req1.as_str(), " ,", ",");
        let parts = split_str(req.as_str(), " VALUES ");
        if parts.len() == 2 {
            assert(views(parts@)[0] == parts@[0]@ && views(parts@)[1] == parts@[1]@);
            let arg_s = parts[0].as_str();
            let val_s = parts[1].as_str();
            if arg_s.unicode_len() == 0 {
                return None;
            }
            if first_char(arg_s) != Some('(') {
                return Some(Err(copy_str("A parenthésis is missing in your request.")));
            }
            let arg_rest = drop_first_char(arg_s);
            if final_char(arg_rest.as_str()) != Some(')') {
                return Some(Err(copy_str("A parenthésis is missing in your request.")));
            }
            if val_s.unicode_len() == 0 {
                return None;
            }
            let val_first = first_char(val_s);
            if val_first != Some('(') {
                return Some(Err(copy_str("A parenthésis is missing in your request.")));
            }
            let val_rest = drop_first_char(val_s);
            if final_char(val_rest.as_str()) != Some(')') {
                return Some(Err(copy_str("A parenthésis is missing in your request.")));
            }
            let names = split_str(middle_of(arg_s).as_str(), ",");
            let vals = split_str(middle_of(val_s).as_str(), ",");
            if vals.len() == names.len() {
                Some(self.insert_loop(arguments, &names, &vals, 0))
            } else {
                Some(Err(copy_str("It seems like the number of values is different then the number of arguments")))
            }
        } else if parts.len() < 2 {
            Some(Err(copy_str("The 'VALUES' keyword is missing.")))
        } else {
            Some(Err(copy_str("The 'VALUES' keyword was found on two occasions.")))
        }
    }

    /// `INSERT INTO table (col, ...) VALUES (val, ...)`.
    pub fn insert_request(&self, vect_req: Vec<String>) -> (r: Result<Arguments, String>)
        requires
            spec_insert_request(views(vect_req@)) is Some,
        ensures
            reading_is(r, spec_insert_request(views(vect_req@))->0),
    {
        match self.insert_request_opt(vect_req) {
            Some(r) => r,
            None => {
                proof {
                    assert(false);
                }
                Err(new_string())
            },
        }
    }

    /// `insert_request` on any words; `None` where no reading is defined.
    fn insert_request_opt(&self, vect_req: Vec<String>) -> (r: Option<Result<Arguments, String>>)
        ensures
            reading_opt(r, spec_insert_request(views(vect_req@))),
    {
        if vect_req.len() == 0 {
            return Some(Err(copy_str("Invalid syntax for a INSERT request")));
        }
        assert(views(vect_req@)[0] == vect_req@[0]@);
        if !str_eq(vect_req[0].as_str(), "INTO") {
            return Some(Err(copy_str("Invalid syntax for a INSERT request")));
        }
        if vect_req.len() == 1 {
            return None;
        }
        let mut v1 = drop_first_vec(vect_req);
        let mut arguments = Arguments::new();
        match self.valid_table_name(&mut arguments, &mut v1) {
            Ok(()) => {},
            Err(e) => {
                return Some(Err(e));
            },
        }
        arguments.set(":request", "INSERT");
        self.insert_values(arguments, v1)
    }
}


/// The elements of `v` from `k` on.
fn tail_from(v: &Vec<String>, k: usize) -> (r: Vec<String>)
    requires
        k <= v@.len(),
    ensures
        views(r@) == views(v@).subrange(k as int, v@.len() as int),
{
    let mut out: Vec<String> = Vec::new();
    let mut i: usize = k;
    while i < v.len()
        invariant
            k <= i <= v@.len(),
            views(out@) == views(v@).subrange(k as int, i as int),
        decreases v.len() - i,
    {
        let ghost before = views(out@);
        out.push(copy_str(v[i].as_str()));
        assert(views(out@) =~= before.push(v@[i as int]@));
        assert(views(v@).subrange(k as int, i + 1) =~= views(v@).subrange(k as int, i as int).push(views(v@)[i as int]));
        i = i + 1;
    }
    out
}

impl Interpreteur {
    /// The columns of a new table, from `i` on.
    fn create_loop(&self, arguments: Arguments, cols: &Vec<String>, i: usize, p_key: bool) -> (r: Option<Result<Arguments, String>>)
        requires
            self.wf(),
            i <= cols@.len(),
        ensures
            reading_opt(r, spec_create_loop(arguments@, views(cols@), i as int, p_key)),
        decreases cols@.len() - i,
    {
        if i >= cols.len() {
            if p_key {
                return Some(Ok(arguments));
            }
            return Some(Err(copy_str("Primary key is missing.")));
        }
        assert(views(cols@)[i as int] == cols@[i as int]@);
        let ws = words_of(cols[i].as_str());
        if ws.len() < 2 {
            return None;
        }
        assert(views(ws@)[0] == ws@[0]@ && views(ws@)[1] == ws@[1]@);
        proof {
            reveal_strlit("VARCHAR");
        }
        if str_eq(ws[1].as_str(), "VARCHAR") {
            return None;
        }
        let column_name = ws[0].as_str();
        let type_data = ws[1].as_str();
        let mut a = arguments;
        if self.is_correct_name(column_name) && self.type_gestion.is_correct_type(type_data) {
            let rest = tail_from(&ws, 2);
            let mut key = p_key;
            let mut bonus = new_string();
            if rest.len() > 0 {
                let other = join_str(&rest, " ");
                proof {
                    reveal_strlit("DEFAULT ");
                }
                if str_eq(other.as_str(), "PRIMARY KEY") {
                    if !p_key {
                        key = true;
                        a.set(":primary", column_name);
                        bonus = copy_str("NOTNULL");
                    } else {
                        return Some(Err(concat3(
                            "It seems that you have declared two primary keys, so '",
                            column_name,
                            "' will not be primary key.",
                        )));
                    }
                } else if str_eq(other.as_str(), "FOREIGN KEY") {
                    bonus = copy_str("FOREIGN");
                } else if str_eq(other.as_str(), "NOT NULL") {
                    bonus = copy_str("NOTNULL");
                } else if starts_with(other.as_str(), "DEFAULT ") {
                    let oc = chars_of(other.as_str());
                    let mut o2c: Vec<char> = Vec::new();
                    let mut k: usize = 8;
                    while k < oc.len()
                        invariant
                            8 <= k <= oc@.len(),
                            o2c@ == oc@.subrange(8, k as int),
                        decreases oc.len() - k,
                    {
                        o2c.push(oc[k]);
                        assert(oc@.subrange(8, k + 1) =~= oc@.subrange(8, k as int).push(oc@[k as int]));
                        k = k + 1;
                    }
                    let o2 = string_of(&o2c);
                    if self.type_gestion.good_type_and_good_value(type_data, o2.as_str()) {
                        bonus = copy_str("DEFAULT");
                        a.insert(concat2("$", column_name), o2);
                    } else {
                        let mut e = copy_str(o2.as_str());
                        push_str(&mut e, " isn't an appropriate value for the type ");
                        push_str(&mut e, type_data);
                        push_str(&mut e, ".");
                        return Some(Err(e));
                    }
                } else {
                    return Some(Err(concat2(other.as_str(), " is unknow by the system.")));
                }
            }
            let value = concat3(type_data, " ", bonus.as_str());
            proof {
                if rest@.len() == 0 {
                    assert(bonus@ =~= Seq::<char>::empty());
                }
            }
            a.insert(copy_str(column_name), value);
            self.create_loop(a, cols, i + 1, key)
        } else if !self.type_gestion.is_correct_type(type_data) {
            Some(Err(concat3("The type ", type_data, " isn't correct.")))
        } else {
            Some(Err(concat3("The name ", column_name, " isn't correct.")))
        }
    }

    /// `CREATE TABLE name(col type [option], ...)`.
    pub fn create_req(&self, vect_req: Vec<String>) -> (r: Result<Arguments, String>)
        requires
            self.wf(),
            spec_create_req(views(vect_req@)) is Some,
        ensures
            reading_is(r, spec_create_req(views(vect_req@))->0),
    {
        match self.create_req_opt(vect_req) {
            Some(r) => r,
            None => {
                proof {
                    assert(false);
                }
                Err(new_string())
            },
        }
    }

    /// `create_req` on any words; `None` where no reading is defined.
    fn create_req_opt(&self, vect_req: Vec<String>) -> (r: Option<Result<Arguments, String>>)
        requires
            self.wf(),
        ensures
            reading_opt(r, spec_create_req(views(vect_req@))),
    {
        if vect_req.len() >= 2 {
            assert(views(vect_req@)[0] == vect_req@[0]@);
            if str_eq(vect_req[0].as_str(), "TABLE") {
                let v1 = drop_first_vec(vect_req);
                let new_table = join_str(&v1, " ");
                if final_char(new_table.as_str()) != Some(')') {
                    return Some(Err(copy_str("A parenthésis is missing in your request.")));
                }
                let nt = crate::text::drop_last_char(new_table.as_str());
                proof {
                    reveal_strlit("(");
                    lemma_split_nonempty(nt@, "("@);
                }
                let mut sp = split_str(nt.as_str(), "(");
                let mut arguments = Arguments::new();
                match self.valid_table_name(&mut arguments, &mut sp) {
                    Ok(()) => {},
                    Err(e) => {
                        return Some(Err(e));
                    },
                }
                if sp.len() >= 2 {
                    let arg_string = join_str(&sp, "(");
                    proof {
                        reveal_strlit(",");
                    }
                    let cols = split_str(arg_string.as_str(), ",");
                    arguments.set(":request", "CREATE");
                    self.create_loop(arguments, &cols, 0, false)
                } else {
                    Some(Err(copy_str("You have to specify the column of a new table between parenthesis: (column1 type, column2 type ...)")))
                }
            } else {
                Some(Err(concat2(vect_req[0].as_str(), " is unknow by the system.")))
            }
        } else {
            let j = join_str(&vect_req, " ");
            Some(Err(concat3("CREATE ", j.as_str(), " n'est pas une commande valide")))
        }
    }
}


/// The kinds of requests.
pub enum RequestKind {
    Drop,
    Create,
    Insert,
    Delete,
    Select,
    Reset,
    Update,
}

/// What a request asks of the storage system: its kind and the argument maps
/// to send, in order.
pub struct Plan {
    pub kind: RequestKind,
    pub requests: Vec<Arguments>,
}

/// The words of a request: each comma set apart, runs of spaces reduced, the
/// text cut at the spaces and each word trimmed.
pub open spec fn spec_request_words(req: Seq<char>) -> Seq<Seq<char>> {
    spec_split(spec_collapse(spec_replace(req, ","@, " , "@)), " "@).map_values(|w: Seq<char>| spec_trim(w))
}

/// A reading of one request, with its kind.
pub open spec fn lift(r: Reading, kind: RequestKind) -> Option<Result<Option<(RequestKind, Seq<ArgMap>)>, Seq<char>>> {
    match r {
        None => None,
        Some(Ok(m)) => Some(Ok(Some((kind, seq![m])))),
        Some(Err(e)) => Some(Err(e)),
    }
}

/// The reading of a request. The outer `None`: no reading is defined; `Ok(None)`:
/// the empty request, which asks nothing.
pub open spec fn spec_read_request(req: Seq<char>) -> Option<Result<Option<(RequestKind, Seq<ArgMap>)>, Seq<char>>> {
    if req.len() == 0 {
        Some(Ok(None))
    } else {
        let t = spec_request_words(req);
        let ty = t[0];
        let v = t.drop_first();
        if ty == "DROP"@ {
            match spec_drop_req(v) {
                Ok(ms) => Some(Ok(Some((RequestKind::Drop, ms)))),
                Err(e) => Some(Err(e)),
            }
        } else if ty == "CREATE"@ {
            lift(spec_create_req(v), RequestKind::Create)
        } else if ty == "INSERT"@ {
            lift(spec_insert_request(v), RequestKind::Insert)
        } else if ty == "DELETE"@ {
            lift(spec_delete_line(v), RequestKind::Delete)
        } else if ty == "SELECT"@ {
            lift(spec_select_request(v), RequestKind::Select)
        } else if ty == "RESET"@ {
            Some(Ok(Some((RequestKind::Reset, seq![Map::<Seq<char>, Seq<char>>::empty().insert(":request"@, "RESET"@)]))))
        } else if ty == "UPDATE"@ {
            lift(spec_update_request(v), RequestKind::Update)
        } else {
            Some(Err(ty + " is unnknow by the system."@))
        }
    }
}

/// The maps of a list of argument lists.
pub open spec fn arg_maps(l: Seq<Arguments>) -> Seq<ArgMap> {
    l.map_values(|a: Arguments| a@)
}

/// A plan of the library matches a reading of the specification.
pub open spec fn plan_is(r: Result<Option<Plan>, String>, s: Result<Option<(RequestKind, Seq<ArgMap>)>, Seq<char>>) -> bool {
    match (r, s) {
        (Ok(None), Ok(None)) => true,
        (Ok(Some(p)), Ok(Some((k, ms)))) => p.kind == k && arg_maps(p.requests@) == ms,
        (Err(e), Err(m)) => e@ == m,
        _ => false,
    }
}

/// One request as a plan.
fn single(kind: RequestKind, r: Result<Arguments, String>) -> (p: Result<Option<Plan>, String>)
    ensures
        match r {
            Ok(a) => p matches Ok(Some(pl)) && pl.kind == kind && arg_maps(pl.requests@) == seq![a@],
            Err(e) => p matches Err(x) && x@ == e@,
        },
{
    match r {
        Ok(a) => {
            let mut v: Vec<Arguments> = Vec::new();
            v.push(a);
            let p = Plan { kind, requests: v };
            assert(arg_maps(p.requests@) =~= seq![p.requests@[0]@]);
            Ok(Some(p))
        },
        Err(e) => Err(e),
    }
}

/// One request as a plan, where one is defined.
fn single_opt(kind: RequestKind, r: Option<Result<Arguments, String>>) -> (p: Option<Result<Option<Plan>, String>>)
    ensures
        match r {
            None => p is None,
            Some(Ok(a)) => p matches Some(Ok(Some(pl))) && pl.kind == kind && arg_maps(pl.requests@) == seq![a@],
            Some(Err(e)) => p matches Some(Err(x)) && x@ == e@,
        },
{
    match r {
        None => None,
        Some(x) => Some(single(kind, x)),
    }
}

impl Interpreteur {
    /// The words of a request.
    pub fn request_words(&self, req: &str) -> (r: Vec<String>)
        ensures
            views(r@) == spec_request_words(req@),
    {
        proof {
            reveal_strlit(",");
            reveal_strlit(" ");
        }
        let spaced = replace_str(req, ",", " , ");
        let collapsed = collapse_spaces(spaced.as_str());
        let pieces = split_str(collapsed.as_str(), " ");
        let mut out: Vec<String> = Vec::new();
        let mut i: usize = 0;
        while i < pieces.len()
            invariant
                0 <= i <= pieces@.len(),
                views(pieces@) == spec_split(spec_collapse(spec_replace(req@, ","@, " , "@)), " "@),
                views(out@) == views(pieces@).subrange(0, i as int).map_values(|w: Seq<char>| spec_trim(w)),
            decreases pieces.len() - i,
        {
            let ghost before = views(out@);
            assert(views(pieces@)[i as int] == pieces@[i as int]@);
            out.push(trim_str(pieces[i].as_str()));
            assert(views(out@) =~= before.push(spec_trim(pieces@[i as int]@)));
            assert(views(pieces@).subrange(0, i + 1).map_values(|w: Seq<char>| spec_trim(w)) =~= views(pieces@).subrange(0, i as int).map_values(|w: Seq<char>| spec_trim(w)).push(spec_trim(views(pieces@)[i as int])));
            i = i + 1;
        }
        assert(views(pieces@).subrange(0, pieces@.len() as int) =~= views(pieces@));
        out
    }

    /// Reads a request of the shell: what it asks of the storage system, or
    /// the error to report.
    pub fn read_request(&self, req: &str) -> (r: Result<Option<Plan>, String>)
        requires
            self.wf(),
            spec_read_request(req@) is Some,
        ensures
            plan_is(r, spec_read_request(req@)->0),
    {
        match self.checked_read_request(req) {
            Some(r) => r,
            None => {
                proof {
                    assert(false);
                }
                Ok(None)
            },
        }
    }

    /// Reads any request of the shell: `None` where no reading is defined
    /// (where the shell would panic), else what `read_request` gives.
    pub fn checked_read_request(&self, req: &str) -> (r: Option<Result<Option<Plan>, String>>)
        requires
            self.wf(),
        ensures
            match spec_read_request(req@) {
                None => r is None,
                Some(s) => r matches Some(x) && plan_is(x, s),
            },
    {
        if req.unicode_len() == 0 {
            return Some(Ok(None));
        }
        let words = self.request_words(req);
        proof {
            reveal_strlit(",");
            reveal_strlit(" ");
            lemma_split_nonempty(spec_collapse(spec_replace(req@, ","@, " , "@)), " "@);
        }
        assert(views(words@)[0] == words@[0]@);
        let ty = copy_str(words[0].as_str());
        let v = drop_first_vec(words);
        if str_eq(ty.as_str(), "DROP") {
            match self.drop_req(v) {
                Ok(l) => {
                    let p = Plan { kind: RequestKind::Drop, requests: l };
                    proof {
                        assert(arg_maps(p.requests@) =~= spec_drop_req(views(v@))->Ok_0);
                    }
                    Some(Ok(Some(p)))
                },
                Err(e) => Some(Err(e)),
            }
        } else if str_eq(ty.as_str(), "CREATE") {
            single_opt(RequestKind::Create, self.create_req_opt(v))
        } else if str_eq(ty.as_str(), "INSERT") {
            single_opt(RequestKind::Insert, self.insert_request_opt(v))
        } else if str_eq(ty.as_str(), "DELETE") {
            single_opt(RequestKind::Delete, self.delete_line_opt(v))
        } else if str_eq(ty.as_str(), "SELECT") {
            single_opt(RequestKind::Select, self.select_request_opt(v))
        } else if str_eq(ty.as_str(), "RESET") {
            Some(single(RequestKind::Reset, Ok(self.reset_request())))
        } else if str_eq(ty.as_str(), "UPDATE") {
            single_opt(RequestKind::Update, self.update_request_opt(v))
        } else {
            Some(Err(concat2(ty.as_str(), " is unnknow by the system.")))
        }
    }
}


/// Where the answer of a selection is written: a JSON file (none when the
/// path is empty), pretty-printed or not.
pub struct ResponseData {
    pub json_path: String,
    pub pretty: bool,
}

impl ResponseData {
    /// An answer written to `json_path`.
    pub fn new(json_path: String, pretty: bool) -> (r: ResponseData)
        ensures
            r.json_path@ == json_path@,
            r.pretty == pretty,
    {
        ResponseData { json_path, pretty }
    }

    /// No answer file.
    pub fn new_empty() -> (r: ResponseData)
        ensures
            r.json_path@ == Seq::<char>::empty(),
            !r.pretty,
    {
        ResponseData { json_path: new_string(), pretty: false }
    }
}


/// How many words of the list are `w`.
pub open spec fn count_word(s: Seq<Seq<char>>, w: Seq<char>) -> int
    decreases s.len(),
{
    if s.len() == 0 {
        0
    } else {
        count_word(s.drop_last(), w) + if s.last() == w {
            1int
        } else {
            0int
        }
    }
}

/// No prefix of the words closes more parentheses than it opens.
pub open spec fn prefix_balanced(s: Seq<Seq<char>>) -> bool {
    forall|k: int| 0 <= k <= s.len() ==> #[trigger] count_word(s.take(k), ")"@) <= count_word(s.take(k), "("@)
}

/// The parentheses of the words are balanced.
pub open spec fn balanced(s: Seq<Seq<char>>) -> bool {
    prefix_balanced(s) && count_word(s, "("@) == count_word(s, ")"@)
}

/// No word is a boolean left unwritten as a number.
pub open spec fn no_bool_word(s: Seq<Seq<char>>) -> bool {
    forall|j: int| 0 <= j < s.len() ==> #[trigger] s[j] != "true"@ && s[j] != "false"@
}

/// Gathering a quoted string leaves the words before it as they were.
proof fn lemma_merge_quote_prefix(ss: Seq<Seq<char>>, i: int, acc: Seq<char>)
    requires
        0 <= i <= ss.len(),
    ensures
        merge_quote(ss, i, acc) matches Some((s2, a)) ==> s2.take(i) == ss.take(i),
    decreases ss.len(),
{
    if 0 <= i < ss.len() && acc.len() > 0 && acc.last() != '\'' {
        lemma_merge_quote_prefix(ss.remove(i), i, acc + ss[i]);
        assert(ss.remove(i).take(i) =~= ss.take(i));
    }
}

/// The decimal writing of a number ends with a digit.
proof fn lemma_digits_end(n: nat)
    ensures
        nat_digits(n).len() > 0,
        '0' <= nat_digits(n).last() <= '9',
{
    if n >= 10 {
        assert(n % 10 < 10);
    }
}

/// One more word checked: the counts and the prefix property carry over.
proof fn lemma_clean_step(ss: Seq<Seq<char>>, s2: Seq<Seq<char>>, i: int, o: int, e: int, o2: int, e2: int)
    requires
        0 <= i < s2.len(),
        i <= ss.len(),
        s2.take(i) == ss.take(i),
        o == count_word(ss.take(i), "("@),
        e == count_word(ss.take(i), ")"@),
        prefix_balanced(ss.take(i)),
        no_bool_word(ss.take(i)),
        o2 == o + if s2[i] == "("@ { 1int } else { 0int },
        e2 == e + if s2[i] == ")"@ { 1int } else { 0int },
        e2 <= o2,
        s2[i] != "true"@ && s2[i] != "false"@,
    ensures
        o2 == count_word(s2.take(i + 1), "("@),
        e2 == count_word(s2.take(i + 1), ")"@),
        prefix_balanced(s2.take(i + 1)),
        no_bool_word(s2.take(i + 1)),
{
    let t = s2.take(i + 1);
    assert(t.drop_last() =~= s2.take(i));
    assert(t.last() == s2[i]);
    assert forall|k: int| 0 <= k <= t.len() implies #[trigger] count_word(t.take(k), ")"@) <= count_word(
        t.take(k),
        "("@,
    ) by {
        if k <= i {
            assert(t.take(k) =~= ss.take(i).take(k));
        } else {
            assert(t.take(k) =~= t);
        }
    }
    assert forall|j: int| 0 <= j < t.len() implies #[trigger] t[j] != "true"@ && t[j] != "false"@ by {
        if j < i {
            assert(t[j] == ss.take(i)[j]);
        }
    }
}

/// A condition kept by the checking has balanced parentheses and no boolean
/// left unwritten: from `i` on, given that the words before `i` hold the
/// `o` openings and `e` closings counted, with no prefix closing more than
/// it opens, and no boolean.
pub proof fn lemma_clean_loop_balanced(ss: Seq<Seq<char>>, i: int, n: int, o: int, e: int, arg: ArgMap)
    requires
        0 <= i <= ss.len(),
        o == count_word(ss.take(i), "("@),
        e == count_word(ss.take(i), ")"@),
        prefix_balanced(ss.take(i)),
        no_bool_word(ss.take(i)),
    ensures
        clean_loop(ss, i, n, o, e, arg) matches Some(Some((s2, a))) ==> balanced(s2) && no_bool_word(s2),
    decreases ss.len() - i,
{
    reveal_strlit("(");
    reveal_strlit(")");
    reveal_strlit("true");
    reveal_strlit("false");
    reveal_strlit("<");
    reveal_strlit(">");
    reveal_strlit("<=");
    reveal_strlit(">=");
    reveal_strlit("==");
    reveal_strlit("!=");
    reveal_strlit("AND");
    reveal_strlit("OR");
    reveal_strlit("1");
    reveal_strlit("0");
    assert(ss.take(i).take(i) =~= ss.take(i));
    assert(count_word(ss.take(i).take(i), ")"@) <= count_word(ss.take(i).take(i), "("@));
    assert("("@ != ")"@) by {
        assert("("@[0] != ")"@[0]);
    }
    assert("1"@ != "("@ && "1"@ != ")"@ && "0"@ != "("@ && "0"@ != ")"@) by {
        assert("1"@[0] != "("@[0] && "1"@[0] != ")"@[0] && "0"@[0] != "("@[0] && "0"@[0] != ")"@[0]);
    }
    assert("1"@ != "true"@ && "1"@ != "false"@ && "0"@ != "true"@ && "0"@ != "false"@) by {
        assert("1"@[0] != "true"@[0] && "1"@[0] != "false"@[0] && "0"@[0] != "true"@[0] && "0"@[0] != "false"@[0]);
    }
    assert("("@ != "true"@ && "("@ != "false"@ && ")"@ != "true"@ && ")"@ != "false"@) by {
        assert("("@[0] != "true"@[0] && "("@[0] != "false"@[0] && ")"@[0] != "true"@[0] && ")"@[0] != "false"@[0]);
    }
    if i >= ss.len() {
        assert(ss.take(i) =~= ss);
    } else {
        let w = ss[i];
        if op_exist(w) && w != "("@ {
            assert(w != ")"@ && w != "true"@ && w != "false"@) by {
                let l = spec_operator_list();
                let k = choose|k: int| 0 <= k < l.len() && l[k] == w;
                assert(l[k] == w);
                assert(l[0][0] != ')' && l[1][0] != ')' && l[2].len() == 2 && l[3].len() == 2 && l[4].len() == 2
                    && l[5].len() == 2 && l[7].len() == 3 && l[8].len() == 2);
                assert(l[0][0] != 't' && l[1][0] != 't' && l[0][0] != 'f' && l[1][0] != 'f' && l[7][0] != 't'
                    && l[8][0] != 't');
                assert(")"@.len() == 1 && "true"@.len() == 4 && "false"@.len() == 5);
                assert(")"@[0] == ')' && "true"@[0] == 't' && "false"@[0] == 'f');
            }
            if !(i == 0 || i == n) && !(op_exist(ss[i - 1]) && ss[i - 1] != "("@) && i + 1 < ss.len() && !(op_exist(
                ss[i + 1],
            ) && ss[i + 1] != "("@) {
                lemma_clean_step(ss, ss, i, o, e, o, e);
                lemma_clean_loop_balanced(ss, i + 1, n, o, e, arg);
            }
        } else if w == "("@ {
            if clean_loop(ss, i, n, o, e, arg) == clean_loop(ss, i + 1, n, o + 1, e, arg) {
                lemma_clean_step(ss, ss, i, o, e, o + 1, e);
                lemma_clean_loop_balanced(ss, i + 1, n, o + 1, e, arg);
            }
        } else if w == ")"@ {
            if e + 1 <= o {
                lemma_clean_step(ss, ss, i, o, e, o, e + 1);
                lemma_clean_loop_balanced(ss, i + 1, n, o, e + 1, arg);
            }
        } else {
            assert(!spec_is_float("true"@)) by {
                assert("true"@[0] == 't');
            }
            assert(!spec_is_float("false"@)) by {
                assert("false"@[0] == 'f');
            }
            if spec_is_float(w) {
                lemma_clean_step(ss, ss, i, o, e, o, e);
                lemma_clean_loop_balanced(ss, i + 1, n, o, e, arg);
            } else if w == "true"@ {
                let s1 = ss.update(i, "1"@);
                assert(s1.take(i) =~= ss.take(i));
                lemma_clean_step(ss, s1, i, o, e, o, e);
                lemma_clean_loop_balanced(s1, i + 1, n, o, e, arg);
            } else if w == "false"@ {
                let s1 = ss.update(i, "0"@);
                assert(s1.take(i) =~= ss.take(i));
                lemma_clean_step(ss, s1, i, o, e, o, e);
                lemma_clean_loop_balanced(s1, i + 1, n, o, e, arg);
            } else if w[0] == '\'' {
                lemma_merge_quote_prefix(ss.remove(i), i, w.drop_first());
                lemma_merge_quote_len(ss.remove(i), i, w.drop_first());
                match merge_quote(ss.remove(i), i, w.drop_first()) {
                    None => {},
                    Some((ss2, acc)) => {
                        if acc.len() > 0 && acc.last() == '\'' && code_sum(acc.drop_last()) <= i32::MAX {
                            lemma_code_sum_nonneg(acc.drop_last());
                            let d = int_digits(code_sum(acc.drop_last()));
                            lemma_digits_end(code_sum(acc.drop_last()) as nat);
                            let s1 = ss2.insert(i, d);
                            assert(ss.remove(i).take(i) =~= ss.take(i));
                            assert(s1.take(i) =~= ss.take(i));
                            assert(s1[i] == d);
                            assert(d != "("@ && d != ")"@ && d != "true"@ && d != "false"@) by {
                                assert(d.last() != "("@.last());
                                assert(d.last() != ")"@.last());
                                assert(d.last() != "true"@.last());
                                assert(d.last() != "false"@.last());
                            }
                            lemma_clean_step(ss, s1, i, o, e, o, e);
                            lemma_clean_loop_balanced(s1, i + 1, n, o, e, arg);
                        }
                    },
                }
            } else if occurs(w, "."@) {
                let p = spec_split(w, "."@);
                if p.len() == 2 {
                    lemma_clean_step(ss, ss, i, o, e, o, e);
                    lemma_clean_loop_balanced(ss, i + 1, n, o, e, arg.insert(p[1], p[0]));
                }
            } else {
                lemma_clean_step(ss, ss, i, o, e, o, e);
                lemma_clean_loop_balanced(ss, i + 1, n, o, e, arg.insert(w, seq![]));
            }
        }
    }
}

/// A condition kept by `clean_the_condition` is made of words whose
/// parentheses are balanced (no prefix closes more than it opens), with no
/// `true` or `false` left.
pub proof fn lemma_clean_the_condition_balanced(cond: Seq<char>, arg: ArgMap)
    ensures
        ({
            let c1 = spec_replace_the_space(cond, "AND"@, false);
            let c2 = spec_replace_the_space(c1->0, "OR"@, false);
            let ss = spec_words(spaced_condition(c2->0));
            c1 is Some && c2 is Some && ss.len() > 0 ==> (clean_loop(ss, 0, ss.len() - 1, 0, 0, arg) matches Some(
                Some((s2, a)),
            ) ==> spec_clean_the_condition(cond, arg) == Some(Some((spec_join(s2, " "@), a))) && balanced(s2)
                && no_bool_word(s2))
        }),
{
    let c1 = spec_replace_the_space(cond, "AND"@, false);
    let c2 = spec_replace_the_space(c1->0, "OR"@, false);
    let ss = spec_words(spaced_condition(c2->0));
    if c1 is Some && c2 is Some && ss.len() > 0 {
        assert(ss.take(0) =~= Seq::<Seq<char>>::empty());
        lemma_clean_loop_balanced(ss, 0, ss.len() - 1, 0, 0, arg);
    }
}

/// `after` holds the arguments of `before`, and every argument it adds or
/// changes is a column: a name, mapped to the name of its table or to an
/// empty text.
pub open spec fn adds_columns(before: ArgMap, after: ArgMap) -> bool {
    &&& forall|k: Seq<char>| #[trigger] before.contains_key(k) ==> after.contains_key(k)
    &&& forall|k: Seq<char>|
        #[trigger] after.contains_key(k) ==> (before.contains_key(k) && after[k] == before[k]) || (spec_valid_name(k)
            && (after[k].len() == 0 || spec_valid_name(after[k])))
}

/// Adding columns twice adds columns.
proof fn lemma_adds_columns_trans(a: ArgMap, b: ArgMap, c: ArgMap)
    requires
        adds_columns(a, b),
        adds_columns(b, c),
    ensures
        adds_columns(a, c),
{
    assert forall|k: Seq<char>| #[trigger] c.contains_key(k) implies (a.contains_key(k) && c[k] == a[k]) || (
    spec_valid_name(k) && (c[k].len() == 0 || spec_valid_name(c[k]))) by {
        if b.contains_key(k) && c[k] == b[k] {
            assert(b.contains_key(k));
        }
    }
    assert forall|k: Seq<char>| #[trigger] a.contains_key(k) implies c.contains_key(k) by {
        assert(b.contains_key(k));
    }
}

/// The checking of the words of a condition only adds columns to the
/// arguments, whether it keeps the condition or stops on it.
proof fn lemma_clean_loop_adds(ss: Seq<Seq<char>>, i: int, n: int, o: int, e: int, arg: ArgMap)
    ensures
        clean_loop(ss, i, n, o, e, arg) matches Some(Some((s2, a))) ==> adds_columns(arg, a),
        adds_columns(arg, clean_arg(ss, i, n, o, e, arg)),
    decreases ss.len() - i,
{
    if 0 <= i < ss.len() {
        let w = ss[i];
        if op_exist(w) && w != "("@ {
            lemma_clean_loop_adds(ss, i + 1, n, o, e, arg);
        } else if w == "("@ {
            lemma_clean_loop_adds(ss, i + 1, n, o + 1, e, arg);
        } else if w == ")"@ {
            lemma_clean_loop_adds(ss, i + 1, n, o, e + 1, arg);
        } else if spec_is_float(w) {
            lemma_clean_loop_adds(ss, i + 1, n, o, e, arg);
        } else if w == "true"@ {
            lemma_clean_loop_adds(ss.update(i, "1"@), i + 1, n, o, e, arg);
        } else if w == "false"@ {
            lemma_clean_loop_adds(ss.update(i, "0"@), i + 1, n, o, e, arg);
        } else if w[0] == '\'' {
            lemma_merge_quote_len(ss.remove(i), i, w.drop_first());
            match merge_quote(ss.remove(i), i, w.drop_first()) {
                None => {},
                Some((ss2, acc)) => {
                    if acc.len() > 0 && acc.last() == '\'' && code_sum(acc.drop_last()) <= i32::MAX {
                        lemma_clean_loop_adds(ss2.insert(i, int_digits(code_sum(acc.drop_last()))), i + 1, n, o, e, arg);
                    }
                },
            }
        } else if occurs(w, "."@) {
            let p = spec_split(w, "."@);
            if p.len() == 2 && spec_valid_name(p[0]) && spec_valid_name(p[1]) {
                let a1 = arg.insert(p[1], p[0]);
                assert(adds_columns(arg, a1));
                lemma_clean_loop_adds(ss, i + 1, n, o, e, a1);
                lemma_adds_columns_trans(arg, a1, clean_arg(ss, i + 1, n, o, e, a1));
                match clean_loop(ss, i + 1, n, o, e, a1) {
                    Some(Some((s2, a))) => {
                        lemma_adds_columns_trans(arg, a1, a);
                    },
                    _ => {},
                }
            }
        } else if spec_valid_name(w) {
            let a1 = arg.insert(w, seq![]);
            assert(adds_columns(arg, a1));
            lemma_clean_loop_adds(ss, i + 1, n, o, e, a1);
            lemma_adds_columns_trans(arg, a1, clean_arg(ss, i + 1, n, o, e, a1));
            match clean_loop(ss, i + 1, n, o, e, a1) {
                Some(Some((s2, a))) => {
                    lemma_adds_columns_trans(arg, a1, a);
                },
                _ => {},
            }
        }
    }
}

/// What reading a condition does to the arguments: those given stay, and
/// each argument added is a column the condition names, mapped to the name
/// of its table (`table.column`) or to an empty text; so whether the
/// condition is kept or refused.
pub proof fn lemma_clean_the_condition_adds_columns(cond: Seq<char>, arg: ArgMap)
    ensures
        spec_clean_the_condition(cond, arg) matches Some(Some((c, a))) ==> adds_columns(arg, a),
        adds_columns(arg, spec_clean_arg(cond, arg)),
{
    let c1 = spec_replace_the_space(cond, "AND"@, false);
    if c1 is Some {
        let c2 = spec_replace_the_space(c1->0, "OR"@, false);
        if c2 is Some {
            let ss = spec_words(spaced_condition(c2->0));
            if ss.len() > 0 {
                lemma_clean_loop_adds(ss, 0, ss.len() - 1, 0, 0, arg);
            }
        }
    }
}

/// Booleans written as numbers: `true` as `1`, `false` as `0`, other words
/// unchanged.
pub open spec fn bool_numbers(s: Seq<Seq<char>>) -> Seq<Seq<char>> {
    s.map_values(|w: Seq<char>| if w == "true"@ { "1"@ } else if w == "false"@ { "0"@ } else { w })
}

/// Without quoted words from `i` on, a kept condition is its words with the
/// booleans from `i` on written as numbers.
proof fn lemma_clean_loop_words(ss: Seq<Seq<char>>, i: int, n: int, o: int, e: int, arg: ArgMap)
    requires
        0 <= i <= ss.len(),
        forall|k: int| i <= k < ss.len() ==> (#[trigger] ss[k]).len() > 0 && ss[k][0] != '\'',
    ensures
        clean_loop(ss, i, n, o, e, arg) matches Some(Some((s2, a))) ==> s2 == ss.take(i) + bool_numbers(ss.skip(i)),
    decreases ss.len() - i,
{
    reveal_strlit("(");
    reveal_strlit(")");
    reveal_strlit("true");
    reveal_strlit("false");
    reveal_strlit("1");
    reveal_strlit("0");
    reveal_strlit("<");
    reveal_strlit(">");
    reveal_strlit("<=");
    reveal_strlit(">=");
    reveal_strlit("==");
    reveal_strlit("!=");
    reveal_strlit("AND");
    reveal_strlit("OR");
    if i >= ss.len() {
        assert(ss.take(i) =~= ss);
        assert(bool_numbers(ss.skip(i)) =~= Seq::<Seq<char>>::empty());
        assert(ss.take(i) + bool_numbers(ss.skip(i)) =~= ss);
    } else {
        let w = ss[i];
        assert(("("@ != "true"@ && "("@ != "false"@ && ")"@ != "true"@ && ")"@ != "false"@)) by {
            assert("("@[0] != "true"@[0] && "("@[0] != "false"@[0] && ")"@[0] != "true"@[0] && ")"@[0] != "false"@[0]);
        }
        if op_exist(w) && w != "("@ {
            assert(w != "true"@ && w != "false"@) by {
                let l = spec_operator_list();
                let k = choose|k: int| 0 <= k < l.len() && l[k] == w;
                assert(l[k] == w);
                assert(l[0][0] != 't' && l[1][0] != 't' && l[0][0] != 'f' && l[1][0] != 'f' && l[7][0] != 't'
                    && l[8][0] != 't' && l[7][0] != 'f' && l[8][0] != 'f');
                assert(l[2][0] != 't' && l[3][0] != 't' && l[4][0] != 't' && l[5][0] != 't' && l[6][0] != 't');
                assert(l[2][0] != 'f' && l[3][0] != 'f' && l[4][0] != 'f' && l[5][0] != 'f' && l[6][0] != 'f');
                assert("true"@[0] == 't' && "false"@[0] == 'f');
            }
            assert(ss.take(i + 1) + bool_numbers(ss.skip(i + 1)) =~= ss.take(i) + bool_numbers(ss.skip(i)));
            lemma_clean_loop_words(ss, i + 1, n, o, e, arg);
        } else if w == "("@ {
            assert(ss.take(i + 1) + bool_numbers(ss.skip(i + 1)) =~= ss.take(i) + bool_numbers(ss.skip(i)));
            lemma_clean_loop_words(ss, i + 1, n, o + 1, e, arg);
        } else if w == ")"@ {
            assert(ss.take(i + 1) + bool_numbers(ss.skip(i + 1)) =~= ss.take(i) + bool_numbers(ss.skip(i)));
            lemma_clean_loop_words(ss, i + 1, n, o, e + 1, arg);
        } else if spec_is_float(w) {
            assert(!spec_is_float("true"@)) by {
                assert("true"@[0] == 't');
            }
            assert(!spec_is_float("false"@)) by {
                assert("false"@[0] == 'f');
            }
            assert(ss.take(i + 1) + bool_numbers(ss.skip(i + 1)) =~= ss.take(i) + bool_numbers(ss.skip(i)));
            lemma_clean_loop_words(ss, i + 1, n, o, e, arg);
        } else if w == "true"@ || w == "false"@ {
            let d = if w == "true"@ { "1"@ } else { "0"@ };
            let s1 = ss.update(i, d);
            assert(s1[i][0] != '\'');
            lemma_clean_loop_words(s1, i + 1, n, o, e, arg);
            assert(s1.take(i + 1) + bool_numbers(s1.skip(i + 1)) =~= ss.take(i) + bool_numbers(ss.skip(i)));
        } else if occurs(w, "."@) {
            let p = spec_split(w, "."@);
            if p.len() == 2 {
                assert(ss.take(i + 1) + bool_numbers(ss.skip(i + 1)) =~= ss.take(i) + bool_numbers(ss.skip(i)));
                lemma_clean_loop_words(ss, i + 1, n, o, e, arg.insert(p[1], p[0]));
            }
        } else {
            assert(ss.take(i + 1) + bool_numbers(ss.skip(i + 1)) =~= ss.take(i) + bool_numbers(ss.skip(i)));
            lemma_clean_loop_words(ss, i + 1, n, o, e, arg.insert(w, seq![]));
        }
    }
}

/// Which words of a condition become numbers: a condition without quoted
/// strings, once kept, is its words (operators and parentheses spaced out)
/// with `true` written `1` and `false` written `0`, the others unchanged.
pub proof fn lemma_clean_the_condition_words(cond: Seq<char>, arg: ArgMap)
    ensures
        ({
            let c1 = spec_replace_the_space(cond, "AND"@, false);
            let c2 = spec_replace_the_space(c1->0, "OR"@, false);
            let ss = spec_words(spaced_condition(c2->0));
            c1 is Some && c2 is Some && (forall|k: int| 0 <= k < ss.len() ==> (#[trigger] ss[k])[0] != '\'') ==> (
            spec_clean_the_condition(cond, arg) matches Some(Some((c, a))) ==> c == spec_join(bool_numbers(ss), " "@))
        }),
{
    let c1 = spec_replace_the_space(cond, "AND"@, false);
    let c2 = spec_replace_the_space(c1->0, "OR"@, false);
    let sp = spaced_condition(c2->0);
    let ss = spec_words(sp);
    if c1 is Some && c2 is Some && (forall|k: int| 0 <= k < ss.len() ==> (#[trigger] ss[k])[0] != '\'') && ss.len() > 0 {
        crate::text::lemma_words_from_nonempty(sp, 0, seq![]);
        lemma_clean_loop_words(ss, 0, ss.len() - 1, 0, 0, arg);
        assert(ss.take(0) + bool_numbers(ss.skip(0)) =~= bool_numbers(ss));
    }
}

} // verus!

verus! {

/// Once the column `n` is not written again from `j` on, reading the values
/// from `j` keeps the value it has.
proof fn lemma_insert_loop_keeps(a: ArgMap, names: Seq<Seq<char>>, vals: Seq<Seq<char>>, j: int, n: Seq<char>)
    requires
        0 <= j,
        a.contains_key(n),
        forall|k: int| j <= k < names.len() ==> names[k] != n,
        spec_insert_loop(a, names, vals, j) is Ok,
    ensures
        spec_insert_loop(a, names, vals, j)->Ok_0.contains_key(n),
        spec_insert_loop(a, names, vals, j)->Ok_0[n] == a[n],
    decreases names.len() - j,
{
    if j < names.len() && spec_valid_name(names[j]) {
        let x = vals[j];
        if x.len() > 0 && x[0] == '\'' {
            let y = x.drop_first();
            if !(y.len() == 0 || y.last() != '\'') {
                lemma_insert_loop_keeps(a.insert(names[j], y.drop_last()), names, vals, j + 1, n);
            }
        } else {
            lemma_insert_loop_keeps(a.insert(names[j], x), names, vals, j + 1, n);
        }
    }
}

/// What an insertion stores for a value written between quotes: for a
/// column given `'v'` and not given again after, the row holds `v`, the
/// quotes taken off (written back between quotes it is the value as given);
/// a value without quotes is stored as given.
pub proof fn lemma_insert_loop_unquotes(a: ArgMap, names: Seq<Seq<char>>, vals: Seq<Seq<char>>, i: int, k: int)
    requires
        0 <= i <= k < names.len(),
        names.len() == vals.len(),
        forall|j: int| k < j < names.len() ==> names[j] != names[k],
        spec_insert_loop(a, names, vals, i) is Ok,
    ensures
        spec_insert_loop(a, names, vals, i)->Ok_0.contains_key(names[k]),
        vals[k].len() >= 2 && vals[k][0] == '\'' && vals[k].last() == '\'' ==> {
            let v = spec_insert_loop(a, names, vals, i)->Ok_0[names[k]];
            &&& "'"@ + v + "'"@ == vals[k]
            &&& v.len() + 2 == vals[k].len()
        },
        !(vals[k].len() > 0 && vals[k][0] == '\'') ==> spec_insert_loop(a, names, vals, i)->Ok_0[names[k]] == vals[k],
    decreases k - i,
{
    reveal_strlit("'");
    let x = vals[i];
    if i < k {
        if x.len() > 0 && x[0] == '\'' {
            lemma_insert_loop_unquotes(a.insert(names[i], x.drop_first().drop_last()), names, vals, i + 1, k);
        } else {
            lemma_insert_loop_unquotes(a.insert(names[i], x), names, vals, i + 1, k);
        }
    } else {
        if x.len() > 0 && x[0] == '\'' {
            let y = x.drop_first();
            let a2 = a.insert(names[i], y.drop_last());
            lemma_insert_loop_keeps(a2, names, vals, i + 1, names[i]);
            if x.len() >= 2 && x.last() == '\'' {
                assert("'"@ + y.drop_last() + "'"@ =~= x);
            }
        } else {
            lemma_insert_loop_keeps(a.insert(names[i], x), names, vals, i + 1, names[i]);
        }
    }
}

} // verus!

verus! {

/// A value written between quotes is closed: it is at least two characters
/// long and ends with a quote.
pub open spec fn quote_closed(x: Seq<char>) -> bool {
    x.len() > 0 && x[0] == '\'' ==> x.len() >= 2 && x.last() == '\''
}

/// An insertion whose columns are all names and whose quoted values are all
/// closed is read without error.
pub proof fn lemma_insert_loop_succeeds(a: ArgMap, names: Seq<Seq<char>>, vals: Seq<Seq<char>>, i: int)
    requires
        0 <= i,
        names.len() == vals.len(),
        forall|k: int| i <= k < names.len() ==> spec_valid_name(#[trigger] names[k]) && quote_closed(vals[k]),
    ensures
        spec_insert_loop(a, names, vals, i) is Ok,
    decreases names.len() - i,
{
    if i < names.len() {
        assert(spec_valid_name(names[i]) && quote_closed(vals[i]));
        assert forall|k: int| i + 1 <= k < names.len() implies spec_valid_name(#[trigger] names[k]) && quote_closed(vals[k]) by {
            assert(i <= k);
        }
        let x = vals[i];
        let a2 = if x.len() > 0 && x[0] == '\'' {
            a.insert(names[i], x.drop_first().drop_last())
        } else {
            a.insert(names[i], x)
        };
        lemma_insert_loop_succeeds(a2, names, vals, i + 1);
        if x.len() > 0 && x[0] == '\'' {
            assert(x.drop_first().len() > 0 && x.drop_first().last() == '\'');
        }
    }
}

/// The first quoted value left open stops an insertion with the error
/// asking to close it.
pub proof fn lemma_insert_loop_unclosed(a: ArgMap, names: Seq<Seq<char>>, vals: Seq<Seq<char>>, i: int, k: int)
    requires
        0 <= i <= k < names.len(),
        names.len() == vals.len(),
        forall|j: int| i <= j < k ==> spec_valid_name(#[trigger] names[j]) && quote_closed(vals[j]),
        spec_valid_name(names[k]),
        !quote_closed(vals[k]),
    ensures
        spec_insert_loop(a, names, vals, i) == Err::<ArgMap, Seq<char>>("You forgot to close this: '"@),
    decreases k - i,
{
    if i < k {
        assert(spec_valid_name(names[i]) && quote_closed(vals[i]));
        assert forall|j: int| i + 1 <= j < k implies spec_valid_name(#[trigger] names[j]) && quote_closed(vals[j]) by {
            assert(i <= j);
        }
        let x = vals[i];
        if x.len() > 0 && x[0] == '\'' {
            lemma_insert_loop_unclosed(a.insert(names[i], x.drop_first().drop_last()), names, vals, i + 1, k);
        } else {
            lemma_insert_loop_unclosed(a.insert(names[i], x), names, vals, i + 1, k);
        }
    } else {
        let x = vals[k];
        assert(x.len() > 0 && x[0] == '\'');
        if x.len() >= 2 {
            assert(x.drop_first().last() == x.last());
        }
    }
}

} // verus!
