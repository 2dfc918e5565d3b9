//! The storage of Iris kept in text files: what is read from their texts and
//! what is written to them. The files themselves are read and written by the
//! caller; these functions work on the texts.
use vstd::prelude::*;
use crate::text::{
    views, spec_split, split_str, spec_join, join_str, spec_words, split_words, occurs, contains_str,
    int_digits, str_eq, copy_str, new_string, push_str, push_int, string_of, starts_with, chars_of,
    lemma_split_nonempty,
};
use crate::iris::type_gestion::{TypeGestion, code_sum, code_sum_fits, lemma_code_sum_nonneg, spec_good_value};
use crate::iris::arguments::Arguments;

verus! {

/// The lines of a text, cut at each line feed, without the empty piece after
/// a final line feed. (`str::lines` also drops the carriage return before a
/// line feed; it is whitespace, so the words of each line are the same.)
pub open spec fn spec_lines(s: Seq<char>) -> Seq<Seq<char>> {
    let p = spec_split(s, "\n"@);
    if p.len() > 0 && p.last().len() == 0 {
        p.drop_last()
    } else {
        p
    }
}

/// The lines of a text.
pub fn lines_of(s: &str) -> (r: Vec<String>)
    ensures
        views(r@) == spec_lines(s@),
{
    proof {
        reveal_strlit("\n");
    }
    let mut p = split_str(s, "\n");
    if p.len() > 0 {
        assert(views(p@).last() == p@[p@.len() - 1]@);
        if p[p.len() - 1].unicode_len() == 0 {
            let ghost before = views(p@);
            p.pop();
            assert(views(p@) =~= before.drop_last());
        }
    }
    p
}

/// The words of a text, as strings.
pub fn words(s: &str) -> (r: Vec<String>)
    ensures
        views(r@) == spec_words(s@),
{
    let w = split_words(s);
    let mut r: Vec<String> = Vec::new();
    let mut i: usize = 0;
    while i < w.len()
        invariant
            0 <= i <= w@.len(),
            w@.map_values(|p: Vec<char>| p@) == spec_words(s@),
            views(r@) == spec_words(s@).subrange(0, i as int),
        decreases w.len() - i,
    {
        let ghost before = views(r@);
        r.push(string_of(&w[i]));
        assert(w@.map_values(|p: Vec<char>| p@)[i as int] == w@[i as int]@);
        assert(views(r@) =~= before.push(w@[i as int]@));
        assert(spec_words(s@).subrange(0, i + 1) =~= spec_words(s@).subrange(0, i as int).push(spec_words(s@)[i as int]));
        i = i + 1;
    }
    assert(spec_words(s@).subrange(0, w@.len() as int) =~= spec_words(s@));
    r
}

/// A line whose first word is `name`.
pub open spec fn names_line(line: Seq<char>, name: Seq<char>) -> bool {
    spec_words(line).len() > 0 && spec_words(line)[0] == name
}

/// Whether some line of the list of tables starts with `tab_name`.
pub fn table_exist(main_text: &str, tab_name: &str) -> (r: bool)
    ensures
        r == exists|j: int| 0 <= j < spec_lines(main_text@).len() && names_line(#[trigger] spec_lines(main_text@)[j], tab_name@),
{
    let lines = lines_of(main_text);
    let mut i: usize = 0;
    while i < lines.len()
        invariant
            0 <= i <= lines@.len(),
            views(lines@) == spec_lines(main_text@),
            forall|j: int| 0 <= j < i ==> !names_line(#[trigger] spec_lines(main_text@)[j], tab_name@),
        decreases lines.len() - i,
    {
        assert(views(lines@)[i as int] == lines@[i as int]@);
        let w = words(lines[i].as_str());
        if w.len() > 0 {
            assert(views(w@)[0] == w@[0]@);
            if str_eq(w[0].as_str(), tab_name) {
                return true;
            }
        }
        i = i + 1;
    }
    false
}

/// The primary key of a table: the first word of its data text.
pub open spec fn spec_primary_key(data_text: Seq<char>) -> Seq<char> {
    spec_words(spec_split(data_text, "\n"@)[0])[0]
}

/// The primary key of a table, from its data text (its first line starts
/// with it).
pub fn get_primary_key(data_text: &str) -> (r: String)
    requires
        spec_words(spec_split(data_text@, "\n"@)[0]).len() > 0,
    ensures
        r@ == spec_primary_key(data_text@),
{
    match checked_get_primary_key(data_text) {
        Some(k) => k,
        None => {
            proof {
                assert(false);
            }
            new_string()
        },
    }
}

/// The primary key of a table from any data text; `None` when its first
/// line holds no word.
pub fn checked_get_primary_key(data_text: &str) -> (r: Option<String>)
    ensures
        spec_words(spec_split(data_text@, "\n"@)[0]).len() > 0 ==> (r matches Some(k) && k@ == spec_primary_key(
            data_text@,
        )),
        spec_words(spec_split(data_text@, "\n"@)[0]).len() == 0 ==> r is None,
{
    proof {
        reveal_strlit("\n");
        lemma_split_nonempty(data_text@, "\n"@);
    }
    let p = split_str(data_text, "\n");
    assert(views(p@)[0] == p@[0]@);
    let w = words(p[0].as_str());
    if w.len() == 0 {
        return None;
    }
    assert(views(w@)[0] == w@[0]@);
    Some(copy_str(w[0].as_str()))
}

/// The rank of the column `arg` among the lines of a data text from `i` on,
/// and its name. The outer `None`: a line without words is met first (no
/// reading is defined there).
pub open spec fn spec_arg_data(lines: Seq<Seq<char>>, arg: Seq<char>, i: int) -> Option<Option<(int, Seq<char>)>>
    decreases lines.len() - i,
{
    if i < 0 || i >= lines.len() {
        Some(None)
    } else if spec_words(lines[i]).len() == 0 {
        None
    } else if spec_words(lines[i])[0] == arg {
        Some(Some((i, spec_words(lines[i])[0])))
    } else {
        spec_arg_data(lines, arg, i + 1)
    }
}

/// The rank and the name of the column `arg` in a data text.
pub fn get_arg_data(data_text: &str, arg: &str) -> (r: Option<(i32, String)>)
    requires
        spec_arg_data(spec_lines(data_text@), arg@, 0) is Some,
        spec_lines(data_text@).len() <= i32::MAX,
    ensures
        match spec_arg_data(spec_lines(data_text@), arg@, 0)->0 {
            Some((k, n)) => r matches Some((a, b)) && a == k && b@ == n,
            None => r is None,
        },
{
    match checked_get_arg_data(data_text, arg) {
        Some(r) => r,
        None => {
            proof {
                assert(false);
            }
            None
        },
    }
}

/// The rank and the name of the column `arg` in any data text; `None` where
/// no reading is defined (a line without words is met first) or the data
/// text has more lines than an `i32` counts.
pub fn checked_get_arg_data(data_text: &str, arg: &str) -> (r: Option<Option<(i32, String)>>)
    ensures
        spec_lines(data_text@).len() > i32::MAX ==> r is None,
        spec_lines(data_text@).len() <= i32::MAX ==> match spec_arg_data(spec_lines(data_text@), arg@, 0) {
            None => r is None,
            Some(None) => r == Some(None::<(i32, String)>),
            Some(Some((k, n))) => r matches Some(Some((a, b))) && a == k && b@ == n,
        },
{
    let lines = lines_of(data_text);
    if lines.len() > 0x7fff_ffff {
        return None;
    }
    let mut i: usize = 0;
    while i < lines.len()
        invariant
            0 <= i <= lines@.len(),
            lines@.len() <= i32::MAX,
            views(lines@) == spec_lines(data_text@),
            spec_arg_data(spec_lines(data_text@), arg@, i as int) == spec_arg_data(spec_lines(data_text@), arg@, 0),
        decreases lines.len() - i,
    {
        assert(views(lines@)[i as int] == lines@[i as int]@);
        let w = words(lines[i].as_str());
        if w.len() == 0 {
            return None;
        }
        assert(views(w@)[0] == w@[0]@);
        if str_eq(w[0].as_str(), arg) {
            return Some(Some((i as i32, copy_str(w[0].as_str()))));
        }
        i = i + 1;
    }
    Some(None)
}

/// The condition of a request with each column replaced by its value.
pub open spec fn spec_bool_string(cond: Seq<char>, m: Map<Seq<char>, Seq<char>>) -> Seq<char> {
    spec_join(
        spec_words(cond).map_values(|w: Seq<char>| if m.contains_key(w) { m[w] } else { w }),
        " "@,
    )
}

/// Writes the condition of a request for one line of a table: each word that
/// names a column becomes the value of the column.
pub fn build_bool_string(bool_string: &str, arg: &Arguments) -> (r: String)
    ensures
        r@ == spec_bool_string(bool_string@, arg@),
{
    let w = words(bool_string);
    let mut out: Vec<String> = Vec::new();
    let mut i: usize = 0;
    let ghost f = |x: Seq<char>| if arg@.contains_key(x) { arg@[x] } else { x };
    while i < w.len()
        invariant
            0 <= i <= w@.len(),
            views(w@) == spec_words(bool_string@),
            views(out@) == spec_words(bool_string@).subrange(0, i as int).map_values(f),
            f == (|x: Seq<char>| if arg@.contains_key(x) { arg@[x] } else { x }),
        decreases w.len() - i,
    {
        assert(views(w@)[i as int] == w@[i as int]@);
        let ghost before = views(out@);
        match arg.get(w[i].as_str()) {
            Some(v) => {
                out.push(v);
            },
            None => {
                out.push(copy_str(w[i].as_str()));
            },
        }
        assert(views(out@) =~= before.push(f(w@[i as int]@)));
        assert(spec_words(bool_string@).subrange(0, i + 1).map_values(f) =~= spec_words(bool_string@).subrange(0, i as int).map_values(f).push(f(spec_words(bool_string@)[i as int])));
        i = i + 1;
    }
    assert(spec_words(bool_string@).subrange(0, w@.len() as int) =~= spec_words(bool_string@));
    join_str(&out, " ")
}

/// A value as the conditions compare it: a text (`VARCHAR`) as the sum of
/// its character codes, a boolean as `1` or `0`.
pub open spec fn spec_comparable(type_word: Seq<char>, data: Seq<char>) -> Seq<char> {
    if type_word.len() >= 7 && type_word.subrange(0, 7) == "VARCHAR"@ {
        int_digits(code_sum(data))
    } else if type_word == "BOOL"@ {
        if data == "true"@ { "1"@ } else { "0"@ }
    } else {
        data
    }
}

/// A value as the conditions compare it.
pub fn comparable_value(type_gestion: &TypeGestion, type_word: &str, data: String) -> (r: String)
    requires
        is_varchar(type_word@) ==> code_sum(data@) <= i32::MAX,
    ensures
        r@ == spec_comparable(type_word@, data@),
{
    match checked_comparable_value(type_gestion, type_word, data) {
        Some(v) => v,
        None => {
            proof {
                assert(false);
            }
            new_string()
        },
    }
}

/// A type word that starts with `VARCHAR`.
pub open spec fn is_varchar(t: Seq<char>) -> bool {
    t.len() >= 7 && t.subrange(0, 7) == "VARCHAR"@
}

/// A value as the conditions compare it, for any value; `None` when a
/// text's sum of character codes does not fit in an `i32`.
pub fn checked_comparable_value(type_gestion: &TypeGestion, type_word: &str, data: String) -> (r: Option<String>)
    ensures
        is_varchar(type_word@) && code_sum(data@) > i32::MAX ==> r is None,
        !(is_varchar(type_word@) && code_sum(data@) > i32::MAX) ==> (r matches Some(v) && v@ == spec_comparable(
            type_word@,
            data@,
        )),
{
    proof {
        reveal_strlit("VARCHAR");
        lemma_code_sum_nonneg(data@);
    }
    if starts_with(type_word, "VARCHAR") {
        if !code_sum_fits(data.as_str()) {
            return None;
        }
        let h = type_gestion.hash_string_to_number(data);
        let mut s = new_string();
        push_int(&mut s, h as i128);
        Some(s)
    } else if str_eq(type_word, "BOOL") {
        Some(type_gestion.convert_bool_to_number(data.as_str()))
    } else {
        Some(data)
    }
}

/// How a stored value reads: `d` and the value itself, or `f` and the path
/// of the file that holds it.
pub open spec fn spec_stored(value: Seq<char>) -> (bool, Seq<char>) {
    (value[0] == 'f', value.drop_first())
}

/// Reads the mark of a stored value: whether the rest is a file path, and
/// the rest.
pub fn classify_stored(value: &str) -> (r: (bool, String))
    requires
        value@.len() > 0,
    ensures
        r.0 == spec_stored(value@).0,
        r.1@ == spec_stored(value@).1,
{
    let cs = chars_of(value);
    let mut rest: Vec<char> = Vec::new();
    let mut k: usize = 1;
    while k < cs.len()
        invariant
            1 <= k <= cs@.len(),
            rest@ == cs@.subrange(1, k as int),
        decreases cs.len() - k,
    {
        rest.push(cs[k]);
        assert(cs@.subrange(1, k + 1) =~= cs@.subrange(1, k as int).push(cs@[k as int]));
        k = k + 1;
    }
    assert(rest@ =~= value@.drop_first());
    (cs[0] == 'f', string_of(&rest))
}

/// The columns of a data text, each with the rank of its line (empty lines
/// count). `None`: a line of spaces is met (no reading is defined).
pub open spec fn spec_columns(pieces: Seq<Seq<char>>, i: int) -> Option<Seq<(Seq<char>, int)>>
    decreases pieces.len() - i,
{
    if i < 0 || i >= pieces.len() {
        Some(seq![])
    } else if pieces[i].len() == 0 {
        spec_columns(pieces, i + 1)
    } else if spec_words(pieces[i]).len() == 0 {
        None
    } else {
        match spec_columns(pieces, i + 1) {
            None => None,
            Some(rest) => Some(seq![(spec_words(pieces[i])[0], i)] + rest),
        }
    }
}

/// The columns of a table, from its data text, with the rank of their line.
pub fn columns_of(data_text: &str) -> (r: Vec<(String, i32)>)
    requires
        spec_columns(spec_split(data_text@, "\n"@), 0) is Some,
        spec_split(data_text@, "\n"@).len() <= i32::MAX,
    ensures
        r@.map_values(|c: (String, i32)| (c.0@, c.1 as int)) == spec_columns(spec_split(data_text@, "\n"@), 0)->0,
{
    match checked_columns_of(data_text) {
        Some(c) => c,
        None => {
            proof {
                assert(false);
            }
            Vec::new()
        },
    }
}

/// The columns of a table from any data text; `None` where no reading is
/// defined (a line of spaces) or the text has more lines than an `i32`
/// counts.
pub fn checked_columns_of(data_text: &str) -> (r: Option<Vec<(String, i32)>>)
    ensures
        spec_split(data_text@, "\n"@).len() > i32::MAX ==> r is None,
        spec_split(data_text@, "\n"@).len() <= i32::MAX ==> match spec_columns(spec_split(data_text@, "\n"@), 0) {
            None => r is None,
            Some(c) => r matches Some(v) && v@.map_values(|x: (String, i32)| (x.0@, x.1 as int)) == c,
        },
{
    proof {
        reveal_strlit("\n");
    }
    let p = split_str(data_text, "\n");
    if p.len() > 0x7fff_ffff {
        return None;
    }
    if !columns_defined(&p) {
        return None;
    }
    let ghost ps = views(p@);
    let mut out: Vec<(String, i32)> = Vec::new();
    let mut i: usize = 0;
    while i < p.len()
        invariant
            0 <= i <= p@.len(),
            p@.len() <= i32::MAX,
            ps == views(p@),
            ps == spec_split(data_text@, "\n"@),
            spec_columns(ps, i as int) is Some,
            out@.map_values(|c: (String, i32)| (c.0@, c.1 as int)) + spec_columns(ps, i as int)->0
                == spec_columns(ps, 0)->0,
        decreases p.len() - i,
    {
        assert(ps[i as int] == p@[i as int]@);
        if p[i].unicode_len() != 0 {
            let w = words(p[i].as_str());
            assert(views(w@)[0] == w@[0]@);
            let ghost before = out@.map_values(|c: (String, i32)| (c.0@, c.1 as int));
            out.push((copy_str(w[0].as_str()), i as i32));
            assert(out@.map_values(|c: (String, i32)| (c.0@, c.1 as int)) =~= before.push((w@[0]@, i as int)));
            assert(before.push((w@[0]@, i as int)) + spec_columns(ps, i + 1)->0 =~= before + spec_columns(ps, i as int)->0);
        }
        i = i + 1;
    }
    proof {
        assert(out@.map_values(|c: (String, i32)| (c.0@, c.1 as int)) + Seq::<(Seq<char>, int)>::empty() =~= out@.map_values(|c: (String, i32)| (c.0@, c.1 as int)));
    }
    Some(out)
}

/// Whether the columns of the pieces are defined: no piece is made of
/// spaces only.
fn columns_defined(p: &Vec<String>) -> (r: bool)
    ensures
        r == (spec_columns(views(p@), 0) is Some),
{
    let ghost ps = views(p@);
    let mut i: usize = p.len();
    proof {
        assert(spec_columns(ps, p@.len() as int) is Some);
    }
    while i > 0
        invariant
            0 <= i <= p@.len(),
            ps == views(p@),
            spec_columns(ps, i as int) is Some,
        decreases i,
    {
        assert(ps[i - 1] == p@[i - 1]@);
        if p[i - 1].unicode_len() != 0 {
            let w = words(p[i - 1].as_str());
            if w.len() == 0 {
                proof {
                    lemma_columns_none_stays(ps, i - 1, 0);
                }
                return false;
            }
        }
        i = i - 1;
    }
    true
}

/// Once the columns from `j` on are undefined, so are those from any earlier
/// line.
proof fn lemma_columns_none_stays(ps: Seq<Seq<char>>, j: int, k: int)
    requires
        0 <= k <= j < ps.len(),
        spec_columns(ps, j) is None,
    ensures
        spec_columns(ps, k) is None,
    decreases j - k,
{
    if k < j {
        lemma_columns_none_stays(ps, j, k + 1);
    }
}




/// A side file to write: its path and its text.
pub type FileView = (Seq<char>, Seq<char>);

/// The line text once a value is stored: written in the line (`d`), or, when
/// it spans several lines, in a file of its own whose path the line gives
/// (`f`).
pub open spec fn spec_store(text: Seq<char>, files: Seq<FileView>, value: Seq<char>, path: Seq<char>) -> (Seq<char>, Seq<FileView>) {
    if occurs(value, "\n"@) {
        (text + "f"@ + path + "\n"@, files.push((path, value)))
    } else {
        (text + "d"@ + value + "\n"@, files)
    }
}

/// The type a value is checked against: a `VARCHAR` takes any text.
pub open spec fn check_type(t: Seq<char>) -> Seq<char> {
    if t.len() >= 7 && t.subrange(0, 7) == "VARCHAR"@ { "STRING"@ } else { t }
}

/// The text of a new line of a table, from the column lines from `i` on:
/// the side files written so far and the text, or the error met. `None`: a
/// column line lacks its type or its default value (no text is defined).
pub open spec fn spec_compose(
    lines: Seq<Seq<char>>,
    i: int,
    arg: Map<Seq<char>, Seq<char>>,
    base: Seq<char>,
    text: Seq<char>,
    files: Seq<FileView>,
) -> Option<(Seq<FileView>, Result<Seq<char>, Seq<char>>)>
    decreases lines.len() - i,
{
    if i < 0 || i >= lines.len() {
        Some((files, Ok(text)))
    } else {
        let w = spec_words(lines[i]);
        if w.len() < 2 {
            None
        } else {
            let name = w[0];
            let ty = check_type(w[1]);
            let path = base + "_"@ + name;
            if w.len() >= 3 && w[2] == "DEFAULT"@ {
                if w.len() < 4 {
                    None
                } else {
                    let (t2, f2) = spec_store(text, files, w[3], path);
                    spec_compose(lines, i + 1, arg, base, t2, f2)
                }
            } else if w.len() >= 3 && w[2] != "NOTNULL"@ {
                spec_compose(lines, i + 1, arg, base, text, files)
            } else if arg.contains_key(name) {
                let v = arg[name];
                if !spec_good_value(ty, v) {
                    Some((files, Err("The type "@ + v + " wasn't expected."@)))
                } else {
                    let (t2, f2) = spec_store(text, files, v, path);
                    spec_compose(lines, i + 1, arg.remove(name), base, t2, f2)
                }
            } else if w.len() >= 3 {
                Some((files, Err("The column "@ + name + " was defined with the NOT NULL parameter !"@)))
            } else {
                let (t2, f2) = spec_store(text, files, "NULL"@, path);
                spec_compose(lines, i + 1, arg, base, t2, f2)
            }
        }
    }
}

/// The side files of a list by their characters.
pub open spec fn file_views(f: Seq<(String, String)>) -> Seq<FileView> {
    f.map_values(|p: (String, String)| (p.0@, p.1@))
}

/// Stores a value in the line text.
fn store(text: &mut String, files: &mut Vec<(String, String)>, value: &str, path: &str)
    ensures
        (final(text)@, file_views(final(files)@)) == spec_store(old(text)@, file_views(old(files)@), value@, path@),
{
    proof {
        reveal_strlit("\n");
    }
    if contains_str(value, "\n") {
        push_str(text, "f");
        push_str(text, path);
        push_str(text, "\n");
        let ghost before = file_views(files@);
        files.push((copy_str(path), copy_str(value)));
        assert(file_views(files@) =~= before.push((path@, value@)));
    } else {
        push_str(text, "d");
        push_str(text, value);
        push_str(text, "\n");
    }
}

/// The text of a new line of a table: `d` and the primary key value, then
/// one line per column of the data text (after its first line), and the side
/// files to write for values that span several lines. A column marked
/// `NOTNULL` must have a value; a value must be of the column's type.
pub fn compose_line(
    type_gestion: &TypeGestion,
    data_text: &str,
    arg: Arguments,
    line_file_name: &str,
    p_key_val: &str,
) -> (r: (Vec<(String, String)>, Result<String, String>))
    requires
        spec_compose(spec_lines(data_text@), 1, arg@, line_file_name@, "d"@ + p_key_val@ + "\n"@, seq![]) is Some,
    ensures
        ({
            let (f, res) = spec_compose(spec_lines(data_text@), 1, arg@, line_file_name@, "d"@ + p_key_val@ + "\n"@, seq![])->0;
            &&& file_views(r.0@) == f
            &&& match res {
                Ok(t) => r.1 matches Ok(x) && x@ == t,
                Err(e) => r.1 matches Err(x) && x@ == e,
            }
        }),
{
    match checked_compose_line(type_gestion, data_text, arg, line_file_name, p_key_val) {
        Some(r) => r,
        None => {
            proof {
                assert(false);
            }
            (Vec::new(), Ok(new_string()))
        },
    }
}

/// `compose_line` for any data text; `None` where no text is defined (a
/// column line lacks its type or its default value).
pub fn checked_compose_line(
    type_gestion: &TypeGestion,
    data_text: &str,
    arg: Arguments,
    line_file_name: &str,
    p_key_val: &str,
) -> (r: Option<(Vec<(String, String)>, Result<String, String>)>)
    ensures
        match spec_compose(spec_lines(data_text@), 1, arg@, line_file_name@, "d"@ + p_key_val@ + "\n"@, seq![]) {
            None => r is None,
            Some((f, res)) => r matches Some((files, out)) && file_views(files@) == f && match res {
                Ok(t) => out matches Ok(x) && x@ == t,
                Err(e) => out matches Err(x) && x@ == e,
            },
        },
{
    let lines = lines_of(data_text);
    let ghost ls = views(lines@);
    let mut text = copy_str("d");
    push_str(&mut text, p_key_val);
    push_str(&mut text, "\n");
    let mut files: Vec<(String, String)> = Vec::new();
    let mut a = arg;
    let ghost target = spec_compose(ls, 1, arg@, line_file_name@, "d"@ + p_key_val@ + "\n"@, seq![]);
    assert(file_views(files@) =~= Seq::<FileView>::empty());
    let mut i: usize = 1;
    while i < lines.len()
        invariant
            1 <= i,
            ls == views(lines@),
            ls == spec_lines(data_text@),
            target == spec_compose(spec_lines(data_text@), 1, arg@, line_file_name@, "d"@ + p_key_val@ + "\n"@, seq![]),
            spec_compose(ls, i as int, a@, line_file_name@, text@, file_views(files@)) == target,
        decreases lines.len() - i,
    {
        assert(ls[i as int] == lines@[i as int]@);
        let w = words(lines[i].as_str());
        if w.len() < 2 {
            return None;
        }
        assert(views(w@)[0] == w@[0]@ && views(w@)[1] == w@[1]@);
        let name = w[0].as_str();
        proof {
            reveal_strlit("VARCHAR");
        }
        let ty = if starts_with(w[1].as_str(), "VARCHAR") {
            copy_str("STRING")
        } else {
            copy_str(w[1].as_str())
        };
        let mut path = copy_str(line_file_name);
        push_str(&mut path, "_");
        push_str(&mut path, name);
        let third_default = w.len() >= 3 && str_eq(w[2].as_str(), "DEFAULT");
        if w.len() >= 3 {
            assert(views(w@)[2] == w@[2]@);
        }
        let ghost a0 = a@;
        let ghost t0 = text@;
        let ghost f0 = file_views(files@);
        assert(ty@ == check_type(views(w@)[1]));
        assert(path@ == line_file_name@ + "_"@ + views(w@)[0]);
        if third_default {
            if w.len() < 4 {
                return None;
            }
            assert(views(w@)[3] == w@[3]@);
            store(&mut text, &mut files, w[3].as_str(), path.as_str());
            assert(spec_compose(ls, i as int, a0, line_file_name@, t0, f0) == spec_compose(ls, i + 1, a@, line_file_name@, text@, file_views(files@)));
        } else if w.len() >= 3 && !str_eq(w[2].as_str(), "NOTNULL") {
            assert(spec_compose(ls, i as int, a0, line_file_name@, t0, f0) == spec_compose(ls, i + 1, a@, line_file_name@, text@, file_views(files@)));
        } else {
            match a.remove(name) {
                Some(v) => {
                    if !type_gestion.good_type_and_good_value(ty.as_str(), v.as_str()) {
                        let mut e = copy_str("The type ");
                        push_str(&mut e, v.as_str());
                        push_str(&mut e, " wasn't expected.");
                        return Some((files, Err(e)));
                    }
                    store(&mut text, &mut files, v.as_str(), path.as_str());
                    assert(a0.contains_key(views(w@)[0]) && a0[views(w@)[0]] == v@);
                    assert(spec_compose(ls, i as int, a0, line_file_name@, t0, f0) == spec_compose(ls, i + 1, a@, line_file_name@, text@, file_views(files@)));
                },
                None => {
                    if w.len() >= 3 {
                        let mut e = copy_str("The column ");
                        push_str(&mut e, name);
                        push_str(&mut e, " was defined with the NOT NULL parameter !");
                        return Some((files, Err(e)));
                    }
                    proof {
                        assert(a0.remove(name@) =~= a0);
                    }
                    store(&mut text, &mut files, "NULL", path.as_str());
                    assert(!a0.contains_key(views(w@)[0]));
                    assert(spec_compose(ls, i as int, a0, line_file_name@, t0, f0) == spec_compose(ls, i + 1, a@, line_file_name@, text@, file_views(files@)));
                },
            }
        }
        i = i + 1;
    }
    Some((files, Ok(text)))
}

/// The data text of a new table from the columns from `i` on: one line per
/// column (`name type`, or `name type DEFAULT value`). `None`: a default value
/// is missing (no text is defined).
pub open spec fn spec_data_text(
    entries: Seq<(Seq<char>, Seq<char>)>,
    i: int,
    arg: Map<Seq<char>, Seq<char>>,
    text: Seq<char>,
) -> Option<Result<Seq<char>, Seq<char>>>
    decreases entries.len() - i,
{
    if i < 0 || i >= entries.len() {
        Some(Ok(text))
    } else {
        let (name, ty) = entries[i];
        if (name.len() > 0 && name[0] == '$') || (name.len() > 0 && name[0] == ':') {
            spec_data_text(entries, i + 1, arg, text)
        } else {
            let st = spec_words(ty);
            if st.len() == 1 {
                spec_data_text(entries, i + 1, arg, text + name + " "@ + st[0] + "\n"@)
            } else if st.len() == 2 {
                if st[1] == "DEFAULT"@ {
                    if !arg.contains_key("$"@ + name) {
                        None
                    } else {
                        spec_data_text(
                            entries,
                            i + 1,
                            arg,
                            text + name + " "@ + st[0] + " DEFAULT "@ + arg["$"@ + name] + "\n"@,
                        )
                    }
                } else {
                    Some(Err(st[1] + " keyword is unvalid here"@))
                }
            } else {
                Some(Err(spec_join(st, " "@) + " isn't a valid parameter for a column."@))
            }
        }
    }
}

/// The data text of a new table: the primary key and its type first, then
/// the other columns in the order given.
pub fn data_text_of(
    primary_key: &str,
    primary_type: &str,
    entries: &Vec<(String, String)>,
    arg: &Arguments,
) -> (r: Result<String, String>)
    requires
        spec_data_text(
            entries@.map_values(|p: (String, String)| (p.0@, p.1@)),
            0,
            arg@,
            primary_key@ + " "@ + primary_type@ + "\n"@,
        ) is Some,
    ensures
        match spec_data_text(
            entries@.map_values(|p: (String, String)| (p.0@, p.1@)),
            0,
            arg@,
            primary_key@ + " "@ + primary_type@ + "\n"@,
        )->0 {
            Ok(t) => r matches Ok(x) && x@ == t,
            Err(e) => r matches Err(x) && x@ == e,
        },
{
    match checked_data_text_of(primary_key, primary_type, entries, arg) {
        Some(r) => r,
        None => {
            proof {
                assert(false);
            }
            Ok(new_string())
        },
    }
}

/// `data_text_of` for any columns; `None` where a column with a default
/// value has no `$name` argument (no text is defined).
pub fn checked_data_text_of(
    primary_key: &str,
    primary_type: &str,
    entries: &Vec<(String, String)>,
    arg: &Arguments,
) -> (r: Option<Result<String, String>>)
    ensures
        match spec_data_text(
            entries@.map_values(|p: (String, String)| (p.0@, p.1@)),
            0,
            arg@,
            primary_key@ + " "@ + primary_type@ + "\n"@,
        ) {
            None => r is None,
            Some(Ok(t)) => r matches Some(Ok(x)) && x@ == t,
            Some(Err(e)) => r matches Some(Err(x)) && x@ == e,
        },
{
    let ghost ev = entries@.map_values(|p: (String, String)| (p.0@, p.1@));
    let ghost target = spec_data_text(ev, 0, arg@, primary_key@ + " "@ + primary_type@ + "\n"@);
    let mut text = copy_str(primary_key);
    push_str(&mut text, " ");
    push_str(&mut text, primary_type);
    push_str(&mut text, "\n");
    let mut i: usize = 0;
    while i < entries.len()
        invariant
            0 <= i <= entries@.len(),
            ev == entries@.map_values(|p: (String, String)| (p.0@, p.1@)),
            target == spec_data_text(ev, 0, arg@, primary_key@ + " "@ + primary_type@ + "\n"@),
            spec_data_text(ev, i as int, arg@, text@) == target,
        decreases entries.len() - i,
    {
        let name = entries[i].0.as_str();
        let ty = entries[i].1.as_str();
        assert(ev[i as int] == (name@, ty@));
        let first = if name.unicode_len() > 0 {
            Some(name.get_char(0))
        } else {
            None
        };
        if first == Some('$') || first == Some(':') {
        } else {
            let st = words(ty);
            if st.len() == 1 {
                assert(views(st@)[0] == st@[0]@);
                push_str(&mut text, name);
                push_str(&mut text, " ");
                push_str(&mut text, st[0].as_str());
                push_str(&mut text, "\n");
            } else if st.len() == 2 {
                assert(views(st@)[0] == st@[0]@ && views(st@)[1] == st@[1]@);
                if str_eq(st[1].as_str(), "DEFAULT") {
                    let mut key = copy_str("$");
                    push_str(&mut key, name);
                    let v = match arg.get(key.as_str()) {
                        Some(v) => v,
                        None => {
                            return None;
                        },
                    };
                    push_str(&mut text, name);
                    push_str(&mut text, " ");
                    push_str(&mut text, st[0].as_str());
                    push_str(&mut text, " DEFAULT ");
                    push_str(&mut text, v.as_str());
                    push_str(&mut text, "\n");
                } else {
                    let mut e = copy_str(st[1].as_str());
                    push_str(&mut e, " keyword is unvalid here");
                    return Some(Err(e));
                }
            } else {
                let mut e = join_str(&st, " ");
                push_str(&mut e, " isn't a valid parameter for a column.");
                return Some(Err(e));
            }
        }
        i = i + 1;
    }
    Some(Ok(text))
}

/// Adds one row to the columns gathered by a selection: where the row's
/// condition holds, the row's value for each asked column goes at the end of
/// that column; where it does not, nothing changes.
pub fn gather_row(gathered: &mut Vec<Vec<String>>, holds: bool, values: &Vec<String>)
    requires
        old(gathered)@.len() == values@.len(),
    ensures
        final(gathered)@.len() == old(gathered)@.len(),
        forall|k: int|
            0 <= k < old(gathered)@.len() ==> views(#[trigger] final(gathered)@[k]@) == if holds {
                views(old(gathered)@[k]@).push(values@[k]@)
            } else {
                views(old(gathered)@[k]@)
            },
{
    if !holds {
        return;
    }
    let ghost before = gathered@;
    let mut k: usize = 0;
    while k < values.len()
        invariant
            0 <= k <= values@.len(),
            gathered@.len() == before.len(),
            before.len() == values@.len(),
            forall|j: int| 0 <= j < k ==> views(#[trigger] gathered@[j]@) == views(before[j]@).push(values@[j]@),
            forall|j: int| k <= j < before.len() ==> #[trigger] gathered@[j] == before[j],
        decreases values.len() - k,
    {
        let mut column = gathered.remove(k);
        let ghost old_column = column@;
        column.push(copy_str(values[k].as_str()));
        assert(views(column@) =~= views(old_column).push(values@[k as int]@));
        gathered.insert(k, column);
        k = k + 1;
    }
}

} // verus!
