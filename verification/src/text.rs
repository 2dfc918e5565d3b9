//! Character-level helpers shared by the whole library: decimal printing and
//! parsing of integers, comparison of strings, building strings char by char.
use vstd::prelude::*;

verus! {

/// True for the ten ASCII digits.
pub open spec fn is_digit(c: char) -> bool {
    '0' <= c && c <= '9'
}

/// The value of a digit character.
pub open spec fn digit_value(c: char) -> nat {
    ((c as int) - 48) as nat
}

/// The character of a digit value below ten.
pub open spec fn digit_char(d: nat) -> char {
    (48 + d) as char
}

/// The decimal writing of a natural number, most significant digit first,
/// without leading zeros ("0" for zero).
pub open spec fn nat_digits(n: nat) -> Seq<char>
    decreases n,
{
    if n < 10 {
        seq![digit_char(n)]
    } else {
        nat_digits(n / 10).push(digit_char(n % 10))
    }
}

/// The decimal writing of an integer: a minus sign before negative values.
pub open spec fn int_digits(i: int) -> Seq<char> {
    if i < 0 {
        seq!['-'] + nat_digits((-i) as nat)
    } else {
        nat_digits(i as nat)
    }
}

/// Every character of `s` is a digit.
pub open spec fn all_digits(s: Seq<char>) -> bool {
    forall|i: int| 0 <= i < s.len() ==> is_digit(#[trigger] s[i])
}

/// The value of a sequence of digits read in base ten.
pub open spec fn digits_value(s: Seq<char>) -> nat
    decreases s.len(),
{
    if s.len() == 0 {
        0
    } else {
        digits_value(s.drop_last()) * 10 + digit_value(s.last())
    }
}

/// How Rust reads an integer from text: an optional sign (a minus only for
/// signed types) then at least one digit, of any size.
pub open spec fn spec_parse_int(s: Seq<char>, signed: bool) -> Option<int> {
    if s.len() > 0 && (s[0] == '+' || (signed && s[0] == '-')) {
        let rest = s.drop_first();
        if rest.len() > 0 && all_digits(rest) {
            if s[0] == '-' {
                Some(-(digits_value(rest) as int))
            } else {
                Some(digits_value(rest) as int)
            }
        } else {
            None
        }
    } else if s.len() > 0 && all_digits(s) {
        Some(digits_value(s) as int)
    } else {
        None
    }
}

/// `str::parse::<i64>`.
pub open spec fn spec_parse_i64(s: Seq<char>) -> Option<i64> {
    match spec_parse_int(s, true) {
        Some(v) => if i64::MIN <= v <= i64::MAX {
            Some(v as i64)
        } else {
            None
        },
        None => None,
    }
}

/// `str::parse::<i32>`.
pub open spec fn spec_parse_i32(s: Seq<char>) -> Option<i32> {
    match spec_parse_int(s, true) {
        Some(v) => if i32::MIN <= v <= i32::MAX {
            Some(v as i32)
        } else {
            None
        },
        None => None,
    }
}

/// `str::parse::<u32>`.
pub open spec fn spec_parse_u32(s: Seq<char>) -> Option<u32> {
    match spec_parse_int(s, false) {
        Some(v) => if 0 <= v <= u32::MAX {
            Some(v as u32)
        } else {
            None
        },
        None => None,
    }
}

/// `str::parse::<usize>`.
pub open spec fn spec_parse_usize(s: Seq<char>) -> Option<usize> {
    match spec_parse_int(s, false) {
        Some(v) => if 0 <= v <= usize::MAX {
            Some(v as usize)
        } else {
            None
        },
        None => None,
    }
}

/// Prefixes of a digit sequence never weigh more than the whole.
pub proof fn lemma_digits_value_prefix(s: Seq<char>, k: int)
    requires
        0 <= k <= s.len(),
        all_digits(s),
    ensures
        digits_value(s.subrange(0, k)) <= digits_value(s),
    decreases s.len() - k,
{
    if k < s.len() {
        lemma_digits_value_prefix(s, k + 1);
        let p = s.subrange(0, k + 1);
        assert(p.drop_last() == s.subrange(0, k));
    } else {
        assert(s.subrange(0, k) == s);
    }
}

/// Reads an integer written in decimal as Rust does, for any value in
/// `-2^64 ..= 2^64`; values outside that range give `None`.
pub fn parse_integer(s: &str, signed: bool) -> (r: Option<i128>)
    ensures
        match spec_parse_int(s@, signed) {
            Some(v) => if -0x1_0000_0000_0000_0000 <= v <= 0x1_0000_0000_0000_0000 {
                r == Some(v as i128)
            } else {
                r is None
            },
            None => r is None,
        },
{
    let n = s.unicode_len();
    if n == 0 {
        return None;
    }
    let c0 = s.get_char(0);
    let neg = signed && c0 == '-';
    let start: usize = if c0 == '+' || neg { 1 } else { 0 };
    if start == n {
        return None;
    }
    let ghost rest = s@.subrange(start as int, n as int);
    assert(start == 1 ==> rest == s@.drop_first());
    assert(start == 0 ==> rest == s@);
    let ghost expected: Option<int> = if all_digits(rest) {
        Some(if neg { -(digits_value(rest) as int) } else { digits_value(rest) as int })
    } else {
        None
    };
    assert(spec_parse_int(s@, signed) == expected);
    let mut v: u128 = 0;
    let mut i: usize = start;
    while i < n
        invariant
            start <= i <= n,
            n == s@.len(),
            rest == s@.subrange(start as int, n as int),
            all_digits(rest.subrange(0, i - start)),
            v == digits_value(rest.subrange(0, i - start)),
            v <= 0x1_0000_0000_0000_0000,
            spec_parse_int(s@, signed) == expected,
            expected == (if all_digits(rest) {
                Some(if neg { -(digits_value(rest) as int) } else { digits_value(rest) as int })
            } else {
                None::<int>
            }),
        decreases n - i,
    {
        let c = s.get_char(i);
        if !('0' <= c && c <= '9') {
            assert(rest[i - start] == c);
            assert(!all_digits(rest));
            return None;
        }
        let d = (c as u32 - 48) as u128;
        let ghost p = rest.subrange(0, i + 1 - start);
        assert(p.drop_last() == rest.subrange(0, i - start));
        assert(p.last() == c);
        assert forall|j: int| 0 <= j < p.len() implies is_digit(#[trigger] p[j]) by {
            if j < p.len() - 1 {
                assert(p[j] == rest.subrange(0, i - start)[j]);
            }
        }
        v = v * 10 + d;
        i = i + 1;
        if v > 0x1_0000_0000_0000_0000 {
            proof {
                if all_digits(rest) {
                    lemma_digits_value_prefix(rest, i - start);
                }
            }
            return None;
        }
    }
    assert(rest.subrange(0, n - start) == rest);
    if neg {
        Some(-(v as i128))
    } else {
        Some(v as i128)
    }
}

/// `str::parse::<i64>`.
pub fn parse_i64(s: &str) -> (r: Option<i64>)
    ensures
        r == spec_parse_i64(s@),
{
    match parse_integer(s, true) {
        Some(v) => if -0x8000_0000_0000_0000 <= v && v <= 0x7fff_ffff_ffff_ffff {
            Some(v as i64)
        } else {
            None
        },
        None => None,
    }
}

/// `str::parse::<i32>`.
pub fn parse_i32(s: &str) -> (r: Option<i32>)
    ensures
        r == spec_parse_i32(s@),
{
    match parse_integer(s, true) {
        Some(v) => if -0x8000_0000 <= v && v <= 0x7fff_ffff {
            Some(v as i32)
        } else {
            None
        },
        None => None,
    }
}

/// `str::parse::<u32>`.
pub fn parse_u32(s: &str) -> (r: Option<u32>)
    ensures
        r == spec_parse_u32(s@),
{
    match parse_integer(s, false) {
        Some(v) => if 0 <= v && v <= 0xffff_ffff {
            Some(v as u32)
        } else {
            None
        },
        None => None,
    }
}

/// `str::parse::<usize>`.
pub fn parse_usize(s: &str) -> (r: Option<usize>)
    ensures
        r == spec_parse_usize(s@),
{
    match parse_integer(s, false) {
        Some(v) => if 0 <= v && v <= usize::MAX as i128 {
            Some(v as usize)
        } else {
            None
        },
        None => None,
    }
}

/// The characters of each string of a sequence.
pub open spec fn views(v: Seq<String>) -> Seq<Seq<char>> {
    v.map_values(|s: String| s@)
}

/// Position of the first occurrence of the non-empty `d` in `s`, looking at
/// `from` and after.
pub open spec fn find_from(s: Seq<char>, d: Seq<char>, from: int) -> Option<int>
    decreases s.len() + 1 - from,
{
    if from < 0 || from + d.len() > s.len() {
        None
    } else if s.subrange(from, from + d.len()) == d {
        Some(from)
    } else {
        find_from(s, d, from + 1)
    }
}

/// The pieces of `s` from `start` on, cut at each occurrence of `d`.
pub open spec fn split_from(s: Seq<char>, d: Seq<char>, start: int) -> Seq<Seq<char>>
    decreases s.len() - start,
{
    if d.len() == 0 || start < 0 || start > s.len() {
        seq![]
    } else {
        match find_from(s, d, start) {
            Some(i) => if i >= start && i + d.len() <= s.len() {
                seq![s.subrange(start, i)] + split_from(s, d, i + d.len())
            } else {
                seq![]
            },
            None => seq![s.subrange(start, s.len() as int)],
        }
    }
}

/// `str::split` with a non-empty string pattern: the pieces of `s` between the
/// occurrences of `d`, found from left to right without overlap.
pub open spec fn spec_split(s: Seq<char>, d: Seq<char>) -> Seq<Seq<char>> {
    split_from(s, d, 0)
}

/// A found occurrence is the first one.
pub proof fn lemma_find_from_bounds(s: Seq<char>, d: Seq<char>, from: int)
    ensures
        find_from(s, d, from) matches Some(i) ==> from <= i && i + d.len() <= s.len()
            && s.subrange(i, i + d.len()) == d,
    decreases s.len() + 1 - from,
{
    if from < 0 || from + d.len() > s.len() {
    } else if s.subrange(from, from + d.len()) == d {
    } else {
        lemma_find_from_bounds(s, d, from + 1);
    }
}

/// Splitting gives at least one piece.
pub proof fn lemma_split_nonempty(s: Seq<char>, d: Seq<char>)
    requires
        d.len() > 0,
    ensures
        spec_split(s, d).len() >= 1,
{
    lemma_find_from_bounds(s, d, 0);
}

/// Whether `d` occurs in `s` at position `i`.
fn occurs_at(s: &Vec<char>, d: &Vec<char>, i: usize) -> (r: bool)
    requires
        i + d@.len() <= s@.len(),
    ensures
        r == (s@.subrange(i as int, i + d@.len()) == d@),
{
    let n = s.len();
    let mut k: usize = 0;
    while k < d.len()
        invariant
            0 <= k <= d.len(),
            n == s@.len(),
            i + d@.len() <= s@.len(),
            forall|j: int| 0 <= j < k ==> s@[i + j] == d@[j],
        decreases d.len() - k,
    {
        assert(i + k < s@.len());
        if s[i + k] != d[k] {
            assert(s@.subrange(i as int, i + d@.len())[k as int] != d@[k as int]);
            return false;
        }
        k = k + 1;
    }
    assert(s@.subrange(i as int, i + d@.len()) =~= d@);
    true
}

/// The first occurrence of `d` in `s` at `from` or after.
pub fn find_chars(s: &Vec<char>, d: &Vec<char>, from: usize) -> (r: Option<usize>)
    requires
        from <= s@.len(),
    ensures
        match find_from(s@, d@, from as int) {
            Some(i) => r == Some(i as usize),
            None => r is None,
        },
{
    if d.len() > s.len() {
        return None;
    }
    if d.len() == 0 {
        assert(s@.subrange(from as int, from as int) =~= d@);
        return Some(from);
    }
    let n = s.len();
    let last = n - d.len();
    let mut k: usize = from;
    while k <= last
        invariant
            from <= k,
            n == s@.len(),
            d@.len() >= 1,
            d@.len() <= s@.len(),
            last == s@.len() - d@.len(),
            find_from(s@, d@, from as int) == find_from(s@, d@, k as int),
        decreases last + 1 - k,
    {
        if occurs_at(s, d, k) {
            return Some(k);
        }
        k = k + 1;
    }
    None
}

/// `str::split` with a non-empty string pattern, on character vectors.
pub fn split_chars(s: &Vec<char>, d: &Vec<char>) -> (r: Vec<Vec<char>>)
    requires
        d@.len() > 0,
    ensures
        r@.map_values(|p: Vec<char>| p@) == spec_split(s@, d@),
{
    let mut r: Vec<Vec<char>> = Vec::new();
    let mut start: usize = 0;
    let n = s.len();
    loop
        invariant
            0 <= start <= s@.len(),
            n == s@.len(),
            d@.len() > 0,
            r@.map_values(|p: Vec<char>| p@) + split_from(s@, d@, start as int) == spec_split(s@, d@),
        decreases s@.len() - start,
    {
        proof {
            lemma_find_from_bounds(s@, d@, start as int);
        }
        let found = find_chars(s, d, start);
        match found {
            Some(i) => {
                proof {
                    let j = find_from(s@, d@, start as int)->0;
                    assert(find_from(s@, d@, start as int) is Some);
                    assert(start <= j && j + d@.len() <= s@.len());
                    assert(found == Some(j as usize));
                    assert(i as int == j);
                }
                let mut piece: Vec<char> = Vec::new();
                let mut k: usize = start;
                while k < i
                    invariant
                        start <= k <= i <= s@.len(),
                        piece@ == s@.subrange(start as int, k as int),
                    decreases i - k,
                {
                    piece.push(s[k]);
                    assert(s@.subrange(start as int, k + 1) == s@.subrange(start as int, k as int).push(s@[k as int]));
                    k = k + 1;
                }
                let ghost old_r = r@.map_values(|p: Vec<char>| p@);
                r.push(piece);
                assert(r@.map_values(|p: Vec<char>| p@) == old_r.push(s@.subrange(start as int, i as int)));
                assert(split_from(s@, d@, start as int) == seq![s@.subrange(start as int, i as int)] + split_from(s@, d@, i + d@.len()));
                assert(old_r + split_from(s@, d@, start as int) == old_r.push(s@.subrange(start as int, i as int)) + split_from(s@, d@, i + d@.len()));
                start = i + d.len();
            },
            None => {
                let mut piece: Vec<char> = Vec::new();
                let mut k: usize = start;
                while k < s.len()
                    invariant
                        start <= k <= s@.len(),
                        piece@ == s@.subrange(start as int, k as int),
                    decreases s.len() - k,
                {
                    piece.push(s[k]);
                    assert(s@.subrange(start as int, k + 1) == s@.subrange(start as int, k as int).push(s@[k as int]));
                    k = k + 1;
                }
                let ghost old_r = r@.map_values(|p: Vec<char>| p@);
                r.push(piece);
                assert(r@.map_values(|p: Vec<char>| p@) == old_r.push(s@.subrange(start as int, s@.len() as int)));
                assert(old_r + split_from(s@, d@, start as int) =~= old_r.push(s@.subrange(start as int, s@.len() as int)));
                return r;
            },
        }
    }
}

/// `str::split` with a non-empty string pattern.
pub fn split_str(s: &str, d: &str) -> (r: Vec<String>)
    requires
        d@.len() > 0,
    ensures
        views(r@) == spec_split(s@, d@),
{
    let sc = chars_of(s);
    let dc = chars_of(d);
    let pieces = split_chars(&sc, &dc);
    let mut r: Vec<String> = Vec::new();
    let mut i: usize = 0;
    while i < pieces.len()
        invariant
            0 <= i <= pieces@.len(),
            views(r@) == pieces@.map_values(|p: Vec<char>| p@).subrange(0, i as int),
        decreases pieces.len() - i,
    {
        let ghost old_r = r@;
        r.push(string_of(&pieces[i]));
        assert(views(r@) == views(old_r).push(pieces@[i as int]@));
        assert(pieces@.map_values(|p: Vec<char>| p@).subrange(0, i + 1) == pieces@.map_values(|p: Vec<char>| p@).subrange(0, i as int).push(pieces@[i as int]@));
        i = i + 1;
    }
    assert(pieces@.map_values(|p: Vec<char>| p@).subrange(0, i as int) == pieces@.map_values(|p: Vec<char>| p@));
    r
}

/// `char::is_whitespace`: the characters with the Unicode White_Space property.
pub open spec fn is_ws(c: char) -> bool {
    ||| c == ' '
    ||| ('\t' <= c && c <= '\r')
    ||| c == '\u{85}'
    ||| c == '\u{a0}'
    ||| c == '\u{1680}'
    ||| ('\u{2000}' <= c && c <= '\u{200a}')
    ||| c == '\u{2028}'
    ||| c == '\u{2029}'
    ||| c == '\u{202f}'
    ||| c == '\u{205f}'
    ||| c == '\u{3000}'
}

/// `char::is_whitespace`.
pub fn is_whitespace(c: char) -> (r: bool)
    ensures
        r == is_ws(c),
{
    c == ' ' || ('\t' <= c && c <= '\r') || c == '\u{85}' || c == '\u{a0}' || c == '\u{1680}'
        || ('\u{2000}' <= c && c <= '\u{200a}') || c == '\u{2028}' || c == '\u{2029}'
        || c == '\u{202f}' || c == '\u{205f}' || c == '\u{3000}'
}

/// The words of `s` from position `i` on, `cur` being the part of the word
/// already read.
pub open spec fn words_from(s: Seq<char>, i: int, cur: Seq<char>) -> Seq<Seq<char>>
    decreases s.len() - i,
{
    if i < 0 || i >= s.len() {
        if cur.len() > 0 { seq![cur] } else { seq![] }
    } else if is_ws(s[i]) {
        (if cur.len() > 0 { seq![cur] } else { seq![] }) + words_from(s, i + 1, seq![])
    } else {
        words_from(s, i + 1, cur.push(s[i]))
    }
}

/// `str::split_whitespace`: the maximal runs of non-whitespace characters.
pub open spec fn spec_words(s: Seq<char>) -> Seq<Seq<char>> {
    words_from(s, 0, seq![])
}

/// `str::split_whitespace`, on a string.
pub fn split_words(s: &str) -> (r: Vec<Vec<char>>)
    ensures
        r@.map_values(|p: Vec<char>| p@) == spec_words(s@),
{
    let sc = chars_of(s);
    let mut r: Vec<Vec<char>> = Vec::new();
    let mut cur: Vec<char> = Vec::new();
    let mut i: usize = 0;
    while i < sc.len()
        invariant
            0 <= i <= sc@.len(),
            sc@ == s@,
            r@.map_values(|p: Vec<char>| p@) + words_from(s@, i as int, cur@) == spec_words(s@),
        decreases sc.len() - i,
    {
        let c = sc[i];
        let ghost old_r = r@.map_values(|p: Vec<char>| p@);
        if is_whitespace(c) {
            if cur.len() > 0 {
                let ghost cv = cur@;
                r.push(cur);
                cur = Vec::new();
                assert(r@.map_values(|p: Vec<char>| p@) == old_r.push(cv));
                assert(old_r + words_from(s@, i as int, cv) == old_r.push(cv) + words_from(s@, i + 1, seq![]));
            } else {
                assert(words_from(s@, i as int, cur@) == words_from(s@, i + 1, seq![]));
                assert(cur@ == Seq::<char>::empty());
            }
        } else {
            cur.push(c);
        }
        i = i + 1;
    }
    if cur.len() > 0 {
        let ghost old_r = r@.map_values(|p: Vec<char>| p@);
        let ghost cv = cur@;
        r.push(cur);
        assert(r@.map_values(|p: Vec<char>| p@) == old_r.push(cv));
    } else {
        assert(r@.map_values(|p: Vec<char>| p@) + words_from(s@, i as int, cur@) == r@.map_values(|p: Vec<char>| p@));
    }
    r
}

/// The number of bytes of a character in UTF-8.
pub open spec fn char_width(c: char) -> nat {
    if (c as u32) < 0x80 {
        1
    } else if (c as u32) < 0x800 {
        2
    } else if (c as u32) < 0x10000 {
        3
    } else {
        4
    }
}

/// The number of bytes of a text in UTF-8 (`str::len`).
pub open spec fn byte_len(s: Seq<char>) -> nat
    decreases s.len(),
{
    if s.len() == 0 {
        0
    } else {
        byte_len(s.drop_last()) + char_width(s.last())
    }
}

/// The number of bytes of `s` in UTF-8, up to `bound`: `bound + 1` when it
/// has more.
pub fn byte_len_upto(s: &str, bound: usize) -> (r: usize)
    requires
        bound < usize::MAX,
    ensures
        r == if byte_len(s@) <= bound { byte_len(s@) } else { (bound + 1) as nat },
{
    let n = s.unicode_len();
    let mut total: usize = 0;
    let mut i: usize = 0;
    while i < n
        invariant
            0 <= i <= n,
            n == s@.len(),
            total == byte_len(s@.subrange(0, i as int)),
            total <= bound,
            bound < usize::MAX,
        decreases n - i,
    {
        let c = s.get_char(i);
        let w: usize = if (c as u32) < 0x80 {
            1
        } else if (c as u32) < 0x800 {
            2
        } else if (c as u32) < 0x10000 {
            3
        } else {
            4
        };
        assert(s@.subrange(0, i as int + 1).drop_last() == s@.subrange(0, i as int));
        if w > bound - total {
            proof {
                lemma_byte_len_prefix(s@, i + 1);
            }
            return bound + 1;
        }
        total = total + w;
        i = i + 1;
    }
    assert(s@.subrange(0, n as int) == s@);
    total
}

/// A prefix never has more bytes than the whole.
pub proof fn lemma_byte_len_prefix(s: Seq<char>, k: int)
    requires
        0 <= k <= s.len(),
    ensures
        byte_len(s.subrange(0, k)) <= byte_len(s),
    decreases s.len() - k,
{
    if k < s.len() {
        lemma_byte_len_prefix(s, k + 1);
        assert(s.subrange(0, k + 1).drop_last() == s.subrange(0, k));
    } else {
        assert(s.subrange(0, k) == s);
    }
}

/// Appends one character to a string (`String::push`).
#[verifier::external_body]
pub fn push_char(s: &mut String, c: char)
    ensures
        final(s)@ == old(s)@.push(c),
{
    s.push(c);
}

/// An empty string.
pub fn new_string() -> (r: String)
    ensures
        r@ == Seq::<char>::empty(),
{
    String::new()
}

/// Appends the characters of `t` to `s`.
pub fn push_str(s: &mut String, t: &str)
    ensures
        final(s)@ == old(s)@ + t@,
{
    s.append(t);
}

/// Appends a sequence of characters to `s`.
pub fn push_chars(s: &mut String, t: &Vec<char>)
    ensures
        final(s)@ == old(s)@ + t@,
{
    let mut i: usize = 0;
    while i < t.len()
        invariant
            0 <= i <= t.len(),
            s@ == old(s)@ + t@.subrange(0, i as int),
        decreases t.len() - i,
    {
        push_char(s, t[i]);
        assert(t@.subrange(0, i as int + 1) == t@.subrange(0, i as int).push(t@[i as int]));
        i = i + 1;
    }
    assert(t@.subrange(0, t.len() as int) == t@);
}

/// A string made of the given characters.
pub fn string_of(t: &Vec<char>) -> (r: String)
    ensures
        r@ == t@,
{
    let mut s = new_string();
    push_chars(&mut s, t);
    s
}

/// The characters of a string.
pub fn chars_of(s: &str) -> (r: Vec<char>)
    ensures
        r@ == s@,
{
    let n = s.unicode_len();
    let mut r: Vec<char> = Vec::new();
    let mut i: usize = 0;
    while i < n
        invariant
            0 <= i <= n,
            n == s@.len(),
            r@ == s@.subrange(0, i as int),
        decreases n - i,
    {
        r.push(s.get_char(i));
        assert(s@.subrange(0, i as int + 1) == s@.subrange(0, i as int).push(s@[i as int]));
        i = i + 1;
    }
    assert(s@.subrange(0, n as int) == s@);
    r
}

/// A copy of a string.
pub fn copy_str(s: &str) -> (r: String)
    ensures
        r@ == s@,
{
    String::from_str(s)
}

/// Whether two strings hold the same characters.
pub fn str_eq(a: &str, b: &str) -> (r: bool)
    ensures
        r == (a@ == b@),
{
    let n = a.unicode_len();
    if n != b.unicode_len() {
        return false;
    }
    let mut i: usize = 0;
    while i < n
        invariant
            0 <= i <= n,
            n == a@.len(),
            n == b@.len(),
            forall|j: int| 0 <= j < i ==> a@[j] == b@[j],
        decreases n - i,
    {
        if a.get_char(i) != b.get_char(i) {
            return false;
        }
        i = i + 1;
    }
    assert(a@ =~= b@);
    true
}

/// Whether two character vectors are equal.
pub fn chars_eq(a: &Vec<char>, b: &Vec<char>) -> (r: bool)
    ensures
        r == (a@ == b@),
{
    if a.len() != b.len() {
        return false;
    }
    let mut i: usize = 0;
    while i < a.len()
        invariant
            0 <= i <= a.len(),
            a.len() == b.len(),
            forall|j: int| 0 <= j < i ==> a@[j] == b@[j],
        decreases a.len() - i,
    {
        if a[i] != b[i] {
            return false;
        }
        i = i + 1;
    }
    assert(a@ =~= b@);
    true
}

/// Whether `s` begins with `p`.
pub fn starts_with(s: &str, p: &str) -> (r: bool)
    ensures
        r == (p@.len() <= s@.len() && s@.subrange(0, p@.len() as int) == p@),
{
    let n = p.unicode_len();
    if n > s.unicode_len() {
        return false;
    }
    let mut i: usize = 0;
    while i < n
        invariant
            0 <= i <= n,
            n == p@.len(),
            n <= s@.len(),
            forall|j: int| 0 <= j < i ==> s@[j] == p@[j],
        decreases n - i,
    {
        if s.get_char(i) != p.get_char(i) {
            return false;
        }
        i = i + 1;
    }
    assert(s@.subrange(0, n as int) =~= p@);
    true
}

/// Whether `s` ends with `p`.
pub fn ends_with(s: &str, p: &str) -> (r: bool)
    ensures
        r == (p@.len() <= s@.len() && s@.subrange(s@.len() - p@.len(), s@.len() as int) == p@),
{
    let n = p.unicode_len();
    let m = s.unicode_len();
    if n > m {
        return false;
    }
    let mut i: usize = 0;
    while i < n
        invariant
            0 <= i <= n,
            n == p@.len(),
            m == s@.len(),
            n <= m,
            forall|j: int| 0 <= j < i ==> s@[m - n + j] == p@[j],
        decreases n - i,
    {
        if s.get_char(m - n + i) != p.get_char(i) {
            return false;
        }
        i = i + 1;
    }
    assert(s@.subrange(m - n, m as int) =~= p@);
    true
}

/// Whether `c` occurs in `s`.
pub fn contains_char(s: &str, c: char) -> (r: bool)
    ensures
        r == s@.contains(c),
{
    let n = s.unicode_len();
    let mut i: usize = 0;
    while i < n
        invariant
            0 <= i <= n,
            n == s@.len(),
            forall|j: int| 0 <= j < i ==> s@[j] != c,
        decreases n - i,
    {
        if s.get_char(i) == c {
            return true;
        }
        i = i + 1;
    }
    false
}

/// Appends the decimal writing of `n` to `s`.
pub fn push_nat(s: &mut String, n: u128)
    ensures
        final(s)@ == old(s)@ + nat_digits(n as nat),
    decreases n,
{
    if n < 10 {
        push_char(s, ((48 + n) as u8) as char);
        assert(((48 + n) as u8) as char == digit_char(n as nat));
    } else {
        push_nat(s, n / 10);
        let d = n % 10;
        push_char(s, ((48 + d) as u8) as char);
        assert(((48 + d) as u8) as char == digit_char((n % 10) as nat));
        assert(nat_digits(n as nat) == nat_digits((n / 10) as nat).push(digit_char(n as nat % 10)));
    }
}

/// Appends the decimal writing of `i` to `s`.
pub fn push_int(s: &mut String, i: i128)
    requires
        i > i128::MIN,
    ensures
        final(s)@ == old(s)@ + int_digits(i as int),
{
    if i < 0 {
        push_char(s, '-');
        push_nat(s, (-i) as u128);
        assert(old(s)@.push('-') + nat_digits((-i) as nat) == old(s)@ + (seq!['-'] + nat_digits((-i) as nat)));
    } else {
        push_nat(s, i as u128);
    }
}

/// The decimal writing of `n`.
pub fn nat_to_string(n: u128) -> (r: String)
    ensures
        r@ == nat_digits(n as nat),
{
    let mut s = new_string();
    push_nat(&mut s, n);
    s
}

/// The decimal writing of `i`.
pub fn int_to_string(i: i128) -> (r: String)
    requires
        i > i128::MIN,
    ensures
        r@ == int_digits(i as int),
{
    let mut s = new_string();
    push_int(&mut s, i);
    s
}

/// The pieces joined with `sep` between two of them.
pub open spec fn spec_join(pieces: Seq<Seq<char>>, sep: Seq<char>) -> Seq<char>
    decreases pieces.len(),
{
    if pieces.len() == 0 {
        seq![]
    } else if pieces.len() == 1 {
        pieces[0]
    } else {
        spec_join(pieces.drop_last(), sep) + sep + pieces.last()
    }
}

/// The pieces joined with `sep` between two of them (`[String]::join`).
pub fn join_str(pieces: &Vec<String>, sep: &str) -> (r: String)
    ensures
        r@ == spec_join(views(pieces@), sep@),
{
    let mut res = new_string();
    let mut i: usize = 0;
    while i < pieces.len()
        invariant
            0 <= i <= pieces.len(),
            res@ == spec_join(views(pieces@).subrange(0, i as int), sep@),
        decreases pieces.len() - i,
    {
        let ghost before = res@;
        if i > 0 {
            push_str(&mut res, sep);
        }
        push_str(&mut res, pieces[i].as_str());
        let ghost sub = views(pieces@).subrange(0, i as int + 1);
        assert(sub.drop_last() =~= views(pieces@).subrange(0, i as int));
        assert(sub.last() == pieces@[i as int]@);
        if i == 0 {
            assert(res@ =~= sub[0]);
        } else {
            assert(res@ =~= before + sep@ + sub.last());
        }
        i = i + 1;
    }
    assert(views(pieces@).subrange(0, pieces.len() as int) =~= views(pieces@));
    res
}

/// `s` without its last character.
pub fn drop_last_char(s: &str) -> (r: String)
    requires
        s@.len() > 0,
    ensures
        r@ == s@.drop_last(),
{
    let mut cs = chars_of(s);
    cs.pop();
    string_of(&cs)
}

/// Joining a piece in front of a non-empty list.
pub proof fn lemma_join_prepend(a: Seq<char>, rest: Seq<Seq<char>>, d: Seq<char>)
    requires
        rest.len() >= 1,
    ensures
        spec_join(seq![a] + rest, d) == a + d + spec_join(rest, d),
    decreases rest.len(),
{
    let l = seq![a] + rest;
    if rest.len() == 1 {
        assert(l.drop_last() =~= seq![a]);
        assert(spec_join(l, d) == spec_join(l.drop_last(), d) + d + l.last());
    } else {
        lemma_join_prepend(a, rest.drop_last(), d);
        assert(l.drop_last() =~= seq![a] + rest.drop_last());
        assert(spec_join(l, d) == spec_join(l.drop_last(), d) + d + l.last());
        assert(spec_join(rest, d) == spec_join(rest.drop_last(), d) + d + rest.last());
        assert(spec_join(l, d) =~= a + d + spec_join(rest, d));
    }
}

/// The pieces of a split, joined back with the same delimiter, give the
/// text from `start` on.
pub proof fn lemma_join_split_from(s: Seq<char>, d: Seq<char>, start: int)
    requires
        d.len() > 0,
        0 <= start <= s.len(),
    ensures
        split_from(s, d, start).len() >= 1,
        spec_join(split_from(s, d, start), d) == s.subrange(start, s.len() as int),
    decreases s.len() - start,
{
    lemma_find_from_bounds(s, d, start);
    match find_from(s, d, start) {
        Some(i) => {
            lemma_join_split_from(s, d, i + d.len());
            lemma_join_prepend(s.subrange(start, i), split_from(s, d, i + d.len()), d);
            assert(s.subrange(start, i) + d + s.subrange(i + d.len(), s.len() as int) =~= s.subrange(start, s.len() as int));
        },
        None => {},
    }
}

/// `str::split` with any string pattern. An empty pattern matches at every
/// character boundary: an empty piece, each character, an empty piece.
pub open spec fn spec_split_any(s: Seq<char>, d: Seq<char>) -> Seq<Seq<char>> {
    if d.len() == 0 {
        seq![Seq::<char>::empty()] + s.map_values(|c: char| seq![c]) + seq![Seq::<char>::empty()]
    } else {
        spec_split(s, d)
    }
}

/// `str::split` with any string pattern.
pub fn split_any(s: &str, d: &str) -> (r: Vec<String>)
    ensures
        views(r@) == spec_split_any(s@, d@),
{
    if d.unicode_len() > 0 {
        return split_str(s, d);
    }
    let n = s.unicode_len();
    let mut r: Vec<String> = Vec::new();
    r.push(new_string());
    let mut i: usize = 0;
    while i < n
        invariant
            0 <= i <= n,
            n == s@.len(),
            views(r@) == seq![Seq::<char>::empty()] + s@.take(i as int).map_values(|c: char| seq![c]),
        decreases n - i,
    {
        let mut piece = new_string();
        push_char(&mut piece, s.get_char(i));
        let ghost old_r = r@;
        r.push(piece);
        assert(views(r@) == views(old_r).push(seq![s@[i as int]]));
        assert(s@.take(i + 1).map_values(|c: char| seq![c]) =~= s@.take(i as int).map_values(|c: char| seq![c]).push(seq![s@[i as int]]));
        i = i + 1;
    }
    let ghost old_r = r@;
    r.push(new_string());
    assert(views(r@) == views(old_r).push(Seq::<char>::empty()));
    assert(s@.take(n as int) =~= s@);
    r
}

/// An occurrence of `d` at `j` means one is found from `from` (at most `j`)
/// on: none starts between `from` and the first one found.
proof fn lemma_find_from_first(s: Seq<char>, d: Seq<char>, from: int, j: int)
    requires
        0 <= from <= j,
        j + d.len() <= s.len(),
        s.subrange(j, j + d.len()) == d,
    ensures
        find_from(s, d, from) matches Some(i) && i <= j,
    decreases j - from,
{
    if s.subrange(from, from + d.len()) == d {
    } else {
        lemma_find_from_first(s, d, from + 1, j);
    }
}

/// A piece of a split from `start` holds no occurrence of the non-empty `d`.
proof fn lemma_split_from_pieces(s: Seq<char>, d: Seq<char>, start: int)
    requires
        d.len() > 0,
        0 <= start <= s.len(),
    ensures
        forall|k: int| 0 <= k < split_from(s, d, start).len() ==> !occurs(#[trigger] split_from(s, d, start)[k], d),
    decreases s.len() - start,
{
    lemma_find_from_bounds(s, d, start);
    let pieces = split_from(s, d, start);
    let first_end = match find_from(s, d, start) {
        Some(i) => i,
        None => s.len() as int,
    };
    let p = s.subrange(start, first_end);
    assert(!occurs(p, d)) by {
        if occurs(p, d) {
            let q = find_from(p, d, 0)->0;
            lemma_find_from_bounds(p, d, 0);
            assert(s.subrange(start + q, start + q + d.len()) =~= p.subrange(q, q + d.len()));
            lemma_find_from_first(s, d, start, start + q);
        }
    }
    match find_from(s, d, start) {
        Some(i) => {
            lemma_split_from_pieces(s, d, i + d.len());
            assert forall|k: int| 0 <= k < pieces.len() implies !occurs(#[trigger] pieces[k], d) by {
                if k > 0 {
                    assert(pieces[k] == split_from(s, d, i + d.len())[k - 1]);
                }
            }
        },
        None => {},
    }
}

/// No piece of a split holds the non-empty pattern it was cut at.
pub proof fn lemma_split_pieces_lack_pattern(s: Seq<char>, d: Seq<char>)
    requires
        d.len() > 0,
    ensures
        forall|k: int| 0 <= k < spec_split_any(s, d).len() ==> !occurs(#[trigger] spec_split_any(s, d)[k], d),
{
    lemma_split_from_pieces(s, d, 0);
}

/// Joining the pieces of a split with the pattern gives back the text; a
/// split gives at least one piece.
pub proof fn lemma_split_join(s: Seq<char>, d: Seq<char>)
    ensures
        spec_split_any(s, d).len() >= 1,
        spec_join(spec_split_any(s, d), d) == s,
{
    if d.len() > 0 {
        lemma_join_split_from(s, d, 0);
        assert(s.subrange(0, s.len() as int) =~= s);
    } else {
        let e = Seq::<char>::empty();
        let ones = |c: char| seq![c];
        assert(d =~= e);
        lemma_join_chars(s, s.len() as int);
        let p = seq![e] + s.map_values(ones) + seq![e];
        assert(s.take(s.len() as int) =~= s);
        assert(p.drop_last() =~= seq![e] + s.take(s.len() as int).map_values(ones));
        assert(spec_join(p, d) == spec_join(p.drop_last(), d) + d + p.last());
        assert(s + d + e =~= s);
    }
}

/// Joining an empty piece and the first `k` characters, each a piece, with
/// nothing between them gives the first `k` characters.
proof fn lemma_join_chars(s: Seq<char>, k: int)
    requires
        0 <= k <= s.len(),
    ensures
        spec_join(seq![Seq::<char>::empty()] + s.take(k).map_values(|c: char| seq![c]), Seq::<char>::empty())
            == s.take(k),
    decreases k,
{
    let e = Seq::<char>::empty();
    let p = seq![e] + s.take(k).map_values(|c: char| seq![c]);
    if k == 0 {
        assert(p =~= seq![e]);
        assert(s.take(0) =~= e);
    } else {
        lemma_join_chars(s, k - 1);
        assert(p.drop_last() =~= seq![e] + s.take(k - 1).map_values(|c: char| seq![c]));
        assert(p.last() == seq![s[k - 1]]);
        assert(s.take(k - 1) + e + seq![s[k - 1]] =~= s.take(k));
    }
}

/// `str::replace`: the pieces between the occurrences of `pat`, joined with
/// `rep`.
pub open spec fn spec_replace(s: Seq<char>, pat: Seq<char>, rep: Seq<char>) -> Seq<char> {
    spec_join(spec_split(s, pat), rep)
}

/// `str::replace` with a non-empty pattern.
pub fn replace_str(s: &str, pat: &str, rep: &str) -> (r: String)
    requires
        pat@.len() > 0,
    ensures
        r@ == spec_replace(s@, pat@, rep@),
{
    let pieces = split_str(s, pat);
    join_str(&pieces, rep)
}

/// The total length of the pieces.
pub open spec fn total_len(p: Seq<Seq<char>>) -> int
    decreases p.len(),
{
    if p.len() == 0 {
        0
    } else {
        total_len(p.drop_last()) + p.last().len()
    }
}

/// The length of a join.
pub proof fn lemma_join_len(p: Seq<Seq<char>>, d: Seq<char>)
    requires
        p.len() >= 1,
    ensures
        spec_join(p, d).len() == total_len(p) + (p.len() - 1) * d.len(),
    decreases p.len(),
{
    if p.len() > 1 {
        lemma_join_len(p.drop_last(), d);
        assert(spec_join(p, d) == spec_join(p.drop_last(), d) + d + p.last());
        assert(total_len(p) == total_len(p.drop_last()) + p.last().len());
        assert((p.len() - 1) * d.len() == (p.len() - 2) * d.len() + d.len()) by (nonlinear_arith);
    } else {
        assert(p.drop_last().len() == 0);
        assert(spec_join(p, d) == p[0]);
        assert(total_len(p) == total_len(p.drop_last()) + p.last().len());
        assert(total_len(p.drop_last()) == 0);
    }
}

/// Whether `d` occurs in `s`.
pub open spec fn occurs(s: Seq<char>, d: Seq<char>) -> bool {
    find_from(s, d, 0) is Some
}

/// Whether `d` occurs in `s` (`str::contains`).
pub fn contains_str(s: &str, d: &str) -> (r: bool)
    ensures
        r == occurs(s@, d@),
{
    let sc = chars_of(s);
    let dc = chars_of(d);
    find_chars(&sc, &dc, 0).is_some()
}

/// Replacing an occurring pattern by a shorter text shortens.
pub proof fn lemma_replace_shorter(s: Seq<char>, pat: Seq<char>, rep: Seq<char>)
    requires
        pat.len() > rep.len(),
        occurs(s, pat),
    ensures
        spec_replace(s, pat, rep).len() < s.len(),
{
    lemma_join_split_from(s, pat, 0);
    lemma_find_from_bounds(s, pat, 0);
    let i = find_from(s, pat, 0)->0;
    lemma_join_split_from(s, pat, i + pat.len());
    let p = spec_split(s, pat);
    assert(p.len() >= 2);
    lemma_join_len(p, pat);
    lemma_join_len(p, rep);
    assert(s.subrange(0, s.len() as int) =~= s);
    assert((p.len() - 1) * pat.len() > (p.len() - 1) * rep.len()) by (nonlinear_arith)
        requires p.len() >= 2, pat.len() > rep.len();
}

/// Double spaces reduced, pass after pass, until none is left.
pub open spec fn spec_collapse(s: Seq<char>) -> Seq<char>
    decreases s.len(),
{
    if occurs(s, "  "@) {
        proof {
            reveal_strlit("  ");
            reveal_strlit(" ");
            lemma_replace_shorter(s, "  "@, " "@);
        }
        spec_collapse(spec_replace(s, "  "@, " "@))
    } else {
        s
    }
}

/// Replaces double spaces by single ones until none is left.
pub fn collapse_spaces(s: &str) -> (r: String)
    ensures
        r@ == spec_collapse(s@),
{
    proof {
        reveal_strlit("  ");
        reveal_strlit(" ");
    }
    let mut cur = copy_str(s);
    while contains_str(cur.as_str(), "  ")
        invariant
            spec_collapse(cur@) == spec_collapse(s@),
        decreases cur@.len(),
    {
        proof {
            reveal_strlit("  ");
            reveal_strlit(" ");
            lemma_replace_shorter(cur@, "  "@, " "@);
        }
        cur = replace_str(cur.as_str(), "  ", " ");
    }
    cur
}

/// The first position from `i` on that is not whitespace.
pub open spec fn skip_ws(s: Seq<char>, i: int) -> int
    decreases s.len() - i,
{
    if i < 0 || i >= s.len() {
        i
    } else if is_ws(s[i]) {
        skip_ws(s, i + 1)
    } else {
        i
    }
}

/// The end of `s` before its trailing whitespace, looking at `s[..j]`.
pub open spec fn trim_end_at(s: Seq<char>, j: int) -> int
    decreases j,
{
    if j <= 0 || j > s.len() {
        if j > s.len() { s.len() as int } else { 0 }
    } else if is_ws(s[j - 1]) {
        trim_end_at(s, j - 1)
    } else {
        j
    }
}

/// `str::trim`: `s` without its leading and trailing whitespace.
pub open spec fn spec_trim(s: Seq<char>) -> Seq<char> {
    let a = skip_ws(s, 0);
    let b = trim_end_at(s, s.len() as int);
    if a >= b { seq![] } else { s.subrange(a, b) }
}

/// `str::trim`.
pub fn trim_str(s: &str) -> (r: String)
    ensures
        r@ == spec_trim(s@),
{
    let cs = chars_of(s);
    let n = cs.len();
    let mut a: usize = 0;
    while a < n && is_whitespace(cs[a])
        invariant
            0 <= a <= n,
            n == s@.len(),
            cs@ == s@,
            skip_ws(s@, 0) == skip_ws(s@, a as int),
        decreases n - a,
    {
        a = a + 1;
    }
    let mut b: usize = n;
    while b > 0 && is_whitespace(cs[b - 1])
        invariant
            0 <= b <= n,
            n == s@.len(),
            cs@ == s@,
            trim_end_at(s@, n as int) == trim_end_at(s@, b as int),
        decreases b,
    {
        b = b - 1;
    }
    if a >= b {
        return new_string();
    }
    let mut out: Vec<char> = Vec::new();
    let mut k: usize = a;
    while k < b
        invariant
            a <= k <= b <= n,
            n == s@.len(),
            cs@ == s@,
            out@ == s@.subrange(a as int, k as int),
        decreases b - k,
    {
        out.push(cs[k]);
        assert(s@.subrange(a as int, k + 1) =~= s@.subrange(a as int, k as int).push(s@[k as int]));
        k = k + 1;
    }
    string_of(&out)
}

/// The number of occurrences of `c` in `s`.
pub open spec fn count_of(s: Seq<char>, c: char) -> int
    decreases s.len(),
{
    if s.len() == 0 {
        0
    } else {
        count_of(s.drop_last(), c) + if s.last() == c { 1int } else { 0int }
    }
}

/// The number of occurrences of `c` in `s`.
pub fn count_char(s: &str, c: char) -> (r: usize)
    ensures
        r == count_of(s@, c),
{
    let n = s.unicode_len();
    let mut count: usize = 0;
    let mut i: usize = 0;
    while i < n
        invariant
            0 <= i <= n,
            n == s@.len(),
            count == count_of(s@.subrange(0, i as int), c),
            count <= i,
        decreases n - i,
    {
        assert(s@.subrange(0, i + 1).drop_last() =~= s@.subrange(0, i as int));
        if s.get_char(i) == c {
            count = count + 1;
        }
        i = i + 1;
    }
    assert(s@.subrange(0, n as int) =~= s@);
    count
}

/// A decimal writing is never empty.
pub proof fn lemma_int_digits_nonempty(i: int)
    ensures
        int_digits(i).len() > 0,
{
    if i < 0 {
        assert((seq!['-'] + nat_digits((-i) as nat)).len() > 0);
    } else if i >= 10 {
        assert(nat_digits(i as nat) == nat_digits((i / 10) as nat).push(digit_char((i % 10) as nat)));
    }
}

/// The words of a text are never empty.
pub proof fn lemma_words_from_nonempty(s: Seq<char>, i: int, cur: Seq<char>)
    ensures
        forall|k: int| 0 <= k < words_from(s, i, cur).len() ==> #[trigger] words_from(s, i, cur)[k].len() > 0,
    decreases s.len() - i,
{
    if i < 0 || i >= s.len() {
        assert(words_from(s, i, cur) == (if cur.len() > 0 { seq![cur] } else { Seq::<Seq<char>>::empty() }));
    } else if is_ws(s[i]) {
        lemma_words_from_nonempty(s, i + 1, seq![]);
        let head: Seq<Seq<char>> = if cur.len() > 0 { seq![cur] } else { seq![] };
        let w = words_from(s, i, cur);
        assert(w == head + words_from(s, i + 1, seq![]));
        assert forall|k: int| 0 <= k < w.len() implies #[trigger] w[k].len() > 0 by {
            if k < head.len() {
            } else {
                assert(w[k] == words_from(s, i + 1, seq![])[k - head.len()]);
            }
        }
    } else {
        lemma_words_from_nonempty(s, i + 1, cur.push(s[i]));
        assert(words_from(s, i, cur) == words_from(s, i + 1, cur.push(s[i])));
    }
}

/// An optional index, as an integer.
pub open spec fn opt_int(o: Option<usize>) -> Option<int> {
    match o {
        Some(i) => Some(i as int),
        None => None,
    }
}

} // verus!
