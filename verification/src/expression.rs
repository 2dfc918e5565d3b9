//! The reading of the expressions of the first compiler: the compiler's
//! tables of functions and variables, the cutting of an expression into its
//! elements, and the token each element becomes.
use vstd::prelude::*;
use crate::text::{copy_str, new_string, push_str, push_nat, str_eq, trim_str, spec_trim, nat_digits, chars_of, string_of};
use crate::compiler::tools::tools::{Tools, spec_is_operator, spec_valid_name, extract_end_char, trailing_count};
use crate::hammer::{Function, VariableDefinition, Type};

verus! {

/// The tables of the first compiler that its expressions read: the program
/// compiled and its line, the types, the functions, each name with the stack
/// of the addresses it denotes (the innermost last), and each address with
/// the stack of the variables declared there.
pub struct Hammer {
    pub tools: Tools,
    pub prog_name: String,
    pub line: usize,
    pub type_list: Vec<Type>,
    pub func_list: Vec<(String, Function)>,
    pub defined_var_list: Vec<(String, Vec<u32>)>,
    pub addr_list: Vec<(u32, Vec<VariableDefinition>)>,
    pub stack_index: u32,
    pub jump_vars: Vec<Vec<u32>>,
    pub type_return: Option<Type>,
}

/// The start of each error: the program and the line.
pub open spec fn spec_error_msg(h: Hammer) -> Seq<char> {
    "Error while compiling the file "@ + h.prog_name@ + ". Line "@ + nat_digits(h.line as nat) + ":"@
}

/// A function of that name is known.
pub open spec fn func_known(h: Hammer, name: Seq<char>) -> bool {
    exists|i: int| 0 <= i < h.func_list@.len() && #[trigger] h.func_list@[i].0@ == name
}

/// The state of the cutting of an expression: the elements so far, the call
/// being gathered, whether an operator cannot come next, the minus signs
/// met in a row, the parenthesis depth at which the call began (`-1`: none)
/// and the parenthesis depth.
pub struct CutState {
    pub res: Seq<Seq<char>>,
    pub func_dec: Seq<char>,
    pub cant_be_op: bool,
    pub neg_count: int,
    pub looking: int,
    pub par_count: int,
}

/// Whether a word is a parenthesis.
pub open spec fn is_separator_word(w: Seq<char>) -> bool {
    w == "("@ || w == ")"@
}

/// One more word (not empty) of an expression; `None`: an operator where
/// none can stand.
pub open spec fn cut_step(h: Hammer, st: CutState, w: Seq<char>) -> Option<CutState> {
    let par = st.par_count + (if w == "("@ { 1int } else { 0int }) - (if w == ")"@ { 1int } else { 0int });
    if st.looking == -1 {
        let is_op = spec_is_operator(w);
        if is_op || is_separator_word(w) {
            let neg = if is_op && st.cant_be_op { st.neg_count } else { 0 };
            if is_op {
                if st.cant_be_op {
                    if w == "-"@ {
                        Some(CutState { neg_count: neg + 1, par_count: par, ..st })
                    } else {
                        None
                    }
                } else {
                    Some(CutState { res: st.res.push(w), cant_be_op: true, neg_count: neg, par_count: par, ..st })
                }
            } else {
                Some(CutState { res: st.res.push(w), cant_be_op: false, neg_count: neg, par_count: par, ..st })
            }
        } else if func_known(h, w) {
            Some(CutState { func_dec: w, looking: par, cant_be_op: false, par_count: par, ..st })
        } else if st.neg_count % 2 == 0 {
            Some(CutState { res: st.res.push(w), cant_be_op: false, par_count: par, ..st })
        } else {
            Some(CutState { res: st.res + seq!["-1"@, "*"@, w], cant_be_op: false, par_count: par, ..st })
        }
    } else {
        let f = st.func_dec + w;
        if st.looking == par {
            Some(CutState { res: st.res.push(f), func_dec: seq![], looking: -1, par_count: par, ..st })
        } else {
            Some(CutState { func_dec: f, par_count: par, ..st })
        }
    }
}

/// The state once the first `n` words are read (each trimmed, the empty
/// ones skipped); `None`: an operator stood where none can.
pub open spec fn cut_run(h: Hammer, ws: Seq<Seq<char>>, n: int) -> Option<CutState>
    decreases n,
{
    if n <= 0 {
        Some(CutState { res: seq![], func_dec: seq![], cant_be_op: true, neg_count: 0, looking: -1, par_count: 0 })
    } else {
        match cut_run(h, ws, n - 1) {
            None => None,
            Some(st) => {
                let w = spec_trim(ws[n - 1]);
                if w.len() == 0 {
                    Some(st)
                } else {
                    cut_step(h, st, w)
                }
            },
        }
    }
}

/// The elements of an expression: the operators, parentheses and operands,
/// a call with its arguments as one element, and an operand after an odd
/// run of minus signs as `-1 * operand`; the error when an operator stands
/// where none can or the parentheses do not match.
pub open spec fn spec_tokenize_expression(h: Hammer, ws: Seq<Seq<char>>) -> Result<Seq<Seq<char>>, Seq<char>> {
    match cut_run(h, ws, ws.len() as int) {
        None => Err(spec_error_msg(h) + " There is a bad operator in your expression."@),
        Some(st) => if st.par_count != 0 {
            Err(
                spec_error_msg(h)
                    + " The number of opening brackets is not the same as the number of closing brackets"@,
            )
        } else {
            Ok(st.res)
        },
    }
}

/// Each state met while cutting keeps its counts within the words read.
pub proof fn lemma_cut_run_bounds(h: Hammer, ws: Seq<Seq<char>>, n: int)
    requires
        0 <= n <= ws.len(),
    ensures
        cut_run(h, ws, n) matches Some(st) ==> 0 <= st.neg_count <= n && -n <= st.par_count <= n && -n - 1
            <= st.looking <= n,
    decreases n,
{
    if n > 0 {
        lemma_cut_run_bounds(h, ws, n - 1);
    }
}

/// The views of a list of strings.
pub open spec fn str_views(v: Seq<String>) -> Seq<Seq<char>> {
    v.map_values(|s: String| s@)
}

/// The types the compiler knows from the start: `int`, `char` and `void`.
pub open spec fn base_types() -> Seq<(Seq<char>, i32, u32, u32)> {
    seq![("int"@, 0i32, 4u32, 0u32), ("char"@, 1i32, 1u32, 0u32), ("void"@, 2i32, 0u32, 0u32)]
}

impl Hammer {
    /// The tables at the start of the program `prog_name`: its first line,
    /// the base types, and no function or variable.
    pub fn new(prog_name: String) -> (r: Hammer)
        ensures
            r.prog_name == prog_name,
            r.line == 1,
            r.type_list@.map_values(|t: Type| t@) == base_types(),
            r.func_list@.len() == 0,
            r.defined_var_list@.len() == 0,
            r.addr_list@.len() == 0,
            r.stack_index == 0,
            r.jump_vars@.len() == 1 && r.jump_vars@[0]@.len() == 0,
            r.type_return is None,
    {
        let mut type_list: Vec<Type> = Vec::new();
        type_list.push(Type { name: copy_str("int"), id: 0, size: 4, stars: 0 });
        type_list.push(Type { name: copy_str("char"), id: 1, size: 1, stars: 0 });
        type_list.push(Type { name: copy_str("void"), id: 2, size: 0, stars: 0 });
        let r = Hammer {
            tools: Tools::new(),
            prog_name,
            line: 1,
            type_list,
            func_list: Vec::new(),
            defined_var_list: Vec::new(),
            addr_list: Vec::new(),
            stack_index: 0,
            jump_vars: vec![Vec::new()],
            type_return: None,
        };
        assert(r.type_list@.map_values(|t: Type| t@) =~= base_types());
        r
    }

    /// The start of each error message.
    pub fn error_msg(&self) -> (r: String)
        ensures
            r@ == spec_error_msg(*self),
    {
        let mut r = copy_str("Error while compiling the file ");
        push_str(&mut r, self.prog_name.as_str());
        push_str(&mut r, ". Line ");
        push_nat(&mut r, self.line as u128);
        push_str(&mut r, ":");
        r
    }

    /// Whether a function of that name is known.
    pub fn func_exists(&self, name: &str) -> (r: bool)
        ensures
            r == func_known(*self, name@),
    {
        let mut i: usize = 0;
        while i < self.func_list.len()
            invariant
                0 <= i <= self.func_list@.len(),
                forall|j: int| 0 <= j < i ==> #[trigger] self.func_list@[j].0@ != name@,
            decreases self.func_list.len() - i,
        {
            if str_eq(self.func_list[i].0.as_str(), name) {
                return true;
            }
            i = i + 1;
        }
        false
    }
}

/// Cuts an expression, given as the pieces between its operators and
/// parentheses, into its elements (see `spec_tokenize_expression`).
pub fn tokenize_expression(hammer: &Hammer, exp: Vec<String>) -> (r: Result<Vec<String>, String>)
    requires
        exp@.len() < i32::MAX,
    ensures
        match (r, spec_tokenize_expression(*hammer, str_views(exp@))) {
            (Ok(v), Ok(s)) => str_views(v@) == s,
            (Err(e), Err(s)) => e@ == s,
            _ => false,
        },
{
    let ghost ws = str_views(exp@);
    let mut exp_res: Vec<String> = Vec::new();
    let mut func_dec = new_string();
    let mut cant_be_op = true;
    let mut neg_count: u32 = 0;
    let mut looking_for_function: i32 = -1;
    let mut par_count: i32 = 0;
    let n = exp.len();
    let mut i: usize = 0;
    assert(str_views(exp_res@) =~= Seq::<Seq<char>>::empty());
    while i < n
        invariant
            0 <= i <= n,
            n == exp@.len(),
            n < i32::MAX,
            ws == str_views(exp@),
            cut_run(*hammer, ws, i as int) == Some(
                CutState {
                    res: str_views(exp_res@),
                    func_dec: func_dec@,
                    cant_be_op,
                    neg_count: neg_count as int,
                    looking: looking_for_function as int,
                    par_count: par_count as int,
                },
            ),
        decreases n - i,
    {
        proof {
            lemma_cut_run_bounds(*hammer, ws, i as int);
        }
        let word = trim_str(exp[i].as_str());
        assert(ws[i as int] == exp@[i as int]@);
        if word.as_str().unicode_len() != 0 {
            let open = str_eq(word.as_str(), "(");
            let close = str_eq(word.as_str(), ")");
            if open {
                par_count = par_count + 1;
            }
            if close {
                par_count = par_count - 1;
            }
            if looking_for_function == -1 {
                let is_op = hammer.tools.is_operator(word.as_str());
                if is_op || open || close {
                    if !(is_op && cant_be_op) {
                        neg_count = 0;
                    }
                    if is_op {
                        if cant_be_op {
                            if str_eq(word.as_str(), "-") {
                                neg_count = neg_count + 1;
                            } else {
                                let mut e = hammer.error_msg();
                                push_str(&mut e, " There is a bad operator in your expression.");
                                assert(cut_run(*hammer, ws, n as int) is None) by {
                                    lemma_cut_none_stays(*hammer, ws, i as int + 1, n as int);
                                }
                                return Err(e);
                            }
                        } else {
                            let ghost old_res = exp_res@;
                            exp_res.push(word);
                            assert(str_views(exp_res@) == str_views(old_res).push(word@));
                            cant_be_op = true;
                        }
                    } else {
                        let ghost old_res = exp_res@;
                        exp_res.push(word);
                        assert(str_views(exp_res@) == str_views(old_res).push(word@));
                        cant_be_op = false;
                    }
                } else {
                    if hammer.func_exists(word.as_str()) {
                        func_dec = word;
                        looking_for_function = par_count;
                    } else {
                        let ghost old_res = exp_res@;
                        if neg_count % 2 == 0 {
                            exp_res.push(word);
                            assert(str_views(exp_res@) == str_views(old_res).push(word@));
                        } else {
                            let ghost w = word@;
                            exp_res.push(copy_str("-1"));
                            exp_res.push(copy_str("*"));
                            exp_res.push(word);
                            assert(str_views(exp_res@) =~= str_views(old_res) + seq!["-1"@, "*"@, w]);
                        }
                    }
                    cant_be_op = false;
                }
            } else {
                push_str(&mut func_dec, word.as_str());
                if looking_for_function == par_count {
                    let ghost old_res = exp_res@;
                    let f = func_dec;
                    exp_res.push(f);
                    assert(str_views(exp_res@) == str_views(old_res).push(f@));
                    func_dec = new_string();
                    looking_for_function = -1;
                }
            }
        }
        i = i + 1;
    }
    assert(ws.len() == n);
    if par_count != 0 {
        let mut e = hammer.error_msg();
        push_str(&mut e, " The number of opening brackets is not the same as the number of closing brackets");
        return Err(e);
    }
    Ok(exp_res)
}


/// The reading of the marks in front of a variable, from the count `count`:
/// each `$` dereferences once more, each `&` once less. The count reached,
/// the text left, and whether the count reached `-2` (the address of an
/// address), where the reading stops before that mark.
pub open spec fn spec_prof(s: Seq<char>, count: int) -> (int, Seq<char>, bool)
    decreases s.len(),
{
    if s.len() > 0 && (s[0] == '$' || s[0] == '&') {
        let c = count + if s[0] == '$' { 1int } else { -1int };
        if c == -2 {
            (c, s, true)
        } else {
            spec_prof(s.drop_first(), c)
        }
    } else {
        (count, s, false)
    }
}

/// Reads the `$` (dereference) and `&` (reference) marks in front of a
/// variable and takes them off: the times it is dereferenced (`-1`: its
/// address). The address of an address is an error, and so is an address
/// where `can_be_ref` is false.
pub fn get_prof_pointer(hammer: &Hammer, var: &mut String, can_be_ref: bool) -> (r: Result<i32, String>)
    requires
        old(var)@.len() < i32::MAX,
    ensures
        ({
            let (c, rest, bad) = spec_prof(old(var)@, 0);
            &&& final(var)@ == rest
            &&& if bad {
                r matches Err(e) && e@ == spec_error_msg(*hammer) + " You tried to get the adress of a direct value."@
            } else if c == -1 && !can_be_ref {
                r matches Err(e) && e@ == spec_error_msg(*hammer) + " You can't put a reference here."@
            } else {
                r == Ok::<i32, String>(c as i32)
            }
        }),
{
    let cs = chars_of(var.as_str());
    let n = cs.len();
    let mut count: i32 = 0;
    let mut i: usize = 0;
    assert(cs@.skip(0) =~= cs@);
    while i < n && (cs[i] == '$' || cs[i] == '&')
        invariant
            0 <= i <= n,
            n == cs@.len(),
            cs@ == old(var)@,
            n < i32::MAX,
            -1 <= count <= i,
            spec_prof(cs@.skip(i as int), count as int) == spec_prof(cs@, 0),
        decreases n - i,
    {
        assert(cs@.skip(i as int)[0] == cs@[i as int]);
        assert(cs@.skip(i as int).drop_first() =~= cs@.skip(i + 1));
        if cs[i] == '$' {
            count = count + 1;
        } else {
            count = count - 1;
        }
        if count == -2 {
            let mut e = hammer.error_msg();
            push_str(&mut e, " You tried to get the adress of a direct value.");
            let mut rest: Vec<char> = Vec::new();
            let mut j: usize = i;
            while j < n
                invariant
                    i <= j <= n,
                    n == cs@.len(),
                    rest@ == cs@.subrange(i as int, j as int),
                decreases n - j,
            {
                rest.push(cs[j]);
                assert(cs@.subrange(i as int, j + 1) =~= cs@.subrange(i as int, j as int).push(cs@[j as int]));
                j = j + 1;
            }
            assert(cs@.subrange(i as int, n as int) =~= cs@.skip(i as int));
            *var = string_of(&rest);
            return Err(e);
        }
        i = i + 1;
    }
    assert(!(cs@.skip(i as int).len() > 0 && (cs@.skip(i as int)[0] == '$' || cs@.skip(i as int)[0] == '&'))) by {
        if i < n {
            assert(cs@.skip(i as int)[0] == cs@[i as int]);
        }
    }
    let mut rest: Vec<char> = Vec::new();
    let mut j: usize = i;
    while j < n
        invariant
            i <= j <= n,
            n == cs@.len(),
            rest@ == cs@.subrange(i as int, j as int),
        decreases n - j,
    {
        rest.push(cs[j]);
        assert(cs@.subrange(i as int, j + 1) =~= cs@.subrange(i as int, j as int).push(cs@[j as int]));
        j = j + 1;
    }
    assert(cs@.subrange(i as int, n as int) =~= cs@.skip(i as int));
    *var = string_of(&rest);
    if count == -1 && !can_be_ref {
        let mut e = hammer.error_msg();
        push_str(&mut e, " You can't put a reference here.");
        return Err(e);
    }
    Ok(count)
}

/// Where the first type of that name stands.
pub open spec fn type_index(types: Seq<Type>, name: Seq<char>, i: int) -> Option<int>
    decreases types.len() - i,
{
    if i < 0 || i >= types.len() {
        None
    } else if types[i].name@ == name {
        Some(i)
    } else {
        type_index(types, name, i + 1)
    }
}

/// The type a name with stars denotes: the stars that end it are taken off
/// and counted; the type of the name left, with those stars, or the error
/// when no type has that name.
pub open spec fn spec_type_exists(h: Hammer, name: Seq<char>) -> Result<(Seq<char>, i32, u32, u32), Seq<char>> {
    let stars = trailing_count(name, '*');
    let base = name.subrange(0, name.len() - stars);
    match type_index(h.type_list@, base, 0) {
        Some(i) => {
            let t = h.type_list@[i];
            Ok((t.name@, t.id, t.size, stars as u32))
        },
        None => Err(nat_digits(h.line as nat) + " The type "@ + base + " not exists."@),
    }
}

impl Hammer {
    /// The type named by `name` (a type name followed by stars), whose stars
    /// are taken off `name`.
    pub fn type_exists(&self, name: &mut String) -> (r: Result<Type, String>)
        requires
            trailing_count(old(name)@, '*') <= u32::MAX,
        ensures
            final(name)@ == old(name)@.subrange(0, old(name)@.len() - trailing_count(old(name)@, '*')),
            match spec_type_exists(*self, old(name)@) {
                Ok(t) => r matches Ok(x) && x@ == t,
                Err(e) => r matches Err(x) && x@ == e,
            },
    {
        let nb_stars = extract_end_char(name, '*');
        let mut i: usize = 0;
        while i < self.type_list.len()
            invariant
                0 <= i <= self.type_list@.len(),
                name@ == old(name)@.subrange(0, old(name)@.len() - trailing_count(old(name)@, '*')),
                nb_stars == trailing_count(old(name)@, '*'),
                type_index(self.type_list@, name@, 0) == type_index(self.type_list@, name@, i as int),
            decreases self.type_list.len() - i,
        {
            if str_eq(self.type_list[i].name.as_str(), name.as_str()) {
                let t = &self.type_list[i];
                return Ok(Type { name: copy_str(t.name.as_str()), id: t.id, size: t.size, stars: nb_stars });
            }
            i = i + 1;
        }
        let mut e = new_string();
        push_nat(&mut e, self.line as u128);
        push_str(&mut e, " The type ");
        push_str(&mut e, name.as_str());
        push_str(&mut e, " not exists.");
        Err(e)
    }

    /// Whether a name can be given: it does not start with `_` (kept for the
    /// compiler's own names) and its characters are letters, digits, `-` or
    /// `_`.
    pub fn is_valid_name(&self, name: &str) -> (r: Result<(), String>)
        ensures
            if name@.len() > 0 && name@[0] == '_' {
                r matches Err(e) && e@ == "A name can't start with '_' it's a vulcain private use."@
            } else if !spec_valid_name(name@) {
                r matches Err(e) && e@ == name@ + " is not a valid name for a variable."@
            } else {
                r is Ok
            },
    {
        if name.unicode_len() > 0 && name.get_char(0) == '_' {
            return Err(copy_str("A name can't start with '_' it's a vulcain private use."));
        }
        if !self.tools.is_valid_name(name) {
            let mut e = copy_str(name);
            push_str(&mut e, " is not a valid name for a variable.");
            return Err(e);
        }
        Ok(())
    }
}

/// The functions as values: each name with its function.
pub open spec fn funcs_view(h: Hammer) -> Seq<(Seq<char>, (Seq<(Seq<char>, (Seq<char>, i32, u32, u32))>, (Seq<char>, i32, u32, u32)))> {
    h.func_list@.map_values(|p: (String, Function)| (p.0@, p.1@))
}

/// The names as values: each with the stack of its addresses.
pub open spec fn names_view(h: Hammer) -> Seq<(Seq<char>, Seq<u32>)> {
    h.defined_var_list@.map_values(|p: (String, Vec<u32>)| (p.0@, p.1@))
}

/// The addresses as values: each with the stack of its variables.
pub open spec fn addrs_view(h: Hammer) -> Seq<(u32, Seq<(Seq<char>, (Seq<char>, i32, u32, u32))>)> {
    h.addr_list@.map_values(|p: (u32, Vec<VariableDefinition>)| (p.0, p.1@.map_values(|d: VariableDefinition| d@)))
}

/// Where the first entry of the key stands.
pub open spec fn key_index<K, V>(e: Seq<(K, V)>, k: K, i: int) -> Option<int>
    decreases e.len() - i,
{
    if i < 0 || i >= e.len() {
        None
    } else if e[i].0 == k {
        Some(i)
    } else {
        key_index(e, k, i + 1)
    }
}

/// Pushes a value on the stack of a key, adding the key if it is new.
pub open spec fn push_at<K, V>(e: Seq<(K, Seq<V>)>, k: K, v: V) -> Seq<(K, Seq<V>)> {
    match key_index(e, k, 0) {
        Some(i) => e.update(i, (k, e[i].1.push(v))),
        None => e.push((k, seq![v])),
    }
}

/// The first place from `i` that holds the key lies in the list and holds it.
proof fn lemma_key_index<K, V>(e: Seq<(K, V)>, k: K, i: int)
    ensures
        key_index(e, k, i) matches Some(j) ==> i <= j < e.len() && e[j].0 == k,
    decreases e.len() - i,
{
    if 0 <= i < e.len() && e[i].0 != k {
        lemma_key_index(e, k, i + 1);
    }
}

impl Hammer {
    /// Declares a function of the program; its return type becomes the one
    /// the program's `return` awaits. A function of that name already known
    /// is an error, and nothing changes.
    pub fn define_new_function(&mut self, name: String, args: Vec<VariableDefinition>, return_type: Type) -> (r: Result<(), String>)
        ensures
            if func_known(*old(self), name@) {
                &&& r matches Err(e) && e@ == nat_digits(old(self).line as nat) + " The function "@ + name@
                    + " already exists"@
                &&& *final(self) == *old(self)
            } else {
                &&& r is Ok
                &&& funcs_view(*final(self)) == funcs_view(*old(self)).push(
                    (name@, (args@.map_values(|a: VariableDefinition| a@), return_type@)),
                )
                &&& final(self).type_return matches Some(t) && t@ == return_type@
                &&& final(self).func_list@.len() == old(self).func_list@.len() + 1
                &&& final(self).defined_var_list == old(self).defined_var_list
                &&& final(self).addr_list == old(self).addr_list
                &&& final(self).type_list == old(self).type_list
                &&& final(self).stack_index == old(self).stack_index
                &&& final(self).jump_vars == old(self).jump_vars
                &&& final(self).line == old(self).line
                &&& final(self).prog_name == old(self).prog_name
            },
    {
        if self.func_exists(name.as_str()) {
            let mut e = new_string();
            push_nat(&mut e, self.line as u128);
            push_str(&mut e, " The function ");
            push_str(&mut e, name.as_str());
            push_str(&mut e, " already exists");
            return Err(e);
        }
        self.type_return = Some(return_type.clone());
        let ghost before = funcs_view(*self);
        self.func_list.push((name, Function { args, return_type }));
        assert(funcs_view(*self) =~= before.push((name@, (args@.map_values(|a: VariableDefinition| a@), return_type@))));
        Ok(())
    }

    /// Whether a variable of that name is declared.
    pub fn var_exists(&self, name: &str) -> (r: bool)
        ensures
            r == (key_index(names_view(*self), name@, 0) is Some),
    {
        let ghost nv = names_view(*self);
        let mut i: usize = 0;
        while i < self.defined_var_list.len()
            invariant
                0 <= i <= self.defined_var_list@.len(),
                nv == names_view(*self),
                key_index(nv, name@, 0) == key_index(nv, name@, i as int),
            decreases self.defined_var_list.len() - i,
        {
            assert(nv[i as int].0 == self.defined_var_list@[i as int].0@);
            if str_eq(self.defined_var_list[i].0.as_str(), name) {
                return true;
            }
            i = i + 1;
        }
        false
    }

    /// Where the first entry of the address stands.
    fn find_addr(&self, addr: u32) -> (r: Option<usize>)
        ensures
            crate::text::opt_int(r) == key_index(addrs_view(*self), addr, 0),
    {
        let ghost av = addrs_view(*self);
        let mut i: usize = 0;
        while i < self.addr_list.len()
            invariant
                0 <= i <= self.addr_list@.len(),
                av == addrs_view(*self),
                key_index(av, addr, 0) == key_index(av, addr, i as int),
            decreases self.addr_list.len() - i,
        {
            if self.addr_list[i].0 == addr {
                return Some(i);
            }
            i = i + 1;
        }
        None
    }

    /// Where the first entry of the name stands.
    fn find_name(&self, name: &str) -> (r: Option<usize>)
        ensures
            crate::text::opt_int(r) == key_index(names_view(*self), name@, 0),
    {
        let ghost nv = names_view(*self);
        let mut i: usize = 0;
        while i < self.defined_var_list.len()
            invariant
                0 <= i <= self.defined_var_list@.len(),
                nv == names_view(*self),
                key_index(nv, name@, 0) == key_index(nv, name@, i as int),
            decreases self.defined_var_list.len() - i,
        {
            assert(nv[i as int].0 == self.defined_var_list@[i as int].0@);
            if str_eq(self.defined_var_list[i].0.as_str(), name) {
                return Some(i);
            }
            i = i + 1;
        }
        None
    }

    /// The innermost address of a declared variable.
    pub fn get_addr(&self, name: &str) -> (r: u32)
        requires
            key_index(names_view(*self), name@, 0) matches Some(i) && names_view(*self)[i].1.len() > 0,
        ensures
            r == names_view(*self)[key_index(names_view(*self), name@, 0)->0].1.last(),
    {
        proof {
            lemma_key_index(names_view(*self), name@, 0);
        }
        let i = self.find_name(name).unwrap();
        let st = &self.defined_var_list[i].1;
        st[st.len() - 1]
    }

    /// The innermost variable of that name.
    pub fn get_var_def_by_name(&self, name: &str) -> (r: &VariableDefinition)
        requires
            key_index(names_view(*self), name@, 0) matches Some(i) && names_view(*self)[i].1.len() > 0 && (key_index(
                addrs_view(*self),
                names_view(*self)[i].1.last(),
                0,
            ) matches Some(j) && addrs_view(*self)[j].1.len() > 0),
        ensures
            ({
                let a = names_view(*self)[key_index(names_view(*self), name@, 0)->0].1.last();
                r@ == addrs_view(*self)[key_index(addrs_view(*self), a, 0)->0].1.last()
            }),
    {
        let a = self.get_addr(name);
        proof {
            lemma_key_index(addrs_view(*self), a, 0);
        }
        let j = self.find_addr(a).unwrap();
        let st = &self.addr_list[j].1;
        assert(addrs_view(*self)[j as int].1 == st@.map_values(|d: VariableDefinition| d@));
        &st[st.len() - 1]
    }

    /// Declares a variable of that name and type in the innermost block: it
    /// takes the next free address, which moves by the size of the type, on
    /// top of the address's stack and of the name's stack.
    pub fn define_new_var(&mut self, name: String, type_var: Type)
        requires
            old(self).jump_vars@.len() > 0,
            old(self).stack_index + type_var.size <= u32::MAX,
        ensures
            final(self).stack_index == old(self).stack_index + type_var.size,
            addrs_view(*final(self)) == push_at(addrs_view(*old(self)), old(self).stack_index, (name@, type_var@)),
            names_view(*final(self)) == push_at(names_view(*old(self)), name@, old(self).stack_index),
            final(self).jump_vars@.len() == old(self).jump_vars@.len(),
            final(self).jump_vars@.last()@ == old(self).jump_vars@.last()@.push(old(self).stack_index),
            forall|j: int| 0 <= j < old(self).jump_vars@.len() - 1 ==> #[trigger] final(self).jump_vars@[j] == old(self).jump_vars@[j],
            final(self).func_list == old(self).func_list,
            final(self).type_list == old(self).type_list,
            final(self).type_return == old(self).type_return,
            final(self).line == old(self).line,
            final(self).prog_name == old(self).prog_name,
    {
        let addr = self.stack_index;
        self.stack_index = self.stack_index + type_var.size;
        let ghost av = addrs_view(*self);
        let def = VariableDefinition { name: copy_str(name.as_str()), type_var };
        let ghost dv = def@;
        proof {
            lemma_key_index(av, addr, 0);
        }
        let fi = self.find_addr(addr);
        if let Some(i) = fi {
            assert(key_index(av, addr, 0) == Some(i as int));
            assert(av[i as int].0 == addr);
            let ghost old_list = self.addr_list@;
            let ghost old_stack = self.addr_list@[i as int].1@;
            self.addr_list[i].1.push(def);
            assert(addrs_view(*self) =~= av.update(i as int, (addr, av[i as int].1.push(dv)))) by {
                assert(self.addr_list@[i as int].1@ == old_stack.push(def));
                assert(self.addr_list@[i as int].0 == addr);
                assert(old_stack.push(def).map_values(|d: VariableDefinition| d@) =~= old_stack.map_values(
                    |d: VariableDefinition| d@,
                ).push(dv));
                assert forall|j: int| 0 <= j < old_list.len() && j != i implies #[trigger] self.addr_list@[j] == old_list[j] by {}
            }
        } else {
            let mut st: Vec<VariableDefinition> = Vec::new();
            st.push(def);
            self.addr_list.push((addr, st));
            assert(addrs_view(*self) =~= av.push((addr, seq![dv]))) by {
                assert(st@.map_values(|d: VariableDefinition| d@) =~= seq![dv]);
            }
        }
        let last = self.jump_vars.len() - 1;
        let ghost old_jumps = self.jump_vars@;
        self.jump_vars[last].push(addr);
        let ghost nv = names_view(*self);
        proof {
            lemma_key_index(nv, name@, 0);
        }
        let fk = self.find_name(name.as_str());
        if let Some(k) = fk {
            assert(key_index(nv, name@, 0) == Some(k as int));
            assert(nv[k as int].0 == name@);
            let ghost old_list = self.defined_var_list@;
            self.defined_var_list[k].1.push(addr);
            assert(names_view(*self) =~= nv.update(k as int, (name@, nv[k as int].1.push(addr)))) by {
                assert(nv[k as int].0 == name@);
                assert(self.defined_var_list@[k as int].0 == old_list[k as int].0);
                assert forall|j: int| 0 <= j < old_list.len() && j != k implies #[trigger] self.defined_var_list@[j] == old_list[j] by {}
            }
        } else {
            let mut st: Vec<u32> = Vec::new();
            st.push(addr);
            self.defined_var_list.push((name, st));
            assert(names_view(*self) =~= nv.push((name@, seq![addr])));
        }
    }
}

/// A keyword that takes nothing after it: an error when the rest of the line
/// holds more than spaces.
pub fn no_txt_after_keyword(hammer: &Hammer, rest_of_line: &str, keyword: &str) -> (r: Result<(), String>)
    ensures
        if spec_trim(rest_of_line@).len() != 0 {
            r matches Err(e) && e@ == spec_error_msg(*hammer) + " we found text after the "@ + keyword@ + " keyword: "@
                + rest_of_line@
        } else {
            r is Ok
        },
{
    let t = trim_str(rest_of_line);
    if t.as_str().unicode_len() != 0 {
        let mut e = hammer.error_msg();
        push_str(&mut e, " we found text after the ");
        push_str(&mut e, keyword);
        push_str(&mut e, " keyword: ");
        push_str(&mut e, rest_of_line);
        return Err(e);
    }
    Ok(())
}

/// Once an operator stood where none can, the cutting stays failed.
pub proof fn lemma_cut_none_stays(h: Hammer, ws: Seq<Seq<char>>, m: int, n: int)
    requires
        0 <= m <= n,
        cut_run(h, ws, m) is None,
    ensures
        cut_run(h, ws, n) is None,
    decreases n - m,
{
    if m < n {
        lemma_cut_none_stays(h, ws, m, n - 1);
    }
}

} // verus!
