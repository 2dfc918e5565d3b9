//! The memory of the second compiler: the variables on the stack, each name
//! with the stack of the addresses it denotes (the innermost last), the
//! functions, and the blocks entered, each with the variables declared in it,
//! which go when the block is left.
use vstd::prelude::*;
use crate::text::{str_eq, copy_str, new_string, push_str, push_nat, push_int, nat_digits, int_digits};
use crate::compiler::hammer::definitions::{
    Type, VariableDefinition, asm_size, rax_size, spec_asm_size, spec_rax_size,
};
use crate::compiler::hammer::prog_manager::definitions::Jump;

verus! {

/// The file of the script.
pub const SCRIPTF: usize = 0;

/// The file of the functions.
pub const FUNCTIONSF: usize = 2;

/// A function the memory knows: its name, the types of its arguments, its
/// return type and where it is kept.
pub struct Function {
    pub name: String,
    pub args: Vec<Type>,
    pub return_type: Type,
    pub addr: usize,
}

/// A variable by its name, the name of its type, its size and its stars.
pub type VarView = (Seq<char>, Seq<char>, u8, i32);

/// A type by its name, size and stars.
pub type TypeView = (Seq<char>, u8, i32);

/// A function by where it is kept and the types of its arguments.
pub type FuncView = (usize, Seq<TypeView>);

/// The view of a type.
pub open spec fn type_view(t: Type) -> TypeView {
    (t.name@, t.size, t.stars)
}

/// The view of a variable.
pub open spec fn var_view(d: VariableDefinition) -> VarView {
    (d.name@, d.type_var.name@, d.type_var.size, d.type_var.stars)
}

/// The view of a function.
pub open spec fn func_view(f: Function) -> FuncView {
    (f.addr, f.args@.map_values(|t: Type| type_view(t)))
}

/// The memory as values: each name with its stack of addresses, each
/// address with its variable, each function name with its stack of
/// functions, the blocks entered (the stack index to go back to and the
/// addresses declared), and the next free address.
pub struct MemView {
    pub names: Seq<(Seq<char>, Seq<usize>)>,
    pub vars: Seq<(usize, VarView)>,
    pub funcs: Seq<(Seq<char>, Seq<FuncView>)>,
    pub jumps: Seq<(usize, Seq<usize>)>,
    pub si: int,
}

/// Where the name stands in the list, if it does.
pub open spec fn name_index<V>(e: Seq<(Seq<char>, V)>, k: Seq<char>) -> Option<int>
    decreases e.len(),
{
    if e.len() == 0 {
        None
    } else if e.last().0 == k {
        Some(e.len() - 1)
    } else {
        name_index(e.drop_last(), k)
    }
}

/// Where the address stands in the list, if it does.
pub open spec fn addr_index(e: Seq<(usize, VarView)>, a: usize) -> Option<int>
    decreases e.len(),
{
    if e.len() == 0 {
        None
    } else if e.last().0 == a {
        Some(e.len() - 1)
    } else {
        addr_index(e.drop_last(), a)
    }
}

/// The addresses a name denotes, the innermost last (none: empty).
pub open spec fn name_stack(names: Seq<(Seq<char>, Seq<usize>)>, k: Seq<char>) -> Seq<usize> {
    match name_index(names, k) {
        Some(i) => names[i].1,
        None => seq![],
    }
}

/// The variable at an address.
pub open spec fn var_at(vars: Seq<(usize, VarView)>, a: usize) -> Option<VarView> {
    match addr_index(vars, a) {
        Some(i) => Some(vars[i].1),
        None => None,
    }
}

/// No name stands twice.
pub open spec fn names_distinct<V>(e: Seq<(Seq<char>, V)>) -> bool {
    forall|i: int, j: int| 0 <= i < j < e.len() ==> #[trigger] e[i].0 != #[trigger] e[j].0
}

/// No address stands twice.
pub open spec fn addrs_distinct(e: Seq<(usize, VarView)>) -> bool {
    forall|i: int, j: int| 0 <= i < j < e.len() ==> #[trigger] e[i].0 != #[trigger] e[j].0
}

/// The sizes of the types the memory knows.
pub open spec fn type_size_of(name: Seq<char>) -> Option<u8> {
    if name == "int"@ {
        Some(4)
    } else if name == "char"@ {
        Some(1)
    } else if name == "void"@ {
        Some(0)
    } else {
        None
    }
}

/// Sets the variable at an address (replacing the one there).
pub open spec fn set_var(vars: Seq<(usize, VarView)>, a: usize, v: VarView) -> Seq<(usize, VarView)> {
    match addr_index(vars, a) {
        Some(i) => vars.update(i, (a, v)),
        None => vars.push((a, v)),
    }
}

/// Pushes an address on the stack of a name.
pub open spec fn push_name(names: Seq<(Seq<char>, Seq<usize>)>, k: Seq<char>, a: usize) -> Seq<(Seq<char>, Seq<usize>)> {
    match name_index(names, k) {
        Some(i) => names.update(i, (k, names[i].1.push(a))),
        None => names.push((k, seq![a])),
    }
}

/// A variable declared: at the next free address, on top of its name's
/// stack, recorded in the innermost block; the next free address moves by
/// the size of its type.
pub open spec fn mv_new_var(m: MemView, tname: Seq<char>, name: Seq<char>, stars: i32) -> MemView {
    let size = type_size_of(tname)->0;
    let a = m.si as usize;
    let j = m.jumps.last();
    MemView {
        names: push_name(m.names, name, a),
        vars: set_var(m.vars, a, (name, tname, size, stars)),
        funcs: m.funcs,
        jumps: m.jumps.update(m.jumps.len() - 1, (j.0, j.1.push(a))),
        si: m.si + size,
    }
}

/// A block entered at the next free address.
pub open spec fn mv_jump_in(m: MemView) -> MemView {
    MemView { jumps: m.jumps.push((m.si as usize, seq![])), ..m }
}

/// The variables at the addresses from the `k`-th on go, each from its
/// address and from the top of its name's stack; none where an address
/// holds no variable or a name's stack is empty.
pub open spec fn remove_vars(
    names: Seq<(Seq<char>, Seq<usize>)>,
    vars: Seq<(usize, VarView)>,
    addrs: Seq<usize>,
    k: int,
) -> Option<(Seq<(Seq<char>, Seq<usize>)>, Seq<(usize, VarView)>)>
    decreases addrs.len() - k,
{
    if k < 0 || k >= addrs.len() {
        Some((names, vars))
    } else {
        match addr_index(vars, addrs[k]) {
            None => None,
            Some(i) => {
                let n = vars[i].1.0;
                match name_index(names, n) {
                    None => None,
                    Some(p) => if names[p].1.len() == 0 {
                        None
                    } else {
                        remove_vars(names.update(p, (n, names[p].1.drop_last())), vars.remove(i), addrs, k + 1)
                    },
                }
            },
        }
    }
}

/// The innermost block left: its variables go and the next free address
/// goes back to where the block began; none where that fails.
pub open spec fn mv_jump_out(m: MemView) -> Option<MemView> {
    if m.jumps.len() == 0 {
        None
    } else {
        let j = m.jumps.last();
        match remove_vars(m.names, m.vars, j.1, 0) {
            None => None,
            Some((names, vars)) => Some(MemView { names, vars, funcs: m.funcs, jumps: m.jumps.drop_last(), si: j.0 as int }),
        }
    }
}

/// The compiler's memory.
pub struct Memory {
    pub var_name_map: Vec<(String, Vec<usize>)>,
    pub var_map: Vec<VariableDefinition>,
    pub func_map: Vec<(String, Vec<Function>)>,
    pub stack_index: usize,
    pub bloc_id: u128,
    pub if_count: u32,
    pub jump_stack: Vec<Jump>,
    pub current_file: usize,
}

impl Memory {
    /// The memory as values.
    pub closed spec fn view(&self) -> MemView {
        MemView {
            names: self.var_name_map@.map_values(|p: (String, Vec<usize>)| (p.0@, p.1@)),
            vars: self.var_map@.map_values(|d: VariableDefinition| (d.addr, var_view(d))),
            funcs: self.func_map@.map_values(|p: (String, Vec<Function>)| (p.0@, p.1@.map_values(|f: Function| func_view(f)))),
            jumps: self.jump_stack@.map_values(|j: Jump| (j.stack_index, j.addr_to_remove@)),
            si: self.stack_index as int,
        }
    }

    /// Names and addresses stand once each.
    pub closed spec fn wf(&self) -> bool {
        &&& names_distinct(self.view().names)
        &&& addrs_distinct(self.view().vars)
        &&& names_distinct(self.view().funcs)
    }

    /// An empty memory, with the outermost block entered, writing the
    /// script.
    pub fn new() -> (r: Memory)
        ensures
            r.wf(),
            r.view() == (MemView {
                names: seq![],
                vars: seq![],
                funcs: seq![],
                jumps: seq![(0usize, Seq::<usize>::empty())],
                si: 0,
            }),
            r.bloc_id == 0,
            r.if_count == 0,
            r.current_file == SCRIPTF,
    {
        let mut jump_stack: Vec<Jump> = Vec::new();
        jump_stack.push(Jump::new(0));
        let r = Memory {
            var_name_map: Vec::new(),
            var_map: Vec::new(),
            func_map: Vec::new(),
            stack_index: 0,
            bloc_id: 0,
            if_count: 0,
            jump_stack,
            current_file: SCRIPTF,
        };
        assert(r.view().names =~= seq![]);
        assert(r.view().vars =~= seq![]);
        assert(r.view().funcs =~= seq![]);
        assert(r.view().jumps =~= seq![(0usize, Seq::<usize>::empty())]);
        r
    }

    /// The size of a type the memory knows.
    pub fn type_size(name: &str) -> (r: Option<u8>)
        ensures
            r == type_size_of(name@),
    {
        if str_eq(name, "int") {
            Some(4)
        } else if str_eq(name, "char") {
            Some(1)
        } else if str_eq(name, "void") {
            Some(0)
        } else {
            None
        }
    }

    /// Where a name stands among the variables' names.
    fn find_name(&self, name: &str) -> (r: Option<usize>)
        requires
            self.wf(),
        ensures
            crate::text::opt_int(r) == name_index(self.view().names, name@),
            r matches Some(i) ==> i < self.var_name_map@.len() && self.view().names[i as int].0 == name@,
    {
        proof {
            lemma_name_index(self.view().names, name@);
        }
        let ghost v = self.view().names;
        let mut i = self.var_name_map.len();
        assert(v.subrange(0, i as int) =~= v);
        while i > 0
            invariant
                i <= self.var_name_map@.len(),
                v == self.view().names,
                name_index(v, name@) == name_index(v.subrange(0, i as int), name@),
            decreases i,
        {
            assert(v.subrange(0, i as int).last() == v[i - 1]);
            assert(v[i - 1].0 == self.var_name_map@[i - 1].0@);
            assert(v.subrange(0, i as int).drop_last() =~= v.subrange(0, i - 1));
            if str_eq(self.var_name_map[i - 1].0.as_str(), name) {
                return Some(i - 1);
            }
            i -= 1;
        }
        assert(v.subrange(0, 0) =~= Seq::<(Seq<char>, Seq<usize>)>::empty());
        None
    }

    /// Where a variable stands among the variables, by its address.
    fn find_addr(&self, addr: usize) -> (r: Option<usize>)
        requires
            self.wf(),
        ensures
            crate::text::opt_int(r) == addr_index(self.view().vars, addr),
            r matches Some(i) ==> i < self.var_map@.len() && self.var_map@[i as int].addr == addr,
    {
        proof {
            lemma_addr_index(self.view().vars, addr);
        }
        let ghost v = self.view().vars;
        let mut i = self.var_map.len();
        assert(v.subrange(0, i as int) =~= v);
        while i > 0
            invariant
                i <= self.var_map@.len(),
                v == self.view().vars,
                addr_index(v, addr) == addr_index(v.subrange(0, i as int), addr),
            decreases i,
        {
            assert(v.subrange(0, i as int).last() == v[i - 1]);
            assert(v.subrange(0, i as int).drop_last() =~= v.subrange(0, i - 1));
            if self.var_map[i - 1].addr == addr {
                return Some(i - 1);
            }
            i -= 1;
        }
        assert(v.subrange(0, 0) =~= Seq::<(usize, VarView)>::empty());
        None
    }
}

/// Where a name stands in the list: the last place that holds it.
pub proof fn lemma_name_index<V>(e: Seq<(Seq<char>, V)>, k: Seq<char>)
    ensures
        name_index(e, k) matches Some(i) ==> 0 <= i < e.len() && e[i].0 == k,
        name_index(e, k) is None ==> forall|i: int| 0 <= i < e.len() ==> #[trigger] e[i].0 != k,
    decreases e.len(),
{
    if e.len() > 0 && e.last().0 != k {
        lemma_name_index(e.drop_last(), k);
        assert forall|i: int| 0 <= i < e.len() - 1 implies #[trigger] e[i].0 == e.drop_last()[i].0 by {}
    }
}

/// In a list of distinct names, each name is found where it stands.
pub proof fn lemma_name_index_at<V>(e: Seq<(Seq<char>, V)>, i: int)
    requires
        names_distinct(e),
        0 <= i < e.len(),
    ensures
        name_index(e, e[i].0) == Some(i),
    decreases e.len(),
{
    if i < e.len() - 1 {
        assert(e.last().0 != e[i].0);
        assert(e.drop_last()[i] == e[i]);
        assert(names_distinct(e.drop_last())) by {
            assert forall|a: int, b: int| 0 <= a < b < e.drop_last().len() implies #[trigger] e.drop_last()[a].0
                != #[trigger] e.drop_last()[b].0 by {
                assert(e.drop_last()[a] == e[a] && e.drop_last()[b] == e[b]);
            }
        }
        lemma_name_index_at(e.drop_last(), i);
    }
}

/// Changing what a name holds keeps where each name stands.
pub proof fn lemma_name_index_update<V>(e: Seq<(Seq<char>, V)>, i: int, v: V, k: Seq<char>)
    requires
        0 <= i < e.len(),
    ensures
        name_index(e.update(i, (e[i].0, v)), k) == name_index(e, k),
    decreases e.len(),
{
    let f = e.update(i, (e[i].0, v));
    if i == e.len() - 1 {
        assert(f.drop_last() =~= e.drop_last());
    } else {
        assert(f.last() == e.last());
        assert(f.drop_last() =~= e.drop_last().update(i, (e[i].0, v)));
        assert(e.drop_last()[i] == e[i]);
        lemma_name_index_update(e.drop_last(), i, v, k);
    }
}

/// Where an address stands in the list: the last place that holds it.
pub proof fn lemma_addr_index(e: Seq<(usize, VarView)>, a: usize)
    ensures
        addr_index(e, a) matches Some(i) ==> 0 <= i < e.len() && e[i].0 == a,
        addr_index(e, a) is None ==> forall|i: int| 0 <= i < e.len() ==> #[trigger] e[i].0 != a,
    decreases e.len(),
{
    if e.len() > 0 && e.last().0 != a {
        lemma_addr_index(e.drop_last(), a);
        assert forall|i: int| 0 <= i < e.len() - 1 implies #[trigger] e[i].0 == e.drop_last()[i].0 by {}
    }
}

/// In a list of distinct addresses, each is found where it stands.
pub proof fn lemma_addr_index_at(e: Seq<(usize, VarView)>, i: int)
    requires
        addrs_distinct(e),
        0 <= i < e.len(),
    ensures
        addr_index(e, e[i].0) == Some(i),
    decreases e.len(),
{
    if i < e.len() - 1 {
        assert(e.last().0 != e[i].0);
        assert(e.drop_last()[i] == e[i]);
        assert(addrs_distinct(e.drop_last())) by {
            assert forall|a: int, b: int| 0 <= a < b < e.drop_last().len() implies #[trigger] e.drop_last()[a].0
                != #[trigger] e.drop_last()[b].0 by {
                assert(e.drop_last()[a] == e[a] && e.drop_last()[b] == e[b]);
            }
        }
        lemma_addr_index_at(e.drop_last(), i);
    }
}

/// Declaring a variable in a block just entered, then leaving the block,
/// gives back the memory as it was: the same variables at the same
/// addresses, the same addresses for each name, the same next free address
/// and the same blocks. (The address the variable takes must be free.)
pub proof fn lemma_scope_undoes_new_var(m: MemView, tname: Seq<char>, name: Seq<char>, stars: i32)
    requires
        names_distinct(m.names),
        addrs_distinct(m.vars),
        type_size_of(tname) is Some,
        0 <= m.si <= usize::MAX,
        var_at(m.vars, m.si as usize) is None,
    ensures
        mv_jump_out(mv_new_var(mv_jump_in(m), tname, name, stars)) matches Some(m3) && m3.vars == m.vars
            && m3.si == m.si && m3.jumps == m.jumps && m3.funcs == m.funcs && forall|k: Seq<char>|
            name_stack(#[trigger] m3.names, k) == name_stack(m.names, k),
{
    let a = m.si as usize;
    let m1 = mv_jump_in(m);
    let m2 = mv_new_var(m1, tname, name, stars);
    assert(m1.jumps.last() == (a, Seq::<usize>::empty()));
    assert(m2.jumps.last() == (a, seq![a]));
    assert(addr_index(m.vars, a) is None);
    assert(m2.vars == m.vars.push((a, (name, tname, type_size_of(tname)->0, stars))));
    assert(addr_index(m2.vars, a) == Some(m.vars.len() as int));
    assert(m2.vars.remove(m.vars.len() as int) =~= m.vars);
    assert(m2.jumps.drop_last() =~= m.jumps);
    lemma_name_index(m.names, name);
    match name_index(m.names, name) {
        Some(p) => {
            let s = m.names[p].1;
            assert(m2.names == m.names.update(p, (name, s.push(a))));
            lemma_name_index_update(m.names, p, s.push(a), name);
            assert(name_index(m2.names, name) == Some(p));
            assert(s.push(a).drop_last() =~= s);
            assert(m.names[p] == (name, s));
            assert(m2.names.update(p, (name, s.push(a).drop_last())) =~= m.names);
            assert(remove_vars(m2.names, m2.vars, seq![a], 0) == remove_vars(m.names, m.vars, seq![a], 1));
        },
        None => {
            assert(m2.names == m.names.push((name, seq![a])));
            let n3 = m.names.push((name, Seq::<usize>::empty()));
            assert(seq![a].drop_last() =~= Seq::<usize>::empty());
            assert(m2.names.update(m.names.len() as int, (name, seq![a].drop_last())) =~= n3);
            assert(remove_vars(m2.names, m2.vars, seq![a], 0) == remove_vars(n3, m.vars, seq![a], 1));
            assert forall|k: Seq<char>| name_stack(n3, k) == name_stack(m.names, k) by {
                assert(n3.last() == (name, Seq::<usize>::empty()));
                if k != name {
                    assert(n3.drop_last() =~= m.names);
                    assert(name_index(n3, k) == name_index(m.names, k));
                    lemma_name_index(m.names, k);
                    if let Some(i) = name_index(m.names, k) {
                        assert(n3[i] == m.names[i]);
                    }
                } else {
                    assert(name_index(n3, k) == Some(m.names.len() as int));
                    assert(name_stack(n3, k) =~= Seq::<usize>::empty());
                    assert(name_index(m.names, k) is None);
                    assert(name_stack(m.names, k) =~= Seq::<usize>::empty());
                }
            }
        },
    }
}

impl Memory {
    /// Whether a function of that name is known.
    pub fn is_function(&self, name: &str) -> (r: bool)
        requires
            self.wf(),
        ensures
            r == (name_index(self.view().funcs, name@) matches Some(i) && self.view().funcs[i].1.len() > 0),
    {
        match self.find_func(name) {
            Some(i) => {
                assert(self.view().funcs[i as int].1.len() == self.func_map@[i as int].1@.len());
                self.func_map[i].1.len() > 0
            },
            None => false,
        }
    }

    /// Where a name stands among the functions' names.
    fn find_func(&self, name: &str) -> (r: Option<usize>)
        requires
            self.wf(),
        ensures
            crate::text::opt_int(r) == name_index(self.view().funcs, name@),
            r matches Some(i) ==> i < self.func_map@.len() && self.view().funcs[i as int].0 == name@,
    {
        proof {
            lemma_name_index(self.view().funcs, name@);
        }
        let ghost v = self.view().funcs;
        let mut i = self.func_map.len();
        assert(v.subrange(0, i as int) =~= v);
        while i > 0
            invariant
                i <= self.func_map@.len(),
                v == self.view().funcs,
                name_index(v, name@) == name_index(v.subrange(0, i as int), name@),
            decreases i,
        {
            assert(v.subrange(0, i as int).last() == v[i - 1]);
            assert(v[i - 1].0 == self.func_map@[i - 1].0@);
            assert(v.subrange(0, i as int).drop_last() =~= v.subrange(0, i - 1));
            if str_eq(self.func_map[i - 1].0.as_str(), name) {
                return Some(i - 1);
            }
            i -= 1;
        }
        assert(v.subrange(0, 0) =~= Seq::<(Seq<char>, Seq<FuncView>)>::empty());
        None
    }

    /// A block entered.
    pub fn jump_in(&mut self)
        requires
            old(self).wf(),
        ensures
            final(self).wf(),
            final(self).view() == mv_jump_in(old(self).view()),
            final(self).bloc_id == old(self).bloc_id,
            final(self).if_count == old(self).if_count,
            final(self).current_file == old(self).current_file,
    {
        let ghost v0 = self.view();
        self.jump_stack.push(Jump::new(self.stack_index));
        assert(self.view().jumps =~= v0.jumps.push((v0.si as usize, Seq::<usize>::empty())));
        assert(self.view().names =~= v0.names);
        assert(self.view().vars =~= v0.vars);
        assert(self.view().funcs =~= v0.funcs);
    }

    /// The script is written from now on to the functions' file.
    pub fn in_func(&mut self)
        ensures
            final(self).current_file == FUNCTIONSF,
            final(self).view() == old(self).view(),
            final(self).wf() == old(self).wf(),
            final(self).bloc_id == old(self).bloc_id,
            final(self).if_count == old(self).if_count,
    {
        self.current_file = FUNCTIONSF;
    }

    /// The script is written from now on to the script's file.
    pub fn out_func(&mut self)
        ensures
            final(self).current_file == SCRIPTF,
            final(self).view() == old(self).view(),
            final(self).wf() == old(self).wf(),
            final(self).bloc_id == old(self).bloc_id,
            final(self).if_count == old(self).if_count,
    {
        self.current_file = SCRIPTF;
    }

    /// The next free address.
    pub fn si(&self) -> (r: usize)
        ensures
            r == self.view().si,
    {
        self.stack_index
    }

    /// The size of a type: 4 for a pointer, else the type's.
    pub fn get_type_size(&self, nb_s: i32, name: &str) -> (r: u8)
        requires
            nb_s != 0 || type_size_of(name@) is Some,
        ensures
            r == if nb_s != 0 {
                4
            } else {
                type_size_of(name@)->0
            },
    {
        if nb_s != 0 {
            4
        } else {
            match Memory::type_size(name) {
                Some(s) => s,
                None => 0,
            }
        }
    }

    /// The dereferencing of a value `stars` times, if any.
    pub fn deref_var(&self, size: usize, stars: i32) -> (r: String)
        requires
            stars > 0 ==> size < 9,
        ensures
            r@ == if stars > 0 {
                "\n_deref_"@ + spec_asm_size(size as int) + " "@ + int_digits(stars as int)
            } else {
                Seq::<char>::empty()
            },
    {
        if stars > 0 {
            let mut res = copy_str("\n_deref_");
            push_str(&mut res, asm_size(size));
            push_str(&mut res, " ");
            push_int(&mut res, stars as i128);
            res
        } else {
            new_string()
        }
    }

    /// The variable at an address.
    pub fn get_var_def(&self, addr: &usize) -> (r: Result<&VariableDefinition, ()>)
        requires
            self.wf(),
        ensures
            match var_at(self.view().vars, *addr) {
                Some(v) => r matches Ok(d) && d.addr == *addr && var_view(*d) == v,
                None => r is Err,
            },
    {
        proof {
            lemma_addr_index(self.view().vars, *addr);
        }
        match self.find_addr(*addr) {
            Some(i) => {
                assert(self.view().vars[i as int] == (self.var_map@[i as int].addr, var_view(self.var_map@[i as int])));
                Ok(&self.var_map[i])
            },
            None => Err(()),
        }
    }

    /// The variable a name denotes: the innermost.
    pub fn get_var_def_by_name(&self, name: &String) -> (r: Result<&VariableDefinition, ()>)
        requires
            self.wf(),
            name_index(self.view().names, name@) matches Some(i) ==> self.view().names[i].1.len() > 0 && var_at(
                self.view().vars,
                self.view().names[i].1.last(),
            ) is Some,
        ensures
            match name_index(self.view().names, name@) {
                Some(i) => r matches Ok(d) && d.addr == self.view().names[i].1.last() && var_view(*d) == var_at(
                    self.view().vars,
                    self.view().names[i].1.last(),
                )->0,
                None => r is Err,
            },
    {
        match self.find_name(name.as_str()) {
            Some(i) => {
                let stack = &self.var_name_map[i].1;
                assert(self.view().names[i as int].1 == stack@);
                let addr = stack[stack.len() - 1];
                match self.get_var_def(&addr) {
                    Ok(d) => Ok(d),
                    Err(()) => Err(()),
                }
            },
            None => Err(()),
        }
    }

    /// The assignment of `rax` to the variable at an address.
    pub fn affect_to(&self, addr: usize) -> (r: String)
        requires
            self.wf(),
            var_at(self.view().vars, addr) matches Some(v) && v.2 < 9,
        ensures
            ({
                let v = var_at(self.view().vars, addr)->0;
                r@ == "\nmov "@ + spec_asm_size(v.2 as int) + "[_stack + "@ + nat_digits(addr as nat) + "], "@
                    + spec_rax_size(v.2 as int)
            }),
    {
        let size: usize = match self.get_var_def(&addr) {
            Ok(d) => d.type_var.size as usize,
            Err(()) => 0,
        };
        let mut res = copy_str("\nmov ");
        push_str(&mut res, asm_size(size));
        push_str(&mut res, "[_stack + ");
        push_nat(&mut res, addr as u128);
        push_str(&mut res, "], ");
        push_str(&mut res, rax_size(size));
        res
    }
}

/// Pushes a function on the stack of its name.
pub open spec fn push_func(funcs: Seq<(Seq<char>, Seq<FuncView>)>, k: Seq<char>, f: FuncView) -> Seq<(Seq<char>, Seq<FuncView>)> {
    match name_index(funcs, k) {
        Some(i) => funcs.update(i, (k, funcs[i].1.push(f))),
        None => funcs.push((k, seq![f])),
    }
}

/// Pops the last function of a name.
pub open spec fn pop_func(funcs: Seq<(Seq<char>, Seq<FuncView>)>, k: Seq<char>) -> Seq<(Seq<char>, Seq<FuncView>)> {
    match name_index(funcs, k) {
        Some(i) => funcs.update(i, (k, funcs[i].1.drop_last())),
        None => funcs,
    }
}

/// The last function of a name.
pub open spec fn last_func(funcs: Seq<(Seq<char>, Seq<FuncView>)>, k: Seq<char>) -> FuncView {
    funcs[name_index(funcs, k)->0].1.last()
}

/// A name with a function on its stack.
pub open spec fn has_func(funcs: Seq<(Seq<char>, Seq<FuncView>)>, k: Seq<char>) -> bool {
    name_index(funcs, k) matches Some(i) && funcs[i].1.len() > 0
}

/// The functions a name denotes, the last declared last (none: empty).
pub open spec fn func_stack(funcs: Seq<(Seq<char>, Seq<FuncView>)>, k: Seq<char>) -> Seq<FuncView> {
    match name_index(funcs, k) {
        Some(i) => funcs[i].1,
        None => seq![],
    }
}

/// A function declared is the one the next call of its name takes off, and
/// taking it off gives back the functions of every name as they were.
pub proof fn lemma_call_takes_new_function(funcs: Seq<(Seq<char>, Seq<FuncView>)>, k: Seq<char>, f: FuncView)
    requires
        names_distinct(funcs),
    ensures
        has_func(push_func(funcs, k, f), k),
        last_func(push_func(funcs, k, f), k) == f,
        forall|k2: Seq<char>| #[trigger] func_stack(pop_func(push_func(funcs, k, f), k), k2) == func_stack(funcs, k2),
{
    lemma_name_index(funcs, k);
    let pushed = push_func(funcs, k, f);
    match name_index(funcs, k) {
        Some(i) => {
            let s = funcs[i].1;
            lemma_name_index_update(funcs, i, s.push(f), k);
            assert(funcs[i].0 == k);
            assert(pushed == funcs.update(i, (funcs[i].0, s.push(f))));
            assert(name_index(pushed, k) == Some(i));
            assert(s.push(f).drop_last() =~= s);
            assert(pop_func(pushed, k) =~= funcs);
        },
        None => {
            assert(pushed == funcs.push((k, seq![f])));
            assert(pushed.drop_last() =~= funcs);
            assert(name_index(pushed, k) == Some(funcs.len() as int));
            let popped = pop_func(pushed, k);
            assert(seq![f].drop_last() =~= Seq::<FuncView>::empty());
            assert(pushed[funcs.len() as int] == (k, seq![f]));
            assert(popped =~= funcs.push((k, Seq::<FuncView>::empty())));
            assert forall|k2: Seq<char>| #[trigger] func_stack(popped, k2) == func_stack(funcs, k2) by {
                assert(popped.drop_last() =~= funcs);
                lemma_name_index(funcs, k2);
                if k2 == k {
                    assert(func_stack(popped, k2) =~= Seq::<FuncView>::empty());
                } else if let Some(j) = name_index(funcs, k2) {
                    assert(popped[j] == funcs[j]);
                }
            }
        },
    }
}

/// Changing what a name holds keeps the names distinct.
pub proof fn lemma_names_distinct_update<V>(e: Seq<(Seq<char>, V)>, i: int, v: V)
    requires
        names_distinct(e),
        0 <= i < e.len(),
    ensures
        names_distinct(e.update(i, (e[i].0, v))),
{
    let f = e.update(i, (e[i].0, v));
    assert forall|a: int, b: int| 0 <= a < b < f.len() implies #[trigger] f[a].0 != #[trigger] f[b].0 by {
        assert(f[a].0 == e[a].0 && f[b].0 == e[b].0);
    }
}

/// A new name keeps the names distinct.
pub proof fn lemma_names_distinct_push<V>(e: Seq<(Seq<char>, V)>, k: Seq<char>, v: V)
    requires
        names_distinct(e),
        name_index(e, k) is None,
    ensures
        names_distinct(e.push((k, v))),
{
    lemma_name_index(e, k);
    let f = e.push((k, v));
    assert forall|a: int, b: int| 0 <= a < b < f.len() implies #[trigger] f[a].0 != #[trigger] f[b].0 by {
        assert(f[a] == e[a]);
        if b < e.len() {
            assert(f[b] == e[b]);
        }
    }
}

/// Removing a variable keeps the addresses distinct.
pub proof fn lemma_addrs_distinct_remove(e: Seq<(usize, VarView)>, i: int)
    requires
        addrs_distinct(e),
        0 <= i < e.len(),
    ensures
        addrs_distinct(e.remove(i)),
{
    let f = e.remove(i);
    assert forall|a: int, b: int| 0 <= a < b < f.len() implies #[trigger] f[a].0 != #[trigger] f[b].0 by {
        let a2 = if a < i { a } else { a + 1 };
        let b2 = if b < i { b } else { b + 1 };
        assert(f[a] == e[a2] && f[b] == e[b2]);
    }
}

impl Memory {
    /// A variable declared: at the next free address, on top of its name's
    /// stack, recorded in the innermost block; the address it takes.
    pub fn new_var(&mut self, name_type: String, name: String, stars: i32) -> (r: usize)
        requires
            old(self).wf(),
            type_size_of(name_type@) is Some,
            old(self).view().jumps.len() > 0,
            old(self).view().si + type_size_of(name_type@)->0 <= usize::MAX,
        ensures
            final(self).wf(),
            final(self).view() == mv_new_var(old(self).view(), name_type@, name@, stars),
            r == old(self).view().si,
            final(self).bloc_id == old(self).bloc_id,
            final(self).if_count == old(self).if_count,
            final(self).current_file == old(self).current_file,
    {
        let ghost v0 = self.view();
        let size = match Memory::type_size(name_type.as_str()) {
            Some(s) => s,
            None => 0,
        };
        let si = self.stack_index;
        let def = VariableDefinition {
            name: copy_str(name.as_str()),
            type_var: Type { size, name: name_type, stars },
            addr: si,
        };
        let ghost dv = (si, var_view(def));
        proof {
            lemma_addr_index(v0.vars, si);
        }
        match self.find_addr(si) {
            Some(i) => {
                self.var_map.set(i, def);
                assert(self.view().vars =~= v0.vars.update(i as int, dv));
                assert(addrs_distinct(self.view().vars)) by {
                    let f = self.view().vars;
                    assert forall|a: int, b: int| 0 <= a < b < f.len() implies #[trigger] f[a].0 != #[trigger] f[b].0 by {
                        assert(f[a].0 == v0.vars[a].0 && f[b].0 == v0.vars[b].0);
                    }
                }
            },
            None => {
                self.var_map.push(def);
                assert(self.view().vars =~= v0.vars.push(dv));
                assert(addrs_distinct(self.view().vars)) by {
                    let f = self.view().vars;
                    assert forall|a: int, b: int| 0 <= a < b < f.len() implies #[trigger] f[a].0 != #[trigger] f[b].0 by {
                        assert(f[a] == v0.vars[a]);
                        if b < v0.vars.len() {
                            assert(f[b] == v0.vars[b]);
                        }
                    }
                }
            },
        }
        assert(self.view().vars == set_var(v0.vars, si, (name@, name_type@, size, stars)));
        match self.find_name(name.as_str()) {
            Some(i) => {
                let ghost old_stack = self.var_name_map@[i as int].1@;
                self.var_name_map[i].1.push(si);
                assert(self.view().names =~= v0.names.update(i as int, (name@, old_stack.push(si))));
                proof {
                    lemma_names_distinct_update(v0.names, i as int, old_stack.push(si));
                }
            },
            None => {
                let mut st: Vec<usize> = Vec::new();
                st.push(si);
                self.var_name_map.push((name, st));
                assert(self.view().names =~= v0.names.push((name@, seq![si])));
                proof {
                    lemma_names_distinct_push(v0.names, name@, seq![si]);
                }
            },
        }
        let n = self.jump_stack.len();
        let ghost j = v0.jumps.last();
        self.jump_stack[n - 1].add_addr(si);
        assert(self.view().jumps =~= v0.jumps.update(v0.jumps.len() - 1, (j.0, j.1.push(si))));
        assert(self.view().funcs =~= v0.funcs);
        self.stack_index = si + size as usize;
        si
    }

    /// The innermost block left: its variables go, each from its address
    /// and from the top of its name's stack, and the next free address goes
    /// back to where the block began.
    pub fn jump_out(&mut self)
        requires
            old(self).wf(),
            mv_jump_out(old(self).view()) is Some,
        ensures
            final(self).wf(),
            final(self).view() == mv_jump_out(old(self).view())->0,
            final(self).bloc_id == old(self).bloc_id,
            final(self).if_count == old(self).if_count,
            final(self).current_file == old(self).current_file,
    {
        let ghost v0 = self.view();
        let last_jump = self.jump_stack.pop().unwrap();
        let ghost addrs = last_jump.addr_to_remove@;
        let ghost target = remove_vars(v0.names, v0.vars, addrs, 0);
        assert(v0.jumps.last() == (last_jump.stack_index, addrs));
        assert(self.view().jumps =~= v0.jumps.drop_last());
        assert(self.view().names =~= v0.names);
        assert(self.view().vars =~= v0.vars);
        assert(self.view().funcs =~= v0.funcs);
        let mut k: usize = 0;
        while k < last_jump.addr_to_remove.len()
            invariant
                k <= addrs.len(),
                addrs == last_jump.addr_to_remove@,
                self.wf(),
                target is Some,
                target == remove_vars(self.view().names, self.view().vars, addrs, k as int),
                self.view().jumps == v0.jumps.drop_last(),
                self.view().funcs == v0.funcs,
                self.bloc_id == old(self).bloc_id,
                self.if_count == old(self).if_count,
                self.current_file == old(self).current_file,
            decreases addrs.len() - k,
        {
            let ghost v1 = self.view();
            let addr = last_jump.addr_to_remove[k];
            let i = match self.find_addr(addr) {
                Some(i) => i,
                None => {
                    assert(false);
                    0
                },
            };
            let var_def = self.var_map.remove(i);
            assert(self.view().vars =~= v1.vars.remove(i as int));
            proof {
                lemma_addrs_distinct_remove(v1.vars, i as int);
            }
            assert(v1.vars[i as int].1.0 == var_def.name@);
            let p = match self.find_name(var_def.name.as_str()) {
                Some(p) => p,
                None => {
                    assert(false);
                    0
                },
            };
            let ghost old_stack = self.var_name_map@[p as int].1@;
            assert(v1.names[p as int].1 == old_stack);
            let _ = self.var_name_map[p].1.pop();
            assert(self.view().names =~= v1.names.update(p as int, (var_def.name@, old_stack.drop_last())));
            proof {
                lemma_names_distinct_update(v1.names, p as int, old_stack.drop_last());
            }
            assert(self.view().jumps =~= v0.jumps.drop_last());
            assert(self.view().funcs =~= v0.funcs);
            k += 1;
        }
        self.stack_index = last_jump.stack_index;
    }

    /// A function declared: on top of its name's stack, kept at the next
    /// free address, which moves by eight.
    pub fn new_function(&mut self, name: String, args: Vec<Type>, return_type: Type)
        requires
            old(self).wf(),
            old(self).view().si + 8 <= usize::MAX,
        ensures
            final(self).wf(),
            final(self).view() == (MemView {
                funcs: push_func(
                    old(self).view().funcs,
                    name@,
                    (old(self).view().si as usize, args@.map_values(|t: Type| type_view(t))),
                ),
                si: old(self).view().si + 8,
                ..old(self).view()
            }),
            final(self).bloc_id == old(self).bloc_id,
            final(self).if_count == old(self).if_count,
            final(self).current_file == old(self).current_file,
    {
        let ghost v0 = self.view();
        let f = Function { name: copy_str(name.as_str()), args, return_type, addr: self.stack_index };
        let ghost fv = func_view(f);
        proof {
            lemma_name_index(v0.funcs, name@);
        }
        match self.find_func(name.as_str()) {
            Some(i) => {
                let ghost old_stack = self.func_map@[i as int].1@;
                self.func_map[i].1.push(f);
                assert(self.view().funcs =~= v0.funcs.update(
                    i as int,
                    (name@, old_stack.map_values(|g: Function| func_view(g)).push(fv)),
                )) by {
                    assert(self.func_map@[i as int].1@ == old_stack.push(f));
                    assert(old_stack.push(f).map_values(|g: Function| func_view(g)) =~= old_stack.map_values(
                        |g: Function| func_view(g),
                    ).push(fv));
                }
                proof {
                    lemma_names_distinct_update(
                        v0.funcs,
                        i as int,
                        old_stack.map_values(|g: Function| func_view(g)).push(fv),
                    );
                }
            },
            None => {
                let mut st: Vec<Function> = Vec::new();
                st.push(f);
                self.func_map.push((name, st));
                assert(self.view().funcs =~= v0.funcs.push((name@, seq![fv]))) by {
                    assert(st@.map_values(|g: Function| func_view(g)) =~= seq![fv]);
                }
                proof {
                    lemma_names_distinct_push(v0.funcs, name@, seq![fv]);
                }
            },
        }
        assert(self.view().names =~= v0.names);
        assert(self.view().vars =~= v0.vars);
        assert(self.view().jumps =~= v0.jumps);
        self.stack_index = self.stack_index + 8;
    }

    /// Takes off the last function of a name (it must have one).
    fn pop_function(&mut self, f_name: &str) -> (r: Function)
        requires
            old(self).wf(),
            has_func(old(self).view().funcs, f_name@),
        ensures
            final(self).wf(),
            func_view(r) == last_func(old(self).view().funcs, f_name@),
            final(self).view() == (MemView { funcs: pop_func(old(self).view().funcs, f_name@), ..old(self).view() }),
            final(self).bloc_id == old(self).bloc_id,
            final(self).if_count == old(self).if_count,
            final(self).current_file == old(self).current_file,
    {
        let ghost v0 = self.view();
        let i = match self.find_func(f_name) {
            Some(i) => i,
            None => {
                assert(false);
                0
            },
        };
        let ghost old_stack = self.func_map@[i as int].1@;
        assert(v0.funcs[i as int].1 == old_stack.map_values(|g: Function| func_view(g)));
        let f = self.func_map[i].1.pop().unwrap();
        assert(self.view().funcs =~= v0.funcs.update(
            i as int,
            (f_name@, old_stack.map_values(|g: Function| func_view(g)).drop_last()),
        )) by {
            assert(old_stack.drop_last().map_values(|g: Function| func_view(g)) =~= old_stack.map_values(
                |g: Function| func_view(g),
            ).drop_last());
        }
        proof {
            lemma_names_distinct_update(v0.funcs, i as int, old_stack.map_values(|g: Function| func_view(g)).drop_last());
        }
        assert(self.view().names =~= v0.names);
        assert(self.view().vars =~= v0.vars);
        assert(self.view().jumps =~= v0.jumps);
        f
    }

    /// The `nth` argument of a call of the last function of a name: its
    /// number of stars must be the argument's; the value of `rax` is stored
    /// at the next free address, which moves by its size. The function is
    /// taken off its name's stack.
    pub fn handle_arg(&mut self, f_name: &str, stars: i32, nth: usize) -> (r: Result<String, String>)
        requires
            old(self).wf(),
            has_func(old(self).view().funcs, f_name@),
            nth < last_func(old(self).view().funcs, f_name@).1.len(),
            ({
                let t = last_func(old(self).view().funcs, f_name@).1[nth as int];
                t.2 == stars ==> (stars != 0 || type_size_of(t.0) is Some) && old(self).view().si + (if stars != 0 {
                    4
                } else {
                    type_size_of(t.0)->0
                }) <= usize::MAX
            }),
        ensures
            final(self).wf(),
            ({
                let m = old(self).view();
                let t = last_func(m.funcs, f_name@).1[nth as int];
                let size = if stars != 0 {
                    4
                } else {
                    type_size_of(t.0)->0
                };
                if t.2 != stars {
                    &&& r matches Err(e) && e@ == "Not the good type for the call."@
                    &&& final(self).view() == (MemView { funcs: pop_func(m.funcs, f_name@), ..m })
                } else {
                    &&& r matches Ok(code) && code@ == "\nmov "@ + spec_asm_size(size as int) + "[_stack + "@
                        + nat_digits(m.si as nat) + "], "@ + spec_rax_size(size as int)
                    &&& final(self).view() == (MemView { funcs: pop_func(m.funcs, f_name@), si: m.si + size, ..m })
                }
            }),
    {
        let f = self.pop_function(f_name);
        assert(f.args@.map_values(|t: Type| type_view(t))[nth as int] == type_view(f.args@[nth as int]));
        if f.args[nth].stars != stars {
            return Err(copy_str("Not the good type for the call."));
        }
        let size = self.get_type_size(stars, f.args[nth].name.as_str()) as usize;
        let mut res = copy_str("\nmov ");
        push_str(&mut res, asm_size(size));
        push_str(&mut res, "[_stack + ");
        push_nat(&mut res, self.stack_index as u128);
        push_str(&mut res, "], ");
        push_str(&mut res, rax_size(size));
        self.stack_index = self.stack_index + size;
        Ok(res)
    }

    /// Checks the number of arguments of a call of the last function of a
    /// name, which is taken off its name's stack.
    pub fn good_nb_arg(&mut self, name: &str, nb_arg: u8) -> (r: Result<(), String>)
        requires
            old(self).wf(),
            has_func(old(self).view().funcs, name@),
        ensures
            final(self).wf(),
            final(self).view() == (MemView { funcs: pop_func(old(self).view().funcs, name@), ..old(self).view() }),
            last_func(old(self).view().funcs, name@).1.len() != nb_arg ==> (r matches Err(e) && e@
                == "not the good number of arg"@),
            last_func(old(self).view().funcs, name@).1.len() == nb_arg ==> r is Ok,
    {
        let f = self.pop_function(name);
        if f.args.len() != nb_arg as usize {
            Err(copy_str("not the good number of arg"))
        } else {
            Ok(())
        }
    }
}

/// A declaration: the name of the type, the name of the variable and its
/// stars.
pub type Decl = (Seq<char>, Seq<char>, i32);

/// Declarations one after the other.
pub open spec fn mv_new_vars(m: MemView, ds: Seq<Decl>) -> MemView
    decreases ds.len(),
{
    if ds.len() == 0 {
        m
    } else {
        mv_new_var(mv_new_vars(m, ds.drop_last()), ds.last().0, ds.last().1, ds.last().2)
    }
}

/// The bytes the declarations take.
pub open spec fn decls_size(ds: Seq<Decl>) -> int
    decreases ds.len(),
{
    if ds.len() == 0 {
        0
    } else {
        decls_size(ds.drop_last()) + type_size_of(ds.last().0)->0 as int
    }
}

/// The variables the declarations add, from the address `si0` on.
pub open spec fn new_entries(si0: int, ds: Seq<Decl>) -> Seq<(usize, VarView)>
    decreases ds.len(),
{
    if ds.len() == 0 {
        seq![]
    } else {
        let d = ds.last();
        new_entries(si0, ds.drop_last()).push(
            ((si0 + decls_size(ds.drop_last())) as usize, (d.1, d.0, type_size_of(d.0)->0, d.2)),
        )
    }
}

/// The addresses the declarations of a name take, in order.
pub open spec fn named_addrs(si0: int, ds: Seq<Decl>, k: Seq<char>) -> Seq<usize>
    decreases ds.len(),
{
    if ds.len() == 0 {
        seq![]
    } else if ds.last().1 == k {
        named_addrs(si0, ds.drop_last(), k).push((si0 + decls_size(ds.drop_last())) as usize)
    } else {
        named_addrs(si0, ds.drop_last(), k)
    }
}

/// How many declarations are of a name.
pub open spec fn count_named(ds: Seq<Decl>, k: Seq<char>) -> int
    decreases ds.len(),
{
    if ds.len() == 0 {
        0
    } else {
        count_named(ds.drop_last(), k) + if ds.last().1 == k {
            1int
        } else {
            0int
        }
    }
}

/// Each declaration is of a known type, and each but the last takes room
/// (one that takes none shares its address with the next, which takes its
/// place).
pub open spec fn decls_ok(ds: Seq<Decl>) -> bool {
    forall|i: int|
        0 <= i < ds.len() ==> (type_size_of(#[trigger] ds[i].0) matches Some(s) && (i < ds.len() - 1 ==> s > 0))
}

/// Every variable lies below an address.
pub open spec fn keys_below(vars: Seq<(usize, VarView)>, si: int) -> bool {
    forall|i: int| 0 <= i < vars.len() ==> (#[trigger] vars[i].0) < si
}

/// Pushing an address on a name's stack changes that stack only.
pub proof fn lemma_push_name_stack(names: Seq<(Seq<char>, Seq<usize>)>, k: Seq<char>, a: usize)
    requires
        names_distinct(names),
    ensures
        names_distinct(push_name(names, k, a)),
        forall|k2: Seq<char>|
            name_stack(#[trigger] push_name(names, k, a), k2) == if k2 == k {
                name_stack(names, k).push(a)
            } else {
                name_stack(names, k2)
            },
{
    lemma_name_index(names, k);
    match name_index(names, k) {
        Some(i) => {
            let s = names[i].1;
            lemma_names_distinct_update(names, i, s.push(a));
            assert(push_name(names, k, a) == names.update(i, (names[i].0, s.push(a))));
            assert forall|k2: Seq<char>|
                name_stack(#[trigger] push_name(names, k, a), k2) == if k2 == k {
                    name_stack(names, k).push(a)
                } else {
                    name_stack(names, k2)
                } by {
                lemma_name_index_update(names, i, s.push(a), k2);
                lemma_name_index(names, k2);
            }
        },
        None => {
            lemma_names_distinct_push(names, k, seq![a]);
            let n2 = names.push((k, seq![a]));
            assert forall|k2: Seq<char>|
                name_stack(#[trigger] push_name(names, k, a), k2) == if k2 == k {
                    name_stack(names, k).push(a)
                } else {
                    name_stack(names, k2)
                } by {
                assert(n2.drop_last() =~= names);
                lemma_name_index(names, k2);
                if k2 == k {
                    assert(name_stack(names, k).push(a) =~= seq![a]);
                } else {
                    if let Some(j) = name_index(names, k2) {
                        assert(n2[j] == names[j]);
                    }
                }
            }
        },
    }
}

/// The variables, addresses and name stacks after declarations made in
/// the innermost block.
pub proof fn lemma_new_vars_shape(m: MemView, ds: Seq<Decl>)
    requires
        names_distinct(m.names),
        addrs_distinct(m.vars),
        keys_below(m.vars, m.si),
        m.jumps.len() > 0,
        decls_ok(ds),
        0 <= m.si,
        m.si + decls_size(ds) <= usize::MAX,
    ensures
        decls_size(ds) >= 0,
        mv_new_vars(m, ds).vars == m.vars + new_entries(m.si, ds),
        mv_new_vars(m, ds).si == m.si + decls_size(ds),
        mv_new_vars(m, ds).funcs == m.funcs,
        mv_new_vars(m, ds).jumps == m.jumps.update(
            m.jumps.len() - 1,
            (m.jumps.last().0, m.jumps.last().1 + new_entries(m.si, ds).map_values(|e: (usize, VarView)| e.0)),
        ),
        names_distinct(mv_new_vars(m, ds).names),
        addrs_distinct(mv_new_vars(m, ds).vars),
        ds.len() > 0 ==> type_size_of(ds.last().0)->0 > 0 ==> keys_below(mv_new_vars(m, ds).vars, mv_new_vars(m, ds).si),
        ds.len() == 0 ==> keys_below(mv_new_vars(m, ds).vars, mv_new_vars(m, ds).si),
        forall|k: Seq<char>|
            name_stack(#[trigger] mv_new_vars(m, ds).names, k) == name_stack(m.names, k) + named_addrs(m.si, ds, k),
    decreases ds.len(),
{
    if ds.len() == 0 {
        assert(m.vars + new_entries(m.si, ds) =~= m.vars);
        assert(m.jumps.last().1 + new_entries(m.si, ds).map_values(|e: (usize, VarView)| e.0) =~= m.jumps.last().1);
        assert(m.jumps.update(m.jumps.len() - 1, (m.jumps.last().0, m.jumps.last().1)) =~= m.jumps);
        assert forall|k: Seq<char>| name_stack(#[trigger] mv_new_vars(m, ds).names, k) == name_stack(m.names, k) + named_addrs(m.si, ds, k) by {
            assert(name_stack(m.names, k) + Seq::<usize>::empty() =~= name_stack(m.names, k));
        }
    } else {
        let ds1 = ds.drop_last();
        let d = ds.last();
        assert(decls_ok(ds1)) by {
            assert forall|i: int| 0 <= i < ds1.len() implies (type_size_of(#[trigger] ds1[i].0) matches Some(s) && (i
                < ds1.len() - 1 ==> s > 0)) by {
                assert(ds1[i] == ds[i]);
            }
        }
        assert(type_size_of(ds[ds.len() - 1].0) is Some);
        if ds1.len() > 0 {
            assert(ds1.last() == ds[ds.len() - 2]);
            assert(type_size_of(ds[ds.len() - 2].0) matches Some(s) && s > 0);
        }
        let size = type_size_of(d.0)->0;
        lemma_new_vars_shape(m, ds1);
        let p = mv_new_vars(m, ds1);
        let a = p.si as usize;
        assert(a as int == p.si);
        lemma_addr_index(p.vars, a);
        assert(addr_index(p.vars, a) is None) by {
            if let Some(i) = addr_index(p.vars, a) {
                assert(p.vars[i].0 < p.si);
            }
        }
        let v = (d.1, d.0, size, d.2);
        let q = mv_new_vars(m, ds);
        assert(q == mv_new_var(p, d.0, d.1, d.2));
        assert(q.vars == p.vars.push((a, v)));
        assert(new_entries(m.si, ds) == new_entries(m.si, ds1).push((a, v)));
        assert(q.vars =~= m.vars + new_entries(m.si, ds));
        assert(addrs_distinct(q.vars)) by {
            assert forall|x: int, y: int| 0 <= x < y < q.vars.len() implies #[trigger] q.vars[x].0 != #[trigger] q.vars[y].0 by {
                if y < p.vars.len() {
                    assert(q.vars[x] == p.vars[x] && q.vars[y] == p.vars[y]);
                } else {
                    assert(q.vars[x] == p.vars[x]);
                    assert(p.vars[x].0 < p.si);
                }
            }
        }
        if size > 0 {
            assert(keys_below(q.vars, q.si)) by {
                assert forall|i: int| 0 <= i < q.vars.len() implies (#[trigger] q.vars[i]).0 < q.si by {
                    if i < p.vars.len() {
                        assert(q.vars[i] == p.vars[i]);
                    }
                }
            }
        }
        lemma_push_name_stack(p.names, d.1, a);
        assert forall|k: Seq<char>|
            name_stack(#[trigger] q.names, k) == name_stack(m.names, k) + named_addrs(m.si, ds, k) by {
            if k == d.1 {
                assert(named_addrs(m.si, ds, k) == named_addrs(m.si, ds1, k).push(a));
                assert((name_stack(m.names, k) + named_addrs(m.si, ds1, k)).push(a) =~= name_stack(m.names, k)
                    + named_addrs(m.si, ds1, k).push(a));
            } else {
                assert(named_addrs(m.si, ds, k) == named_addrs(m.si, ds1, k));
            }
        }
        let e1 = new_entries(m.si, ds1).map_values(|e: (usize, VarView)| e.0);
        assert(new_entries(m.si, ds).map_values(|e: (usize, VarView)| e.0) =~= e1.push(a));
        let jl = m.jumps.last();
        assert(p.jumps.last() == (jl.0, jl.1 + e1));
        assert(q.jumps =~= m.jumps.update(m.jumps.len() - 1, (jl.0, jl.1 + e1.push(a))));
    }
}

/// As many variables as declarations.
pub proof fn lemma_new_entries_len(si0: int, ds: Seq<Decl>)
    ensures
        new_entries(si0, ds).len() == ds.len(),
    decreases ds.len(),
{
    if ds.len() > 0 {
        lemma_new_entries_len(si0, ds.drop_last());
    }
}

/// The name of each variable declared is that of its declaration.
pub proof fn lemma_new_entries_index(si0: int, ds: Seq<Decl>, j: int)
    requires
        0 <= j < ds.len(),
    ensures
        new_entries(si0, ds)[j].1.0 == ds[j].1,
    decreases ds.len(),
{
    lemma_new_entries_len(si0, ds.drop_last());
    if j < ds.len() - 1 {
        lemma_new_entries_index(si0, ds.drop_last(), j);
        assert(ds.drop_last()[j] == ds[j]);
    }
}

/// As many addresses as declarations of the name.
pub proof fn lemma_named_addrs_len(si0: int, ds: Seq<Decl>, k: Seq<char>)
    ensures
        named_addrs(si0, ds, k).len() == count_named(ds, k),
        count_named(ds, k) >= 0,
    decreases ds.len(),
{
    if ds.len() > 0 {
        lemma_named_addrs_len(si0, ds.drop_last(), k);
    }
}

/// Counting the declarations of a name among more of them.
pub proof fn lemma_count_named_take(ds: Seq<Decl>, k: Seq<char>, j: int)
    requires
        0 <= j < ds.len(),
    ensures
        count_named(ds.take(j + 1), k) == count_named(ds.take(j), k) + if ds[j].1 == k {
            1int
        } else {
            0int
        },
        count_named(ds.take(j + 1), k) <= count_named(ds, k),
    decreases ds.len() - j,
{
    assert(ds.take(j + 1).drop_last() =~= ds.take(j));
    assert(ds.take(j + 1).last() == ds[j]);
    if j + 1 < ds.len() {
        lemma_count_named_take(ds, k, j + 1);
    } else {
        assert(ds.take(j + 1) =~= ds);
    }
}

/// Leaving the block takes out the variables declared in it one by one:
/// from the `j`-th on, the variables go and each name's stack loses the
/// addresses of its declarations not yet taken out.
pub proof fn lemma_remove_new(
    names: Seq<(Seq<char>, Seq<usize>)>,
    base: Seq<(usize, VarView)>,
    si0: int,
    ds: Seq<Decl>,
    n0: Seq<(Seq<char>, Seq<usize>)>,
    j: int,
)
    requires
        0 <= j <= ds.len(),
        names_distinct(names),
        addrs_distinct(base + new_entries(si0, ds).skip(j)),
        forall|k: Seq<char>|
            name_stack(names, k) == name_stack(n0, k) + #[trigger] named_addrs(si0, ds, k).take(
                count_named(ds, k) - count_named(ds.take(j), k),
            ),
    ensures
        remove_vars(
            names,
            base + new_entries(si0, ds).skip(j),
            new_entries(si0, ds).map_values(|e: (usize, VarView)| e.0),
            j,
        ) matches Some((nf, vf)) && vf == base && forall|k: Seq<char>| #[trigger] name_stack(nf, k) == name_stack(n0, k),
    decreases ds.len() - j,
{
    let e = new_entries(si0, ds);
    let addrs = e.map_values(|x: (usize, VarView)| x.0);
    let vars = base + e.skip(j);
    lemma_new_entries_len(si0, ds);
    if j == ds.len() {
        assert(vars =~= base);
        assert forall|k: Seq<char>| #[trigger] name_stack(names, k) == name_stack(n0, k) by {
            assert(ds.take(j) =~= ds);
            assert(named_addrs(si0, ds, k).take(count_named(ds, k) - count_named(ds.take(j), k)) =~= Seq::<usize>::empty());
            assert(name_stack(n0, k) + Seq::<usize>::empty() =~= name_stack(n0, k));
        }
    } else {
        let bl = base.len() as int;
        assert(vars[bl] == e[j]);
        assert(addrs[j] == e[j].0);
        lemma_addr_index_at(vars, bl);
        lemma_new_entries_index(si0, ds, j);
        let nm = ds[j].1;
        assert(vars[bl].1.0 == nm);
        lemma_count_named_take(ds, nm, j);
        lemma_named_addrs_len(si0, ds, nm);
        lemma_named_addrs_len(si0, ds.take(j), nm);
        let t = count_named(ds, nm) - count_named(ds.take(j), nm);
        assert(t >= 1);
        let st = name_stack(names, nm);
        assert(st == name_stack(n0, nm) + named_addrs(si0, ds, nm).take(t));
        assert(st.len() > 0);
        lemma_name_index(names, nm);
        let p = name_index(names, nm)->0;
        assert(names[p].1 == st);
        let names2 = names.update(p, (nm, st.drop_last()));
        lemma_names_distinct_update(names, p, st.drop_last());
        assert(names[p].0 == nm);
        let vars2 = vars.remove(bl);
        assert(vars2 =~= base + e.skip(j + 1));
        lemma_addrs_distinct_remove(vars, bl);
        assert forall|k: Seq<char>|
            name_stack(names2, k) == name_stack(n0, k) + #[trigger] named_addrs(si0, ds, k).take(
                count_named(ds, k) - count_named(ds.take(j + 1), k),
            ) by {
            lemma_name_index_update(names, p, st.drop_last(), k);
            lemma_count_named_take(ds, k, j);
            lemma_named_addrs_len(si0, ds, k);
            lemma_named_addrs_len(si0, ds.take(j), k);
            lemma_name_index(names, k);
            if k == nm {
                assert(st.drop_last() =~= name_stack(n0, nm) + named_addrs(si0, ds, nm).take(t - 1));
            }
        }
        assert(remove_vars(names, vars, addrs, j) == remove_vars(names2, vars2, addrs, j + 1));
        lemma_remove_new(names2, base, si0, ds, n0, j + 1);
    }
}

/// Declaring variables in a block just entered, then leaving the block,
/// gives back the memory as it was: the same variables at the same
/// addresses, the same addresses for each name, the same next free address
/// and the same blocks. (Every variable lies below the next free address,
/// and each declaration but the last is of a type that takes room.)
pub proof fn lemma_scope_undoes_new_vars(m: MemView, ds: Seq<Decl>)
    requires
        names_distinct(m.names),
        addrs_distinct(m.vars),
        keys_below(m.vars, m.si),
        decls_ok(ds),
        0 <= m.si,
        m.si + decls_size(ds) <= usize::MAX,
    ensures
        mv_jump_out(mv_new_vars(mv_jump_in(m), ds)) matches Some(m3) && m3.vars == m.vars && m3.si == m.si
            && m3.jumps == m.jumps && m3.funcs == m.funcs && forall|k: Seq<char>|
            name_stack(#[trigger] m3.names, k) == name_stack(m.names, k),
{
    let m1 = mv_jump_in(m);
    lemma_new_vars_shape(m1, ds);
    let big = mv_new_vars(m1, ds);
    let e = new_entries(m.si, ds);
    let addrs = e.map_values(|x: (usize, VarView)| x.0);
    assert(m1.jumps.last() == (m.si as usize, Seq::<usize>::empty()));
    assert(Seq::<usize>::empty() + addrs =~= addrs);
    assert(big.jumps.last() == (m.si as usize, addrs));
    assert(big.jumps.drop_last() =~= m.jumps);
    assert(e.skip(0) =~= e);
    assert forall|k: Seq<char>|
        name_stack(big.names, k) == name_stack(m.names, k) + #[trigger] named_addrs(m.si, ds, k).take(
            count_named(ds, k) - count_named(ds.take(0), k),
        ) by {
        lemma_named_addrs_len(m.si, ds, k);
        assert(ds.take(0) =~= Seq::<Decl>::empty());
        assert(named_addrs(m.si, ds, k).take(count_named(ds, k)) =~= named_addrs(m.si, ds, k));
    }
    lemma_remove_new(big.names, m.vars, m.si, ds, m.names, 0);
}

} // verus!
