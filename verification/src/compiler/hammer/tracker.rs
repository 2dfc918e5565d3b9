//! The assembly tracker: it reads the assembly that the compiler emits, one
//! instruction at a time, follows the constants that the registers hold, and
//! folds away the instructions whose effect it can compute.
use vstd::prelude::*;
use crate::stack::Stack;
use crate::text::{
    find_from, lemma_split_nonempty, views, spec_split, split_str, spec_join, join_str, int_digits, spec_parse_i64, parse_i64,
    str_eq, copy_str, new_string, push_str, push_int, int_to_string, drop_last_char,
};
use crate::compiler::hammer::registers::{
    RegistersData, RegsView, reg_index, canon_name, register_index, spec_get_val, spec_set_val,
    spec_put_in_asm, NB_REGS,
};
use crate::compiler::tools::tools::{last_char, operation, spec_operation};

verus! {

/// What the tracker knows of one zone: its registers and its pending text.
pub type ZoneView = (RegsView, Seq<char>);

/// The abstract state of the tracker.
pub struct TrackerModel {
    /// The registers of each zone (`global`, then one per function), by name.
    pub zones: Map<Seq<char>, ZoneView>,
    /// The zone being read.
    pub current: Seq<char>,
    /// What the tracker knows of the values pushed on the machine stack.
    pub stack: Seq<Option<i64>>,
    /// The two values of the last comparison, when both are known.
    pub last_comparison: Option<(i64, i64)>,
    /// The number of `ret` read in the current function.
    pub nb_ret: u32,
}

/// The registers of a new zone: all hold zero.
pub open spec fn fresh_regs() -> RegsView {
    Seq::new(NB_REGS as nat, |j: int| (Some(0i64), None::<Seq<char>>))
}

/// The registers once the tracker forgot `rax`, `rbx`, `rdx` and `r15`.
pub open spec fn spec_reset(r: RegsView) -> RegsView {
    spec_set_val(
        spec_set_val(spec_set_val(spec_set_val(r, "rax"@, None), "rbx"@, None), "rdx"@, None),
        "r15"@,
        None,
    )
}

/// The registers once `r1` is known to have been copied from `r2`.
pub open spec fn spec_set_static(r: RegsView, r1: Seq<char>, r2: Seq<char>) -> RegsView {
    r.update(reg_index(r1)->0, (r[reg_index(r1)->0].0, Some(r2)))
}

/// The decimal writing of a value.
pub open spec fn digits(v: i64) -> Seq<char> {
    int_digits(v as int)
}

impl TrackerModel {
    /// Every zone has its registers, and `global` and the current zone exist.
    pub open spec fn wf(self) -> bool {
        &&& self.zones.contains_key("global"@)
        &&& self.zones.contains_key(self.current)
        &&& forall|k: Seq<char>| #[trigger] self.zones.contains_key(k) ==> self.zones[k].0.len() == NB_REGS
    }

    /// The registers of the current zone.
    pub open spec fn regs(self) -> RegsView {
        self.zones[self.current].0
    }

    /// The state with the registers of the current zone replaced.
    pub open spec fn with_regs(self, r: RegsView) -> TrackerModel {
        TrackerModel {
            zones: self.zones.insert(self.current, (r, self.zones[self.current].1)),
            current: self.current,
            stack: self.stack,
            last_comparison: self.last_comparison,
            nb_ret: self.nb_ret,
        }
    }

    /// What is known of `reg` (or the number it writes) in the current zone.
    pub open spec fn get_val(self, reg: Seq<char>) -> Option<i64> {
        spec_get_val(self.regs(), reg)
    }

    /// The state after `set_val(reg, val)` in the current zone.
    pub open spec fn set_val(self, reg: Seq<char>, val: Option<i64>) -> TrackerModel {
        self.with_regs(spec_set_val(self.regs(), reg, val))
    }

    /// The assembly that materialises `reg` in the current zone.
    pub open spec fn put_in_asm(self, reg: Seq<char>) -> Seq<char> {
        spec_put_in_asm(self.regs(), reg)
    }

    /// The state with another stack.
    pub open spec fn with_stack(self, s: Seq<Option<i64>>) -> TrackerModel {
        TrackerModel {
            zones: self.zones,
            current: self.current,
            stack: s,
            last_comparison: self.last_comparison,
            nb_ret: self.nb_ret,
        }
    }

    /// The state with another last comparison.
    pub open spec fn with_comparison(self, c: Option<(i64, i64)>) -> TrackerModel {
        TrackerModel {
            zones: self.zones,
            current: self.current,
            stack: self.stack,
            last_comparison: c,
            nb_ret: self.nb_ret,
        }
    }

    /// The state with another zone map, current zone and count of `ret`.
    pub open spec fn with_zones(self, z: Map<Seq<char>, ZoneView>, cur: Seq<char>, nb_ret: u32) -> TrackerModel {
        TrackerModel {
            zones: z,
            current: cur,
            stack: self.stack,
            last_comparison: self.last_comparison,
            nb_ret: nb_ret,
        }
    }
}

/// `garbage` splits on `+` in at least two pieces.
pub open spec fn garbage_ok(garbage: Seq<char>) -> bool {
    spec_split(garbage, "+"@).len() >= 2
}

/// The size and base part of a memory operand (`qword [rbp+r15` ...), with a
/// known `r15` replaced by its value.
pub open spec fn spec_garbage_analyse(m: TrackerModel, garbage: Seq<char>) -> Seq<char> {
    let p = spec_split(garbage, "+"@);
    let q = if p[1] == "r15"@ && m.get_val("r15"@) is Some {
        p.update(1, digits(m.get_val("r15"@)->0))
    } else {
        p
    };
    spec_join(q, "+"@)
}

/// `spot` can be written out as an operand.
pub open spec fn access_ok(spot: Seq<char>, garbage: Seq<char>) -> bool {
    &&& spot.len() > 0
    &&& spot.last() == ']' ==> garbage_ok(garbage)
}

/// An operand written with what the tracker knows: a register of known value
/// becomes the value, also inside a memory operand.
pub open spec fn spec_memory_access(m: TrackerModel, spot: Seq<char>, garbage: Seq<char>) -> Seq<char> {
    if spot.last() == ']' {
        match m.get_val(spot.drop_last()) {
            Some(v) => spec_garbage_analyse(m, garbage) + " "@ + digits(v) + "]"@,
            None => spec_garbage_analyse(m, garbage) + " "@ + spot,
        }
    } else {
        match m.get_val(spot) {
            Some(v) => digits(v),
            None => spot,
        }
    }
}

/// `mov`, `movzx` (and `add`) can be read without failing.
pub open spec fn memory_action_ok(m: TrackerModel, t: Seq<Seq<char>>, g: Seq<char>) -> bool {
    &&& t.len() >= 3
    &&& match m.get_val(t[2]) {
        Some(val) => if t[0] == "add"@ {
            (reg_index(t[1]) is Some && m.regs()[reg_index(t[1])->0].0 is Some) ==> i64::MIN <= val
                + m.regs()[reg_index(t[1])->0].0->0 <= i64::MAX
        } else {
            reg_index(t[1]) is None ==> access_ok(t[1], g)
        },
        None => match m.get_val(t[1]) {
            Some(_) => if g.len() == 0 {
                &&& reg_index(t[1]) is Some
                &&& canon_name(reg_index(t[1])->0) == t[1]
                &&& reg_index(t[2]) is Some
            } else {
                access_ok(t[2], g)
            },
            None => access_ok(t[1], g) && access_ok(t[2], g),
        },
    }
}

/// `mov`, `movzx` (and `add`): a constant moved into a followed register is
/// recorded and the instruction dropped; a register copied into another one
/// is recorded; otherwise the instruction is written with the known values.
pub open spec fn spec_memory_action(m: TrackerModel, t: Seq<Seq<char>>, g: Seq<char>) -> (TrackerModel, Option<Seq<char>>) {
    match m.get_val(t[2]) {
        Some(val) => if t[0] == "add"@ {
            if reg_index(t[1]) is Some && m.regs()[reg_index(t[1])->0].0 is Some {
                (m.set_val(t[1], Some((val + m.regs()[reg_index(t[1])->0].0->0) as i64)), Some(seq![]))
            } else {
                (m, Some("add "@ + t[1] + ", "@ + digits(val)))
            }
        } else {
            if reg_index(t[1]) is Some {
                (m.set_val(t[1], Some(val)), Some(seq![]))
            } else if spec_parse_i64(t[2]) is Some {
                (m, Some(t[0] + " "@ + spec_memory_access(m, t[1], g) + ", "@ + digits(val)))
            } else {
                (
                    m,
                    Some(m.put_in_asm(t[2]) + "\n"@ + t[0] + " "@ + spec_memory_access(m, t[1], g) + ", "@ + t[2]),
                )
            }
        },
        None => match m.get_val(t[1]) {
            Some(_) => if g.len() == 0 {
                let m1 = if t[0] != "add"@ { m.set_val(t[1], Some(0)) } else { m };
                (m1.with_regs(spec_set_static(m1.regs(), t[1], t[2])), Some(seq![]))
            } else {
                let res = if t[0] == "add"@ {
                    m.put_in_asm(t[1]) + "\n"@ + t[0] + " "@ + t[1] + ", "@ + spec_memory_access(m, t[2], g)
                } else {
                    t[0] + " "@ + t[1] + ", "@ + spec_memory_access(m, t[2], g)
                };
                (m.set_val(t[1], None), Some(res))
            },
            None => (m, Some(t[0] + " "@ + spec_memory_access(m, t[1], g) + ", "@ + spec_memory_access(m, t[2], g))),
        },
    }
}

/// `mul` can be read without failing.
pub open spec fn mul_ok(m: TrackerModel, t: Seq<Seq<char>>) -> bool {
    &&& t.len() >= 2
    &&& (m.get_val("rax"@) is Some && reg_index(t[1]) is Some && m.regs()[reg_index(t[1])->0].0 is Some)
        ==> i64::MIN <= m.get_val("rax"@)->0 * m.regs()[reg_index(t[1])->0].0->0 <= i64::MAX
}

/// `mul`: with both factors known, `rax` gets the product.
pub open spec fn spec_mul(m: TrackerModel, t: Seq<Seq<char>>) -> (TrackerModel, Option<Seq<char>>) {
    match m.get_val("rax"@) {
        Some(a) => if reg_index(t[1]) is Some && m.regs()[reg_index(t[1])->0].0 is Some {
            (m.set_val("rax"@, Some((a * m.regs()[reg_index(t[1])->0].0->0) as i64)), Some(seq![]))
        } else {
            (m, Some(m.put_in_asm("rax"@) + "\nmul "@ + t[1]))
        },
        None => if m.get_val(t[1]) is Some {
            (m, Some(m.put_in_asm(t[1]) + "\nmul "@ + t[1]))
        } else {
            (m, None)
        },
    }
}

/// `cmp`: with both sides known, the comparison is kept for the jump that
/// follows; with one known, it is written out.
pub open spec fn spec_compare(m: TrackerModel, t: Seq<Seq<char>>) -> (TrackerModel, Option<Seq<char>>) {
    match (m.get_val(t[1]), m.get_val(t[2])) {
        (Some(a), Some(b)) => (m.with_comparison(Some((a, b))), Some(seq![])),
        (Some(a), None) => (m.with_comparison(None), Some("cmp "@ + digits(a) + ", "@ + t[2])),
        (None, Some(b)) => (m.with_comparison(None), Some("cmp "@ + t[1] + ", "@ + digits(b))),
        (None, None) => (m, None),
    }
}

/// `push`: the stack keeps what is known of the value.
pub open spec fn spec_push(m: TrackerModel, t: Seq<Seq<char>>) -> (TrackerModel, Option<Seq<char>>) {
    (
        m.with_stack(m.stack.push(m.get_val(t[1]))),
        if m.get_val(t[1]) is Some { Some(seq![]) } else { None },
    )
}

/// `pop`: the register gets what is known of the value on top.
pub open spec fn spec_pop(m: TrackerModel, t: Seq<Seq<char>>) -> (TrackerModel, Option<Seq<char>>) {
    let m1 = m.with_stack(m.stack.drop_last());
    match m.stack.last() {
        Some(v) => (m1.set_val(t[1], Some(v)), Some(seq![])),
        None => (m1.set_val(t[1], None), None),
    }
}

/// `xor` (of a register with itself): the register holds zero.
pub open spec fn spec_xor(m: TrackerModel, t: Seq<Seq<char>>) -> (TrackerModel, Option<Seq<char>>) {
    (m.set_val(t[1], Some(0)), Some(seq![]))
}

/// A conditional jump can be read without failing.
pub open spec fn cond_ok(m: TrackerModel, t: Seq<Seq<char>>) -> bool {
    match m.last_comparison {
        Some((a, b)) => {
            &&& t[0] == "jg"@ || t[0] == "je"@
            &&& (if t[0] == "jg"@ { a > b } else { a == b }) ==> t.len() >= 2
        },
        None => true,
    }
}

/// `jg` and `je` after a known comparison: a jump taken becomes `jmp` (and
/// the tracker forgets its values), a jump not taken is dropped.
pub open spec fn spec_cond(m: TrackerModel, t: Seq<Seq<char>>) -> (TrackerModel, Option<Seq<char>>) {
    match m.last_comparison {
        None => (m, None),
        Some((a, b)) => if (if t[0] == "jg"@ { a > b } else { a == b }) {
            (m.with_regs(spec_reset(m.regs())), Some("jmp "@ + t[1]))
        } else {
            (m, Some(seq![]))
        },
    }
}

/// `func`: a new zone for the function, entered with `r15` unknown.
pub open spec fn spec_func(m: TrackerModel, t: Seq<Seq<char>>) -> (TrackerModel, Option<Seq<char>>) {
    let m1 = m.with_zones(m.zones.insert(t[1], (fresh_regs(), seq![])), t[1], m.nb_ret);
    (m1.set_val("r15"@, None), None)
}

/// `call` can be read without failing.
pub open spec fn call_ok(m: TrackerModel, t: Seq<Seq<char>>) -> bool {
    &&& t.len() >= 2
    &&& t[1] == "_operation"@ ==> {
        &&& m.get_val("r12"@) is Some
        &&& (m.get_val("r11"@) is Some && m.get_val("r10"@) is Some) ==> spec_operation(
            m.get_val("r10"@)->0,
            m.get_val("r11"@)->0,
            (m.get_val("r12"@)->0) as u8,
        ) is Some
    }
    &&& t[1] != "_operation"@ ==> m.zones.contains_key(t[1])
}

/// `call`: the operation routine on known operands is computed into `rax`;
/// another call makes `global` the registers of the function called.
pub open spec fn spec_call(m: TrackerModel, t: Seq<Seq<char>>) -> (TrackerModel, Option<Seq<char>>) {
    if t[1] == "_operation"@ {
        match (m.get_val("r11"@), m.get_val("r10"@)) {
            (Some(a), Some(b)) => (
                m.set_val("rax"@, Some(spec_operation(b, a, (m.get_val("r12"@)->0) as u8)->0)),
                Some("call "@ + t[1]),
            ),
            (None, None) => (
                m.set_val("rax"@, None),
                Some(m.put_in_asm("r12"@) + "\n"@ + "call "@ + t[1]),
            ),
            _ => (
                m.set_val("rax"@, None),
                Some(m.put_in_asm("r11"@) + "\n"@ + m.put_in_asm("r12"@) + "\n"@ + "call "@ + t[1]),
            ),
        }
    } else {
        let m1 = m.with_zones(m.zones.insert("global"@, m.zones[t[1]]), m.current, m.nb_ret);
        match m.get_val("r15"@) {
            Some(v) => (m1.set_val("r15"@, Some(0)), Some("mov r15, "@ + digits(v) + "\n"@ + "call "@ + t[1])),
            None => (m1, Some("call "@ + t[1])),
        }
    }
}

/// `ret`: with `rax` known, `rbx` is written out before it.
pub open spec fn spec_ret(m: TrackerModel) -> (TrackerModel, Option<Seq<char>>) {
    (
        m.with_zones(m.zones, m.current, (m.nb_ret + 1) as u32),
        if m.get_val("rax"@) is Some { Some(m.put_in_asm("rbx"@) + "\nret"@) } else { None },
    )
}

/// `end_func`: back to `global`; a function with several `ret` leaves its
/// registers unknown.
pub open spec fn spec_end_func(m: TrackerModel) -> (TrackerModel, Option<Seq<char>>) {
    let m1 = if m.nb_ret > 1 { m.with_regs(spec_reset(m.regs())) } else { m };
    (m1.with_zones(m1.zones, "global"@, 0), None)
}

/// `_deref`: a known `rbx` is forgotten and written out.
pub open spec fn spec_deref(m: TrackerModel, t: Seq<Seq<char>>) -> (TrackerModel, Option<Seq<char>>) {
    match m.get_val("rbx"@) {
        Some(_) => {
            let m1 = m.set_val("rbx"@, None);
            (m1, Some(m1.put_in_asm("rbx"@) + "\n_deref "@ + t[1]))
        },
        None => (m, None),
    }
}

/// `macro_call` can be read without failing: one argument, or `_deref`.
pub open spec fn macro_call_ok(t: Seq<Seq<char>>) -> bool {
    &&& t.len() >= 2
    &&& t[1] != "_deref"@ ==> (t.len() == 4 || t.len() == 5) && access_ok(t[3], t[2])
}

/// `macro_call`: the macro and its argument written with the known values.
pub open spec fn spec_macro_call(m: TrackerModel, t: Seq<Seq<char>>) -> (TrackerModel, Option<Seq<char>>) {
    if t[1] == "_deref"@ {
        spec_deref(m, t)
    } else {
        (m, Some(t[1] + " "@ + spec_memory_access(m, t[3], t[2]) + "\n"@))
    }
}

/// The instruction `t` (with the memory size part `g`) can be read without
/// failing.
pub open spec fn handler_ok(m: TrackerModel, t: Seq<Seq<char>>, g: Seq<char>) -> bool {
    let k = t[0];
    if k == "pop"@ {
        t.len() >= 2 && m.stack.len() > 0
    } else if k == "push"@ || k == "xor"@ || k == "func"@ {
        t.len() >= 2
    } else if k == "mov"@ || k == "movzx"@ {
        memory_action_ok(m, t, g)
    } else if k == "mul"@ {
        mul_ok(m, t)
    } else if k == "cmp"@ {
        t.len() >= 3
    } else if k == "jg"@ || k == "je"@ {
        cond_ok(m, t)
    } else if k == "call"@ {
        call_ok(m, t)
    } else if k == "ret"@ {
        m.nb_ret < u32::MAX
    } else if k == "jmp"@ || k == "end_func"@ {
        true
    } else if k == "_deref"@ {
        m.get_val("rbx"@) is Some ==> t.len() >= 2
    } else if k == "macro_call"@ {
        macro_call_ok(t) && (t[1] == "_deref"@ ==> (m.get_val("rbx"@) is Some ==> t.len() >= 2))
    } else {
        false
    }
}

/// The state after the instruction `t`, and the text that replaces it
/// (`None`: the instruction stays as it is).
pub open spec fn spec_handler(m: TrackerModel, t: Seq<Seq<char>>, g: Seq<char>) -> (TrackerModel, Option<Seq<char>>) {
    let k = t[0];
    if k == "pop"@ {
        spec_pop(m, t)
    } else if k == "push"@ {
        spec_push(m, t)
    } else if k == "xor"@ {
        spec_xor(m, t)
    } else if k == "func"@ {
        spec_func(m, t)
    } else if k == "mov"@ || k == "movzx"@ {
        spec_memory_action(m, t, g)
    } else if k == "mul"@ {
        spec_mul(m, t)
    } else if k == "cmp"@ {
        spec_compare(m, t)
    } else if k == "jg"@ || k == "je"@ {
        spec_cond(m, t)
    } else if k == "call"@ {
        spec_call(m, t)
    } else if k == "ret"@ {
        spec_ret(m)
    } else if k == "jmp"@ {
        (m, None)
    } else if k == "end_func"@ {
        spec_end_func(m)
    } else if k == "_deref"@ {
        spec_deref(m, t)
    } else if k == "macro_call"@ {
        spec_macro_call(m, t)
    } else {
        (m, None)
    }
}

/// A piece whose last character can be cut off as one byte.
pub open spec fn cuttable(p: Seq<char>) -> bool {
    p.len() > 0 && (p.last() as u32) < 0x80
}

/// The instruction can be cut in tokens without failing.
pub open spec fn tokenise_ok(inst: Seq<char>) -> bool {
    let p = spec_split(inst, " "@);
    if p.len() == 4 {
        if inst.last() == ']' { cuttable(p[1]) } else { cuttable(p[2]) }
    } else if p.len() == 3 {
        cuttable(p[1])
    } else {
        true
    }
}

/// An instruction cut in tokens (the mnemonic and its operands, the comma
/// dropped) and the size part of a memory operand (`qword [rbp+r15`).
pub open spec fn spec_tokenise(inst: Seq<char>) -> (Seq<Seq<char>>, Seq<char>) {
    let p = spec_split(inst, " "@);
    if p.len() == 4 {
        if inst.last() == ']' {
            (seq![p[0], p[1].drop_last(), p[3]], p[2])
        } else {
            (seq![p[0], p[2].drop_last(), p[3]], p[1])
        }
    } else if p.len() == 3 {
        (seq![p[0], p[1].drop_last(), p[2]], seq![])
    } else {
        (p, seq![])
    }
}

/// `new_inst` can read `inst` without failing.
pub open spec fn new_inst_ok(m: TrackerModel, inst: Seq<char>) -> bool {
    &&& tokenise_ok(inst)
    &&& spec_tokenise(inst).0[0].len() > 0
    &&& spec_tokenise(inst).0[0].last() != ':' ==> handler_ok(m, spec_tokenise(inst).0, spec_tokenise(inst).1)
}

/// The state after the instruction `inst`, and the text emitted for it: the
/// pending text of the zone, then the instruction rewritten (a label stays).
pub open spec fn spec_new_inst(m: TrackerModel, inst: Seq<char>) -> (TrackerModel, Seq<char>) {
    let (t, g) = spec_tokenise(inst);
    let (m1, r) = if t[0].last() != ':' {
        let (m1, o) = spec_handler(m, t, g);
        (m1, match o { Some(x) => x, None => inst })
    } else {
        (m, inst)
    };
    (
        m1.with_zones(m1.zones.insert(m1.current, (m1.regs(), seq![])), m1.current, m1.nb_ret),
        m1.zones[m1.current].1 + r,
    )
}

/// Where a name stands in a list of names.
pub open spec fn zone_pos(names: Seq<Seq<char>>, k: Seq<char>) -> int {
    choose|i: int| 0 <= i < names.len() && names[i] == k
}

/// The zones of a list of names and a list of zones of the same length.
pub open spec fn zones_map<V>(names: Seq<Seq<char>>, zv: Seq<V>) -> Map<Seq<char>, V> {
    Map::new(|k: Seq<char>| names.contains(k), |k: Seq<char>| zv[zone_pos(names, k)])
}

/// The zone of a name that occurs once.
pub proof fn lemma_zone_pos(names: Seq<Seq<char>>, i: int)
    requires
        names.no_duplicates(),
        0 <= i < names.len(),
    ensures
        zone_pos(names, names[i]) == i,
{
    let k = names[i];
    assert(0 <= i < names.len() && names[i] == k);
    assert(exists|j: int| 0 <= j < names.len() && #[trigger] names[j] == k);
    let c = zone_pos(names, k);
    assert(0 <= c < names.len() && names[c] == k);
    if c != i {
        assert(names[c] != names[i]);
    }
}

/// Reading a zone of the map.
pub proof fn lemma_zones_get<V>(names: Seq<Seq<char>>, zv: Seq<V>, i: int)
    requires
        names.no_duplicates(),
        names.len() == zv.len(),
        0 <= i < names.len(),
    ensures
        zones_map(names, zv).contains_key(names[i]),
        zones_map(names, zv)[names[i]] == zv[i],
{
    lemma_zone_pos(names, i);
    assert(names.contains(names[i]));
}

/// Replacing a zone of the list replaces it in the map.
pub proof fn lemma_zones_update<V>(names: Seq<Seq<char>>, zv: Seq<V>, i: int, z: V)
    requires
        names.no_duplicates(),
        names.len() == zv.len(),
        0 <= i < names.len(),
    ensures
        zones_map(names, zv.update(i, z)) == zones_map(names, zv).insert(names[i], z),
{
    let a = zones_map(names, zv.update(i, z));
    let b = zones_map(names, zv).insert(names[i], z);
    assert forall|k: Seq<char>| a.contains_key(k) == b.contains_key(k) by {
        assert(names.contains(names[i]));
    }
    assert forall|k: Seq<char>| #[trigger] a.contains_key(k) implies a[k] == b[k] by {
        let j = choose|j: int| 0 <= j < names.len() && names[j] == k;
        lemma_zone_pos(names, j);
    }
    assert(a =~= b);
}

/// Adding a new name and its zone adds it to the map.
pub proof fn lemma_zones_push<V>(names: Seq<Seq<char>>, zv: Seq<V>, n: Seq<char>, z: V)
    requires
        names.no_duplicates(),
        names.len() == zv.len(),
        !names.contains(n),
    ensures
        names.push(n).no_duplicates(),
        zones_map(names.push(n), zv.push(z)) == zones_map(names, zv).insert(n, z),
{
    let np = names.push(n);
    assert forall|i: int, j: int| 0 <= i < np.len() && 0 <= j < np.len() && i != j implies np[i] != np[j] by {
        if i < names.len() && j < names.len() {
        } else if i == names.len() {
            assert(np[j] == names[j]);
        } else {
            assert(np[i] == names[i]);
        }
    }
    let a = zones_map(np, zv.push(z));
    let b = zones_map(names, zv).insert(n, z);
    assert forall|k: Seq<char>| a.contains_key(k) == b.contains_key(k) by {
        if names.contains(k) {
            let j = choose|j: int| 0 <= j < names.len() && names[j] == k;
            assert(np[j] == k);
        }
        if np.contains(k) && k != n {
            let j = choose|j: int| 0 <= j < np.len() && np[j] == k;
            assert(names[j] == k);
        }
        assert(np[names.len() as int] == n);
    }
    assert forall|k: Seq<char>| #[trigger] a.contains_key(k) implies a[k] == b[k] by {
        let j = choose|j: int| 0 <= j < np.len() && np[j] == k;
        lemma_zone_pos(np, j);
        if j < names.len() {
            assert(names[j] == k);
            lemma_zone_pos(names, j);
        }
    }
    assert(a =~= b);
}

/// The assembly tracker.
pub struct Tracker {
    names: Vec<String>,
    registers_map: Vec<RegistersData>,
    current_register_zone: usize,
    stack: Stack<Option<i64>>,
    last_comparison: Option<(i64, i64)>,
    nb_ret: u32,
}

/// The pending text and registers of a list of zones.
pub open spec fn zone_views(zs: Seq<RegistersData>) -> Seq<ZoneView> {
    zs.map_values(|z: RegistersData| (z.view(), z.txt@))
}

/// An optional text by its characters.
pub open spec fn opt_view(o: Option<String>) -> Option<Seq<char>> {
    match o {
        Some(s) => Some(s@),
        None => None,
    }
}

impl View for Tracker {
    type V = TrackerModel;

    closed spec fn view(&self) -> TrackerModel {
        TrackerModel {
            zones: zones_map(views(self.names@), zone_views(self.registers_map@)),
            current: self.names@[self.current_register_zone as int]@,
            stack: self.stack@,
            last_comparison: self.last_comparison,
            nb_ret: self.nb_ret,
        }
    }
}

impl Tracker {
    /// The zones are listed once each, `global` first, and the current zone is
    /// one of them.
    pub closed spec fn inv(&self) -> bool {
        &&& self.names@.len() == self.registers_map@.len()
        &&& self.names@.len() > 0
        &&& self.names@[0]@ == "global"@
        &&& views(self.names@).no_duplicates()
        &&& self.current_register_zone < self.names@.len()
        &&& forall|i: int| 0 <= i < self.registers_map@.len() ==> #[trigger] self.registers_map@[i].wf()
    }

    /// The invariant gives a well-formed state.
    proof fn lemma_inv_wf(&self)
        requires
            self.inv(),
        ensures
            self@.wf(),
            self@.regs() == self.registers_map@[self.current_register_zone as int].view(),
            self@.zones[self@.current].1 == self.registers_map@[self.current_register_zone as int].txt@,
    {
        let n = views(self.names@);
        let zv = zone_views(self.registers_map@);
        lemma_zones_get(n, zv, 0);
        lemma_zones_get(n, zv, self.current_register_zone as int);
        assert forall|k: Seq<char>| #[trigger] self@.zones.contains_key(k) implies self@.zones[k].0.len() == NB_REGS by {
            let j = choose|j: int| 0 <= j < n.len() && n[j] == k;
            lemma_zones_get(n, zv, j);
            assert(self.registers_map@[j].wf());
        }
    }

    /// A tracker in the zone `global`, all registers holding zero.
    pub fn new() -> (r: Tracker)
        ensures
            r.inv(),
            r@.zones == Map::<Seq<char>, ZoneView>::empty().insert("global"@, (fresh_regs(), seq![])),
            r@.current == "global"@,
            r@.stack == Seq::<Option<i64>>::empty(),
            r@.last_comparison is None,
            r@.nb_ret == 0,
    {
        let mut names: Vec<String> = Vec::new();
        names.push(copy_str("global"));
        let mut registers_map: Vec<RegistersData> = Vec::new();
        registers_map.push(RegistersData::new());
        let r = Tracker {
            names,
            registers_map,
            current_register_zone: 0,
            stack: Stack::new(),
            last_comparison: None,
            nb_ret: 0,
        };
        proof {
            let n = views(r.names@);
            let zv = zone_views(r.registers_map@);
            assert(n.len() == 1);
            lemma_zones_get(n, zv, 0);
            assert(zv[0] == (fresh_regs(), Seq::<char>::empty()));
            assert forall|k: Seq<char>| r@.zones.contains_key(k) == (k == "global"@) by {
                if r@.zones.contains_key(k) {
                    let j = choose|j: int| 0 <= j < n.len() && n[j] == k;
                    assert(j == 0);
                }
            }
            assert(r@.zones =~= Map::<Seq<char>, ZoneView>::empty().insert("global"@, (fresh_regs(), seq![])));
        }
        r
    }
}


impl Tracker {
    /// Where the zone `name` stands.
    fn find_zone(&self, name: &str) -> (r: Option<usize>)
        requires
            self.inv(),
        ensures
            match r {
                Some(i) => i < self.names@.len() && self.names@[i as int]@ == name@,
                None => !views(self.names@).contains(name@),
            },
    {
        let mut i: usize = 0;
        while i < self.names.len()
            invariant
                0 <= i <= self.names@.len(),
                forall|j: int| 0 <= j < i ==> self.names@[j]@ != name@,
            decreases self.names.len() - i,
        {
            if str_eq(self.names[i].as_str(), name) {
                return Some(i);
            }
            i = i + 1;
        }
        proof {
            if views(self.names@).contains(name@) {
                let j = choose|j: int| 0 <= j < views(self.names@).len() && views(self.names@)[j] == name@;
                assert(self.names@[j]@ == name@);
            }
        }
        None
    }

    /// The value of `reg` in the current zone.
    fn get_val(&self, reg: &str) -> (r: Option<i64>)
        requires
            self.inv(),
        ensures
            r == self@.get_val(reg@),
    {
        proof {
            self.lemma_inv_wf();
        }
        self.registers_map[self.current_register_zone].get_val(reg)
    }

    /// The assembly that materialises `reg` in the current zone.
    fn put_in_asm(&self, reg: &str) -> (r: String)
        requires
            self.inv(),
        ensures
            r@ == self@.put_in_asm(reg@),
    {
        proof {
            self.lemma_inv_wf();
        }
        self.registers_map[self.current_register_zone].put_in_asm(reg)
    }

    /// Sets `reg` in the current zone.
    fn set_val(&mut self, reg: &str, val: Option<i64>) -> (r: bool)
        requires
            old(self).inv(),
        ensures
            final(self).inv(),
            final(self)@ == old(self)@.set_val(reg@, val),
            r == (reg_index(reg@) is Some),
    {
        proof {
            self.lemma_inv_wf();
        }
        let cur = self.current_register_zone;
        let ghost zv = zone_views(self.registers_map@);
        let r = self.registers_map[cur].set_val(reg, val);
        proof {
            let z = (self.registers_map@[cur as int].view(), self.registers_map@[cur as int].txt@);
            assert(zone_views(self.registers_map@) =~= zv.update(cur as int, z));
            lemma_zones_update(views(self.names@), zv, cur as int, z);
        }
        r
    }
}


impl Tracker {
    /// Records in the current zone that `r1` was copied from `r2`.
    fn set_static_reg(&mut self, r1: &str, r2: &str)
        requires
            old(self).inv(),
            reg_index(r1@) is Some,
            canon_name(reg_index(r1@)->0) == r1@,
            reg_index(r2@) is Some,
        ensures
            final(self).inv(),
            final(self)@ == old(self)@.with_regs(spec_set_static(old(self)@.regs(), r1@, r2@)),
    {
        proof {
            self.lemma_inv_wf();
        }
        let cur = self.current_register_zone;
        let ghost zv = zone_views(self.registers_map@);
        self.registers_map[cur].set_static_reg(r1, r2);
        proof {
            let z = (self.registers_map@[cur as int].view(), self.registers_map@[cur as int].txt@);
            assert(zone_views(self.registers_map@) =~= zv.update(cur as int, z));
            lemma_zones_update(views(self.names@), zv, cur as int, z);
        }
    }

    /// The current zone forgets `rax`, `rbx`, `rdx` and `r15`.
    fn reset_current(&mut self)
        requires
            old(self).inv(),
        ensures
            final(self).inv(),
            final(self)@ == old(self)@.with_regs(spec_reset(old(self)@.regs())),
    {
        proof {
            self.lemma_inv_wf();
        }
        let cur = self.current_register_zone;
        let ghost zv = zone_views(self.registers_map@);
        self.registers_map[cur].reset();
        proof {
            let z = (self.registers_map@[cur as int].view(), self.registers_map@[cur as int].txt@);
            assert(zone_views(self.registers_map@) =~= zv.update(cur as int, z));
            lemma_zones_update(views(self.names@), zv, cur as int, z);
        }
    }

    /// Adds `val` to a followed register of known value in the current zone.
    fn add_val(&mut self, reg: &str, val: i64) -> (r: bool)
        requires
            old(self).inv(),
            (reg_index(reg@) is Some && old(self)@.regs()[reg_index(reg@)->0].0 is Some) ==> i64::MIN <= val
                + old(self)@.regs()[reg_index(reg@)->0].0->0 <= i64::MAX,
        ensures
            final(self).inv(),
            r == (reg_index(reg@) is Some && old(self)@.regs()[reg_index(reg@)->0].0 is Some),
            r ==> final(self)@ == old(self)@.set_val(
                reg@,
                Some((val + old(self)@.regs()[reg_index(reg@)->0].0->0) as i64),
            ),
            !r ==> final(self)@ == old(self)@,
    {
        proof {
            self.lemma_inv_wf();
            crate::compiler::hammer::registers::lemma_register_not_number(reg@);
        }
        let cur = self.current_register_zone;
        let ghost zv = zone_views(self.registers_map@);
        let r = self.registers_map[cur].add_val(reg, val);
        proof {
            let z = (self.registers_map@[cur as int].view(), self.registers_map@[cur as int].txt@);
            assert(zone_views(self.registers_map@) =~= zv.update(cur as int, z));
            lemma_zones_update(views(self.names@), zv, cur as int, z);
            if !r {
                assert(zv.update(cur as int, z) =~= zv);
                assert(self@.zones =~= old(self)@.zones);
            }
        }
        r
    }

    /// Puts in `rax` the product of `a` and the known value of `reg`.
    fn mul_val(&mut self, reg: &str, a: i64) -> (r: bool)
        requires
            old(self).inv(),
            (reg_index(reg@) is Some && old(self)@.regs()[reg_index(reg@)->0].0 is Some) ==> i64::MIN <= a
                * old(self)@.regs()[reg_index(reg@)->0].0->0 <= i64::MAX,
        ensures
            final(self).inv(),
            r == (reg_index(reg@) is Some && old(self)@.regs()[reg_index(reg@)->0].0 is Some),
            r ==> final(self)@ == old(self)@.set_val(
                "rax"@,
                Some((a * old(self)@.regs()[reg_index(reg@)->0].0->0) as i64),
            ),
            !r ==> final(self)@ == old(self)@,
    {
        proof {
            self.lemma_inv_wf();
            crate::compiler::hammer::registers::lemma_register_not_number(reg@);
        }
        let cur = self.current_register_zone;
        let ghost zv = zone_views(self.registers_map@);
        let r = self.registers_map[cur].mul_val(reg, a);
        proof {
            let z = (self.registers_map@[cur as int].view(), self.registers_map@[cur as int].txt@);
            assert(zone_views(self.registers_map@) =~= zv.update(cur as int, z));
            lemma_zones_update(views(self.names@), zv, cur as int, z);
            if !r {
                assert(zv.update(cur as int, z) =~= zv);
                assert(self@.zones =~= old(self)@.zones);
            }
        }
        r
    }

    /// The size and base part of a memory operand, with a known `r15`
    /// replaced by its value.
    fn garbage_analyse(&self, garbage: &str) -> (r: String)
        requires
            self.inv(),
            garbage_ok(garbage@),
        ensures
            r@ == spec_garbage_analyse(self@, garbage@),
    {
        proof {
            reveal_strlit("+");
        }
        let mut res = split_str(garbage, "+");
        if str_eq(res[1].as_str(), "r15") {
            match self.get_val("r15") {
                Some(v) => {
                    let ghost before = views(res@);
                    res.set(1, int_to_string(v as i128));
                    assert(views(res@) =~= before.update(1, digits(v)));
                },
                None => {},
            }
        }
        join_str(&res, "+")
    }

    /// An operand written with what the tracker knows.
    fn get_memory_access(&self, spot: &str, garbage: &str) -> (r: String)
        requires
            self.inv(),
            access_ok(spot@, garbage@),
        ensures
            r@ == spec_memory_access(self@, spot@, garbage@),
    {
        if last_char(spot) == ']' {
            let inner = drop_last_char(spot);
            let mut res = self.garbage_analyse(garbage);
            push_str(&mut res, " ");
            match self.get_val(inner.as_str()) {
                Some(v) => {
                    push_int(&mut res, v as i128);
                    push_str(&mut res, "]");
                },
                None => {
                    push_str(&mut res, spot);
                },
            }
            res
        } else {
            match self.get_val(spot) {
                Some(v) => int_to_string(v as i128),
                None => copy_str(spot),
            }
        }
    }
}


impl Tracker {
    /// `mov`, `movzx` and `add`.
    fn memory_action(&mut self, t: &Vec<String>, g: &str) -> (r: Option<String>)
        requires
            old(self).inv(),
            memory_action_ok(old(self)@, views(t@), g@),
        ensures
            final(self).inv(),
            (final(self)@, opt_view(r)) == spec_memory_action(old(self)@, views(t@), g@),
    {
        proof {
            self.lemma_inv_wf();
        }
        let ghost m = self@;
        let ghost tv = views(t@);
        let t0 = t[0].as_str();
        let t1 = t[1].as_str();
        let t2 = t[2].as_str();
        assert(tv[0] == t0@ && tv[1] == t1@ && tv[2] == t2@);
        match self.get_val(t2) {
            Some(val) => {
                if str_eq(t0, "add") {
                    if !self.add_val(t1, val) {
                        let mut s = copy_str("add ");
                        push_str(&mut s, t1);
                        push_str(&mut s, ", ");
                        push_int(&mut s, val as i128);
                        return Some(s);
                    }
                } else {
                    if !self.set_val(t1, Some(val)) {
                        proof {
                            assert(self@.zones =~= m.zones);
                        }
                        match parse_i64(t2) {
                            Some(_) => {
                                let mut s = copy_str(t0);
                                push_str(&mut s, " ");
                                let a = self.get_memory_access(t1, g);
                                push_str(&mut s, a.as_str());
                                push_str(&mut s, ", ");
                                push_int(&mut s, val as i128);
                                return Some(s);
                            },
                            None => {
                                let mut s = self.put_in_asm(t2);
                                push_str(&mut s, "\n");
                                push_str(&mut s, t0);
                                push_str(&mut s, " ");
                                let a = self.get_memory_access(t1, g);
                                push_str(&mut s, a.as_str());
                                push_str(&mut s, ", ");
                                push_str(&mut s, t2);
                                return Some(s);
                            },
                        }
                    }
                }
                return Some(new_string());
            },
            None => {},
        }
        match self.get_val(t1) {
            Some(_) => {
                if g.unicode_len() == 0 {
                    if !str_eq(t0, "add") {
                        self.set_val(t1, Some(0));
                    }
                    self.set_static_reg(t1, t2);
                    Some(new_string())
                } else {
                    let mut s: String;
                    if str_eq(t0, "add") {
                        s = self.put_in_asm(t1);
                        push_str(&mut s, "\n");
                        push_str(&mut s, t0);
                    } else {
                        s = copy_str(t0);
                    }
                    push_str(&mut s, " ");
                    push_str(&mut s, t1);
                    push_str(&mut s, ", ");
                    let a = self.get_memory_access(t2, g);
                    push_str(&mut s, a.as_str());
                    self.set_val(t1, None);
                    Some(s)
                }
            },
            None => {
                let mut s = copy_str(t0);
                push_str(&mut s, " ");
                let a = self.get_memory_access(t1, g);
                push_str(&mut s, a.as_str());
                push_str(&mut s, ", ");
                let b = self.get_memory_access(t2, g);
                push_str(&mut s, b.as_str());
                Some(s)
            },
        }
    }

    /// `mul`.
    fn mul_inst(&mut self, t: &Vec<String>) -> (r: Option<String>)
        requires
            old(self).inv(),
            mul_ok(old(self)@, views(t@)),
        ensures
            final(self).inv(),
            (final(self)@, opt_view(r)) == spec_mul(old(self)@, views(t@)),
    {
        let t1 = t[1].as_str();
        assert(views(t@)[1] == t1@);
        match self.get_val("rax") {
            Some(a) => {
                if self.mul_val(t1, a) {
                    Some(new_string())
                } else {
                    let mut s = self.put_in_asm("rax");
                    push_str(&mut s, "\nmul ");
                    push_str(&mut s, t1);
                    Some(s)
                }
            },
            None => {
                if self.get_val(t1).is_some() {
                    let mut s = self.put_in_asm(t1);
                    push_str(&mut s, "\nmul ");
                    push_str(&mut s, t1);
                    Some(s)
                } else {
                    None
                }
            },
        }
    }

    /// `cmp`.
    fn compare_inst(&mut self, t: &Vec<String>) -> (r: Option<String>)
        requires
            old(self).inv(),
            t@.len() >= 3,
        ensures
            final(self).inv(),
            (final(self)@, opt_view(r)) == spec_compare(old(self)@, views(t@)),
    {
        let t1 = t[1].as_str();
        let t2 = t[2].as_str();
        assert(views(t@)[1] == t1@ && views(t@)[2] == t2@);
        match self.get_val(t1) {
            Some(a) => match self.get_val(t2) {
                Some(b) => {
                    self.last_comparison = Some((a, b));
                    Some(new_string())
                },
                None => {
                    let mut s = copy_str("cmp ");
                    push_int(&mut s, a as i128);
                    push_str(&mut s, ", ");
                    push_str(&mut s, t2);
                    self.last_comparison = None;
                    Some(s)
                },
            },
            None => match self.get_val(t2) {
                Some(b) => {
                    let mut s = copy_str("cmp ");
                    push_str(&mut s, t1);
                    push_str(&mut s, ", ");
                    push_int(&mut s, b as i128);
                    self.last_comparison = None;
                    Some(s)
                },
                None => None,
            },
        }
    }

    /// `push`.
    fn push_inst(&mut self, t: &Vec<String>) -> (r: Option<String>)
        requires
            old(self).inv(),
            t@.len() >= 2,
        ensures
            final(self).inv(),
            (final(self)@, opt_view(r)) == spec_push(old(self)@, views(t@)),
    {
        let t1 = t[1].as_str();
        assert(views(t@)[1] == t1@);
        let v = self.get_val(t1);
        self.stack.push(v);
        match v {
            Some(_) => Some(new_string()),
            None => None,
        }
    }

    /// `pop`.
    fn pop_inst(&mut self, t: &Vec<String>) -> (r: Option<String>)
        requires
            old(self).inv(),
            t@.len() >= 2,
            old(self)@.stack.len() > 0,
        ensures
            final(self).inv(),
            (final(self)@, opt_view(r)) == spec_pop(old(self)@, views(t@)),
    {
        let t1 = t[1].as_str();
        assert(views(t@)[1] == t1@);
        let last_insert = self.stack.pop();
        match last_insert {
            Some(v) => {
                self.set_val(t1, Some(v));
                Some(new_string())
            },
            None => {
                self.set_val(t1, None);
                None
            },
        }
    }

    /// `xor`.
    fn xor_inst(&mut self, t: &Vec<String>) -> (r: Option<String>)
        requires
            old(self).inv(),
            t@.len() >= 2,
        ensures
            final(self).inv(),
            (final(self)@, opt_view(r)) == spec_xor(old(self)@, views(t@)),
    {
        let t1 = t[1].as_str();
        assert(views(t@)[1] == t1@);
        self.set_val(t1, Some(0));
        Some(new_string())
    }

    /// `jg` and `je`.
    fn cond_inst(&mut self, t: &Vec<String>) -> (r: Option<String>)
        requires
            old(self).inv(),
            t@.len() >= 1,
            cond_ok(old(self)@, views(t@)),
        ensures
            final(self).inv(),
            (final(self)@, opt_view(r)) == spec_cond(old(self)@, views(t@)),
    {
        assert(views(t@)[0] == t@[0]@);
        match self.last_comparison {
            None => None,
            Some((a, b)) => {
                let cond = if str_eq(t[0].as_str(), "jg") {
                    a > b
                } else {
                    a == b
                };
                if cond {
                    self.reset_current();
                    assert(views(t@)[1] == t@[1]@);
                    let mut s = copy_str("jmp ");
                    push_str(&mut s, t[1].as_str());
                    Some(s)
                } else {
                    Some(new_string())
                }
            },
        }
    }

    /// `func`.
    fn func_inst(&mut self, t: &Vec<String>) -> (r: Option<String>)
        requires
            old(self).inv(),
            t@.len() >= 2,
        ensures
            final(self).inv(),
            (final(self)@, opt_view(r)) == spec_func(old(self)@, views(t@)),
    {
        let t1 = t[1].as_str();
        assert(views(t@)[1] == t1@);
        let ghost n = views(self.names@);
        let ghost zv = zone_views(self.registers_map@);
        let fresh = RegistersData::new();
        let ghost z = (fresh.view(), fresh.txt@);
        assert(z == (fresh_regs(), Seq::<char>::empty()));
        match self.find_zone(t1) {
            Some(i) => {
                self.registers_map.set(i, fresh);
                self.current_register_zone = i;
                proof {
                    assert(zone_views(self.registers_map@) =~= zv.update(i as int, z));
                    lemma_zones_update(n, zv, i as int, z);
                    if i == 0 {
                    }
                }
            },
            None => {
                self.names.push(copy_str(t1));
                self.registers_map.push(fresh);
                self.current_register_zone = self.names.len() - 1;
                proof {
                    assert(views(self.names@) =~= n.push(t1@));
                    assert(zone_views(self.registers_map@) =~= zv.push(z));
                    lemma_zones_push(n, zv, t1@, z);
                    assert(self.names@[0]@ == "global"@);
                    assert forall|i: int| 0 <= i < self.registers_map@.len() implies #[trigger] self.registers_map@[i].wf() by {
                        if i < zv.len() {
                            assert(self.registers_map@[i] == old(self).registers_map@[i]);
                        }
                    }
                }
            },
        }
        assert(self.inv());
        assert(self@.zones =~= old(self)@.zones.insert(t1@, (fresh_regs(), seq![])));
        self.set_val("r15", None);
        None
    }

    /// `call`.
    fn call_inst(&mut self, t: &Vec<String>) -> (r: Option<String>)
        requires
            old(self).inv(),
            call_ok(old(self)@, views(t@)),
        ensures
            final(self).inv(),
            (final(self)@, opt_view(r)) == spec_call(old(self)@, views(t@)),
    {
        let t1 = t[1].as_str();
        assert(views(t@)[1] == t1@);
        let r15_val = self.get_val("r15");
        if str_eq(t1, "_operation") {
            let r12 = self.get_val("r12").unwrap();
            let code = #[verifier::truncate] (r12 as u8);
            let mut res = new_string();
            match self.get_val("r11") {
                Some(r11) => match self.get_val("r10") {
                    Some(r10) => {
                        let v = operation(r10, r11, code);
                        self.set_val("rax", Some(v));
                        let mut s = copy_str("call ");
                        push_str(&mut s, t1);
                        return Some(s);
                    },
                    None => {
                        res = self.put_in_asm("r11");
                        push_str(&mut res, "\n");
                        let p = self.put_in_asm("r12");
                        push_str(&mut res, p.as_str());
                        push_str(&mut res, "\n");
                    },
                },
                None => match self.get_val("r10") {
                    Some(_) => {
                        res = self.put_in_asm("r11");
                        push_str(&mut res, "\n");
                        let p = self.put_in_asm("r12");
                        push_str(&mut res, p.as_str());
                        push_str(&mut res, "\n");
                    },
                    None => {
                        res = self.put_in_asm("r12");
                        push_str(&mut res, "\n");
                    },
                },
            }
            self.set_val("rax", None);
            push_str(&mut res, "call ");
            push_str(&mut res, t1);
            Some(res)
        } else {
            self.switch_register(t1);
            let mut res = new_string();
            match r15_val {
                Some(v) => {
                    self.set_val("r15", Some(0));
                    push_str(&mut res, "mov r15, ");
                    push_int(&mut res, v as i128);
                    push_str(&mut res, "\n");
                },
                None => {},
            }
            push_str(&mut res, "call ");
            push_str(&mut res, t1);
            Some(res)
        }
    }

    /// The zone `global` gets a copy of the registers of `func_name`.
    fn switch_register(&mut self, func_name: &str)
        requires
            old(self).inv(),
            old(self)@.zones.contains_key(func_name@),
        ensures
            final(self).inv(),
            final(self)@ == old(self)@.with_zones(
                old(self)@.zones.insert("global"@, old(self)@.zones[func_name@]),
                old(self)@.current,
                old(self)@.nb_ret,
            ),
    {
        let ghost n = views(self.names@);
        let ghost zv = zone_views(self.registers_map@);
        let i = match self.find_zone(func_name) {
            Some(i) => i,
            None => {
                proof {
                    assert(false);
                }
                0
            },
        };
        proof {
            lemma_zones_get(n, zv, i as int);
            assert(n[i as int] == func_name@);
        }
        assert(self.registers_map@[i as int].wf());
        let copy = self.registers_map[i].clone();
        let ghost z = (copy.view(), copy.txt@);
        assert(z == zv[i as int]);
        self.registers_map.set(0, copy);
        proof {
            assert(zone_views(self.registers_map@) =~= zv.update(0, z));
            lemma_zones_update(n, zv, 0, z);
            assert(self.registers_map@[0].wf());
            assert forall|j: int| 0 <= j < self.registers_map@.len() implies #[trigger] self.registers_map@[j].wf() by {
                if j != 0 {
                    assert(self.registers_map@[j] == old(self).registers_map@[j]);
                }
            }
        }
    }

    /// `ret`.
    fn ret_inst(&mut self) -> (r: Option<String>)
        requires
            old(self).inv(),
            old(self)@.nb_ret < u32::MAX,
        ensures
            final(self).inv(),
            (final(self)@, opt_view(r)) == spec_ret(old(self)@),
    {
        let res = match self.get_val("rax") {
            Some(_) => {
                let mut s = self.put_in_asm("rbx");
                push_str(&mut s, "\nret");
                Some(s)
            },
            None => None,
        };
        self.nb_ret = self.nb_ret + 1;
        res
    }

    /// `end_func`.
    fn end_func_inst(&mut self) -> (r: Option<String>)
        requires
            old(self).inv(),
        ensures
            final(self).inv(),
            (final(self)@, opt_view(r)) == spec_end_func(old(self)@),
    {
        if self.nb_ret > 1 {
            self.reset_current();
        }
        self.current_register_zone = 0;
        self.nb_ret = 0;
        None
    }

    /// `_deref`.
    fn deref(&mut self, t: &Vec<String>) -> (r: Option<String>)
        requires
            old(self).inv(),
            old(self)@.get_val("rbx"@) is Some ==> t@.len() >= 2,
        ensures
            final(self).inv(),
            (final(self)@, opt_view(r)) == spec_deref(old(self)@, views(t@)),
    {
        match self.get_val("rbx") {
            Some(_) => {
                self.set_val("rbx", None);
                assert(views(t@)[1] == t@[1]@);
                let mut s = self.put_in_asm("rbx");
                push_str(&mut s, "\n_deref ");
                push_str(&mut s, t[1].as_str());
                Some(s)
            },
            None => None,
        }
    }

    /// `macro_call`.
    fn macro_call_inst(&mut self, t: &Vec<String>) -> (r: Option<String>)
        requires
            old(self).inv(),
            macro_call_ok(views(t@)),
            views(t@)[1] == "_deref"@ ==> (old(self)@.get_val("rbx"@) is Some ==> t@.len() >= 2),
        ensures
            final(self).inv(),
            (final(self)@, opt_view(r)) == spec_macro_call(old(self)@, views(t@)),
    {
        assert(views(t@)[1] == t@[1]@);
        if str_eq(t[1].as_str(), "_deref") {
            self.deref(t)
        } else {
            assert(views(t@)[2] == t@[2]@ && views(t@)[3] == t@[3]@);
            let mut s = copy_str(t[1].as_str());
            push_str(&mut s, " ");
            let a = self.get_memory_access(t[3].as_str(), t[2].as_str());
            push_str(&mut s, a.as_str());
            push_str(&mut s, "\n");
            Some(s)
        }
    }
}


/// Cuts an assembly instruction in tokens: the mnemonic and its operands
/// (without the comma), and the size part of a memory operand.
pub fn tokenise_asm_inst(inst: &str) -> (r: (Vec<String>, String))
    requires
        tokenise_ok(inst@),
    ensures
        views(r.0@) == spec_tokenise(inst@).0,
        r.1@ == spec_tokenise(inst@).1,
{
    proof {
        reveal_strlit(" ");
        if inst@.len() == 0 {
            assert(find_from(inst@, " "@, 0) is None);
            assert(spec_split(inst@, " "@).len() == 1);
        }
    }
    let p = split_str(inst, " ");
    let n = p.len();
    assert(views(p@).len() == n);
    if n == 4 {
        assert(views(p@)[0] == p@[0]@ && views(p@)[1] == p@[1]@ && views(p@)[2] == p@[2]@ && views(p@)[3] == p@[3]@);
        let mut v: Vec<String> = Vec::new();
        v.push(copy_str(p[0].as_str()));
        if last_char(inst) == ']' {
            v.push(drop_last_char(p[1].as_str()));
            v.push(copy_str(p[3].as_str()));
            assert(views(v@) =~= spec_tokenise(inst@).0);
            (v, copy_str(p[2].as_str()))
        } else {
            v.push(drop_last_char(p[2].as_str()));
            v.push(copy_str(p[3].as_str()));
            assert(views(v@) =~= spec_tokenise(inst@).0);
            (v, copy_str(p[1].as_str()))
        }
    } else if n == 3 {
        assert(views(p@)[0] == p@[0]@ && views(p@)[1] == p@[1]@ && views(p@)[2] == p@[2]@);
        let mut v: Vec<String> = Vec::new();
        v.push(copy_str(p[0].as_str()));
        v.push(drop_last_char(p[1].as_str()));
        v.push(copy_str(p[2].as_str()));
        assert(views(v@) =~= spec_tokenise(inst@).0);
        (v, new_string())
    } else {
        (p, new_string())
    }
}

impl Tracker {
    /// Runs the handler of the instruction `t`.
    fn dispatch(&mut self, t: &Vec<String>, g: &str) -> (r: Option<String>)
        requires
            old(self).inv(),
            t@.len() >= 1,
            handler_ok(old(self)@, views(t@), g@),
        ensures
            final(self).inv(),
            (final(self)@, opt_view(r)) == spec_handler(old(self)@, views(t@), g@),
    {
        let k = t[0].as_str();
        assert(views(t@)[0] == k@);
        proof {
            reveal_strlit("pop");
            reveal_strlit("push");
            reveal_strlit("xor");
            reveal_strlit("mov");
            reveal_strlit("movzx");
            reveal_strlit("mul");
            reveal_strlit("cmp");
            reveal_strlit("jg");
            reveal_strlit("je");
            reveal_strlit("call");
            reveal_strlit("func");
            reveal_strlit("ret");
            reveal_strlit("jmp");
            reveal_strlit("end_func");
            reveal_strlit("_deref");
            reveal_strlit("macro_call");
        }
        if str_eq(k, "pop") {
            self.pop_inst(t)
        } else if str_eq(k, "push") {
            self.push_inst(t)
        } else if str_eq(k, "xor") {
            self.xor_inst(t)
        } else if str_eq(k, "func") {
            self.func_inst(t)
        } else if str_eq(k, "mov") || str_eq(k, "movzx") {
            self.memory_action(t, g)
        } else if str_eq(k, "mul") {
            self.mul_inst(t)
        } else if str_eq(k, "cmp") {
            self.compare_inst(t)
        } else if str_eq(k, "jg") || str_eq(k, "je") {
            self.cond_inst(t)
        } else if str_eq(k, "call") {
            self.call_inst(t)
        } else if str_eq(k, "ret") {
            self.ret_inst()
        } else if str_eq(k, "jmp") {
            None
        } else if str_eq(k, "end_func") {
            self.end_func_inst()
        } else if str_eq(k, "_deref") {
            self.deref(t)
        } else {
            self.macro_call_inst(t)
        }
    }

    /// Reads one assembly instruction and gives the text to emit in its place:
    /// the pending text of the zone, then the instruction as the tracker
    /// rewrites it (nothing when its effect is known), or as it is.
    pub fn new_inst(&mut self, inst: &str) -> (r: String)
        requires
            old(self).inv(),
            new_inst_ok(old(self)@, inst@),
        ensures
            final(self).inv(),
            (final(self)@, r@) == spec_new_inst(old(self)@, inst@),
    {
        proof {
            reveal_strlit(" ");
            lemma_split_nonempty(inst@, " "@);
            assert(spec_tokenise(inst@).0.len() >= 1);
        }
        let (tokens, garbage) = tokenise_asm_inst(inst);
        assert(views(tokens@)[0] == tokens@[0]@);
        let mut res = copy_str(inst);
        if last_char(tokens[0].as_str()) != ':' {
            match self.dispatch(&tokens, garbage.as_str()) {
                Some(x) => {
                    res = x;
                },
                None => {},
            }
        }
        proof {
            self.lemma_inv_wf();
        }
        let cur = self.current_register_zone;
        let mut out = copy_str(self.registers_map[cur].txt.as_str());
        push_str(&mut out, res.as_str());
        let ghost n = views(self.names@);
        let ghost zv = zone_views(self.registers_map@);
        let ghost mid_regs = self.registers_map@;
        assert(forall|j: int| 0 <= j < mid_regs.len() ==> #[trigger] mid_regs[j].wf());
        self.registers_map[cur].txt = new_string();
        proof {
            let z = (self.registers_map@[cur as int].view(), self.registers_map@[cur as int].txt@);
            assert(zone_views(self.registers_map@) =~= zv.update(cur as int, z));
            lemma_zones_update(n, zv, cur as int, z);
            assert(self.registers_map@[cur as int].wf());
            assert forall|j: int| 0 <= j < self.registers_map@.len() implies #[trigger] self.registers_map@[j].wf() by {
                if j != cur {
                    assert(self.registers_map@[j] == mid_regs[j]);
                }
            }
        }
        out
    }
}

} // verus!
