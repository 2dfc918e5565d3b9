//! The first assembly tracker: it follows the constants held by seven
//! registers and folds away the instructions whose effect it can compute.
use vstd::prelude::*;
use crate::stack::Stack;
use crate::text::{
    find_from, lemma_split_nonempty, views, spec_split, split_str, int_digits, spec_parse_i64,
    parse_i64, str_eq, copy_str, new_string, push_str, push_int, int_to_string, drop_last_char,
};
use crate::compiler::hammer::tracker::{
    zones_map, lemma_zones_get, lemma_zones_update, lemma_zones_push, opt_view, cuttable,
    tokenise_ok, spec_tokenise, tokenise_asm_inst,
};
use crate::compiler::tools::tools::{last_char, operation, spec_operation};

verus! {

/// Number of registers that this tracker follows.
pub const NB_FOLLOWED: usize = 7;

/// The index of the register that `name` designates, if it is followed:
/// `rax`, `rbx`, `rdx` (with their 32- and 16-bit names), `r15` (and
/// `r15b`), `r10`, `r11`, `r12`.
pub open spec fn followed_index(name: Seq<char>) -> Option<int> {
    if name == "rax"@ || name == "eax"@ || name == "ax"@ {
        Some(0)
    } else if name == "rbx"@ || name == "ebx"@ || name == "bx"@ {
        Some(1)
    } else if name == "rdx"@ || name == "edx"@ || name == "dx"@ {
        Some(2)
    } else if name == "r15"@ || name == "r15b"@ {
        Some(3)
    } else if name == "r10"@ {
        Some(4)
    } else if name == "r11"@ {
        Some(5)
    } else if name == "r12"@ {
        Some(6)
    } else {
        None
    }
}

/// The index of a followed register.
pub fn followed_register(name: &str) -> (r: Option<usize>)
    ensures
        match followed_index(name@) {
            Some(i) => r == Some(i as usize),
            None => r is None,
        },
{
    if str_eq(name, "rax") || str_eq(name, "eax") || str_eq(name, "ax") {
        Some(0)
    } else if str_eq(name, "rbx") || str_eq(name, "ebx") || str_eq(name, "bx") {
        Some(1)
    } else if str_eq(name, "rdx") || str_eq(name, "edx") || str_eq(name, "dx") {
        Some(2)
    } else if str_eq(name, "r15") || str_eq(name, "r15b") {
        Some(3)
    } else if str_eq(name, "r10") {
        Some(4)
    } else if str_eq(name, "r11") {
        Some(5)
    } else if str_eq(name, "r12") {
        Some(6)
    } else {
        None
    }
}

/// No followed register's name reads as a number.
pub proof fn lemma_followed_not_number(name: Seq<char>)
    ensures
        spec_parse_i64(name) is Some ==> followed_index(name) is None,
{
    crate::compiler::hammer::registers::lemma_register_not_number(name);
    reveal_strlit("rax");
    reveal_strlit("eax");
    reveal_strlit("ax");
    reveal_strlit("rbx");
    reveal_strlit("ebx");
    reveal_strlit("bx");
    reveal_strlit("rdx");
    reveal_strlit("edx");
    reveal_strlit("dx");
    reveal_strlit("r15");
    reveal_strlit("r15b");
    reveal_strlit("r10");
    reveal_strlit("r11");
    reveal_strlit("r12");
}

/// The value of `name`: what is known of a followed register, the number
/// itself for a literal, nothing otherwise.
pub open spec fn value_of(regs: Seq<Option<i64>>, name: Seq<char>) -> Option<i64> {
    match followed_index(name) {
        Some(i) => regs[i],
        None => spec_parse_i64(name),
    }
}

/// The registers after `set_val(name, val)`.
pub open spec fn with_value(regs: Seq<Option<i64>>, name: Seq<char>, val: Option<i64>) -> Seq<Option<i64>> {
    match followed_index(name) {
        Some(i) => regs.update(i, val),
        None => regs,
    }
}

/// The registers once `rax`, `rbx`, `rdx` and `r15` are forgotten.
pub open spec fn forget_values(regs: Seq<Option<i64>>) -> Seq<Option<i64>> {
    regs.update(0, None).update(1, None).update(2, None).update(3, None)
}

/// The constants held by the followed registers.
pub struct Registers {
    vals: Vec<Option<i64>>,
}

impl View for Registers {
    type V = Seq<Option<i64>>;

    closed spec fn view(&self) -> Seq<Option<i64>> {
        self.vals@
    }
}

impl Registers {
    /// All followed registers hold zero.
    pub fn new() -> (r: Registers)
        ensures
            r@ == Seq::new(NB_FOLLOWED as nat, |j: int| Some(0i64)),
    {
        let mut vals: Vec<Option<i64>> = Vec::new();
        let mut i: usize = 0;
        while i < NB_FOLLOWED
            invariant
                0 <= i <= NB_FOLLOWED,
                vals@.len() == i,
                forall|j: int| 0 <= j < i ==> #[trigger] vals@[j] == Some(0i64),
            decreases NB_FOLLOWED - i,
        {
            vals.push(Some(0));
            i = i + 1;
        }
        let r = Registers { vals };
        assert(r@ =~= Seq::new(NB_FOLLOWED as nat, |j: int| Some(0i64)));
        r
    }

    /// A copy.
    pub fn clone(&self) -> (r: Registers)
        ensures
            r@ == self@,
    {
        Registers { vals: self.vals.clone() }
    }

    /// Forgets the values of `rax`, `rbx`, `rdx` and `r15`.
    pub fn reset(&mut self)
        requires
            old(self)@.len() == NB_FOLLOWED,
        ensures
            final(self)@ == forget_values(old(self)@),
    {
        self.vals.set(0, None);
        self.vals.set(1, None);
        self.vals.set(2, None);
        self.vals.set(3, None);
    }

    /// The value of a followed register, or of the number written.
    pub fn get_val(&self, register: &str) -> (r: Option<i64>)
        requires
            self@.len() == NB_FOLLOWED,
        ensures
            r == value_of(self@, register@),
    {
        match followed_register(register) {
            Some(i) => self.vals[i],
            None => parse_i64(register),
        }
    }

    /// Sets a followed register; false when `register` is not followed.
    pub fn set_val(&mut self, register: &str, val: Option<i64>) -> (r: bool)
        requires
            old(self)@.len() == NB_FOLLOWED,
        ensures
            r == (followed_index(register@) is Some),
            final(self)@ == with_value(old(self)@, register@, val),
    {
        match followed_register(register) {
            Some(i) => {
                self.vals.set(i, val);
                true
            },
            None => false,
        }
    }

    /// Adds `val` to a followed register of known value; false (and nothing
    /// changes) otherwise.
    pub fn add_val(&mut self, register: &str, val: i64) -> (r: bool)
        requires
            old(self)@.len() == NB_FOLLOWED,
            (followed_index(register@) is Some && old(self)@[followed_index(register@)->0] is Some) ==> i64::MIN
                <= val + old(self)@[followed_index(register@)->0]->0 <= i64::MAX,
        ensures
            r == (followed_index(register@) is Some && old(self)@[followed_index(register@)->0] is Some),
            r ==> final(self)@ == with_value(
                old(self)@,
                register@,
                Some((val + old(self)@[followed_index(register@)->0]->0) as i64),
            ),
            !r ==> final(self)@ == old(self)@,
    {
        match followed_register(register) {
            Some(i) => match self.vals[i] {
                Some(p) => {
                    self.vals.set(i, Some(val + p));
                    true
                },
                None => false,
            },
            None => false,
        }
    }

    /// Multiplies a followed register of known value by `val`; false (and
    /// nothing changes) otherwise.
    pub fn mul_val(&mut self, register: &str, val: i64) -> (r: bool)
        requires
            old(self)@.len() == NB_FOLLOWED,
            (followed_index(register@) is Some && old(self)@[followed_index(register@)->0] is Some) ==> i64::MIN
                <= val * old(self)@[followed_index(register@)->0]->0 <= i64::MAX,
        ensures
            r == (followed_index(register@) is Some && old(self)@[followed_index(register@)->0] is Some),
            r ==> final(self)@ == with_value(
                old(self)@,
                register@,
                Some((val * old(self)@[followed_index(register@)->0]->0) as i64),
            ),
            !r ==> final(self)@ == old(self)@,
    {
        match followed_register(register) {
            Some(i) => match self.vals[i] {
                Some(p) => {
                    self.vals.set(i, Some(val * p));
                    true
                },
                None => false,
            },
            None => false,
        }
    }

    /// Whether `register` is followed.
    pub fn is_followed(&self, register: &str) -> (r: bool)
        ensures
            r == (followed_index(register@) is Some),
    {
        followed_register(register).is_some()
    }

    /// The same as `get_val`: the number written, or the value of a followed
    /// register.
    pub fn extract_val(&self, elt: &str) -> (r: Option<i64>)
        requires
            self@.len() == NB_FOLLOWED,
        ensures
            r == value_of(self@, elt@),
    {
        match parse_i64(elt) {
            Some(v) => {
                proof {
                    lemma_followed_not_number(elt@);
                }
                Some(v)
            },
            None => {
                if self.is_followed(elt) {
                    return self.get_val(elt);
                }
                None
            },
        }
    }
}


/// The abstract state of the tracker.
pub struct TrackerState {
    /// The registers of each zone (`global`, then one per function), by name.
    pub zones: Map<Seq<char>, Seq<Option<i64>>>,
    /// The zone being read.
    pub current: Seq<char>,
    /// What is known of the values pushed on the machine stack.
    pub stack: Seq<Option<i64>>,
    /// The two values of the last comparison, when both are known.
    pub last_comparison: Option<(i64, i64)>,
    /// The number of `ret` read in the current function.
    pub nb_ret: u32,
}

/// The decimal writing of a value.
pub open spec fn dec(v: i64) -> Seq<char> {
    int_digits(v as int)
}

impl TrackerState {
    /// `global` and the current zone exist, and every zone has its registers.
    pub open spec fn wf(self) -> bool {
        &&& self.zones.contains_key("global"@)
        &&& self.zones.contains_key(self.current)
        &&& forall|k: Seq<char>| #[trigger] self.zones.contains_key(k) ==> self.zones[k].len() == NB_FOLLOWED
    }

    /// The registers of the current zone.
    pub open spec fn regs(self) -> Seq<Option<i64>> {
        self.zones[self.current]
    }

    /// The state with the registers of the current zone replaced.
    pub open spec fn with_regs(self, r: Seq<Option<i64>>) -> TrackerState {
        TrackerState {
            zones: self.zones.insert(self.current, r),
            current: self.current,
            stack: self.stack,
            last_comparison: self.last_comparison,
            nb_ret: self.nb_ret,
        }
    }

    /// What is known of `reg` in the current zone.
    pub open spec fn get(self, reg: Seq<char>) -> Option<i64> {
        value_of(self.regs(), reg)
    }

    /// The state after `set_val(reg, val)` in the current zone.
    pub open spec fn set(self, reg: Seq<char>, val: Option<i64>) -> TrackerState {
        self.with_regs(with_value(self.regs(), reg, val))
    }

    /// The state with another stack.
    pub open spec fn with_stack(self, s: Seq<Option<i64>>) -> TrackerState {
        TrackerState {
            zones: self.zones,
            current: self.current,
            stack: s,
            last_comparison: self.last_comparison,
            nb_ret: self.nb_ret,
        }
    }

    /// The state with another last comparison.
    pub open spec fn with_comparison(self, c: Option<(i64, i64)>) -> TrackerState {
        TrackerState {
            zones: self.zones,
            current: self.current,
            stack: self.stack,
            last_comparison: c,
            nb_ret: self.nb_ret,
        }
    }

    /// The state with another zone map, current zone and count of `ret`.
    pub open spec fn with_zones(self, z: Map<Seq<char>, Seq<Option<i64>>>, cur: Seq<char>, nb_ret: u32) -> TrackerState {
        TrackerState {
            zones: z,
            current: cur,
            stack: self.stack,
            last_comparison: self.last_comparison,
            nb_ret: nb_ret,
        }
    }
}

/// An operand written with what the tracker knows; `garbage` is the size
/// part of a memory operand.
pub open spec fn operand(m: TrackerState, spot: Seq<char>, garbage: Seq<char>) -> Seq<char> {
    if spot.last() == ']' {
        match m.get(spot.drop_last()) {
            Some(v) => garbage + " "@ + dec(v) + "]"@,
            None => garbage + " "@ + spot,
        }
    } else {
        match m.get(spot) {
            Some(v) => dec(v),
            None => spot,
        }
    }
}

/// `mov`, `movzx`, `movsx` and `add` can be read without failing.
pub open spec fn move_ok(m: TrackerState, t: Seq<Seq<char>>) -> bool {
    &&& t.len() >= 3
    &&& match m.get(t[2]) {
        Some(val) => if t[0] == "add"@ {
            (followed_index(t[1]) is Some && m.regs()[followed_index(t[1])->0] is Some) ==> i64::MIN <= val
                + m.regs()[followed_index(t[1])->0]->0 <= i64::MAX
        } else {
            followed_index(t[1]) is None ==> t[1].len() > 0
        },
        None => match m.get(t[1]) {
            Some(_) => t[2].len() > 0,
            None => t[1].len() > 0 && t[2].len() > 0,
        },
    }
}

/// `mov`, `movzx`, `movsx` and `add`: a known value moved into (or added to)
/// a followed register is recorded and the instruction dropped; otherwise the
/// instruction is written with the known values and the destination is
/// forgotten.
pub open spec fn spec_move(m: TrackerState, t: Seq<Seq<char>>, g: Seq<char>) -> (TrackerState, Option<Seq<char>>) {
    match m.get(t[2]) {
        Some(val) => if t[0] == "add"@ {
            if followed_index(t[1]) is Some && m.regs()[followed_index(t[1])->0] is Some {
                (m.set(t[1], Some((val + m.regs()[followed_index(t[1])->0]->0) as i64)), Some(seq![]))
            } else {
                (m, Some("add "@ + t[1] + ", "@ + dec(val)))
            }
        } else {
            if followed_index(t[1]) is Some {
                (m.set(t[1], Some(val)), Some(seq![]))
            } else if spec_parse_i64(t[2]) is Some {
                (m, Some(t[0] + " "@ + operand(m, t[1], g) + ", "@ + dec(val)))
            } else {
                (
                    m,
                    Some("mov "@ + t[2] + ", "@ + dec(val) + "        ;out of the tracker\n"@ + t[0] + " "@
                        + operand(m, t[1], g) + ", "@ + t[2]),
                )
            }
        },
        None => {
            let res = match m.get(t[1]) {
                Some(_) => t[0] + " "@ + t[1] + ", "@ + operand(m, t[2], g),
                None => t[0] + " "@ + operand(m, t[1], g) + ", "@ + operand(m, t[2], g),
            };
            (m.set(t[1], None), Some(res))
        },
    }
}

/// `mul` can be read without failing.
pub open spec fn product_ok(m: TrackerState, t: Seq<Seq<char>>) -> bool {
    &&& t.len() >= 2
    &&& (m.get("rax"@) is Some && followed_index(t[1]) is Some && m.regs()[followed_index(t[1])->0] is Some)
        ==> i64::MIN <= m.get("rax"@)->0 * m.regs()[followed_index(t[1])->0]->0 <= i64::MAX
}

/// `mul`: with both factors known, the operand register gets the product.
pub open spec fn spec_product(m: TrackerState, t: Seq<Seq<char>>) -> (TrackerState, Option<Seq<char>>) {
    match m.get("rax"@) {
        Some(a) => if followed_index(t[1]) is Some && m.regs()[followed_index(t[1])->0] is Some {
            (m.set(t[1], Some((a * m.regs()[followed_index(t[1])->0]->0) as i64)), Some(seq![]))
        } else {
            (m, Some("mov rax, "@ + dec(a) + "        ;out of the tracker\nmul "@ + t[1]))
        },
        None => match m.get(t[1]) {
            Some(v) => (m, Some("mov "@ + t[1] + ", "@ + dec(v) + "     ;out of the tracker\nmul "@ + t[1])),
            None => (m, None),
        },
    }
}

/// `cmp`: both sides known, the comparison is kept; one known, it is written
/// out.
pub open spec fn spec_comparison(m: TrackerState, t: Seq<Seq<char>>) -> (TrackerState, Option<Seq<char>>) {
    match (m.get(t[1]), m.get(t[2])) {
        (Some(a), Some(b)) => (m.with_comparison(Some((a, b))), Some(seq![])),
        (Some(a), None) => (m.with_comparison(None), Some("cmp "@ + dec(a) + ", "@ + t[2])),
        (None, Some(b)) => (m.with_comparison(None), Some("cmp "@ + t[1] + ", "@ + dec(b))),
        (None, None) => (m, None),
    }
}

/// A conditional jump can be read without failing.
pub open spec fn jump_ok(m: TrackerState, t: Seq<Seq<char>>) -> bool {
    match m.last_comparison {
        Some((a, b)) => {
            &&& t[0] == "jg"@ || t[0] == "je"@
            &&& (if t[0] == "jg"@ { a > b } else { a == b }) ==> t.len() >= 2
        },
        None => true,
    }
}

/// `jg` and `je` after a known comparison.
pub open spec fn spec_jump(m: TrackerState, t: Seq<Seq<char>>) -> (TrackerState, Option<Seq<char>>) {
    match m.last_comparison {
        None => (m, None),
        Some((a, b)) => if (if t[0] == "jg"@ { a > b } else { a == b }) {
            (m.with_regs(forget_values(m.regs())), Some("jmp "@ + t[1]))
        } else {
            (m, Some(seq![]))
        },
    }
}

/// `call` can be read without failing.
pub open spec fn calling_ok(m: TrackerState, t: Seq<Seq<char>>) -> bool {
    &&& t.len() >= 2
    &&& t[1] == "_operation"@ ==> {
        &&& m.get("r12"@) is Some
        &&& (m.get("r11"@) is Some && m.get("r10"@) is Some) ==> spec_operation(
            m.get("r10"@)->0,
            m.get("r11"@)->0,
            (m.get("r12"@)->0) as u8,
        ) is Some
    }
    &&& t[1] != "_operation"@ ==> m.zones.contains_key(t[1])
}

/// `call`: the operation routine on known operands is computed into `rax`,
/// its missing operands written out; another call makes `global` the
/// registers of the function called; `r15` then holds zero.
pub open spec fn spec_calling(m: TrackerState, t: Seq<Seq<char>>) -> (TrackerState, Option<Seq<char>>) {
    if t[1] == "_operation"@ {
        let c = (m.get("r12"@)->0) as u8;
        let code = int_digits(c as int);
        match (m.get("r11"@), m.get("r10"@)) {
            (Some(a), Some(b)) => (
                m.set("rax"@, Some(spec_operation(b, a, c)->0)).set("r15"@, Some(0)),
                Some(seq![]),
            ),
            (Some(a), None) => (
                m.set("r15"@, Some(0)).set("rax"@, None),
                Some("mov r11, "@ + dec(a) + "\nmov r12, "@ + code + "\ncall _operation"@),
            ),
            (None, Some(b)) => (
                m.set("r15"@, Some(0)).set("rax"@, None),
                Some("mov r10, "@ + dec(b) + "\nmov r12, "@ + code + "\ncall _operation"@),
            ),
            (None, None) => (
                m.set("r15"@, Some(0)).set("rax"@, None),
                Some("mov r12, "@ + code + "\ncall _operation"@),
            ),
        }
    } else {
        let m1 = m.with_zones(m.zones.insert("global"@, m.zones[t[1]]), m.current, m.nb_ret);
        (m1.set("r15"@, Some(0)), None)
    }
}

/// The registers of a new zone: all hold zero.
pub open spec fn zeros() -> Seq<Option<i64>> {
    Seq::new(NB_FOLLOWED as nat, |j: int| Some(0i64))
}

/// `func`: a new zone for the function, entered with `r15` unknown.
pub open spec fn spec_enter(m: TrackerState, t: Seq<Seq<char>>) -> (TrackerState, Option<Seq<char>>) {
    let m1 = m.with_zones(m.zones.insert(t[1], zeros()), t[1], m.nb_ret);
    (m1.set("r15"@, None), None)
}

/// The instruction `t` can be read without failing.
pub open spec fn step_ok(m: TrackerState, t: Seq<Seq<char>>) -> bool {
    let k = t[0];
    if k == "pop"@ {
        t.len() >= 2 && m.stack.len() > 0
    } else if k == "push"@ || k == "xor"@ || k == "func"@ {
        t.len() >= 2
    } else if k == "mov"@ || k == "movzx"@ || k == "movsx"@ || k == "add"@ {
        move_ok(m, t)
    } else if k == "mul"@ {
        product_ok(m, t)
    } else if k == "cmp"@ {
        t.len() >= 3
    } else if k == "jg"@ || k == "je"@ {
        jump_ok(m, t)
    } else if k == "_deref"@ {
        m.get("rbx"@) is Some ==> t.len() >= 2
    } else if k == "call"@ {
        calling_ok(m, t)
    } else if k == "ret"@ {
        m.nb_ret < u32::MAX
    } else {
        k == "jmp"@ || k == "end_func"@
    }
}

/// `pop`: the register gets what is known of the value on top.
pub open spec fn spec_pop_value(m: TrackerState, t: Seq<Seq<char>>) -> (TrackerState, Option<Seq<char>>) {
    let m1 = m.with_stack(m.stack.drop_last());
    match m.stack.last() {
        Some(v) => (m1.set(t[1], Some(v)), Some(seq![])),
        None => (m1.set(t[1], None), None),
    }
}

/// `push`: the stack keeps what is known of the value.
pub open spec fn spec_push_value(m: TrackerState, t: Seq<Seq<char>>) -> (TrackerState, Option<Seq<char>>) {
    (m.with_stack(m.stack.push(m.get(t[1]))), if m.get(t[1]) is Some { Some(seq![]) } else { None })
}

/// `_deref`: a known `rbx` is written out and forgotten.
pub open spec fn spec_dereference(m: TrackerState, t: Seq<Seq<char>>) -> (TrackerState, Option<Seq<char>>) {
    match m.get("rbx"@) {
        Some(v) => (m.set("rbx"@, None), Some("mov rbx, "@ + dec(v) + "     ;out of the tracker\n_deref "@ + t[1])),
        None => (m, None),
    }
}

/// `ret`: a known `rax` is written out before it.
pub open spec fn spec_return(m: TrackerState) -> (TrackerState, Option<Seq<char>>) {
    (
        m.with_zones(m.zones, m.current, (m.nb_ret + 1) as u32),
        match m.get("rax"@) {
            Some(v) => Some("mov rax, "@ + dec(v) + "      ;out of the tracker\nret"@),
            None => None,
        },
    )
}

/// `end_func`: back to `global`; a function with several `ret` leaves its
/// registers unknown.
pub open spec fn spec_leave(m: TrackerState) -> (TrackerState, Option<Seq<char>>) {
    let m1 = if m.nb_ret > 1 { m.with_regs(forget_values(m.regs())) } else { m };
    (m1.with_zones(m1.zones, "global"@, 0), None)
}

/// The state after the instruction `t`, and the text that replaces it
/// (`None`: the instruction stays).
pub open spec fn spec_step(m: TrackerState, t: Seq<Seq<char>>, g: Seq<char>) -> (TrackerState, Option<Seq<char>>) {
    let k = t[0];
    if k == "pop"@ {
        spec_pop_value(m, t)
    } else if k == "push"@ {
        spec_push_value(m, t)
    } else if k == "xor"@ {
        (m.set(t[1], Some(0)), Some(seq![]))
    } else if k == "func"@ {
        spec_enter(m, t)
    } else if k == "mov"@ || k == "movzx"@ || k == "movsx"@ || k == "add"@ {
        spec_move(m, t, g)
    } else if k == "mul"@ {
        spec_product(m, t)
    } else if k == "cmp"@ {
        spec_comparison(m, t)
    } else if k == "jg"@ || k == "je"@ {
        spec_jump(m, t)
    } else if k == "_deref"@ {
        spec_dereference(m, t)
    } else if k == "call"@ {
        spec_calling(m, t)
    } else if k == "ret"@ {
        spec_return(m)
    } else if k == "end_func"@ {
        spec_leave(m)
    } else {
        (m, None)
    }
}

/// The tracker can read `inst` without failing.
pub open spec fn step_inst_ok(m: TrackerState, inst: Seq<char>) -> bool {
    &&& tokenise_ok(inst)
    &&& spec_tokenise(inst).0[0].len() > 0
    &&& spec_tokenise(inst).0[0].last() != ':' ==> step_ok(m, spec_tokenise(inst).0)
}

/// The state after `inst` and the text emitted for it: the instruction
/// rewritten, or as it is (a label always stays).
pub open spec fn spec_step_inst(m: TrackerState, inst: Seq<char>) -> (TrackerState, Seq<char>) {
    let (t, g) = spec_tokenise(inst);
    if t[0].last() != ':' {
        let (m1, o) = spec_step(m, t, g);
        (m1, match o { Some(x) => x, None => inst })
    } else {
        (m, inst)
    }
}

/// The tracker.
pub struct Tracker {
    names: Vec<String>,
    registers_map: Vec<Registers>,
    current_register_zone: usize,
    stack: Stack<Option<i64>>,
    last_comparison: Option<(i64, i64)>,
    nb_ret: u32,
}

/// The registers of a list of zones.
pub open spec fn register_views(zs: Seq<Registers>) -> Seq<Seq<Option<i64>>> {
    zs.map_values(|z: Registers| z@)
}

impl View for Tracker {
    type V = TrackerState;

    closed spec fn view(&self) -> TrackerState {
        TrackerState {
            zones: zones_map(views(self.names@), register_views(self.registers_map@)),
            current: self.names@[self.current_register_zone as int]@,
            stack: self.stack@,
            last_comparison: self.last_comparison,
            nb_ret: self.nb_ret,
        }
    }
}

impl Tracker {
    /// The zones are listed once each, `global` first, and the current zone
    /// is one of them.
    pub closed spec fn inv(&self) -> bool {
        &&& self.names@.len() == self.registers_map@.len()
        &&& self.names@.len() > 0
        &&& self.names@[0]@ == "global"@
        &&& views(self.names@).no_duplicates()
        &&& self.current_register_zone < self.names@.len()
        &&& forall|i: int| 0 <= i < self.registers_map@.len() ==> (#[trigger] self.registers_map@[i])@.len()
            == NB_FOLLOWED
    }

    proof fn lemma_inv_wf(&self)
        requires
            self.inv(),
        ensures
            self@.wf(),
            self@.regs() == self.registers_map@[self.current_register_zone as int]@,
    {
        let n = views(self.names@);
        let zv = register_views(self.registers_map@);
        lemma_zones_get(n, zv, 0);
        lemma_zones_get(n, zv, self.current_register_zone as int);
        assert forall|k: Seq<char>| #[trigger] self@.zones.contains_key(k) implies self@.zones[k].len() == NB_FOLLOWED by {
            let j = choose|j: int| 0 <= j < n.len() && n[j] == k;
            lemma_zones_get(n, zv, j);
            assert(self.registers_map@[j]@.len() == NB_FOLLOWED);
        }
    }

    /// A tracker in the zone `global`, all registers holding zero.
    pub fn new() -> (r: Tracker)
        ensures
            r.inv(),
            r@.zones == Map::<Seq<char>, Seq<Option<i64>>>::empty().insert("global"@, zeros()),
            r@.current == "global"@,
            r@.stack == Seq::<Option<i64>>::empty(),
            r@.last_comparison is None,
            r@.nb_ret == 0,
    {
        let mut names: Vec<String> = Vec::new();
        names.push(copy_str("global"));
        let mut registers_map: Vec<Registers> = Vec::new();
        registers_map.push(Registers::new());
        let r = Tracker {
            names,
            registers_map,
            current_register_zone: 0,
            stack: Stack::new(),
            last_comparison: None,
            nb_ret: 0,
        };
        proof {
            let n = views(r.names@);
            let zv = register_views(r.registers_map@);
            assert(n.len() == 1);
            lemma_zones_get(n, zv, 0);
            assert forall|k: Seq<char>| r@.zones.contains_key(k) == (k == "global"@) by {
                if r@.zones.contains_key(k) {
                    let j = choose|j: int| 0 <= j < n.len() && n[j] == k;
                    assert(j == 0);
                }
            }
            assert(r@.zones =~= Map::<Seq<char>, Seq<Option<i64>>>::empty().insert("global"@, zeros()));
        }
        r
    }
}


impl Tracker {
    /// Where the zone `name` stands.
    fn find_zone(&self, name: &str) -> (r: Option<usize>)
        requires
            self.inv(),
        ensures
            match r {
                Some(i) => i < self.names@.len() && self.names@[i as int]@ == name@,
                None => !views(self.names@).contains(name@),
            },
    {
        let mut i: usize = 0;
        while i < self.names.len()
            invariant
                0 <= i <= self.names@.len(),
                forall|j: int| 0 <= j < i ==> self.names@[j]@ != name@,
            decreases self.names.len() - i,
        {
            if str_eq(self.names[i].as_str(), name) {
                return Some(i);
            }
            i = i + 1;
        }
        proof {
            if views(self.names@).contains(name@) {
                let j = choose|j: int| 0 <= j < views(self.names@).len() && views(self.names@)[j] == name@;
                assert(self.names@[j]@ == name@);
            }
        }
        None
    }

    /// The value of `reg` in the current zone.
    fn get(&self, reg: &str) -> (r: Option<i64>)
        requires
            self.inv(),
        ensures
            r == self@.get(reg@),
    {
        proof {
            self.lemma_inv_wf();
        }
        self.registers_map[self.current_register_zone].get_val(reg)
    }

    /// Sets `reg` in the current zone.
    fn set(&mut self, reg: &str, val: Option<i64>) -> (r: bool)
        requires
            old(self).inv(),
        ensures
            final(self).inv(),
            final(self)@ == old(self)@.set(reg@, val),
            r == (followed_index(reg@) is Some),
    {
        proof {
            self.lemma_inv_wf();
        }
        let cur = self.current_register_zone;
        let ghost zv = register_views(self.registers_map@);
        let r = self.registers_map[cur].set_val(reg, val);
        proof {
            let z = self.registers_map@[cur as int]@;
            assert(register_views(self.registers_map@) =~= zv.update(cur as int, z));
            lemma_zones_update(views(self.names@), zv, cur as int, z);
        }
        r
    }

    /// The current zone forgets `rax`, `rbx`, `rdx` and `r15`.
    fn reset_current(&mut self)
        requires
            old(self).inv(),
        ensures
            final(self).inv(),
            final(self)@ == old(self)@.with_regs(forget_values(old(self)@.regs())),
    {
        proof {
            self.lemma_inv_wf();
        }
        let cur = self.current_register_zone;
        let ghost zv = register_views(self.registers_map@);
        self.registers_map[cur].reset();
        proof {
            let z = self.registers_map@[cur as int]@;
            assert(register_views(self.registers_map@) =~= zv.update(cur as int, z));
            lemma_zones_update(views(self.names@), zv, cur as int, z);
        }
    }

    /// Adds `val` to a followed register of known value in the current zone.
    fn add(&mut self, reg: &str, val: i64) -> (r: bool)
        requires
            old(self).inv(),
            (followed_index(reg@) is Some && old(self)@.regs()[followed_index(reg@)->0] is Some) ==> i64::MIN
                <= val + old(self)@.regs()[followed_index(reg@)->0]->0 <= i64::MAX,
        ensures
            final(self).inv(),
            r == (followed_index(reg@) is Some && old(self)@.regs()[followed_index(reg@)->0] is Some),
            r ==> final(self)@ == old(self)@.set(
                reg@,
                Some((val + old(self)@.regs()[followed_index(reg@)->0]->0) as i64),
            ),
            !r ==> final(self)@ == old(self)@,
    {
        proof {
            self.lemma_inv_wf();
        }
        let cur = self.current_register_zone;
        let ghost zv = register_views(self.registers_map@);
        let r = self.registers_map[cur].add_val(reg, val);
        proof {
            let z = self.registers_map@[cur as int]@;
            assert(register_views(self.registers_map@) =~= zv.update(cur as int, z));
            lemma_zones_update(views(self.names@), zv, cur as int, z);
            if !r {
                assert(zv.update(cur as int, z) =~= zv);
                assert(self@.zones =~= old(self)@.zones);
            }
        }
        r
    }

    /// Multiplies a followed register of known value by `val`.
    fn multiply(&mut self, reg: &str, val: i64) -> (r: bool)
        requires
            old(self).inv(),
            (followed_index(reg@) is Some && old(self)@.regs()[followed_index(reg@)->0] is Some) ==> i64::MIN
                <= val * old(self)@.regs()[followed_index(reg@)->0]->0 <= i64::MAX,
        ensures
            final(self).inv(),
            r == (followed_index(reg@) is Some && old(self)@.regs()[followed_index(reg@)->0] is Some),
            r ==> final(self)@ == old(self)@.set(
                reg@,
                Some((val * old(self)@.regs()[followed_index(reg@)->0]->0) as i64),
            ),
            !r ==> final(self)@ == old(self)@,
    {
        proof {
            self.lemma_inv_wf();
        }
        let cur = self.current_register_zone;
        let ghost zv = register_views(self.registers_map@);
        let r = self.registers_map[cur].mul_val(reg, val);
        proof {
            let z = self.registers_map@[cur as int]@;
            assert(register_views(self.registers_map@) =~= zv.update(cur as int, z));
            lemma_zones_update(views(self.names@), zv, cur as int, z);
            if !r {
                assert(zv.update(cur as int, z) =~= zv);
                assert(self@.zones =~= old(self)@.zones);
            }
        }
        r
    }

    /// An operand written with what the tracker knows.
    fn get_memory_access(&self, spot: &str, garbage: &str) -> (r: String)
        requires
            self.inv(),
            spot@.len() > 0,
        ensures
            r@ == operand(self@, spot@, garbage@),
    {
        if last_char(spot) == ']' {
            let inner = drop_last_char(spot);
            let mut res = copy_str(garbage);
            push_str(&mut res, " ");
            match self.get(inner.as_str()) {
                Some(v) => {
                    push_int(&mut res, v as i128);
                    push_str(&mut res, "]");
                },
                None => {
                    push_str(&mut res, spot);
                },
            }
            res
        } else {
            match self.get(spot) {
                Some(v) => int_to_string(v as i128),
                None => copy_str(spot),
            }
        }
    }

    /// `mov`, `movzx`, `movsx` and `add`.
    fn memory_action(&mut self, t: &Vec<String>, g: &str) -> (r: Option<String>)
        requires
            old(self).inv(),
            move_ok(old(self)@, views(t@)),
        ensures
            final(self).inv(),
            (final(self)@, opt_view(r)) == spec_move(old(self)@, views(t@), g@),
    {
        proof {
            self.lemma_inv_wf();
        }
        let ghost m = self@;
        let t0 = t[0].as_str();
        let t1 = t[1].as_str();
        let t2 = t[2].as_str();
        assert(views(t@)[0] == t0@ && views(t@)[1] == t1@ && views(t@)[2] == t2@);
        match self.get(t2) {
            Some(val) => {
                if str_eq(t0, "add") {
                    if !self.add(t1, val) {
                        let mut s = copy_str("add ");
                        push_str(&mut s, t1);
                        push_str(&mut s, ", ");
                        push_int(&mut s, val as i128);
                        return Some(s);
                    }
                } else {
                    if !self.set(t1, Some(val)) {
                        proof {
                            assert(self@.zones =~= m.zones);
                        }
                        match parse_i64(t2) {
                            Some(_) => {
                                let mut s = copy_str(t0);
                                push_str(&mut s, " ");
                                let a = self.get_memory_access(t1, g);
                                push_str(&mut s, a.as_str());
                                push_str(&mut s, ", ");
                                push_int(&mut s, val as i128);
                                return Some(s);
                            },
                            None => {
                                let mut s = copy_str("mov ");
                                push_str(&mut s, t2);
                                push_str(&mut s, ", ");
                                push_int(&mut s, val as i128);
                                push_str(&mut s, "        ;out of the tracker\n");
                                push_str(&mut s, t0);
                                push_str(&mut s, " ");
                                let a = self.get_memory_access(t1, g);
                                push_str(&mut s, a.as_str());
                                push_str(&mut s, ", ");
                                push_str(&mut s, t2);
                                return Some(s);
                            },
                        }
                    }
                }
                return Some(new_string());
            },
            None => {},
        }
        let mut s = copy_str(t0);
        push_str(&mut s, " ");
        match self.get(t1) {
            Some(_) => {
                push_str(&mut s, t1);
            },
            None => {
                let a = self.get_memory_access(t1, g);
                push_str(&mut s, a.as_str());
            },
        }
        push_str(&mut s, ", ");
        let b = self.get_memory_access(t2, g);
        push_str(&mut s, b.as_str());
        self.set(t1, None);
        Some(s)
    }

    /// `mul`.
    fn mul_inst(&mut self, t: &Vec<String>) -> (r: Option<String>)
        requires
            old(self).inv(),
            product_ok(old(self)@, views(t@)),
        ensures
            final(self).inv(),
            (final(self)@, opt_view(r)) == spec_product(old(self)@, views(t@)),
    {
        let t1 = t[1].as_str();
        assert(views(t@)[1] == t1@);
        match self.get("rax") {
            Some(a) => {
                if self.multiply(t1, a) {
                    Some(new_string())
                } else {
                    let mut s = copy_str("mov rax, ");
                    push_int(&mut s, a as i128);
                    push_str(&mut s, "        ;out of the tracker\nmul ");
                    push_str(&mut s, t1);
                    Some(s)
                }
            },
            None => match self.get(t1) {
                Some(v) => {
                    let mut s = copy_str("mov ");
                    push_str(&mut s, t1);
                    push_str(&mut s, ", ");
                    push_int(&mut s, v as i128);
                    push_str(&mut s, "     ;out of the tracker\nmul ");
                    push_str(&mut s, t1);
                    Some(s)
                },
                None => None,
            },
        }
    }

    /// `cmp`.
    fn compare_inst(&mut self, t: &Vec<String>) -> (r: Option<String>)
        requires
            old(self).inv(),
            t@.len() >= 3,
        ensures
            final(self).inv(),
            (final(self)@, opt_view(r)) == spec_comparison(old(self)@, views(t@)),
    {
        let t1 = t[1].as_str();
        let t2 = t[2].as_str();
        assert(views(t@)[1] == t1@ && views(t@)[2] == t2@);
        match self.get(t1) {
            Some(a) => match self.get(t2) {
                Some(b) => {
                    self.last_comparison = Some((a, b));
                    Some(new_string())
                },
                None => {
                    let mut s = copy_str("cmp ");
                    push_int(&mut s, a as i128);
                    push_str(&mut s, ", ");
                    push_str(&mut s, t2);
                    self.last_comparison = None;
                    Some(s)
                },
            },
            None => match self.get(t2) {
                Some(b) => {
                    let mut s = copy_str("cmp ");
                    push_str(&mut s, t1);
                    push_str(&mut s, ", ");
                    push_int(&mut s, b as i128);
                    self.last_comparison = None;
                    Some(s)
                },
                None => None,
            },
        }
    }

    /// `jg` and `je`.
    fn cond_inst(&mut self, t: &Vec<String>) -> (r: Option<String>)
        requires
            old(self).inv(),
            t@.len() >= 1,
            jump_ok(old(self)@, views(t@)),
        ensures
            final(self).inv(),
            (final(self)@, opt_view(r)) == spec_jump(old(self)@, views(t@)),
    {
        assert(views(t@)[0] == t@[0]@);
        match self.last_comparison {
            None => None,
            Some((a, b)) => {
                let cond = if str_eq(t[0].as_str(), "jg") {
                    a > b
                } else {
                    a == b
                };
                if cond {
                    self.reset_current();
                    assert(views(t@)[1] == t@[1]@);
                    let mut s = copy_str("jmp ");
                    push_str(&mut s, t[1].as_str());
                    Some(s)
                } else {
                    Some(new_string())
                }
            },
        }
    }

    /// `func`.
    fn func_inst(&mut self, t: &Vec<String>) -> (r: Option<String>)
        requires
            old(self).inv(),
            t@.len() >= 2,
        ensures
            final(self).inv(),
            (final(self)@, opt_view(r)) == spec_enter(old(self)@, views(t@)),
    {
        let t1 = t[1].as_str();
        assert(views(t@)[1] == t1@);
        let ghost n = views(self.names@);
        let ghost zv = register_views(self.registers_map@);
        let fresh = Registers::new();
        let ghost z = fresh@;
        match self.find_zone(t1) {
            Some(i) => {
                self.registers_map.set(i, fresh);
                self.current_register_zone = i;
                proof {
                    assert(register_views(self.registers_map@) =~= zv.update(i as int, z));
                    lemma_zones_update(n, zv, i as int, z);
                }
            },
            None => {
                self.names.push(copy_str(t1));
                self.registers_map.push(fresh);
                self.current_register_zone = self.names.len() - 1;
                proof {
                    assert(views(self.names@) =~= n.push(t1@));
                    assert(register_views(self.registers_map@) =~= zv.push(z));
                    lemma_zones_push(n, zv, t1@, z);
                    assert(self.names@[0]@ == "global"@);
                    assert forall|i: int| 0 <= i < self.registers_map@.len() implies (#[trigger] self.registers_map@[i])@.len() == NB_FOLLOWED by {
                        if i < zv.len() {
                            assert(self.registers_map@[i] == old(self).registers_map@[i]);
                        }
                    }
                }
            },
        }
        assert(self.inv());
        assert(self@.zones =~= old(self)@.zones.insert(t1@, zeros()));
        self.set("r15", None);
        None
    }
}


impl Tracker {
    /// `push`.
    fn push_inst(&mut self, t: &Vec<String>) -> (r: Option<String>)
        requires
            old(self).inv(),
            t@.len() >= 2,
        ensures
            final(self).inv(),
            (final(self)@, opt_view(r)) == spec_push_value(old(self)@, views(t@)),
    {
        let t1 = t[1].as_str();
        assert(views(t@)[1] == t1@);
        let v = self.get(t1);
        self.stack.push(v);
        match v {
            Some(_) => Some(new_string()),
            None => None,
        }
    }

    /// `pop`.
    fn pop_inst(&mut self, t: &Vec<String>) -> (r: Option<String>)
        requires
            old(self).inv(),
            t@.len() >= 2,
            old(self)@.stack.len() > 0,
        ensures
            final(self).inv(),
            (final(self)@, opt_view(r)) == spec_pop_value(old(self)@, views(t@)),
    {
        let t1 = t[1].as_str();
        assert(views(t@)[1] == t1@);
        let last_insert = self.stack.pop();
        match last_insert {
            Some(v) => {
                self.set(t1, Some(v));
                Some(new_string())
            },
            None => {
                self.set(t1, None);
                None
            },
        }
    }

    /// `xor`.
    fn xor_inst(&mut self, t: &Vec<String>) -> (r: Option<String>)
        requires
            old(self).inv(),
            t@.len() >= 2,
        ensures
            final(self).inv(),
            final(self)@ == old(self)@.set(views(t@)[1], Some(0)),
            opt_view(r) == Some(Seq::<char>::empty()),
    {
        let t1 = t[1].as_str();
        assert(views(t@)[1] == t1@);
        self.set(t1, Some(0));
        Some(new_string())
    }

    /// `_deref`.
    fn deref_inst(&mut self, t: &Vec<String>) -> (r: Option<String>)
        requires
            old(self).inv(),
            old(self)@.get("rbx"@) is Some ==> t@.len() >= 2,
        ensures
            final(self).inv(),
            (final(self)@, opt_view(r)) == spec_dereference(old(self)@, views(t@)),
    {
        match self.get("rbx") {
            Some(v) => {
                self.set("rbx", None);
                assert(views(t@)[1] == t@[1]@);
                let mut s = copy_str("mov rbx, ");
                push_int(&mut s, v as i128);
                push_str(&mut s, "     ;out of the tracker\n_deref ");
                push_str(&mut s, t[1].as_str());
                Some(s)
            },
            None => None,
        }
    }

    /// The zone `global` gets a copy of the registers of `func_name`.
    fn switch_register(&mut self, func_name: &str)
        requires
            old(self).inv(),
            old(self)@.zones.contains_key(func_name@),
        ensures
            final(self).inv(),
            final(self)@ == old(self)@.with_zones(
                old(self)@.zones.insert("global"@, old(self)@.zones[func_name@]),
                old(self)@.current,
                old(self)@.nb_ret,
            ),
    {
        let ghost n = views(self.names@);
        let ghost zv = register_views(self.registers_map@);
        let i = match self.find_zone(func_name) {
            Some(i) => i,
            None => {
                proof {
                    assert(false);
                }
                0
            },
        };
        proof {
            lemma_zones_get(n, zv, i as int);
        }
        assert(self.registers_map@[i as int]@.len() == NB_FOLLOWED);
        let copy = self.registers_map[i].clone();
        let ghost z = copy@;
        self.registers_map.set(0, copy);
        proof {
            assert(register_views(self.registers_map@) =~= zv.update(0, z));
            lemma_zones_update(n, zv, 0, z);
            assert forall|j: int| 0 <= j < self.registers_map@.len() implies (#[trigger] self.registers_map@[j])@.len() == NB_FOLLOWED by {
                if j != 0 {
                    assert(self.registers_map@[j] == old(self).registers_map@[j]);
                }
            }
        }
    }

    /// `call`.
    fn call_inst(&mut self, t: &Vec<String>) -> (r: Option<String>)
        requires
            old(self).inv(),
            calling_ok(old(self)@, views(t@)),
        ensures
            final(self).inv(),
            (final(self)@, opt_view(r)) == spec_calling(old(self)@, views(t@)),
    {
        let t1 = t[1].as_str();
        assert(views(t@)[1] == t1@);
        if str_eq(t1, "_operation") {
            let r12 = #[verifier::truncate] (self.get("r12").unwrap() as u8);
            let res: String;
            match self.get("r11") {
                Some(r11) => match self.get("r10") {
                    Some(r10) => {
                        let v = operation(r10, r11, r12);
                        self.set("rax", Some(v));
                        self.set("r15", Some(0));
                        return Some(new_string());
                    },
                    None => {
                        res = copy_str("mov r11, ");
                        let mut s = res;
                        push_int(&mut s, r11 as i128);
                        push_str(&mut s, "\nmov r12, ");
                        push_int(&mut s, r12 as i128);
                        push_str(&mut s, "\ncall _operation");
                        self.set("r15", Some(0));
                        self.set("rax", None);
                        return Some(s);
                    },
                },
                None => match self.get("r10") {
                    Some(r10) => {
                        let mut s = copy_str("mov r10, ");
                        push_int(&mut s, r10 as i128);
                        push_str(&mut s, "\nmov r12, ");
                        push_int(&mut s, r12 as i128);
                        push_str(&mut s, "\ncall _operation");
                        self.set("r15", Some(0));
                        self.set("rax", None);
                        return Some(s);
                    },
                    None => {
                        let mut s = copy_str("mov r12, ");
                        push_int(&mut s, r12 as i128);
                        push_str(&mut s, "\ncall _operation");
                        self.set("r15", Some(0));
                        self.set("rax", None);
                        return Some(s);
                    },
                },
            }
        } else {
            self.switch_register(t1);
            self.set("r15", Some(0));
            None
        }
    }

    /// `ret`.
    fn ret_inst(&mut self) -> (r: Option<String>)
        requires
            old(self).inv(),
            old(self)@.nb_ret < u32::MAX,
        ensures
            final(self).inv(),
            (final(self)@, opt_view(r)) == spec_return(old(self)@),
    {
        let res = match self.get("rax") {
            Some(v) => {
                let mut s = copy_str("mov rax, ");
                push_int(&mut s, v as i128);
                push_str(&mut s, "      ;out of the tracker\nret");
                Some(s)
            },
            None => None,
        };
        self.nb_ret = self.nb_ret + 1;
        res
    }

    /// `end_func`.
    fn end_func_inst(&mut self) -> (r: Option<String>)
        requires
            old(self).inv(),
        ensures
            final(self).inv(),
            (final(self)@, opt_view(r)) == spec_leave(old(self)@),
    {
        if self.nb_ret > 1 {
            self.reset_current();
        }
        self.current_register_zone = 0;
        self.nb_ret = 0;
        None
    }

    /// Runs the handler of the instruction `t`.
    fn dispatch(&mut self, t: &Vec<String>, g: &str) -> (r: Option<String>)
        requires
            old(self).inv(),
            t@.len() >= 1,
            step_ok(old(self)@, views(t@)),
        ensures
            final(self).inv(),
            (final(self)@, opt_view(r)) == spec_step(old(self)@, views(t@), g@),
    {
        let k = t[0].as_str();
        assert(views(t@)[0] == k@);
        if str_eq(k, "pop") {
            self.pop_inst(t)
        } else if str_eq(k, "push") {
            self.push_inst(t)
        } else if str_eq(k, "xor") {
            self.xor_inst(t)
        } else if str_eq(k, "func") {
            self.func_inst(t)
        } else if str_eq(k, "mov") || str_eq(k, "movzx") || str_eq(k, "movsx") || str_eq(k, "add") {
            self.memory_action(t, g)
        } else if str_eq(k, "mul") {
            self.mul_inst(t)
        } else if str_eq(k, "cmp") {
            self.compare_inst(t)
        } else if str_eq(k, "jg") || str_eq(k, "je") {
            self.cond_inst(t)
        } else if str_eq(k, "_deref") {
            self.deref_inst(t)
        } else if str_eq(k, "call") {
            self.call_inst(t)
        } else if str_eq(k, "ret") {
            self.ret_inst()
        } else if str_eq(k, "end_func") {
            self.end_func_inst()
        } else {
            None
        }
    }

    /// Reads one assembly instruction and gives the text to emit in its
    /// place: the instruction as the tracker rewrites it (nothing when its
    /// effect is known), or as it is.
    pub fn new_inst(&mut self, inst: &str) -> (r: String)
        requires
            old(self).inv(),
            step_inst_ok(old(self)@, inst@),
        ensures
            final(self).inv(),
            (final(self)@, r@) == spec_step_inst(old(self)@, inst@),
    {
        proof {
            reveal_strlit(" ");
            lemma_split_nonempty(inst@, " "@);
            assert(spec_tokenise(inst@).0.len() >= 1);
        }
        let (tokens, garbage) = tokenise_asm_inst(inst);
        assert(views(tokens@)[0] == tokens@[0]@);
        if last_char(tokens[0].as_str()) != ':' {
            return match self.dispatch(&tokens, garbage.as_str()) {
                Some(x) => x,
                None => copy_str(inst),
            };
        }
        copy_str(inst)
    }
}

/// What `set_val` writes to a followed register (under any of its names),
/// `get_val` reads back; the values of the other registers and of numbers
/// stay as they were.
pub proof fn lemma_set_then_get(regs: Seq<Option<i64>>, name: Seq<char>, val: Option<i64>, other: Seq<char>)
    requires
        regs.len() == NB_FOLLOWED,
        followed_index(name) is Some,
        followed_index(other) != followed_index(name),
    ensures
        value_of(with_value(regs, name, val), name) == val,
        value_of(with_value(regs, name, val), other) == value_of(regs, other),
{
}

} // verus!
