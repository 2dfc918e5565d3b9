//! The registers followed by the assembly tracker: for each machine register,
//! the constant it is known to hold and the register it was copied from.
use vstd::prelude::*;
use crate::text::{int_digits, spec_parse_i64, is_digit, str_eq, copy_str, new_string, push_str, push_int, parse_i64};

verus! {

/// Number of registers that the tracker follows.
pub const NB_REGS: usize = 8;

/// The index of the register that `name` designates (`eax` and `ax` name
/// `rax`, `r15b` names `r15`, ...), if the tracker follows it.
pub open spec fn reg_index(name: Seq<char>) -> Option<int> {
    if name == "rax"@ || name == "eax"@ || name == "ax"@ {
        Some(0)
    } else if name == "rbx"@ || name == "ebx"@ || name == "bx"@ {
        Some(1)
    } else if name == "rcx"@ || name == "ecx"@ || name == "cx"@ {
        Some(2)
    } else if name == "rdx"@ || name == "edx"@ || name == "dx"@ {
        Some(3)
    } else if name == "r15"@ || name == "r15b"@ {
        Some(4)
    } else if name == "r10"@ {
        Some(5)
    } else if name == "r11"@ {
        Some(6)
    } else if name == "r12"@ {
        Some(7)
    } else {
        None
    }
}

/// The canonical (64-bit) name of the register of index `i`.
pub open spec fn canon_name(i: int) -> Seq<char> {
    if i == 0 {
        "rax"@
    } else if i == 1 {
        "rbx"@
    } else if i == 2 {
        "rcx"@
    } else if i == 3 {
        "rdx"@
    } else if i == 4 {
        "r15"@
    } else if i == 5 {
        "r10"@
    } else if i == 6 {
        "r11"@
    } else {
        "r12"@
    }
}

/// The index of a followed register.
pub fn register_index(name: &str) -> (r: Option<usize>)
    ensures
        match reg_index(name@) {
            Some(i) => r == Some(i as usize),
            None => r is None,
        },
{
    if str_eq(name, "rax") || str_eq(name, "eax") || str_eq(name, "ax") {
        Some(0)
    } else if str_eq(name, "rbx") || str_eq(name, "ebx") || str_eq(name, "bx") {
        Some(1)
    } else if str_eq(name, "rcx") || str_eq(name, "ecx") || str_eq(name, "cx") {
        Some(2)
    } else if str_eq(name, "rdx") || str_eq(name, "edx") || str_eq(name, "dx") {
        Some(3)
    } else if str_eq(name, "r15") || str_eq(name, "r15b") {
        Some(4)
    } else if str_eq(name, "r10") {
        Some(5)
    } else if str_eq(name, "r11") {
        Some(6)
    } else if str_eq(name, "r12") {
        Some(7)
    } else {
        None
    }
}

/// The canonical name of the register of index `i`.
pub fn canonical_name(i: usize) -> (r: &'static str)
    requires
        i < NB_REGS,
    ensures
        r@ == canon_name(i as int),
{
    if i == 0 {
        "rax"
    } else if i == 1 {
        "rbx"
    } else if i == 2 {
        "rcx"
    } else if i == 3 {
        "rdx"
    } else if i == 4 {
        "r15"
    } else if i == 5 {
        "r10"
    } else if i == 6 {
        "r11"
    } else {
        "r12"
    }
}

/// What the tracker knows of one register: its constant value, if known, and
/// the register whose value was added to it, if any.
pub struct Register {
    pub val: Option<i64>,
    pub static_register: Option<String>,
}

/// The abstract content of a register.
pub type RegView = (Option<i64>, Option<Seq<char>>);

impl Register {
    pub open spec fn view(&self) -> RegView {
        (
            self.val,
            match self.static_register {
                Some(s) => Some(s@),
                None => None,
            },
        )
    }

    /// A register holding zero.
    pub fn new() -> (r: Register)
        ensures
            r.view() == (Some(0i64), None::<Seq<char>>),
    {
        Register { val: Some(0), static_register: None }
    }

    /// Forgets the register it was copied from.
    pub fn lost_static_register_information(&mut self)
        ensures
            final(self).view() == (old(self).view().0, None::<Seq<char>>),
    {
        self.static_register = None;
    }

    /// Whether the register was copied from `reg`.
    pub fn is_good_reg(&self, reg: &str) -> (r: bool)
        ensures
            r == (self.view().1 == Some(reg@)),
    {
        match &self.static_register {
            Some(s) => str_eq(s.as_str(), reg),
            None => false,
        }
    }

    /// Records that the register was copied from `reg`.
    pub fn set_static_reg(&mut self, reg: &str)
        ensures
            final(self).view() == (old(self).view().0, Some(reg@)),
    {
        self.static_register = Some(copy_str(reg));
    }

    /// A copy of the register.
    pub fn clone(&self) -> (r: Register)
        ensures
            r.view() == self.view(),
    {
        Register {
            val: self.val,
            static_register: match &self.static_register {
                Some(s) => Some(s.clone()),
                None => None,
            },
        }
    }
}

/// The registers of one zone (the main program or a function), indexed as
/// `reg_index` says, and the text waiting to be emitted.
pub struct RegistersData {
    pub regs: Vec<Register>,
    pub txt: String,
}

/// The abstract content of all the followed registers.
pub type RegsView = Seq<RegView>;

/// The registers once `name` changed: every register (but the one canonically
/// named `name`) that was copied from `name` forgets it.
pub open spec fn spec_actualise(regs: RegsView, name: Seq<char>) -> RegsView {
    Seq::new(
        regs.len(),
        |j: int|
            if canon_name(j) != name && regs[j].1 == Some(name) {
                (regs[j].0, None::<Seq<char>>)
            } else {
                regs[j]
            },
    )
}

/// The report of `actualise_registers`, from register `j` on.
pub open spec fn actualise_text(regs: RegsView, name: Seq<char>, j: int) -> Seq<char>
    decreases regs.len() - j,
{
    if j < 0 || j >= regs.len() {
        seq![]
    } else if canon_name(j) != name && regs[j].1 == Some(name) {
        "mov, "@ + canon_name(j) + ", "@ + name + actualise_text(regs, name, j + 1)
    } else {
        actualise_text(regs, name, j + 1)
    }
}

/// The value of `name`: what the tracker knows of a followed register, the
/// number itself for a literal, nothing otherwise.
pub open spec fn spec_get_val(regs: RegsView, name: Seq<char>) -> Option<i64> {
    match reg_index(name) {
        Some(i) => regs[i].0,
        None => spec_parse_i64(name),
    }
}

/// The register `name` was copied from.
pub open spec fn spec_get_static_reg(regs: RegsView, name: Seq<char>) -> Option<Seq<char>> {
    match reg_index(name) {
        Some(i) => regs[i].1,
        None => None,
    }
}

/// The registers after `set_val(name, val)`.
pub open spec fn spec_set_val(regs: RegsView, name: Seq<char>, val: Option<i64>) -> RegsView {
    match reg_index(name) {
        Some(i) => spec_actualise(regs.update(i, (val, regs[i].1)), name),
        None => regs,
    }
}

/// The lines that put back in the assembly what the tracker holds of `name`.
pub open spec fn spec_put_in_asm(regs: RegsView, name: Seq<char>) -> Seq<char> {
    (match spec_get_val(regs, name) {
        Some(v) => "mov "@ + name + ", "@ + int_digits(v as int) + "   ;out of the tracker"@,
        None => seq![],
    }) + (match spec_get_static_reg(regs, name) {
        Some(s) => "\nadd "@ + canon_name(reg_index(name)->0) + ", "@ + s + "     ;out of the tracker"@,
        None => seq![],
    })
}

impl RegistersData {
    pub open spec fn view(&self) -> RegsView {
        self.regs@.map_values(|r: Register| r.view())
    }

    pub open spec fn wf(&self) -> bool {
        self.regs@.len() == NB_REGS
    }

    /// All registers hold zero and come from no other register.
    pub fn new() -> (r: RegistersData)
        ensures
            r.wf(),
            r.view() == Seq::new(NB_REGS as nat, |j: int| (Some(0i64), None::<Seq<char>>)),
            r.txt@ == Seq::<char>::empty(),
    {
        let mut regs: Vec<Register> = Vec::new();
        let mut i: usize = 0;
        while i < NB_REGS
            invariant
                0 <= i <= NB_REGS,
                regs@.len() == i,
                forall|j: int| 0 <= j < i ==> #[trigger] regs@[j].view() == (Some(0i64), None::<Seq<char>>),
            decreases NB_REGS - i,
        {
            regs.push(Register::new());
            i = i + 1;
        }
        let r = RegistersData { regs, txt: new_string() };
        assert(r.view() =~= Seq::new(NB_REGS as nat, |j: int| (Some(0i64), None::<Seq<char>>)));
        r
    }

    /// A copy of the registers.
    pub fn clone(&self) -> (r: RegistersData)
        ensures
            r.view() == self.view(),
            r.regs@.len() == self.regs@.len(),
            r.txt@ == self.txt@,
    {
        let mut regs: Vec<Register> = Vec::new();
        let mut i: usize = 0;
        while i < self.regs.len()
            invariant
                0 <= i <= self.regs@.len(),
                regs@.len() == i,
                forall|j: int| 0 <= j < i ==> #[trigger] regs@[j].view() == self.regs@[j].view(),
            decreases self.regs.len() - i,
        {
            regs.push(self.regs[i].clone());
            i = i + 1;
        }
        let r = RegistersData { regs, txt: self.txt.clone() };
        assert(r.view() =~= self.view());
        r
    }

    /// Whether `register` is followed.
    pub fn is_followed(&self, register: &str) -> (r: bool)
        ensures
            r == (reg_index(register@) is Some),
    {
        register_index(register).is_some()
    }

    /// What is known of `register`; `register` must be followed.
    pub fn convert(&self, register: &str) -> (r: &Register)
        requires
            self.wf(),
            reg_index(register@) is Some,
        ensures
            r.view() == self.view()[reg_index(register@)->0],
    {
        let i = register_index(register).unwrap();
        &self.regs[i]
    }

    /// The value of `register`, or of the number it writes.
    pub fn get_val(&self, register: &str) -> (r: Option<i64>)
        requires
            self.wf(),
        ensures
            r == spec_get_val(self.view(), register@),
    {
        match register_index(register) {
            Some(i) => self.regs[i].val,
            None => parse_i64(register),
        }
    }

    /// The register that `register` was copied from.
    pub fn get_static_reg(&self, register: &str) -> (r: Option<String>)
        requires
            self.wf(),
        ensures
            match r {
                Some(s) => spec_get_static_reg(self.view(), register@) == Some(s@),
                None => spec_get_static_reg(self.view(), register@) is None,
            },
    {
        match register_index(register) {
            Some(i) => match &self.regs[i].static_register {
                Some(s) => Some(s.clone()),
                None => None,
            },
            None => None,
        }
    }

    /// The same as `get_val`.
    pub fn extract_val(&self, elt: &str) -> (r: Option<i64>)
        requires
            self.wf(),
        ensures
            r == spec_get_val(self.view(), elt@),
    {
        match parse_i64(elt) {
            Some(v) => {
                proof {
                    lemma_register_not_number(elt@);
                }
                Some(v)
            },
            None => {
                if self.is_followed(elt) {
                    return self.get_val(elt);
                }
                None
            },
        }
    }

    /// Every register copied from `reg` (but the one canonically named
    /// `reg`) forgets it; the report names them.
    pub fn actualise_registers(&mut self, reg: &str) -> (r: String)
        requires
            old(self).wf(),
        ensures
            final(self).wf(),
            final(self).view() == spec_actualise(old(self).view(), reg@),
            final(self).txt@ == old(self).txt@,
            r@ == actualise_text(old(self).view(), reg@, 0),
    {
        let ghost v0 = self.view();
        let mut res = new_string();
        let mut j: usize = 0;
        while j < NB_REGS
            invariant
                0 <= j <= NB_REGS,
                self.wf(),
                self.txt@ == old(self).txt@,
                v0 == old(self).view(),
                v0.len() == NB_REGS,
                forall|k: int| 0 <= k < j ==> #[trigger] self.view()[k] == spec_actualise(v0, reg@)[k],
                forall|k: int| j <= k < NB_REGS ==> #[trigger] self.view()[k] == v0[k],
                res@ + actualise_text(v0, reg@, j as int) == actualise_text(v0, reg@, 0),
            decreases NB_REGS - j,
        {
            let name = canonical_name(j);
            assert(self.view()[j as int] == v0[j as int]);
            assert(self.regs@[j as int].view() == self.view()[j as int]);
            if !str_eq(name, reg) && self.regs[j].is_good_reg(reg) {
                let ghost before = res@;
                let ghost vb = self.view();
                assert(self.view()[j as int] == v0[j as int]);
                let mut r = self.regs[j].clone();
                r.lost_static_register_information();
                self.regs.set(j, r);
                assert(self.view() =~= vb.update(j as int, (v0[j as int].0, None::<Seq<char>>)));
                push_str(&mut res, "mov, ");
                push_str(&mut res, name);
                push_str(&mut res, ", ");
                push_str(&mut res, reg);
                assert(actualise_text(v0, reg@, j as int) == "mov, "@ + canon_name(j as int) + ", "@ + reg@ + actualise_text(v0, reg@, j + 1));
                assert(res@ + actualise_text(v0, reg@, j + 1) =~= before + actualise_text(v0, reg@, j as int));
            } else {
                assert(actualise_text(v0, reg@, j as int) == actualise_text(v0, reg@, j + 1));
            }
            j = j + 1;
        }
        assert(self.view() =~= spec_actualise(v0, reg@));
        res
    }

    /// Sets the value of a followed `register` (and makes the registers copied
    /// from it forget so); false when `register` is not followed.
    pub fn set_val(&mut self, register: &str, val: Option<i64>) -> (r: bool)
        requires
            old(self).wf(),
        ensures
            final(self).wf(),
            r == (reg_index(register@) is Some),
            final(self).view() == spec_set_val(old(self).view(), register@, val),
            final(self).txt@ == old(self).txt@,
    {
        match register_index(register) {
            Some(i) => {
                let mut reg = self.regs[i].clone();
                reg.val = val;
                self.regs.set(i, reg);
                assert(self.view() =~= old(self).view().update(i as int, (val, old(self).view()[i as int].1)));
                self.actualise_registers(register);
                true
            },
            None => false,
        }
    }

    /// Records that `reg1`, a register under its canonical name, was copied
    /// from `reg2`, a followed register.
    pub fn set_static_reg(&mut self, reg1: &str, reg2: &str)
        requires
            old(self).wf(),
            reg_index(reg1@) is Some,
            canon_name(reg_index(reg1@)->0) == reg1@,
            reg_index(reg2@) is Some,
        ensures
            final(self).wf(),
            final(self).view() == old(self).view().update(
                reg_index(reg1@)->0,
                (old(self).view()[reg_index(reg1@)->0].0, Some(reg2@)),
            ),
            final(self).txt@ == old(self).txt@,
    {
        let i = register_index(reg1).unwrap();
        let mut reg = self.regs[i].clone();
        reg.set_static_reg(reg2);
        self.regs.set(i, reg);
        assert(self.view() =~= old(self).view().update(i as int, (old(self).view()[i as int].0, Some(reg2@))));
    }

    /// Adds `val` to a followed register of known value; false (and nothing
    /// changes) otherwise.
    pub fn add_val(&mut self, register: &str, val: i64) -> (r: bool)
        requires
            old(self).wf(),
            match spec_get_val(old(self).view(), register@) {
                Some(p) => reg_index(register@) is Some ==> i64::MIN <= val + p <= i64::MAX,
                None => true,
            },
        ensures
            final(self).wf(),
            final(self).txt@ == old(self).txt@,
            r == (reg_index(register@) is Some && old(self).view()[reg_index(register@)->0].0 is Some),
            r ==> final(self).view() == spec_set_val(
                old(self).view(),
                register@,
                Some((val + old(self).view()[reg_index(register@)->0].0->0) as i64),
            ),
            !r ==> final(self).view() == old(self).view(),
    {
        if self.is_followed(register) {
            let previous_val = self.convert(register).val;
            if previous_val.is_some() {
                self.set_val(register, Some(val + previous_val.unwrap()));
                return true;
            }
        }
        false
    }

    /// Puts in `rax` the product of `val_rax` and the known value of the
    /// followed `register`; false (and nothing changes) otherwise.
    pub fn mul_val(&mut self, register: &str, val_rax: i64) -> (r: bool)
        requires
            old(self).wf(),
            match spec_get_val(old(self).view(), register@) {
                Some(p) => reg_index(register@) is Some ==> i64::MIN <= val_rax * p <= i64::MAX,
                None => true,
            },
        ensures
            final(self).wf(),
            final(self).txt@ == old(self).txt@,
            r == (reg_index(register@) is Some && old(self).view()[reg_index(register@)->0].0 is Some),
            r ==> final(self).view() == spec_set_val(
                old(self).view(),
                "rax"@,
                Some((val_rax * old(self).view()[reg_index(register@)->0].0->0) as i64),
            ),
            !r ==> final(self).view() == old(self).view(),
    {
        if self.is_followed(register) {
            let reg_val = self.convert(register).val;
            if reg_val.is_some() {
                self.set_val("rax", Some(val_rax * reg_val.unwrap()));
                return true;
            }
        }
        false
    }

    /// The tracker loses the values of `rax`, `rbx`, `rdx` and `r15`.
    pub fn reset(&mut self)
        requires
            old(self).wf(),
        ensures
            final(self).wf(),
            final(self).txt@ == old(self).txt@,
            final(self).view() == spec_set_val(
                spec_set_val(
                    spec_set_val(spec_set_val(old(self).view(), "rax"@, None), "rbx"@, None),
                    "rdx"@,
                    None,
                ),
                "r15"@,
                None,
            ),
    {
        self.set_val("rax", None);
        self.set_val("rbx", None);
        self.set_val("rdx", None);
        self.set_val("r15", None);
    }

    /// The assembly that materialises what the tracker holds of `register`.
    pub fn put_in_asm(&self, register: &str) -> (r: String)
        requires
            self.wf(),
        ensures
            r@ == spec_put_in_asm(self.view(), register@),
    {
        let mut res = new_string();
        let reg_val = self.get_val(register);
        match reg_val {
            Some(v) => {
                push_str(&mut res, "mov ");
                push_str(&mut res, register);
                push_str(&mut res, ", ");
                push_int(&mut res, v as i128);
                push_str(&mut res, "   ;out of the tracker");
            },
            None => {},
        }
        let ghost first = res@;
        let static_reg = self.get_static_reg(register);
        match static_reg {
            Some(s) => {
                let i = register_index(register).unwrap();
                push_str(&mut res, "\nadd ");
                push_str(&mut res, canonical_name(i));
                push_str(&mut res, ", ");
                push_str(&mut res, s.as_str());
                push_str(&mut res, "     ;out of the tracker");
                assert(res@ =~= first + ("\nadd "@ + canon_name(reg_index(register@)->0) + ", "@ + s@ + "     ;out of the tracker"@));
            },
            None => {
                assert(res@ =~= first + Seq::<char>::empty());
            },
        }
        res
    }
}

/// No followed register's name reads as a number.
pub proof fn lemma_register_not_number(name: Seq<char>)
    ensures
        spec_parse_i64(name) is Some ==> reg_index(name) is None,
{
    reveal_strlit("rax");
    reveal_strlit("eax");
    reveal_strlit("ax");
    reveal_strlit("rbx");
    reveal_strlit("ebx");
    reveal_strlit("bx");
    reveal_strlit("rcx");
    reveal_strlit("ecx");
    reveal_strlit("cx");
    reveal_strlit("rdx");
    reveal_strlit("edx");
    reveal_strlit("dx");
    reveal_strlit("r15");
    reveal_strlit("r15b");
    reveal_strlit("r10");
    reveal_strlit("r11");
    reveal_strlit("r12");
    if spec_parse_i64(name) is Some && reg_index(name) is Some {
        assert(name.len() > 0);
        let rest = name.drop_first();
        assert(rest.len() > 0);
        if name[0] == '+' || name[0] == '-' {
            assert(is_digit(rest[0]));
        } else {
            assert(is_digit(name[0]));
        }
    }
}

/// What `set_val` writes to a followed register, `get_val` reads back; the
/// values of the other registers and of numbers stay as they were.
pub proof fn lemma_set_then_get(regs: RegsView, name: Seq<char>, val: Option<i64>, other: Seq<char>)
    requires
        regs.len() == NB_REGS,
        reg_index(name) is Some,
        reg_index(other) != reg_index(name),
    ensures
        spec_get_val(spec_set_val(regs, name, val), name) == val,
        spec_get_val(spec_set_val(regs, name, val), other) == spec_get_val(regs, other),
{
    let i = reg_index(name)->0;
    let r1 = regs.update(i, (val, regs[i].1));
    assert(0 <= i < NB_REGS) by {
        reveal_strlit("rax");
    }
    assert(spec_actualise(r1, name)[i].0 == val);
    if let Some(j) = reg_index(other) {
        assert(0 <= j < NB_REGS) by {
            reveal_strlit("rax");
        }
        assert(spec_actualise(r1, name)[j].0 == regs[j].0);
    }
}

} // verus!
