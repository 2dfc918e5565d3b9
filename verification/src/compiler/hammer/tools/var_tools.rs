//! The tools of the variables of the second compiler: the identifiers read
//! (with their stars and dereferences), the declarations, and the types
//! written with stars.
use vstd::prelude::*;
use crate::text::{copy_str, new_string, push_str, push_nat, push_int, nat_digits, int_digits, str_eq, spec_parse_u32, parse_u32};
use crate::compiler::hammer::memory::{
    Memory, var_at, name_index, type_size_of, mv_new_var, MemView,
};
use crate::compiler::hammer::definitions::spec_asm_size;
use crate::compiler::hammer::prog_manager::type_manager::ProgManager;

verus! {

/// An identifier being read: how many times it is dereferenced (`-1`: its
/// address is taken), its name, and whether an expression that comes is an
/// index or the arguments of a call.
pub struct CIdentTools {
    pub deref_time: i32,
    pub name: String,
    pub for_bracket: bool,
}

/// The assembly that pushes the value of an identifier: its address, then
/// the dereferencing.
pub open spec fn cident_asm(addr: usize, size: u8, deref_time: i32) -> Seq<char> {
    "\nmov rax, "@ + nat_digits(addr as nat) + (if deref_time > 0 {
        "\n_deref_"@ + spec_asm_size(size as int) + " "@ + int_digits(deref_time as int)
    } else {
        Seq::<char>::empty()
    }) + "\npush rax    ; We push the value of a new identificator"@
}

impl CIdentTools {
    /// An identifier before any token.
    pub fn new() -> (r: CIdentTools)
        ensures
            r.deref_time == 0,
            r.name@ == Seq::<char>::empty(),
            r.for_bracket,
    {
        CIdentTools { deref_time: 0, name: new_string(), for_bracket: true }
    }

    /// A star dereferences once more; an ampersand takes the address, at
    /// most once beyond the value.
    pub fn new_symbol(&mut self, s: String) -> (r: Result<(), String>)
        requires
            s@ == "*"@ || s@ == "&"@,
            s@ == "*"@ ==> old(self).deref_time < i32::MAX,
            s@ == "&"@ ==> old(self).deref_time > i32::MIN,
        ensures
            final(self).name == old(self).name,
            final(self).for_bracket == old(self).for_bracket,
            s@ == "*"@ ==> r is Ok && final(self).deref_time == old(self).deref_time + 1,
            s@ != "*"@ ==> final(self).deref_time == old(self).deref_time - 1 && (final(self).deref_time < -1 <==> r
                is Err) && (r matches Err(e) ==> e@ == "You can't dereferance like this.."@),
    {
        if str_eq(s.as_str(), "*") {
            self.deref_time = self.deref_time + 1;
        } else {
            self.deref_time = self.deref_time - 1;
            if self.deref_time < -1 {
                return Err(copy_str("You can't dereferance like this.."));
            }
        }
        Ok(())
    }

    /// The name of the identifier.
    pub fn def_ident(&mut self, name: String)
        ensures
            final(self).name == name,
            final(self).deref_time == old(self).deref_time,
            final(self).for_bracket == old(self).for_bracket,
    {
        self.name = name;
    }

    /// An index follows.
    pub fn open_brackets(&mut self)
        ensures
            final(self).for_bracket,
            final(self).name == old(self).name,
            final(self).deref_time == old(self).deref_time,
    {
        self.for_bracket = true;
    }

    /// The arguments of a call follow.
    pub fn open_tupple(&mut self)
        ensures
            !final(self).for_bracket,
            final(self).name == old(self).name,
            final(self).deref_time == old(self).deref_time,
    {
        self.for_bracket = false;
    }

    /// The end of the identifier: the variable it names (the innermost),
    /// the stars left once dereferenced (none left is the least: with `t` an
    /// `int*`, `*t[2]` would leave `-1` and is refused), and the assembly
    /// that pushes it. What is raised: the dereferences, the stars left and
    /// the size of the variable.
    pub fn end(&self, memory: &Memory) -> (r: Result<(String, String), String>)
        requires
            memory.wf(),
            name_index(memory.view().names, self.name@) matches Some(i) ==> (memory.view().names[i].1.len() > 0
                && (var_at(memory.view().vars, memory.view().names[i].1.last()) matches Some(v) && v.2 < 9
                && v.3 - self.deref_time >= i32::MIN && v.3 - self.deref_time <= i32::MAX)),
        ensures
            match name_index(memory.view().names, self.name@) {
                None => r matches Err(e) && e@ == self.name@ + " isn't an axisting variable."@,
                Some(i) => {
                    let a = memory.view().names[i].1.last();
                    let v = var_at(memory.view().vars, a)->0;
                    let stars = v.3 - self.deref_time;
                    let size = if v.3 == 0 {
                        v.2 as int
                    } else {
                        4
                    };
                    if stars < 0 {
                        r matches Err(e) && e@ == "Bad dereferencment"@
                    } else {
                        r matches Ok((t, code)) && t@ == int_digits(self.deref_time as int) + " "@ + int_digits(stars)
                            + " "@ + nat_digits(size as nat) && code@ == cident_asm(a, v.2, self.deref_time)
                    }
                },
            },
    {
        let var_def = match memory.get_var_def_by_name(&self.name) {
            Ok(var_def) => var_def,
            Err(_) => {
                let mut e = copy_str(self.name.as_str());
                push_str(&mut e, " isn't an axisting variable.");
                return Err(e);
            },
        };
        let stars = var_def.type_var.stars - self.deref_time;
        if stars < 0 {
            return Err(copy_str("Bad dereferencment"));
        }
        let code = self.build_asm(memory, var_def.addr, var_def.type_var.size);
        let mut t = new_string();
        push_int(&mut t, self.deref_time as i128);
        push_str(&mut t, " ");
        push_int(&mut t, stars as i128);
        push_str(&mut t, " ");
        push_nat(&mut t, var_def.get_size() as u128);
        Ok((t, code))
    }

    /// The assembly that pushes the value of the identifier.
    fn build_asm(&self, memory: &Memory, addr: usize, size: u8) -> (r: String)
        requires
            size < 9,
        ensures
            r@ == cident_asm(addr, size, self.deref_time),
    {
        let mut res = copy_str("\nmov rax, ");
        push_nat(&mut res, addr as u128);
        let d = memory.deref_var(size as usize, self.deref_time);
        push_str(&mut res, d.as_str());
        push_str(&mut res, "\npush rax    ; We push the value of a new identificator");
        res
    }
}

/// A declaration: the address of the variable, the name of its type, its
/// stars, and whether a value is assigned.
pub struct DeclTools {
    pub addr: usize,
    pub tname: String,
    pub stars: u32,
    pub aff: bool,
}

impl DeclTools {
    /// A declaration before any token.
    pub fn new() -> (r: DeclTools)
        ensures
            r.addr == 0,
            r.tname@ == Seq::<char>::empty(),
            r.stars == 0,
            !r.aff,
    {
        DeclTools { addr: 0, tname: new_string(), stars: 0, aff: false }
    }

    /// The type of the variable, by its id, and its stars.
    pub fn def_type(&mut self, pm: &ProgManager, id: usize, stars: u32)
        requires
            pm.wf(),
            id < pm@.len(),
        ensures
            final(self).tname@ == pm@[id as int].0,
            final(self).stars == stars,
            final(self).addr == old(self).addr,
            final(self).aff == old(self).aff,
    {
        self.tname = pm.name_of_type(id);
        self.stars = stars;
    }

    /// The stars of the value assigned must be those of the variable.
    pub fn check_exp(&mut self, stars: String) -> (r: Result<(), String>)
        requires
            spec_parse_u32(stars@) is Some,
        ensures
            r is Ok <==> spec_parse_u32(stars@)->0 == old(self).stars,
            r matches Err(e) ==> e@ == "Not the good type"@,
            *final(self) == *old(self),
    {
        let s = match parse_u32(stars.as_str()) {
            Some(s) => s,
            None => 0,
        };
        if s != self.stars {
            Err(copy_str("Not the good type"))
        } else {
            Ok(())
        }
    }

    /// The name of the variable: it is declared in the memory.
    pub fn def_name(&mut self, name: String, memory: &mut Memory)
        requires
            old(memory).wf(),
            type_size_of(old(self).tname@) is Some,
            old(memory).view().jumps.len() > 0,
            old(memory).view().si + type_size_of(old(self).tname@)->0 <= usize::MAX,
            old(self).stars <= i32::MAX,
        ensures
            final(memory).wf(),
            final(memory).view() == mv_new_var(old(memory).view(), old(self).tname@, name@, old(self).stars as i32),
            final(self).addr == old(memory).view().si,
            final(self).tname == old(self).tname,
            final(self).stars == old(self).stars,
            final(self).aff == old(self).aff,
    {
        self.addr = memory.new_var(copy_str(self.tname.as_str()), name, self.stars as i32);
    }

    /// A value is assigned.
    pub fn def_equal_operator(&mut self)
        ensures
            final(self).aff,
            final(self).addr == old(self).addr,
            final(self).tname == old(self).tname,
            final(self).stars == old(self).stars,
    {
        self.aff = true;
    }

    /// The assignment of the value, if any: it is popped into `rax` and
    /// stored at the variable's address.
    pub fn build_asm(&self, memory: &Memory) -> (r: String)
        requires
            memory.wf(),
            self.aff ==> (var_at(memory.view().vars, self.addr) matches Some(v) && v.2 < 9),
        ensures
            !self.aff ==> r@ == Seq::<char>::empty(),
            self.aff ==> ({
                let v = var_at(memory.view().vars, self.addr)->0;
                r@ == "\npop rax"@ + "\nmov "@ + spec_asm_size(v.2 as int) + "[_stack + "@ + nat_digits(self.addr as nat)
                    + "], "@ + crate::compiler::hammer::definitions::spec_rax_size(v.2 as int)
            }),
    {
        let mut res = new_string();
        if self.aff {
            push_str(&mut res, "\npop rax");
            let a = memory.affect_to(self.addr);
            push_str(&mut res, a.as_str());
        }
        res
    }
}

/// A type written with stars: the stars, the name, and the size (`4` once a
/// star came).
pub struct ComplexTypeTools {
    pub stars: u8,
    pub name: String,
    pub size: u8,
}

impl ComplexTypeTools {
    /// Before any token.
    pub fn new() -> (r: ComplexTypeTools)
        ensures
            r.stars == 0,
            r.name@ == Seq::<char>::empty(),
            r.size == 0,
    {
        ComplexTypeTools { stars: 0, name: new_string(), size: 0 }
    }

    /// A star: a pointer, of size 4.
    pub fn new_star(&mut self)
        requires
            old(self).stars < u8::MAX,
        ensures
            final(self).stars == old(self).stars + 1,
            final(self).size == 4,
            final(self).name == old(self).name,
    {
        self.size = 4;
        self.stars = self.stars + 1;
    }

    /// The name of the type, whose size the memory gives.
    pub fn set_name(&mut self, name: String, memory: &Memory)
        requires
            type_size_of(name@) is Some,
        ensures
            final(self).name == name,
            final(self).size == type_size_of(name@)->0,
            final(self).stars == old(self).stars,
    {
        self.size = memory.get_type_size(0, name.as_str());
        self.name = name;
    }

    /// What is raised: the name, the stars and the size.
    pub fn end(&self) -> (r: String)
        ensures
            r@ == self.name@ + " "@ + nat_digits(self.stars as nat) + " "@ + nat_digits(self.size as nat),
    {
        let mut t = copy_str(self.name.as_str());
        push_str(&mut t, " ");
        push_nat(&mut t, self.stars as u128);
        push_str(&mut t, " ");
        push_nat(&mut t, self.size as u128);
        t
    }
}

} // verus!
