//! The types known to the program manager: each has an id (its rank), a name
//! and a size.
use vstd::prelude::*;
use crate::text::{views, str_eq, copy_str};

verus! {

/// The types of the program manager, by id.
pub struct ProgManager {
    titn: Vec<String>,
    sizes: Vec<u8>,
}

impl View for ProgManager {
    type V = Seq<(Seq<char>, u8)>;

    /// The types by id: their names and sizes.
    closed spec fn view(&self) -> Seq<(Seq<char>, u8)> {
        Seq::new(self.titn@.len(), |i: int| (self.titn@[i]@, self.sizes@[i]))
    }
}

/// The id of the type named `name` among `types`.
pub open spec fn type_id(types: Seq<(Seq<char>, u8)>, name: Seq<char>) -> int {
    choose|i: int| 0 <= i < types.len() && types[i].0 == name
}

/// A type of that name is known.
pub open spec fn type_known(types: Seq<(Seq<char>, u8)>, name: Seq<char>) -> bool {
    exists|i: int| 0 <= i < types.len() && types[i].0 == name
}

/// Names are given once each.
pub open spec fn names_unique(types: Seq<(Seq<char>, u8)>) -> bool {
    forall|i: int, j: int| 0 <= i < j < types.len() ==> types[i].0 != types[j].0
}

impl ProgManager {
    /// The lists agree and each name is given once.
    pub closed spec fn wf(&self) -> bool {
        &&& self.titn@.len() == self.sizes@.len()
        &&& names_unique(self@)
    }

    /// No type yet.
    pub fn new() -> (r: ProgManager)
        ensures
            r.wf(),
            r@ == Seq::<(Seq<char>, u8)>::empty(),
    {
        let r = ProgManager { titn: Vec::new(), sizes: Vec::new() };
        assert(r@ =~= Seq::<(Seq<char>, u8)>::empty());
        r
    }

    /// Adds a type of a new name; its id is the number of types before it.
    pub fn add_type(&mut self, name: &str, size: u8)
        requires
            old(self).wf(),
            !type_known(old(self)@, name@),
        ensures
            final(self).wf(),
            final(self)@ == old(self)@.push((name@, size)),
    {
        self.titn.push(copy_str(name));
        self.sizes.push(size);
        assert(self@ =~= old(self)@.push((name@, size)));
    }

    /// Where `name` stands.
    fn find(&self, tname: &str) -> (r: usize)
        requires
            self.wf(),
            type_known(self@, tname@),
        ensures
            r < self@.len(),
            self@[r as int].0 == tname@,
            r == type_id(self@, tname@),
    {
        let mut i: usize = 0;
        while i < self.titn.len()
            invariant
                0 <= i <= self.titn@.len(),
                self.wf(),
                type_known(self@, tname@),
                forall|j: int| 0 <= j < i ==> self@[j].0 != tname@,
            decreases self.titn.len() - i,
        {
            assert(self@[i as int].0 == self.titn@[i as int]@);
            if str_eq(self.titn[i].as_str(), tname) {
                proof {
                    let c = type_id(self@, tname@);
                    if c != i {
                        assert(self@[c].0 == self@[i as int].0);
                    }
                }
                return i;
            }
            i = i + 1;
        }
        proof {
            let c = type_id(self@, tname@);
            assert(self@[c].0 == tname@);
        }
        0
    }

    /// The size of a type with `nb_s` stars: 4 for a pointer, the size of
    /// `name` otherwise.
    pub fn get_type_size(&self, nb_s: i32, name: &str) -> (r: u8)
        requires
            self.wf(),
            nb_s == 0 ==> type_known(self@, name@),
        ensures
            r == if nb_s != 0 { 4 } else { self@[type_id(self@, name@)].1 },
    {
        if nb_s != 0 {
            4
        } else {
            self.get_type_size_with_type_name(name)
        }
    }

    /// The name of the type of id `id`.
    pub fn get_type_name_with_id(self, id: usize) -> (r: String)
        requires
            self.wf(),
            id < self@.len(),
        ensures
            r@ == self@[id as int].0,
    {
        self.name_of_type(id)
    }

    /// The name of the type of id `id`, the manager kept.
    pub fn name_of_type(&self, id: usize) -> (r: String)
        requires
            self.wf(),
            id < self@.len(),
        ensures
            r@ == self@[id as int].0,
    {
        assert(self@[id as int].0 == self.titn@[id as int]@);
        copy_str(self.titn[id].as_str())
    }

    /// The size of the type of id `id`.
    pub fn get_type_size_with_id(&self, id: usize) -> (r: u8)
        requires
            self.wf(),
            id < self@.len(),
        ensures
            r == self@[id as int].1,
    {
        assert(self@[id as int] == (self.titn@[id as int]@, self.sizes@[id as int]));
        proof {
            assert(type_known(self@, self.titn@[id as int]@));
        }
        self.get_type_size_with_type_name(self.titn[id].as_str())
    }

    /// The size of the type named `tname`.
    pub fn get_type_size_with_type_name(&self, tname: &str) -> (r: u8)
        requires
            self.wf(),
            type_known(self@, tname@),
        ensures
            r == self@[type_id(self@, tname@)].1,
    {
        let i = self.find(tname);
        assert(self@[i as int].1 == self.sizes@[i as int]);
        self.sizes[i]
    }

    /// The id of the type named `tname`.
    pub fn get_type_id_with_type_name(&self, tname: &str) -> (r: usize)
        requires
            self.wf(),
            type_known(self@, tname@),
        ensures
            r == type_id(self@, tname@),
            self@[r as int].0 == tname@,
    {
        self.find(tname)
    }
}

/// The id of a name is where it stands.
pub proof fn lemma_type_id(types: Seq<(Seq<char>, u8)>, i: int)
    requires
        names_unique(types),
        0 <= i < types.len(),
    ensures
        type_id(types, types[i].0) == i,
{
    assert(type_known(types, types[i].0));
    let c = type_id(types, types[i].0);
    if c != i {
        assert(types[c].0 == types[i].0);
    }
}

} // verus!
