//! The running data of the program manager: the next free address, the
//! counters of blocks and of `if`s, the blocks entered, and the file being
//! written.
use vstd::prelude::*;
use crate::compiler::hammer::prog_manager::definitions::Jump;
use crate::compiler::hammer::memory::{SCRIPTF, FUNCTIONSF};

verus! {

/// The running data of the program manager.
pub struct ProgData {
    pub stack_index: usize,
    pub bloc_id: u128,
    pub if_count: u32,
    pub jump_stack: Vec<Jump>,
    pub current_file: usize,
}

impl ProgData {
    /// The blocks entered, each by the address it began at and the
    /// addresses declared in it.
    pub open spec fn jumps(&self) -> Seq<(usize, Seq<usize>)> {
        self.jump_stack@.map_values(|j: Jump| (j.stack_index, j.addr_to_remove@))
    }

    /// At the start: nothing declared, the outermost block entered, the
    /// script written.
    pub fn new() -> (r: ProgData)
        ensures
            r.stack_index == 0,
            r.bloc_id == 0,
            r.if_count == 0,
            r.jumps() == seq![(0usize, Seq::<usize>::empty())],
            r.current_file == SCRIPTF,
    {
        let mut jump_stack: Vec<Jump> = Vec::new();
        jump_stack.push(Jump::new(0));
        let r = ProgData { stack_index: 0, bloc_id: 0, if_count: 0, jump_stack, current_file: SCRIPTF };
        assert(r.jumps() =~= seq![(0usize, Seq::<usize>::empty())]);
        r
    }

    /// The number of blocks opened.
    pub fn bloc_id(&self) -> (r: u128)
        ensures
            r == self.bloc_id,
    {
        self.bloc_id
    }

    /// The file being written.
    pub fn cf(&self) -> (r: usize)
        ensures
            r == self.current_file,
    {
        self.current_file
    }

    /// The number of `if`s.
    pub fn if_count(&self) -> (r: u32)
        ensures
            r == self.if_count,
    {
        self.if_count
    }

    /// Sets the number of `if`s.
    pub fn set_if_count(&mut self, v: u32)
        ensures
            final(self).if_count == v,
            final(self).bloc_id == old(self).bloc_id,
            final(self).stack_index == old(self).stack_index,
            final(self).jump_stack == old(self).jump_stack,
            final(self).current_file == old(self).current_file,
    {
        self.if_count = v;
    }

    /// One more block.
    pub fn inc_bi(&mut self)
        requires
            old(self).bloc_id < u128::MAX,
        ensures
            final(self).bloc_id == old(self).bloc_id + 1,
            final(self).if_count == old(self).if_count,
            final(self).stack_index == old(self).stack_index,
            final(self).jump_stack == old(self).jump_stack,
            final(self).current_file == old(self).current_file,
    {
        self.bloc_id += 1;
    }

    /// One more `if`.
    pub fn inc_if_count(&mut self)
        requires
            old(self).if_count < u32::MAX,
        ensures
            final(self).if_count == old(self).if_count + 1,
            final(self).bloc_id == old(self).bloc_id,
            final(self).stack_index == old(self).stack_index,
            final(self).jump_stack == old(self).jump_stack,
            final(self).current_file == old(self).current_file,
    {
        self.if_count += 1;
    }

    /// The next free address.
    pub fn si(&self) -> (r: usize)
        ensures
            r == self.stack_index,
    {
        self.stack_index
    }

    /// The functions' file is written from now on.
    pub fn in_func(&mut self)
        ensures
            final(self).current_file == FUNCTIONSF,
            final(self).bloc_id == old(self).bloc_id,
            final(self).if_count == old(self).if_count,
            final(self).stack_index == old(self).stack_index,
            final(self).jump_stack == old(self).jump_stack,
    {
        self.current_file = FUNCTIONSF;
    }

    /// The script's file is written from now on.
    pub fn out_func(&mut self)
        ensures
            final(self).current_file == SCRIPTF,
            final(self).bloc_id == old(self).bloc_id,
            final(self).if_count == old(self).if_count,
            final(self).stack_index == old(self).stack_index,
            final(self).jump_stack == old(self).jump_stack,
    {
        self.current_file = SCRIPTF;
    }

    /// A block entered at the next free address.
    pub fn jump_in(&mut self)
        ensures
            final(self).jumps() == old(self).jumps().push((old(self).stack_index, Seq::<usize>::empty())),
            final(self).bloc_id == old(self).bloc_id,
            final(self).if_count == old(self).if_count,
            final(self).stack_index == old(self).stack_index,
            final(self).current_file == old(self).current_file,
    {
        let ghost j0 = self.jumps();
        self.jump_stack.push(Jump::new(self.si()));
        assert(self.jumps() =~= j0.push((self.stack_index, Seq::<usize>::empty())));
    }
}

} // verus!
