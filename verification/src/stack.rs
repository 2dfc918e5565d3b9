//! A last-in first-out stack.
use vstd::prelude::*;

verus! {

/// A stack of values; the last one pushed is the first one popped.
pub struct Stack<T> {
    vec: Vec<T>,
}

impl<T> View for Stack<T> {
    type V = Seq<T>;

    /// The values from the bottom to the top.
    closed spec fn view(&self) -> Seq<T> {
        self.vec@
    }
}

impl<T> Stack<T> {
    /// An empty stack.
    pub fn new() -> (r: Stack<T>)
        ensures
            r@ == Seq::<T>::empty(),
    {
        Stack { vec: Vec::new() }
    }

    /// Puts `x` on top.
    pub fn push(&mut self, x: T)
        ensures
            final(self)@ == old(self)@.push(x),
    {
        self.vec.push(x);
    }

    /// Takes the value on top; the stack must not be empty.
    pub fn pop(&mut self) -> (r: T)
        requires
            old(self)@.len() > 0,
        ensures
            r == old(self)@.last(),
            final(self)@ == old(self)@.drop_last(),
    {
        self.vec.pop().unwrap()
    }

    /// The value on top; the stack must not be empty.
    pub fn val(&self) -> (r: &T)
        requires
            self@.len() > 0,
        ensures
            *r == self@.last(),
    {
        &self.vec[self.vec.len() - 1]
    }

    /// Whether the stack holds nothing.
    pub fn is_empty(&self) -> (r: bool)
        ensures
            r == (self@.len() == 0),
    {
        self.vec.len() == 0
    }

    /// The number of values on the stack.
    pub fn size(&self) -> (r: usize)
        ensures
            r == self@.len(),
    {
        self.vec.len()
    }
}

/// Popping a stack just pushed gives back the value pushed and the stack as
/// it was before.
pub proof fn lemma_pop_undoes_push<T>(s: Seq<T>, x: T)
    ensures
        s.push(x).len() > 0,
        s.push(x).last() == x,
        s.push(x).drop_last() == s,
{
    assert(s.push(x).drop_last() =~= s);
}

/// Pushing the value on top of a non-empty stack back after popping it gives
/// back the stack.
pub proof fn lemma_push_undoes_pop<T>(s: Seq<T>)
    requires
        s.len() > 0,
    ensures
        s.drop_last().push(s.last()) == s,
{
    assert(s.drop_last().push(s.last()) =~= s);
}

/// A run of operations on a stack, `Some(x)` for a push of `x` and `None`
/// for a pop, from the stack `s`: the stack at the end, or `None` where a pop
/// meets an empty stack.
pub open spec fn run_ops<T>(s: Seq<T>, ops: Seq<Option<T>>) -> Option<Seq<T>>
    decreases ops.len(),
{
    if ops.len() == 0 {
        Some(s)
    } else {
        match run_ops(s, ops.drop_last()) {
            None => None,
            Some(t) => match ops.last() {
                Some(x) => Some(t.push(x)),
                None => if t.len() == 0 {
                    None
                } else {
                    Some(t.drop_last())
                },
            },
        }
    }
}

/// How many pushes a run holds.
pub open spec fn push_count<T>(ops: Seq<Option<T>>) -> int
    decreases ops.len(),
{
    if ops.len() == 0 {
        0
    } else {
        push_count(ops.drop_last()) + if ops.last() is Some {
            1int
        } else {
            0int
        }
    }
}

/// How many pops a run holds.
pub open spec fn pop_count<T>(ops: Seq<Option<T>>) -> int
    decreases ops.len(),
{
    if ops.len() == 0 {
        0
    } else {
        pop_count(ops.drop_last()) + if ops.last() is None {
            1int
        } else {
            0int
        }
    }
}

/// The size counts the pushes not yet popped: after any run of pushes and
/// pops in which no pop meets an empty stack, the size is the size before,
/// plus the pushes, minus the pops.
pub proof fn lemma_size_counts_pushes<T>(s: Seq<T>, ops: Seq<Option<T>>)
    requires
        run_ops(s, ops) is Some,
    ensures
        run_ops(s, ops)->0.len() == s.len() + push_count(ops) - pop_count(ops),
    decreases ops.len(),
{
    if ops.len() > 0 {
        lemma_size_counts_pushes(s, ops.drop_last());
    }
}

} // verus!
