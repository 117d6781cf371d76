//! Bounded LIFO stack of return addresses.
use vstd::prelude::*;

verus! {

/// Greatest number of return addresses the stack can hold.
pub const STACK_SIZE: usize = 16;

/// Error raised by a stack operation that would leave the bound.
#[derive(Debug, PartialEq, Eq, Structural, Clone, Copy)]
pub enum StackError {
    /// A push was attempted while the stack already held `STACK_SIZE` entries.
    Overflow,
    /// A pop was attempted on an empty stack.
    Underflow,
}

/// The addresses handed out by popping a stack that holds `s`, one after
/// another until it is empty.
pub open spec fn pop_all(s: Seq<u16>) -> Seq<u16>
    decreases s.len(),
{
    if s.len() == 0 {
        Seq::empty()
    } else {
        seq![s.last()] + pop_all(s.drop_last())
    }
}

/// Law: popping a stack repeatedly returns the held addresses in exactly the
/// reverse of the order they were pushed.
pub proof fn lemma_pop_all_reverses(s: Seq<u16>)
    ensures
        pop_all(s) == s.reverse(),
    decreases s.len(),
{
    if s.len() > 0 {
        lemma_pop_all_reverses(s.drop_last());
        assert(pop_all(s) =~= s.reverse());
    } else {
        assert(pop_all(s) =~= s.reverse());
    }
}

/// A strict LIFO of at most `STACK_SIZE` 16-bit return addresses.
pub struct Stack {
    data: Vec<u16>,
}

impl View for Stack {
    type V = Seq<u16>;

    /// The stack's entries, oldest first.
    closed spec fn view(&self) -> Seq<u16> {
        self.data@
    }
}

impl Stack {
    /// The depth bound is respected.
    pub open spec fn wf(&self) -> bool {
        self@.len() <= STACK_SIZE
    }

    /// Creates an empty stack.
    pub fn new() -> (s: Self)
        ensures
            s.wf(),
            s@ == Seq::<u16>::empty(),
    {
        Stack { data: Vec::new() }
    }

    /// Pushes a return address, failing with `Overflow` on a full stack.
    pub fn push(&mut self, item: u16) -> (r: Result<(), StackError>)
        requires
            old(self).wf(),
        ensures
            final(self).wf(),
            old(self)@.len() < STACK_SIZE ==> r == Ok::<(), StackError>(())
                && final(self)@ == old(self)@.push(item),
            old(self)@.len() == STACK_SIZE ==> r == Err::<(), StackError>(StackError::Overflow)
                && final(self)@ == old(self)@,
    {
        if self.data.len() < STACK_SIZE {
            self.data.push(item);
            Ok(())
        } else {
            Err(StackError::Overflow)
        }
    }

    /// Pops the most recently pushed address, failing with `Underflow` when empty.
    pub fn pop(&mut self) -> (r: Result<u16, StackError>)
        requires
            old(self).wf(),
        ensures
            final(self).wf(),
            old(self)@.len() > 0 ==> r == Ok::<u16, StackError>(old(self)@.last())
                && final(self)@ == old(self)@.drop_last(),
            old(self)@.len() == 0 ==> r == Err::<u16, StackError>(StackError::Underflow)
                && final(self)@ == old(self)@,
    {
        match self.data.pop() {
            Some(item) => Ok(item),
            None => Err(StackError::Underflow),
        }
    }
}

} // verus!
