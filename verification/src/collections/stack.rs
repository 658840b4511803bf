//! The operand stack: last in, first out, with room for `STACK_MAX` values.

use vstd::prelude::*;

verus! {

/// The number of slots of a stack.
pub const STACK_MAX: usize = 256;

/// A stack of at most `STACK_MAX` values. Its storage is set up once and is
/// never grown.
pub struct Stack<T> {
    data: Vec<T>,
}

impl<T> View for Stack<T> {
    type V = Seq<T>;

    /// The values on the stack, the oldest first.
    closed spec fn view(&self) -> Seq<T> {
        self.data@
    }
}

impl<T> Default for Stack<T> {
    /// The empty stack.
    fn default() -> (stack: Stack<T>)
        ensures
            stack@ == Seq::<T>::empty(),
            stack.wf(),
    {
        Stack { data: Vec::with_capacity(STACK_MAX) }
    }
}

impl<T> Stack<T> {
    /// The invariant of the type: the cursor stays within the slots.
    pub open spec fn wf(&self) -> bool {
        self@.len() <= STACK_MAX
    }

    /// Puts `value` on top. The stack must have a free slot.
    pub fn push(&mut self, value: T)
        requires
            old(self)@.len() < STACK_MAX,
        ensures
            final(self)@ == old(self)@.push(value),
    {
        self.data.push(value);
    }

    /// Takes the top value off. The stack must not be empty.
    pub fn pop(&mut self) -> (value: T)
        requires
            old(self)@.len() > 0,
        ensures
            value == old(self)@.last(),
            final(self)@ == old(self)@.drop_last(),
    {
        match self.data.pop() {
            Some(value) => value,
            None => vstd::pervasive::unreached(),
        }
    }

    /// The number of values on the stack.
    pub fn len(&self) -> (len: usize)
        ensures
            len == self@.len(),
    {
        self.data.len()
    }
}

/// The values on the stack, the oldest first: what a trace of the machine
/// shows before each instruction.
pub fn show_stack<T: Copy>(stack: &Stack<T>) -> (values: Vec<T>)
    ensures
        values@ == stack@,
{
    let mut values: Vec<T> = Vec::new();
    let mut current: usize = 0;
    while current != stack.data.len()
        invariant
            current <= stack.data@.len(),
            values@ == stack.data@.take(current as int),
        decreases stack.data@.len() - current,
    {
        values.push(stack.data[current]);
        current += 1;
        assert(stack.data@.take(current as int) == stack.data@.take(current - 1).push(
            stack.data@[current - 1],
        ));
    }
    assert(stack.data@.take(current as int) == stack.data@);
    values
}

} // verus!
