//! The operand stack: an ordered, growable sequence with last-in-first-out
//! push and pop, and indexed access and removal from arbitrary positions.

use vstd::prelude::*;

verus! {

/// An ordered, mutable sequence of values. Index 0 is the bottom of the
/// stack; the last element is the top. The view is the sequence of elements,
/// bottom first.
pub struct Stack<T> {
    items: Vec<T>,
}

impl<T> View for Stack<T> {
    type V = Seq<T>;

    closed spec fn view(&self) -> Seq<T> {
        self.items@
    }
}

impl<T> Stack<T> {
    /// The empty stack.
    pub fn new() -> (s: Self)
        ensures
            s@ == Seq::<T>::empty(),
    {
        Stack { items: Vec::new() }
    }

    /// Places `value` on top of the stack.
    pub fn push(&mut self, value: T)
        ensures
            final(self)@ == old(self)@.push(value),
    {
        self.items.push(value);
    }

    /// Removes and returns the top of the stack, or `None` when the stack
    /// is empty; every caller of the engine translates the `None` into a
    /// stack-underflow failure.
    pub fn pop(&mut self) -> (r: Option<T>)
        ensures
            old(self)@.len() == 0 ==> r is None && final(self)@ == old(self)@,
            old(self)@.len() > 0 ==> r == Some(old(self)@.last()) && final(self)@ == old(
                self,
            )@.drop_last(),
    {
        if self.items.len() == 0 {
            None
        } else {
            let v = self.items.remove(self.items.len() - 1);
            proof {
                assert(final(self)@ =~= old(self)@.drop_last());
            }
            Some(v)
        }
    }

    /// Borrows the top of the stack, or `None` when the stack is empty.
    pub fn last(&self) -> (r: Option<&T>)
        ensures
            self@.len() == 0 ==> r is None,
            self@.len() > 0 ==> r == Some(&self@.last()),
    {
        if self.items.len() == 0 {
            None
        } else {
            Some(&self.items[self.items.len() - 1])
        }
    }

    /// The number of values on the stack.
    pub fn length(&self) -> (n: usize)
        ensures
            n == self@.len(),
    {
        self.items.len()
    }

    /// Borrows the value at `index`, counted from the bottom.
    pub fn get(&self, index: usize) -> (r: &T)
        requires
            index < self@.len(),
        ensures
            *r == self@[index as int],
    {
        &self.items[index]
    }

    /// Removes and returns the value at `index`, counted from the bottom,
    /// shifting the values above it down by one.
    pub fn remove(&mut self, index: usize) -> (r: T)
        requires
            index < old(self)@.len(),
        ensures
            r == old(self)@[index as int],
            final(self)@ == old(self)@.remove(index as int),
    {
        self.items.remove(index)
    }
}

} // verus!
