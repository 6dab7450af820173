//! Sliding windows of three adjacent cells, with mutable access.
//!
//! The cursor type owns its buffer and hands out window start indices, so
//! that a caller can read and write the three cells of the current window
//! through `get` and `set` and take the buffer back at the end; this keeps
//! the ownership simple where a borrowed window iterator would not be.

use vstd::prelude::*;

verus! {

/// A cursor over all windows of three adjacent elements of a buffer.
pub struct ThreeElemWindowMut<T> {
    slice: Vec<T>,
    lower_bound: usize,
}

impl<T> ThreeElemWindowMut<T> {
    /// The buffer under the cursor.
    pub closed spec fn elems(self) -> Seq<T> {
        self.slice@
    }

    /// The start index of the next window.
    pub closed spec fn cursor(self) -> usize {
        self.lower_bound
    }

    /// A cursor at the first window of `slice`.
    pub fn new(slice: Vec<T>) -> (r: Self)
        ensures
            r.elems() == slice@,
            r.cursor() == 0,
    {
        ThreeElemWindowMut { slice, lower_bound: 0 }
    }

    /// The start index of the next three-element window, advancing the
    /// cursor, or `None` when fewer than three elements remain — so a buffer
    /// of `n >= 3` elements yields exactly the windows at `0 ..= n - 3`, and
    /// a shorter buffer yields none.
    pub fn next(&mut self) -> (r: Option<usize>)
        ensures
            final(self).elems() == old(self).elems(),
            old(self).cursor() + 3 <= old(self).elems().len() ==> (r == Some(old(self).cursor())
                && final(self).cursor() == old(self).cursor() + 1),
            old(self).cursor() + 3 > old(self).elems().len() ==> (r is None && final(self).cursor()
                == old(self).cursor()),
    {
        if self.slice.len() >= 3 && self.lower_bound <= self.slice.len() - 3 {
            let this_lower_bound = self.lower_bound;
            self.lower_bound = this_lower_bound + 1;
            Some(this_lower_bound)
        } else {
            None
        }
    }

    /// The element at `i`.
    pub fn get(&self, i: usize) -> (r: &T)
        requires
            i < self.elems().len(),
        ensures
            *r == self.elems()[i as int],
    {
        &self.slice[i]
    }

    /// Replace the element at `i`.
    pub fn set(&mut self, i: usize, value: T)
        requires
            i < old(self).elems().len(),
        ensures
            final(self).elems() == old(self).elems().update(i as int, value),
            final(self).cursor() == old(self).cursor(),
    {
        self.slice.set(i, value);
    }

    /// Take the buffer back.
    pub fn into_inner(self) -> (r: Vec<T>)
        ensures
            r@ == self.elems(),
    {
        self.slice
    }
}

} // verus!
