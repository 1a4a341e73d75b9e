//! Growable arrays of integers that compiled routines allocate.

use vstd::prelude::*;

verus! {

/// An array of integers with the capacity it has reserved.
pub struct CausmArray {
    pub cap: usize,
    pub data: Vec<i64>,
}

impl CausmArray {
    /// The array never holds more than its capacity, which is not zero.
    pub open spec fn wf(&self) -> bool {
        1 <= self.cap && self.data@.len() <= self.cap
    }

    /// An empty array with room for `initial_cap` items (8 when none is asked
    /// for).
    pub fn new(initial_cap: usize) -> (a: Self)
        ensures
            a.wf(),
            a.data@.len() == 0,
            a.cap == if initial_cap == 0 { 8 } else { initial_cap },
    {
        let cap = if initial_cap == 0 { 8 } else { initial_cap };
        CausmArray { cap, data: Vec::new() }
    }

    pub fn len(&self) -> (n: usize)
        ensures
            n == self.data@.len(),
    {
        self.data.len()
    }

    /// Appends `val`, doubling the capacity when the array is full.
    pub fn push(&mut self, val: i64)
        requires
            old(self).wf(),
            old(self).data@.len() < old(self).cap || old(self).cap * 2 <= usize::MAX,
            old(self).data@.len() < usize::MAX,
        ensures
            final(self).wf(),
            final(self).data@ == old(self).data@.push(val),
            final(self).cap == if old(self).data@.len() >= old(self).cap { old(self).cap * 2 } else { old(self).cap as int },
    {
        if self.data.len() >= self.cap {
            self.cap = self.cap * 2;
        }
        self.data.push(val);
    }

    /// The item at `index`, or 0 past the end.
    pub fn get(&self, index: usize) -> (v: i64)
        ensures
            v == if index < self.data@.len() { self.data@[index as int] } else { 0 },
    {
        if index < self.data.len() {
            self.data[index]
        } else {
            0
        }
    }

    /// Overwrites the item at `index`; past the end nothing changes.
    pub fn set(&mut self, index: usize, val: i64)
        ensures
            final(self).cap == old(self).cap,
            final(self).data@ == if index < old(self).data@.len() { old(self).data@.update(index as int, val) } else { old(self).data@ },
    {
        if index < self.data.len() {
            self.data.set(index, val);
        }
    }
}

/// What is pushed is read back at the next position, and what is set at a
/// position in range is read back there.
pub proof fn law_array_read_back(data: Seq<i64>, val: i64, index: int)
    ensures
        data.push(val)[data.len() as int] == val,
        0 <= index < data.len() ==> data.update(index, val)[index] == val,
{
}

} // verus!
