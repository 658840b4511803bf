//! Runtime values and the constant pool.

use vstd::prelude::*;
use crate::collections::dynarray::DynArray;

verus! {

/// A runtime value: a 64-bit IEEE 754 number, held as its bit pattern. The
/// machine stores and moves values; it leaves the arithmetic on them to its
/// host.
#[derive(Debug, Clone, Copy, PartialEq, Eq, Structural)]
pub struct Value {
    pub bits: u64,
}

impl Default for Value {
    /// The value whose bits are all zero: the number zero.
    fn default() -> (value: Value)
        ensures
            value.bits == 0,
    {
        Value { bits: 0 }
    }
}

impl Value {
    /// The value with the given bit pattern.
    pub fn from_bits(bits: u64) -> (value: Value)
        ensures
            value.bits == bits,
    {
        Value { bits }
    }

    /// The bit pattern of the value.
    pub fn to_bits(self) -> (bits: u64)
        ensures
            bits == self.bits,
    {
        self.bits
    }
}

/// A pool of values, each known by the index at which it was written.
pub struct Values {
    dyn_array: DynArray<Value>,
}

impl View for Values {
    type V = Seq<Value>;

    closed spec fn view(&self) -> Seq<Value> {
        self.dyn_array@.items
    }
}

impl Default for Values {
    /// The empty pool.
    fn default() -> (values: Values)
        ensures
            values@ == Seq::<Value>::empty(),
            values.wf(),
    {
        Values { dyn_array: DynArray::default() }
    }
}

impl Values {
    /// The invariant of the type.
    pub closed spec fn wf(&self) -> bool {
        self.dyn_array.wf()
    }

    /// Appends `value` to the pool.
    pub fn write(&mut self, value: Value)
        requires
            old(self).wf(),
            old(self)@.len() <= usize::MAX / 2,
        ensures
            final(self).wf(),
            final(self)@ == old(self)@.push(value),
    {
        self.dyn_array.write(value);
    }

    /// Releases the pool's storage and leaves it empty.
    pub fn free(&mut self)
        ensures
            final(self).wf(),
            final(self)@ == Seq::<Value>::empty(),
    {
        self.dyn_array.free();
    }

    /// The number of values in the pool.
    pub fn count(&self) -> (count: usize)
        ensures
            count == self@.len(),
    {
        self.dyn_array.count()
    }

    /// The value at index `pos`.
    pub fn get_at(&self, pos: usize) -> (value: Value)
        requires
            self.wf(),
            pos < self@.len(),
        ensures
            value == self@[pos as int],
    {
        *self.dyn_array.get_at(pos)
    }
}

} // verus!
