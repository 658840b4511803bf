//! A growable, append-only buffer. It starts empty without storage, and
//! whenever an append finds it full its capacity doubles, starting at 8.

use vstd::prelude::*;
use vstd::arithmetic::power2::{lemma2_to64, lemma_pow2_unfold, pow2};

verus! {

/// What a buffer is: its items in the order of their writing, and the
/// number of items that its storage has room for.
pub struct Buffer<T> {
    pub items: Seq<T>,
    pub capacity: nat,
}

/// The capacity that a full buffer of capacity `capacity` grows to.
pub open spec fn grown(capacity: nat) -> nat {
    if 2 * capacity < 8 {
        8
    } else {
        2 * capacity
    }
}

/// A capacity that growth from nothing can reach: 0, or 8 times a power of
/// two.
pub open spec fn is_scaled(capacity: nat) -> bool {
    capacity == 0 || exists|k: nat| capacity == 8 * #[trigger] pow2(k)
}

impl<T> Buffer<T> {
    /// The buffer without items and without storage.
    pub open spec fn empty() -> Self {
        Buffer { items: Seq::empty(), capacity: 0 }
    }

    /// The number of items.
    pub open spec fn count(self) -> nat {
        self.items.len()
    }

    /// The items fit in the storage, whose size growth from nothing can
    /// reach.
    pub open spec fn valid(self) -> bool {
        self.count() <= self.capacity && is_scaled(self.capacity)
    }

    /// The buffer after one append: the item is last, and a full buffer
    /// has grown.
    pub open spec fn write(self, item: T) -> Self {
        Buffer {
            items: self.items.push(item),
            capacity: if self.count() == self.capacity {
                grown(self.capacity)
            } else {
                self.capacity
            },
        }
    }

    /// The buffer after appending `items` one by one.
    pub open spec fn write_all(self, items: Seq<T>) -> Self
        decreases items.len(),
    {
        if items.len() == 0 {
            self
        } else {
            self.write_all(items.drop_last()).write(items.last())
        }
    }
}

/// Growth keeps a capacity scaled, at least doubles it, and makes room.
pub proof fn lemma_grown(capacity: nat)
    requires
        is_scaled(capacity),
    ensures
        is_scaled(grown(capacity)),
        grown(capacity) > capacity,
        capacity > 0 ==> grown(capacity) == 2 * capacity,
{
    lemma2_to64();
    if capacity == 0 {
        assert(grown(capacity) == 8 * pow2(0));
    } else {
        let k = choose|k: nat| capacity == 8 * #[trigger] pow2(k);
        vstd::arithmetic::power2::lemma_pow2_pos(k);
        lemma_pow2_unfold(k + 1);
        assert(grown(capacity) == 8 * pow2(k + 1));
    }
}

/// An append keeps a valid buffer valid.
pub proof fn lemma_write_valid<T>(buffer: Buffer<T>, item: T)
    requires
        buffer.valid(),
    ensures
        buffer.write(item).valid(),
{
    lemma_grown(buffer.capacity);
}

/// After any sequence of appends the buffer holds what it held before,
/// followed by the appended items in their order, so each item is still at
/// the index at which it was written; and the buffer is valid: its capacity
/// is scaled and no less than its count.
pub proof fn lemma_write_all<T>(buffer: Buffer<T>, items: Seq<T>)
    requires
        buffer.valid(),
    ensures
        buffer.write_all(items).items == buffer.items + items,
        buffer.write_all(items).count() == buffer.count() + items.len(),
        buffer.write_all(items).valid(),
    decreases items.len(),
{
    if items.len() == 0 {
        assert(buffer.items + items == buffer.items);
    } else {
        lemma_write_all(buffer, items.drop_last());
        lemma_write_valid(buffer.write_all(items.drop_last()), items.last());
        assert(buffer.items + items == (buffer.items + items.drop_last()).push(items.last()));
    }
}

/// After `N` appends to an empty buffer the count is `N`, item `i` is the
/// `i`-th that was appended, and the capacity is scaled and no less than
/// `N`.
pub proof fn lemma_appends<T>(items: Seq<T>)
    ensures
        Buffer::<T>::empty().write_all(items).count() == items.len(),
        Buffer::<T>::empty().write_all(items).items == items,
        Buffer::<T>::empty().write_all(items).capacity >= items.len(),
        is_scaled(Buffer::<T>::empty().write_all(items).capacity),
{
    lemma_write_all(Buffer::<T>::empty(), items);
    assert(Seq::<T>::empty() + items == items);
}

/// The capacity to grow to from `capacity`: twice as much, and at least 8.
pub fn grow_capacity(capacity: usize) -> (new_capacity: usize)
    requires
        capacity <= usize::MAX / 2,
    ensures
        new_capacity == grown(capacity as nat),
{
    if capacity < 4 {
        8
    } else {
        capacity * 2
    }
}

/// Resizes `storage` to `new_capacity` slots, or releases it where
/// `new_capacity` is 0. The slots that both the old and the new storage
/// have keep what they hold; what a new slot holds is not specified.
/// Running out of memory ends the process.
pub fn reallocate<T: Default + Clone>(
    storage: &mut Vec<T>,
    old_capacity: usize,
    new_capacity: usize,
)
    ensures
        final(storage)@.len() == new_capacity,
        forall|i: int|
            0 <= i < old(storage)@.len() && i < new_capacity ==> final(storage)@[i] == old(
                storage,
            )@[i],
{
    if new_capacity == 0 {
        *storage = Vec::new();
        return ;
    }
    let ghost before = storage@;
    storage.resize(new_capacity, T::default());
    assert forall|i: int| 0 <= i < before.len() && i < new_capacity implies storage@[i]
        == before[i] by {
        if new_capacity > before.len() {
            assert(storage@.subrange(0, before.len() as int)[i] == before[i]);
        }
    }
}

/// Grows `storage` from `old_capacity` to `new_capacity` slots: afterwards
/// it has `new_capacity` slots, and the old slots keep what they hold.
pub fn grow_array<T: Default + Clone>(
    storage: &mut Vec<T>,
    old_capacity: usize,
    new_capacity: usize,
)
    ensures
        final(storage)@.len() == new_capacity,
        forall|i: int|
            0 <= i < old(storage)@.len() && i < new_capacity ==> final(storage)@[i] == old(
                storage,
            )@[i],
{
    reallocate(storage, old_capacity, new_capacity);
}

/// Releases `storage`: no slot is left.
pub fn free_array<T: Default + Clone>(storage: &mut Vec<T>, capacity: usize)
    ensures
        final(storage)@ == Seq::<T>::empty(),
{
    reallocate(storage, capacity, 0);
    assert(storage@ =~= Seq::<T>::empty());
}

/// A growable buffer of `T`: storage of `capacity` slots, of which the
/// first `count` hold the items.
pub struct DynArray<T> {
    data: Vec<T>,
    capacity: usize,
    count: usize,
}

impl<T> View for DynArray<T> {
    type V = Buffer<T>;

    closed spec fn view(&self) -> Buffer<T> {
        Buffer {
            items: Seq::new(self.count as nat, |i: int| self.data@[i]),
            capacity: self.capacity as nat,
        }
    }
}

impl<T> Default for DynArray<T> {
    /// The empty buffer, which holds no storage.
    fn default() -> (array: DynArray<T>)
        ensures
            array@ == Buffer::<T>::empty(),
            array.wf(),
    {
        let array = DynArray { data: Vec::new(), capacity: 0, count: 0 };
        assert(array@.items =~= Seq::<T>::empty());
        array
    }
}

impl<T> DynArray<T> {
    /// The storage has `capacity` slots, and the items lie within them.
    pub closed spec fn storage_wf(&self) -> bool {
        self.data@.len() == self.capacity && self.count <= self.capacity
    }

    /// The invariant of the type.
    pub open spec fn wf(&self) -> bool {
        self.storage_wf() && self@.valid()
    }

    /// Appends `data`, growing the storage first where it is full.
    pub fn write(&mut self, data: T) where T: Default + Clone
        requires
            old(self).wf(),
            old(self)@.count() <= usize::MAX / 2,
        ensures
            final(self).wf(),
            final(self)@ == old(self)@.write(data),
    {
        proof {
            lemma_write_valid(self@, data);
        }
        if self.capacity == self.count {
            let old_capacity = self.capacity;
            self.capacity = grow_capacity(old_capacity);
            proof {
                lemma_grown(old_capacity as nat);
            }
            grow_array(&mut self.data, old_capacity, self.capacity);
        }
        self.data[self.count] = data;
        self.count = self.count + 1;
        assert(self@.items =~= old(self)@.items.push(data));
    }

    /// Releases the storage and leaves the buffer empty.
    pub fn free(&mut self) where T: Default + Clone
        ensures
            final(self)@ == Buffer::<T>::empty(),
            final(self).wf(),
    {
        free_array(&mut self.data, self.capacity);
        self.capacity = 0;
        self.count = 0;
        assert(self@.items =~= Seq::<T>::empty());
    }

    /// The item at index `pos`.
    pub fn get_at(&self, pos: usize) -> (item: &T)
        requires
            self.wf(),
            pos < self@.count(),
        ensures
            *item == self@.items[pos as int],
    {
        &self.data[pos]
    }

    /// The number of items.
    pub fn count(&self) -> (count: usize)
        ensures
            count == self@.count(),
    {
        self.count
    }

    /// The number of items that the storage has room for.
    pub fn capacity(&self) -> (capacity: usize)
        ensures
            capacity == self@.capacity,
    {
        self.capacity
    }
}

} // verus!
