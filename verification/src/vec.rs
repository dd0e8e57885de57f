//! A growable, indexable sequence built from three cooperating cells.
//!
//! The structure keeps its allocated slot count, its logical length and
//! its backing storage in three separate cells.  Every compound
//! mutation (push, remove) routes all three cells through one atomic
//! transform ([`crate::locking_mutate`]), so the capacity, length and
//! storage can never be observed in a mutually inconsistent state.
//!
//! Capacity doubles when a push finds the storage full (starting at 1)
//! and halves when, after a removal, half the capacity still covers the
//! remaining length.

use vstd::prelude::*;

use crate::data_access::Da;
use crate::data_access::Oda;

verus! {

/// The error raised when an index falls outside the current length.
#[derive(Debug)]
pub enum CellVecErr {
    OutOfBounds { index: usize, max_bound: usize },
}

/// Relies on `format!` to render the two numbers into the message.
#[verifier::external_body]
fn render_out_of_bounds(index: usize, max_bound: usize) -> String {
    format!("Index out of bounds. Expected {index} (index) < {max_bound}.")
}

impl CellVecErr {
    /// The error rendered as text.
    pub fn message(&self) -> String {
        match self {
            CellVecErr::OutOfBounds { index, max_bound } => render_out_of_bounds(
                *index,
                *max_bound,
            ),
        }
    }
}

/// The capacity a full storage grows to: 1 from empty, twice the
/// current allocation otherwise.
pub open spec fn grown_capacity(capacity: nat) -> nat {
    if capacity == 0 {
        1
    } else {
        2 * capacity
    }
}

/// The capacity after a push that found the cells at length `len` and
/// capacity `capacity`.
pub open spec fn capacity_after_push(len: nat, capacity: nat) -> nat {
    if len >= capacity {
        grown_capacity(capacity)
    } else {
        capacity
    }
}

/// The capacity after a removal that left the cells at length `len`:
/// halved whenever half the capacity still covers `len`.
pub open spec fn capacity_after_remove(len: nat, capacity: nat) -> nat {
    if capacity / 2 >= len {
        capacity / 2
    } else {
        capacity
    }
}

/// A growable, indexable sequence of values, readable by snapshot.
///
/// Indices `[0, length)` hold the stored values; slots at
/// `[length, capacity)` are empty or stale placeholders awaiting reuse.
pub struct CellVec<Value> {
    /// The allocated slot count of the storage on the heap.
    capacity: Da<usize>,
    /// The count of logically occupied slots.
    len: Da<usize>,
    /// The storage holding one optional cell per allocated slot.
    array: Da<Vec<Oda<Value>>>,
}

impl<Value> Clone for CellVec<Value> {
    /// Creates a new sequence holding the same values, length and
    /// capacity as the original.
    fn clone(&self) -> (r: Self)
        ensures
            r == *self,
    {
        CellVec {
            capacity: self.capacity.clone(),
            len: self.len.clone(),
            array: self.array.clone(),
        }
    }
}

impl<Value> View for CellVec<Value> {
    type V = Seq<Value>;

    closed spec fn view(&self) -> Seq<Value> {
        Seq::new(self.len@ as nat, |i: int| self.array@@[i]@.unwrap())
    }
}

impl<Value> CellVec<Value> {
    /// The allocated slot count.
    pub closed spec fn spec_capacity(&self) -> nat {
        self.capacity@ as nat
    }

    /// The storage cells, in slot order.
    spec fn slots(&self) -> Seq<Oda<Value>> {
        self.array@@
    }

    /// The three cells agree: the storage has exactly `capacity` slots,
    /// no more than `capacity` of them are occupied, and every slot
    /// below `len` holds a value.
    pub closed spec fn well_formed(&self) -> bool {
        &&& self.len@ <= self.capacity@
        &&& self.slots().len() == self.capacity@
        &&& forall|i: int| 0 <= i < self.len@ ==> (#[trigger] self.slots()[i])@ is Some
    }

    /// Creates a new sequence with no slots at all.
    pub fn new() -> (r: Self)
        ensures
            r.well_formed(),
            r@ == Seq::<Value>::empty(),
            r.spec_capacity() == 0,
    {
        let r = CellVec { capacity: Da::new(0), len: Da::new(0), array: Da::new(Vec::new()) };
        proof {
            assert(r@ =~= Seq::<Value>::empty());
        }
        r
    }

    /// The count of logically occupied slots.
    pub fn length(&self) -> (r: usize)
        ensures
            r == self@.len(),
    {
        self.len.copy_value()
    }

    /// The allocated slot count.
    pub fn capacity(&self) -> (r: usize)
        ensures
            r == self.spec_capacity(),
    {
        self.capacity.copy_value()
    }

    /// Checks that `index` falls inside the current length, reporting
    /// the violated bound otherwise.
    pub fn in_bounds(&self, index: usize) -> (r: Result<(), CellVecErr>)
        ensures
            index < self@.len() ==> r is Ok,
            index >= self@.len() ==> r == Result::<(), CellVecErr>::Err(
                CellVecErr::OutOfBounds { index, max_bound: self@.len() as usize },
            ),
    {
        let within_bounds = index < self.len.copy_value();
        match within_bounds {
            true => Ok(()),
            false => Err(CellVecErr::OutOfBounds { index, max_bound: self.len.copy_value() }),
        }
    }

    /// Returns a snapshot of the value at `index`, or nothing when
    /// `index` falls outside the current length.
    pub fn get(&self, index: usize) -> (r: Option<std::sync::Arc<Value>>)
        requires
            self.well_formed(),
        ensures
            index < self@.len() ==> (r matches Some(a) && *a == self@[index as int]),
            index >= self@.len() ==> r is None,
    {
        if self.in_bounds(index).is_err() {
            return None;
        }
        let storage = self.array.get();
        storage[index].get()
    }

    /// Appends `new_value`, growing the storage first when it is full.
    ///
    /// The growth step keeps every existing slot handle and pads the
    /// storage with fresh empty slots; length, capacity and storage all
    /// change together in one atomic transform.
    pub fn push(&mut self, new_value: Value)
        requires
            old(self).well_formed(),
            capacity_after_push(old(self)@.len(), old(self).spec_capacity()) <= usize::MAX,
        ensures
            final(self).well_formed(),
            final(self)@ == old(self)@.push(new_value),
            final(self).spec_capacity() == capacity_after_push(
                old(self)@.len(),
                old(self).spec_capacity(),
            ),
    {
        let grow_and_insert = |len: &usize, capacity: &usize, array: &Vec<Oda<Value>>| -> (r: (
            usize,
            usize,
            Vec<Oda<Value>>,
        ))
            requires
                *len <= *capacity,
                array@.len() == *capacity,
                capacity_after_push(*len as nat, *capacity as nat) <= usize::MAX,
            ensures
                r.0 == *len + 1,
                r.1 == capacity_after_push(*len as nat, *capacity as nat),
                r.2@.len() == r.1,
                forall|j: int| 0 <= j < array@.len() && j != *len ==> r.2@[j] == array@[j],
                forall|j: int|
                    array@.len() <= j < r.2@.len() && j != *len ==> (#[trigger] r.2@[j])@ is None,
                r.2@[*len as int]@ == Some(new_value),
            {
                let mut new_array = clone_slots(array);
                let mut new_capacity: usize = *capacity;
                if *len >= *capacity {
                    let grow_by: usize = if *capacity == 0 {
                        1
                    } else {
                        *capacity
                    };
                    let mut i: usize = 0;
                    while i < grow_by
                        invariant
                            i <= grow_by,
                            new_array@.len() == array@.len() + i,
                            forall|j: int| 0 <= j < array@.len() ==> new_array@[j] == array@[j],
                            forall|j: int|
                                array@.len() <= j < new_array@.len() ==> (#[trigger] new_array@[j])@
                                    is None,
                        decreases grow_by - i,
                    {
                        new_array.push(Oda::default());
                        i += 1;
                    }
                    new_capacity = if *capacity == 0 {
                        1
                    } else {
                        *capacity * 2
                    };
                }
                let slot = &mut new_array[*len];
                slot.set(new_value);
                (*len + 1, new_capacity, new_array)
            };
        crate::locking_mutate::locking_mutate3(
            &mut self.len,
            &mut self.capacity,
            &mut self.array,
            grow_and_insert,
        );
        proof {
            let new_self = *final(self);
            assert forall|i: int| 0 <= i < new_self.len@ implies (#[trigger] new_self.slots()[i])@
                is Some by {
                if i < old(self).len@ {
                    assert(new_self.slots()[i] == old(self).slots()[i]);
                    assert((old(self).slots()[i])@ is Some);
                } else {
                    assert(i == old(self).len@);
                    assert((new_self.slots()[i])@ == Some(new_value));
                }
            }
            assert(final(self)@ =~= old(self)@.push(new_value));
        }
    }

    /// Replaces the value at `index`, returning a snapshot of the value
    /// it held before; reports the violated bound when `index` falls
    /// outside the current length.
    pub fn set(&mut self, index: usize, new_value: Value) -> (r: Option<std::sync::Arc<Value>>)
        requires
            old(self).well_formed(),
        ensures
            final(self).well_formed(),
            index < old(self)@.len() ==> (r matches Some(p) && *p == old(self)@[index as int]
                && final(self)@ == old(self)@.update(index as int, new_value)),
            index >= old(self)@.len() ==> (r is None && *final(self) == *old(self)),
            final(self).spec_capacity() == old(self).spec_capacity(),
    {
        if self.in_bounds(index).is_err() {
            return None;
        }
        let storage = self.array.get();
        let mut new_array = clone_slots(&*storage);
        let slot = &mut new_array[index];
        let previous = slot.get();
        slot.set(new_value);
        self.array.set(new_array);
        proof {
            assert(final(self)@ =~= old(self)@.update(index as int, new_value));
        }
        previous
    }

    /// Removes the value at `index`: the slots above it shift down one
    /// position, the length drops by one, and the capacity halves when
    /// half of it still covers the remaining length.  Reports the
    /// violated bound when `index` falls outside the current length.
    pub fn remove(&mut self, index: usize) -> (r: Result<std::sync::Arc<Value>, CellVecErr>)
        requires
            old(self).well_formed(),
        ensures
            final(self).well_formed(),
            index < old(self)@.len() ==> (r matches Ok(a) && *a == old(self)@[index as int]
                && final(self)@ == old(self)@.remove(index as int)
                && final(self).spec_capacity() == capacity_after_remove(
                (old(self)@.len() - 1) as nat,
                old(self).spec_capacity(),
            )),
            index >= old(self)@.len() ==> (r == Result::<std::sync::Arc<Value>, CellVecErr>::Err(
                CellVecErr::OutOfBounds { index, max_bound: old(self)@.len() as usize },
            ) && *final(self) == *old(self)),
    {
        if let Err(out_of_bounds) = self.in_bounds(index) {
            return Err(out_of_bounds);
        }
        let removed = self.get(index).unwrap();
        let shift_and_shrink = |len: &usize, capacity: &usize, array: &Vec<Oda<Value>>| -> (r: (
            usize,
            usize,
            Vec<Oda<Value>>,
        ))
            requires
                *len <= *capacity,
                array@.len() == *capacity,
                index < *len,
            ensures
                r.0 == *len - 1,
                r.1 == capacity_after_remove((*len - 1) as nat, *capacity as nat),
                r.2@.len() == r.1,
                forall|j: int| 0 <= j < index && j < r.2@.len() ==> r.2@[j] == array@[j],
                forall|j: int|
                    index <= j < r.2@.len() && j + 1 < array@.len() ==> r.2@[j] == array@[j + 1],
                forall|j: int|
                    index <= j < r.2@.len() && j + 1 >= array@.len() ==> (#[trigger] r.2@[j])@
                        is None,
            {
                let new_len = *len - 1;
                let new_capacity: usize = if *capacity / 2 >= new_len {
                    *capacity / 2
                } else {
                    *capacity
                };
                let mut new_array: Vec<Oda<Value>> = Vec::new();
                let mut j: usize = 0;
                while j < new_capacity
                    invariant
                        j <= new_capacity,
                        new_array@.len() == j,
                        array@.len() == *capacity,
                        index < *len <= *capacity,
                        forall|k: int| 0 <= k < j && k < index ==> new_array@[k] == array@[k],
                        forall|k: int|
                            index <= k < j && k + 1 < array@.len() ==> new_array@[k] == array@[k
                                + 1],
                        forall|k: int|
                            index <= k < j && k + 1 >= array@.len() ==> (#[trigger] new_array@[k])@
                                is None,
                    decreases new_capacity - j,
                {
                    if j < index {
                        new_array.push(array[j].clone());
                    } else if j + 1 < array.len() {
                        new_array.push(array[j + 1].clone());
                    } else {
                        new_array.push(Oda::default());
                    }
                    j += 1;
                }
                (new_len, new_capacity, new_array)
            };
        crate::locking_mutate::locking_mutate3(
            &mut self.len,
            &mut self.capacity,
            &mut self.array,
            shift_and_shrink,
        );
        proof {
            let new_self = *final(self);
            assert forall|i: int| 0 <= i < new_self.len@ implies (#[trigger] new_self.slots()[i])@
                is Some by {
                if i < index {
                    assert(new_self.slots()[i] == old(self).slots()[i]);
                } else {
                    assert(i + 1 < old(self).slots().len());
                    assert(new_self.slots()[i] == old(self).slots()[i + 1]);
                }
            }
            assert(final(self)@ =~= old(self)@.remove(index as int));
        }
        Ok(removed)
    }
}

/// A forward cursor over a [`CellVec`], yielding one cell handle per
/// occupied slot in index order.
///
/// The cursor re-reads the bounds on every step, so it is not a frozen
/// view of the sequence.
pub struct CellVecIterator<Value> {
    cell_vec: CellVec<Value>,
    index: usize,
}

impl<Value> CellVecIterator<Value> {
    /// The cursor walks a well-formed sequence and never runs past its
    /// length by more than one step.
    pub closed spec fn well_formed(&self) -> bool {
        &&& self.cell_vec.well_formed()
        &&& self.index <= self.cell_vec@.len() + 1
    }

    /// The values not yet yielded, in the order they will come.
    pub closed spec fn remaining(&self) -> Seq<Value> {
        if self.index <= self.cell_vec@.len() {
            self.cell_vec@.skip(self.index as int)
        } else {
            Seq::empty()
        }
    }

    /// Yields a cell holding the next value, or nothing once every
    /// occupied slot has been visited.
    pub fn next(&mut self) -> (r: Option<Da<Value>>)
        requires
            old(self).well_formed(),
        ensures
            final(self).well_formed(),
            old(self).remaining().len() > 0 ==> (r matches Some(cell) && cell@ == old(
                self,
            ).remaining()[0] && final(self).remaining() == old(self).remaining().skip(1)),
            old(self).remaining().len() == 0 ==> (r is None && final(self).remaining()
                == old(self).remaining()),
    {
        let value = self.cell_vec.get(self.index);
        match value {
            Some(value) => {
                self.index = self.index + 1;
                proof {
                    assert(final(self).remaining() =~= old(self).remaining().skip(1));
                }
                Some(Da::acquire(value))
            }
            None => None,
        }
    }
}

impl<Value> CellVec<Value> {
    /// Turns the sequence into a forward cursor starting at index 0.
    pub fn into_iter(self) -> (r: CellVecIterator<Value>)
        requires
            self.well_formed(),
        ensures
            r.well_formed(),
            r.remaining() == self@,
    {
        let r = CellVecIterator { cell_vec: self, index: 0 };
        proof {
            assert(r.remaining() =~= r.cell_vec@);
        }
        r
    }
}

/// The capacity that `n` pushes into a sequence created by
/// [`CellVec::new`] produce, one doubling step per push.
pub open spec fn capacity_after_pushes(n: nat) -> nat
    decreases n,
{
    if n == 0 {
        0
    } else {
        capacity_after_push((n - 1) as nat, capacity_after_pushes((n - 1) as nat))
    }
}

/// The growth law: after `n` pushes from empty the allocation covers
/// the length, never reaches twice the length, and is zero or a power
/// of two.  Capacity doubles exactly when a push finds the storage
/// full, starting from a single slot.
pub proof fn lemma_capacity_growth(n: nat)
    ensures
        capacity_after_pushes(n) >= n,
        n >= 1 ==> capacity_after_pushes(n) < 2 * n,
        capacity_after_pushes(n) == 0 || vstd::arithmetic::power2::is_pow2(
            capacity_after_pushes(n) as int,
        ),
    decreases n,
{
    if n > 0 {
        lemma_capacity_growth((n - 1) as nat);
        let previous = capacity_after_pushes((n - 1) as nat);
        if n - 1 >= previous {
            if previous == 0 {
                assert(vstd::arithmetic::power2::is_pow2(1)) by {
                    reveal_with_fuel(vstd::arithmetic::power2::is_pow2, 2);
                }
            } else {
                assert(vstd::arithmetic::power2::is_pow2(2 * previous as int)) by {
                    reveal_with_fuel(vstd::arithmetic::power2::is_pow2, 2);
                }
            }
        }
    }
}

/// The cancellation law: in any state that pushes alone can reach —
/// the capacity covers the length, stays under twice the length, and
/// is either one or even — removing an element and then pushing one
/// restores the capacity exactly, so the pair leaves length and
/// capacity unchanged.
pub proof fn lemma_remove_push_cancel(len: nat, capacity: nat)
    requires
        1 <= len <= capacity,
        capacity < 2 * len,
        capacity == 1 || capacity % 2 == 0,
    ensures
        capacity_after_push((len - 1) as nat, capacity_after_remove((len - 1) as nat, capacity))
            == capacity,
{
}

/// Copies a storage vector slot by slot; each copied handle holds the
/// same value as the original.
fn clone_slots<Value>(slots: &Vec<Oda<Value>>) -> (r: Vec<Oda<Value>>)
    ensures
        r@ == slots@,
{
    let mut r: Vec<Oda<Value>> = Vec::new();
    let mut i: usize = 0;
    while i < slots.len()
        invariant
            i <= slots@.len(),
            r@.len() == i,
            forall|j: int| 0 <= j < i ==> r@[j] == slots@[j],
        decreases slots@.len() - i,
    {
        r.push(slots[i].clone());
        i += 1;
    }
    proof {
        assert(r@ =~= slots@);
    }
    r
}

} // verus!
