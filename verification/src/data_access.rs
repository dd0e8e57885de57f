//! Single-slot value holders with snapshot reads.
//!
//! [`Da`] ("data access") always holds exactly one value; [`Oda`]
//! ("optional data access") holds zero or one.  Reading a cell returns a
//! reference-counted snapshot of the current value; writing installs a
//! fresh reference, so every snapshot handed out earlier keeps its value
//! for as long as its holder keeps it.

use vstd::prelude::*;

verus! {

/// Relies on `Arc::clone`: the returned handle points to the same value
/// as the argument.
#[verifier::external_body]
pub(crate) fn share<T>(v: &std::sync::Arc<T>) -> (r: std::sync::Arc<T>)
    ensures
        r == *v,
{
    std::sync::Arc::clone(v)
}

/// A single-slot holder that always contains exactly one value.
///
/// The slot's value is read through [`Da::get`], which returns a
/// snapshot: a reference-counted handle that later writes to the cell
/// never affect.  Writes replace the slot's reference as a whole.
pub struct Da<Value> {
    slot: std::sync::Arc<Value>,
}

impl<Value> View for Da<Value> {
    type V = Value;

    closed spec fn view(&self) -> Value {
        *self.slot
    }
}

impl<Value> Da<Value> {
    /// Creates a new cell holding `data`.
    pub fn new(data: Value) -> (r: Self)
        ensures
            r@ == data,
    {
        Da { slot: std::sync::Arc::new(data) }
    }

    /// Gets a snapshot of the current value.
    ///
    /// The snapshot is unaffected by any subsequent write to the cell.
    pub fn get(&self) -> (r: std::sync::Arc<Value>)
        ensures
            *r == self@,
    {
        share(&self.slot)
    }

    /// Replaces the slot's content with a fresh snapshot of `new_data`.
    ///
    /// Snapshots obtained earlier keep pointing at the old value.
    pub fn set(&mut self, new_data: Value)
        ensures
            final(self)@ == new_data,
    {
        self.slot = std::sync::Arc::new(new_data);
    }

    /// Creates a new cell around an existing snapshot, without copying
    /// the value.
    pub fn acquire(value_reference: std::sync::Arc<Value>) -> (r: Self)
        ensures
            r@ == *value_reference,
    {
        Da { slot: value_reference }
    }

    /// Installs an existing snapshot as the slot's new content, without
    /// copying the value.
    pub fn replace(&mut self, data_arc: std::sync::Arc<Value>)
        ensures
            final(self)@ == *data_arc,
    {
        self.slot = data_arc;
    }

    /// Copies the current value out of the cell.
    pub fn copy_value(&self) -> (r: Value) where Value: Copy
        ensures
            r == self@,
    {
        *self.slot
    }

    /// Reads the current value, applies `func` to it, and stores the
    /// result.  The value written back is `func`'s result for the value
    /// read at entry, whatever else happened in between: the final write
    /// wins.
    pub fn mutate<Func: FnOnce(&Value) -> Value>(&mut self, func: Func)
        requires
            call_requires(func, (&old(self)@,)),
        ensures
            call_ensures(func, (&old(self)@,), final(self)@),
    {
        let mutated_value = func(&*self.slot);
        self.slot = std::sync::Arc::new(mutated_value);
    }
}

impl<Value> Clone for Da<Value> {
    /// Creates a new cell holding the same value as the original.
    fn clone(&self) -> (r: Self)
        ensures
            r == *self,
    {
        Da { slot: share(&self.slot) }
    }
}

impl<Value: Default> Default for Da<Value> {
    /// Equivalent to `Da::new(Value::default())`.
    fn default() -> (r: Self)
        ensures
            call_ensures(Value::default, (), r@),
    {
        Da { slot: std::sync::Arc::new(Value::default()) }
    }
}

impl<Value> vstd::std_specs::convert::FromSpecImpl<Value> for Da<Value> {
    open spec fn obeys_from_spec() -> bool {
        true
    }

    open spec fn from_spec(data: Value) -> Self {
        choose|r: Self| r@ == data
    }
}

impl<Value> From<Value> for Da<Value> {
    /// Equivalent to calling [`Da::new`].
    fn from(data: Value) -> (r: Self)
        ensures
            r@ == data,
    {
        Da::new(data)
    }
}

/// The value a snapshot option stands for: the referenced value if a
/// snapshot is present, nothing otherwise.
pub open spec fn snapshot_view<Value>(o: Option<std::sync::Arc<Value>>) -> Option<Value> {
    match o {
        Some(a) => Some(*a),
        None => None,
    }
}

/// A single-slot holder whose slot contains zero or one values.
///
/// Identical to [`Da`], except that the slot may be empty; absence is a
/// valid, silent state, not an error.
pub struct Oda<Value> {
    slot: Option<std::sync::Arc<Value>>,
}

impl<Value> View for Oda<Value> {
    type V = Option<Value>;

    closed spec fn view(&self) -> Option<Value> {
        snapshot_view(self.slot)
    }
}

impl<Value> Oda<Value> {
    /// Creates a new cell holding `data`.
    pub fn new(data: Value) -> (r: Self)
        ensures
            r@ == Some(data),
    {
        Oda { slot: Some(std::sync::Arc::new(data)) }
    }

    /// Creates a new cell around an existing snapshot, without copying
    /// the value.
    pub fn acquire(value_reference: std::sync::Arc<Value>) -> (r: Self)
        ensures
            r@ == Some(*value_reference),
    {
        Oda { slot: Some(value_reference) }
    }

    /// Gets a snapshot of the current value, if one is present.
    ///
    /// The snapshot is unaffected by any subsequent write to the cell.
    pub fn get(&self) -> (r: Option<std::sync::Arc<Value>>)
        ensures
            snapshot_view(r) == self@,
    {
        match &self.slot {
            Some(a) => Some(share(a)),
            None => None,
        }
    }

    /// Replaces the slot's content with a fresh snapshot of `new_data`.
    ///
    /// Snapshots obtained earlier keep pointing at the old value.
    pub fn set(&mut self, new_data: Value)
        ensures
            final(self)@ == Some(new_data),
    {
        self.slot = Some(std::sync::Arc::new(new_data));
    }

    /// Installs an existing snapshot option as the slot's new content,
    /// without copying the value.
    pub fn replace(&mut self, data_arc: Option<std::sync::Arc<Value>>)
        ensures
            final(self)@ == snapshot_view(data_arc),
    {
        self.slot = data_arc;
    }

    /// Takes the current snapshot out of the cell, leaving it empty.
    pub fn empty(&mut self) -> (r: Option<std::sync::Arc<Value>>)
        ensures
            snapshot_view(r) == old(self)@,
            final(self)@ is None,
    {
        self.slot.take()
    }

    /// Replaces the slot's content with `new_data`, clearing the cell
    /// when `new_data` is absent.
    pub(crate) fn set_optional(&mut self, new_data: Option<Value>)
        ensures
            final(self)@ == new_data,
    {
        self.slot = match new_data {
            Some(v) => Some(std::sync::Arc::new(v)),
            None => None,
        };
    }

    /// Copies the current value out of the cell, if one is present.
    pub fn copy_value(&self) -> (r: Option<Value>) where Value: Copy
        ensures
            r == self@,
    {
        match &self.slot {
            Some(a) => Some(**a),
            None => None,
        }
    }

    /// If a value is present, applies `func` to it and stores the
    /// result; an empty cell is left untouched.  As for [`Da::mutate`],
    /// the final write wins.
    pub fn mutate<Func: FnOnce(&Value) -> Value>(&mut self, func: Func)
        requires
            old(self)@ matches Some(v) ==> call_requires(func, (&v,)),
        ensures
            old(self)@ is None ==> final(self)@ == old(self)@,
            old(self)@ matches Some(v) ==> (final(self)@ matches Some(w)
                && call_ensures(func, (&v,), w)),
    {
        match &self.slot {
            Some(a) => {
                let mutated_value = func(&**a);
                self.slot = Some(std::sync::Arc::new(mutated_value));
            }
            None => {}
        }
    }
}

impl<Value> Clone for Oda<Value> {
    /// Creates a new cell holding the same value as the original.
    fn clone(&self) -> (r: Self)
        ensures
            r == *self,
    {
        match &self.slot {
            Some(a) => Oda { slot: Some(share(a)) },
            None => Oda { slot: None },
        }
    }
}

impl<Value> Default for Oda<Value> {
    /// Creates an empty cell.
    fn default() -> (r: Self)
        ensures
            r@ is None,
    {
        Oda { slot: None }
    }
}

impl<Value> vstd::std_specs::convert::FromSpecImpl<Value> for Oda<Value> {
    open spec fn obeys_from_spec() -> bool {
        true
    }

    open spec fn from_spec(data: Value) -> Self {
        choose|r: Self| r@ == Some(data)
    }
}

impl<Value> From<Value> for Oda<Value> {
    /// Equivalent to calling [`Oda::new`].
    fn from(data: Value) -> (r: Self)
        ensures
            r@ == Some(data),
    {
        Oda::new(data)
    }
}

impl<Value: PartialEq + vstd::std_specs::cmp::PartialEqSpec> vstd::std_specs::cmp::PartialEqSpecImpl for Oda<Value> {
    open spec fn obeys_eq_spec() -> bool {
        Value::obeys_eq_spec()
    }

    open spec fn eq_spec(&self, other: &Self) -> bool {
        match (self@, other@) {
            (None, None) => true,
            (Some(a), Some(b)) => a.eq_spec(&b),
            _ => false,
        }
    }
}

impl<Value: PartialEq + vstd::std_specs::cmp::PartialEqSpec> PartialEq for Oda<Value> {
    /// Two cells compare equal by snapshot contents, not identity: both
    /// empty, or both holding equal values.
    fn eq(&self, other: &Self) -> bool {
        match (&self.slot, &other.slot) {
            (None, None) => true,
            (Some(self_data), Some(other_data)) => **self_data == **other_data,
            _ => false,
        }
    }
}

} // verus!
