//! Append-only ordered event logs: the raw address stream and the
//! (address, distance) stream that a trace produces for export.

use vstd::prelude::*;

verus! {

/// An append-only, ordered list of events, filled during one trace and read
/// out afterwards.
pub struct ListSerializable<T> {
    list: Vec<T>,
}

impl<T> View for ListSerializable<T> {
    type V = Seq<T>;

    closed spec fn view(&self) -> Seq<T> {
        self.list@
    }
}

impl<T> ListSerializable<T> {
    /// An empty log.
    pub fn new() -> (r: Self)
        ensures
            r@ == Seq::<T>::empty(),
    {
        ListSerializable { list: Vec::new() }
    }

    /// Append one event.
    pub fn add(&mut self, v: T)
        ensures
            final(self)@ == old(self)@.push(v),
    {
        self.list.push(v);
    }

    /// Number of events recorded so far.
    pub fn len(&self) -> (r: usize)
        ensures
            r == self@.len(),
    {
        self.list.len()
    }

    /// The event at position `i`, in access order.
    pub fn get(&self, i: usize) -> (r: &T)
        requires
            i < self@.len(),
        ensures
            *r == self@[i as int],
    {
        &self.list[i]
    }
}

} // verus!
