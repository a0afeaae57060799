//! The thin frame tying an event store to the command side.

use vstd::prelude::*;
use crate::event_store::EventStore;

verus! {

/// Holds the event store the application writes to and reads from.
pub struct CqrsFramework<E> where E: EventStore {
    /// The backing event store.
    pub store: E,
}

impl<E> CqrsFramework<E> where E: EventStore {
    /// Wrap an event store.
    pub fn new(store: E) -> (r: Self)
        ensures
            r.store == store,
    {
        CqrsFramework { store }
    }
}

} // verus!
