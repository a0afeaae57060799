//! The aggregate abstraction of the command side: an aggregate turns
//! commands into events and applies events to its own state.

use vstd::prelude::*;

verus! {

/// An aggregate root.
pub trait Aggregate {
    /// The events this aggregate emits and consumes.
    type Event;

    /// The commands this aggregate decides on.
    type Command;

    /// The error reported when a command is rejected.
    type Error;

    /// Decide which events `command` produces, possibly updating state.
    fn handle(&mut self, command: Self::Command) -> Result<Vec<Self::Event>, Self::Error>;

    /// Apply an event to the aggregate's state.
    fn apply(&mut self, event: Self::Event);
}

} // verus!
