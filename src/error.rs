use vstd::prelude::*;

use crate::access::AccessSet;

verus! {

/// An entity of the store: its slot and the generation of that slot.
#[derive(PartialEq, Eq, Structural, Clone, Copy, Debug)]
pub struct Entity {
    pub id: u32,
    pub generation: u32,
}

/// The errors of subworld access and schedule execution.
#[derive(Clone, Debug)]
pub enum Error {
    /// A query or access asked for more than the subworld holds.
    IncompatibleSubworld { subworld: AccessSet, query: AccessSet },
    /// The entity is not in the store.
    NoSuchEntity(Entity),
    /// The entity is in the store but lacks the component with this key.
    MissingComponent(Entity, u64),
    /// The system with this index reported a failure.
    SystemFailure(usize, String),
}

/// The result of the library's fallible operations.
pub type Result<T> = core::result::Result<T, Error>;

} // verus!
