//! Access-scoped views over an entity store and a conflict-aware system
//! schedule: descriptor sets, subworlds, batch planning, deferred commands
//! and the executor's state machine.

pub mod access;
pub mod batch;
pub mod command;
pub mod error;
pub mod executor;
pub mod schedule;
pub mod subworld;

pub use access::{Access, AccessSet};
pub use batch::{plan_batches, BatchPlan};
pub use command::{Command, CommandBuffer};
pub use error::{Entity, Error, Result};
pub use executor::{after_batch, begin, finish, first_failure, RunState};
pub use schedule::{Schedule, ScheduleBuilder};
pub use subworld::{resolve_lookup, Lookup, SubWorldRaw};
