use vstd::prelude::*;

use crate::access::AccessSet;
use crate::batch::{plan_batches, plan_of, sets_view, BatchPlan};

verus! {

/// Collects systems, by their descriptor sets, in registration order.
pub struct ScheduleBuilder {
    systems: Vec<AccessSet>,
}

impl View for ScheduleBuilder {
    type V = Seq<AccessSet>;

    /// The registered systems' descriptor sets, in registration order.
    closed spec fn view(&self) -> Seq<AccessSet> {
        self.systems@
    }
}

impl ScheduleBuilder {
    /// A builder with no system.
    pub fn new() -> (r: Self)
        ensures
            r@ == Seq::<AccessSet>::empty(),
    {
        ScheduleBuilder { systems: Vec::new() }
    }

    /// Registers a system with descriptor set `access`; its index is the
    /// number of systems registered before it.
    pub fn add_system(&mut self, access: AccessSet)
        ensures
            final(self)@ == old(self)@.push(access),
    {
        self.systems.push(access);
    }

    /// Registers, after the systems already here, every system of `other`, in
    /// its order; `other` is left empty.
    pub fn append(&mut self, other: &mut ScheduleBuilder)
        ensures
            final(self)@ == old(self)@ + old(other)@,
            final(other)@ == Seq::<AccessSet>::empty(),
    {
        self.systems.append(&mut other.systems);
    }

    /// The number of registered systems.
    pub fn len(&self) -> (r: usize)
        ensures
            r == self@.len(),
    {
        self.systems.len()
    }

    /// Plans the batches once and makes the schedule.
    pub fn build(self) -> (r: Schedule)
        ensures
            r.systems() == self@,
            r.wf(),
    {
        let plan = plan_batches(&self.systems);
        Schedule { systems: self.systems, plan }
    }
}

/// Registered systems with their batch plan, computed once.
pub struct Schedule {
    systems: Vec<AccessSet>,
    plan: BatchPlan,
}

impl Schedule {
    /// The systems' descriptor sets, in registration order.
    pub closed spec fn systems(&self) -> Seq<AccessSet> {
        self.systems@
    }

    /// The batch plan.
    pub closed spec fn plan(&self) -> BatchPlan {
        self.plan
    }

    /// The plan is the plan of the systems.
    pub open spec fn wf(&self) -> bool {
        plan_of(self.plan(), sets_view(self.systems()))
    }

    /// The number of systems.
    pub fn system_count(&self) -> (r: usize)
        ensures
            r == self.systems().len(),
    {
        self.systems.len()
    }

    /// The number of batches.
    pub fn batch_count(&self) -> (r: usize)
        ensures
            r == self.plan().batches@.len(),
    {
        self.plan.batches.len()
    }

    /// The systems of batch `b`, in registration order.
    pub fn batch(&self, b: usize) -> (r: &Vec<usize>)
        requires
            b < self.plan().batches@.len(),
        ensures
            r@ == self.plan().batches@[b as int]@,
    {
        &self.plan.batches[b]
    }

    /// The batch of system `i`.
    pub fn batch_of(&self, i: usize) -> (r: usize)
        requires
            self.wf(),
            i < self.systems().len(),
        ensures
            r == self.plan().levels@[i as int],
    {
        self.plan.levels[i]
    }

    /// The whole plan.
    pub fn batch_plan(&self) -> (r: &BatchPlan)
        ensures
            *r == self.plan(),
    {
        &self.plan
    }

    /// The descriptor set of system `i`.
    pub fn system_access(&self, i: usize) -> (r: &AccessSet)
        requires
            i < self.systems().len(),
        ensures
            *r == self.systems()[i as int],
    {
        &self.systems[i]
    }
}

} // verus!
