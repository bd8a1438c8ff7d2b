use vstd::prelude::*;

use crate::error::{Error, Result};

verus! {

/// Where one run of a schedule stands.
pub enum RunState {
    /// Nothing has run yet.
    Idle,
    /// The batch with this index is to run next.
    Running(usize),
    /// Every batch ran and every system succeeded.
    Done,
    /// A batch had a failing system; this is the first failure of it.
    Failed(Error),
}

/// The first failure among the outcomes of one batch, by system order.
pub open spec fn first_failure_spec(
    batch: Seq<usize>,
    outcomes: Seq<core::result::Result<(), String>>,
) -> Option<Error>
    decreases outcomes.len(),
{
    if outcomes.len() == 0 {
        None
    } else {
        match outcomes[0] {
            Err(msg) => Some(Error::SystemFailure(batch[0], msg)),
            Ok(_) => first_failure_spec(batch.drop_first(), outcomes.drop_first()),
        }
    }
}

/// Starts a run of a schedule with `batch_count` batches.
pub fn begin(batch_count: usize) -> (r: RunState)
    ensures
        batch_count == 0 ==> r is Done,
        batch_count > 0 ==> r == RunState::Running(0),
{
    if batch_count == 0 {
        RunState::Done
    } else {
        RunState::Running(0)
    }
}

/// The first failure among the outcomes of the systems of one batch, in the
/// batch's system order, as a failure of that system.
pub fn first_failure(batch: &Vec<usize>, outcomes: Vec<core::result::Result<(), String>>) -> (r:
    Option<Error>)
    requires
        outcomes@.len() == batch@.len(),
    ensures
        r == first_failure_spec(batch@, outcomes@),
        r is None <==> forall|k: int| 0 <= k < outcomes@.len() ==> #[trigger] outcomes@[k] is Ok,
{
    let ghost all = outcomes@;
    let mut rest = outcomes;
    let n = batch.len();
    let mut i: usize = 0;
    assert(batch@.skip(0) =~= batch@);
    assert(all.skip(0) =~= all);
    while rest.len() > 0
        invariant
            0 <= i <= batch@.len(),
            rest@.len() == batch@.len() - i,
            rest@ == all.skip(i as int),
            all.len() == batch@.len(),
            all == outcomes@,
            n == batch@.len(),
            first_failure_spec(batch@, all) == first_failure_spec(batch@.skip(i as int), rest@),
            forall|k: int| 0 <= k < i ==> #[trigger] all[k] is Ok,
        decreases rest@.len(),
    {
        let ghost before = rest@;
        let outcome = rest.remove(0);
        proof {
            assert(rest@ =~= all.skip(i + 1));
            assert(batch@.skip(i as int).drop_first() =~= batch@.skip(i + 1));
            assert(before.drop_first() =~= rest@);
            assert(before[0] == all[i as int]);
            assert(batch@.skip(i as int)[0] == batch@[i as int]);
            assert(outcome == all[i as int]);
        }
        match outcome {
            Err(msg) => {
                return Some(Error::SystemFailure(batch[i], msg));
            },
            Ok(_) => {},
        }
        i = i + 1;
    }
    proof {
        assert(batch@.skip(i as int).len() == 0);
    }
    None
}

/// The state after batch `b` of `batch_count` ran, with `failure` the first
/// failure of its systems, if any: a failure stops the run after this batch,
/// otherwise the next batch runs, or the run is done after the last.
pub fn after_batch(b: usize, batch_count: usize, failure: Option<Error>) -> (r: RunState)
    requires
        b < batch_count,
    ensures
        failure matches Some(e) ==> r == RunState::Failed(e),
        failure is None && b + 1 < batch_count ==> r == RunState::Running((b + 1) as usize),
        failure is None && b + 1 == batch_count ==> r is Done,
{
    match failure {
        Some(e) => RunState::Failed(e),
        None => {
            if b + 1 < batch_count {
                RunState::Running(b + 1)
            } else {
                RunState::Done
            }
        },
    }
}

/// The result of a finished run: success when done, the recorded failure when
/// failed.
pub fn finish(state: RunState) -> (r: Result<()>)
    requires
        state is Done || state is Failed,
    ensures
        state is Done ==> r is Ok,
        state matches RunState::Failed(e) ==> r == Err::<(), Error>(e),
{
    match state {
        RunState::Failed(e) => Err(e),
        _ => Ok(()),
    }
}

} // verus!
