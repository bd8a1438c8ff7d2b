use vstd::prelude::*;

use crate::access::{conflicts_spec, lemma_conflicts_symmetric, Access, AccessSet};

verus! {

/// The batch that a system with descriptor set `x` joins, looking at the
/// first `upto` systems before it (`prior`, placed in batches `levels`):
/// one past the latest batch that holds a system conflicting with `x`, or
/// the first batch when there is none.
pub open spec fn level_upto(
    prior: Seq<Seq<Access>>,
    levels: Seq<nat>,
    x: Seq<Access>,
    upto: int,
) -> nat
    decreases upto,
{
    if upto <= 0 {
        0
    } else {
        let before = level_upto(prior, levels, x, upto - 1);
        if conflicts_spec(prior[upto - 1], x) && levels[upto - 1] + 1 > before {
            levels[upto - 1] + 1
        } else {
            before
        }
    }
}

/// The batch of each system, in registration order: each system is placed
/// in the earliest batch that comes after every batch holding an earlier
/// system it conflicts with.
pub open spec fn plan_levels(sets: Seq<Seq<Access>>) -> Seq<nat>
    decreases sets.len(),
{
    if sets.len() == 0 {
        Seq::empty()
    } else {
        let prior = sets.drop_last();
        let levels = plan_levels(prior);
        levels.push(level_upto(prior, levels, sets.last(), prior.len() as int))
    }
}

proof fn lemma_level_upto_bounds(
    prior: Seq<Seq<Access>>,
    levels: Seq<nat>,
    x: Seq<Access>,
    upto: int,
)
    requires
        0 <= upto <= prior.len(),
        upto <= levels.len(),
        forall|i: int| 0 <= i < upto ==> #[trigger] levels[i] <= i,
    ensures
        level_upto(prior, levels, x, upto) <= upto,
        forall|i: int|
            0 <= i < upto && conflicts_spec(#[trigger] prior[i], x) ==> levels[i] < level_upto(
                prior,
                levels,
                x,
                upto,
            ),
    decreases upto,
{
    if upto > 0 {
        lemma_level_upto_bounds(prior, levels, x, upto - 1);
    }
}

/// Basic facts of the plan: one batch per system, no later than its index,
/// and a later system placed after every earlier one it conflicts with.
pub proof fn lemma_plan_levels(sets: Seq<Seq<Access>>)
    ensures
        plan_levels(sets).len() == sets.len(),
        forall|j: int| 0 <= j < sets.len() ==> #[trigger] plan_levels(sets)[j] <= j,
        forall|i: int, j: int|
            0 <= i < j < sets.len() && conflicts_spec(sets[i], sets[j]) ==> #[trigger] plan_levels(
                sets,
            )[i] < #[trigger] plan_levels(sets)[j],
    decreases sets.len(),
{
    if sets.len() > 0 {
        let prior = sets.drop_last();
        lemma_plan_levels(prior);
        let levels = plan_levels(prior);
        lemma_level_upto_bounds(prior, levels, sets.last(), prior.len() as int);
        let all = plan_levels(sets);
        assert forall|i: int, j: int|
            0 <= i < j < sets.len() && conflicts_spec(sets[i], sets[j]) implies #[trigger] all[i]
            < #[trigger] all[j] by {
            assert(sets[i] == prior[i]);
            if j < prior.len() {
                assert(sets[j] == prior[j]);
                assert(levels[i] < levels[j]);
            }
        }
    }
}

/// For two systems i < j whose descriptor sets conflict, the batch of i
/// comes before the batch of j: conflicting systems run in the order in
/// which they were registered.
pub proof fn lemma_plan_preserves_order(sets: Seq<Seq<Access>>, i: int, j: int)
    requires
        0 <= i < j < sets.len(),
        conflicts_spec(sets[i], sets[j]),
    ensures
        plan_levels(sets)[i] < plan_levels(sets)[j],
{
    lemma_plan_levels(sets);
}

/// No batch holds two systems whose descriptor sets conflict.
pub proof fn lemma_plan_conflict_free(sets: Seq<Seq<Access>>, i: int, j: int)
    requires
        0 <= i < sets.len(),
        0 <= j < sets.len(),
        i != j,
        plan_levels(sets)[i] == plan_levels(sets)[j],
    ensures
        !conflicts_spec(sets[i], sets[j]),
{
    lemma_plan_levels(sets);
    lemma_conflicts_symmetric(sets[i], sets[j]);
}

/// The descriptor sets of a list of systems, as sequences.
pub open spec fn sets_view(systems: Seq<AccessSet>) -> Seq<Seq<Access>> {
    systems.map_values(|s: AccessSet| s@)
}


/// A batch plan: the batch of each system, and the batches themselves, each
/// listing its systems in registration order.
#[derive(Clone, Debug)]
pub struct BatchPlan {
    pub levels: Vec<usize>,
    pub batches: Vec<Vec<usize>>,
}

/// `plan` is the plan of the systems with descriptor sets `sets`: system `i`
/// is in batch `plan_levels(sets)[i]`, the batches are exactly as many as
/// needed, and batch `b` lists in increasing order every system of batch `b`.
pub open spec fn plan_of(plan: BatchPlan, sets: Seq<Seq<Access>>) -> bool {
    let levels = plan_levels(sets);
    &&& plan.levels@.len() == sets.len()
    &&& forall|i: int| 0 <= i < sets.len() ==> plan.levels@[i] as nat == #[trigger] levels[i]
    &&& forall|i: int| 0 <= i < sets.len() ==> #[trigger] levels[i] < plan.batches@.len()
    &&& plan.batches@.len() > 0 ==> exists|i: int|
        0 <= i < sets.len() && #[trigger] levels[i] == plan.batches@.len() - 1
    &&& forall|b: int, p: int|
        0 <= b < plan.batches@.len() && 0 <= p < plan.batches@[b]@.len() ==> {
            let s = #[trigger] plan.batches@[b]@[p];
            &&& s < sets.len()
            &&& levels[s as int] == b
        }
    &&& forall|b: int, p: int, q: int|
        0 <= b < plan.batches@.len() && 0 <= p < q < plan.batches@[b]@.len()
            ==> #[trigger] plan.batches@[b]@[p] < #[trigger] plan.batches@[b]@[q]
    &&& forall|i: int|
        #![trigger levels[i]]
        0 <= i < sets.len() ==> plan.batches@[levels[i] as int]@.contains(i as usize)
}

/// The batch that system `j` joins, given the batches of the systems before it.
fn level_of(systems: &Vec<AccessSet>, levels: &Vec<usize>, j: usize) -> (r: usize)
    requires
        j < systems@.len(),
        levels@.len() == j,
        forall|i: int| 0 <= i < j ==> #[trigger] levels@[i] <= i,
    ensures
        r as nat == level_upto(
            sets_view(systems@).take(j as int),
            levels@.map_values(|v: usize| v as nat),
            systems@[j as int]@,
            j as int,
        ),
        r <= j,
{
    let ghost prior = sets_view(systems@).take(j as int);
    let ghost lv = levels@.map_values(|v: usize| v as nat);
    let ghost x = systems@[j as int]@;
    let mut best: usize = 0;
    let mut i: usize = 0;
    while i < j
        invariant
            0 <= i <= j,
            j < systems@.len(),
            levels@.len() == j,
            forall|k: int| 0 <= k < j ==> #[trigger] levels@[k] <= k,
            prior == sets_view(systems@).take(j as int),
            lv == levels@.map_values(|v: usize| v as nat),
            x == systems@[j as int]@,
            best as nat == level_upto(prior, lv, x, i as int),
            best <= i,
        decreases j - i,
    {
        assert(prior[i as int] == systems@[i as int]@);
        if systems[i].conflicts(&systems[j]) && levels[i] + 1 > best {
            best = levels[i] + 1;
        }
        i = i + 1;
    }
    best
}

/// Groups the systems into batches by the batch of each.
fn group(levels: &Vec<usize>, count: usize) -> (r: Vec<Vec<usize>>)
    requires
        forall|i: int| 0 <= i < levels@.len() ==> #[trigger] levels@[i] < count,
    ensures
        r@.len() == count,
        forall|b: int, p: int|
            0 <= b < count && 0 <= p < r@[b]@.len() ==> {
                let s = #[trigger] r@[b]@[p];
                &&& s < levels@.len()
                &&& levels@[s as int] == b
            },
        forall|b: int, p: int, q: int|
            0 <= b < count && 0 <= p < q < r@[b]@.len() ==> #[trigger] r@[b]@[p]
                < #[trigger] r@[b]@[q],
        forall|i: int|
            #![trigger levels@[i]]
            0 <= i < levels@.len() ==> r@[levels@[i] as int]@.contains(i as usize),
{
    let mut batches: Vec<Vec<usize>> = Vec::new();
    let mut b: usize = 0;
    while b < count
        invariant
            0 <= b <= count,
            batches@.len() == b,
            forall|i: int| 0 <= i < levels@.len() ==> #[trigger] levels@[i] < count,
            forall|c: int, p: int|
                0 <= c < b && 0 <= p < batches@[c]@.len() ==> {
                    let s = #[trigger] batches@[c]@[p];
                    &&& s < levels@.len()
                    &&& levels@[s as int] == c
                },
            forall|c: int, p: int, q: int|
                0 <= c < b && 0 <= p < q < batches@[c]@.len() ==> #[trigger] batches@[c]@[p]
                    < #[trigger] batches@[c]@[q],
            forall|i: int|
                #![trigger levels@[i]]
                0 <= i < levels@.len() && levels@[i] < b ==> batches@[levels@[
                    i
                ] as int]@.contains(i as usize),
        decreases count - b,
    {
        let mut members: Vec<usize> = Vec::new();
        let mut i: usize = 0;
        while i < levels.len()
            invariant
                0 <= i <= levels@.len(),
                forall|p: int|
                    0 <= p < members@.len() ==> {
                        let s = #[trigger] members@[p];
                        &&& s < i
                        &&& levels@[s as int] == b
                    },
                forall|p: int, q: int|
                    0 <= p < q < members@.len() ==> #[trigger] members@[p] < #[trigger] members@[q],
                forall|k: int|
                    0 <= k < i && levels@[k] == b ==> members@.contains(k as usize),
            decreases levels@.len() - i,
        {
            let ghost before = members@;
            if levels[i] == b {
                members.push(i);
                assert(members@[members@.len() - 1] == i);
            }
            proof {
                assert forall|k: int|
                    0 <= k < i + 1 && levels@[k] == b implies members@.contains(k as usize) by {
                    if k < i {
                        assert(before.contains(k as usize));
                        let p = choose|p: int| 0 <= p < before.len() && #[trigger] before[p] == k;
                        assert(members@[p] == k);
                    } else {
                        assert(members@[members@.len() - 1] == i);
                    }
                }
            }
            i = i + 1;
        }
        let ghost old_batches = batches@;
        batches.push(members);
        proof {
            assert forall|k: int|
                #![trigger levels@[k]]
                0 <= k < levels@.len() && levels@[k] < b + 1 implies batches@[levels@[
                k
            ] as int]@.contains(k as usize) by {
                if levels@[k] < b {
                    assert(batches@[levels@[k] as int] == old_batches[levels@[k] as int]);
                } else {
                    assert(batches@[levels@[k] as int] == members);
                }
            }
        }
        b = b + 1;
    }
    assert forall|i: int|
        #![trigger levels@[i]]
        0 <= i < levels@.len() implies batches@[levels@[i] as int]@.contains(i as usize) by {
        assert(levels@[i] < count);
    }
    batches
}

/// Plans the batches of the systems with descriptor sets `systems`, taken in
/// registration order.
pub fn plan_batches(systems: &Vec<AccessSet>) -> (r: BatchPlan)
    ensures
        plan_of(r, sets_view(systems@)),
{
    let ghost sets = sets_view(systems@);
    let mut levels: Vec<usize> = Vec::new();
    let mut count: usize = 0;
    let mut j: usize = 0;
    while j < systems.len()
        invariant
            0 <= j <= systems@.len(),
            sets == sets_view(systems@),
            levels@.len() == j,
            forall|i: int| 0 <= i < j ==> #[trigger] levels@[i] <= i,
            forall|i: int| 0 <= i < j ==> #[trigger] levels@[i] < count,
            count <= j,
            count > 0 ==> exists|i: int| 0 <= i < j && #[trigger] levels@[i] == count - 1,
            levels@.map_values(|v: usize| v as nat) == plan_levels(sets.take(j as int)),
        decreases systems@.len() - j,
    {
        let level = level_of(systems, &levels, j);
        proof {
            let next = sets.take(j + 1);
            assert(next.drop_last() =~= sets.take(j as int));
            assert(next.last() == systems@[j as int]@);
        }
        let ghost old_levels = levels@;
        let ghost old_count = count;
        levels.push(level);
        assert(levels@[j as int] == level);
        if level + 1 > count {
            count = level + 1;
        } else if count > 0 {
            let ghost w = choose|i: int| 0 <= i < j && #[trigger] old_levels[i] == old_count - 1;
            assert(levels@[w] == count - 1);
        }
        assert(levels@.map_values(|v: usize| v as nat) =~= plan_levels(sets.take(j + 1)));
        j = j + 1;
    }
    assert(sets.take(systems@.len() as int) =~= sets);
    let ghost lv = plan_levels(sets);
    assert forall|i: int| 0 <= i < sets.len() implies levels@[i] as nat == #[trigger] lv[i] by {
        assert(levels@.map_values(|v: usize| v as nat)[i] == lv[i]);
    }
    let batches = group(&levels, count);
    let r = BatchPlan { levels, batches };
    assert forall|i: int| 0 <= i < sets.len() implies #[trigger] lv[i] < r.batches@.len() by {
        assert(levels@[i] < count);
    }
    if count > 0 {
        let ghost w = choose|i: int| 0 <= i < j && #[trigger] levels@[i] == count - 1;
        assert(lv[w] == r.batches@.len() - 1);
    }
    assert forall|b: int, p: int|
        0 <= b < r.batches@.len() && 0 <= p < r.batches@[b]@.len() implies {
            let s = #[trigger] r.batches@[b]@[p];
            &&& s < sets.len()
            &&& lv[s as int] == b
        } by {
        let s = r.batches@[b]@[p];
        assert(levels@[s as int] as nat == lv[s as int]);
    }
    assert forall|i: int|
        #![trigger lv[i]]
        0 <= i < sets.len() implies r.batches@[lv[i] as int]@.contains(i as usize) by {
        assert(levels@[i] as nat == lv[i]);
    }
    r
}

/// Running the planner twice on the same ordered list of descriptor sets
/// gives the same batch of every system and the same batches.
pub proof fn lemma_plan_deterministic(a: BatchPlan, b: BatchPlan, sets: Seq<Seq<Access>>)
    requires
        plan_of(a, sets),
        plan_of(b, sets),
    ensures
        a.levels@ == b.levels@,
        a.batches@.len() == b.batches@.len(),
{
    assert forall|i: int| 0 <= i < a.levels@.len() implies a.levels@[i] == b.levels@[i] by {
        assert(a.levels@[i] as nat == plan_levels(sets)[i]);
    }
    assert(a.levels@ =~= b.levels@);
    if a.batches@.len() < b.batches@.len() {
        let i = choose|i: int| 0 <= i < sets.len() && #[trigger] plan_levels(sets)[i]
            == b.batches@.len() - 1;
    }
    if b.batches@.len() < a.batches@.len() {
        let i = choose|i: int| 0 <= i < sets.len() && #[trigger] plan_levels(sets)[i]
            == a.batches@.len() - 1;
    }
}

} // verus!
