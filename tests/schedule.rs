use std::cell::Cell;

use moss_hecs_schedule::{
    after_batch, begin, finish, first_failure, plan_batches, Access, AccessSet, Error, RunState,
    Schedule, ScheduleBuilder,
};

const A: u64 = 1;
const B: u64 = 2;
const C: u64 = 3;
const I32: u64 = 4;
const F64: u64 = 5;

fn set(items: &[Access]) -> AccessSet {
    AccessSet::from_vec(items.to_vec())
}

type System<'a> = Box<dyn FnMut() -> Result<(), String> + 'a>;

/// Runs the schedule one system after another, batch by batch.
fn run_seq(schedule: &Schedule, systems: &mut [System]) -> moss_hecs_schedule::Result<()> {
    let mut state = begin(schedule.batch_count());
    while let RunState::Running(b) = state {
        let batch = schedule.batch(b);
        let outcomes: Vec<Result<(), String>> = batch.iter().map(|&i| (systems[i])()).collect();
        let failure = first_failure(batch, outcomes);
        state = after_batch(b, schedule.batch_count(), failure);
    }
    finish(state)
}

fn build(sets: Vec<AccessSet>) -> Schedule {
    let mut builder = ScheduleBuilder::new();
    for s in sets {
        builder.add_system(s);
    }
    builder.build()
}

#[test]
#[should_panic]
fn schedule_fail() {
    let mut builder = ScheduleBuilder::new();
    builder.add_system(AccessSet::empty());
    let schedule = builder.build();
    let mut systems: Vec<System> = vec![Box::new(|| Err(String::from("Dummy Error")))];
    run_seq(&schedule, &mut systems).unwrap();
}

#[test]
fn execute_par_batches() {
    let observe_before = set(&[Access::ReadResource(I32)]);
    let observe_other = set(&[Access::ReadResource(F64)]);
    let mutate = set(&[Access::WriteResource(I32)]);
    let observe_after = set(&[Access::ReadResource(I32)]);

    let mut other = ScheduleBuilder::new();
    other.add_system(observe_other);
    other.add_system(mutate);
    let mut builder = ScheduleBuilder::new();
    builder.add_system(observe_before);
    builder.append(&mut other);
    builder.add_system(observe_after);
    assert_eq!(other.len(), 0);
    assert_eq!(builder.len(), 4);
    let schedule = builder.build();

    assert_eq!(schedule.batch_count(), 3);
    assert_eq!(schedule.batch(0), &vec![0, 1]);
    assert_eq!(schedule.batch(1), &vec![2]);
    assert_eq!(schedule.batch(2), &vec![3]);

    let val = Cell::new(3);
    let mut systems: Vec<System> = vec![
        Box::new(|| if val.get() == 3 { Ok(()) } else { Err("before".into()) }),
        Box::new(|| Ok(())),
        Box::new(|| {
            val.set(5);
            Ok(())
        }),
        Box::new(|| if val.get() == 5 { Ok(()) } else { Err("after".into()) }),
    ];
    run_seq(&schedule, &mut systems).unwrap();
}

#[test]
fn execute_par_rw_batches() {
    let schedule = build(vec![
        set(&[
            Access::ReadComponent(A),
            Access::ReadComponent(B),
            Access::ReadResource(A),
            Access::ReadResource(B),
            Access::ReadResource(C),
        ]),
        set(&[Access::ReadComponent(I32), Access::WriteResource(A)]),
        set(&[Access::ReadResource(C), Access::ReadResource(A)]),
    ]);
    assert_eq!(schedule.batch_count(), 3);
    assert_eq!(schedule.batch_of(0), 0);
    assert_eq!(schedule.batch_of(1), 1);
    assert_eq!(schedule.batch_of(2), 2);
}

#[test]
fn scenario_reader_writer_and_unrelated_reader() {
    let schedule = build(vec![
        set(&[Access::ReadComponent(A)]),
        set(&[Access::WriteComponent(A)]),
        set(&[Access::ReadComponent(B)]),
    ]);
    assert_eq!(schedule.batch_count(), 2);
    assert_eq!(schedule.batch(0), &vec![0, 2]);
    assert_eq!(schedule.batch(1), &vec![1]);
    assert_eq!(schedule.batch_plan().levels, vec![0, 1, 0]);
}

#[test]
fn scenario_failure_keeps_earlier_effects() {
    let schedule = build(vec![
        set(&[Access::WriteComponent(A)]),
        set(&[Access::ReadComponent(A)]),
        set(&[Access::ReadComponent(A), Access::ReadComponent(B)]),
        set(&[Access::WriteComponent(A)]),
    ]);
    assert_eq!(schedule.batch(0), &vec![0]);
    assert_eq!(schedule.batch(1), &vec![1, 2]);
    assert_eq!(schedule.batch(2), &vec![3]);

    let store = Cell::new(1);
    let ran = Cell::new(0);
    let mut systems: Vec<System> = vec![
        Box::new(|| {
            store.set(10);
            Ok(())
        }),
        Box::new(|| Err(String::from("broken"))),
        Box::new(|| {
            ran.set(ran.get() + 1);
            Ok(())
        }),
        Box::new(|| {
            store.set(99);
            Ok(())
        }),
    ];
    let r = run_seq(&schedule, &mut systems);
    match r {
        Err(Error::SystemFailure(i, msg)) => {
            assert_eq!(i, 1);
            assert_eq!(msg, "broken");
        }
        _ => panic!("expected a system failure"),
    }
    assert_eq!(store.get(), 10);
    assert_eq!(ran.get(), 1);
}

fn generate(seed: &mut u64) -> Vec<AccessSet> {
    let mut next = || {
        *seed = seed.wrapping_mul(6364136223846793005).wrapping_add(1442695040888963407);
        *seed >> 33
    };
    let n = next() % 9;
    let mut out = Vec::new();
    for _ in 0..n {
        let len = next() % 3;
        let mut items = Vec::new();
        for _ in 0..len {
            let key = next() % 3;
            items.push(if next() % 2 == 0 { Access::ReadComponent(key) } else { Access::WriteComponent(key) });
        }
        out.push(AccessSet::from_vec(items));
    }
    out
}

#[test]
fn plans_keep_order_and_are_conflict_free() {
    let mut seed = 5_u64;
    for _ in 0..200 {
        let sets = generate(&mut seed);
        let plan = plan_batches(&sets);
        assert_eq!(plan.levels.len(), sets.len());
        for i in 0..sets.len() {
            for j in 0..sets.len() {
                if i < j && sets[i].conflicts(&sets[j]) {
                    assert!(plan.levels[i] < plan.levels[j]);
                }
                if i != j && plan.levels[i] == plan.levels[j] {
                    assert!(!sets[i].conflicts(&sets[j]));
                }
            }
        }
        let mut seen = vec![0; sets.len()];
        for (b, batch) in plan.batches.iter().enumerate() {
            assert!(!batch.is_empty());
            for w in batch.windows(2) {
                assert!(w[0] < w[1]);
            }
            for &s in batch {
                assert_eq!(plan.levels[s], b);
                seen[s] += 1;
            }
        }
        assert!(seen.iter().all(|&c| c == 1));
    }
}

#[test]
fn planning_twice_gives_the_same_plan() {
    let mut seed = 11_u64;
    for _ in 0..100 {
        let sets = generate(&mut seed);
        let first = plan_batches(&sets);
        let second = plan_batches(&sets);
        assert_eq!(first.levels, second.levels);
        assert_eq!(first.batches, second.batches);
    }
}

#[test]
fn empty_schedule_is_done_at_once() {
    let schedule = ScheduleBuilder::new().build();
    assert_eq!(schedule.batch_count(), 0);
    assert_eq!(schedule.system_count(), 0);
    assert!(matches!(begin(0), RunState::Done));
    let mut systems: Vec<System> = Vec::new();
    assert!(run_seq(&schedule, &mut systems).is_ok());
}

#[test]
fn first_failure_picks_the_earliest_system() {
    let batch = vec![4, 6, 9];
    let outcomes = vec![Ok(()), Err(String::from("x")), Err(String::from("y"))];
    match first_failure(&batch, outcomes) {
        Some(Error::SystemFailure(i, msg)) => {
            assert_eq!(i, 6);
            assert_eq!(msg, "x");
        }
        _ => panic!("expected a failure"),
    }
    assert!(first_failure(&batch, vec![Ok(()), Ok(()), Ok(())]).is_none());
}

#[test]
fn run_state_transitions() {
    assert!(matches!(begin(2), RunState::Running(0)));
    assert!(matches!(after_batch(0, 2, None), RunState::Running(1)));
    assert!(matches!(after_batch(1, 2, None), RunState::Done));
    let failed = after_batch(0, 2, Some(Error::SystemFailure(3, String::from("z"))));
    assert!(matches!(failed, RunState::Failed(Error::SystemFailure(3, _))));
    assert!(finish(RunState::Done).is_ok());
    assert!(matches!(finish(failed), Err(Error::SystemFailure(3, _))));
}

#[test]
fn system_access_is_kept() {
    let schedule = build(vec![set(&[Access::WriteResource(A)])]);
    assert_eq!(schedule.system_access(0).items, vec![Access::WriteResource(A)]);
}
