use mutex_implementation::contention::{run_schedule, run_sequential, Contention};

/// A schedule on which every worker completes its whole quota: each of the
/// `k` rounds lets each worker in turn take its two steps (acquire-and-read,
/// then write-and-release), so invocations of different workers alternate.
fn paired_schedule(w: usize, k: u64) -> Vec<usize> {
    let mut schedule = Vec::with_capacity(2 * w * k as usize);
    for _ in 0..k {
        for t in 0..w {
            schedule.push(t);
            schedule.push(t);
        }
    }
    schedule
}

/// Like `paired_schedule`, but squeezes another worker's acquisition
/// attempt between each worker's two steps, so that attempt finds the flag
/// held and has to spin.
fn contended_schedule(w: usize, k: u64) -> Vec<usize> {
    let mut schedule = Vec::with_capacity(3 * w * k as usize);
    for _ in 0..k {
        for t in 0..w {
            schedule.push(t);
            schedule.push((t + 1) % w);
            schedule.push(t);
        }
    }
    schedule
}

#[test]
fn mutual_exclusion_concrete_case() {
    // ten workers, a hundred thousand increments each: nothing is lost
    let schedule = contended_schedule(10, 100_000);
    assert_eq!(run_schedule(10, 100_000, &schedule), Some(1_000_000));
}

#[test]
fn sequential_consistency_check() {
    // one worker doing all the operations reaches the same total as ten
    // workers interleaved
    let single = run_sequential(1, 10_000);
    let interleaved = run_schedule(10, 1_000, &paired_schedule(10, 1_000));
    assert_eq!(interleaved, Some(single));
    assert_eq!(single, 10_000);
}

#[test]
fn no_double_entry_under_round_robin() {
    // the non-atomic entry counter never observes more than one occupant,
    // however often the scheduler rotates through the workers
    let mut c = Contention::new(4, 50);
    let mut rounds = 0;
    while !c.finished() {
        for t in 0..4 {
            c.step(t);
            assert!(c.current_entries() <= 1);
        }
        rounds += 1;
        assert!(rounds < 10_000, "round-robin made no progress");
    }
    assert_eq!(c.read_total(), 200);
}

#[test]
fn boundary_single_worker() {
    assert_eq!(run_sequential(1, 5), 5);
    let schedule = paired_schedule(1, 5);
    assert_eq!(run_schedule(1, 5, &schedule), Some(5));
}

#[test]
fn boundary_zero_operations() {
    assert_eq!(run_sequential(3, 0), 0);
    assert_eq!(run_sequential(0, 7), 0);
    // with nothing owed, an empty schedule already finishes the work
    let empty: Vec<usize> = Vec::new();
    assert_eq!(run_schedule(3, 0, &empty), Some(0));
}

#[test]
fn stress_fifty_workers() {
    // fifty workers, twenty thousand increments each
    let schedule = paired_schedule(50, 20_000);
    assert_eq!(run_schedule(50, 20_000, &schedule), Some(1_000_000));
    assert_eq!(run_sequential(50, 20_000), 1_000_000);
}

#[test]
fn starved_schedule_completes_nothing_extra() {
    // a schedule that only ever runs worker zero cannot finish the others'
    // work, and the harness says so rather than producing a total
    let lopsided = vec![0usize; 12];
    assert_eq!(run_schedule(2, 3, &lopsided), None);
    // entries past a worker's quota are no-ops, so the lone worker's own
    // quota is all that twelve steps complete
    let full = paired_schedule(2, 3);
    assert_eq!(run_schedule(2, 3, &full), Some(6));
}

#[test]
fn out_of_range_schedule_entries_are_skipped() {
    let mut schedule = paired_schedule(2, 2);
    schedule.insert(0, 99);
    schedule.push(7);
    assert_eq!(run_schedule(2, 2, &schedule), Some(4));
}
