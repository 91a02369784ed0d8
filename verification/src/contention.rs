//! A contention harness for the lock-protected cell.
//!
//! The harness holds one cell wrapping a counter and a bench of workers,
//! each of which has to push the counter up a fixed number of times through
//! the lock.  A worker's read-modify-write is deliberately split in two:
//! one step acquires the flag by compare-and-swap and reads the counter,
//! a later step writes the read value plus one back and releases.  Between
//! the two, any other worker may be scheduled — `step` takes the index of
//! the worker to run next, so a schedule is an arbitrary interleaving.
//! The harness invariant shows that the lock serializes the workers: no
//! interleaving ever loses an update, and once every worker has met its
//! quota the counter holds exactly workers × quota.

use vstd::prelude::*;

use crate::spin_mutex::Mutex;

verus! {

/// One worker of the harness: how many increments it still owes, and
/// whether it is currently inside the critical section (holding the flag,
/// with `snapshot` being the counter value it read at entry).
#[derive(Clone, Copy)]
pub struct Worker {
    /// Increments this worker has not yet completed.
    pub remaining: u64,
    /// True from the worker's acquiring step to its writing step.
    pub in_cs: bool,
    /// The counter value read at lock entry; meaningful while `in_cs`.
    pub snapshot: u64,
}

/// The increments still owed by all workers together.
pub open spec fn total_remaining(ws: Seq<Worker>) -> int
    decreases ws.len(),
{
    if ws.len() == 0 {
        0
    } else {
        ws[0].remaining + total_remaining(ws.drop_first())
    }
}

proof fn lemma_total_nonneg(ws: Seq<Worker>)
    ensures
        total_remaining(ws) >= 0,
    decreases ws.len(),
{
    if ws.len() > 0 {
        lemma_total_nonneg(ws.drop_first());
    }
}

proof fn lemma_total_ge_elem(ws: Seq<Worker>, i: int)
    requires
        0 <= i < ws.len(),
    ensures
        total_remaining(ws) >= ws[i].remaining,
    decreases ws.len(),
{
    if i == 0 {
        lemma_total_nonneg(ws.drop_first());
    } else {
        lemma_total_ge_elem(ws.drop_first(), i - 1);
    }
}

proof fn lemma_total_update(ws: Seq<Worker>, i: int, x: Worker)
    requires
        0 <= i < ws.len(),
    ensures
        total_remaining(ws.update(i, x)) == total_remaining(ws) + x.remaining
            - ws[i].remaining,
    decreases ws.len(),
{
    if i == 0 {
        assert(ws.update(0, x).drop_first() =~= ws.drop_first());
    } else {
        lemma_total_update(ws.drop_first(), i - 1, x);
        assert(ws.update(i, x).drop_first() =~= ws.drop_first().update(i - 1, x));
    }
}

proof fn lemma_total_push(ws: Seq<Worker>, x: Worker)
    ensures
        total_remaining(ws.push(x)) == total_remaining(ws) + x.remaining,
    decreases ws.len(),
{
    reveal_with_fuel(total_remaining, 2);
    assert(ws.push(x)[ws.len() as int] == x);
    if ws.len() == 0 {
        assert(ws.push(x).drop_first() =~= Seq::<Worker>::empty());
    } else {
        assert(ws.push(x)[0] == ws[0]);
        lemma_total_push(ws.drop_first(), x);
        assert(ws.push(x).drop_first() =~= ws.drop_first().push(x));
    }
}

proof fn lemma_total_zero(ws: Seq<Worker>)
    requires
        forall|i: int| 0 <= i < ws.len() ==> (#[trigger] ws[i]).remaining == 0,
    ensures
        total_remaining(ws) == 0,
    decreases ws.len(),
{
    if ws.len() > 0 {
        assert(forall|i: int|
            0 <= i < ws.drop_first().len() ==> (#[trigger] ws.drop_first()[i]).remaining
                == 0);
        lemma_total_zero(ws.drop_first());
    }
}

/// The harness state as pure values: what `Contention` looks like to the
/// specification.  Every executable transition of the harness is mirrored
/// by a function on this type, so a whole scheduled run has a value the
/// contracts can speak about.
#[verifier::ext_equal]
pub struct ModelState {
    /// The protected counter.
    pub counter: u64,
    /// Whether the flag reads LOCKED.
    pub locked: bool,
    /// The non-atomic entry counter.
    pub entries: u64,
    /// The bench of workers.
    pub workers: Seq<Worker>,
    /// The per-worker quota.
    pub quota: u64,
}

impl ModelState {
    /// The state a fresh harness of `w` workers with quota `k` starts in.
    pub open spec fn initial(w: int, k: u64) -> ModelState {
        ModelState {
            counter: 0,
            locked: false,
            entries: 0,
            workers: Seq::new(w as nat, |j: int| Worker { remaining: k, in_cs: false, snapshot: 0 }),
            quota: k,
        }
    }

    /// One scheduling step of worker `i`, as a function on states: the four
    /// cases of the transition relation, made deterministic.
    pub open spec fn step(self, i: int) -> ModelState {
        if self.workers[i].in_cs {
            ModelState {
                counter: (self.workers[i].snapshot + 1) as u64,
                locked: false,
                entries: (self.entries - 1) as u64,
                workers: self.workers.update(
                    i,
                    Worker {
                        remaining: (self.workers[i].remaining - 1) as u64,
                        in_cs: false,
                        snapshot: self.workers[i].snapshot,
                    },
                ),
                ..self
            }
        } else if self.workers[i].remaining == 0 {
            self
        } else if self.locked {
            self
        } else {
            ModelState {
                locked: true,
                entries: (self.entries + 1) as u64,
                workers: self.workers.update(
                    i,
                    Worker {
                        remaining: self.workers[i].remaining,
                        in_cs: true,
                        snapshot: self.counter,
                    },
                ),
                ..self
            }
        }
    }

    /// The state after stepping through a whole schedule, entry by entry;
    /// an entry naming no worker is skipped.
    pub open spec fn run(self, schedule: Seq<usize>) -> ModelState
        decreases schedule.len(),
    {
        if schedule.len() == 0 {
            self
        } else {
            let first = if schedule[0] < self.workers.len() {
                self.step(schedule[0] as int)
            } else {
                self
            };
            first.run(schedule.drop_first())
        }
    }

    /// Every worker has met its quota and left the critical section.
    pub open spec fn all_done(self) -> bool {
        forall|i: int|
            0 <= i < self.workers.len() ==> (#[trigger] self.workers[i]).remaining == 0
                && !self.workers[i].in_cs
    }
}

/// Running a schedule extended by one entry is running the schedule and
/// then taking the entry's step.
proof fn lemma_run_snoc(s: ModelState, schedule: Seq<usize>, x: usize)
    ensures
        s.run(schedule.push(x)) == if x < s.run(schedule).workers.len() {
            s.run(schedule).step(x as int)
        } else {
            s.run(schedule)
        },
    decreases schedule.len(),
{
    reveal_with_fuel(ModelState::run, 2);
    if schedule.len() == 0 {
        assert(schedule.push(x)[0] == x);
        assert(schedule.push(x).drop_first() =~= Seq::<usize>::empty());
    } else {
        assert(schedule.push(x)[0] == schedule[0]);
        assert(schedule.push(x).drop_first() =~= schedule.drop_first().push(x));
        let first = if schedule[0] < s.workers.len() {
            s.step(schedule[0] as int)
        } else {
            s
        };
        lemma_run_snoc(first, schedule.drop_first(), x);
    }
}

/// The harness: one lock-protected counter, the bench of workers, the
/// per-worker quota, and a deliberately non-atomic entry counter that is
/// stepped up on entering the critical section and down on leaving it.
pub struct Contention {
    cell: Mutex<u64>,
    workers: Vec<Worker>,
    entries: u64,
    k: u64,
}

impl Contention {
    /// The protected counter's current value.
    pub closed spec fn counter(&self) -> u64 {
        self.cell.contents()
    }

    /// Whether the cell's flag currently reads LOCKED.
    pub closed spec fn lock_held(&self) -> bool {
        self.cell.locked()
    }

    /// The non-atomic instrumentation counter: how many workers are inside
    /// the critical section right now.
    pub closed spec fn entry_count(&self) -> u64 {
        self.entries
    }

    /// The per-worker quota of increments.
    pub closed spec fn quota(&self) -> u64 {
        self.k
    }

    /// The bench of workers.
    pub closed spec fn workers(&self) -> Seq<Worker> {
        self.workers@
    }

    /// The harness as pure values.
    pub open spec fn abs(&self) -> ModelState {
        ModelState {
            counter: self.counter(),
            locked: self.lock_held(),
            entries: self.entry_count(),
            workers: self.workers(),
            quota: self.quota(),
        }
    }

    /// Worker `i` is inside the critical section.
    pub open spec fn in_critical_section(&self, i: int) -> bool {
        0 <= i < self.workers().len() && self.workers()[i].in_cs
    }

    /// Per-worker part of the harness invariant: nobody overshoots the
    /// quota, and a worker inside the critical section still owes at least
    /// the increment it is working on and read the counter as it stands.
    pub open spec fn worker_ok(&self, i: int) -> bool {
        &&& self.workers()[i].remaining <= self.quota()
        &&& (self.workers()[i].in_cs ==> self.workers()[i].snapshot == self.counter()
            && self.workers()[i].remaining >= 1)
    }

    /// The harness invariant.  It ties the flag to the critical section
    /// (held exactly while some worker is inside), keeps the entry counter
    /// honest, and accounts for the protected counter: what it shows plus
    /// what is still owed is exactly workers × quota.
    pub open spec fn inv(&self) -> bool {
        &&& forall|i: int| 0 <= i < self.workers().len() ==> #[trigger] self.worker_ok(i)
        &&& forall|i: int, j: int|
            self.in_critical_section(i) && self.in_critical_section(j) ==> i == j
        &&& self.lock_held() == exists|i: int| self.in_critical_section(i)
        &&& self.entry_count() == if exists|i: int| self.in_critical_section(i) {
            1int
        } else {
            0int
        }
        &&& self.counter() as int == (self.workers().len() as int) * (self.quota() as int)
            - total_remaining(self.workers())
        &&& (self.workers().len() as int) * (self.quota() as int) <= u64::MAX as int
    }

    /// Every worker has met its quota and left the critical section.
    pub open spec fn all_done(&self) -> bool {
        forall|i: int|
            0 <= i < self.workers().len() ==> (#[trigger] self.workers()[i]).remaining
                == 0 && !self.workers()[i].in_cs
    }

    /// Builds a harness of `w` workers, each owing `k` increments to a
    /// counter that starts at zero behind an unlocked flag.
    pub fn new(w: usize, k: u64) -> (c: Self)
        requires
            (w as int) * (k as int) <= u64::MAX as int,
        ensures
            c.inv(),
            c.workers().len() == w,
            c.quota() == k,
            c.counter() == 0,
            !c.lock_held(),
            c.entry_count() == 0,
            c.abs() == ModelState::initial(w as int, k),
            forall|i: int|
                0 <= i < w ==> (#[trigger] c.workers()[i]).remaining == k
                    && !c.workers()[i].in_cs,
    {
        let mut bench: Vec<Worker> = Vec::new();
        let mut i: usize = 0;
        while i < w
            invariant
                i <= w,
                bench@.len() == i,
                total_remaining(bench@) == (i as int) * (k as int),
                forall|j: int|
                    0 <= j < i ==> (#[trigger] bench@[j]) == (Worker {
                        remaining: k,
                        in_cs: false,
                        snapshot: 0,
                    }),
            decreases w - i,
        {
            let fresh = Worker { remaining: k, in_cs: false, snapshot: 0 };
            proof {
                lemma_total_push(bench@, fresh);
                assert(((i + 1) as int) * (k as int) == (i as int) * (k as int) + (
                k as int)) by (nonlinear_arith);
            }
            bench.push(fresh);
            i += 1;
        }
        let c = Self { cell: Mutex::new(0), workers: bench, entries: 0, k };
        proof {
            assert(c.abs() =~= ModelState::initial(w as int, k));
        }
        c
    }

    /// What one scheduling step of worker `i` does, case by case.  This is
    /// the whole transition relation of the model: a worker inside the
    /// critical section writes its snapshot plus one back, steps the entry
    /// counter down, and releases; a finished worker does nothing; a worker
    /// whose compare-and-swap fails changes nothing (it spins); a worker
    /// whose compare-and-swap succeeds enters, steps the entry counter up,
    /// and reads the counter as its snapshot.  Workers other than `i` are
    /// untouched in every case.
    pub open spec fn step_rel(pre: Self, post: Self, i: int) -> bool {
        &&& post.quota() == pre.quota()
        &&& post.workers().len() == pre.workers().len()
        &&& forall|j: int|
            0 <= j < pre.workers().len() && j != i ==> post.workers()[j]
                == pre.workers()[j]
        &&& if pre.workers()[i].in_cs {
            &&& post.counter() as int == pre.workers()[i].snapshot + 1
            &&& !post.workers()[i].in_cs
            &&& post.workers()[i].remaining == pre.workers()[i].remaining - 1
            &&& !post.lock_held()
            &&& post.entry_count() == pre.entry_count() - 1
        } else if pre.workers()[i].remaining == 0 {
            post == pre
        } else if pre.lock_held() {
            post == pre
        } else {
            &&& post.lock_held()
            &&& post.counter() == pre.counter()
            &&& post.workers()[i].in_cs
            &&& post.workers()[i].snapshot == pre.counter()
            &&& post.workers()[i].remaining == pre.workers()[i].remaining
            &&& post.entry_count() == pre.entry_count() + 1
        }
    }

    /// Schedules worker `i` for one step.  The new state is exactly what
    /// `step_rel` says, and the harness invariant is preserved — whatever
    /// the interleaving, entering the critical section is possible only
    /// through a successful compare-and-swap on the flag.
    pub fn step(&mut self, i: usize)
        requires
            old(self).inv(),
            i < old(self).workers().len(),
        ensures
            final(self).inv(),
            Self::step_rel(*old(self), *final(self), i as int),
            final(self).abs() == old(self).abs().step(i as int),
    {
        let scheduled = self.workers[i];
        if scheduled.in_cs {
            proof {
                assert(old(self).worker_ok(i as int));
                assert(old(self).in_critical_section(i as int));
                lemma_total_ge_elem(self.workers@, i as int);
                assert(old(self).counter() < u64::MAX);
                lemma_total_update(
                    self.workers@,
                    i as int,
                    Worker {
                        remaining: (scheduled.remaining - 1) as u64,
                        in_cs: false,
                        snapshot: scheduled.snapshot,
                    },
                );
            }
            self.cell.write_locked(scheduled.snapshot + 1);
            self.cell.release();
            self.workers[i] = Worker {
                remaining: scheduled.remaining - 1,
                in_cs: false,
                snapshot: scheduled.snapshot,
            };
            self.entries = self.entries - 1;
            proof {
                assert forall|j: int| !self.in_critical_section(j) by {
                    if self.in_critical_section(j) {
                        assert(old(self).in_critical_section(j));
                        assert(old(self).in_critical_section(i as int));
                        assert(j == i);
                    }
                }
                assert forall|j: int|
                    0 <= j < self.workers@.len() implies #[trigger] self.worker_ok(j) by {
                    assert(old(self).worker_ok(j));
                    assert(!self.in_critical_section(j));
                }
            }
        } else if scheduled.remaining == 0 {
            // this worker has met its quota; scheduling it does nothing
        } else {
            let ok = self.cell.try_acquire();
            if ok {
                let snap = *self.cell.read_locked();
                self.workers[i] = Worker {
                    remaining: scheduled.remaining,
                    in_cs: true,
                    snapshot: snap,
                };
                self.entries = self.entries + 1;
                proof {
                    lemma_total_update(
                        old(self).workers@,
                        i as int,
                        Worker {
                            remaining: scheduled.remaining,
                            in_cs: true,
                            snapshot: snap,
                        },
                    );
                    assert(self.in_critical_section(i as int));
                    assert forall|j: int| self.in_critical_section(j) implies j == i as int by {
                        if j != i as int {
                            assert(old(self).in_critical_section(j));
                            assert(old(self).lock_held());
                        }
                    }
                    assert forall|j: int|
                        0 <= j < self.workers@.len() implies #[trigger] self.worker_ok(
                        j) by {
                        assert(old(self).worker_ok(j));
                        if j != i as int && self.workers@[j].in_cs {
                            assert(old(self).in_critical_section(j));
                            assert(old(self).lock_held());
                        }
                    }
                }
            }
        }
        proof {
            assert(self.abs() =~= old(self).abs().step(i as int));
        }
    }

    /// Whether every worker has met its quota and left the critical section.
    pub fn finished(&self) -> (b: bool)
        ensures
            b == self.all_done(),
    {
        let mut i: usize = 0;
        let n = self.workers.len();
        while i < n
            invariant
                i <= n,
                n == self.workers@.len(),
                forall|j: int|
                    0 <= j < i ==> (#[trigger] self.workers@[j]).remaining == 0
                        && !self.workers@[j].in_cs,
            decreases n - i,
        {
            let scheduled = self.workers[i];
            if scheduled.remaining != 0 || scheduled.in_cs {
                proof {
                    assert(!(self.workers()[i as int].remaining == 0
                        && !self.workers()[i as int].in_cs));
                }
                return false;
            }
            i += 1;
        }
        true
    }

    /// The instrumentation counter as an observable value.
    pub fn current_entries(&self) -> (n: u64)
        ensures
            n == self.entry_count(),
    {
        self.entries
    }

    /// The harness's final validation read: one exclusive-access invocation
    /// that hands the counter out, exactly as a worker would observe it.
    pub fn read_total(&mut self) -> (r: u64)
        requires
            old(self).inv(),
            !old(self).lock_held(),
        ensures
            final(self).inv(),
            r == old(self).counter(),
            final(self).counter() == old(self).counter(),
            final(self).workers() == old(self).workers(),
            final(self).quota() == old(self).quota(),
            !final(self).lock_held(),
            final(self).entry_count() == old(self).entry_count(),
    {
        let read_back = |d: &mut u64| -> (r: u64)
            ensures
                r == *old(d),
                *final(d) == *old(d),
            {
                *d
            };
        let total = self.cell.tec_lock(read_back);
        proof {
            let m = choose|m: &mut u64|
                mut_ref_current(m) == old(self).counter() && mut_ref_future(m)
                    == self.counter() && call_ensures(read_back, (m,), total);
            assert(call_ensures(read_back, (m,), total));
            assert forall|q: int|
                0 <= q < self.workers@.len() implies #[trigger] self.worker_ok(q) by {
                assert(old(self).worker_ok(q));
            }
            assert forall|q: int| !self.in_critical_section(q) by {
                assert(!old(self).in_critical_section(q));
            }
        }
        total
    }
}

/// Runs `w` workers, each owing `k` increments, under the interleaving
/// that `schedule` dictates: entry by entry, the named worker takes one
/// step (entries naming no worker are skipped).  The run is exactly the
/// model's: a total is handed back precisely when the schedule drives
/// every worker to completion — and then it is workers × quota, whatever
/// the interleaving was; a schedule too short to finish the work yields
/// nothing.
pub fn run_schedule(w: usize, k: u64, schedule: &Vec<usize>) -> (r: Option<u64>)
    requires
        (w as int) * (k as int) <= u64::MAX as int,
    ensures
        r is Some <==> ModelState::initial(w as int, k).run(schedule@).all_done(),
        r matches Some(total) ==> total as int == (w as int) * (k as int),
{
    let mut c = Contention::new(w, k);
    let mut idx: usize = 0;
    while idx < schedule.len()
        invariant
            c.inv(),
            c.workers().len() == w,
            c.quota() == k,
            idx <= schedule@.len(),
            c.abs() == ModelState::initial(w as int, k).run(schedule@.take(idx as int)),
        decreases schedule@.len() - idx,
    {
        let chosen = schedule[idx];
        proof {
            lemma_run_snoc(ModelState::initial(w as int, k), schedule@.take(idx as int), chosen);
            assert(schedule@.take(idx as int).push(chosen) =~= schedule@.take(
            idx as int + 1));
        }
        if chosen < w {
            c.step(chosen);
        }
        idx += 1;
    }
    proof {
        assert(schedule@.take(schedule@.len() as int) =~= schedule@);
        assert(c.all_done() == c.abs().all_done()) by {
            assert(c.abs().workers == c.workers());
        }
    }
    if c.finished() {
        proof {
            assert forall|q: int| !c.in_critical_section(q) by {
                if 0 <= q < c.workers().len() {
                    assert(c.workers()[q].remaining == 0 && !c.workers()[q].in_cs);
                }
            }
            lemma_all_done_total(c);
        }
        Some(c.read_total())
    } else {
        None
    }
}

/// Runs the same total workload on one worker after another, with no
/// interleaving at all: each worker is stepped until it has met its quota.
/// This always terminates and always yields workers × quota — the check
/// that the concurrent interleavings are held against.
pub fn run_sequential(w: usize, k: u64) -> (r: u64)
    requires
        (w as int) * (k as int) <= u64::MAX as int,
    ensures
        r as int == (w as int) * (k as int),
{
    let mut c = Contention::new(w, k);
    let mut t: usize = 0;
    while t < w
        invariant
            c.inv(),
            c.workers().len() == w,
            c.quota() == k,
            t <= w,
            !c.lock_held(),
            forall|j: int| 0 <= j < t ==> (#[trigger] c.workers()[j]).remaining == 0,
            forall|j: int| t <= j < w ==> (#[trigger] c.workers()[j]).remaining == k,
            forall|j: int| 0 <= j < w ==> !(#[trigger] c.workers()[j]).in_cs,
        decreases w - t,
    {
        let mut done: u64 = 0;
        while done < k
            invariant
                c.inv(),
                c.workers().len() == w,
                c.quota() == k,
                t < w,
                done <= k,
                !c.lock_held(),
                c.workers()[t as int].remaining == k - done,
                !c.workers()[t as int].in_cs,
                forall|j: int| 0 <= j < t ==> (#[trigger] c.workers()[j]).remaining == 0,
                forall|j: int| t < j < w ==> (#[trigger] c.workers()[j]).remaining == k,
                forall|j: int| 0 <= j < w ==> !(#[trigger] c.workers()[j]).in_cs,
            decreases k - done,
        {
            c.step(t);
            c.step(t);
            done += 1;
        }
        t += 1;
    }
    proof {
        assert forall|q: int| !c.in_critical_section(q) by {
            if 0 <= q < c.workers().len() {
                assert(!c.workers()[q].in_cs);
            }
        }
        lemma_all_done_total(c);
    }
    c.read_total()
}

/// Mutual exclusion: at most one worker is inside the critical section of
/// a harness that satisfies the invariant — two occupants are the same.
pub proof fn lemma_mutual_exclusion(c: Contention, i: int, j: int)
    requires
        c.inv(),
        c.in_critical_section(i),
        c.in_critical_section(j),
    ensures
        i == j,
{
}

/// No double entry: the non-atomic entry counter, stepped up on entering
/// the critical section and down on leaving it, never observes a value
/// above one in any reachable state.
pub proof fn lemma_no_double_entry(c: Contention)
    requires
        c.inv(),
    ensures
        c.entry_count() <= 1,
{
}

/// No lost updates: once every worker has met its quota, the counter holds
/// exactly workers × quota, whatever interleaving led there.
pub proof fn lemma_all_done_total(c: Contention)
    requires
        c.inv(),
        c.all_done(),
    ensures
        c.counter() as int == (c.workers().len() as int) * (c.quota() as int),
{
    lemma_total_zero(c.workers());
}

/// Visibility: the value one invocation writes while leaving the critical
/// section is exactly what the immediately following invocation reads at
/// entry — worker `i` writes its snapshot plus one, and worker `j`, the
/// next to acquire the flag, reads that very value as its snapshot.
pub proof fn lemma_visibility(
    pre: Contention,
    mid: Contention,
    post: Contention,
    i: int,
    j: int,
)
    requires
        0 <= i < pre.workers().len(),
        0 <= j < mid.workers().len(),
        pre.workers()[i].in_cs,
        Contention::step_rel(pre, mid, i),
        !mid.workers()[j].in_cs,
        mid.workers()[j].remaining > 0,
        Contention::step_rel(mid, post, j),
    ensures
        post.workers()[j].snapshot == pre.workers()[i].snapshot + 1,
{
}

} // verus!
