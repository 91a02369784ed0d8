//! A lock-protected cell: one payload guarded by one two-valued flag.
//!
//! The flag models a `compare-and-swap` spin lock: `try_acquire` is the
//! compare-exchange attempt (UNLOCKED -> LOCKED on success, no change on
//! failure), `release` is the store of UNLOCKED by the holder, and the
//! payload is reachable only through accessors whose preconditions demand
//! that the flag is held.  The flag admits no transition other than
//! UNLOCKED -> LOCKED (by an acquirer) and LOCKED -> UNLOCKED (by the
//! holder): each method's contract pins the whole new state down.

use vstd::prelude::*;

verus! {

/// The flag value while some invocation holds exclusive access.
pub const LOCKED: bool = true;

/// The flag value while no invocation holds exclusive access.
pub const UNLOCKED: bool = false;

/// A cell whose payload may be read or written only while its flag is held.
pub struct Mutex<T> {
    state: bool,
    value: T,
}

impl<T> Mutex<T> {
    /// Whether the flag currently reads LOCKED.
    pub closed spec fn locked(&self) -> bool {
        self.state == LOCKED
    }

    /// The payload currently stored in the cell.
    pub closed spec fn contents(&self) -> T {
        self.value
    }

    /// Constructs an unlocked cell holding `data`.
    pub fn new(data: T) -> (m: Self)
        ensures
            !m.locked(),
            m.contents() == data,
    {
        Self { state: UNLOCKED, value: data }
    }

    /// One compare-and-swap attempt on the flag: succeeds exactly when the
    /// cell is unlocked, and then locks it; a failed attempt changes nothing.
    /// The payload is never touched.
    pub fn try_acquire(&mut self) -> (ok: bool)
        ensures
            ok == !old(self).locked(),
            ok ==> final(self).locked(),
            !ok ==> *final(self) == *old(self),
            final(self).contents() == old(self).contents(),
    {
        if self.state == UNLOCKED {
            self.state = LOCKED;
            true
        } else {
            false
        }
    }

    /// The holder stores UNLOCKED into the flag; the payload is untouched.
    pub fn release(&mut self)
        requires
            old(self).locked(),
        ensures
            !final(self).locked(),
            final(self).contents() == old(self).contents(),
    {
        self.state = UNLOCKED;
    }

    /// Reads the payload; permitted only while the flag is held.
    pub fn read_locked(&self) -> (r: &T)
        requires
            self.locked(),
        ensures
            *r == self.contents(),
    {
        &self.value
    }

    /// Overwrites the payload; permitted only while the flag is held.
    pub fn write_locked(&mut self, data: T)
        requires
            old(self).locked(),
        ensures
            final(self).locked(),
            final(self).contents() == data,
    {
        self.value = data;
    }

    /// Runs `f` with exclusive access to the payload: acquires the flag by
    /// compare-and-swap, applies `f` to the payload, releases the flag, and
    /// hands `f`'s result back.  The new payload together with the result is
    /// exactly one input-output pair of `f` applied to the old payload, so a
    /// value written by one invocation is what the next invocation observes.
    pub fn tec_lock<R, F: FnOnce(&mut T) -> R>(&mut self, f: F) -> (r: R)
        requires
            !old(self).locked(),
            forall|m: &mut T|
                mut_ref_current(m) == old(self).contents() ==> call_requires(f, (m,)),
        ensures
            !final(self).locked(),
            exists|m: &mut T|
                mut_ref_current(m) == old(self).contents()
                    && mut_ref_future(m) == final(self).contents()
                    && call_ensures(f, (m,), r),
    {
        let acquired = self.try_acquire();
        proof {
            // the cell was unlocked, so the first attempt took the flag
            assert(acquired);
        }
        let rv = f(&mut self.value);
        self.release();
        rv
    }
}

} // verus!
