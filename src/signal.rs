//! A condition over a piece of guarded state, with wake-on-change.
//!
//! A waiter never trusts a wake: after each one it tests the condition again
//! on the state it sees, and goes on waiting while the condition is false.
use vstd::prelude::*;

verus! {

/// A predicate over the guarded state.
#[derive(Clone, Copy, Debug, PartialEq, Eq, Structural)]
pub enum Condition {
    /// The state is not zero (a flag that has been raised).
    IsSet,
    /// The state has reached at least the bound.
    AtLeast(u64),
    /// The state equals the value.
    Equals(u64),
}

pub open spec fn holds(c: Condition, v: u64) -> bool {
    match c {
        Condition::IsSet => v != 0,
        Condition::AtLeast(b) => v >= b,
        Condition::Equals(x) => v == x,
    }
}

/// Tests a condition on a state.
pub fn check(c: Condition, v: u64) -> (r: bool)
    ensures
        r == holds(c, v),
{
    match c {
        Condition::IsSet => v != 0,
        Condition::AtLeast(b) => v >= b,
        Condition::Equals(x) => v == x,
    }
}

/// What a suspended waiter finds when it is woken.
#[derive(Clone, Copy, Debug, PartialEq, Eq, Structural)]
pub enum Wake {
    /// Woken with no cause.
    Spurious,
    /// Woken by a notification, with the state as it was.
    Notified,
    /// Another unit stored a new state and then notified.
    Changed(u64),
}

pub open spec fn after_wake(v: u64, w: Wake) -> u64 {
    match w {
        Wake::Changed(x) => x,
        _ => v,
    }
}

/// The state a waiter sees after the first `k` wakes of `wakes`.
pub open spec fn state_after(v: u64, wakes: Seq<Wake>, k: nat) -> u64
    decreases k,
{
    if k == 0 {
        v
    } else {
        after_wake(state_after(v, wakes, (k - 1) as nat), wakes[k - 1])
    }
}

/// How a wait ended.
#[derive(Clone, Copy, Debug, PartialEq, Eq, Structural)]
pub enum WaitOutcome {
    /// The condition held after this many wakes.
    Satisfied(usize),
    /// Every wake was used and the condition still does not hold.
    StillWaiting,
}

/// The guarded state, and the number of units suspended on it.
pub struct Signal {
    state: u64,
    waiters: u64,
}

impl Signal {
    pub closed spec fn state_spec(&self) -> u64 {
        self.state
    }

    pub closed spec fn waiters_spec(&self) -> nat {
        self.waiters as nat
    }

    pub fn new(state: u64) -> (r: Self)
        ensures
            r.state_spec() == state,
            r.waiters_spec() == 0,
    {
        Signal { state, waiters: 0 }
    }

    pub fn state(&self) -> (r: u64)
        ensures
            r == self.state_spec(),
    {
        self.state
    }

    pub fn waiters(&self) -> (r: u64)
        ensures
            r as nat == self.waiters_spec(),
    {
        self.waiters
    }

    /// Stores a new state; the caller notifies afterwards.
    pub fn set(&mut self, state: u64)
        ensures
            final(self).state_spec() == state,
            final(self).waiters_spec() == old(self).waiters_spec(),
    {
        self.state = state;
    }

    /// A unit suspends itself on the signal.
    pub fn suspend(&mut self)
        requires
            old(self).waiters_spec() < u64::MAX,
        ensures
            final(self).state_spec() == old(self).state_spec(),
            final(self).waiters_spec() == old(self).waiters_spec() + 1,
    {
        self.waiters = self.waiters + 1;
    }

    /// Wakes one suspended unit, if there is one; returns how many woke.
    pub fn notify_one(&mut self) -> (r: u64)
        ensures
            final(self).state_spec() == old(self).state_spec(),
            old(self).waiters_spec() > 0 ==> r == 1 && final(self).waiters_spec() == old(self).waiters_spec() - 1,
            old(self).waiters_spec() == 0 ==> r == 0 && final(self).waiters_spec() == 0,
    {
        if self.waiters > 0 {
            self.waiters = self.waiters - 1;
            1
        } else {
            0
        }
    }

    /// Wakes every suspended unit; returns how many woke.
    pub fn notify_all(&mut self) -> (r: u64)
        ensures
            final(self).state_spec() == old(self).state_spec(),
            r as nat == old(self).waiters_spec(),
            final(self).waiters_spec() == 0,
    {
        let r = self.waiters;
        self.waiters = 0;
        r
    }

    /// Waits for `c`: tests it on the current state, then again after each of
    /// `wakes` in turn, and stops at the first test that passes. The state
    /// ends as the waiter last saw it. A wait that returns `Satisfied` has
    /// seen the condition hold, whatever the wakes were.
    pub fn wait_until(&mut self, c: Condition, wakes: &Vec<Wake>) -> (r: WaitOutcome)
        ensures
            final(self).waiters_spec() == old(self).waiters_spec(),
            r is Satisfied ==> {
                let k = r->Satisfied_0;
                &&& k <= wakes@.len()
                &&& final(self).state_spec() == state_after(old(self).state_spec(), wakes@, k as nat)
                &&& holds(c, final(self).state_spec())
                &&& forall|j: nat| j < k ==> !holds(c, state_after(old(self).state_spec(), wakes@, j))
            },
            r is StillWaiting ==> {
                &&& final(self).state_spec() == state_after(old(self).state_spec(), wakes@, wakes@.len())
                &&& forall|j: nat| j <= wakes@.len() ==> !holds(c, state_after(old(self).state_spec(), wakes@, j))
            },
    {
        let ghost v0 = self.state;
        let mut k: usize = 0;
        while !check(c, self.state)
            invariant
                k <= wakes@.len(),
                v0 == old(self).state,
                self.waiters == old(self).waiters,
                self.state == state_after(v0, wakes@, k as nat),
                forall|j: nat| j < k ==> !holds(c, state_after(v0, wakes@, j)),
            decreases wakes@.len() - k,
        {
            if k == wakes.len() {
                assert(forall|j: nat| j <= wakes@.len() ==> !holds(c, state_after(v0, wakes@, j))) by {
                    assert(!holds(c, state_after(v0, wakes@, k as nat)));
                }
                return WaitOutcome::StillWaiting;
            }
            match wakes[k] {
                Wake::Changed(x) => {
                    self.state = x;
                },
                _ => {},
            }
            k = k + 1;
        }
        WaitOutcome::Satisfied(k)
    }
}

} // verus!
