//! The eventual outcome of one spawned unit, joined at most once.
use vstd::prelude::*;

verus! {

/// Where a unit's handle stands.
#[derive(Debug, PartialEq, Eq)]
pub enum Outcome<R> {
    /// The unit is still running.
    Pending,
    /// The unit returned a result that nobody has taken yet.
    Completed(R),
    /// The unit terminated abnormally, for the given cause.
    Failed(String),
    /// The result or failure has been handed to a joiner.
    Joined,
    /// The caller opted out of ever joining the unit.
    Detached,
}

/// Why a join gave no result.
#[derive(Debug, PartialEq, Eq)]
pub enum JoinError {
    /// The unit terminated abnormally; the cause is kept for inspection.
    UnitPanicked(String),
    /// The unit has not finished; a blocking joiner waits and tries again.
    StillRunning,
    /// The handle was joined before.
    AlreadyJoined,
    /// The handle was detached.
    Detached,
}

impl<R> Outcome<R> {
    /// The unit has finished, one way or the other, and is still owed to a
    /// joiner.
    pub open spec fn is_finished(self) -> bool {
        self is Completed || self is Failed
    }

    /// What a join returns in this state.
    pub open spec fn join_result(self) -> Result<R, JoinError> {
        match self {
            Outcome::Completed(r) => Ok(r),
            Outcome::Failed(c) => Err(JoinError::UnitPanicked(c)),
            Outcome::Pending => Err(JoinError::StillRunning),
            Outcome::Joined => Err(JoinError::AlreadyJoined),
            Outcome::Detached => Err(JoinError::Detached),
        }
    }

    /// The state after a join.
    pub open spec fn after_join(self) -> Self {
        if self.is_finished() {
            Outcome::Joined
        } else {
            self
        }
    }
}

/// A handle on one spawned unit.
pub struct Handle<R> {
    state: Outcome<R>,
}

impl<R> View for Handle<R> {
    type V = Outcome<R>;

    closed spec fn view(&self) -> Outcome<R> {
        self.state
    }
}

impl<R> Handle<R> {
    /// The handle of a unit that has just been spawned.
    pub fn spawned() -> (r: Self)
        ensures
            r@ == Outcome::<R>::Pending,
    {
        Handle { state: Outcome::Pending }
    }

    /// Records that the unit returned `value`. Only a running unit can finish;
    /// otherwise nothing changes and `false` comes back.
    pub fn complete(&mut self, value: R) -> (r: bool)
        ensures
            r == (old(self)@ is Pending),
            r ==> final(self)@ == Outcome::Completed(value),
            !r ==> final(self)@ == old(self)@,
    {
        match self.state {
            Outcome::Pending => {
                self.state = Outcome::Completed(value);
                true
            },
            _ => false,
        }
    }

    /// Records that the unit terminated abnormally for `cause`. Only a running
    /// unit can fail; otherwise nothing changes and `false` comes back.
    pub fn fail(&mut self, cause: String) -> (r: bool)
        ensures
            r == (old(self)@ is Pending),
            r ==> final(self)@ == Outcome::<R>::Failed(cause),
            !r ==> final(self)@ == old(self)@,
    {
        match self.state {
            Outcome::Pending => {
                self.state = Outcome::Failed(cause);
                true
            },
            _ => false,
        }
    }

    pub fn is_finished(&self) -> (r: bool)
        ensures
            r == self@.is_finished(),
    {
        match self.state {
            Outcome::Completed(_) | Outcome::Failed(_) => true,
            _ => false,
        }
    }

    /// Takes the unit's result, or its failure, exactly once.
    pub fn join(&mut self) -> (r: Result<R, JoinError>)
        ensures
            r == old(self)@.join_result(),
            final(self)@ == old(self)@.after_join(),
    {
        let mut taken = Outcome::Joined;
        std::mem::swap(&mut taken, &mut self.state);
        match taken {
            Outcome::Completed(v) => Ok(v),
            Outcome::Failed(c) => Err(JoinError::UnitPanicked(c)),
            Outcome::Pending => {
                self.state = Outcome::Pending;
                Err(JoinError::StillRunning)
            },
            Outcome::Joined => Err(JoinError::AlreadyJoined),
            Outcome::Detached => {
                self.state = Outcome::Detached;
                Err(JoinError::Detached)
            },
        }
    }

    /// Opts out of joining the unit; its result, if any, is dropped.
    pub fn detach(&mut self) -> (r: Result<(), JoinError>)
        ensures
            old(self)@ is Joined ==> r == Err::<(), JoinError>(JoinError::AlreadyJoined) && final(self)@ == old(self)@,
            old(self)@ is Detached ==> r == Err::<(), JoinError>(JoinError::Detached) && final(self)@ == old(self)@,
            !(old(self)@ is Joined || old(self)@ is Detached) ==> r is Ok && final(self)@ == Outcome::<R>::Detached,
    {
        match self.state {
            Outcome::Joined => Err(JoinError::AlreadyJoined),
            Outcome::Detached => Err(JoinError::Detached),
            _ => {
                self.state = Outcome::Detached;
                Ok(())
            },
        }
    }
}

/// A handle that has been joined, whatever the first join returned, fails
/// every later join with `AlreadyJoined` and stays joined.
pub proof fn lemma_join_is_one_shot<R>(h: Outcome<R>)
    requires
        h.is_finished(),
    ensures
        h.after_join() == Outcome::<R>::Joined,
        h.after_join().join_result() == Err::<R, JoinError>(JoinError::AlreadyJoined),
        h.after_join().after_join() == h.after_join(),
{
}

} // verus!
