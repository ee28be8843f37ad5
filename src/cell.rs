//! A container for one piece of shared mutable state, tagged with the
//! discipline under which it may be accessed.
use vstd::prelude::*;

verus! {

/// How the contents of a [`SharedCell`] may be reached.
#[derive(Clone, Copy, Debug, PartialEq, Eq, Structural)]
pub enum Discipline {
    /// One guard at a time, for reading and writing alike.
    Exclusive,
    /// Many shared guards, or one exclusive guard.
    ReadWrite,
    /// No guards: indivisible read-modify-write operations only.
    Atomic,
}

/// Why an operation on a [`SharedCell`] was refused.
#[derive(Clone, Copy, Debug, PartialEq, Eq, Structural)]
pub enum CellError {
    /// A guard holder terminated abnormally; the contents are suspect.
    Poisoned,
    /// A conflicting guard is outstanding: the caller would have to wait.
    WouldBlock,
    /// The operation does not belong to the cell's discipline.
    WrongDiscipline,
    /// The operation needs a guard that is not held.
    NotHeld,
}

/// The abstract state of a cell.
pub struct CellState<T> {
    pub discipline: Discipline,
    pub value: T,
    pub readers: nat,
    pub writer: bool,
    pub poisoned: bool,
}

impl<T> CellState<T> {
    /// No exclusive guard coexists with a shared one, and an atomic cell hands
    /// out no guards.
    pub open spec fn guards_consistent(self) -> bool {
        &&& !(self.writer && self.readers > 0)
        &&& self.discipline == Discipline::Exclusive ==> self.readers == 0
        &&& self.discipline == Discipline::Atomic ==> (!self.writer && self.readers == 0)
    }

    /// The error, if any, that an exclusive acquisition meets in this state.
    pub open spec fn exclusive_refusal(self) -> Option<CellError> {
        if self.discipline == Discipline::Atomic {
            Some(CellError::WrongDiscipline)
        } else if self.poisoned {
            Some(CellError::Poisoned)
        } else if self.writer || self.readers > 0 {
            Some(CellError::WouldBlock)
        } else {
            None
        }
    }

    /// The error, if any, that a shared acquisition meets in this state.
    pub open spec fn shared_refusal(self) -> Option<CellError> {
        if self.discipline != Discipline::ReadWrite {
            Some(CellError::WrongDiscipline)
        } else if self.poisoned {
            Some(CellError::Poisoned)
        } else if self.writer {
            Some(CellError::WouldBlock)
        } else {
            None
        }
    }

    /// Some guard, of either kind, is outstanding.
    pub open spec fn guarded(self) -> bool {
        self.writer || self.readers > 0
    }
}

/// One piece of shared state. Its discipline is fixed at construction, and
/// its contents are reached only through an acquired guard or, for an atomic
/// cell, through an indivisible operation.
pub struct SharedCell<T> {
    discipline: Discipline,
    value: T,
    readers: u64,
    writer: bool,
    poisoned: bool,
}

impl<T> View for SharedCell<T> {
    type V = CellState<T>;

    closed spec fn view(&self) -> CellState<T> {
        CellState {
            discipline: self.discipline,
            value: self.value,
            readers: self.readers as nat,
            writer: self.writer,
            poisoned: self.poisoned,
        }
    }
}

impl<T> SharedCell<T> {
    /// The cell's invariant.
    pub open spec fn wf(&self) -> bool {
        self@.guards_consistent()
    }

    /// A cell whose guards exclude one another.
    pub fn new_exclusive(value: T) -> (r: Self)
        ensures
            r.wf(),
            r@ == (CellState { discipline: Discipline::Exclusive, value, readers: 0, writer: false, poisoned: false }),
    {
        SharedCell { discipline: Discipline::Exclusive, value, readers: 0, writer: false, poisoned: false }
    }

    /// A cell with many readers or one writer.
    pub fn new_read_write(value: T) -> (r: Self)
        ensures
            r.wf(),
            r@ == (CellState { discipline: Discipline::ReadWrite, value, readers: 0, writer: false, poisoned: false }),
    {
        SharedCell { discipline: Discipline::ReadWrite, value, readers: 0, writer: false, poisoned: false }
    }

    pub fn discipline(&self) -> (r: Discipline)
        ensures
            r == self@.discipline,
    {
        self.discipline
    }

    pub fn is_poisoned(&self) -> (r: bool)
        ensures
            r == self@.poisoned,
    {
        self.poisoned
    }

    /// The number of shared guards outstanding.
    pub fn readers(&self) -> (r: u64)
        ensures
            r as nat == self@.readers,
    {
        self.readers
    }

    /// Whether an exclusive guard is outstanding.
    pub fn has_writer(&self) -> (r: bool)
        ensures
            r == self@.writer,
    {
        self.writer
    }

    /// Takes the exclusive guard, or says why it cannot be had now.
    pub fn acquire_exclusive(&mut self) -> (r: Result<(), CellError>)
        requires
            old(self).wf(),
        ensures
            final(self).wf(),
            match old(self)@.exclusive_refusal() {
                Some(e) => r == Err::<(), CellError>(e) && final(self)@ == old(self)@,
                None => r is Ok && final(self)@ == (CellState { writer: true, ..old(self)@ }),
            },
    {
        if self.discipline == Discipline::Atomic {
            Err(CellError::WrongDiscipline)
        } else if self.poisoned {
            Err(CellError::Poisoned)
        } else if self.writer || self.readers > 0 {
            Err(CellError::WouldBlock)
        } else {
            self.writer = true;
            Ok(())
        }
    }

    /// Takes one shared guard, or says why it cannot be had now.
    pub fn acquire_shared(&mut self) -> (r: Result<(), CellError>)
        requires
            old(self).wf(),
            old(self)@.readers < u64::MAX,
        ensures
            final(self).wf(),
            match old(self)@.shared_refusal() {
                Some(e) => r == Err::<(), CellError>(e) && final(self)@ == old(self)@,
                None => r is Ok && final(self)@ == (CellState { readers: old(self)@.readers + 1, ..old(self)@ }),
            },
    {
        if self.discipline != Discipline::ReadWrite {
            Err(CellError::WrongDiscipline)
        } else if self.poisoned {
            Err(CellError::Poisoned)
        } else if self.writer {
            Err(CellError::WouldBlock)
        } else {
            self.readers = self.readers + 1;
            Ok(())
        }
    }

    /// Gives back the exclusive guard.
    pub fn release_exclusive(&mut self) -> (r: Result<(), CellError>)
        requires
            old(self).wf(),
        ensures
            final(self).wf(),
            old(self)@.writer ==> r is Ok && final(self)@ == (CellState { writer: false, ..old(self)@ }),
            !old(self)@.writer ==> r == Err::<(), CellError>(CellError::NotHeld) && final(self)@ == old(self)@,
    {
        if self.writer {
            self.writer = false;
            Ok(())
        } else {
            Err(CellError::NotHeld)
        }
    }

    /// Gives back one shared guard.
    pub fn release_shared(&mut self) -> (r: Result<(), CellError>)
        requires
            old(self).wf(),
        ensures
            final(self).wf(),
            old(self)@.readers > 0 ==> r is Ok && final(self)@ == (CellState { readers: (old(self)@.readers - 1) as nat, ..old(self)@ }),
            old(self)@.readers == 0 ==> r == Err::<(), CellError>(CellError::NotHeld) && final(self)@ == old(self)@,
    {
        if self.readers > 0 {
            self.readers = self.readers - 1;
            Ok(())
        } else {
            Err(CellError::NotHeld)
        }
    }

    /// The holder of the exclusive guard terminated abnormally: the guard is
    /// gone and the cell is poisoned.
    pub fn abandon_exclusive(&mut self) -> (r: Result<(), CellError>)
        requires
            old(self).wf(),
        ensures
            final(self).wf(),
            old(self)@.writer ==> r is Ok && final(self)@ == (CellState { writer: false, poisoned: true, ..old(self)@ }),
            !old(self)@.writer ==> r == Err::<(), CellError>(CellError::NotHeld) && final(self)@ == old(self)@,
    {
        if self.writer {
            self.writer = false;
            self.poisoned = true;
            Ok(())
        } else {
            Err(CellError::NotHeld)
        }
    }

    /// The holder of a shared guard terminated abnormally: that guard is gone
    /// and the cell is poisoned.
    pub fn abandon_shared(&mut self) -> (r: Result<(), CellError>)
        requires
            old(self).wf(),
        ensures
            final(self).wf(),
            old(self)@.readers > 0 ==> r is Ok && final(self)@ == (CellState { readers: (old(self)@.readers - 1) as nat, poisoned: true, ..old(self)@ }),
            old(self)@.readers == 0 ==> r == Err::<(), CellError>(CellError::NotHeld) && final(self)@ == old(self)@,
    {
        if self.readers > 0 {
            self.readers = self.readers - 1;
            self.poisoned = true;
            Ok(())
        } else {
            Err(CellError::NotHeld)
        }
    }

    /// The caller has decided to trust the contents again.
    pub fn clear_poison(&mut self)
        requires
            old(self).wf(),
        ensures
            final(self).wf(),
            final(self)@ == (CellState { poisoned: false, ..old(self)@ }),
    {
        self.poisoned = false;
    }

    /// The contents, seen through an outstanding guard.
    pub fn get(&self) -> (r: Result<&T, CellError>)
        ensures
            self@.guarded() ==> r == Ok::<&T, CellError>(&self@.value),
            !self@.guarded() ==> r == Err::<&T, CellError>(CellError::NotHeld),
    {
        if self.writer || self.readers > 0 {
            Ok(&self.value)
        } else {
            Err(CellError::NotHeld)
        }
    }

    /// Replaces the contents through the exclusive guard.
    pub fn set(&mut self, value: T) -> (r: Result<(), CellError>)
        requires
            old(self).wf(),
        ensures
            final(self).wf(),
            old(self)@.writer ==> r is Ok && final(self)@ == (CellState { value, ..old(self)@ }),
            !old(self)@.writer ==> r == Err::<(), CellError>(CellError::NotHeld) && final(self)@ == old(self)@,
    {
        if self.writer {
            self.value = value;
            Ok(())
        } else {
            Err(CellError::NotHeld)
        }
    }

    /// Takes the contents out of a cell that nobody holds any more.
    pub fn into_inner(self) -> (r: Result<T, CellError>)
        requires
            self.wf(),
        ensures
            self@.poisoned ==> r == Err::<T, CellError>(CellError::Poisoned),
            !self@.poisoned ==> r == Ok::<T, CellError>(self@.value),
    {
        if self.poisoned {
            Err(CellError::Poisoned)
        } else {
            Ok(self.value)
        }
    }
}

impl SharedCell<u64> {
    /// A cell reached through indivisible operations only.
    pub fn new_atomic(value: u64) -> (r: Self)
        ensures
            r.wf(),
            r@ == (CellState { discipline: Discipline::Atomic, value, readers: 0, writer: false, poisoned: false }),
    {
        SharedCell { discipline: Discipline::Atomic, value, readers: 0, writer: false, poisoned: false }
    }

    /// Adds `delta`, wrapping around at the end of the range, and returns the
    /// value from before.
    pub fn atomic_add(&mut self, delta: u64) -> (r: Result<u64, CellError>)
        requires
            old(self).wf(),
        ensures
            final(self).wf(),
            old(self)@.discipline == Discipline::Atomic ==> r == Ok::<u64, CellError>(old(self)@.value)
                && final(self)@ == (CellState { value: wrap_add(old(self)@.value, delta), ..old(self)@ }),
            old(self)@.discipline != Discipline::Atomic ==> r == Err::<u64, CellError>(CellError::WrongDiscipline)
                && final(self)@ == old(self)@,
    {
        if self.discipline == Discipline::Atomic {
            let prev = self.value;
            self.value = prev.wrapping_add(delta);
            Ok(prev)
        } else {
            Err(CellError::WrongDiscipline)
        }
    }

    /// Subtracts `delta`, wrapping around at zero, and returns the value from
    /// before.
    pub fn atomic_sub(&mut self, delta: u64) -> (r: Result<u64, CellError>)
        requires
            old(self).wf(),
        ensures
            final(self).wf(),
            old(self)@.discipline == Discipline::Atomic ==> r == Ok::<u64, CellError>(old(self)@.value)
                && final(self)@ == (CellState { value: wrap_sub(old(self)@.value, delta), ..old(self)@ }),
            old(self)@.discipline != Discipline::Atomic ==> r == Err::<u64, CellError>(CellError::WrongDiscipline)
                && final(self)@ == old(self)@,
    {
        if self.discipline == Discipline::Atomic {
            let prev = self.value;
            self.value = prev.wrapping_sub(delta);
            Ok(prev)
        } else {
            Err(CellError::WrongDiscipline)
        }
    }

    /// Reads the value of an atomic cell.
    pub fn atomic_load(&self) -> (r: Result<u64, CellError>)
        ensures
            self@.discipline == Discipline::Atomic ==> r == Ok::<u64, CellError>(self@.value),
            self@.discipline != Discipline::Atomic ==> r == Err::<u64, CellError>(CellError::WrongDiscipline),
    {
        if self.discipline == Discipline::Atomic {
            Ok(self.value)
        } else {
            Err(CellError::WrongDiscipline)
        }
    }
}

/// `a + b` modulo 2^64.
pub open spec fn wrap_add(a: u64, b: u64) -> u64 {
    ((a as int + b as int) % 0x1_0000_0000_0000_0000) as u64
}

/// `a - b` modulo 2^64.
pub open spec fn wrap_sub(a: u64, b: u64) -> u64 {
    ((a as int - b as int) % 0x1_0000_0000_0000_0000) as u64
}

/// In every reachable state of a well-formed read-write cell, an exclusive
/// guard and a shared guard are never outstanding together, and neither kind
/// is granted while the other is held.
pub proof fn lemma_read_write_exclusion<T>(c: CellState<T>)
    requires
        c.guards_consistent(),
    ensures
        !(c.writer && c.readers > 0),
        c.readers > 0 ==> c.exclusive_refusal() is Some,
        c.writer ==> c.exclusive_refusal() is Some && c.shared_refusal() is Some,
{
}

/// A poisoned cell refuses every acquisition with the same error, however
/// often it is asked.
pub proof fn lemma_poison_is_sticky<T>(c: CellState<T>)
    requires
        c.guards_consistent(),
        c.poisoned,
        c.discipline != Discipline::Atomic,
    ensures
        c.exclusive_refusal() == Some(CellError::Poisoned),
        c.discipline == Discipline::ReadWrite ==> c.shared_refusal() == Some(CellError::Poisoned),
{
}

} // verus!
