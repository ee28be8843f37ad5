//! N units that each add one to a shared counter, run under any interleaving
//! of their steps that a caller chooses.
//!
//! Under a guarded discipline a unit takes four steps: acquire the exclusive
//! guard, read the count into a private copy, write the copy plus one, release.
//! Under the atomic discipline it takes one step, an indivisible add.
use vstd::prelude::*;
use crate::cell::{wrap_add, CellState, Discipline, SharedCell};

verus! {

/// A unit that has not started.
pub const READY: u8 = 0;
/// A unit that holds the exclusive guard.
pub const HOLDING: u8 = 1;
/// A unit that has read the count into its private copy.
pub const READ: u8 = 2;
/// A unit that has written its increment and still holds the guard.
pub const WROTE: u8 = 3;
/// A unit that has finished.
pub const DONE: u8 = 4;

/// The abstract state of a run.
pub struct RunState {
    pub cell: CellState<u64>,
    pub pcs: Seq<u8>,
    pub copies: Seq<u64>,
    pub initial: u64,
}

/// Whether a unit at step `pc` has made its increment.
pub open spec fn counted(pc: u8) -> nat {
    if pc >= WROTE { 1 } else { 0 }
}

/// How many units have made their increment.
pub open spec fn completed(pcs: Seq<u8>) -> nat
    decreases pcs.len(),
{
    if pcs.len() == 0 {
        0
    } else {
        completed(pcs.drop_last()) + counted(pcs.last())
    }
}

/// Whether a unit at step `pc` holds the guard.
pub open spec fn holds_guard(pc: u8) -> bool {
    HOLDING <= pc && pc <= WROTE
}

impl RunState {
    pub open spec fn n(self) -> nat {
        self.pcs.len()
    }

    pub open spec fn all_done(self) -> bool {
        forall|i: int| 0 <= i < self.pcs.len() ==> self.pcs[i] == DONE
    }

    /// The invariant of every reachable state.
    pub open spec fn inv(self) -> bool {
        &&& self.cell.guards_consistent()
        &&& !self.cell.poisoned
        &&& self.cell.readers == 0
        &&& self.copies.len() == self.pcs.len()
        &&& self.initial + self.pcs.len() <= u64::MAX
        &&& forall|i: int| 0 <= i < self.pcs.len() ==> self.pcs[i] <= DONE
        &&& self.cell.discipline == Discipline::Atomic ==> forall|i: int|
            0 <= i < self.pcs.len() ==> (self.pcs[i] == READY || self.pcs[i] == DONE)
        &&& self.cell.writer <==> exists|i: int| 0 <= i < self.pcs.len() && holds_guard(self.pcs[i])
        &&& forall|i: int, j: int|
            0 <= i < self.pcs.len() && 0 <= j < self.pcs.len() && holds_guard(self.pcs[i])
                && holds_guard(self.pcs[j]) ==> i == j
        &&& self.cell.value == self.initial + completed(self.pcs)
        &&& forall|i: int| 0 <= i < self.pcs.len() && self.pcs[i] == READ ==> self.copies[i] == self.cell.value
    }
}

/// The state after unit `u` takes its next step.
pub open spec fn stepped(s: RunState, u: int) -> RunState {
    let pc = s.pcs[u];
    if pc == READY {
        if s.cell.discipline == Discipline::Atomic {
            RunState {
                cell: CellState { value: wrap_add(s.cell.value, 1), ..s.cell },
                pcs: s.pcs.update(u, DONE),
                ..s
            }
        } else if s.cell.writer {
            s
        } else {
            RunState { cell: CellState { writer: true, ..s.cell }, pcs: s.pcs.update(u, HOLDING), ..s }
        }
    } else if pc == HOLDING {
        RunState { copies: s.copies.update(u, s.cell.value), pcs: s.pcs.update(u, READ), ..s }
    } else if pc == READ {
        RunState {
            cell: CellState { value: (s.copies[u] + 1) as u64, ..s.cell },
            pcs: s.pcs.update(u, WROTE),
            ..s
        }
    } else if pc == WROTE {
        RunState { cell: CellState { writer: false, ..s.cell }, pcs: s.pcs.update(u, DONE), ..s }
    } else {
        s
    }
}

/// The state after the units named by `schedule` step in that order; a name
/// with no unit behind it is passed over.
pub open spec fn ran(s: RunState, schedule: Seq<usize>) -> RunState
    decreases schedule.len(),
{
    if schedule.len() == 0 {
        s
    } else {
        let t = ran(s, schedule.drop_last());
        if schedule.last() < t.n() {
            stepped(t, schedule.last() as int)
        } else {
            t
        }
    }
}

proof fn lemma_completed_bound(pcs: Seq<u8>)
    ensures
        completed(pcs) <= pcs.len(),
    decreases pcs.len(),
{
    if pcs.len() > 0 {
        lemma_completed_bound(pcs.drop_last());
    }
}

proof fn lemma_completed_update(pcs: Seq<u8>, i: int, pc: u8)
    requires
        0 <= i < pcs.len(),
    ensures
        completed(pcs.update(i, pc)) + counted(pcs[i]) == completed(pcs) + counted(pc),
    decreases pcs.len(),
{
    let u = pcs.update(i, pc);
    if i == pcs.len() - 1 {
        assert(u.drop_last() =~= pcs.drop_last());
    } else {
        lemma_completed_update(pcs.drop_last(), i, pc);
        assert(u.drop_last() =~= pcs.drop_last().update(i, pc));
    }
}

proof fn lemma_completed_all_done(pcs: Seq<u8>)
    requires
        forall|i: int| 0 <= i < pcs.len() ==> pcs[i] == DONE,
    ensures
        completed(pcs) == pcs.len(),
    decreases pcs.len(),
{
    if pcs.len() > 0 {
        lemma_completed_all_done(pcs.drop_last());
    }
}

proof fn lemma_completed_all_ready(n: nat)
    ensures
        completed(Seq::new(n, |i: int| READY)) == 0,
    decreases n,
{
    if n > 0 {
        assert(Seq::new(n, |i: int| READY).drop_last() =~= Seq::new((n - 1) as nat, |i: int| READY));
        lemma_completed_all_ready((n - 1) as nat);
    }
}

/// However the steps of the units were interleaved, once every unit has
/// finished the counter has grown by exactly the number of units.
pub proof fn lemma_final_count(s: RunState)
    requires
        s.inv(),
        s.all_done(),
    ensures
        s.cell.value == s.initial + s.n(),
{
    lemma_completed_all_done(s.pcs);
}

/// N units sharing one counter cell.
pub struct CounterRun {
    cell: SharedCell<u64>,
    pcs: Vec<u8>,
    copies: Vec<u64>,
    initial: u64,
}

impl View for CounterRun {
    type V = RunState;

    closed spec fn view(&self) -> RunState {
        RunState { cell: self.cell@, pcs: self.pcs@, copies: self.copies@, initial: self.initial }
    }
}

impl CounterRun {
    pub open spec fn wf(&self) -> bool {
        self@.inv()
    }

    /// `n` units, none started, over a counter that starts at `initial`.
    pub fn new(n: usize, initial: u64, discipline: Discipline) -> (r: Self)
        requires
            initial + n <= u64::MAX,
        ensures
            r.wf(),
            r@.n() == n,
            r@.initial == initial,
            r@.cell.value == initial,
            r@.cell.discipline == discipline,
            forall|i: int| 0 <= i < n ==> r@.pcs[i] == READY,
    {
        let cell = match discipline {
            Discipline::Exclusive => SharedCell::new_exclusive(initial),
            Discipline::ReadWrite => SharedCell::new_read_write(initial),
            Discipline::Atomic => SharedCell::new_atomic(initial),
        };
        let mut pcs: Vec<u8> = Vec::new();
        let mut copies: Vec<u64> = Vec::new();
        let mut k: usize = 0;
        while k < n
            invariant
                k <= n,
                pcs@ =~= Seq::new(k as nat, |i: int| READY),
                copies@.len() == k,
            decreases n - k,
        {
            pcs.push(READY);
            copies.push(0);
            k = k + 1;
        }
        proof {
            lemma_completed_all_ready(n as nat);
        }
        CounterRun { cell, pcs, copies, initial }
    }

    pub fn units(&self) -> (r: usize)
        ensures
            r == self@.n(),
    {
        self.pcs.len()
    }

    /// The current count, read by an observer outside the units through the
    /// cell's own discipline; `None` while a unit holds the guard.
    pub fn observe(&mut self) -> (r: Option<u64>)
        requires
            old(self).wf(),
        ensures
            final(self)@ == old(self)@,
            old(self)@.cell.writer ==> r is None,
            !old(self)@.cell.writer ==> r == Some(old(self)@.cell.value),
    {
        if self.cell.discipline() == Discipline::Atomic {
            match self.cell.atomic_load() {
                Ok(v) => Some(v),
                Err(_) => None,
            }
        } else {
            match self.cell.acquire_exclusive() {
                Ok(()) => {
                    let v: u64 = match self.cell.get() {
                        Ok(v) => *v,
                        Err(_) => 0,
                    };
                    let _ = self.cell.release_exclusive();
                    Some(v)
                },
                Err(_) => None,
            }
        }
    }

    /// Lets `unit` take its next step. Returns whether it moved: a unit that
    /// wants the guard while another unit holds it stays where it is.
    pub fn step(&mut self, unit: usize) -> (r: bool)
        requires
            old(self).wf(),
            unit < old(self)@.n(),
        ensures
            final(self).wf(),
            final(self)@ == stepped(old(self)@, unit as int),
            final(self)@.initial == old(self)@.initial,
            final(self)@.cell.discipline == old(self)@.cell.discipline,
            final(self)@.n() == old(self)@.n(),
            forall|j: int| 0 <= j < old(self)@.n() && j != unit ==> final(self)@.pcs[j] == old(self)@.pcs[j],
            r == (old(self)@.pcs[unit as int] != DONE && !(old(self)@.pcs[unit as int] == READY && old(self)@.cell.writer)),
            r ==> final(self)@.pcs[unit as int] > old(self)@.pcs[unit as int],
            !r ==> final(self)@ == old(self)@,
    {
        let pc = self.pcs[unit];
        let ghost pcs0 = self.pcs@;
        proof {
            lemma_completed_bound(pcs0);
            if holds_guard(pcs0[unit as int]) {
                assert forall|j: int| 0 <= j < pcs0.len() && j != unit as int implies !holds_guard(pcs0[j]) by {}
            }
            if !self.cell@.writer {
                assert forall|j: int| 0 <= j < pcs0.len() implies !holds_guard(pcs0[j]) by {}
            }
        }
        if pc == READY {
            if self.cell.discipline() == Discipline::Atomic {
                proof {
                    lemma_completed_update(pcs0, unit as int, DONE);
                    lemma_completed_bound(pcs0.update(unit as int, DONE));
                }
                let _ = self.cell.atomic_add(1);
                self.pcs.set(unit, DONE);
                true
            } else {
                match self.cell.acquire_exclusive() {
                    Ok(()) => {
                        self.pcs.set(unit, HOLDING);
                        proof {
                            lemma_completed_update(pcs0, unit as int, HOLDING);
                            assert(holds_guard(self.pcs@[unit as int]));
                            assert(self@.cell.guards_consistent());
                            assert(self@.cell.value == self@.initial + completed(self@.pcs));
                            assert(self@.cell.writer <==> exists|i: int| 0 <= i < self@.pcs.len() && holds_guard(self@.pcs[i]));
                            assert(forall|i: int, j: int|
                                0 <= i < self@.pcs.len() && 0 <= j < self@.pcs.len() && holds_guard(self@.pcs[i])
                                    && holds_guard(self@.pcs[j]) ==> i == j);
                        }
                        true
                    },
                    Err(_) => false,
                }
            }
        } else if pc == HOLDING {
            let v: u64 = match self.cell.get() {
                Ok(v) => *v,
                Err(_) => 0,
            };
            self.copies.set(unit, v);
            self.pcs.set(unit, READ);
            proof {
                lemma_completed_update(pcs0, unit as int, READ);
                assert(holds_guard(self.pcs@[unit as int]));
            }
            true
        } else if pc == READ {
            proof {
                lemma_completed_update(pcs0, unit as int, WROTE);
                lemma_completed_bound(pcs0.update(unit as int, WROTE));
            }
            let v = self.copies[unit] + 1;
            let _ = self.cell.set(v);
            self.pcs.set(unit, WROTE);
            proof {
                assert(holds_guard(self.pcs@[unit as int]));
            }
            true
        } else if pc == WROTE {
            let _ = self.cell.release_exclusive();
            self.pcs.set(unit, DONE);
            proof {
                lemma_completed_update(pcs0, unit as int, DONE);
                assert forall|i: int| 0 <= i < self.pcs@.len() implies !holds_guard(self.pcs@[i]) by {
                    if i != unit as int {
                        assert(holds_guard(pcs0[unit as int]));
                    }
                }
            }
            true
        } else {
            false
        }
    }

    /// Steps the units in the order that `schedule` names them; a name with no
    /// unit behind it is passed over.
    pub fn run(&mut self, schedule: &Vec<usize>)
        requires
            old(self).wf(),
        ensures
            final(self).wf(),
            final(self)@ == ran(old(self)@, schedule@),
            final(self)@.initial == old(self)@.initial,
            final(self)@.cell.discipline == old(self)@.cell.discipline,
            final(self)@.n() == old(self)@.n(),
    {
        let n = self.pcs.len();
        let mut k: usize = 0;
        while k < schedule.len()
            invariant
                self.wf(),
                k <= schedule@.len(),
                self@ == ran(old(self)@, schedule@.subrange(0, k as int)),
                self@.initial == old(self)@.initial,
                self@.cell.discipline == old(self)@.cell.discipline,
                self@.n() == n,
                n == old(self)@.n(),
            decreases schedule.len() - k,
        {
            let unit = schedule[k];
            proof {
                assert(schedule@.subrange(0, k as int + 1).drop_last() =~= schedule@.subrange(0, k as int));
            }
            if unit < n {
                self.step(unit);
            }
            k = k + 1;
        }
        proof {
            assert(schedule@.subrange(0, k as int) =~= schedule@);
        }
    }

    /// Lets every unit run to its end, from whatever interleaving came before,
    /// and returns the final count.
    pub fn finish(&mut self) -> (r: u64)
        requires
            old(self).wf(),
        ensures
            final(self).wf(),
            final(self)@.all_done(),
            final(self)@.n() == old(self)@.n(),
            final(self)@.initial == old(self)@.initial,
            r == final(self)@.cell.value,
            r == old(self)@.initial + old(self)@.n(),
    {
        let n = self.pcs.len();
        // First the unit that holds the guard, if any, finishes.
        let mut i: usize = 0;
        while i < n
            invariant
                self.wf(),
                self@.initial == old(self)@.initial,
                self@.n() == n,
                n == old(self)@.n(),
                i <= n,
                forall|j: int| 0 <= j < i ==> !holds_guard(self@.pcs[j]),
            decreases n - i,
        {
            if self.pcs[i] >= HOLDING && self.pcs[i] <= WROTE {
                while self.pcs[i] != DONE
                    invariant
                        self.wf(),
                        self@.initial == old(self)@.initial,
                        self@.n() == n,
                        i < n,
                        self@.pcs[i as int] >= HOLDING,
                        forall|j: int| 0 <= j < i ==> !holds_guard(self@.pcs[j]),
                    decreases DONE - self@.pcs[i as int],
                {
                    self.step(i);
                }
            }
            i = i + 1;
        }
        // Then nobody holds it, and each unit in turn runs to its end.
        let mut i: usize = 0;
        while i < n
            invariant
                self.wf(),
                self@.initial == old(self)@.initial,
                self@.n() == n,
                n == old(self)@.n(),
                i <= n,
                forall|j: int| 0 <= j < n ==> !holds_guard(self@.pcs[j]),
                forall|j: int| 0 <= j < i ==> self@.pcs[j] == DONE,
            decreases n - i,
        {
            while self.pcs[i] != DONE
                invariant
                    self.wf(),
                    self@.initial == old(self)@.initial,
                    self@.n() == n,
                    i < n,
                    forall|j: int| 0 <= j < n && j != i ==> !holds_guard(self@.pcs[j]),
                    forall|j: int| 0 <= j < i ==> self@.pcs[j] == DONE,
                decreases DONE - self@.pcs[i as int],
            {
                proof {
                    if self@.cell.writer {
                        assert(holds_guard(self@.pcs[i as int]));
                    }
                }
                self.step(i);
            }
            i = i + 1;
        }
        proof {
            lemma_final_count(self@);
        }
        let r = self.observe();
        match r {
            Some(v) => v,
            None => self.initial,
        }
    }
}

} // verus!
