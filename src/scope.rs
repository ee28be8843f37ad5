//! A grouping of units that is not left until every one of them has finished,
//! and that reports every failure among them, not only the first.
use vstd::prelude::*;

verus! {

/// One failed unit of a scope: its position in spawn order and its cause.
#[derive(Debug, PartialEq, Eq)]
pub struct UnitFailure {
    pub index: usize,
    pub cause: String,
}

/// Why a scope could not be closed with every result.
#[derive(Debug, PartialEq, Eq)]
pub enum ScopeError {
    /// Some unit has not finished; the scope waits for it.
    StillRunning(usize),
    /// These units failed, in spawn order; every other unit finished too.
    ScopeFailure(Vec<UnitFailure>),
}

/// What one unit of a scope ended with: `None` while it runs.
pub type Report<R> = Option<Result<R, String>>;

/// The results of the units that succeeded, in spawn order.
pub open spec fn values_of<R>(s: Seq<Report<R>>) -> Seq<R>
    decreases s.len(),
{
    if s.len() == 0 {
        Seq::empty()
    } else {
        let rest = values_of(s.drop_last());
        match s.last() {
            Some(Ok(v)) => rest.push(v),
            _ => rest,
        }
    }
}

/// The failures among the units, in spawn order.
pub open spec fn failures_of<R>(s: Seq<Report<R>>) -> Seq<UnitFailure>
    decreases s.len(),
{
    if s.len() == 0 {
        Seq::empty()
    } else {
        let rest = failures_of(s.drop_last());
        match s.last() {
            Some(Err(c)) => rest.push(UnitFailure { index: (s.len() - 1) as usize, cause: c }),
            _ => rest,
        }
    }
}

/// The position of the first unit that has not finished, if any.
pub open spec fn first_running<R>(s: Seq<Report<R>>, i: int) -> bool {
    0 <= i < s.len() && s[i] is None && forall|j: int| 0 <= j < i ==> s[j] is Some
}

/// The units spawned in one scope, in spawn order.
pub struct Scope<R> {
    reports: Vec<Report<R>>,
}

impl<R> View for Scope<R> {
    type V = Seq<Report<R>>;

    closed spec fn view(&self) -> Seq<Report<R>> {
        self.reports@
    }
}

impl<R> Scope<R> {
    pub fn new() -> (r: Self)
        ensures
            r@ == Seq::<Report<R>>::empty(),
    {
        Scope { reports: Vec::new() }
    }

    /// Registers a new running unit and returns its position.
    pub fn spawn(&mut self) -> (r: usize)
        requires
            old(self)@.len() < usize::MAX,
        ensures
            r == old(self)@.len(),
            final(self)@ == old(self)@.push(None),
    {
        let r = self.reports.len();
        self.reports.push(None);
        r
    }

    pub fn units(&self) -> (r: usize)
        ensures
            r == self@.len(),
    {
        self.reports.len()
    }

    /// Records how unit `index` ended. A unit that is unknown or has already
    /// ended is left as it is, and `false` comes back.
    pub fn report(&mut self, index: usize, outcome: Result<R, String>) -> (r: bool)
        ensures
            r == (index < old(self)@.len() && old(self)@[index as int] is None),
            r ==> final(self)@ == old(self)@.update(index as int, Some(outcome)),
            !r ==> final(self)@ == old(self)@,
    {
        if index < self.reports.len() {
            let running = match &self.reports[index] {
                None => true,
                Some(_) => false,
            };
            if running {
                self.reports.set(index, Some(outcome));
                return true;
            }
        }
        false
    }

    /// Whether every unit has ended.
    pub fn all_finished(&self) -> (r: bool)
        ensures
            r == forall|i: int| 0 <= i < self@.len() ==> self@[i] is Some,
    {
        let mut i: usize = 0;
        while i < self.reports.len()
            invariant
                i <= self@.len(),
                forall|j: int| 0 <= j < i ==> self@[j] is Some,
            decreases self@.len() - i,
        {
            match &self.reports[i] {
                None => return false,
                Some(_) => {},
            }
            i = i + 1;
        }
        true
    }

    /// Leaves the scope. While a unit is running the scope is kept and the
    /// first running unit is named. Once all have ended, the results come back
    /// in spawn order, or, if any unit failed, every failure does.
    pub fn close(self) -> (r: Result<Vec<R>, ScopeError>)
        ensures
            (exists|i: int| first_running(self@, i)) ==> (r matches Err(ScopeError::StillRunning(i)) && first_running(self@, i as int)),
            (forall|i: int| 0 <= i < self@.len() ==> self@[i] is Some) ==> {
                if failures_of(self@).len() == 0 {
                    (r matches Ok(v) && v@ == values_of(self@))
                } else {
                    (r matches Err(ScopeError::ScopeFailure(f)) && f@ == failures_of(self@))
                }
            },
    {
        let n = self.reports.len();
        let mut i: usize = 0;
        while i < n
            invariant
                n == self@.len(),
                i <= n,
                forall|j: int| 0 <= j < i ==> self@[j] is Some,
            decreases n - i,
        {
            match &self.reports[i] {
                None => {
                    proof {
                        assert(first_running(self@, i as int));
                    }
                    return Err(ScopeError::StillRunning(i));
                },
                Some(_) => {},
            }
            i = i + 1;
        }
        let ghost all = self@;
        let mut rest = self.reports;
        let mut values: Vec<R> = Vec::new();
        let mut failures: Vec<UnitFailure> = Vec::new();
        let mut k: usize = 0;
        while k < n
            invariant
                n == all.len(),
                k <= n,
                forall|j: int| 0 <= j < n ==> all[j] is Some,
                rest@ == all.subrange(k as int, n as int),
                values@ == values_of(all.subrange(0, k as int)),
                failures@ == failures_of(all.subrange(0, k as int)),
            decreases n - k,
        {
            let report = rest.remove(0);
            proof {
                let p = all.subrange(0, k as int + 1);
                assert(p.drop_last() =~= all.subrange(0, k as int));
                assert(p.last() == all[k as int]);
                assert(rest@ =~= all.subrange(k as int + 1, n as int));
            }
            match report {
                Some(Ok(v)) => values.push(v),
                Some(Err(c)) => failures.push(UnitFailure { index: k, cause: c }),
                None => {},
            }
            k = k + 1;
        }
        proof {
            assert(all.subrange(0, n as int) =~= all);
        }
        if failures.len() == 0 {
            Ok(values)
        } else {
            Err(ScopeError::ScopeFailure(failures))
        }
    }
}

} // verus!
