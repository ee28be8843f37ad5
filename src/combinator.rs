//! Join-all and race over units that run cooperatively on one thread of
//! control. Each unit starts at time zero, suspends itself for its delay, and
//! then finishes; while one unit is suspended the scheduler resumes any other
//! that is ready, so the delays overlap in time.
use vstd::prelude::*;
use rand::Rng;

verus! {

/// Unit `a` finishes before unit `b`: its delay is shorter, or the delays are
/// equal and `a` was listed first.
pub open spec fn before(d: Seq<u64>, a: int, b: int) -> bool {
    d[a] < d[b] || (d[a] == d[b] && a < b)
}

/// `m` is the largest delay, or zero when there is none.
pub open spec fn is_max(d: Seq<u64>, m: u64) -> bool {
    &&& forall|j: int| 0 <= j < d.len() ==> d[j] <= m
    &&& d.len() > 0 ==> exists|j: int| 0 <= j < d.len() && d[j] == m
    &&& d.len() == 0 ==> m == 0
}

/// The sum of the delays.
pub open spec fn total(d: Seq<u64>) -> nat
    decreases d.len(),
{
    if d.len() == 0 {
        0
    } else {
        total(d.drop_last()) + d.last() as nat
    }
}

/// How many entries are still false.
pub open spec fn count_false(s: Seq<bool>) -> nat
    decreases s.len(),
{
    if s.len() == 0 {
        0
    } else {
        count_false(s.drop_last()) + if s.last() { 0nat } else { 1nat }
    }
}

proof fn lemma_count_false_update(s: Seq<bool>, i: int)
    requires
        0 <= i < s.len(),
        !s[i],
    ensures
        count_false(s.update(i, true)) + 1 == count_false(s),
    decreases s.len(),
{
    let u = s.update(i, true);
    if i == s.len() - 1 {
        assert(u.drop_last() =~= s.drop_last());
    } else {
        lemma_count_false_update(s.drop_last(), i);
        assert(u.drop_last() =~= s.drop_last().update(i, true));
    }
}

proof fn lemma_count_false_all(n: nat)
    ensures
        count_false(Seq::new(n, |i: int| false)) == n,
    decreases n,
{
    if n > 0 {
        assert(Seq::new(n, |i: int| false).drop_last() =~= Seq::new((n - 1) as nat, |i: int| false));
        lemma_count_false_all((n - 1) as nat);
    }
}

proof fn lemma_count_false_none(s: Seq<bool>)
    requires
        forall|i: int| 0 <= i < s.len() ==> s[i],
    ensures
        count_false(s) == 0,
    decreases s.len(),
{
    if s.len() > 0 {
        lemma_count_false_none(s.drop_last());
    }
}

proof fn lemma_total_prefix(d: Seq<u64>, i: int)
    requires
        0 <= i <= d.len(),
    ensures
        total(d.subrange(0, i)) <= total(d),
    decreases d.len(),
{
    if i == d.len() {
        assert(d.subrange(0, i) =~= d);
    } else {
        lemma_total_prefix(d.drop_last(), i);
        assert(d.drop_last().subrange(0, i) =~= d.subrange(0, i));
    }
}

proof fn lemma_total_ge_each(d: Seq<u64>, j: int)
    requires
        0 <= j < d.len(),
    ensures
        d[j] <= total(d),
    decreases d.len(),
{
    if j < d.len() - 1 {
        lemma_total_ge_each(d.drop_last(), j);
    }
}

/// Running the units together never takes longer than running them one after
/// another: the largest delay is at most the sum of the delays.
pub proof fn lemma_join_all_within_sequence(d: Seq<u64>, m: u64)
    requires
        is_max(d, m),
    ensures
        m <= total(d),
{
    if d.len() > 0 {
        let j = choose|j: int| 0 <= j < d.len() && d[j] == m;
        lemma_total_ge_each(d, j);
    }
}

/// What a join-all over the units observed.
pub struct JoinAllReport {
    /// The units in the order they finished.
    pub order: Vec<usize>,
    /// The time at which the last of them finished.
    pub elapsed: u64,
}

/// Runs every unit to its end and returns once the last one has finished.
/// Each unit appears exactly once in the finishing order, which follows the
/// delays (ties in listing order); the time taken is the largest delay.
pub fn join_all(delays: &Vec<u64>) -> (r: JoinAllReport)
    ensures
        r.order@.len() == delays@.len(),
        forall|k: int| 0 <= k < r.order@.len() ==> r.order@[k] < delays@.len(),
        forall|j: usize| j < delays@.len() ==> r.order@.contains(j),
        forall|k: int, l: int|
            0 <= k < l < r.order@.len() ==> before(delays@, r.order@[k] as int, r.order@[l] as int),
        is_max(delays@, r.elapsed),
{
    let n = delays.len();
    let ghost d = delays@;
    let mut done: Vec<bool> = Vec::new();
    let mut k: usize = 0;
    while k < n
        invariant
            k <= n,
            done@ =~= Seq::new(k as nat, |i: int| false),
        decreases n - k,
    {
        done.push(false);
        k = k + 1;
    }
    proof {
        lemma_count_false_all(n as nat);
    }
    let mut order: Vec<usize> = Vec::new();
    let mut clock: u64 = 0;
    loop
        invariant
            n == d.len(),
            d == delays@,
            done@.len() == n,
            order@.len() + count_false(done@) == n,
            forall|k: int| 0 <= k < order@.len() ==> order@[k] < n,
            forall|j: usize| j < n ==> (done@[j as int] <==> order@.contains(j)),
            forall|k: int, l: int| 0 <= k < l < order@.len() ==> before(d, order@[k] as int, order@[l] as int),
            forall|k: int, j: int|
                0 <= k < order@.len() && 0 <= j < n && !done@[j] ==> before(d, order@[k] as int, j),
            order@.len() == 0 ==> clock == 0,
            order@.len() > 0 ==> clock == d[order@.last() as int],
        ensures
            done@.len() == n,
            forall|i: int| 0 <= i < n ==> done@[i],
            order@.len() + count_false(done@) == n,
            forall|k: int| 0 <= k < order@.len() ==> order@[k] < n,
            forall|j: usize| j < n ==> (done@[j as int] <==> order@.contains(j)),
            forall|k: int, l: int| 0 <= k < l < order@.len() ==> before(d, order@[k] as int, order@[l] as int),
            order@.len() == 0 ==> clock == 0,
            order@.len() > 0 ==> clock == d[order@.last() as int],
        decreases count_false(done@),
    {
        let mut best: usize = n;
        let mut j: usize = 0;
        while j < n
            invariant
                n == d.len(),
                d == delays@,
                done@.len() == n,
                j <= n,
                best == n ==> forall|i: int| 0 <= i < j ==> done@[i],
                best < n ==> best < j && !done@[best as int] && forall|i: int|
                    0 <= i < j && !done@[i] && i != best ==> before(d, best as int, i),
                best <= n,
            decreases n - j,
        {
            if !done[j] && (best == n || delays[j] < delays[best]) {
                best = j;
            }
            j = j + 1;
        }
        if best == n {
            break;
        }
        proof {
            lemma_count_false_update(done@, best as int);
        }
        let ghost old_order = order@;
        let ghost old_done = done@;
        clock = delays[best];
        done.set(best, true);
        order.push(best);
        proof {
            assert forall|k: int, l: int| 0 <= k < l < order@.len() implies before(d, order@[k] as int, order@[l] as int) by {
                if l == order@.len() - 1 {
                    assert(!old_done[best as int]);
                }
            }
            assert forall|i: usize| i < n implies (done@[i as int] <==> order@.contains(i)) by {
                if i == best {
                    assert(order@[order@.len() - 1] == i);
                } else {
                    if old_done[i as int] {
                        let k = choose|k: int| 0 <= k < old_order.len() && old_order[k] == i;
                        assert(order@[k] == i);
                    }
                    if order@.contains(i as usize) {
                        let k = choose|k: int| 0 <= k < order@.len() && order@[k] == i;
                        assert(k < old_order.len());
                        assert(old_order[k] == i);
                    }
                }
            }
        }
    }
    proof {
        lemma_count_false_none(done@);
        assert forall|j: int| 0 <= j < n implies d[j] <= clock by {
            assert(order@.contains(j as usize));
            let k = choose|k: int| 0 <= k < order@.len() && order@[k] == j as usize;
            if k < order@.len() - 1 {
                assert(before(d, order@[k] as int, order@[order@.len() - 1] as int));
            }
        }
    }
    JoinAllReport { order, elapsed: clock }
}

/// The time that running the units one after another takes: each waits for
/// the one before it to finish.
pub fn run_in_sequence(delays: &Vec<u64>) -> (r: u64)
    requires
        total(delays@) <= u64::MAX,
    ensures
        r == total(delays@),
{
    let mut sum: u64 = 0;
    let mut i: usize = 0;
    while i < delays.len()
        invariant
            i <= delays@.len(),
            total(delays@) <= u64::MAX,
            sum == total(delays@.subrange(0, i as int)),
        decreases delays@.len() - i,
    {
        proof {
            lemma_total_prefix(delays@, i as int + 1);
            assert(delays@.subrange(0, i as int + 1).drop_last() =~= delays@.subrange(0, i as int));
        }
        sum = sum + delays[i];
        i = i + 1;
    }
    proof {
        assert(delays@.subrange(0, i as int) =~= delays@);
    }
    sum
}

/// The first unit to finish, and what it returned.
pub struct RaceOutcome<R> {
    pub winner: usize,
    pub elapsed: u64,
    pub result: R,
}

/// Resumes the units until one finishes and returns that unit's position and
/// result. The others are no longer awaited; they are not cancelled.
pub fn race<R>(delays: &Vec<u64>, results: Vec<R>) -> (r: RaceOutcome<R>)
    requires
        delays@.len() > 0,
        results@.len() == delays@.len(),
    ensures
        r.winner < delays@.len(),
        forall|j: int| 0 <= j < delays@.len() && j != r.winner ==> before(delays@, r.winner as int, j),
        r.elapsed == delays@[r.winner as int],
        r.result == results@[r.winner as int],
{
    let n = delays.len();
    let mut best: usize = 0;
    let mut j: usize = 1;
    while j < n
        invariant
            n == delays@.len(),
            1 <= j <= n,
            best < j,
            forall|i: int| 0 <= i < j && i != best ==> before(delays@, best as int, i),
        decreases n - j,
    {
        if delays[j] < delays[best] {
            let ghost prev = best;
            best = j;
            proof {
                assert forall|i: int| 0 <= i < j + 1 && i != best implies before(delays@, best as int, i) by {
                    if i != prev {
                        assert(before(delays@, prev as int, i));
                    }
                }
            }
        }
        j = j + 1;
    }
    let mut results = results;
    let result = results.swap_remove(best);
    RaceOutcome { winner: best, elapsed: delays[best], result }
}

/// Relies on rand::Rng::gen_range over rand::thread_rng(): a value drawn from
/// the closed range `lo..=hi`. It panics on an empty range, which `requires`
/// leaves out.
#[verifier::external_body]
fn draw_between(lo: u64, hi: u64) -> (r: u64)
    requires
        lo <= hi,
    ensures
        lo <= r <= hi,
{
    rand::thread_rng().gen_range(lo..=hi)
}

/// `n` delays drawn at random from `lo..=hi`.
pub fn random_delays(n: usize, lo: u64, hi: u64) -> (r: Vec<u64>)
    requires
        lo <= hi,
    ensures
        r@.len() == n,
        forall|i: int| 0 <= i < n ==> lo <= r@[i] && r@[i] <= hi,
{
    let mut r: Vec<u64> = Vec::new();
    let mut k: usize = 0;
    while k < n
        invariant
            k <= n,
            lo <= hi,
            r@.len() == k,
            forall|i: int| 0 <= i < k ==> lo <= r@[i] && r@[i] <= hi,
        decreases n - k,
    {
        let d = draw_between(lo, hi);
        r.push(d);
        k = k + 1;
    }
    r
}

/// Races `n` units whose delays are drawn at random from `lo..=hi`; returns
/// the delays and the position of the unit that finished first.
pub fn race_random(n: usize, lo: u64, hi: u64) -> (r: (Vec<u64>, usize))
    requires
        n > 0,
        lo <= hi,
    ensures
        r.0@.len() == n,
        forall|i: int| 0 <= i < n ==> lo <= r.0@[i] && r.0@[i] <= hi,
        r.1 < n,
        forall|j: int| 0 <= j < n && j != r.1 ==> before(r.0@, r.1 as int, j),
{
    let delays = random_delays(n, lo, hi);
    let mut labels: Vec<usize> = Vec::new();
    let mut k: usize = 0;
    while k < n
        invariant
            k <= n,
            labels@.len() == k,
        decreases n - k,
    {
        labels.push(k);
        k = k + 1;
    }
    let outcome = race(&delays, labels);
    (delays, outcome.winner)
}

} // verus!
