//! The decisions of a bulk user-existence check: what a response status
//! means, and how many of the looked-up users exist. Fetching is done by the
//! caller.
use vstd::prelude::*;

verus! {

/// What one lookup found.
#[derive(Debug, PartialEq, Eq)]
pub enum UserSearch {
    /// The profile exists.
    Found(String),
    /// The server answered, without success.
    NotFound(String),
    /// No answer came back; the cause is kept.
    TransportError(String),
}

/// A status in the success class, `200..=299`.
pub open spec fn success_status(status: u16) -> bool {
    200 <= status && status < 300
}

pub fn is_success(status: u16) -> (r: bool)
    ensures
        r == success_status(status),
{
    200 <= status && status < 300
}

/// What a response with `status` says of `username`.
pub fn classify(username: String, status: u16) -> (r: UserSearch)
    ensures
        success_status(status) ==> r == UserSearch::Found(username),
        !success_status(status) ==> r == UserSearch::NotFound(username),
{
    if is_success(status) {
        UserSearch::Found(username)
    } else {
        UserSearch::NotFound(username)
    }
}

/// How many of the results are `Found`.
pub open spec fn found_count(s: Seq<UserSearch>) -> nat
    decreases s.len(),
{
    if s.len() == 0 {
        0
    } else {
        found_count(s.drop_last()) + if s.last() is Found { 1nat } else { 0nat }
    }
}

proof fn lemma_found_count_bound(s: Seq<UserSearch>)
    ensures
        found_count(s) <= s.len(),
    decreases s.len(),
{
    if s.len() > 0 {
        lemma_found_count_bound(s.drop_last());
    }
}

pub fn count_found(results: &Vec<UserSearch>) -> (r: usize)
    ensures
        r == found_count(results@),
{
    let mut count: usize = 0;
    let mut i: usize = 0;
    while i < results.len()
        invariant
            i <= results@.len(),
            count == found_count(results@.subrange(0, i as int)),
        decreases results@.len() - i,
    {
        proof {
            let p = results@.subrange(0, i as int + 1);
            assert(p.drop_last() =~= results@.subrange(0, i as int));
            lemma_found_count_bound(p);
        }
        match &results[i] {
            UserSearch::Found(_) => count = count + 1,
            _ => {},
        }
        i = i + 1;
    }
    proof {
        assert(results@.subrange(0, i as int) =~= results@);
    }
    count
}

} // verus!
