//! Facts about sequences without repeats.

use crate::ids::{Digest, JobId};
use vstd::prelude::*;

verus! {

/// The sequence without `x`: its one occurrence is taken out where there is
/// one, and the order of the others is kept.
pub open spec fn without<T>(s: Seq<T>, x: T) -> Seq<T> {
    if s.contains(x) {
        s.remove(s.index_of(x))
    } else {
        s
    }
}

/// Taking one element out of a sequence without repeats leaves the others,
/// still without repeats.
pub proof fn lemma_remove_distinct<T>(s: Seq<T>, k: int)
    requires
        s.no_duplicates(),
        0 <= k < s.len(),
    ensures
        s.remove(k).no_duplicates(),
        forall|x: T| #[trigger] s.remove(k).contains(x) <==> s.contains(x) && x != s[k],
        without(s, s[k]) == s.remove(k),
{
    let r = s.remove(k);
    assert forall|a: int, b: int| 0 <= a < r.len() && 0 <= b < r.len() && a != b implies r[a]
        != r[b] by {
        let a1 = if a < k { a } else { a + 1 };
        let b1 = if b < k { b } else { b + 1 };
        assert(r[a] == s[a1] && r[b] == s[b1]);
    }
    assert forall|x: T| #[trigger] r.contains(x) <==> s.contains(x) && x != s[k] by {
        if r.contains(x) {
            let a = r.index_of(x);
            let a1 = if a < k { a } else { a + 1 };
            assert(r[a] == s[a1]);
        }
        if s.contains(x) && x != s[k] {
            let a = s.index_of(x);
            let a2 = if a < k { a } else { a - 1 };
            assert(r[a2] == x);
        }
    }
    assert(s.contains(s[k]));
    let k2 = s.index_of(s[k]);
    assert(s[k2] == s[k]);
}

/// Appending a new element to a sequence without repeats keeps it so.
pub proof fn lemma_push_distinct<T>(s: Seq<T>, x: T)
    requires
        s.no_duplicates(),
        !s.contains(x),
    ensures
        s.push(x).no_duplicates(),
        forall|y: T| #[trigger] s.push(x).contains(y) <==> s.contains(y) || y == x,
{
    let r = s.push(x);
    assert forall|y: T| #[trigger] r.contains(y) <==> s.contains(y) || y == x by {
        if s.contains(y) {
            let a = s.index_of(y);
            assert(r[a] == y);
        }
        if y == x {
            assert(r[s.len() as int] == y);
        }
    }
}

/// What `without` leaves of a sequence without repeats.
pub proof fn lemma_without<T>(s: Seq<T>, x: T)
    requires
        s.no_duplicates(),
    ensures
        without(s, x).no_duplicates(),
        forall|y: T| #[trigger] without(s, x).contains(y) <==> s.contains(y) && y != x,
{
    if s.contains(x) {
        let k = s.index_of(x);
        lemma_remove_distinct(s, k);
    }
}

/// Where `s` holds the job `x`, if it does.
pub fn position_of_job(s: &Vec<JobId>, x: JobId) -> (r: Option<usize>)
    ensures
        match r {
            Some(i) => i < s@.len() && s@[i as int] == x,
            None => !s@.contains(x),
        },
{
    let mut i: usize = 0;
    while i < s.len()
        invariant
            i <= s@.len(),
            forall|k: int| 0 <= k < i ==> s@[k] != x,
        decreases s@.len() - i,
    {
        if s[i] == x {
            return Some(i);
        }
        i += 1;
    }
    None
}

/// Where `s` holds the digest `x`, if it does.
pub fn position_of_digest(s: &Vec<Digest>, x: Digest) -> (r: Option<usize>)
    ensures
        match r {
            Some(i) => i < s@.len() && s@[i as int] == x,
            None => !s@.contains(x),
        },
{
    let mut i: usize = 0;
    while i < s.len()
        invariant
            i <= s@.len(),
            forall|k: int| 0 <= k < i ==> s@[k] != x,
        decreases s@.len() - i,
    {
        if s[i] == x {
            return Some(i);
        }
        i += 1;
    }
    None
}

} // verus!
