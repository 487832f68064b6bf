//! What holds of the cache over any sequence of operations.

use crate::cache_model::{CacheView, Lookup};
use crate::ids::{Digest, JobId};
use vstd::prelude::*;

verus! {

/// One operation on the cache.
pub enum CacheOp {
    /// Job `job` asks for `digest`.
    Get { digest: Digest, job: JobId },
    /// The artifact `digest` has arrived and takes `size` bytes.
    Got { digest: Digest, size: nat },
    /// The fetch of `digest` has failed.
    GotFailure { digest: Digest },
    /// One reference to `digest` is given back.
    Decrement { digest: Digest },
}

impl CacheOp {
    /// Whether the operation ends a fetch of `d`.
    pub open spec fn resolves(self, d: Digest) -> bool {
        match self {
            CacheOp::Got { digest, .. } => digest == d,
            CacheOp::GotFailure { digest } => digest == d,
            _ => false,
        }
    }

    /// The bytes the operation brings, at most.
    pub open spec fn brings(self) -> nat {
        match self {
            CacheOp::Got { size, .. } => size,
            _ => 0,
        }
    }
}

impl CacheView {
    /// The cache after the artifact `d`, of `size` bytes, has arrived and been
    /// put in place: unchanged if it was resident, else room is made and the
    /// artifact is taken in.
    pub open spec fn got_artifact(self, d: Digest, size: nat) -> CacheView {
        if self.is_resident(d) {
            self
        } else {
            self.evict_for(size).install(d, size)
        }
    }

    /// The cache after one operation.
    pub open spec fn step(self, op: CacheOp) -> CacheView {
        match op {
            CacheOp::Get { digest, job } => self.get_artifact(digest, job),
            CacheOp::Got { digest, size } => self.got_artifact(digest, size),
            CacheOp::GotFailure { digest } => self.fail(digest),
            CacheOp::Decrement { digest } => self.decrement_ref(digest),
        }
    }

    /// The cache after a sequence of operations, the first first.
    pub open spec fn run(self, ops: Seq<CacheOp>) -> CacheView
        decreases ops.len(),
    {
        if ops.len() == 0 {
            self
        } else {
            self.run(ops.drop_last()).step(ops.last())
        }
    }
}

/// The bytes that a sequence of operations brings, at most.
pub open spec fn bytes_brought(ops: Seq<CacheOp>) -> nat
    decreases ops.len(),
{
    if ops.len() == 0 {
        0
    } else {
        bytes_brought(ops.drop_last()) + ops.last().brings()
    }
}

/// Every operation keeps the cache well formed and its target size, and adds
/// no more bytes than it brings.
pub proof fn lemma_step(v: CacheView, op: CacheOp)
    requires
        v.wf(),
    ensures
        v.step(op).wf(),
        v.step(op).cache_size == v.cache_size,
        v.step(op).bytes_used <= v.bytes_used + op.brings(),
{
    match op {
        CacheOp::Get { digest, job } => {
            v.lemma_get_artifact_wf(digest, job);
        },
        CacheOp::Got { digest, size } => {
            if !v.is_resident(digest) {
                v.lemma_evict_for_wf(size);
                v.evict_for(size).lemma_install_wf(digest, size);
            }
        },
        CacheOp::GotFailure { digest } => {
            v.lemma_fail_wf(digest);
        },
        CacheOp::Decrement { digest } => {
            v.lemma_decrement_ref_wf(digest);
        },
    }
}

/// A run keeps the cache well formed and adds no more bytes than it brings.
pub proof fn lemma_run(v: CacheView, ops: Seq<CacheOp>)
    requires
        v.wf(),
    ensures
        v.run(ops).wf(),
        v.run(ops).cache_size == v.cache_size,
        v.run(ops).bytes_used <= v.bytes_used + bytes_brought(ops),
    decreases ops.len(),
{
    if ops.len() > 0 {
        lemma_run(v, ops.drop_last());
        lemma_step(v.run(ops.drop_last()), ops.last());
    }
}

/// A prefix of a run brings no more than the whole run.
pub proof fn lemma_bytes_brought_prefix(ops: Seq<CacheOp>, k: int)
    requires
        0 <= k <= ops.len(),
    ensures
        bytes_brought(ops.take(k)) <= bytes_brought(ops),
    decreases ops.len(),
{
    if k == ops.len() {
        assert(ops.take(k) =~= ops);
    } else {
        assert(ops.drop_last().take(k) =~= ops.take(k));
        lemma_bytes_brought_prefix(ops.drop_last(), k);
    }
}

/// The size bound. Start from an empty cache and run any operations. If all
/// the artifacts that arrive fit below the target together, the bytes in use
/// are below the target after every operation.
pub proof fn law_size_bound(cache_size: nat, ops: Seq<CacheOp>, k: int)
    requires
        bytes_brought(ops) <= cache_size,
        0 <= k <= ops.len(),
    ensures
        CacheView::empty(cache_size).run(ops.take(k)).bytes_used <= cache_size,
{
    let v = CacheView::empty(cache_size);
    assert(v.wf());
    lemma_run(v, ops.take(k));
    lemma_bytes_brought_prefix(ops, k);
}

/// The size target. After an artifact has been taken in, the bytes in use are
/// below the target, or nothing but the newcomer is left that could be
/// evicted: the cache goes over its target only for artifacts that are in use.
pub proof fn law_target_kept_where_possible(v: CacheView, d: Digest, size: nat)
    requires
        v.wf(),
        !v.is_resident(d),
    ensures
        ({
            let p = v.got_artifact(d, size);
            p.bytes_used <= p.cache_size || forall|x: Digest| #[trigger]
                p.lru.contains(x) ==> x == d
        }),
        forall|x: Digest| #[trigger]
            v.entries.contains_key(x) && v.entries[x] is InUse ==> v.got_artifact(
                d,
                size,
            ).entries.contains_key(x) && v.got_artifact(d, size).entries[x] == v.entries[x],
{
    v.lemma_evict_for_wf(size);
    let e = v.evict_for(size);
    let p = e.install(d, size);
    if !e.fits(size) {
        assert(e.lru =~= Seq::empty());
        assert forall|x: Digest| #[trigger] p.lru.contains(x) implies x == d by {
            if p.lru.len() > 0 {
                let i = p.lru.index_of(x);
                assert(p.lru[i] == x);
            }
        }
    }
    assert(p == v.got_artifact(d, size));
    assert forall|x: Digest| #[trigger]
        v.entries.contains_key(x) && v.entries[x] is InUse implies p.entries.contains_key(x)
        && p.entries[x] == v.entries[x] by {
        assert(e.entries.contains_key(x));
    }
}

/// Single flight. While a fetch of `d` is in flight, a request for `d` is
/// told that it is, never to start another; and no operation but the end of
/// that fetch takes the entry away or drops a waiter.
pub proof fn law_single_flight(v: CacheView, d: Digest, op: CacheOp)
    requires
        v.wf(),
        v.is_fetching(d),
        !op.resolves(d),
    ensures
        v.lookup(d) == Lookup::Fetching,
        v.step(op).is_fetching(d),
        v.waiters(d).is_prefix_of(v.step(op).waiters(d)),
        match op {
            CacheOp::Get { digest, job } if digest == d => v.step(op).waiters(d) == v.waiters(
                d,
            ).push(job),
            _ => v.step(op).waiters(d) == v.waiters(d),
        },
{
    match op {
        CacheOp::Get { digest, job } => {},
        CacheOp::Got { digest, size } => {
            if !v.is_resident(digest) {
                v.lemma_evict_for_wf(size);
                assert(v.evict_for(size).entries.contains_key(d));
            }
        },
        CacheOp::GotFailure { digest } => {},
        CacheOp::Decrement { digest } => {},
    }
}

/// A job that asks for an artifact that is not resident is recorded as the
/// last waiter of its fetch.
pub proof fn law_waiter_recorded(v: CacheView, d: Digest, j: JobId)
    requires
        v.wf(),
        v.lookup(d) != Lookup::HaveIt,
    ensures
        v.get_artifact(d, j).is_fetching(d),
        v.get_artifact(d, j).waiters(d) == v.waiters(d).push(j),
{
    if !v.entries.contains_key(d) {
        assert(seq![j] =~= Seq::<JobId>::empty().push(j));
    }
}

/// The end of a fetch, either way, leaves no fetch of that digest in flight:
/// the waiters that are handed out then are handed out once.
pub proof fn law_fetch_ends_once(v: CacheView, d: Digest, size: nat)
    requires
        v.wf(),
        v.is_fetching(d),
    ensures
        !v.got_artifact(d, size).is_fetching(d),
        v.got_artifact(d, size).waiters(d) == Seq::<JobId>::empty(),
        v.got_artifact(d, size).ref_count(d) == v.waiters(d).len(),
        !v.fail(d).is_fetching(d),
        v.fail(d).lookup(d) == Lookup::NeedFetch,
{
    v.lemma_evict_for_wf(size);
    assert(v.evict_for(size).entries.contains_key(d));
    v.evict_for(size).lemma_install_wf(d, size);
}

} // verus!
