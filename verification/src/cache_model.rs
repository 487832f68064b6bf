//! The cache as a mathematical object: what it holds, and what each
//! operation makes of it.

use crate::ids::{Digest, JobId};
use crate::seq_util::{lemma_push_distinct, lemma_remove_distinct};
use vstd::prelude::*;

verus! {

/// The state of one digest in the cache.
pub enum EntryView {
    /// A fetch is in flight. The jobs that asked are recorded in the order in
    /// which they asked.
    Fetching { waiters: Seq<JobId> },
    /// The artifact is on disk and `ref_count` references pin it there.
    InUse { size: nat, ref_count: nat },
    /// The artifact is on disk and nothing refers to it: it may be evicted.
    InHeap { size: nat },
}

impl EntryView {
    /// Whether the artifact is on disk.
    pub open spec fn is_resident(self) -> bool {
        !(self is Fetching)
    }

    /// The bytes the entry takes on disk.
    pub open spec fn size(self) -> nat {
        match self {
            EntryView::Fetching { .. } => 0,
            EntryView::InUse { size, .. } => size,
            EntryView::InHeap { size } => size,
        }
    }
}

/// What a request for an artifact finds.
#[derive(Clone, Copy, Debug, PartialEq, Eq, Structural)]
pub enum Lookup {
    /// The artifact is on disk.
    HaveIt,
    /// Somebody else has already asked for it; the fetch is in flight.
    Fetching,
    /// Nobody has it: the caller must start a fetch.
    NeedFetch,
}

/// The cache: its entries, the order in which the unreferenced ones will be
/// evicted (the first is the next to go), the bytes it accounts for, and the
/// size it aims to stay below.
pub struct CacheView {
    pub entries: Map<Digest, EntryView>,
    pub lru: Seq<Digest>,
    pub bytes_used: nat,
    pub cache_size: nat,
}

impl CacheView {
    /// An empty cache with the given target size.
    pub open spec fn empty(cache_size: nat) -> CacheView {
        CacheView { entries: Map::empty(), lru: Seq::empty(), bytes_used: 0, cache_size }
    }

    /// The eviction order lists each unreferenced entry once and nothing else,
    /// and a referenced entry has at least one reference.
    pub open spec fn wf(self) -> bool {
        &&& self.lru.no_duplicates()
        &&& forall|d: Digest| #[trigger]
            self.lru.contains(d) <==> self.entries.contains_key(d) && self.entries[d] is InHeap
        &&& forall|d: Digest| #[trigger]
            self.entries.contains_key(d) && self.entries[d] is InUse
                ==> self.entries[d]->ref_count > 0
    }

    /// Whether the artifact `d` is on disk.
    pub open spec fn is_resident(self, d: Digest) -> bool {
        self.entries.contains_key(d) && self.entries[d].is_resident()
    }

    /// Whether a fetch of `d` is in flight.
    pub open spec fn is_fetching(self, d: Digest) -> bool {
        self.entries.contains_key(d) && self.entries[d] is Fetching
    }

    /// The jobs that wait for `d`, in the order in which they asked.
    pub open spec fn waiters(self, d: Digest) -> Seq<JobId> {
        if self.is_fetching(d) {
            self.entries[d]->waiters
        } else {
            Seq::empty()
        }
    }

    /// The number of references to `d`: zero unless it is in use.
    pub open spec fn ref_count(self, d: Digest) -> nat {
        if self.entries.contains_key(d) && self.entries[d] is InUse {
            self.entries[d]->ref_count
        } else {
            0
        }
    }

    /// What a request for `d` finds.
    pub open spec fn lookup(self, d: Digest) -> Lookup {
        if self.is_resident(d) {
            Lookup::HaveIt
        } else if self.is_fetching(d) {
            Lookup::Fetching
        } else {
            Lookup::NeedFetch
        }
    }

    /// The cache after job `j` has asked for `d`.
    ///
    /// A resident artifact gains a reference and leaves the eviction order.
    /// A fetch in flight gains a waiter. Otherwise a fetch is recorded with
    /// `j` as its only waiter.
    pub open spec fn get_artifact(self, d: Digest, j: JobId) -> CacheView {
        if !self.entries.contains_key(d) {
            CacheView {
                entries: self.entries.insert(d, EntryView::Fetching { waiters: seq![j] }),
                ..self
            }
        } else {
            match self.entries[d] {
                EntryView::Fetching { waiters } => CacheView {
                    entries: self.entries.insert(
                        d,
                        EntryView::Fetching { waiters: waiters.push(j) },
                    ),
                    ..self
                },
                EntryView::InUse { size, ref_count } => CacheView {
                    entries: self.entries.insert(
                        d,
                        EntryView::InUse { size, ref_count: ref_count + 1 },
                    ),
                    ..self
                },
                EntryView::InHeap { size } => CacheView {
                    entries: self.entries.insert(d, EntryView::InUse { size, ref_count: 1 }),
                    lru: self.lru.remove(self.lru.index_of(d)),
                    ..self
                },
            }
        }
    }

    /// The cache after its least recently used entry has been evicted.
    pub open spec fn evict_one(self) -> CacheView
        recommends
            self.lru.len() > 0,
    {
        let d = self.lru[0];
        CacheView {
            entries: self.entries.remove(d),
            lru: self.lru.drop_first(),
            bytes_used: if self.bytes_used >= self.entries[d].size() {
                (self.bytes_used - self.entries[d].size()) as nat
            } else {
                0
            },
            ..self
        }
    }

    /// Whether `size` more bytes fit below the target as the cache stands.
    pub open spec fn fits(self, size: nat) -> bool {
        self.bytes_used + size <= self.cache_size
    }

    /// The cache after room has been made for `size` more bytes: entries are
    /// evicted, least recently used first, until the bytes fit or nothing is
    /// left to evict.
    pub open spec fn evict_for(self, size: nat) -> CacheView
        decreases self.lru.len(),
    {
        if self.fits(size) || self.lru.len() == 0 {
            self
        } else {
            self.evict_one().evict_for(size)
        }
    }

    /// The digests that leave when room is made for `size` more bytes, in the
    /// order in which they leave.
    pub open spec fn evicted_for(self, size: nat) -> Seq<Digest>
        decreases self.lru.len(),
    {
        if self.fits(size) || self.lru.len() == 0 {
            Seq::empty()
        } else {
            seq![self.lru[0]] + self.evict_one().evicted_for(size)
        }
    }

    /// The cache after the artifact `d`, of `size` bytes, has arrived.
    ///
    /// Each waiter becomes a reference. With no waiter the entry is
    /// unreferenced and becomes the most recently used.
    pub open spec fn install(self, d: Digest, size: nat) -> CacheView {
        let n = self.waiters(d).len();
        if n > 0 {
            CacheView {
                entries: self.entries.insert(d, EntryView::InUse { size, ref_count: n }),
                bytes_used: self.bytes_used + size,
                ..self
            }
        } else {
            CacheView {
                entries: self.entries.insert(d, EntryView::InHeap { size }),
                lru: self.lru.push(d),
                bytes_used: self.bytes_used + size,
                ..self
            }
        }
    }

    /// The cache after the fetch of `d` has failed: the entry is gone, so that
    /// the next request starts a new fetch.
    pub open spec fn fail(self, d: Digest) -> CacheView {
        if self.is_fetching(d) {
            CacheView { entries: self.entries.remove(d), ..self }
        } else {
            self
        }
    }

    /// The cache after one reference to `d` has been given back. The last
    /// reference to go makes the entry the most recently used of the
    /// unreferenced ones.
    pub open spec fn decrement_ref(self, d: Digest) -> CacheView {
        if self.entries.contains_key(d) && self.entries[d] is InUse {
            let size = self.entries[d]->InUse_size;
            let ref_count = self.entries[d]->ref_count;
            if ref_count > 1 {
                CacheView {
                    entries: self.entries.insert(
                        d,
                        EntryView::InUse { size, ref_count: (ref_count - 1) as nat },
                    ),
                    ..self
                }
            } else {
                CacheView {
                    entries: self.entries.insert(d, EntryView::InHeap { size }),
                    lru: self.lru.push(d),
                    ..self
                }
            }
        } else {
            self
        }
    }
}

impl CacheView {
    /// A request leaves the cache well formed.
    pub proof fn lemma_get_artifact_wf(self, d: Digest, j: JobId)
        requires
            self.wf(),
        ensures
            self.get_artifact(d, j).wf(),
            self.get_artifact(d, j).bytes_used == self.bytes_used,
            self.get_artifact(d, j).cache_size == self.cache_size,
    {
        let v = self.get_artifact(d, j);
        if self.entries.contains_key(d) && self.entries[d] is InHeap {
            assert(self.lru.contains(d));
            let k = self.lru.index_of(d);
            lemma_remove_distinct(self.lru, k);
            assert forall|x: Digest| #[trigger]
                v.lru.contains(x) <==> v.entries.contains_key(x) && v.entries[x] is InHeap by {
                assert(self.lru.contains(x) <==> self.entries.contains_key(x)
                    && self.entries[x] is InHeap);
            }
        } else {
            assert forall|x: Digest| #[trigger]
                v.lru.contains(x) <==> v.entries.contains_key(x) && v.entries[x] is InHeap by {
                assert(self.lru.contains(x) <==> self.entries.contains_key(x)
                    && self.entries[x] is InHeap);
            }
        }
    }

    /// Evicting the least recently used entry leaves the cache well formed.
    pub proof fn lemma_evict_one_wf(self)
        requires
            self.wf(),
            self.lru.len() > 0,
        ensures
            self.evict_one().wf(),
            self.evict_one().lru.len() == self.lru.len() - 1,
            self.evict_one().bytes_used <= self.bytes_used,
            self.entries.contains_key(self.lru[0]),
            self.entries[self.lru[0]] is InHeap,
    {
        let v = self.evict_one();
        let d = self.lru[0];
        assert(self.lru.contains(d));
        assert(self.lru.drop_first() =~= self.lru.remove(0));
        lemma_remove_distinct(self.lru, 0);
        assert forall|x: Digest| #[trigger]
            v.lru.contains(x) <==> v.entries.contains_key(x) && v.entries[x] is InHeap by {
            assert(self.lru.contains(x) <==> self.entries.contains_key(x)
                && self.entries[x] is InHeap);
        }
    }

    /// Making room leaves the cache well formed and never adds bytes; when it
    /// ends, the bytes fit or nothing is left to evict.
    pub proof fn lemma_evict_for_wf(self, size: nat)
        requires
            self.wf(),
        ensures
            self.evict_for(size).wf(),
            self.evict_for(size).bytes_used <= self.bytes_used,
            self.evict_for(size).cache_size == self.cache_size,
            self.evict_for(size).fits(size) || self.evict_for(size).lru.len() == 0,
            forall|d: Digest| #[trigger]
                self.evict_for(size).entries.contains_key(d) ==> self.entries.contains_key(d)
                    && self.evict_for(size).entries[d] == self.entries[d],
            forall|d: Digest|
                self.entries.contains_key(d) && !(self.entries[d] is InHeap) ==> #[trigger]
                self.evict_for(size).entries.contains_key(d),
        decreases self.lru.len(),
    {
        if self.fits(size) || self.lru.len() == 0 {
        } else {
            self.lemma_evict_one_wf();
            self.evict_one().lemma_evict_for_wf(size);
        }
    }

    /// The arrival of an artifact that is not yet resident leaves the cache
    /// well formed.
    pub proof fn lemma_install_wf(self, d: Digest, size: nat)
        requires
            self.wf(),
            !self.is_resident(d),
        ensures
            self.install(d, size).wf(),
            self.install(d, size).is_resident(d),
            self.install(d, size).ref_count(d) == self.waiters(d).len(),
    {
        let v = self.install(d, size);
        if self.waiters(d).len() > 0 {
            assert forall|x: Digest| #[trigger]
                v.lru.contains(x) <==> v.entries.contains_key(x) && v.entries[x] is InHeap by {
                assert(self.lru.contains(x) <==> self.entries.contains_key(x)
                    && self.entries[x] is InHeap);
            }
        } else {
            assert(!self.lru.contains(d));
            lemma_push_distinct(self.lru, d);
            assert forall|x: Digest| #[trigger]
                v.lru.contains(x) <==> v.entries.contains_key(x) && v.entries[x] is InHeap by {
                assert(self.lru.contains(x) <==> self.entries.contains_key(x)
                    && self.entries[x] is InHeap);
            }
        }
    }

    /// A failed fetch leaves the cache well formed.
    pub proof fn lemma_fail_wf(self, d: Digest)
        requires
            self.wf(),
        ensures
            self.fail(d).wf(),
    {
        let v = self.fail(d);
        assert forall|x: Digest| #[trigger]
            v.lru.contains(x) <==> v.entries.contains_key(x) && v.entries[x] is InHeap by {
            assert(self.lru.contains(x) <==> self.entries.contains_key(x)
                && self.entries[x] is InHeap);
        }
    }

    /// Giving a reference back leaves the cache well formed.
    pub proof fn lemma_decrement_ref_wf(self, d: Digest)
        requires
            self.wf(),
        ensures
            self.decrement_ref(d).wf(),
    {
        let v = self.decrement_ref(d);
        if self.entries.contains_key(d) && self.entries[d] is InUse {
            if self.entries[d]->ref_count > 1 {
            } else {
                assert(!self.lru.contains(d));
                lemma_push_distinct(self.lru, d);
            }
        }
        assert forall|x: Digest| #[trigger]
            v.lru.contains(x) <==> v.entries.contains_key(x) && v.entries[x] is InHeap by {
            assert(self.lru.contains(x) <==> self.entries.contains_key(x)
                && self.entries[x] is InHeap);
        }
    }
}

impl CacheView {
    /// What a request changes: the digest asked for gains a reference if it
    /// is resident and a waiter if not; every other digest is as before.
    pub proof fn lemma_get_artifact_effect(self, d: Digest, j: JobId)
        requires
            self.wf(),
        ensures
            forall|x: Digest| #[trigger]
                self.get_artifact(d, j).ref_count(x) == self.ref_count(x) + if x == d
                    && self.is_resident(d) {
                    1nat
                } else {
                    0nat
                },
            forall|x: Digest| #[trigger]
                self.get_artifact(d, j).is_resident(x) == self.is_resident(x),
            forall|x: Digest| #[trigger]
                self.get_artifact(d, j).is_fetching(x) == (self.is_fetching(x) || (x == d
                    && !self.is_resident(d))),
            forall|x: Digest| #[trigger]
                self.get_artifact(d, j).waiters(x) == if x == d && !self.is_resident(d) {
                    self.waiters(d).push(j)
                } else {
                    self.waiters(x)
                },
    {
        if !self.entries.contains_key(d) {
            assert(seq![j] =~= Seq::<JobId>::empty().push(j));
        }
    }

    /// What giving a reference back changes: the count of that digest, if it
    /// had any, and nothing else.
    pub proof fn lemma_decrement_ref_effect(self, d: Digest)
        requires
            self.wf(),
        ensures
            forall|x: Digest| #[trigger]
                self.decrement_ref(d).ref_count(x) == if x == d && self.ref_count(d) > 0 {
                    (self.ref_count(d) - 1) as nat
                } else {
                    self.ref_count(x)
                },
            forall|x: Digest| #[trigger]
                self.decrement_ref(d).is_resident(x) == self.is_resident(x),
            forall|x: Digest| #[trigger]
                self.decrement_ref(d).is_fetching(x) == self.is_fetching(x),
            forall|x: Digest| #[trigger] self.decrement_ref(d).waiters(x) == self.waiters(x),
    {
    }

    /// What a failed fetch changes: that fetch is no longer in flight, and
    /// nothing else.
    pub proof fn lemma_fail_effect(self, d: Digest)
        requires
            self.wf(),
        ensures
            forall|x: Digest| #[trigger] self.fail(d).ref_count(x) == self.ref_count(x),
            forall|x: Digest| #[trigger] self.fail(d).is_resident(x) == self.is_resident(x),
            forall|x: Digest| #[trigger]
                self.fail(d).is_fetching(x) == (self.is_fetching(x) && x != d),
            forall|x: Digest| #[trigger]
                self.fail(d).waiters(x) == if x == d {
                    Seq::<JobId>::empty()
                } else {
                    self.waiters(x)
                },
    {
    }

    /// What making room changes: no reference count and no fetch; only
    /// unreferenced artifacts leave.
    pub proof fn lemma_evict_for_effect(self, size: nat)
        requires
            self.wf(),
        ensures
            forall|x: Digest| #[trigger]
                self.evict_for(size).ref_count(x) == self.ref_count(x),
            forall|x: Digest| #[trigger]
                self.evict_for(size).is_fetching(x) == self.is_fetching(x),
            forall|x: Digest| #[trigger] self.evict_for(size).waiters(x) == self.waiters(x),
            forall|x: Digest| #[trigger]
                self.evict_for(size).is_resident(x) ==> self.is_resident(x),
            forall|x: Digest|
                self.ref_count(x) > 0 ==> #[trigger] self.evict_for(size).is_resident(x),
    {
        self.lemma_evict_for_wf(size);
        let p = self.evict_for(size);
        assert forall|x: Digest| #[trigger] p.ref_count(x) == self.ref_count(x) by {
            if self.entries.contains_key(x) && !(self.entries[x] is InHeap) {
                assert(p.entries.contains_key(x));
            }
        }
        assert forall|x: Digest| #[trigger] p.is_fetching(x) == self.is_fetching(x) by {
            if self.entries.contains_key(x) && !(self.entries[x] is InHeap) {
                assert(p.entries.contains_key(x));
            }
        }
        assert forall|x: Digest| #[trigger] p.waiters(x) == self.waiters(x) by {
            assert(p.is_fetching(x) == self.is_fetching(x));
        }
        assert forall|x: Digest| self.ref_count(x) > 0 implies #[trigger] p.is_resident(x) by {
            assert(p.entries.contains_key(x));
        }
    }

    /// What the arrival of an artifact changes: its waiters become its
    /// references and its fetch is over; elsewhere no reference count and no
    /// fetch changes.
    pub proof fn lemma_install_effect(self, d: Digest, size: nat)
        requires
            self.wf(),
            !self.is_resident(d),
        ensures
            self.install(d, size).ref_count(d) == self.waiters(d).len(),
            self.install(d, size).is_resident(d),
            forall|x: Digest|
                x != d ==> #[trigger] self.install(d, size).ref_count(x) == self.ref_count(x),
            forall|x: Digest| #[trigger]
                self.install(d, size).is_fetching(x) == (self.is_fetching(x) && x != d),
            forall|x: Digest|
                x != d ==> #[trigger] self.install(d, size).waiters(x) == self.waiters(x),
            forall|x: Digest|
                x != d ==> #[trigger] self.install(d, size).is_resident(x) == self.is_resident(
                    x,
                ),
    {
    }
}

} // verus!
