//! The artifact cache: a bounded store of blobs, keyed by digest, that evicts
//! the least recently used blob nobody refers to and lets concurrent requests
//! for one digest share a single fetch.

use crate::cache_model::{CacheView, EntryView, Lookup};
use crate::fs::{Fs, TempFile};
use crate::ids::{Digest, JobId};
use vstd::prelude::*;

verus! {

/// The state of one digest, as the cache holds it.
pub enum EntryState {
    Fetching { waiters: Vec<JobId> },
    InUse { size: u64, ref_count: u64 },
    InHeap { size: u64 },
}

impl View for EntryState {
    type V = EntryView;

    open spec fn view(&self) -> EntryView {
        match self {
            EntryState::Fetching { waiters } => EntryView::Fetching { waiters: waiters@ },
            EntryState::InUse { size, ref_count } => EntryView::InUse {
                size: *size as nat,
                ref_count: *ref_count as nat,
            },
            EntryState::InHeap { size } => EntryView::InHeap { size: *size as nat },
        }
    }
}

/// One digest with its state.
pub struct CacheEntry {
    pub digest: Digest,
    pub state: EntryState,
}

/// The digests of a sequence of entries, in order.
pub open spec fn keys(es: Seq<CacheEntry>) -> Seq<Digest> {
    es.map_values(|e: CacheEntry| e.digest)
}

/// The entries as a map from digest to state. Where a digest occurs twice,
/// one of its entries is taken.
pub open spec fn entries_map(es: Seq<CacheEntry>) -> Map<Digest, EntryView> {
    Map::new(|d: Digest| keys(es).contains(d), |d: Digest| es[keys(es).index_of(d)].state@)
}

/// The bytes that a sequence of entries takes on disk.
pub open spec fn total_size(es: Seq<CacheEntry>) -> nat
    decreases es.len(),
{
    if es.len() == 0 {
        0
    } else {
        total_size(es.drop_last()) + es.last().state@.size()
    }
}

/// With distinct digests, the map holds each entry under its digest.
pub proof fn lemma_entries_map_index(es: Seq<CacheEntry>, i: int)
    requires
        keys(es).no_duplicates(),
        0 <= i < es.len(),
    ensures
        entries_map(es).contains_key(es[i].digest),
        entries_map(es)[es[i].digest] == es[i].state@,
        keys(es).index_of(es[i].digest) == i,
{
    let ks = keys(es);
    assert(ks[i] == es[i].digest);
    assert(ks.contains(es[i].digest));
    let k = ks.index_of(es[i].digest);
    assert(ks[k] == ks[i]);
}

/// A key of the map is the digest of some entry.
pub proof fn lemma_entries_map_key(es: Seq<CacheEntry>, d: Digest)
    requires
        entries_map(es).contains_key(d),
    ensures
        0 <= keys(es).index_of(d) < es.len(),
        es[keys(es).index_of(d)].digest == d,
{
    let ks = keys(es);
    assert(ks.contains(d));
    let k = ks.index_of(d);
    assert(ks[k] == d);
}

/// Appending an entry with a new digest inserts it into the map.
pub proof fn lemma_entries_push(es: Seq<CacheEntry>, e: CacheEntry)
    requires
        keys(es).no_duplicates(),
        !keys(es).contains(e.digest),
    ensures
        keys(es.push(e)).no_duplicates(),
        keys(es.push(e)) == keys(es).push(e.digest),
        entries_map(es.push(e)) == entries_map(es).insert(e.digest, e.state@),
        total_size(es.push(e)) == total_size(es) + e.state@.size(),
{
    let es2 = es.push(e);
    assert(keys(es2) =~= keys(es).push(e.digest));
    assert(es2.drop_last() =~= es);
    assert forall|d: Digest| #[trigger]
        entries_map(es2).contains_key(d) <==> entries_map(es).insert(
            e.digest,
            e.state@,
        ).contains_key(d) by {
        if keys(es).contains(d) {
            let k = keys(es).index_of(d);
            assert(keys(es2)[k] == d);
        }
        if d == e.digest {
            assert(keys(es2)[es.len() as int] == d);
        }
        if keys(es2).contains(d) {
            let k = keys(es2).index_of(d);
            assert(keys(es2)[k] == d);
            if k < es.len() {
                assert(keys(es)[k] == d);
            }
        }
    }
    assert forall|d: Digest| #[trigger] entries_map(es2).contains_key(d) implies entries_map(
        es2,
    )[d] == entries_map(es).insert(e.digest, e.state@)[d] by {
        lemma_entries_map_key(es2, d);
        let k = keys(es2).index_of(d);
        if k < es.len() {
            lemma_entries_map_index(es, k);
        }
    }
    assert(entries_map(es2) =~= entries_map(es).insert(e.digest, e.state@));
}

/// Replacing the state of an entry replaces it in the map.
pub proof fn lemma_entries_update(es: Seq<CacheEntry>, i: int, e: CacheEntry)
    requires
        keys(es).no_duplicates(),
        0 <= i < es.len(),
        e.digest == es[i].digest,
    ensures
        keys(es.update(i, e)) == keys(es),
        entries_map(es.update(i, e)) == entries_map(es).insert(e.digest, e.state@),
        total_size(es.update(i, e)) + es[i].state@.size() == total_size(es) + e.state@.size(),
{
    let es2 = es.update(i, e);
    assert(keys(es2) =~= keys(es));
    assert forall|d: Digest| #[trigger] entries_map(es2).contains_key(d) implies entries_map(
        es2,
    )[d] == entries_map(es).insert(e.digest, e.state@)[d] by {
        lemma_entries_map_key(es2, d);
        let k = keys(es2).index_of(d);
        lemma_entries_map_index(es2, k);
        if k != i {
            lemma_entries_map_index(es, k);
            assert(keys(es)[k] == d);
            assert(keys(es)[i] == e.digest);
        }
    }
    lemma_entries_map_index(es, i);
    assert(entries_map(es2) =~= entries_map(es).insert(e.digest, e.state@));
    lemma_total_update(es, i, e);
}

proof fn lemma_total_update(es: Seq<CacheEntry>, i: int, e: CacheEntry)
    requires
        0 <= i < es.len(),
    ensures
        total_size(es.update(i, e)) + es[i].state@.size() == total_size(es) + e.state@.size(),
    decreases es.len(),
{
    let es2 = es.update(i, e);
    if i == es.len() - 1 {
        assert(es2.drop_last() =~= es.drop_last());
    } else {
        assert(es2.drop_last() =~= es.drop_last().update(i, e));
        lemma_total_update(es.drop_last(), i, e);
    }
}

/// Removing an entry removes its digest from the map.
pub proof fn lemma_entries_remove(es: Seq<CacheEntry>, i: int)
    requires
        keys(es).no_duplicates(),
        0 <= i < es.len(),
    ensures
        keys(es.remove(i)).no_duplicates(),
        keys(es.remove(i)) == keys(es).remove(i),
        entries_map(es.remove(i)) == entries_map(es).remove(es[i].digest),
        total_size(es.remove(i)) + es[i].state@.size() == total_size(es),
{
    let es2 = es.remove(i);
    assert(keys(es2) =~= keys(es).remove(i));
    assert forall|a: int, b: int| 0 <= a < es2.len() && 0 <= b < es2.len() && a != b implies keys(
        es2,
    )[a] != keys(es2)[b] by {
        let a1 = if a < i { a } else { a + 1 };
        let b1 = if b < i { b } else { b + 1 };
        assert(keys(es2)[a] == keys(es)[a1]);
        assert(keys(es2)[b] == keys(es)[b1]);
    }
    assert forall|d: Digest| #[trigger]
        entries_map(es2).contains_key(d) <==> entries_map(es).remove(es[i].digest).contains_key(
            d,
        ) by {
        if keys(es2).contains(d) {
            let k = keys(es2).index_of(d);
            let k1 = if k < i { k } else { k + 1 };
            assert(keys(es)[k1] == d);
            assert(keys(es)[i] == es[i].digest);
        }
        if keys(es).contains(d) && d != es[i].digest {
            let k = keys(es).index_of(d);
            let k2 = if k < i { k } else { k - 1 };
            assert(keys(es2)[k2] == d);
        }
    }
    assert forall|d: Digest| #[trigger] entries_map(es2).contains_key(d) implies entries_map(
        es2,
    )[d] == entries_map(es).remove(es[i].digest)[d] by {
        lemma_entries_map_key(es2, d);
        let k = keys(es2).index_of(d);
        let k1 = if k < i { k } else { k + 1 };
        assert(es2[k] == es[k1]);
        lemma_entries_map_index(es, k1);
    }
    assert(entries_map(es2) =~= entries_map(es).remove(es[i].digest));
    lemma_total_remove(es, i);
}

proof fn lemma_total_remove(es: Seq<CacheEntry>, i: int)
    requires
        0 <= i < es.len(),
    ensures
        total_size(es.remove(i)) + es[i].state@.size() == total_size(es),
    decreases es.len(),
{
    let es2 = es.remove(i);
    if i == es.len() - 1 {
        assert(es2 =~= es.drop_last());
    } else {
        assert(es2.drop_last() =~= es.drop_last().remove(i));
        assert(es2.last() == es.last());
        lemma_total_remove(es.drop_last(), i);
    }
}

/// No entry is larger than a 64-bit size, so the total is bounded by the count.
pub proof fn lemma_total_bound(es: Seq<CacheEntry>)
    ensures
        total_size(es) <= es.len() * 0xffff_ffff_ffff_ffff,
    decreases es.len(),
{
    if es.len() > 0 {
        lemma_total_bound(es.drop_last());
        assert(es.last().state@.size() <= 0xffff_ffff_ffff_ffff);
        assert((es.len() - 1) * 0xffff_ffff_ffff_ffff + 0xffff_ffff_ffff_ffff == es.len()
            * 0xffff_ffff_ffff_ffff) by (nonlinear_arith);
    }
}

/// What a request for an artifact found.
#[derive(Debug, PartialEq, Eq)]
pub enum GetArtifact {
    /// The artifact is on disk at `path`, and the caller now holds a reference.
    HaveIt { path: String },
    /// A fetch is already in flight; the caller has been added to its waiters.
    Fetching,
    /// No fetch was in flight: one is now recorded, and the caller must start it.
    NeedFetch,
}

impl GetArtifact {
    /// Which of the three answers this is.
    pub open spec fn kind(self) -> Lookup {
        match self {
            GetArtifact::HaveIt { .. } => Lookup::HaveIt,
            GetArtifact::Fetching => Lookup::Fetching,
            GetArtifact::NeedFetch => Lookup::NeedFetch,
        }
    }
}

/// The directory, below the cache root, in which blobs are kept.
pub open spec fn spec_blob_dir() -> Seq<char> {
    "/sha256/blob/"@
}

/// The path at which the blob with digest `d` is kept below `root`.
pub open spec fn spec_blob_path(root: Seq<char>, d: Digest) -> Seq<char> {
    root + spec_blob_dir() + d.hex()
}

/// The cache. It owns the index of what is on disk below its root; the files
/// themselves are reached through `F`.
pub struct Cache<F: Fs> {
    fs: F,
    root: String,
    entries: Vec<CacheEntry>,
    lru: Vec<Digest>,
    bytes_used: u128,
    cache_size: u64,
}

impl<F: Fs> View for Cache<F> {
    type V = CacheView;

    closed spec fn view(&self) -> CacheView {
        CacheView {
            entries: entries_map(self.entries@),
            lru: self.lru@,
            bytes_used: self.bytes_used as nat,
            cache_size: self.cache_size as nat,
        }
    }
}

impl<F: Fs> Cache<F> {
    /// The index is consistent: no digest has two entries, the eviction order
    /// lists exactly the unreferenced entries, and the bytes accounted for are
    /// the sizes of the resident entries, added up.
    pub closed spec fn wf(&self) -> bool {
        &&& keys(self.entries@).no_duplicates()
        &&& self@.wf()
        &&& self.bytes_used == total_size(self.entries@)
    }

    /// The directory that holds the cache.
    pub closed spec fn root_path(&self) -> Seq<char> {
        self.root@
    }

    /// The digests that have an entry, each once, in the order in which the
    /// cache holds them.
    pub closed spec fn digests(&self) -> Seq<Digest> {
        keys(self.entries@)
    }

    /// An empty cache below `root` that aims to stay below `cache_size` bytes.
    pub fn new(fs: F, root: String, cache_size: u64) -> (c: Self)
        ensures
            c.wf(),
            c@ == CacheView::empty(cache_size as nat),
            c.root_path() == root@,
    {
        let c = Cache {
            fs,
            root,
            entries: Vec::new(),
            lru: Vec::new(),
            bytes_used: 0,
            cache_size,
        };
        assert(entries_map(c.entries@) =~= Map::empty());
        assert(c@.lru =~= Seq::empty());
        c
    }

    /// The directory that holds the cache.
    pub fn root(&self) -> (r: &String)
        ensures
            r@ == self.root_path(),
    {
        &self.root
    }

    /// The size the cache aims to stay below.
    pub fn cache_size(&self) -> (n: u64)
        ensures
            n == self@.cache_size,
    {
        self.cache_size
    }

    /// The bytes the resident artifacts take.
    pub fn bytes_used(&self) -> (n: u128)
        ensures
            n == self@.bytes_used,
    {
        self.bytes_used
    }

    /// The path at which the blob with digest `digest` is kept.
    pub fn cache_path(&self, digest: &Digest) -> (p: String)
        ensures
            p@ == spec_blob_path(self.root_path(), *digest),
    {
        let mut p = self.root.clone();
        p.append("/sha256/blob/");
        let hex = digest.to_hex();
        p.append(hex.as_str());
        p
    }

    fn find(&self, digest: &Digest) -> (r: Option<usize>)
        ensures
            match r {
                Some(i) => i < self.entries@.len() && self.entries@[i as int].digest == *digest,
                None => !keys(self.entries@).contains(*digest),
            },
    {
        let mut i: usize = 0;
        while i < self.entries.len()
            invariant
                i <= self.entries@.len(),
                forall|k: int| 0 <= k < i ==> self.entries@[k].digest != *digest,
            decreases self.entries@.len() - i,
        {
            if self.entries[i].digest == *digest {
                return Some(i);
            }
            i += 1;
        }
        proof {
            if keys(self.entries@).contains(*digest) {
                let k = keys(self.entries@).index_of(*digest);
                assert(keys(self.entries@)[k] == self.entries@[k].digest);
            }
        }
        None
    }

    /// The state of `digest`, if it has an entry.
    pub fn lookup(&self, digest: &Digest) -> (r: Lookup)
        requires
            self.wf(),
        ensures
            r == self@.lookup(*digest),
    {
        match self.find(digest) {
            None => Lookup::NeedFetch,
            Some(i) => {
                proof {
                    lemma_entries_map_index(self.entries@, i as int);
                }
                match &self.entries[i].state {
                    EntryState::Fetching { .. } => Lookup::Fetching,
                    _ => Lookup::HaveIt,
                }
            },
        }
    }

    /// The number of references to `digest`: zero unless it is in use.
    pub fn ref_count(&self, digest: &Digest) -> (n: u64)
        requires
            self.wf(),
        ensures
            n == self@.ref_count(*digest),
    {
        match self.find(digest) {
            None => 0,
            Some(i) => {
                proof {
                    lemma_entries_map_index(self.entries@, i as int);
                }
                match &self.entries[i].state {
                    EntryState::InUse { ref_count, .. } => *ref_count,
                    _ => 0,
                }
            },
        }
    }
}

impl<F: Fs> Cache<F> {
    /// Asks for the artifact `digest` on behalf of `job`.
    ///
    /// A resident artifact gains a reference, leaves the eviction order, and
    /// its path is returned. A fetch in flight gains `job` as a waiter. With
    /// no entry, a fetch is recorded with `job` as its first waiter, and the
    /// caller is told to start it.
    pub fn get_artifact(&mut self, digest: Digest, job: JobId) -> (r: GetArtifact)
        requires
            old(self).wf(),
            old(self)@.ref_count(digest) < u64::MAX,
        ensures
            final(self).wf(),
            final(self)@ == old(self)@.get_artifact(digest, job),
            final(self).root_path() == old(self).root_path(),
            r.kind() == old(self)@.lookup(digest),
            r matches GetArtifact::HaveIt { path } ==> path@ == spec_blob_path(
                old(self).root_path(),
                digest,
            ),
    {
        proof {
            self@.lemma_get_artifact_wf(digest, job);
        }
        match self.find(&digest) {
            None => {
                let mut waiters = Vec::new();
                waiters.push(job);
                let e = CacheEntry { digest, state: EntryState::Fetching { waiters } };
                proof {
                    lemma_entries_push(self.entries@, e);
                    assert(waiters@ =~= seq![job]);
                }
                self.entries.push(e);
                GetArtifact::NeedFetch
            },
            Some(i) => {
                proof {
                    lemma_entries_map_index(self.entries@, i as int);
                }
                let ghost before = self.entries@;
                match &mut self.entries[i].state {
                    EntryState::Fetching { waiters } => {
                        waiters.push(job);
                        proof {
                            assert(self.entries@ =~= before.update(i as int, self.entries@[i as int]));
                            lemma_entries_update(before, i as int, self.entries@[i as int]);
                        }
                        GetArtifact::Fetching
                    },
                    EntryState::InUse { ref_count, .. } => {
                        *ref_count = *ref_count + 1;
                        proof {
                            assert(self.entries@ =~= before.update(i as int, self.entries@[i as int]));
                            lemma_entries_update(before, i as int, self.entries@[i as int]);
                        }
                        GetArtifact::HaveIt { path: self.cache_path(&digest) }
                    },
                    EntryState::InHeap { size } => {
                        let size = *size;
                        self.entries[i].state = EntryState::InUse { size, ref_count: 1 };
                        proof {
                            assert(self.entries@ =~= before.update(i as int, self.entries@[i as int]));
                            lemma_entries_update(before, i as int, self.entries@[i as int]);
                            assert(self.lru@.contains(digest));
                        }
                        let k = crate::seq_util::position_of_digest(&self.lru, digest);
                        match k {
                            Some(k) => {
                                proof {
                                    let k2 = self.lru@.index_of(digest);
                                    assert(self.lru@[k2] == digest);
                                    assert(k2 == k);
                                }
                                self.lru.remove(k);
                            },
                            None => {},
                        }
                        GetArtifact::HaveIt { path: self.cache_path(&digest) }
                    },
                }
            },
        }
    }

    /// Gives back one reference to `digest`. When the last one goes, the entry
    /// becomes the most recently used of the unreferenced entries. A digest
    /// that is not in use is left as it is.
    pub fn decrement_ref(&mut self, digest: Digest)
        requires
            old(self).wf(),
        ensures
            final(self).wf(),
            final(self)@ == old(self)@.decrement_ref(digest),
            final(self).root_path() == old(self).root_path(),
    {
        proof {
            self@.lemma_decrement_ref_wf(digest);
        }
        match self.find(&digest) {
            None => {},
            Some(i) => {
                proof {
                    lemma_entries_map_index(self.entries@, i as int);
                }
                let ghost before = self.entries@;
                match &self.entries[i].state {
                    EntryState::InUse { size, ref_count } => {
                        let size = *size;
                        let ref_count = *ref_count;
                        if ref_count > 1 {
                            self.entries[i].state = EntryState::InUse {
                                size,
                                ref_count: ref_count - 1,
                            };
                        } else {
                            self.entries[i].state = EntryState::InHeap { size };
                            self.lru.push(digest);
                        }
                        proof {
                            assert(self.entries@ =~= before.update(i as int, self.entries@[i as int]));
                            lemma_entries_update(before, i as int, self.entries@[i as int]);
                        }
                    },
                    _ => {},
                }
            },
        }
    }

    /// Records that the fetch of `digest` has failed: the entry is removed, so
    /// that a later request starts a new fetch, and the jobs that waited for
    /// it are returned. Without a fetch in flight nothing changes and nobody
    /// is returned.
    pub fn got_artifact_failure(&mut self, digest: Digest) -> (waiters: Vec<JobId>)
        requires
            old(self).wf(),
        ensures
            final(self).wf(),
            final(self)@ == old(self)@.fail(digest),
            final(self).root_path() == old(self).root_path(),
            waiters@ == old(self)@.waiters(digest),
    {
        proof {
            self@.lemma_fail_wf(digest);
        }
        match self.find(&digest) {
            None => Vec::new(),
            Some(i) => {
                proof {
                    lemma_entries_map_index(self.entries@, i as int);
                }
                match &self.entries[i].state {
                    EntryState::Fetching { .. } => {
                        proof {
                            lemma_entries_remove(self.entries@, i as int);
                        }
                        let e = self.entries.remove(i);
                        match e.state {
                            EntryState::Fetching { waiters } => waiters,
                            _ => Vec::new(),
                        }
                    },
                    _ => Vec::new(),
                }
            },
        }
    }
}

/// How the arrival of an artifact ended.
#[derive(Debug)]
pub enum GotArtifact<E> {
    /// The artifact is now resident. `waiters` are the jobs that waited for
    /// it, each of which now holds a reference; `evicted` are the digests that
    /// had to leave, in the order in which they left; `over_target` says that
    /// the cache is above its target size all the same.
    Stored { size: u64, waiters: Vec<JobId>, evicted: Vec<Digest>, over_target: bool },
    /// The artifact was resident already. The new copy has been dropped and
    /// nothing has changed.
    Discarded,
    /// The file system failed. The fetch counts as failed for every waiter.
    /// `room_made_for` is the size for which entries were evicted before the
    /// failure, if it got that far, and `evicted` are those entries.
    Failed { error: Option<E>, waiters: Vec<JobId>, room_made_for: Option<u64>, evicted: Vec<Digest> },
}

impl<F: Fs> Cache<F> {
    /// Makes room for `size` more bytes: evicts unreferenced entries, least
    /// recently used first, until the bytes fit below the target or no
    /// unreferenced entry is left. Returns the digests that left, in order.
    /// The files are not touched.
    pub fn evict_for(&mut self, size: u64) -> (evicted: Vec<Digest>)
        requires
            old(self).wf(),
        ensures
            final(self).wf(),
            final(self)@ == old(self)@.evict_for(size as nat),
            final(self).root_path() == old(self).root_path(),
            evicted@ == old(self)@.evicted_for(size as nat),
    {
        let mut evicted: Vec<Digest> = Vec::new();
        let count = self.entries.len();
        proof {
            lemma_total_bound(self.entries@);
        }
        while self.bytes_used + (size as u128) > (self.cache_size as u128) && self.lru.len() > 0
            invariant
                self.wf(),
                self.root_path() == old(self).root_path(),
                self@.evict_for(size as nat) == old(self)@.evict_for(size as nat),
                evicted@ + self@.evicted_for(size as nat) == old(self)@.evicted_for(size as nat),
                self.bytes_used <= total_size(self.entries@),
                total_size(self.entries@) <= self.entries@.len() * 0xffff_ffff_ffff_ffff,
                self.entries@.len() <= count <= 0xffff_ffff_ffff_ffff,
            decreases self.lru@.len(),
        {
            assert(self.entries@.len() * 0xffff_ffff_ffff_ffff <= 0xffff_ffff_ffff_ffff
                * 0xffff_ffff_ffff_ffff) by (nonlinear_arith)
                requires
                    self.entries@.len() <= 0xffff_ffff_ffff_ffff,
            ;
            let ghost pre = self@;
            proof {
                pre.lemma_evict_one_wf();
            }
            let d = self.lru.remove(0);
            assert(self.lru@ =~= pre.lru.drop_first());
            match self.find(&d) {
                Some(i) => {
                    proof {
                        lemma_entries_map_index(self.entries@, i as int);
                        lemma_entries_remove(self.entries@, i as int);
                    }
                    let e = self.entries.remove(i);
                    match e.state {
                        EntryState::InHeap { size: freed } => {
                            self.bytes_used = self.bytes_used - (freed as u128);
                        },
                        _ => {},
                    }
                },
                None => {},
            }
            proof {
                assert(self@ == pre.evict_one());
                assert(evicted@.push(d) + self@.evicted_for(size as nat) =~= evicted@ + (seq![d]
                    + self@.evicted_for(size as nat)));
                lemma_total_bound(self.entries@);
            }
            evicted.push(d);
        }
        proof {
            assert(evicted@ + Seq::<Digest>::empty() =~= evicted@);
        }
        evicted
    }

    /// Records that the artifact `digest`, of `size` bytes, is now on disk.
    /// Each job that waited for it holds a reference from now on, and those
    /// jobs are returned in the order in which they asked. With no waiter the
    /// entry is unreferenced and the most recently used.
    pub fn install(&mut self, digest: Digest, size: u64) -> (waiters: Vec<JobId>)
        requires
            old(self).wf(),
            !old(self)@.is_resident(digest),
        ensures
            final(self).wf(),
            final(self)@ == old(self)@.install(digest, size as nat),
            final(self).root_path() == old(self).root_path(),
            waiters@ == old(self)@.waiters(digest),
    {
        let count = self.entries.len();
        proof {
            assert(self.entries@.len() == count);
            self@.lemma_install_wf(digest, size as nat);
            lemma_total_bound(self.entries@);
            assert(self.entries@.len() * 0xffff_ffff_ffff_ffff + 0xffff_ffff_ffff_ffff
                <= 0xffff_ffff_ffff_ffff_ffff_ffff_ffff_ffff) by (nonlinear_arith)
                requires
                    self.entries@.len() <= 0xffff_ffff_ffff_ffff,
            ;
        }
        let ghost before = self.entries@;
        let ghost before_map = entries_map(self.entries@);
        let waiters = match self.find(&digest) {
            None => Vec::new(),
            Some(i) => {
                proof {
                    lemma_entries_map_index(self.entries@, i as int);
                    lemma_entries_remove(self.entries@, i as int);
                }
                let e = self.entries.remove(i);
                match e.state {
                    EntryState::Fetching { waiters } => waiters,
                    _ => Vec::new(),
                }
            },
        };
        assert(total_size(self.entries@) == total_size(before));
        assert(!keys(self.entries@).contains(digest)) by {
            assert(!entries_map(self.entries@).contains_key(digest));
        }
        let state = if waiters.len() > 0 {
            EntryState::InUse { size, ref_count: waiters.len() as u64 }
        } else {
            self.lru.push(digest);
            EntryState::InHeap { size }
        };
        let e = CacheEntry { digest, state };
        proof {
            lemma_entries_push(self.entries@, e);
            assert(before_map.remove(digest).insert(digest, e.state@) =~= before_map.insert(
                digest,
                e.state@,
            ));
        }
        self.entries.push(e);
        self.bytes_used = self.bytes_used + (size as u128);
        waiters
    }

    /// Takes in the artifact `digest`, which has been fetched into `temp_file`.
    ///
    /// If the artifact is resident already, the file is dropped. Otherwise the
    /// size of the file is read, room is made for it, the evicted blobs are
    /// removed from disk, and the file is moved to its place in the cache.
    /// If the size cannot be read or the file cannot be moved, the fetch has
    /// failed for every waiter.
    pub fn got_artifact(&mut self, digest: Digest, temp_file: F::TempFile) -> (r: GotArtifact<
        F::Error,
    >)
        requires
            old(self).wf(),
        ensures
            final(self).wf(),
            final(self).root_path() == old(self).root_path(),
            got_artifact_outcome(old(self)@, digest, r, final(self)@),
    {
        if self.lookup(&digest) == Lookup::HaveIt {
            return GotArtifact::Discarded;
        }
        let temp_path = temp_file.path();
        let size = match self.fs.metadata(temp_path.as_str()) {
            Ok(Some(metadata)) => metadata.size,
            Ok(None) => {
                let waiters = self.got_artifact_failure(digest);
                return GotArtifact::Failed {
                    error: None,
                    waiters,
                    room_made_for: None,
                    evicted: Vec::new(),
                };
            },
            Err(error) => {
                let waiters = self.got_artifact_failure(digest);
                return GotArtifact::Failed {
                    error: Some(error),
                    waiters,
                    room_made_for: None,
                    evicted: Vec::new(),
                };
            },
        };
        let ghost before = self@;
        proof {
            before.lemma_evict_for_wf(size as nat);
        }
        let evicted = self.evict_for(size);
        let ghost roomy = self@;
        proof {
            assert(roomy.waiters(digest) == before.waiters(digest)) by {
                if before.is_fetching(digest) {
                    assert(roomy.entries.contains_key(digest));
                }
            }
            assert(!roomy.is_resident(digest));
        }
        let mut i: usize = 0;
        while i < evicted.len()
            invariant
                i <= evicted@.len(),
                self@ == roomy,
                self.wf(),
                self.root_path() == old(self).root_path(),
            decreases evicted@.len() - i,
        {
            let path = self.cache_path(&evicted[i]);
            let _ = self.fs.remove(path.as_str());
            i += 1;
        }
        let target = self.cache_path(&digest);
        match self.fs.persist_temp_file(temp_file, target.as_str()) {
            Ok(()) => {
                let waiters = self.install(digest, size);
                let over_target = self.bytes_used > self.cache_size as u128;
                GotArtifact::Stored { size, waiters, evicted, over_target }
            },
            Err(error) => {
                let waiters = self.got_artifact_failure(digest);
                GotArtifact::Failed {
                    error: Some(error),
                    waiters,
                    room_made_for: Some(size),
                    evicted,
                }
            },
        }
    }
}

/// What [`Cache::got_artifact`] may make of the cache `pre`, for each way in
/// which it can end.
pub open spec fn got_artifact_outcome<E>(
    pre: CacheView,
    digest: Digest,
    r: GotArtifact<E>,
    post: CacheView,
) -> bool {
    match r {
        GotArtifact::Discarded => pre.is_resident(digest) && post == pre,
        GotArtifact::Stored { size, waiters, evicted, over_target } => {
            &&& !pre.is_resident(digest)
            &&& post == pre.evict_for(size as nat).install(digest, size as nat)
            &&& waiters@ == pre.waiters(digest)
            &&& evicted@ == pre.evicted_for(size as nat)
            &&& over_target == (post.bytes_used > post.cache_size)
        },
        GotArtifact::Failed { error, waiters, room_made_for, evicted } => {
            &&& !pre.is_resident(digest)
            &&& waiters@ == pre.waiters(digest)
            &&& match room_made_for {
                None => post == pre.fail(digest) && evicted@ == Seq::<Digest>::empty(),
                Some(size) => post == pre.evict_for(size as nat).fail(digest) && evicted@
                    == pre.evicted_for(size as nat),
            }
        },
    }
}

/// The sizes of the entries of `order`, added up.
pub open spec fn sum_of_sizes(order: Seq<Digest>, entries: Map<Digest, EntryView>) -> nat
    decreases order.len(),
{
    if order.len() == 0 {
        0
    } else {
        sum_of_sizes(order.drop_last(), entries) + entries[order.last()].size()
    }
}

proof fn lemma_total_is_sum(es: Seq<CacheEntry>, k: int)
    requires
        keys(es).no_duplicates(),
        0 <= k <= es.len(),
    ensures
        total_size(es.take(k)) == sum_of_sizes(keys(es).take(k), entries_map(es)),
    decreases k,
{
    if k > 0 {
        lemma_total_is_sum(es, k - 1);
        assert(es.take(k).drop_last() =~= es.take(k - 1));
        assert(keys(es).take(k).drop_last() =~= keys(es).take(k - 1));
        lemma_entries_map_index(es, k - 1);
    }
}

impl<F: Fs> Cache<F> {
    /// A consistent index describes a well-formed cache.
    pub proof fn lemma_view_wf(&self)
        requires
            self.wf(),
        ensures
            self@.wf(),
    {
    }

    /// The bytes in use are the sizes of the entries, added up: the digests
    /// of the cache list every entry once, and the sum over them is what the
    /// cache accounts for. An entry whose fetch is in flight counts nothing.
    pub proof fn law_bytes_accounted(&self)
        requires
            self.wf(),
        ensures
            self.digests().no_duplicates(),
            forall|d: Digest| self.digests().contains(d) <==> self@.entries.contains_key(d),
            self@.bytes_used == sum_of_sizes(self.digests(), self@.entries),
    {
        let es = self.entries@;
        lemma_total_is_sum(es, es.len() as int);
        assert(es.take(es.len() as int) =~= es);
        assert(keys(es).take(es.len() as int) =~= keys(es));
    }
}

} // verus!
