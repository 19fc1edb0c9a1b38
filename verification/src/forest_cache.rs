//! The bookkeeping of the forest storage handler: which forests are known
//! to exist, and which of them are open, in a cache that evicts the least
//! recently used forest when it is full. The forests themselves live
//! outside; here each open forest is a handle that the caller maps to it.

use vstd::prelude::*;
use crate::hex_key::{forest_dir_key, spec_hex_decode, strip_one_0x};
use crate::keyed::BytesSet;
use crate::lru_cache::{
    entry_keys, lru_cap, lru_entries, lru_get, lru_new, lru_ok, lru_pop, lru_push, lru_unbounded,
    HandleCache,
};
use crate::peer_manager::vec_views;

verus! {

/// The outcome of looking a forest up.
pub enum ForestLookup {
    /// The forest is not known
    Unknown,
    /// The forest is open, under this handle
    Open(u64),
    /// The forest is known but not open: it has to be opened
    NotOpen,
}

/// What creating a forest takes.
pub enum ForestCreation {
    /// The forest exists and is open, under this handle
    Existing(u64),
    /// The forest is known but not open: open it, then add it with `add_open`
    OpenKnown,
    /// The forest is new: create it, then register it with `register_new`
    CreateNew,
}

/// What taking a snapshot of a forest under another key takes.
pub enum SnapshotPlan {
    /// The destination forest is open, under this handle: it is the snapshot
    Existing(u64),
    /// The destination forest is known but not open: open it, then add it with `add_open`
    OpenDestination,
    /// Copy the open source forest of this handle, then register the copy with `register_new`
    CopySource(u64),
    /// Open the known source forest, copy it, then register the copy with `register_new`
    OpenSourceAndCopy,
    /// The source forest is not available: there is no snapshot
    NoSource,
}

/// What creating the forest `key` takes, given the known forests and the
/// open ones (most recently used first).
pub open spec fn creation_of(known: Set<Seq<u8>>, open: Seq<(Seq<u8>, u64)>, key: Seq<u8>) -> ForestCreation {
    if !known.contains(key) {
        ForestCreation::CreateNew
    } else if !entry_keys(open).contains(key) {
        ForestCreation::OpenKnown
    } else {
        ForestCreation::Existing(open[entry_keys(open).index_of(key)].1)
    }
}

/// The open forests after `key` was used: an open `key` moves to the front.
pub open spec fn touched(open: Seq<(Seq<u8>, u64)>, key: Seq<u8>) -> Seq<(Seq<u8>, u64)> {
    if entry_keys(open).contains(key) {
        let i = entry_keys(open).index_of(key);
        seq![open[i]] + open.remove(i)
    } else {
        open
    }
}

/// The open forests after `key` was opened under `handle`, in a cache of
/// `capacity` forests: it comes first, and the least recently used forest
/// leaves a full cache.
pub open spec fn opened(open: Seq<(Seq<u8>, u64)>, capacity: nat, key: Seq<u8>, handle: u64) -> Seq<(Seq<u8>, u64)> {
    if open.len() == capacity { seq![(key, handle)] + open.drop_last() } else { seq![(key, handle)] + open }
}

/// Forest storage bookkeeping with lazy opening and a bounded set of open forests.
pub struct ForestStorageCaching {
    open_forests: HandleCache,
    known_forests: BytesSet,
    next_handle: u64,
    opens_lazily: bool,
}

impl ForestStorageCaching {
    /// The forests known to exist.
    pub closed spec fn known(&self) -> Set<Seq<u8>> {
        self.known_forests.view()
    }

    /// The open forests with their handles, from the most to the least recently used.
    pub closed spec fn open(&self) -> Seq<(Seq<u8>, u64)> {
        lru_entries(self.open_forests)
    }

    /// The most forests open at once.
    pub closed spec fn capacity(&self) -> nat {
        lru_cap(self.open_forests)
    }

    /// Whether forests are kept on disk and opened when needed; forests kept
    /// in memory exist only while they are open.
    pub closed spec fn opens_lazily(&self) -> bool {
        self.opens_lazily
    }

    /// The handle that the next opened forest gets.
    pub closed spec fn next_handle(&self) -> u64 {
        self.next_handle
    }

    /// Every open forest is known, and handles were given out before.
    pub closed spec fn wf(&self) -> bool {
        &&& lru_ok(self.open_forests)
        &&& self.known_forests.wf()
        &&& forall|i: int| 0 <= i < lru_entries(self.open_forests).len()
            ==> self.known_forests.view().contains(#[trigger] lru_entries(self.open_forests)[i].0)
                && lru_entries(self.open_forests)[i].1 < self.next_handle
    }

    /// In every well-formed state, no more forests are open than the
    /// capacity allows, each open forest is known to exist, no forest is
    /// open twice, and every handle given out is below the next one.
    pub proof fn law_open_forests_bounded(&self)
        requires
            self.wf(),
        ensures
            self.open().len() <= self.capacity(),
            entry_keys(self.open()).no_duplicates(),
            forall|i: int| 0 <= i < self.open().len() ==> self.known().contains(#[trigger] self.open()[i].0)
                && self.open()[i].1 < self.next_handle(),
    {
    }

    /// Whether `key` is open.
    pub open spec fn is_open(&self, key: Seq<u8>) -> bool {
        entry_keys(self.open()).contains(key)
    }

    /// Bookkeeping for forests kept in memory: no forest is known, and the
    /// number of open forests is not bounded.
    pub fn new_in_memory() -> (r: ForestStorageCaching)
        ensures
            r.wf(),
            r.known() == Set::<Seq<u8>>::empty(),
            r.open().len() == 0,
            r.capacity() == usize::MAX,
            r.next_handle() == 0,
            !r.opens_lazily(),
    {
        ForestStorageCaching { open_forests: lru_unbounded(), known_forests: BytesSet::new(), next_handle: 0, opens_lazily: false }
    }

    /// Bookkeeping for forests kept on disk, in directories named by the
    /// hex of their keys (with an optional `"0x"`): the forests of the
    /// directory names that decode are known, none is open, and at most
    /// `max_open_forests` are open at once.
    pub fn new_on_disk(dir_names: &Vec<Vec<u8>>, max_open_forests: usize) -> (r: ForestStorageCaching)
        requires
            max_open_forests > 0,
        ensures
            r.wf(),
            r.open().len() == 0,
            r.capacity() == max_open_forests,
            r.next_handle() == 0,
            r.opens_lazily(),
            forall|k: Seq<u8>| r.known().contains(k) <==> exists|i: int| 0 <= i < dir_names@.len()
                && #[trigger] spec_hex_decode(strip_one_0x(dir_names@[i]@)) == Some(k),
    {
        let mut known = BytesSet::new();
        let mut i: usize = 0;
        while i < dir_names.len()
            invariant
                known.wf(),
                i <= dir_names@.len(),
                forall|k: Seq<u8>| known.view().contains(k) <==> exists|j: int| 0 <= j < i
                    && #[trigger] spec_hex_decode(strip_one_0x(dir_names@[j]@)) == Some(k),
            decreases dir_names@.len() - i,
        {
            let ghost prev = known.view();
            match forest_dir_key(dir_names[i].as_slice()) {
                Some(key) => {
                    let ghost kv = key@;
                    let _ = known.insert(key);
                    proof {
                        assert forall|k: Seq<u8>| known.view().contains(k) <==> exists|j: int| 0 <= j < i + 1
                            && #[trigger] spec_hex_decode(strip_one_0x(dir_names@[j]@)) == Some(k) by {
                            if k == kv {
                                assert(spec_hex_decode(strip_one_0x(dir_names@[i as int]@)) == Some(k));
                            }
                            if exists|j: int| 0 <= j < i + 1 && #[trigger] spec_hex_decode(strip_one_0x(dir_names@[j]@)) == Some(k) {
                                let j = choose|j: int| 0 <= j < i + 1 && #[trigger] spec_hex_decode(strip_one_0x(dir_names@[j]@)) == Some(k);
                                if j < i {
                                    assert(prev.contains(k));
                                }
                            }
                        }
                    }
                },
                None => {
                    proof {
                        assert forall|k: Seq<u8>| known.view().contains(k) <==> exists|j: int| 0 <= j < i + 1
                            && #[trigger] spec_hex_decode(strip_one_0x(dir_names@[j]@)) == Some(k) by {
                            if exists|j: int| 0 <= j < i + 1 && #[trigger] spec_hex_decode(strip_one_0x(dir_names@[j]@)) == Some(k) {
                                let j = choose|j: int| 0 <= j < i + 1 && #[trigger] spec_hex_decode(strip_one_0x(dir_names@[j]@)) == Some(k);
                                assert(j != i);
                            }
                        }
                    }
                },
            }
            i = i + 1;
        }
        ForestStorageCaching { open_forests: lru_new(max_open_forests), known_forests: known, next_handle: 0, opens_lazily: true }
    }

    /// Whether the forest `key` is known.
    pub fn is_forest_storage_present(&self, key: &Vec<u8>) -> (r: bool)
        ensures
            r == self.known().contains(key@),
    {
        self.known_forests.contains(key.as_slice())
    }

    /// Looks the forest `key` up; an open forest becomes the most recently used.
    pub fn get(&mut self, key: &Vec<u8>) -> (r: ForestLookup)
        requires
            old(self).wf(),
        ensures
            final(self).wf(),
            final(self).known() == old(self).known(),
            final(self).capacity() == old(self).capacity(),
            final(self).opens_lazily() == old(self).opens_lazily(),
            final(self).next_handle() == old(self).next_handle(),
            !old(self).known().contains(key@) ==> r is Unknown && final(self).open() == old(self).open(),
            old(self).known().contains(key@) && !old(self).is_open(key@) ==> r is NotOpen && final(self).open() == old(self).open(),
            old(self).known().contains(key@) && old(self).is_open(key@) ==> {
                let i = entry_keys(old(self).open()).index_of(key@);
                &&& r == ForestLookup::Open(old(self).open()[i].1)
                &&& final(self).open() == seq![old(self).open()[i]] + old(self).open().remove(i)
            },
    {
        if !self.known_forests.contains(key.as_slice()) {
            return ForestLookup::Unknown;
        }
        let r = lru_get(&mut self.open_forests, key);
        proof { self.lemma_reordered(old(self)); }
        match r {
            Some(h) => ForestLookup::Open(h),
            None => ForestLookup::NotOpen,
        }
    }

    proof fn lemma_reordered(&self, prev: &ForestStorageCaching)
        requires
            prev.wf(),
            lru_ok(self.open_forests),
            self.known_forests == prev.known_forests,
            self.next_handle == prev.next_handle,
            forall|i: int| 0 <= i < self.open().len() ==> prev.open().contains(#[trigger] self.open()[i]),
        ensures
            self.wf(),
    {
        assert forall|i: int| 0 <= i < lru_entries(self.open_forests).len()
            implies self.known_forests.view().contains(#[trigger] lru_entries(self.open_forests)[i].0)
                && lru_entries(self.open_forests)[i].1 < self.next_handle by {
            assert(prev.open().contains(self.open()[i]));
            let j = choose|j: int| 0 <= j < prev.open().len() && prev.open()[j] == self.open()[i];
            assert(prev.known_forests.view().contains(lru_entries(prev.open_forests)[j].0));
        }
    }

    /// What creating the forest `key` takes; an open forest becomes the most
    /// recently used.
    pub fn create(&mut self, key: &Vec<u8>) -> (r: ForestCreation)
        requires
            old(self).wf(),
        ensures
            final(self).wf(),
            final(self).known() == old(self).known(),
            final(self).capacity() == old(self).capacity(),
            final(self).opens_lazily() == old(self).opens_lazily(),
            final(self).next_handle() == old(self).next_handle(),
            !old(self).known().contains(key@) ==> r is CreateNew && final(self).open() == old(self).open(),
            old(self).known().contains(key@) && !old(self).is_open(key@) ==> r is OpenKnown && final(self).open() == old(self).open(),
            old(self).known().contains(key@) && old(self).is_open(key@) ==> {
                let i = entry_keys(old(self).open()).index_of(key@);
                &&& r == ForestCreation::Existing(old(self).open()[i].1)
                &&& final(self).open() == seq![old(self).open()[i]] + old(self).open().remove(i)
            },
            r == creation_of(old(self).known(), old(self).open(), key@),
            final(self).open() == touched(old(self).open(), key@),
    {
        match self.get(key) {
            ForestLookup::Unknown => ForestCreation::CreateNew,
            ForestLookup::NotOpen => ForestCreation::OpenKnown,
            ForestLookup::Open(h) => ForestCreation::Existing(h),
        }
    }

    /// What taking a snapshot of `src_key` under `dest_key` takes: a
    /// destination found (open, or known and opened when needed) is the
    /// snapshot; otherwise the source is looked up (an open forest becomes
    /// the most recently used) and copied when it is available.
    pub fn snapshot(&mut self, src_key: &Vec<u8>, dest_key: &Vec<u8>) -> (r: SnapshotPlan)
        requires
            old(self).wf(),
        ensures
            final(self).wf(),
            final(self).known() == old(self).known(),
            final(self).capacity() == old(self).capacity(),
            final(self).opens_lazily() == old(self).opens_lazily(),
            final(self).next_handle() == old(self).next_handle(),
            old(self).known().contains(dest_key@) && old(self).is_open(dest_key@) ==> {
                &&& r == SnapshotPlan::Existing(old(self).open()[entry_keys(old(self).open()).index_of(dest_key@)].1)
                &&& final(self).open() == touched(old(self).open(), dest_key@)
            },
            old(self).known().contains(dest_key@) && !old(self).is_open(dest_key@) && old(self).opens_lazily() ==>
                r is OpenDestination && final(self).open() == old(self).open(),
            !old(self).known().contains(dest_key@) || (!old(self).is_open(dest_key@) && !old(self).opens_lazily()) ==> {
                &&& final(self).open() == touched(old(self).open(), src_key@)
                &&& !old(self).known().contains(src_key@) ==> r is NoSource
                &&& old(self).known().contains(src_key@) && old(self).is_open(src_key@)
                    ==> r == SnapshotPlan::CopySource(old(self).open()[entry_keys(old(self).open()).index_of(src_key@)].1)
                &&& old(self).known().contains(src_key@) && !old(self).is_open(src_key@) && old(self).opens_lazily()
                    ==> r is OpenSourceAndCopy
                &&& old(self).known().contains(src_key@) && !old(self).is_open(src_key@) && !old(self).opens_lazily()
                    ==> r is NoSource
            },
    {
        let dest = self.get(dest_key);
        let found = match dest {
            ForestLookup::Open(h) => Some(SnapshotPlan::Existing(h)),
            ForestLookup::NotOpen => if self.opens_lazily { Some(SnapshotPlan::OpenDestination) } else { None },
            ForestLookup::Unknown => None,
        };
        match found {
            Some(plan) => plan,
            None => match self.get(src_key) {
                ForestLookup::Unknown => SnapshotPlan::NoSource,
                ForestLookup::Open(h) => SnapshotPlan::CopySource(h),
                ForestLookup::NotOpen => if self.opens_lazily { SnapshotPlan::OpenSourceAndCopy } else { SnapshotPlan::NoSource },
            },
        }
    }

    fn put_open(&mut self, key: Vec<u8>) -> (r: (u64, Option<u64>))
        requires
            old(self).wf(),
            old(self).known().contains(key@),
            !old(self).is_open(key@),
            old(self).next_handle() < u64::MAX,
        ensures
            final(self).wf(),
            final(self).known() == old(self).known(),
            final(self).capacity() == old(self).capacity(),
            final(self).opens_lazily() == old(self).opens_lazily(),
            r.0 == old(self).next_handle(),
            final(self).next_handle() == old(self).next_handle() + 1,
            old(self).open().len() == old(self).capacity() ==> {
                &&& r.1 == Some(old(self).open().last().1)
                &&& final(self).open() == seq![(key@, r.0)] + old(self).open().drop_last()
            },
            old(self).open().len() < old(self).capacity() ==> {
                &&& r.1 is None
                &&& final(self).open() == seq![(key@, r.0)] + old(self).open()
            },
    {
        let h = self.next_handle;
        let ghost kv = key@;
        let evicted = lru_push(&mut self.open_forests, key, h);
        self.next_handle = h + 1;
        proof {
            assert forall|i: int| 0 <= i < lru_entries(self.open_forests).len()
                implies self.known_forests.view().contains(#[trigger] lru_entries(self.open_forests)[i].0)
                    && lru_entries(self.open_forests)[i].1 < self.next_handle by {
                if i > 0 {
                    let o = lru_entries(old(self).open_forests);
                    if o.len() == lru_cap(old(self).open_forests) {
                        assert(lru_entries(self.open_forests)[i] == o.drop_last()[i - 1]);
                        assert(lru_entries(self.open_forests)[i] == o[i - 1]);
                    } else {
                        assert(lru_entries(self.open_forests)[i] == o[i - 1]);
                    }
                }
            }
        }
        match evicted {
            Some(e) => (h, Some(e.1)),
            None => (h, None),
        }
    }

    /// Adds the known forest `key`, just opened, as the most recently used;
    /// returns its new handle and the handle of the forest evicted to make
    /// room, if any.
    pub fn add_open(&mut self, key: Vec<u8>) -> (r: (u64, Option<u64>))
        requires
            old(self).wf(),
            old(self).known().contains(key@),
            !old(self).is_open(key@),
            old(self).next_handle() < u64::MAX,
        ensures
            final(self).wf(),
            final(self).known() == old(self).known(),
            final(self).capacity() == old(self).capacity(),
            final(self).opens_lazily() == old(self).opens_lazily(),
            r.0 == old(self).next_handle(),
            final(self).next_handle() == old(self).next_handle() + 1,
            final(self).open() == opened(old(self).open(), old(self).capacity(), key@, r.0),
            old(self).open().len() == old(self).capacity() ==> {
                &&& r.1 == Some(old(self).open().last().1)
                &&& final(self).open() == seq![(key@, r.0)] + old(self).open().drop_last()
            },
            old(self).open().len() < old(self).capacity() ==> {
                &&& r.1 is None
                &&& final(self).open() == seq![(key@, r.0)] + old(self).open()
            },
    {
        self.put_open(key)
    }

    /// Registers the forest `key`, just created (or copied from another), as
    /// known and as the most recently used open forest; returns its new
    /// handle and the handle of the forest evicted to make room, if any.
    pub fn register_new(&mut self, key: Vec<u8>) -> (r: (u64, Option<u64>))
        requires
            old(self).wf(),
            !old(self).is_open(key@),
            old(self).next_handle() < u64::MAX,
        ensures
            final(self).wf(),
            final(self).known() == old(self).known().insert(key@),
            final(self).capacity() == old(self).capacity(),
            final(self).opens_lazily() == old(self).opens_lazily(),
            r.0 == old(self).next_handle(),
            final(self).next_handle() == old(self).next_handle() + 1,
            final(self).open() == opened(old(self).open(), old(self).capacity(), key@, r.0),
            old(self).open().len() == old(self).capacity() ==> {
                &&& r.1 == Some(old(self).open().last().1)
                &&& final(self).open() == seq![(key@, r.0)] + old(self).open().drop_last()
            },
            old(self).open().len() < old(self).capacity() ==> {
                &&& r.1 is None
                &&& final(self).open() == seq![(key@, r.0)] + old(self).open()
            },
    {
        let k2 = vstd::slice::slice_to_vec(key.as_slice());
        let _ = self.known_forests.insert(k2);
        proof {
            assert forall|i: int| 0 <= i < lru_entries(self.open_forests).len()
                implies self.known_forests.view().contains(#[trigger] lru_entries(self.open_forests)[i].0)
                    && lru_entries(self.open_forests)[i].1 < self.next_handle by {
                assert(old(self).known_forests.view().contains(lru_entries(self.open_forests)[i].0));
            }
        }
        self.put_open(key)
    }

    /// Forgets the forest `key`: it is neither open nor known any more.
    /// Returns the handle it had when it was open.
    pub fn remove_forest_storage(&mut self, key: &Vec<u8>) -> (r: Option<u64>)
        requires
            old(self).wf(),
        ensures
            final(self).wf(),
            final(self).known() == old(self).known().remove(key@),
            final(self).capacity() == old(self).capacity(),
            final(self).opens_lazily() == old(self).opens_lazily(),
            final(self).next_handle() == old(self).next_handle(),
            !old(self).is_open(key@) ==> r is None && final(self).open() == old(self).open(),
            old(self).is_open(key@) ==> {
                let i = entry_keys(old(self).open()).index_of(key@);
                &&& r == Some(old(self).open()[i].1)
                &&& final(self).open() == old(self).open().remove(i)
            },
    {
        let r = lru_pop(&mut self.open_forests, key);
        let _ = self.known_forests.remove(key.as_slice());
        proof {
            let o = lru_entries(old(self).open_forests);
            let n = lru_entries(self.open_forests);
            assert forall|i: int| 0 <= i < n.len()
                implies self.known_forests.view().contains(#[trigger] n[i].0) && n[i].1 < self.next_handle by {
                let ok = entry_keys(o);
                if ok.contains(key@) {
                    let j = ok.index_of(key@);
                    let oi = if i < j { i } else { i + 1 };
                    assert(n[i] == o[oi]);
                    assert(ok[oi] == o[oi].0);
                    assert(ok[j] == key@);
                    assert(oi != j);
                    assert(o[oi].0 != key@);
                } else {
                    assert(n[i] == o[i]);
                    assert(ok[i] == o[i].0);
                    assert(o[i].0 != key@);
                }
            }
        }
        r
    }
}

} // verus!
