//! The in-memory blob store: entries by hash, named tags, temp-tag
//! counts, and the ephemeral live set.
use vstd::prelude::*;

use crate::assoc::{assoc_map, lemma_assoc_map_dom, lemma_assoc_map_index, lemma_assoc_map_push,
    lemma_assoc_map_remove, lemma_assoc_map_update, unique_keys};
use crate::entry::{Entry, EntryView};
use crate::hash::{BlobFormat, HashAndFormat};
use crate::tag::Tag;
use crate::temp::{contains_hash, pin_map, unpin_map, TempCounterMap, TempTag};
use crate::StoreError;

verus! {

/// Whether the store holds a blob, and in which state.
#[derive(Clone, Copy, Debug, PartialEq, Eq, Structural)]
pub enum EntryStatus {
    /// Present, all bytes verified.
    Complete,
    /// Present, growing as verified batches arrive.
    Partial,
    /// Not in the store.
    NotFound,
}

/// A looked-up entry, classified by its state.
pub enum PossiblyPartialEntry {
    /// A complete entry.
    Complete(Entry),
    /// A partial entry.
    Partial(Entry),
    /// Nothing stored under the hash.
    NotFound,
}

/// The set of hash views in a sequence of hashes.
pub open spec fn hashes_set(s: Seq<crate::hash::Hash>) -> Set<Seq<u8>>
    decreases s.len(),
{
    if s.len() == 0 {
        Set::empty()
    } else {
        hashes_set(s.drop_last()).insert(s.last()@)
    }
}

/// A hash view is in the set exactly when some element carries it.
pub proof fn lemma_hashes_set(s: Seq<crate::hash::Hash>, k: Seq<u8>)
    ensures
        hashes_set(s).contains(k) <==> exists|i: int| 0 <= i < s.len() && s[i]@ == k,
    decreases s.len(),
{
    if s.len() > 0 {
        lemma_hashes_set(s.drop_last(), k);
        if s.last()@ != k && exists|i: int| 0 <= i < s.len() && s[i]@ == k {
            let i = choose|i: int| 0 <= i < s.len() && s[i]@ == k;
            assert(s.drop_last()[i]@ == k);
        }
    }
}

/// The in-memory blob store.
pub struct Store {
    entries: Vec<(crate::hash::Hash, Entry)>,
    tags: Vec<(Tag, HashAndFormat)>,
    temp: TempCounterMap,
    live: Vec<crate::hash::Hash>,
}

impl Store {
    /// Entries by hash view.
    pub closed spec fn entries_map(&self) -> Map<Seq<u8>, EntryView> {
        assoc_map(self.entries@)
    }

    /// Named tags by name view.
    pub closed spec fn tags_map(&self) -> Map<Seq<u8>, (Seq<u8>, BlobFormat)> {
        assoc_map(self.tags@)
    }

    /// Temp-tag counts by pinned pair.
    pub closed spec fn temp_map(&self) -> Map<(Seq<u8>, BlobFormat), u64> {
        self.temp@
    }

    /// The ephemeral live set.
    pub closed spec fn live_set(&self) -> Set<Seq<u8>> {
        hashes_set(self.live@)
    }

    /// A hash is live while it is in the live set or pinned by any
    /// temp tag.
    pub open spec fn spec_is_live(&self, h: Seq<u8>) -> bool {
        self.live_set().contains(h) || contains_hash(self.temp_map(), h)
    }

    /// Keys are distinct, and every entry is stored under its own
    /// hash.
    pub closed spec fn wf(&self) -> bool {
        &&& unique_keys(self.entries@)
        &&& unique_keys(self.tags@)
        &&& self.temp.wf()
        &&& forall|i: int|
            0 <= i < self.entries@.len() ==> (#[trigger] self.entries@[i].1)@.hash
                == self.entries@[i].0@
    }

    /// Every stored entry carries the hash it is stored under.
    pub proof fn lemma_entry_hash_matches(&self, h: Seq<u8>)
        requires
            self.wf(),
            self.entries_map().dom().contains(h),
        ensures
            self.entries_map()[h].hash == h,
    {
        lemma_assoc_map_dom(self.entries@, h);
        let i = choose|i: int| 0 <= i < self.entries@.len() && self.entries@[i].0@ == h;
        lemma_assoc_map_index(self.entries@, i);
    }

    /// A fresh, empty store.
    pub fn new() -> (r: Store)
        ensures
            r.wf(),
            r.entries_map() =~= Map::<Seq<u8>, EntryView>::empty(),
            r.tags_map() =~= Map::<Seq<u8>, (Seq<u8>, BlobFormat)>::empty(),
            r.temp_map() =~= Map::<(Seq<u8>, BlobFormat), u64>::empty(),
            r.live_set() =~= Set::<Seq<u8>>::empty(),
    {
        Store {
            entries: Vec::new(),
            tags: Vec::new(),
            temp: TempCounterMap::new(),
            live: Vec::new(),
        }
    }

    /// Index of the entry stored under a hash, if any.
    fn find_entry(&self, hash: &crate::hash::Hash) -> (r: Option<usize>)
        ensures
            match r {
                Some(i) => i < self.entries@.len() && self.entries@[i as int].0@ == hash@,
                None => forall|i: int|
                    0 <= i < self.entries@.len() ==> (#[trigger] self.entries@[i].0)@ != hash@,
            },
    {
        let mut i: usize = 0;
        while i < self.entries.len()
            invariant
                i <= self.entries@.len(),
                forall|j: int| 0 <= j < i ==> (#[trigger] self.entries@[j].0)@ != hash@,
            decreases self.entries@.len() - i,
        {
            if self.entries[i].0.eq_hash(hash) {
                return Some(i);
            }
            i += 1;
        }
        None
    }

    /// Look a blob up by hash; the returned entry is a snapshot.
    pub fn get(&self, hash: &crate::hash::Hash) -> (r: Option<Entry>)
        requires
            self.wf(),
        ensures
            match r {
                Some(e) => self.entries_map().dom().contains(hash@) && e@
                    == self.entries_map()[hash@],
                None => !self.entries_map().dom().contains(hash@),
            },
    {
        proof {
            lemma_assoc_map_dom(self.entries@, hash@);
        }
        match self.find_entry(hash) {
            Some(i) => {
                proof {
                    lemma_assoc_map_index(self.entries@, i as int);
                }
                Some(self.entries[i].1.clone())
            },
            None => None,
        }
    }

    /// Whether a blob is present, and in which state.
    pub fn entry_status(&self, hash: &crate::hash::Hash) -> (r: EntryStatus)
        requires
            self.wf(),
        ensures
            r == EntryStatus::NotFound <==> !self.entries_map().dom().contains(hash@),
            r == EntryStatus::Complete <==> self.entries_map().dom().contains(hash@)
                && self.entries_map()[hash@].complete,
            r == EntryStatus::Partial <==> self.entries_map().dom().contains(hash@)
                && !self.entries_map()[hash@].complete,
    {
        proof {
            lemma_assoc_map_dom(self.entries@, hash@);
        }
        match self.find_entry(hash) {
            Some(i) => {
                proof {
                    lemma_assoc_map_index(self.entries@, i as int);
                }
                if self.entries[i].1.is_complete() {
                    EntryStatus::Complete
                } else {
                    EntryStatus::Partial
                }
            },
            None => EntryStatus::NotFound,
        }
    }

    /// Look a blob up by hash, classified by its state.
    pub fn get_possibly_partial(&self, hash: &crate::hash::Hash) -> (r: PossiblyPartialEntry)
        requires
            self.wf(),
        ensures
            match r {
                PossiblyPartialEntry::Complete(e) => self.entries_map().dom().contains(hash@)
                    && e@ == self.entries_map()[hash@] && e@.complete,
                PossiblyPartialEntry::Partial(e) => self.entries_map().dom().contains(hash@)
                    && e@ == self.entries_map()[hash@] && !e@.complete,
                PossiblyPartialEntry::NotFound => !self.entries_map().dom().contains(hash@),
            },
    {
        proof {
            lemma_assoc_map_dom(self.entries@, hash@);
        }
        match self.find_entry(hash) {
            Some(i) => {
                proof {
                    lemma_assoc_map_index(self.entries@, i as int);
                }
                let e = self.entries[i].1.clone();
                if e.is_complete() {
                    PossiblyPartialEntry::Complete(e)
                } else {
                    PossiblyPartialEntry::Partial(e)
                }
            },
            None => PossiblyPartialEntry::NotFound,
        }
    }

    /// A fresh, unregistered partial entry bound to `hash`. The store
    /// itself is untouched: the entry is not put in the map, and the
    /// blob's status afterwards is whatever it was before. The size
    /// hint is accepted for interface parity and not needed by the
    /// in-memory storage.
    pub fn get_or_create_partial(&self, hash: crate::hash::Hash, _size: u64) -> (r: Entry)
        ensures
            r@.hash == hash@,
            !r@.complete,
            r@.storage.data == Seq::<u8>::empty(),
            r@.storage.outboard == Seq::<u8>::empty(),
            !r@.storage.size_known,
    {
        Entry::new_partial(hash)
    }

    /// Promote an entry: mark it complete and replace the stored one,
    /// but only when a complete entry for the same hash is already in
    /// the store. In every other case the call changes nothing: the
    /// in-memory store ingests complete blobs directly through the
    /// import calls, and this operation exists for interface parity
    /// with stores that build blobs in place.
    pub fn insert_complete(&mut self, entry: Entry)
        requires
            old(self).wf(),
        ensures
            final(self).wf(),
            final(self).entries_map() =~= insert_complete_map(old(self).entries_map(), entry@),
            final(self).tags_map() == old(self).tags_map(),
            final(self).temp_map() == old(self).temp_map(),
            final(self).live_set() == old(self).live_set(),
    {
        let hash = entry.hash();
        proof {
            lemma_assoc_map_dom(self.entries@, hash@);
        }
        match self.find_entry(&hash) {
            Some(i) => {
                proof {
                    lemma_assoc_map_index(self.entries@, i as int);
                }
                if self.entries[i].1.is_complete() {
                    let mut entry = entry;
                    entry.set_complete();
                    let ghost pre = self.entries@;
                    self.entries.set(i, (hash, entry));
                    proof {
                        lemma_assoc_map_update(pre, i as int, self.entries@[i as int]);
                    }
                }
            },
            None => {},
        }
    }
}

/// The longest tag name in a tag list.
spec fn max_tag_len(s: Seq<(Tag, HashAndFormat)>) -> nat
    decreases s.len(),
{
    if s.len() == 0 {
        0
    } else {
        let rest = max_tag_len(s.drop_last());
        if s.last().0@.len() > rest {
            s.last().0@.len()
        } else {
            rest
        }
    }
}

proof fn lemma_max_tag_len(s: Seq<(Tag, HashAndFormat)>, i: int)
    requires
        0 <= i < s.len(),
    ensures
        s[i].0@.len() <= max_tag_len(s),
    decreases s.len(),
{
    if i < s.len() - 1 {
        lemma_max_tag_len(s.drop_last(), i);
        assert(s.drop_last()[i] == s[i]);
    }
}

/// How far a candidate name can still grow before it is longer than
/// every stored tag name, and so surely fresh.
spec fn name_gap(s: Seq<(Tag, HashAndFormat)>, cand: Seq<u8>) -> nat {
    if cand.len() > max_tag_len(s) {
        0
    } else {
        (max_tag_len(s) + 1 - cand.len()) as nat
    }
}

impl Store {
    /// Index of the tag with a name, if any.
    fn find_tag(&self, name: &Tag) -> (r: Option<usize>)
        ensures
            match r {
                Some(i) => i < self.tags@.len() && self.tags@[i as int].0@ == name@,
                None => forall|i: int|
                    0 <= i < self.tags@.len() ==> (#[trigger] self.tags@[i].0)@ != name@,
            },
    {
        let mut i: usize = 0;
        while i < self.tags.len()
            invariant
                i <= self.tags@.len(),
                forall|j: int| 0 <= j < i ==> (#[trigger] self.tags@[j].0)@ != name@,
            decreases self.tags@.len() - i,
        {
            if self.tags[i].0.eq_tag(name) {
                return Some(i);
            }
            i += 1;
        }
        None
    }

    /// Bind a name to a blob, or unbind it: `Some` inserts or
    /// replaces the binding, `None` removes it.
    pub fn set_tag(&mut self, name: Tag, value: Option<HashAndFormat>)
        requires
            old(self).wf(),
        ensures
            final(self).wf(),
            value is Some ==> final(self).tags_map() =~= old(self).tags_map().insert(
                name@,
                value->0@,
            ),
            value is None ==> final(self).tags_map() =~= old(self).tags_map().remove(name@),
            final(self).entries_map() == old(self).entries_map(),
            final(self).temp_map() == old(self).temp_map(),
            final(self).live_set() == old(self).live_set(),
    {
        proof {
            lemma_assoc_map_dom(self.tags@, name@);
        }
        let found = self.find_tag(&name);
        match value {
            Some(v) => {
                match found {
                    Some(i) => {
                        let ghost pre = self.tags@;
                        self.tags.set(i, (name, v));
                        proof {
                            lemma_assoc_map_update(pre, i as int, self.tags@[i as int]);
                        }
                    },
                    None => {
                        let ghost pre = self.tags@;
                        self.tags.push((name, v));
                        proof {
                            lemma_assoc_map_push(pre, self.tags@.last());
                        }
                    },
                }
            },
            None => {
                match found {
                    Some(i) => {
                        let ghost pre = self.tags@;
                        self.tags.remove(i);
                        proof {
                            lemma_assoc_map_remove(pre, i as int);
                        }
                    },
                    None => {
                        proof {
                            assert(old(self).tags_map().remove(name@) =~= old(self).tags_map());
                        }
                    },
                }
            },
        }
    }

    /// Bind a blob under a fresh, generated name and return the name.
    /// The name is derived from the wall-clock time and extended
    /// deterministically until it is not yet in use.
    pub fn create_tag(&mut self, hash: HashAndFormat) -> (r: Tag)
        requires
            old(self).wf(),
        ensures
            final(self).wf(),
            !old(self).tags_map().dom().contains(r@),
            final(self).tags_map() =~= old(self).tags_map().insert(r@, hash@),
            final(self).entries_map() == old(self).entries_map(),
            final(self).temp_map() == old(self).temp_map(),
            final(self).live_set() == old(self).live_set(),
    {
        let mut cand = Tag::auto_base(crate::trusted::now_micros());
        loop
            invariant
                self.wf(),
                *self == *old(self),
            ensures
                forall|j: int| 0 <= j < self.tags@.len() ==> (#[trigger] self.tags@[j].0)@ != cand@,
            decreases name_gap(self.tags@, cand@),
        {
            match self.find_tag(&cand) {
                None => {
                    break;
                },
                Some(i) => {
                    proof {
                        lemma_max_tag_len(self.tags@, i as int);
                    }
                    cand = cand.extended();
                },
            }
        }
        proof {
            lemma_assoc_map_dom(self.tags@, cand@);
        }
        let r = cand.clone();
        let ghost pre = self.tags@;
        self.tags.push((cand, hash));
        proof {
            lemma_assoc_map_push(pre, self.tags@.last());
        }
        r
    }

    /// Pin a pair with a fresh temp tag: its count rises by one (it
    /// stays put only at the greatest representable count).
    pub fn temp_tag(&mut self, tag: HashAndFormat) -> (r: TempTag)
        requires
            old(self).wf(),
        ensures
            final(self).wf(),
            r@ == tag@,
            final(self).temp_map() =~= pin_map(old(self).temp_map(), tag@),
            final(self).entries_map() == old(self).entries_map(),
            final(self).tags_map() == old(self).tags_map(),
            final(self).live_set() == old(self).live_set(),
    {
        self.temp.inc(&tag);
        TempTag::make(tag)
    }

    /// Duplicate a temp tag: one more pin on the same pair.
    pub fn clone_temp_tag(&mut self, tag: &TempTag) -> (r: TempTag)
        requires
            old(self).wf(),
        ensures
            final(self).wf(),
            r@ == tag@,
            final(self).temp_map() =~= pin_map(old(self).temp_map(), tag@),
            final(self).entries_map() == old(self).entries_map(),
            final(self).tags_map() == old(self).tags_map(),
            final(self).live_set() == old(self).live_set(),
    {
        let inner = *tag.inner();
        self.temp.inc(&inner);
        TempTag::make(inner)
    }

    /// Return a temp tag: one pin fewer on its pair, and the pair
    /// leaves the map when its count reaches zero.
    pub fn drop_temp_tag(&mut self, tag: TempTag)
        requires
            old(self).wf(),
        ensures
            final(self).wf(),
            final(self).temp_map() =~= unpin_map(old(self).temp_map(), tag@),
            final(self).entries_map() == old(self).entries_map(),
            final(self).tags_map() == old(self).tags_map(),
            final(self).live_set() == old(self).live_set(),
    {
        let inner = *tag.inner();
        self.temp.dec(&inner);
    }

    /// Empty the live set.
    pub fn clear_live(&mut self)
        requires
            old(self).wf(),
        ensures
            final(self).wf(),
            final(self).live_set() =~= Set::<Seq<u8>>::empty(),
            final(self).entries_map() == old(self).entries_map(),
            final(self).tags_map() == old(self).tags_map(),
            final(self).temp_map() == old(self).temp_map(),
    {
        self.live = Vec::new();
    }

    /// Add hashes to the live set.
    pub fn add_live(&mut self, hashes: Vec<crate::hash::Hash>)
        requires
            old(self).wf(),
        ensures
            final(self).wf(),
            final(self).live_set() =~= old(self).live_set().union(hashes_set(hashes@)),
            final(self).entries_map() == old(self).entries_map(),
            final(self).tags_map() == old(self).tags_map(),
            final(self).temp_map() == old(self).temp_map(),
    {
        let mut i: usize = 0;
        while i < hashes.len()
            invariant
                self.wf(),
                i <= hashes@.len(),
                self.entries@ == old(self).entries@,
                self.tags@ == old(self).tags@,
                self.temp == old(self).temp,
                self.live_set() =~= old(self).live_set().union(
                    hashes_set(hashes@.subrange(0, i as int)),
                ),
            decreases hashes@.len() - i,
        {
            let ghost pre_live = self.live@;
            self.live.push(hashes[i]);
            proof {
                assert(hashes@.subrange(0, i + 1).drop_last() =~= hashes@.subrange(0, i as int));
                assert(hashes@.subrange(0, i + 1).last() == hashes@[i as int]);
                assert(self.live@.drop_last() =~= pre_live);
                assert(self.live@.last() == hashes@[i as int]);
                assert(hashes_set(self.live@) =~= hashes_set(pre_live).insert(hashes@[i as int]@));
                assert(self.live_set() =~= old(self).live_set().union(
                    hashes_set(hashes@.subrange(0, i + 1)),
                ));
            }
            i += 1;
        }
        proof {
            assert(hashes@.subrange(0, hashes@.len() as int) =~= hashes@);
        }
    }

    /// A hash is live while it is in the live set or pinned by any
    /// temp tag.
    pub fn is_live(&self, hash: &crate::hash::Hash) -> (r: bool)
        requires
            self.wf(),
        ensures
            r == self.spec_is_live(hash@),
    {
        let mut i: usize = 0;
        while i < self.live.len()
            invariant
                i <= self.live@.len(),
                forall|j: int| 0 <= j < i ==> (#[trigger] self.live@[j])@ != hash@,
            decreases self.live@.len() - i,
        {
            if self.live[i].eq_hash(hash) {
                proof {
                    lemma_hashes_set(self.live@, hash@);
                }
                return true;
            }
            i += 1;
        }
        proof {
            lemma_hashes_set(self.live@, hash@);
        }
        self.temp.contains(hash)
    }

    /// Remove blobs from the store, unconditionally; absent hashes
    /// are passed over in silence. Callers (typically the garbage
    /// collector) make sure none of them is live.
    pub fn delete(&mut self, hashes: &Vec<crate::hash::Hash>)
        requires
            old(self).wf(),
        ensures
            final(self).wf(),
            final(self).entries_map() =~= old(self).entries_map().remove_keys(hashes_set(hashes@)),
            final(self).tags_map() == old(self).tags_map(),
            final(self).temp_map() == old(self).temp_map(),
            final(self).live_set() == old(self).live_set(),
    {
        let mut i: usize = 0;
        while i < hashes.len()
            invariant
                self.wf(),
                i <= hashes@.len(),
                self.tags@ == old(self).tags@,
                self.temp == old(self).temp,
                self.live@ == old(self).live@,
                self.entries_map() =~= old(self).entries_map().remove_keys(
                    hashes_set(hashes@.subrange(0, i as int)),
                ),
            decreases hashes@.len() - i,
        {
            let ghost pre_set = hashes_set(hashes@.subrange(0, i as int));
            proof {
                assert(hashes@.subrange(0, i + 1).drop_last() =~= hashes@.subrange(0, i as int));
                assert(hashes@.subrange(0, i + 1).last() == hashes@[i as int]);
                lemma_assoc_map_dom(self.entries@, hashes@[i as int]@);
            }
            match self.find_entry(&hashes[i]) {
                Some(j) => {
                    let ghost pre = self.entries@;
                    self.entries.remove(j);
                    proof {
                        lemma_assoc_map_remove(pre, j as int);
                        assert forall|a: int| 0 <= a < self.entries@.len() implies (
                        #[trigger] self.entries@[a].1)@.hash == self.entries@[a].0@ by {
                            let a0 = if a < j { a } else { a + 1 };
                            assert(self.entries@[a] == pre[a0]);
                            assert(pre[a0].1@.hash == pre[a0].0@);
                        }
                        assert(self.entries_map() =~= old(self).entries_map().remove_keys(
                            hashes_set(hashes@.subrange(0, i + 1)),
                        ));
                    }
                },
                None => {
                    proof {
                        assert(!self.entries_map().dom().contains(hashes@[i as int]@));
                        assert(self.entries_map() =~= old(self).entries_map().remove_keys(
                            hashes_set(hashes@.subrange(0, i + 1)),
                        ));
                    }
                },
            }
            i += 1;
        }
        proof {
            assert(hashes@.subrange(0, hashes@.len() as int) =~= hashes@);
        }
    }
}

/// An event reported while a blob is imported. The import path
/// computes these in order; the surrounding program forwards them to
/// whoever asked for progress.
#[derive(Debug)]
pub enum ImportProgress {
    /// An entry was found; its name is reported.
    Found {
        /// Identifies the import operation.
        id: u64,
        /// Name of the source, as bytes.
        name: Vec<u8>,
    },
    /// The total size of the import is known.
    Size {
        /// Identifies the import operation.
        id: u64,
        /// Total size in bytes.
        size: u64,
    },
    /// Bytes up to `offset` have been copied in.
    CopyProgress {
        /// Identifies the import operation.
        id: u64,
        /// Bytes copied so far.
        offset: u64,
    },
    /// Outboard computation has reached `offset`.
    OutboardProgress {
        /// Identifies the import operation.
        id: u64,
        /// Bytes hashed so far.
        offset: u64,
    },
    /// The outboard is done and the blob's hash is known.
    OutboardDone {
        /// Identifies the import operation.
        id: u64,
        /// The blob's hash.
        hash: crate::hash::Hash,
    },
}

/// An export target must be an absolute path that names something
/// under the root: it starts with the path separator and has at
/// least one other byte past the leading separators.
pub open spec fn valid_export_target(t: Seq<u8>) -> bool {
    t.len() > 0 && t[0] == 47u8 && exists|j: int| 1 <= j < t.len() && t[j] != 47u8
}

/// Number of export windows a blob of `size` bytes yields.
pub open spec fn windows_count(size: u64) -> int {
    if size == 0 {
        0
    } else {
        (size - 1) / (crate::EXPORT_WINDOW_BYTES as int) + 1
    }
}

/// The `k`-th export window of a byte sequence.
pub open spec fn export_window_at(d: Seq<u8>, k: int) -> Seq<u8> {
    let off = k * (crate::EXPORT_WINDOW_BYTES as int);
    let w = crate::EXPORT_WINDOW_BYTES as int;
    if off >= d.len() {
        Seq::empty()
    } else if off + w <= d.len() {
        d.subrange(off, off + w)
    } else {
        d.subrange(off, d.len() as int)
    }
}

impl Store {
    /// The hashes of all complete blobs, a snapshot.
    pub fn blobs(&self) -> (r: Vec<crate::hash::Hash>)
        requires
            self.wf(),
        ensures
            forall|a: int|
                0 <= a < r@.len() ==> self.entries_map().dom().contains((#[trigger] r@[a])@)
                    && self.entries_map()[r@[a]@].complete,
            forall|k: Seq<u8>|
                self.entries_map().dom().contains(k) && self.entries_map()[k].complete
                    ==> exists|a: int| 0 <= a < r@.len() && (#[trigger] r@[a])@ == k,
    {
        let mut r: Vec<crate::hash::Hash> = Vec::new();
        let mut i: usize = 0;
        while i < self.entries.len()
            invariant
                self.wf(),
                i <= self.entries@.len(),
                forall|a: int|
                    0 <= a < r@.len() ==> self.entries_map().dom().contains((#[trigger] r@[a])@)
                        && self.entries_map()[r@[a]@].complete,
                forall|j: int|
                    0 <= j < i && (#[trigger] self.entries@[j].1)@.complete ==> exists|a: int|
                        0 <= a < r@.len() && r@[a]@ == self.entries@[j].0@,
            decreases self.entries@.len() - i,
        {
            if self.entries[i].1.is_complete() {
                let ghost prev = r@;
                r.push(self.entries[i].0);
                proof {
                    lemma_assoc_map_index(self.entries@, i as int);
                    assert(r@[r@.len() - 1]@ == self.entries@[i as int].0@);
                    assert forall|j: int|
                        0 <= j < i + 1 && (#[trigger] self.entries@[j].1)@.complete
                            implies exists|a: int|
                            0 <= a < r@.len() && r@[a]@ == self.entries@[j].0@ by {
                        if j < i {
                            let a = choose|a: int|
                                0 <= a < prev.len() && prev[a]@ == self.entries@[j].0@;
                            assert(r@[a]@ == self.entries@[j].0@);
                        } else {
                            assert(r@[r@.len() - 1]@ == self.entries@[j].0@);
                        }
                    }
                }
            }
            i += 1;
        }
        proof {
            assert forall|k: Seq<u8>|
                self.entries_map().dom().contains(k) && self.entries_map()[k].complete
                    implies exists|a: int| 0 <= a < r@.len() && (#[trigger] r@[a])@ == k by {
                lemma_assoc_map_dom(self.entries@, k);
                let j = choose|j: int| 0 <= j < self.entries@.len() && self.entries@[j].0@ == k;
                lemma_assoc_map_index(self.entries@, j);
                assert(self.entries@[j].1@.complete);
            }
        }
        r
    }

    /// The hashes of all partial blobs, a snapshot.
    pub fn partial_blobs(&self) -> (r: Vec<crate::hash::Hash>)
        requires
            self.wf(),
        ensures
            forall|a: int|
                0 <= a < r@.len() ==> self.entries_map().dom().contains((#[trigger] r@[a])@)
                    && !self.entries_map()[r@[a]@].complete,
            forall|k: Seq<u8>|
                self.entries_map().dom().contains(k) && !self.entries_map()[k].complete
                    ==> exists|a: int| 0 <= a < r@.len() && (#[trigger] r@[a])@ == k,
    {
        let mut r: Vec<crate::hash::Hash> = Vec::new();
        let mut i: usize = 0;
        while i < self.entries.len()
            invariant
                self.wf(),
                i <= self.entries@.len(),
                forall|a: int|
                    0 <= a < r@.len() ==> self.entries_map().dom().contains((#[trigger] r@[a])@)
                        && !self.entries_map()[r@[a]@].complete,
                forall|j: int|
                    0 <= j < i && !(#[trigger] self.entries@[j].1)@.complete ==> exists|a: int|
                        0 <= a < r@.len() && r@[a]@ == self.entries@[j].0@,
            decreases self.entries@.len() - i,
        {
            if !self.entries[i].1.is_complete() {
                let ghost prev = r@;
                r.push(self.entries[i].0);
                proof {
                    lemma_assoc_map_index(self.entries@, i as int);
                    assert(r@[r@.len() - 1]@ == self.entries@[i as int].0@);
                    assert forall|j: int|
                        0 <= j < i + 1 && !(#[trigger] self.entries@[j].1)@.complete
                            implies exists|a: int|
                            0 <= a < r@.len() && r@[a]@ == self.entries@[j].0@ by {
                        if j < i {
                            let a = choose|a: int|
                                0 <= a < prev.len() && prev[a]@ == self.entries@[j].0@;
                            assert(r@[a]@ == self.entries@[j].0@);
                        } else {
                            assert(r@[r@.len() - 1]@ == self.entries@[j].0@);
                        }
                    }
                }
            }
            i += 1;
        }
        proof {
            assert forall|k: Seq<u8>|
                self.entries_map().dom().contains(k) && !self.entries_map()[k].complete
                    implies exists|a: int| 0 <= a < r@.len() && (#[trigger] r@[a])@ == k by {
                lemma_assoc_map_dom(self.entries@, k);
                let j = choose|j: int| 0 <= j < self.entries@.len() && self.entries@[j].0@ == k;
                lemma_assoc_map_index(self.entries@, j);
                assert(!self.entries@[j].1@.complete);
            }
        }
        r
    }

    /// All named tags with their targets, a snapshot.
    pub fn tags(&self) -> (r: Vec<(Tag, HashAndFormat)>)
        requires
            self.wf(),
        ensures
            forall|a: int|
                0 <= a < r@.len() ==> self.tags_map().dom().contains((#[trigger] r@[a]).0@)
                    && self.tags_map()[r@[a].0@] == r@[a].1@,
            forall|k: Seq<u8>|
                self.tags_map().dom().contains(k) ==> exists|a: int|
                    0 <= a < r@.len() && (#[trigger] r@[a]).0@ == k,
    {
        let mut r: Vec<(Tag, HashAndFormat)> = Vec::new();
        let mut i: usize = 0;
        while i < self.tags.len()
            invariant
                self.wf(),
                i <= self.tags@.len(),
                r@.len() == i,
                forall|a: int|
                    0 <= a < i ==> (#[trigger] r@[a]).0@ == self.tags@[a].0@ && r@[a].1@
                        == self.tags@[a].1@,
            decreases self.tags@.len() - i,
        {
            r.push((self.tags[i].0.clone(), self.tags[i].1));
            i += 1;
        }
        proof {
            assert forall|a: int|
                0 <= a < r@.len() implies self.tags_map().dom().contains((#[trigger] r@[a]).0@)
                    && self.tags_map()[r@[a].0@] == r@[a].1@ by {
                lemma_assoc_map_index(self.tags@, a);
            }
            assert forall|k: Seq<u8>| self.tags_map().dom().contains(k) implies exists|a: int|
                0 <= a < r@.len() && (#[trigger] r@[a]).0@ == k by {
                lemma_assoc_map_dom(self.tags@, k);
                let j = choose|j: int| 0 <= j < self.tags@.len() && self.tags@[j].0@ == k;
                assert(r@[j].0@ == k);
            }
        }
        r
    }

    /// All pairs pinned by temp tags, a snapshot.
    pub fn temp_tags(&self) -> (r: Vec<HashAndFormat>)
        requires
            self.wf(),
        ensures
            forall|i: int| 0 <= i < r@.len() ==> self.temp_map().dom().contains(#[trigger] r@[i]@),
            forall|k: (Seq<u8>, BlobFormat)|
                self.temp_map().dom().contains(k) ==> exists|i: int|
                    0 <= i < r@.len() && #[trigger] r@[i]@ == k,
    {
        self.temp.keys()
    }

    /// Hash and store a complete blob, record the two outboard
    /// events, and pin the new blob with a fresh temp tag.
    pub fn import_bytes_sync(
        &mut self,
        id: u64,
        bytes: Vec<u8>,
        format: BlobFormat,
        events: &mut Vec<ImportProgress>,
    ) -> (r: TempTag)
        requires
            old(self).wf(),
        ensures
            final(self).wf(),
            r@ == (crate::trusted::tree_hash_of(bytes@), format),
            final(self).entries_map() =~= old(self).entries_map().insert(
                crate::trusted::tree_hash_of(bytes@),
                (EntryView {
                    hash: crate::trusted::tree_hash_of(bytes@),
                    complete: true,
                    storage: (crate::storage::StorageView {
                        data: bytes@,
                        outboard: crate::trusted::outboard_of(bytes@),
                        declared: bytes@.len() as u64,
                        size_known: true,
                    }),
                }),
            ),
            final(self).temp_map() =~= pin_map(old(self).temp_map(), r@),
            final(self).tags_map() == old(self).tags_map(),
            final(self).live_set() == old(self).live_set(),
            final(events)@.len() == old(events)@.len() + 2,
            final(events)@.subrange(0, old(events)@.len() as int) == old(events)@,
            final(events)@[old(events)@.len() as int] == (ImportProgress::OutboardProgress {
                id,
                offset: 0,
            }),
            final(events)@[old(events)@.len() as int + 1] matches ImportProgress::OutboardDone {
                id: done_id,
                hash: done_hash,
            } && done_id == id && done_hash@ == crate::trusted::tree_hash_of(bytes@),
    {
        events.push(ImportProgress::OutboardProgress { id, offset: 0 });
        let (storage, hash) = crate::storage::MutableMemStorage::complete(bytes);
        events.push(ImportProgress::OutboardDone { id, hash });
        let inner = HashAndFormat { hash, format };
        self.temp.inc(&inner);
        let tag = TempTag::make(inner);
        let entry = Entry::new_complete(hash, storage);
        proof {
            lemma_assoc_map_dom(self.entries@, hash@);
        }
        match self.find_entry(&hash) {
            Some(i) => {
                proof {
                    lemma_assoc_map_index(self.entries@, i as int);
                }
                let ghost pre = self.entries@;
                self.entries.set(i, (hash, entry));
                proof {
                    lemma_assoc_map_update(pre, i as int, self.entries@[i as int]);
                }
            },
            None => {
                let ghost pre = self.entries@;
                self.entries.push((hash, entry));
                proof {
                    lemma_assoc_map_push(pre, self.entries@.last());
                }
            },
        }
        tag
    }

    /// Hash and store a complete blob and pin it with a fresh temp
    /// tag.
    pub fn import_bytes(&mut self, bytes: Vec<u8>, format: BlobFormat) -> (r: TempTag)
        requires
            old(self).wf(),
        ensures
            final(self).wf(),
            r@ == (crate::trusted::tree_hash_of(bytes@), format),
            final(self).entries_map() =~= old(self).entries_map().insert(
                crate::trusted::tree_hash_of(bytes@),
                (EntryView {
                    hash: crate::trusted::tree_hash_of(bytes@),
                    complete: true,
                    storage: (crate::storage::StorageView {
                        data: bytes@,
                        outboard: crate::trusted::outboard_of(bytes@),
                        declared: bytes@.len() as u64,
                        size_known: true,
                    }),
                }),
            ),
            final(self).temp_map() =~= pin_map(old(self).temp_map(), r@),
            final(self).tags_map() == old(self).tags_map(),
            final(self).live_set() == old(self).live_set(),
    {
        let mut events: Vec<ImportProgress> = Vec::new();
        self.import_bytes_sync(0, bytes, format, &mut events)
    }

    /// Check an export target.
    fn check_export_target(target: &Vec<u8>) -> (r: bool)
        ensures
            r == valid_export_target(target@),
    {
        if target.len() == 0 || target[0] != 47 {
            return false;
        }
        let mut j: usize = 1;
        while j < target.len()
            invariant
                1 <= j <= target@.len(),
                target@[0] == 47u8,
                forall|a: int| 1 <= a < j ==> target@[a] == 47u8,
            decreases target@.len() - j,
        {
            if target[j] != 47 {
                proof {
                    assert(target@[j as int] != 47u8);
                    assert(valid_export_target(target@));
                }
                return true;
            }
            j += 1;
        }
        false
    }

    /// Plan an export: check the target, find the blob, and cut its
    /// bytes into windows of [`crate::EXPORT_WINDOW_BYTES`] for the
    /// surrounding program to write out, reporting progress between
    /// windows. A relative or parentless target is invalid input; an
    /// absent hash is not found.
    pub fn export_sync(&self, hash: &crate::hash::Hash, target: &Vec<u8>) -> (r: Result<
        Vec<Vec<u8>>,
        StoreError,
    >)
        requires
            self.wf(),
        ensures
            valid_export_target(target@) && self.entries_map().dom().contains(hash@) <==> r is Ok,
            match r {
                Ok(w) => {
                    let d = self.entries_map()[hash@].storage.data;
                    let size = crate::storage::view_current(self.entries_map()[hash@].storage);
                    &&& w@.len() == windows_count(size)
                    &&& forall|k: int| 0 <= k < w@.len() ==> (#[trigger] w@[k])@ == export_window_at(d, k)
                },
                Err(e) => {
                    &&& (e == StoreError::InvalidInput <==> !valid_export_target(target@))
                    &&& (e == StoreError::NotFound <==> valid_export_target(target@)
                        && !self.entries_map().dom().contains(hash@))
                },
            },
    {
        if !Self::check_export_target(target) {
            return Err(StoreError::InvalidInput);
        }
        proof {
            lemma_assoc_map_dom(self.entries@, hash@);
        }
        let i = match self.find_entry(hash) {
            Some(i) => i,
            None => {
                return Err(StoreError::NotFound);
            },
        };
        proof {
            lemma_assoc_map_index(self.entries@, i as int);
        }
        let entry = &self.entries[i].1;
        let size = entry.current_size();
        let count: u64 = if size == 0 {
            0
        } else {
            (size - 1) / crate::EXPORT_WINDOW_BYTES + 1
        };
        let mut w: Vec<Vec<u8>> = Vec::new();
        let mut k: u64 = 0;
        while k < count
            invariant
                self.wf(),
                0 <= i < self.entries@.len(),
                self.entries@[i as int].0@ == hash@,
                self.entries_map().dom().contains(hash@),
                self.entries_map()[hash@] == self.entries@[i as int].1@,
                entry == &self.entries@[i as int].1,
                size == crate::storage::view_current(self.entries_map()[hash@].storage),
                count == windows_count(size),
                k <= count,
                w@.len() == k,
                forall|a: int|
                    0 <= a < k ==> (#[trigger] w@[a])@ == export_window_at(
                        self.entries_map()[hash@].storage.data,
                        a,
                    ),
            decreases count - k,
        {
            proof {
                assert(k * crate::EXPORT_WINDOW_BYTES <= (count - 1)
                    * crate::EXPORT_WINDOW_BYTES) by (nonlinear_arith)
                    requires
                        k <= count - 1,
                        crate::EXPORT_WINDOW_BYTES > 0,
                ;
                assert((count - 1) * crate::EXPORT_WINDOW_BYTES <= size - 1) by (nonlinear_arith)
                    requires
                        count == (size - 1) / (crate::EXPORT_WINDOW_BYTES as int) + 1,
                        size > 0,
                        crate::EXPORT_WINDOW_BYTES > 0,
                ;
            }
            let offset: u64 = k * crate::EXPORT_WINDOW_BYTES;
            let window = entry.read_data_at(offset, crate::EXPORT_WINDOW_USIZE);
            w.push(window);
            proof {
                assert((#[trigger] w@[k as int])@ == export_window_at(
                    self.entries_map()[hash@].storage.data,
                    k as int,
                ));
            }
            k += 1;
        }
        Ok(w)
    }
}

/// The concatenation of a sequence of byte windows.
pub open spec fn concat_windows(w: Seq<Seq<u8>>) -> Seq<u8>
    decreases w.len(),
{
    if w.len() == 0 {
        Seq::empty()
    } else {
        concat_windows(w.drop_last()) + w.last()
    }
}

/// The first `c` export windows of a byte sequence concatenate to its
/// prefix of `c` whole windows.
proof fn lemma_export_prefix(d: Seq<u8>, c: int)
    requires
        0 <= c <= windows_count(d.len() as u64),
        d.len() <= u64::MAX,
    ensures
        concat_windows(Seq::new(c as nat, |k: int| export_window_at(d, k))) == (
        if c * (crate::EXPORT_WINDOW_BYTES as int) <= d.len() {
            d.take(c * (crate::EXPORT_WINDOW_BYTES as int))
        } else {
            d
        }),
    decreases c,
{
    let w = crate::EXPORT_WINDOW_BYTES as int;
    let ws = Seq::new(c as nat, |k: int| export_window_at(d, k));
    if c == 0 {
        assert(concat_windows(ws) =~= Seq::<u8>::empty());
        assert(d.take(0) =~= Seq::<u8>::empty());
    } else {
        lemma_export_prefix(d, c - 1);
        assert(ws.drop_last() =~= Seq::new((c - 1) as nat, |k: int| export_window_at(d, k)));
        assert(ws.last() == export_window_at(d, c - 1));
        assert((c - 1) * w == c * w - w) by (nonlinear_arith);
        assert((c - 1) * w < d.len());
        if c * w <= d.len() {
            assert(concat_windows(ws) =~= d.take(c * w));
        } else {
            assert(concat_windows(ws) =~= d);
        }
    }
}

/// Exporting a blob loses nothing: the windows that `export_sync`
/// yields for a blob whose declared size equals its data extent
/// concatenate to exactly the stored bytes.
pub proof fn lemma_export_windows_concat(d: Seq<u8>)
    requires
        d.len() <= u64::MAX,
    ensures
        concat_windows(
            Seq::new(windows_count(d.len() as u64) as nat, |k: int| export_window_at(d, k)),
        ) == d,
{
    let w = crate::EXPORT_WINDOW_BYTES as int;
    let c = windows_count(d.len() as u64);
    lemma_export_prefix(d, c);
    if d.len() == 0 {
        assert(concat_windows(Seq::new(0, |k: int| export_window_at(d, k))) =~= d);
    } else {
        assert(c == (d.len() - 1) as int / w + 1);
        if c * w <= d.len() {
            assert(((d.len() - 1) as int / w) * w + w <= d.len());
            assert(d.len() as int - 1 >= ((d.len() - 1) as int / w) * w + w - 1) by {
                assert((d.len() - 1) as int >= ((d.len() - 1) as int / w) * w);
            }
            assert(d.take(c * w) =~= d);
        }
    }
}

/// The hashes of complete and of partial blobs are disjoint, and
/// together they are exactly the hashes the store holds: what
/// `blobs()` and `partial_blobs()` return partitions the entries.
pub proof fn lemma_blobs_partition(
    s: &Store,
    bl: Seq<crate::hash::Hash>,
    pb: Seq<crate::hash::Hash>,
)
    requires
        forall|a: int|
            0 <= a < bl.len() ==> s.entries_map().dom().contains((#[trigger] bl[a])@)
                && s.entries_map()[bl[a]@].complete,
        forall|a: int|
            0 <= a < pb.len() ==> s.entries_map().dom().contains((#[trigger] pb[a])@)
                && !s.entries_map()[pb[a]@].complete,
        forall|k: Seq<u8>|
            s.entries_map().dom().contains(k) && s.entries_map()[k].complete ==> exists|a: int|
                0 <= a < bl.len() && (#[trigger] bl[a])@ == k,
        forall|k: Seq<u8>|
            s.entries_map().dom().contains(k) && !s.entries_map()[k].complete ==> exists|a: int|
                0 <= a < pb.len() && (#[trigger] pb[a])@ == k,
    ensures
        forall|a: int, b: int| 0 <= a < bl.len() && 0 <= b < pb.len() ==> bl[a]@ != pb[b]@,
        forall|k: Seq<u8>|
            s.entries_map().dom().contains(k) <==> ((exists|a: int|
                0 <= a < bl.len() && (#[trigger] bl[a])@ == k) || (exists|b: int|
                0 <= b < pb.len() && (#[trigger] pb[b])@ == k)),
{
}

/// What `insert_complete` does to the entries, as a map function:
/// only a hash already stored complete is replaced.
pub open spec fn insert_complete_map(m: Map<Seq<u8>, EntryView>, e: EntryView) -> Map<
    Seq<u8>,
    EntryView,
> {
    if m.dom().contains(e.hash) && m[e.hash].complete {
        m.insert(e.hash, EntryView { complete: true, ..e })
    } else {
        m
    }
}

/// Promoting the same entry twice changes nothing beyond the first
/// time: on a hash stored complete the operation is idempotent, and
/// on a new or partial hash it is a no-op either time.
pub proof fn lemma_insert_complete_idempotent(m: Map<Seq<u8>, EntryView>, e: EntryView)
    ensures
        insert_complete_map(insert_complete_map(m, e), e) =~= insert_complete_map(m, e),
{
}

} // verus!
