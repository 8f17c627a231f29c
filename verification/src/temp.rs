//! Reference counting for temp tags: a count per pinned
//! hash-and-format pair, kept while the count is positive.
use vstd::prelude::*;

use crate::assoc::{assoc_map, lemma_assoc_map_dom, lemma_assoc_map_index, lemma_assoc_map_push,
    lemma_assoc_map_remove, lemma_assoc_map_update, unique_keys};
use crate::hash::{BlobFormat, HashAndFormat};

verus! {

/// Map from a pinned pair to the number of extant temp tags for it.
/// A pair is present exactly while its count is positive.
pub struct TempCounterMap {
    counts: Vec<(HashAndFormat, u64)>,
}

impl View for TempCounterMap {
    type V = Map<(Seq<u8>, BlobFormat), u64>;

    closed spec fn view(&self) -> Map<(Seq<u8>, BlobFormat), u64> {
        assoc_map(self.counts@)
    }
}

/// Some format pins the given hash in the map.
pub open spec fn contains_hash(m: Map<(Seq<u8>, BlobFormat), u64>, h: Seq<u8>) -> bool {
    exists|f: BlobFormat| m.dom().contains((h, f))
}

impl TempCounterMap {
    /// Keys are distinct and every kept count is positive.
    pub closed spec fn wf(&self) -> bool {
        &&& unique_keys(self.counts@)
        &&& forall|i: int| 0 <= i < self.counts@.len() ==> #[trigger] self.counts@[i].1 > 0
    }

    /// An empty counter map.
    pub fn new() -> (r: TempCounterMap)
        ensures
            r.wf(),
            r@ =~= Map::<(Seq<u8>, BlobFormat), u64>::empty(),
    {
        TempCounterMap { counts: Vec::new() }
    }

    /// Index of the entry for a key, if one exists.
    fn find(&self, k: &HashAndFormat) -> (r: Option<usize>)
        ensures
            match r {
                Some(i) => i < self.counts@.len() && self.counts@[i as int].0@ == k@,
                None => forall|i: int|
                    0 <= i < self.counts@.len() ==> #[trigger] self.counts@[i].0@ != k@,
            },
    {
        let mut i: usize = 0;
        while i < self.counts.len()
            invariant
                i <= self.counts@.len(),
                forall|j: int| 0 <= j < i ==> #[trigger] self.counts@[j].0@ != k@,
            decreases self.counts@.len() - i,
        {
            if self.counts[i].0.eq_hf(k) {
                return Some(i);
            }
            i += 1;
        }
        None
    }

    /// The count kept for a key, zero when absent.
    pub open spec fn count_of(&self, k: (Seq<u8>, BlobFormat)) -> u64 {
        if self@.dom().contains(k) {
            self@[k]
        } else {
            0
        }
    }

    /// Raise the count for a key, inserting it at one. At the
    /// greatest representable count the count is left unchanged.
    pub fn inc(&mut self, k: &HashAndFormat)
        requires
            old(self).wf(),
        ensures
            final(self).wf(),
            old(self).count_of(k@) < u64::MAX ==> final(self)@ =~= old(self)@.insert(
                k@,
                (old(self).count_of(k@) + 1) as u64,
            ),
            old(self).count_of(k@) == u64::MAX ==> final(self)@ =~= old(self)@,
    {
        proof {
            lemma_assoc_map_dom(self.counts@, k@);
        }
        match self.find(k) {
            Some(i) => {
                proof {
                    lemma_assoc_map_index(self.counts@, i as int);
                }
                let c = self.counts[i].1;
                if c < u64::MAX {
                    let key = self.counts[i].0;
                    self.counts.set(i, (key, c + 1));
                    proof {
                        lemma_assoc_map_update(old(self).counts@, i as int, (key, (c + 1) as u64));
                    }
                } else {
                    proof {
                        assert(old(self)@.insert(k@, u64::MAX) =~= old(self)@);
                    }
                }
            },
            None => {
                self.counts.push((*k, 1));
                proof {
                    lemma_assoc_map_push(old(self).counts@, (*k, 1u64));
                }
            },
        }
    }

    /// Lower the count for a key, removing it when it reaches zero.
    /// Absent keys are left alone.
    pub fn dec(&mut self, k: &HashAndFormat)
        requires
            old(self).wf(),
        ensures
            final(self).wf(),
            old(self).count_of(k@) == 0 ==> final(self)@ =~= old(self)@,
            old(self).count_of(k@) == 1 ==> final(self)@ =~= old(self)@.remove(k@),
            old(self).count_of(k@) > 1 ==> final(self)@ =~= old(self)@.insert(
                k@,
                (old(self).count_of(k@) - 1) as u64,
            ),
    {
        proof {
            lemma_assoc_map_dom(self.counts@, k@);
        }
        match self.find(k) {
            Some(i) => {
                proof {
                    lemma_assoc_map_index(self.counts@, i as int);
                }
                let c = self.counts[i].1;
                if c <= 1 {
                    self.counts.remove(i);
                    proof {
                        lemma_assoc_map_remove(old(self).counts@, i as int);
                    }
                } else {
                    let key = self.counts[i].0;
                    self.counts.set(i, (key, c - 1));
                    proof {
                        lemma_assoc_map_update(old(self).counts@, i as int, (key, (c - 1) as u64));
                    }
                }
            },
            None => {},
        }
    }

    /// True when any format pins the given hash.
    pub fn contains(&self, hash: &crate::hash::Hash) -> (r: bool)
        requires
            self.wf(),
        ensures
            r == contains_hash(self@, hash@),
    {
        let mut i: usize = 0;
        while i < self.counts.len()
            invariant
                self.wf(),
                i <= self.counts@.len(),
                forall|j: int| 0 <= j < i ==> #[trigger] self.counts@[j].0@.0 != hash@,
            decreases self.counts@.len() - i,
        {
            if self.counts[i].0.hash.eq_hash(hash) {
                proof {
                    lemma_assoc_map_index(self.counts@, i as int);
                }
                return true;
            }
            i += 1;
        }
        proof {
            if contains_hash(self@, hash@) {
                let f = choose|f: BlobFormat| self@.dom().contains((hash@, f));
                lemma_assoc_map_dom(self.counts@, (hash@, f));
                let idx = choose|idx: int|
                    0 <= idx < self.counts@.len() && self.counts@[idx].0@ == (hash@, f);
                assert(self.counts@[idx].0@.0 == hash@);
            }
        }
        false
    }

    /// All pinned pairs, in the order they were first pinned.
    pub fn keys(&self) -> (r: Vec<HashAndFormat>)
        requires
            self.wf(),
        ensures
            forall|i: int| 0 <= i < r@.len() ==> self@.dom().contains(#[trigger] r@[i]@),
            forall|k: (Seq<u8>, BlobFormat)|
                self@.dom().contains(k) ==> exists|i: int| 0 <= i < r@.len() && #[trigger] r@[i]@ == k,
            forall|i: int, j: int| 0 <= i < j < r@.len() ==> r@[i]@ != r@[j]@,
    {
        let mut r: Vec<HashAndFormat> = Vec::new();
        let mut i: usize = 0;
        while i < self.counts.len()
            invariant
                self.wf(),
                i <= self.counts@.len(),
                r@.len() == i,
                forall|j: int| 0 <= j < i ==> r@[j]@ == #[trigger] self.counts@[j].0@,
            decreases self.counts@.len() - i,
        {
            r.push(self.counts[i].0);
            i += 1;
        }
        proof {
            assert forall|j: int| 0 <= j < r@.len() implies self@.dom().contains(#[trigger] r@[j]@) by {
                lemma_assoc_map_index(self.counts@, j);
            }
            assert forall|k: (Seq<u8>, BlobFormat)| self@.dom().contains(k) implies exists|j: int|
                0 <= j < r@.len() && #[trigger] r@[j]@ == k by {
                lemma_assoc_map_dom(self.counts@, k);
                let j = choose|j: int| 0 <= j < self.counts@.len() && self.counts@[j].0@ == k;
                assert(r@[j]@ == k);
            }
            assert forall|i: int, j: int| 0 <= i < j < r@.len() implies r@[i]@ != r@[j]@ by {
                assert(r@[i]@ == self.counts@[i].0@);
                assert(r@[j]@ == self.counts@[j].0@);
            }
        }
        r
    }
}

/// A transient pin on a hash-and-format pair. The store raises the
/// pair's count when it hands one out or duplicates one, and lowers
/// it when one is returned; while the count is positive the pair is
/// live and safe from the garbage collector.
pub struct TempTag {
    inner: HashAndFormat,
}

impl View for TempTag {
    type V = (Seq<u8>, BlobFormat);

    closed spec fn view(&self) -> (Seq<u8>, BlobFormat) {
        self.inner@
    }
}

impl TempTag {
    /// Make a tag for a pair. Only the store should call this: the
    /// tag stands for one unit of the pair's count.
    pub(crate) fn make(inner: HashAndFormat) -> (r: TempTag)
        ensures
            r@ == inner@,
    {
        TempTag { inner }
    }

    /// The pinned pair.
    pub fn inner(&self) -> (r: &HashAndFormat)
        ensures
            r@ == self@,
    {
        &self.inner
    }

    /// The pinned hash.
    pub fn hash(&self) -> (r: &crate::hash::Hash)
        ensures
            r@ == self@.0,
    {
        &self.inner.hash
    }

    /// The pinned format.
    pub fn format(&self) -> (r: BlobFormat)
        ensures
            r == self@.1,
    {
        self.inner.format
    }
}

/// What the counts look like after one pin of `k`: the count rises by
/// one (at the greatest representable count it stays put).
pub open spec fn pin_map(m: Map<(Seq<u8>, BlobFormat), u64>, k: (Seq<u8>, BlobFormat)) -> Map<
    (Seq<u8>, BlobFormat),
    u64,
> {
    let c: u64 = if m.dom().contains(k) {
        m[k]
    } else {
        0
    };
    if c < u64::MAX {
        m.insert(k, (c + 1) as u64)
    } else {
        m
    }
}

/// What the counts look like after one pin is returned: the count
/// falls by one and the key leaves at zero; an absent key stays
/// absent.
pub open spec fn unpin_map(m: Map<(Seq<u8>, BlobFormat), u64>, k: (Seq<u8>, BlobFormat)) -> Map<
    (Seq<u8>, BlobFormat),
    u64,
> {
    let c: u64 = if m.dom().contains(k) {
        m[k]
    } else {
        0
    };
    if c == 0 {
        m
    } else if c == 1 {
        m.remove(k)
    } else {
        m.insert(k, (c - 1) as u64)
    }
}

/// A temp tag taken and then returned leaves the counts exactly as
/// they were: the count for each pair always equals the number of
/// outstanding tags for it.
pub proof fn lemma_pin_then_unpin(m: Map<(Seq<u8>, BlobFormat), u64>, k: (Seq<u8>, BlobFormat))
    requires
        !m.dom().contains(k) || 0 < m[k] < u64::MAX,
    ensures
        unpin_map(pin_map(m, k), k) =~= m,
{
    let c: u64 = if m.dom().contains(k) {
        m[k]
    } else {
        0
    };
    let m2 = pin_map(m, k);
    assert(m2[k] == c + 1);
    if c == 0 {
        assert(m2.remove(k) =~= m);
    } else {
        assert(m2.insert(k, c) =~= m);
    }
}

} // verus!
