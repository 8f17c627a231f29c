//! One blob's state: its hash, its storage, and whether it is
//! complete.
use vstd::prelude::*;

use crate::storage::{read_window, MutableMemStorage, StorageView};

verus! {

/// Mathematical content of an [`Entry`].
pub ghost struct EntryView {
    /// The blob's hash.
    pub hash: Seq<u8>,
    /// Whether all bytes of the blob are present and verified.
    pub complete: bool,
    /// The blob's storage.
    pub storage: StorageView,
}

/// One blob: a hash, the storage holding its verified bytes and
/// outboard, and a completeness flag.
pub struct Entry {
    hash: crate::hash::Hash,
    storage: MutableMemStorage,
    complete: bool,
}

impl View for Entry {
    type V = EntryView;

    closed spec fn view(&self) -> EntryView {
        EntryView { hash: self.hash@, complete: self.complete, storage: self.storage@ }
    }
}

/// A blob size, marked by whether the full content has been verified.
#[derive(Clone, Copy, Debug, PartialEq, Eq, Structural)]
pub enum BaoBlobSize {
    /// The size of a complete, fully verified blob.
    Verified(u64),
    /// The declared size of a partial blob.
    Unverified(u64),
}

impl BaoBlobSize {
    /// Pair a size with the completeness that qualifies it.
    pub fn new(size: u64, complete: bool) -> (r: BaoBlobSize)
        ensures
            complete ==> r == BaoBlobSize::Verified(size),
            !complete ==> r == BaoBlobSize::Unverified(size),
    {
        if complete {
            BaoBlobSize::Verified(size)
        } else {
            BaoBlobSize::Unverified(size)
        }
    }

    /// The size, without its qualification.
    pub fn value(&self) -> (r: u64)
        ensures
            *self == BaoBlobSize::Verified(r) || *self == BaoBlobSize::Unverified(r),
    {
        match self {
            BaoBlobSize::Verified(s) => *s,
            BaoBlobSize::Unverified(s) => *s,
        }
    }
}

/// The verified-contiguous chunk span of a blob: chunks
/// `[start, end)` may be read.
#[derive(Clone, Copy, Debug, PartialEq, Eq, Structural)]
pub struct ChunkRangeSpan {
    /// First readable chunk.
    pub start: u64,
    /// First chunk past the readable span.
    pub end: u64,
}

/// A snapshot reader over a blob's verified data.
pub struct DataReader {
    data: Vec<u8>,
}

impl View for DataReader {
    type V = Seq<u8>;

    closed spec fn view(&self) -> Seq<u8> {
        self.data@
    }
}

impl DataReader {
    /// The bytes in `[offset, offset + len)`, clipped to the snapshot.
    pub fn read_at(&self, offset: u64, len: usize) -> (r: Vec<u8>)
        ensures
            r@ == read_window(self@, offset, len),
    {
        crate::storage::copy_window(&self.data, offset, len)
    }

    /// Length of the snapshot.
    pub fn len(&self) -> (r: u64)
        ensures
            r == self@.len(),
    {
        self.data.len() as u64
    }
}

/// A snapshot reader over a blob's outboard bytes.
pub struct OutboardReader {
    data: Vec<u8>,
}

impl View for OutboardReader {
    type V = Seq<u8>;

    closed spec fn view(&self) -> Seq<u8> {
        self.data@
    }
}

impl OutboardReader {
    /// The outboard bytes in `[offset, offset + len)`, clipped.
    pub fn read_at(&self, offset: u64, len: usize) -> (r: Vec<u8>)
        ensures
            r@ == read_window(self@, offset, len),
    {
        crate::storage::copy_window(&self.data, offset, len)
    }

    /// Length of the snapshot.
    pub fn len(&self) -> (r: u64)
        ensures
            r == self@.len(),
    {
        self.data.len() as u64
    }
}

/// The Merkle auxiliary data of one blob, as network peers consume
/// it: the root hash, the tree's total size, and the pre-order
/// outboard bytes.
pub struct Outboard {
    /// The root hash.
    pub root: crate::hash::Hash,
    /// Total size of the tree, in bytes.
    pub tree_size: u64,
    /// A snapshot of the outboard bytes.
    pub data: Vec<u8>,
}

impl Clone for Entry {
    fn clone(&self) -> (r: Entry)
        ensures
            r@ == self@,
    {
        Entry {
            hash: self.hash,
            storage: self.storage.duplicate(),
            complete: self.complete,
        }
    }
}

impl Entry {
    /// An entry over freshly hashed, complete storage.
    pub(crate) fn new_complete(
        hash: crate::hash::Hash,
        storage: MutableMemStorage,
    ) -> (r: Entry)
        ensures
            r@ == (EntryView { hash: hash@, complete: true, storage: storage@ }),
    {
        Entry { hash, storage, complete: true }
    }

    /// A fresh partial entry with empty storage bound to `hash`.
    pub(crate) fn new_partial(hash: crate::hash::Hash) -> (r: Entry)
        ensures
            r@.hash == hash@,
            !r@.complete,
            r@.storage.data == Seq::<u8>::empty(),
            r@.storage.outboard == Seq::<u8>::empty(),
            !r@.storage.size_known,
    {
        Entry { hash, storage: MutableMemStorage::new_partial(), complete: false }
    }

    /// Mark the entry complete.
    pub(crate) fn set_complete(&mut self)
        ensures
            final(self)@ == (EntryView { complete: true, ..old(self)@ }),
    {
        self.complete = true;
    }

    /// The blob's hash.
    pub fn hash(&self) -> (r: crate::hash::Hash)
        ensures
            r@ == self@.hash,
    {
        self.hash
    }

    /// Bytes covered and verified so far (see
    /// [`MutableMemStorage::current`]).
    pub fn current_size(&self) -> (r: u64)
        ensures
            r == self.storage_current(),
    {
        self.storage.current_size()
    }

    /// See [`MutableMemStorage::current`].
    pub open spec fn storage_current(&self) -> u64 {
        crate::storage::view_current(self@.storage)
    }

    /// The blob's size, qualified by completeness.
    pub fn size(&self) -> (r: BaoBlobSize)
        ensures
            self@.complete ==> r == BaoBlobSize::Verified(self.storage_current()),
            !self@.complete ==> r == BaoBlobSize::Unverified(self.storage_current()),
    {
        BaoBlobSize::new(self.storage.current_size(), self.complete)
    }

    /// Whether all bytes of the blob are present and verified.
    pub fn is_complete(&self) -> (r: bool)
        ensures
            r == self@.complete,
    {
        self.complete
    }

    /// The chunks that may be read: the verified prefix
    /// `[0, current_size())`, as chunk indices (rounding the end up).
    pub fn available_ranges(&self) -> (r: ChunkRangeSpan)
        ensures
            r.start == 0,
            self.storage_current() % crate::CHUNK_BYTES == 0 ==> r.end == self.storage_current()
                / crate::CHUNK_BYTES,
            self.storage_current() % crate::CHUNK_BYTES != 0 ==> r.end == self.storage_current()
                / crate::CHUNK_BYTES + 1,
    {
        let cur = self.storage.current_size();
        let end = cur / crate::CHUNK_BYTES + if cur % crate::CHUNK_BYTES != 0 { 1 } else { 0 };
        ChunkRangeSpan { start: 0, end }
    }

    /// The blob's outboard: root, tree size, and a snapshot of the
    /// pre-order pair bytes.
    pub fn outboard(&self) -> (r: Outboard)
        ensures
            r.root@ == self@.hash,
            r.tree_size == self.storage_current(),
            r.data@ == self@.storage.outboard,
    {
        Outboard {
            root: self.hash,
            tree_size: self.storage.current_size(),
            data: self.storage.outboard_snapshot(),
        }
    }

    /// A snapshot reader over the verified data.
    pub fn data_reader(&self) -> (r: DataReader)
        ensures
            r@ == self@.storage.data,
    {
        DataReader { data: self.storage.data_snapshot() }
    }

    /// A snapshot reader over the outboard bytes.
    pub fn outboard_reader(&self) -> (r: OutboardReader)
        ensures
            r@ == self@.storage.outboard,
    {
        OutboardReader { data: self.storage.outboard_snapshot() }
    }

    /// The data in `[offset, offset + len)`, clipped to the bytes
    /// received.
    pub fn read_data_at(&self, offset: u64, len: usize) -> (r: Vec<u8>)
        ensures
            r@ == read_window(self@.storage.data, offset, len),
    {
        self.storage.read_data_at(offset, len)
    }
    /// Accept an authenticated batch for this blob: each item is
    /// verified against the entry's hash before anything changes (see
    /// [`MutableMemStorage::write_batch`]).
    pub fn write_batch(&mut self, size: u64, batch: &Vec<crate::batch::BatchItem>) -> (r: Result<
        (),
        crate::StoreError,
    >)
        ensures
            final(self)@.hash == old(self)@.hash,
            final(self)@.complete == old(self)@.complete,
            ({
                let applied = crate::batch::spec_apply_batch(
                    old(self)@.hash,
                    size,
                    old(self)@.storage.outboard,
                    old(self)@.storage.data,
                    batch@,
                );
                match r {
                    Ok(()) => {
                        &&& !old(self)@.storage.size_known || old(self)@.storage.declared == size
                        &&& applied matches Some(st) && final(self)@.storage.outboard == st.0
                            && final(self)@.storage.data == st.1
                        &&& final(self)@.storage.declared == size
                        &&& final(self)@.storage.size_known
                    },
                    Err(e) => {
                        &&& e == crate::StoreError::Verification
                        &&& final(self)@ == old(self)@
                        &&& (old(self)@.storage.size_known && old(self)@.storage.declared != size)
                            || applied is None
                    },
                }
            }),
    {
        let h = self.hash;
        self.storage.write_batch(&h, size, batch)
    }
}

} // verus!
