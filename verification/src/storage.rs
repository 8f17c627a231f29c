//! Growable verified storage for one blob: a data buffer and the
//! outboard (the Merkle auxiliary data) that authenticates it.
use vstd::prelude::*;

use crate::batch::{apply_item, spec_apply_batch, tree_params, BatchItem};
use crate::trusted::{compute_outboard, outboard_of, tree_hash_of};
use crate::StoreError;

verus! {

/// Mathematical content of a [`MutableMemStorage`].
pub ghost struct StorageView {
    /// Bytes accepted so far; gaps between verified writes are
    /// zero-filled.
    pub data: Seq<u8>,
    /// Outboard bytes: 64-byte child-hash pairs at their pre-order
    /// offsets; pairs not yet received are zero-filled.
    pub outboard: Seq<u8>,
    /// The asserted total size of the blob.
    pub declared: u64,
    /// Whether any write or constructor has declared the total size.
    pub size_known: bool,
}

/// Storage for one blob: data bytes and outboard bytes, both growable,
/// plus the declared total size once it is known. Writes are accepted
/// only through the verified-batch path; a complete storage is built
/// in one pass from the full bytes.
pub struct MutableMemStorage {
    data: Vec<u8>,
    outboard: Vec<u8>,
    declared: u64,
    size_known: bool,
}

impl View for MutableMemStorage {
    type V = StorageView;

    closed spec fn view(&self) -> StorageView {
        StorageView {
            data: self.data@,
            outboard: self.outboard@,
            declared: self.declared,
            size_known: self.size_known,
        }
    }
}

/// Bytes covered and verified so far, of a storage view.
pub open spec fn view_current(sv: StorageView) -> u64 {
    if sv.size_known {
        sv.declared
    } else {
        sv.data.len() as u64
    }
}

/// The window `[offset, offset + len)` of a byte sequence, clipped to
/// its end; empty when the offset is past the end.
pub open spec fn read_window(d: Seq<u8>, offset: u64, len: usize) -> Seq<u8> {
    if offset >= d.len() {
        Seq::empty()
    } else if offset + len <= d.len() {
        d.subrange(offset as int, offset + len)
    } else {
        d.subrange(offset as int, d.len() as int)
    }
}

/// Copy `src[start..end]`.
pub(crate) fn copy_range(src: &Vec<u8>, start: usize, end: usize) -> (r: Vec<u8>)
    requires
        start <= end <= src@.len(),
    ensures
        r@ == src@.subrange(start as int, end as int),
{
    let mut r: Vec<u8> = Vec::new();
    let mut i: usize = start;
    while i < end
        invariant
            start <= i <= end <= src@.len(),
            r@ == src@.subrange(start as int, i as int),
        decreases end - i,
    {
        r.push(src[i]);
        proof {
            assert(r@ =~= src@.subrange(start as int, i + 1));
        }
        i += 1;
    }
    r
}

impl MutableMemStorage {
    /// Bytes covered and verified so far: the declared total size once
    /// known, else the extent of the data received.
    pub open spec fn current(&self) -> u64 {
        if self@.size_known {
            self@.declared
        } else {
            self@.data.len() as u64
        }
    }

    /// An empty storage for a partial blob.
    pub fn new_partial() -> (r: MutableMemStorage)
        ensures
            r@.data == Seq::<u8>::empty(),
            r@.outboard == Seq::<u8>::empty(),
            !r@.size_known,
    {
        MutableMemStorage { data: Vec::new(), outboard: Vec::new(), declared: 0, size_known: false }
    }

    /// Hash the full bytes of a blob in one pass: the storage holds
    /// the bytes and their whole outboard, and the returned hash is
    /// the tree root.
    pub fn complete(bytes: Vec<u8>) -> (r: (MutableMemStorage, crate::hash::Hash))
        ensures
            r.0@.data == bytes@,
            r.0@.outboard == outboard_of(bytes@),
            r.0@.declared == bytes@.len(),
            r.0@.size_known,
            r.0.current() == bytes@.len(),
            r.1@ == tree_hash_of(bytes@),
    {
        let (outboard, hash) = compute_outboard(&bytes);
        let declared = bytes.len() as u64;
        (MutableMemStorage { data: bytes, outboard, declared, size_known: true }, hash)
    }

    /// See [`Self::current`].
    pub fn current_size(&self) -> (r: u64)
        ensures
            r == self.current(),
    {
        if self.size_known {
            self.declared
        } else {
            self.data.len() as u64
        }
    }

    /// Extent of the data buffer. Monotone over the storage's life.
    pub fn data_len(&self) -> (r: u64)
        ensures
            r == self@.data.len(),
    {
        self.data.len() as u64
    }

    /// Extent of the outboard buffer. Monotone over the storage's life.
    pub fn outboard_len(&self) -> (r: u64)
        ensures
            r == self@.outboard.len(),
    {
        self.outboard.len() as u64
    }

    /// The data in `[offset, offset + len)`, clipped to the bytes
    /// received; may return fewer than `len` bytes.
    pub fn read_data_at(&self, offset: u64, len: usize) -> (r: Vec<u8>)
        ensures
            r@ == read_window(self@.data, offset, len),
    {
        copy_window(&self.data, offset, len)
    }

    /// The outboard bytes in `[offset, offset + len)`, clipped.
    pub fn read_outboard_at(&self, offset: u64, len: usize) -> (r: Vec<u8>)
        ensures
            r@ == read_window(self@.outboard, offset, len),
    {
        copy_window(&self.outboard, offset, len)
    }
}

impl MutableMemStorage {
    /// A copy of this storage with the same content.
    pub fn duplicate(&self) -> (r: MutableMemStorage)
        ensures
            r@ == self@,
    {
        MutableMemStorage {
            data: crate::tag::clone_bytes(&self.data),
            outboard: crate::tag::clone_bytes(&self.outboard),
            declared: self.declared,
            size_known: self.size_known,
        }
    }

    /// A copy of the data bytes.
    pub fn data_snapshot(&self) -> (r: Vec<u8>)
        ensures
            r@ == self@.data,
    {
        crate::tag::clone_bytes(&self.data)
    }

    /// A copy of the outboard bytes.
    pub fn outboard_snapshot(&self) -> (r: Vec<u8>)
        ensures
            r@ == self@.outboard,
    {
        crate::tag::clone_bytes(&self.outboard)
    }
}

impl MutableMemStorage {
    /// Accept an authenticated batch for the blob with root hash
    /// `root` and asserted total size `size`. Every item is verified
    /// against the root by recomputing its hash and walking the
    /// outboard up to a known-good ancestor; only when the whole
    /// batch verifies and the declared size agrees with earlier
    /// declarations are the buffers changed, leaf bytes at their
    /// offsets (gaps zero-filled) and parent pairs at their pre-order
    /// slots. On any failure the storage is left unchanged.
    #[verifier::rlimit(50)]
    pub fn write_batch(
        &mut self,
        root: &crate::hash::Hash,
        size: u64,
        batch: &Vec<BatchItem>,
    ) -> (r: Result<(), StoreError>)
        ensures
            ({
                let applied = spec_apply_batch(
                    root@,
                    size,
                    old(self)@.outboard,
                    old(self)@.data,
                    batch@,
                );
                match r {
                    Ok(()) => {
                        &&& !old(self)@.size_known || old(self)@.declared == size
                        &&& applied matches Some(st) && final(self)@.outboard == st.0
                            && final(self)@.data == st.1
                        &&& final(self)@.declared == size
                        &&& final(self)@.size_known
                    },
                    Err(e) => {
                        &&& e == StoreError::Verification
                        &&& final(self)@ == old(self)@
                        &&& (old(self)@.size_known && old(self)@.declared != size) || applied
                            is None
                    },
                }
            }),
    {
        if self.size_known && self.declared != size {
            return Err(StoreError::Verification);
        }
        let params = match tree_params(size) {
            Some(p) => p,
            None => {
                if batch.len() == 0 {
                    self.declared = size;
                    self.size_known = true;
                    return Ok(());
                }
                return Err(StoreError::Verification);
            },
        };
        let mut ob = self.outboard_snapshot();
        let mut d = self.data_snapshot();
        let mut i: usize = 0;
        proof {
            assert(batch@.subrange(0, batch@.len() as int) =~= batch@);
        }
        while i < batch.len()
            invariant
                i <= batch@.len(),
                *self == *old(self),
                params.blocks == crate::batch::spec_blocks(size),
                params.npairs == crate::batch::spec_npairs(size),
                params.filled == crate::batch::spec_filled(size),
                Some(params.root) == crate::batch::spec_rootnode(size),
                spec_apply_batch(root@, size, old(self)@.outboard, old(self)@.data, batch@)
                    == spec_apply_batch(
                    root@,
                    size,
                    ob@,
                    d@,
                    batch@.subrange(i as int, batch@.len() as int),
                ),
            decreases batch@.len() - i,
        {
            let ghost rest = batch@.subrange(i as int, batch@.len() as int);
            proof {
                assert(rest[0] == batch@[i as int]);
                assert(rest.drop_first() =~= batch@.subrange(i + 1, batch@.len() as int));
            }
            if !apply_item(root, size, &params, &mut ob, &mut d, &batch[i]) {
                return Err(StoreError::Verification);
            }
            i += 1;
        }
        proof {
            assert(batch@.subrange(batch@.len() as int, batch@.len() as int) =~= Seq::<
                BatchItem,
            >::empty());
        }
        self.outboard = ob;
        self.data = d;
        self.declared = size;
        self.size_known = true;
        Ok(())
    }
}

/// Reading a blob's full window yields exactly its bytes: together
/// with the import contract, a blob imported from `bytes` reads back
/// as `bytes`.
pub proof fn lemma_read_full_window(d: Seq<u8>, len: usize)
    requires
        d.len() == len,
    ensures
        read_window(d, 0, len) == d,
{
    assert(read_window(d, 0, len) =~= d);
}

/// Read a clipped window out of a byte vector.
pub(crate) fn copy_window(v: &Vec<u8>, offset: u64, len: usize) -> (r: Vec<u8>)
    ensures
        r@ == read_window(v@, offset, len),
{
    if offset >= v.len() as u64 {
        Vec::new()
    } else {
        let start = offset as usize;
        let end = if len <= v.len() - start {
            start + len
        } else {
            v.len()
        };
        copy_range(v, start, end)
    }
}

} // verus!
