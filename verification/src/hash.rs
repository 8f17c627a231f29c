//! Blob identity: content hash, format tag, and their pairing.
use vstd::prelude::*;

verus! {

/// A 32-byte content digest: the root of the block-level BLAKE3 tree
/// over the blob's bytes. Equality is byte-wise.
#[derive(Clone, Copy, Debug)]
pub struct Hash {
    /// The raw digest bytes.
    pub bytes: [u8; 32],
}

impl View for Hash {
    type V = Seq<u8>;

    open spec fn view(&self) -> Seq<u8> {
        self.bytes@
    }
}

impl Hash {
    /// Wrap raw digest bytes.
    pub fn from_bytes(bytes: [u8; 32]) -> (r: Hash)
        ensures
            r@ == bytes@,
    {
        Hash { bytes }
    }

    /// The raw digest bytes.
    pub fn as_bytes(&self) -> (r: &[u8; 32])
        ensures
            r@ == self@,
    {
        &self.bytes
    }

    /// Byte-wise equality.
    pub fn eq_hash(&self, other: &Hash) -> (r: bool)
        ensures
            r == (self@ == other@),
    {
        let mut i: usize = 0;
        while i < 32
            invariant
                i <= 32,
                forall|j: int| 0 <= j < i ==> self.bytes@[j] == other.bytes@[j],
            decreases 32 - i,
        {
            if self.bytes[i] != other.bytes[i] {
                return false;
            }
            i += 1;
        }
        proof {
            assert(self.bytes@ =~= other.bytes@);
        }
        true
    }
}


/// How a blob's bytes are to be interpreted. Does not affect the hash.
#[derive(Clone, Copy, Debug, PartialEq, Eq, Structural)]
pub enum BlobFormat {
    /// An opaque sequence of bytes.
    Raw,
    /// A sequence of 32-byte hashes.
    HashSeq,
}

/// A content hash together with its format: the identity of a logical
/// blob, and the key under which temp tags and named tags pin it.
#[derive(Clone, Copy, Debug)]
pub struct HashAndFormat {
    /// The content hash.
    pub hash: Hash,
    /// The format tag.
    pub format: BlobFormat,
}

impl View for HashAndFormat {
    type V = (Seq<u8>, BlobFormat);

    open spec fn view(&self) -> (Seq<u8>, BlobFormat) {
        (self.hash@, self.format)
    }
}

impl HashAndFormat {
    /// Pair a hash with the raw format.
    pub fn raw(hash: Hash) -> (r: HashAndFormat)
        ensures
            r@ == (hash@, BlobFormat::Raw),
    {
        HashAndFormat { hash, format: BlobFormat::Raw }
    }

    /// Component-wise equality.
    pub fn eq_hf(&self, other: &HashAndFormat) -> (r: bool)
        ensures
            r == (self@ == other@),
    {
        self.hash.eq_hash(&other.hash) && self.format == other.format
    }
}

} // verus!
