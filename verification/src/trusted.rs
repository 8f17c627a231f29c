//! The boundary to the outside hashing crates. Every function here is
//! trusted: its contract names what the outside call returns, and the
//! rest of the library is verified against those names.
use blake3::hazmat::HasherExt;
use vstd::prelude::*;

verus! {

/// The root of the block-level BLAKE3 tree (chunk log 4) over the
/// bytes: the identity of a blob. A function of the bytes alone.
pub uninterp spec fn tree_hash_of(data: Seq<u8>) -> Seq<u8>;

/// The pre-order outboard bytes for the same tree: one 64-byte pair
/// of child hashes per parent node, in pre-order. A function of the
/// bytes alone.
pub uninterp spec fn outboard_of(data: Seq<u8>) -> Seq<u8>;

/// The plain BLAKE3 hash of the bytes: the root hash of a blob that
/// fits in a single block.
pub uninterp spec fn blake3_hash_of(data: Seq<u8>) -> Seq<u8>;

/// The BLAKE3 chaining value of a subtree holding `data`, starting
/// `offset` bytes into the whole input.
pub uninterp spec fn subtree_cv_of(offset: u64, data: Seq<u8>) -> Seq<u8>;

/// The root hash obtained by merging the chaining values of the two
/// subtrees directly under the root.
pub uninterp spec fn parent_cv_root(l: Seq<u8>, r: Seq<u8>) -> Seq<u8>;

/// The chaining value obtained by merging the chaining values of two
/// sibling subtrees below the root.
pub uninterp spec fn parent_cv_inner(l: Seq<u8>, r: Seq<u8>) -> Seq<u8>;

/// Number of blocks the tree over `size` bytes has; an empty blob
/// still occupies one block.
pub open spec fn blocks_of(size: u64) -> nat {
    if size == 0 {
        1
    } else {
        (((size - 1) / (crate::BLOCK_BYTES as int)) + 1) as nat
    }
}

/// Relies on bao_tree::io::outboard::PreOrderMemOutboard::create: hashes
/// the bytes under the block-level BLAKE3 tree with chunk log 4 and
/// returns the pre-order outboard bytes and the root hash. The outboard
/// holds one 64-byte hash pair per parent node (tree.outboard_size()).
#[verifier::external_body]
pub(crate) fn compute_outboard(data: &Vec<u8>) -> (r: (Vec<u8>, crate::hash::Hash))
    ensures
        r.0@ == outboard_of(data@),
        r.1@ == tree_hash_of(data@),
        r.0@.len() == 64 * (blocks_of(data@.len() as u64) - 1),
{
    let ob = bao_tree::io::outboard::PreOrderMemOutboard::create(
        data.as_slice(),
        bao_tree::BlockSize::from_chunk_log(4),
    );
    (ob.data, crate::hash::Hash::from_bytes(*ob.root.as_bytes()))
}

/// Relies on blake3::hash: the 32-byte BLAKE3 hash of the bytes,
/// a function of the bytes alone.
#[verifier::external_body]
pub(crate) fn blake3_hash(data: &[u8]) -> (r: crate::hash::Hash)
    ensures
        r@ == blake3_hash_of(data@),
{
    crate::hash::Hash::from_bytes(*blake3::hash(data).as_bytes())
}

/// Relies on blake3::hazmat::HasherExt (set_input_offset, then update
/// and finalize_non_root): the chaining value of the subtree that
/// starts `offset` bytes into the whole input and holds `data`, a
/// function of the arguments alone. The offset must be a chunk
/// boundary and the subtree must not be empty nor reach past a block:
/// blake3 panics outside those bounds.
#[verifier::external_body]
pub(crate) fn subtree_cv(offset: u64, data: &[u8]) -> (r: crate::hash::Hash)
    requires
        offset % crate::BLOCK_BYTES == 0,
        0 < data@.len() <= crate::BLOCK_BYTES,
    ensures
        r@ == subtree_cv_of(offset, data@),
{
    let mut hasher = blake3::Hasher::new();
    hasher.set_input_offset(offset);
    hasher.update(data);
    crate::hash::Hash::from_bytes(hasher.finalize_non_root())
}

/// Relies on blake3::hazmat::merge_subtrees_root: the root hash from
/// the chaining values of the two subtrees under the root, a function
/// of the two values alone.
#[verifier::external_body]
pub(crate) fn merge_root(left: &crate::hash::Hash, right: &crate::hash::Hash) -> (r: crate::hash::Hash)
    ensures
        r@ == parent_cv_root(left@, right@),
{
    crate::hash::Hash::from_bytes(
        *blake3::hazmat::merge_subtrees_root(
            left.as_bytes(),
            right.as_bytes(),
            blake3::hazmat::Mode::Hash,
        ).as_bytes(),
    )
}

/// Relies on blake3::hazmat::merge_subtrees_non_root: the chaining
/// value from the chaining values of two sibling subtrees below the
/// root, a function of the two values alone.
#[verifier::external_body]
pub(crate) fn merge_inner(left: &crate::hash::Hash, right: &crate::hash::Hash) -> (r: crate::hash::Hash)
    ensures
        r@ == parent_cv_inner(left@, right@),
{
    crate::hash::Hash::from_bytes(
        blake3::hazmat::merge_subtrees_non_root(
            left.as_bytes(),
            right.as_bytes(),
            blake3::hazmat::Mode::Hash,
        ),
    )
}

/// Relies on std::time::SystemTime::now: the wall-clock time in
/// microseconds since the epoch, or zero when the clock is before it.
/// Nothing is promised of the value.
#[verifier::external_body]
pub(crate) fn now_micros() -> u64 {
    match std::time::SystemTime::now().duration_since(std::time::SystemTime::UNIX_EPOCH) {
        Ok(d) => d.as_micros() as u64,
        Err(_) => 0,
    }
}

} // verus!
