//! Verified batch writes: each item of a batch is checked against the
//! root hash by recomputing its hash and walking the in-memory
//! outboard up to a known-good ancestor, and only a fully verified
//! batch changes the storage.
use vstd::prelude::*;

use crate::geometry::{count_anc, descend, find_anc, lemma_pow2s_52, lemma_pow2s_mono,
    lemma_unpack_pow2, popcnt, popcount, pow2, pow2s, spec_count_anc, spec_descend, spec_find_anc,
    spec_root_level, root_level, unpack, unpack_index, unpack_level};
use crate::storage::{copy_range, read_window};
use crate::trusted::{blake3_hash, blake3_hash_of, merge_inner, merge_root, parent_cv_inner,
    parent_cv_root, subtree_cv, subtree_cv_of};

verus! {

/// One element of an authenticated batch: either a pair of child
/// hashes for a tree node, or a leaf carrying data bytes at their
/// offset in the blob. Nodes are numbered as network peers number
/// them, in the in-order numbering of the chunk-level tree.
pub enum BatchItem {
    /// A pair of child hashes for the node.
    Parent {
        /// The chunk-level in-order number of the node.
        node: u64,
        /// Hash of the left subtree.
        left: crate::hash::Hash,
        /// Hash of the right subtree.
        right: crate::hash::Hash,
    },
    /// A leaf: data bytes at their offset.
    Leaf {
        /// Byte offset of the data in the blob.
        offset: u64,
        /// The data bytes of one block.
        data: Vec<u8>,
    },
}

/// Number of blocks of the tree over `size` bytes, as a machine word.
pub open spec fn spec_blocks(size: u64) -> u64 {
    if size == 0 {
        1u64
    } else {
        (((size - 1) as int / (crate::BLOCK_BYTES as int)) + 1) as u64
    }
}

/// Number of block-pair leaves of the shifted tree.
pub open spec fn spec_npairs(size: u64) -> u64 {
    ((spec_blocks(size) + 1) as int / 2) as u64
}

/// Number of nodes of the filled shifted tree.
pub open spec fn spec_filled(size: u64) -> u64 {
    (2 * spec_npairs(size) - 1) as u64
}

/// Level of the root of the shifted tree.
pub open spec fn spec_rootlevel(size: u64) -> nat {
    spec_root_level(spec_npairs(size), 1, 64)
}

/// The root node of the shifted tree; `None` for sizes whose tree
/// could not be addressed (none that a 64-bit size can reach).
pub open spec fn spec_rootnode(size: u64) -> Option<u64> {
    if spec_rootlevel(size) > 51 {
        None
    } else {
        Some((pow2s(spec_rootlevel(size)) - 1) as u64)
    }
}

/// Shape of the tree over one blob, precomputed.
pub struct TreeParams {
    /// Number of blocks.
    pub blocks: u64,
    /// Number of block-pair leaves of the shifted tree.
    pub npairs: u64,
    /// Number of nodes of the filled shifted tree.
    pub filled: u64,
    /// The root node of the shifted tree.
    pub root: u64,
}

/// Compute the tree shape for a size.
pub(crate) fn tree_params(size: u64) -> (r: Option<TreeParams>)
    ensures
        r is Some <==> spec_rootnode(size) is Some,
        r matches Some(tp) ==> {
            &&& tp.blocks == spec_blocks(size)
            &&& tp.npairs == spec_npairs(size)
            &&& tp.filled == spec_filled(size)
            &&& Some(tp.root) == spec_rootnode(size)
        },
{
    let blocks: u64 = if size == 0 {
        1
    } else {
        proof {
            assert((size - 1) as int / (crate::BLOCK_BYTES as int) <= 0x4000000000000int)
                by (nonlinear_arith)
                requires
                    size >= 1,
                    crate::BLOCK_BYTES == 16384,
            ;
        }
        (size - 1) / crate::BLOCK_BYTES + 1
    };
    let npairs: u64 = (blocks + 1) / 2;
    let filled: u64 = 2 * npairs - 1;
    let rl = root_level(npairs, 1, 64);
    if rl > 51 {
        return None;
    }
    let root = pow2(rl) - 1;
    Some(TreeParams { blocks, npairs, filled, root })
}

/// Zero bytes.
pub open spec fn zeros(n: nat) -> Seq<u8> {
    Seq::new(n, |i: int| 0u8)
}

/// A byte sequence with `b` written at `off`: the gap up to `off` is
/// zero-filled, bytes under the write are replaced, bytes past it are
/// kept.
pub open spec fn write_at_seq(s: Seq<u8>, off: int, b: Seq<u8>) -> Seq<u8> {
    let pre = if off <= s.len() {
        s.take(off)
    } else {
        s + zeros((off - s.len()) as nat)
    };
    let post = if off + b.len() < s.len() {
        s.skip(off + b.len())
    } else {
        Seq::empty()
    };
    pre + b + post
}

/// Append bytes to a vector.
fn append_bytes(dst: &mut Vec<u8>, src: &Vec<u8>)
    ensures
        final(dst)@ == old(dst)@ + src@,
{
    let mut i: usize = 0;
    while i < src.len()
        invariant
            i <= src@.len(),
            dst@ == old(dst)@ + src@.subrange(0, i as int),
        decreases src@.len() - i,
    {
        dst.push(src[i]);
        proof {
            assert(dst@ =~= old(dst)@ + src@.subrange(0, i + 1));
        }
        i += 1;
    }
    proof {
        assert(dst@ =~= old(dst)@ + src@);
    }
}

/// Write bytes into a vector at an offset, zero-filling any gap.
fn write_at(v: &mut Vec<u8>, off: usize, b: &Vec<u8>)
    requires
        off + b@.len() <= usize::MAX,
    ensures
        final(v)@ == write_at_seq(old(v)@, off as int, b@),
{
    let cut = if off < v.len() {
        off
    } else {
        v.len()
    };
    let mut r = copy_range(v, 0, cut);
    while r.len() < off
        invariant
            cut <= r@.len() <= off >= cut,
            r@ == old(v)@.subrange(0, cut as int) + zeros((r@.len() - cut) as nat),
        decreases off - r@.len(),
    {
        r.push(0);
        proof {
            assert(r@ =~= old(v)@.subrange(0, cut as int) + zeros((r@.len() - cut) as nat));
        }
    }
    append_bytes(&mut r, b);
    if off + b.len() < v.len() {
        let tail = copy_range(v, off + b.len(), v.len());
        append_bytes(&mut r, &tail);
    }
    proof {
        assert(r@ =~= write_at_seq(old(v)@, off as int, b@));
    }
    *v = r;
}

/// The expected hash of a node of the filled tree, read from the root
/// or from its nearest stored ancestor's pair in the outboard, with a
/// flag for the root itself. `None` when the node is not addressable
/// from what is known.
pub open spec fn spec_lookup(root: Seq<u8>, ob: Seq<u8>, s: u64, size: u64) -> Option<
    (Seq<u8>, bool),
> {
    if Some(s) == spec_rootnode(size) {
        Some((root, true))
    } else {
        match spec_find_anc(s, spec_filled(size), 64) {
            None => None,
            Some(p) => {
                let lp = unpack_level(p as nat);
                if lp == 0 || lp > 51 {
                    None
                } else {
                    let half = pow2s((lp - 1) as nat) as int;
                    if p as int - half < 0 || p as int + half > u64::MAX as int {
                        None
                    } else {
                        let lc = (p as int - half) as u64;
                        let rc = (p as int + half) as u64;
                        match spec_slot(p, size) {
                            None => None,
                            Some(slot) => if slot as int * 64 + 64 > ob.len() {
                                None
                            } else {
                                let pl = ob.subrange(slot as int * 64, slot as int * 64 + 32);
                                let pr = ob.subrange(slot as int * 64 + 32, slot as int * 64 + 64);
                                if lc == s {
                                    Some((pl, false))
                                } else {
                                    match spec_descend(rc, spec_filled(size), 64) {
                                        Some(rd) => if rd == s {
                                            Some((pr, false))
                                        } else {
                                            None
                                        },
                                        None => None,
                                    }
                                }
                            },
                        }
                    }
                }
            },
        }
    }
}

/// The pre-order outboard slot of a node's pair: the nodes left of it
/// minus the left-spine shortcuts, plus its in-tree ancestors. `None`
/// for nodes that store no pair (half block pairs at the ragged
/// edge).
pub open spec fn spec_slot(s: u64, size: u64) -> Option<u64> {
    let l = unpack_level(s as nat);
    let k = unpack_index(s as nat);
    if l > 51 {
        None
    } else if l == 0 && (k > (u64::MAX - 1) / 2 || 2 * k + 1 >= spec_blocks(size)) {
        None
    } else {
        let span = pow2s(l) as u64;
        let left = s as int + 1 - span;
        if left < 0 {
            None
        } else {
            match spec_count_anc(s, span, spec_filled(size), 64) {
                None => None,
                Some(cnt) => {
                    let pc = popcnt(k as nat) as int;
                    if pc > left || left - pc + cnt > u64::MAX as int {
                        None
                    } else {
                        Some((left - pc + cnt) as u64)
                    }
                },
            }
        }
    }
}

/// Executable twin of [`spec_slot`].
pub(crate) fn slot_of(s: u64, size: u64, params: &TreeParams) -> (r: Option<u64>)
    requires
        params.blocks == spec_blocks(size),
        params.filled == spec_filled(size),
    ensures
        r == spec_slot(s, size),
{
    let (l, k) = unpack(s);
    if l > 51 {
        return None;
    }
    if l == 0 && (k > (u64::MAX - 1) / 2 || 2 * k + 1 >= params.blocks) {
        return None;
    }
    proof {
        lemma_unpack_pow2(s as nat);
        lemma_pow2s_mono(l as nat, 52);
        lemma_pow2s_52();
    }
    let span = pow2(l);
    if span > s && span - s > 1 {
        return None;
    }
    let left: u64 = if span > s {
        0
    } else {
        s - span + 1
    };
    match count_anc(s, span, params.filled, 64) {
        None => None,
        Some(cnt) => {
            let pc = popcount(k);
            if pc > left || cnt > u64::MAX - (left - pc) {
                None
            } else {
                Some(left - pc + cnt)
            }
        },
    }
}

/// Executable twin of [`spec_lookup`]: the expected 32-byte hash and
/// the root flag.
pub(crate) fn lookup(
    root: &crate::hash::Hash,
    ob: &Vec<u8>,
    s: u64,
    size: u64,
    params: &TreeParams,
) -> (r: Option<(Vec<u8>, bool)>)
    requires
        params.blocks == spec_blocks(size),
        params.filled == spec_filled(size),
        Some(params.root) == spec_rootnode(size),
    ensures
        match r {
            Some(p) => spec_lookup(root@, ob@, s, size) == Some((p.0@, p.1)),
            None => spec_lookup(root@, ob@, s, size) is None,
        },
{
    if s == params.root {
        let mut h: Vec<u8> = Vec::new();
        let hb = root.as_bytes();
        let mut i: usize = 0;
        while i < 32
            invariant
                i <= 32,
                hb@ == root@,
                h@ == root@.subrange(0, i as int),
            decreases 32 - i,
        {
            h.push(hb[i]);
            proof {
                assert(h@ =~= root@.subrange(0, i + 1));
            }
            i += 1;
        }
        proof {
            assert(h@ =~= root@);
        }
        return Some((h, true));
    }
    let p = match find_anc(s, params.filled, 64) {
        Some(p) => p,
        None => {
            return None;
        },
    };
    let (lp, _kp) = unpack(p);
    if lp == 0 || lp > 51 {
        return None;
    }
    proof {
        lemma_unpack_pow2(p as nat);
        lemma_pow2s_mono((lp - 1) as nat, 52);
        lemma_pow2s_mono((lp - 1) as nat, lp as nat);
        lemma_pow2s_52();
    }
    let half = pow2(lp - 1);
    if p < half || p > u64::MAX - half {
        return None;
    }
    let lc = p - half;
    let rc = p + half;
    let slot = match slot_of(p, size, params) {
        Some(slot) => slot,
        None => {
            return None;
        },
    };
    let obl: u64 = ob.len() as u64;
    if slot > (u64::MAX - 64) / 64 {
        proof {
            assert(slot as int * 64 + 64 > u64::MAX as int) by (nonlinear_arith)
                requires
                    slot as int > ((u64::MAX - 64) / 64) as int,
            ;
        }
        return None;
    }
    proof {
        assert(slot * 64 + 64 <= u64::MAX as int) by (nonlinear_arith)
            requires
                0 <= slot as int <= ((u64::MAX - 64) / 64) as int,
        ;
    }
    let base = slot * 64;
    if obl < 64 || base > obl - 64 {
        return None;
    }
    let bu = base as usize;
    let pl = copy_range(ob, bu, bu + 32);
    let pr = copy_range(ob, bu + 32, bu + 64);
    if lc == s {
        Some((pl, false))
    } else {
        match descend(rc, params.filled, 64) {
            Some(rd) => if rd == s {
                Some((pr, false))
            } else {
                None
            },
            None => None,
        }
    }
}

/// Bytes of a hash, as a vector.
fn hash_bytes_vec(h: &crate::hash::Hash) -> (r: Vec<u8>)
    ensures
        r@ == h@,
{
    let hb = h.as_bytes();
    let mut v: Vec<u8> = Vec::new();
    let mut i: usize = 0;
    while i < 32
        invariant
            i <= 32,
            hb@ == h@,
            v@ == h@.subrange(0, i as int),
        decreases 32 - i,
    {
        v.push(hb[i]);
        proof {
            assert(v@ =~= h@.subrange(0, i + 1));
        }
        i += 1;
    }
    proof {
        assert(v@ =~= h@);
    }
    v
}

/// Whether a hash equals 32 expected bytes.
fn hash_eq_vec(h: &crate::hash::Hash, v: &Vec<u8>) -> (r: bool)
    ensures
        r == (h@ == v@),
{
    if v.len() != 32 {
        proof {
            assert(h@.len() == 32);
        }
        return false;
    }
    let hb = h.as_bytes();
    let mut i: usize = 0;
    while i < 32
        invariant
            i <= 32,
            hb@ == h@,
            v@.len() == 32,
            forall|j: int| 0 <= j < i ==> h@[j] == v@[j],
        decreases 32 - i,
    {
        if hb[i] != v[i] {
            return false;
        }
        i += 1;
    }
    proof {
        assert(h@ =~= v@);
    }
    true
}

/// The length a leaf at `offset` must have in a blob of `size`
/// bytes; `None` when no leaf sits there.
pub open spec fn spec_leaf_len(size: u64, offset: u64) -> Option<u64> {
    if size == 0 {
        if offset == 0 {
            Some(0u64)
        } else {
            None
        }
    } else if offset >= size {
        None
    } else if size - offset >= crate::BLOCK_BYTES {
        Some(crate::BLOCK_BYTES)
    } else {
        Some((size - offset) as u64)
    }
}

/// Check one batch item against the root and the outboard, and apply
/// it: a parent's pair lands at its pre-order slot in the outboard, a
/// leaf's bytes land at their offset in the data. `None` when the
/// item does not verify; then nothing may change.
pub open spec fn spec_apply_item(
    root: Seq<u8>,
    size: u64,
    ob: Seq<u8>,
    data: Seq<u8>,
    item: BatchItem,
) -> Option<(Seq<u8>, Seq<u8>)> {
    if spec_rootnode(size) is None {
        None
    } else {
        match item {
            BatchItem::Parent { node, left, right } => {
                if node % 16 != 15 {
                    None
                } else {
                    let s = (node / 16) as u64;
                    if s >= spec_filled(size) {
                        None
                    } else {
                        match spec_lookup(root, ob, s, size) {
                            None => None,
                            Some((exp, is_root)) => {
                                let computed = if is_root {
                                    parent_cv_root(left@, right@)
                                } else {
                                    parent_cv_inner(left@, right@)
                                };
                                if computed != exp {
                                    None
                                } else {
                                    match spec_slot(s, size) {
                                        None => None,
                                        Some(slot) => if slot > (usize::MAX as u64 - 64) / 64 {
                                            None
                                        } else {
                                            let base = (slot * 64) as int;
                                            Some(
                                                (
                                                    write_at_seq(
                                                        write_at_seq(ob, base, left@),
                                                        base + 32,
                                                        right@,
                                                    ),
                                                    data,
                                                ),
                                            )
                                        },
                                    }
                                }
                            },
                        }
                    }
                }
            },
            BatchItem::Leaf { offset, data: leaf } => {
                if offset % crate::BLOCK_BYTES != 0 {
                    None
                } else {
                    let b = (offset / crate::BLOCK_BYTES) as u64;
                    if b >= spec_blocks(size) {
                        None
                    } else {
                        match spec_leaf_len(size, offset) {
                            None => None,
                            Some(explen) => if leaf@.len() != explen {
                                None
                            } else {
                                let sl = (2 * (b / 2)) as u64;
                                let looked = if sl % 2 == 0 && (b / 2 > (u64::MAX - 1) / 2 || 2 * (
                                b / 2) + 1 >= spec_blocks(size)) {
                                    spec_lookup(root, ob, sl, size)
                                } else {
                                    match spec_slot(sl, size) {
                                        None => None,
                                        Some(slot) => if slot as int * 64 + 64 > ob.len() {
                                            None
                                        } else {
                                            let base = slot as int * 64;
                                            if b % 2 == 0 {
                                                Some((ob.subrange(base, base + 32), false))
                                            } else {
                                                Some((ob.subrange(base + 32, base + 64), false))
                                            }
                                        },
                                    }
                                };
                                match looked {
                                    None => None,
                                    Some((exp, is_root)) => {
                                        let computed = if is_root {
                                            blake3_hash_of(leaf@)
                                        } else {
                                            subtree_cv_of(offset, leaf@)
                                        };
                                        if computed != exp {
                                            None
                                        } else if offset as int > usize::MAX - leaf@.len() {
                                            None
                                        } else {
                                            Some((ob, write_at_seq(data, offset as int, leaf@)))
                                        }
                                    },
                                }
                            },
                        }
                    }
                }
            },
        }
    }
}

/// Check and apply a whole batch, item by item, left to right.
pub open spec fn spec_apply_batch(
    root: Seq<u8>,
    size: u64,
    ob: Seq<u8>,
    data: Seq<u8>,
    items: Seq<BatchItem>,
) -> Option<(Seq<u8>, Seq<u8>)>
    decreases items.len(),
{
    if items.len() == 0 {
        Some((ob, data))
    } else {
        match spec_apply_item(root, size, ob, data, items[0]) {
            None => None,
            Some(p) => spec_apply_batch(root, size, p.0, p.1, items.drop_first()),
        }
    }
}

/// Executable twin of [`spec_apply_item`]: on success the buffers are
/// updated, on failure they are untouched.
pub(crate) fn apply_item(
    root: &crate::hash::Hash,
    size: u64,
    params: &TreeParams,
    ob: &mut Vec<u8>,
    data: &mut Vec<u8>,
    item: &BatchItem,
) -> (ok: bool)
    requires
        params.blocks == spec_blocks(size),
        params.npairs == spec_npairs(size),
        params.filled == spec_filled(size),
        Some(params.root) == spec_rootnode(size),
    ensures
        ok ==> spec_apply_item(root@, size, old(ob)@, old(data)@, *item) == Some(
            (final(ob)@, final(data)@),
        ),
        !ok ==> spec_apply_item(root@, size, old(ob)@, old(data)@, *item) is None && final(ob)@
            == old(ob)@ && final(data)@ == old(data)@,
{
    match item {
        BatchItem::Parent { node, left, right } => {
            if node % 16 != 15 {
                return false;
            }
            let s = node / 16;
            if s >= params.filled {
                return false;
            }
            let (exp, is_root) = match lookup(root, ob, s, size, params) {
                Some(p) => p,
                None => {
                    return false;
                },
            };
            let computed = if is_root {
                merge_root(left, right)
            } else {
                merge_inner(left, right)
            };
            if !hash_eq_vec(&computed, &exp) {
                return false;
            }
            let slot = match slot_of(s, size, params) {
                Some(slot) => slot,
                None => {
                    return false;
                },
            };
            if slot > (usize::MAX as u64 - 64) / 64 {
                return false;
            }
            proof {
                vstd::arithmetic::mul::lemma_mul_inequality(
                    slot as int,
                    ((usize::MAX as u64 - 64) / 64) as int,
                    64,
                );
            }
            let base = (slot * 64) as usize;
            write_at(ob, base, &hash_bytes_vec(left));
            write_at(ob, base + 32, &hash_bytes_vec(right));
            true
        },
        BatchItem::Leaf { offset, data: leaf } => {
            if offset % crate::BLOCK_BYTES != 0 {
                return false;
            }
            let b = offset / crate::BLOCK_BYTES;
            if b >= params.blocks {
                return false;
            }
            let explen: u64 = if size == 0 {
                if *offset != 0 {
                    return false;
                }
                0
            } else if *offset >= size {
                return false;
            } else if size - offset >= crate::BLOCK_BYTES {
                crate::BLOCK_BYTES
            } else {
                size - offset
            };
            if leaf.len() as u64 != explen {
                return false;
            }
            let sl = 2 * (b / 2);
            let looked: Option<(Vec<u8>, bool)> = if b / 2 > (u64::MAX - 1) / 2 || 2 * (b / 2) + 1
                >= params.blocks {
                lookup(root, ob, sl, size, params)
            } else {
                match slot_of(sl, size, params) {
                    None => None,
                    Some(slot) => {
                        let obl: u64 = ob.len() as u64;
                        if slot > (u64::MAX - 64) / 64 {
                            proof {
                                assert(slot as int * 64 + 64 > u64::MAX as int)
                                    by (nonlinear_arith)
                                    requires
                                        slot as int > ((u64::MAX - 64) / 64) as int,
                                ;
                            }
                            None
                        } else {
                            proof {
                                assert(slot * 64 + 64 <= u64::MAX as int) by (nonlinear_arith)
                                    requires
                                        0 <= slot as int <= ((u64::MAX - 64) / 64) as int,
                                ;
                            }
                            let base = slot * 64;
                            if obl < 64 || base > obl - 64 {
                                None
                            } else {
                                let bu = base as usize;
                                if b % 2 == 0 {
                                    Some((copy_range(ob, bu, bu + 32), false))
                                } else {
                                    Some((copy_range(ob, bu + 32, bu + 64), false))
                                }
                            }
                        }
                    },
                }
            };
            let (exp, is_root) = match looked {
                Some(p) => p,
                None => {
                    return false;
                },
            };
            let computed = if is_root {
                blake3_hash(leaf.as_slice())
            } else {
                subtree_cv(*offset, leaf.as_slice())
            };
            if !hash_eq_vec(&computed, &exp) {
                return false;
            }
            if *offset > (usize::MAX - leaf.len()) as u64 {
                return false;
            }
            write_at(data, *offset as usize, leaf);
            true
        },
    }
}

/// Bytes written by a verified batch are at once readable: reading
/// the written window back yields exactly the bytes written.
pub proof fn lemma_write_then_read(d: Seq<u8>, off: u64, b: Seq<u8>)
    requires
        b.len() <= usize::MAX,
    ensures
        read_window(write_at_seq(d, off as int, b), off, b.len() as usize) == b,
{
    let t = write_at_seq(d, off as int, b);
    let pre = if off <= d.len() {
        d.take(off as int)
    } else {
        d + zeros((off - d.len()) as nat)
    };
    assert(pre.len() == off);
    if b.len() == 0 {
        if off < t.len() {
            assert(t.subrange(off as int, off as int) =~= b);
        }
        assert(read_window(t, off, 0) =~= b);
    } else {
        assert(off + b.len() <= t.len());
        assert forall|i: int| 0 <= i < b.len() implies t[off + i] == b[i] by {
            assert(t[off + i] == (pre + b)[off + i]);
        }
        assert(t.subrange(off as int, off + b.len()) =~= b);
    }
}

} // verus!
