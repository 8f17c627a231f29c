//! Verified streaming writes and export: batches built with the real
//! tree-hash crate flow through the store's verified paths.
use bao_tree::io::sync::{encode_ranges_validated, DecodeResponseIter};
use bao_tree::io::outboard::PreOrderMemOutboard;
use bao_tree::io::BaoContentItem;
use bao_tree::{BaoTree, BlockSize, ChunkRanges};
use memstore::batch::BatchItem;
use memstore::hash::BlobFormat;
use memstore::store::{EntryStatus, Store};
use memstore::StoreError;

const BS: BlockSize = BlockSize::from_chunk_log(4);

fn pseudo_bytes(n: usize) -> Vec<u8> {
    let mut v = Vec::with_capacity(n);
    let mut x: u64 = 0x51_7c_c1_b7_27_22_0a_95;
    for _ in 0..n {
        x = x.wrapping_mul(6364136223846793005).wrapping_add(1442695040888963407);
        v.push((x >> 29) as u8);
    }
    v
}

fn node_number(node: bao_tree::TreeNode) -> u64 {
    let r = node.chunk_range();
    (r.start.0 + r.end.0) / 2 - 1
}

/// Encode the whole blob and decode it back into plain batch items,
/// exactly as they would arrive from a peer.
fn batch_for(data: &[u8]) -> (memstore::hash::Hash, Vec<u8>, Vec<BatchItem>) {
    let ob = PreOrderMemOutboard::create(data, BS);
    let mut encoded: Vec<u8> = Vec::new();
    let ranges = ChunkRanges::all();
    encode_ranges_validated(data, &ob, &ranges, &mut encoded).unwrap();
    let tree = BaoTree::new(data.len() as u64, BS);
    let iter = DecodeResponseIter::new(ob.root, tree, std::io::Cursor::new(encoded), &ranges);
    let mut items = Vec::new();
    for item in iter {
        match item.unwrap() {
            BaoContentItem::Parent(p) => items.push(BatchItem::Parent {
                node: node_number(p.node),
                left: memstore::hash::Hash::from_bytes(*p.pair.0.as_bytes()),
                right: memstore::hash::Hash::from_bytes(*p.pair.1.as_bytes()),
            }),
            BaoContentItem::Leaf(l) => items.push(BatchItem::Leaf {
                offset: l.offset,
                data: l.data.to_vec(),
            }),
        }
    }
    (
        memstore::hash::Hash::from_bytes(*ob.root.as_bytes()),
        ob.data,
        items,
    )
}

#[test]
fn import_matches_tree_hash() {
    // the import's hash is the tree hash of the bytes, and the
    // stored outboard is the tree's outboard
    let mut s = Store::new();
    let data = pseudo_bytes(100_000);
    let ob = PreOrderMemOutboard::create(&data, BS);
    let t = s.import_bytes(data.clone(), BlobFormat::Raw);
    assert_eq!(t.hash().as_bytes(), ob.root.as_bytes());
    let e = s.get(t.hash()).unwrap();
    let stored = e.outboard();
    assert_eq!(stored.tree_size, 100_000);
    assert_eq!(stored.data, ob.data);
    // reading the full data gives back exactly the imported bytes
    let r = e.data_reader();
    assert_eq!(r.read_at(0, 100_000), data);
}

#[test]
fn write_batch_builds_verified_blob() {
    // Three blocks of data stream in as one verified batch.
    let data = pseudo_bytes(40_000);
    let (hash, ob_bytes, items) = batch_for(&data);
    let s = Store::new();
    let mut e = s.get_or_create_partial(hash, data.len() as u64);
    assert_eq!(s.entry_status(&hash), EntryStatus::NotFound);
    e.write_batch(data.len() as u64, &items).unwrap();
    let r = e.data_reader();
    assert_eq!(r.read_at(0, 40_000), data);
    assert_eq!(e.current_size(), 40_000);
    // the outboard built from verified parents has the layout peers
    // expect, byte for byte
    assert_eq!(e.outboard().data, ob_bytes);
    let or = e.outboard_reader();
    assert_eq!(or.len(), ob_bytes.len() as u64);
}

#[test]
fn write_batch_single_block() {
    // 1024 bytes fit one block; the only item is the root leaf
    let data = pseudo_bytes(1024);
    let (hash, _ob, items) = batch_for(&data);
    assert_eq!(items.len(), 1);
    let mut s = Store::new();
    let mut e = s.get_or_create_partial(hash, 1024);
    assert_eq!(s.entry_status(&hash), EntryStatus::NotFound);
    e.write_batch(1024, &items).unwrap();
    let r = e.data_reader();
    assert_eq!(r.read_at(0, 1024), data);
    // no complete prior version: promotion is a no-op
    s.insert_complete(e);
    assert_eq!(s.entry_status(&hash), EntryStatus::NotFound);
}

#[test]
fn write_batch_rejects_corrupt_leaf() {
    let data = pseudo_bytes(1024);
    let (hash, _ob, items) = batch_for(&data);
    let corrupted: Vec<BatchItem> = items
        .into_iter()
        .map(|item| match item {
            BatchItem::Leaf { offset, mut data } => {
                data[100] ^= 0xff;
                BatchItem::Leaf { offset, data }
            }
            p => p,
        })
        .collect();
    let s = Store::new();
    let mut e = s.get_or_create_partial(hash, 1024);
    assert_eq!(e.write_batch(1024, &corrupted), Err(StoreError::Verification));
    // verification failure leaves the storage unchanged
    let r = e.data_reader();
    assert_eq!(r.len(), 0);
}

#[test]
fn write_batch_rejects_inconsistent_size() {
    let data = pseudo_bytes(2048);
    let (hash, _ob, items) = batch_for(&data);
    let s = Store::new();
    let mut e = s.get_or_create_partial(hash, 2048);
    e.write_batch(2048, &items).unwrap();
    // a later batch must declare the same total size
    assert_eq!(e.write_batch(4096, &items), Err(StoreError::Verification));
    assert_eq!(e.current_size(), 2048);
}

#[test]
fn export_windows_hold_the_bytes() {
    // the windows concatenate to exactly the imported bytes
    let mut s = Store::new();
    let data = pseudo_bytes(2_500_000);
    let t = s.import_bytes(data.clone(), BlobFormat::Raw);
    let windows = s.export_sync(t.hash(), &b"/tmp/blob.bin".to_vec()).unwrap();
    // 2.5 MB cut into mebibyte windows: two full, one remainder
    assert_eq!(windows.len(), 3);
    assert_eq!(windows[0].len(), 1_048_576);
    assert_eq!(windows[1].len(), 1_048_576);
    assert_eq!(windows[2].len(), 402_848);
    let joined: Vec<u8> = windows.concat();
    assert_eq!(joined, data);
}

#[test]
fn export_rejects_bad_targets() {
    // a relative target is invalid input; a missing blob under a
    // valid target is not found
    let mut s = Store::new();
    let t = s.import_bytes(b"exportable".to_vec(), BlobFormat::Raw);
    assert_eq!(
        s.export_sync(t.hash(), &b"relative/path".to_vec()),
        Err(StoreError::InvalidInput)
    );
    assert_eq!(s.export_sync(t.hash(), &b"/".to_vec()), Err(StoreError::InvalidInput));
    let absent = memstore::hash::Hash::from_bytes([7u8; 32]);
    assert_eq!(
        s.export_sync(&absent, &b"/no/such/blob".to_vec()),
        Err(StoreError::NotFound)
    );
}

#[test]
fn export_empty_blob() {
    let mut s = Store::new();
    let t = s.import_bytes(Vec::new(), BlobFormat::Raw);
    let windows = s.export_sync(t.hash(), &b"/tmp/empty.bin".to_vec()).unwrap();
    assert!(windows.is_empty());
}
