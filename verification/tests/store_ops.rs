//! Store operations: entries, tags, temp tags, liveness, deletion.
use memstore::hash::{BlobFormat, HashAndFormat};
use memstore::store::{EntryStatus, ImportProgress, PossiblyPartialEntry, Store};
use memstore::tag::Tag;

fn blake3_of(data: &[u8]) -> memstore::hash::Hash {
    memstore::hash::Hash::from_bytes(*bao_tree::blake3::hash(data).as_bytes())
}

fn pseudo_bytes(n: usize) -> Vec<u8> {
    let mut v = Vec::with_capacity(n);
    let mut x: u64 = 0x9e3779b97f4a7c15;
    for _ in 0..n {
        x = x.wrapping_mul(6364136223846793005).wrapping_add(1442695040888963407);
        v.push((x >> 33) as u8);
    }
    v
}

#[test]
fn new_store_is_empty() {
    let s = Store::new();
    assert!(s.blobs().is_empty());
    assert!(s.partial_blobs().is_empty());
    assert!(s.tags().is_empty());
    assert!(s.temp_tags().is_empty());
}

#[test]
fn import_empty_blob_and_temp_tag_liveness() {
    let mut s = Store::new();
    let t1 = s.import_bytes(Vec::new(), BlobFormat::Raw);
    let expected = blake3_of(b"");
    assert!(t1.hash().eq_hash(&expected));
    assert_eq!(t1.format(), BlobFormat::Raw);
    let blobs = s.blobs();
    assert_eq!(blobs.len(), 1);
    assert!(blobs[0].eq_hash(&expected));
    assert!(s.is_live(&expected));
    s.drop_temp_tag(t1);
    assert!(!s.is_live(&expected));
}

#[test]
fn import_same_content_twice() {
    let mut s = Store::new();
    let data = pseudo_bytes(4 * 1024 * 1024);
    let t1 = s.import_bytes(data.clone(), BlobFormat::Raw);
    let t2 = s.import_bytes(data, BlobFormat::Raw);
    assert!(t1.hash().eq_hash(t2.hash()));
    let blobs = s.blobs();
    assert_eq!(blobs.len(), 1);
    let h = *t1.hash();
    s.drop_temp_tag(t1);
    assert!(s.is_live(&h));
    s.drop_temp_tag(t2);
    assert!(!s.is_live(&h));
}

#[test]
fn create_tag_twice_distinct_names() {
    // two generated names at the same instant differ
    let mut s = Store::new();
    let hf = HashAndFormat::raw(blake3_of(b"content"));
    let a = s.create_tag(hf);
    let b = s.create_tag(hf);
    assert_ne!(a.as_bytes(), b.as_bytes());
    let tags = s.tags();
    assert_eq!(tags.len(), 2);
    assert!(tags.iter().any(|(t, _)| t.as_bytes() == a.as_bytes()));
    assert!(tags.iter().any(|(t, _)| t.as_bytes() == b.as_bytes()));
}

#[test]
fn set_tag_then_unset() {
    let mut s = Store::new();
    let hf = HashAndFormat::raw(blake3_of(b"x"));
    let name = Tag::from_bytes(b"n".to_vec());
    s.set_tag(name.clone(), Some(hf));
    assert!(s.tags().iter().any(|(t, _)| t.as_bytes() == name.as_bytes()));
    s.set_tag(name.clone(), None);
    assert!(!s.tags().iter().any(|(t, _)| t.as_bytes() == name.as_bytes()));
}

#[test]
fn temp_tag_counting() {
    let mut s = Store::new();
    let hf = HashAndFormat::raw(blake3_of(b"pinned"));
    let t1 = s.temp_tag(hf);
    let t2 = s.clone_temp_tag(&t1);
    assert_eq!(s.temp_tags().len(), 1);
    s.drop_temp_tag(t1);
    assert!(s.is_live(t2.hash()));
    let h = *t2.hash();
    s.drop_temp_tag(t2);
    assert!(!s.is_live(&h));
    assert!(s.temp_tags().is_empty());
}

#[test]
fn live_set_and_clear() {
    // live through the live set, independent of temp tags
    let mut s = Store::new();
    let h = blake3_of(b"gc-root");
    assert!(!s.is_live(&h));
    s.add_live(vec![h]);
    assert!(s.is_live(&h));
    s.clear_live();
    assert!(!s.is_live(&h));
}

#[test]
fn delete_removes_entries() {
    let mut s = Store::new();
    let t = s.import_bytes(b"doomed".to_vec(), BlobFormat::Raw);
    let h = *t.hash();
    assert_eq!(s.entry_status(&h), EntryStatus::Complete);
    s.delete(&vec![h]);
    assert_eq!(s.entry_status(&h), EntryStatus::NotFound);
    assert!(s.get(&h).is_none());
    // absent hashes are passed over in silence
    s.delete(&vec![h]);
}

#[test]
fn get_or_create_partial_registers_nothing() {
    // the store itself is untouched
    let s = Store::new();
    let h = blake3_of(b"future");
    let e = s.get_or_create_partial(h, 1024);
    assert!(!e.is_complete());
    assert!(e.hash().eq_hash(&h));
    assert_eq!(s.entry_status(&h), EntryStatus::NotFound);
    match s.get_possibly_partial(&h) {
        PossiblyPartialEntry::NotFound => {}
        _ => panic!("phantom entry"),
    }
}

#[test]
fn insert_complete_policy() {
    // no-op on a new partial, replacement on already-complete
    let mut s = Store::new();
    let h = blake3_of(b"never imported");
    let partial = s.get_or_create_partial(h, 64);
    s.insert_complete(partial);
    assert_eq!(s.entry_status(&h), EntryStatus::NotFound);

    let t = s.import_bytes(b"present".to_vec(), BlobFormat::Raw);
    let hp = *t.hash();
    let again = s.get(&hp).unwrap();
    s.insert_complete(again);
    assert_eq!(s.entry_status(&hp), EntryStatus::Complete);
    let e = s.get(&hp).unwrap();
    let reader = e.data_reader();
    assert_eq!(reader.read_at(0, 7), b"present".to_vec());
}

#[test]
fn blobs_and_partial_blobs_partition() {
    // every stored hash is in exactly one of the two snapshots
    let mut s = Store::new();
    let t1 = s.import_bytes(b"one".to_vec(), BlobFormat::Raw);
    let t2 = s.import_bytes(b"two".to_vec(), BlobFormat::HashSeq);
    let blobs = s.blobs();
    let partial = s.partial_blobs();
    assert_eq!(blobs.len(), 2);
    assert!(partial.is_empty());
    assert!(blobs.iter().any(|h| h.eq_hash(t1.hash())));
    assert!(blobs.iter().any(|h| h.eq_hash(t2.hash())));
    drop(t1);
    drop(t2);
}

#[test]
fn entry_sizes_and_ranges() {
    let mut s = Store::new();
    let data = pseudo_bytes(2500);
    let t = s.import_bytes(data, BlobFormat::Raw);
    let e = s.get(t.hash()).unwrap();
    assert_eq!(e.size(), memstore::entry::BaoBlobSize::Verified(2500));
    assert!(e.is_complete());
    let ranges = e.available_ranges();
    assert_eq!(ranges.start, 0);
    // 2500 bytes cover three chunks of 1024
    assert_eq!(ranges.end, 3);
    assert_eq!(e.current_size(), 2500);
    let r = e.data_reader();
    assert_eq!(r.len(), 2500);
}

#[test]
fn import_reports_outboard_events_in_order() {
    let mut s = Store::new();
    let mut events: Vec<ImportProgress> = Vec::new();
    let t = s.import_bytes_sync(7, b"evt".to_vec(), BlobFormat::Raw, &mut events);
    assert_eq!(events.len(), 2);
    match &events[0] {
        ImportProgress::OutboardProgress { id, offset } => {
            assert_eq!(*id, 7);
            assert_eq!(*offset, 0);
        }
        other => panic!("unexpected first event: {other:?}"),
    }
    match &events[1] {
        ImportProgress::OutboardDone { id, hash } => {
            assert_eq!(*id, 7);
            assert!(hash.eq_hash(t.hash()));
        }
        other => panic!("unexpected second event: {other:?}"),
    }
}

#[test]
fn available_ranges_at_chunk_boundary() {
    let mut s = Store::new();
    let t = s.import_bytes(pseudo_bytes(2048), BlobFormat::Raw);
    let e = s.get(t.hash()).unwrap();
    let ranges = e.available_ranges();
    // exactly two chunks, nothing rounded up
    assert_eq!(ranges.start, 0);
    assert_eq!(ranges.end, 2);
}
