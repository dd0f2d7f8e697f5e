use chatalyst_core::hash::calculate_image_hash;
use chatalyst_core::store::{ImageStore, StoreError};

const ABC_SHA256: &str = "ba7816bf8f01cfea414140de5dae2223b00361a396177a9cb410ff61f20015ad";
const EMPTY_SHA256: &str = "e3b0c44298fc1c149afbf4c8996fb92427ae41e4649b934ca495991b7852b855";
const ONE_TWO_THREE_SHA256: &str =
    "039058c6f2c0cb492c533b0a4d14ef77cc0f78abccced5287d84a1a2011cfb81";

fn s(text: &str) -> String {
    text.to_string()
}

#[test]
fn test_digest_deterministic() {
    let b = vec![7u8, 0, 255, 42, 42];
    let first = calculate_image_hash(b.clone()).unwrap();
    let second = calculate_image_hash(b).unwrap();
    assert_eq!(first, second);
}

#[test]
fn test_digest_known_vectors() {
    assert_eq!(calculate_image_hash(b"abc".to_vec()).unwrap(), ABC_SHA256);
    assert_eq!(calculate_image_hash(Vec::new()).unwrap(), EMPTY_SHA256);
    assert_eq!(
        calculate_image_hash(vec![1u8, 2, 3]).unwrap(),
        ONE_TWO_THREE_SHA256
    );
}

#[test]
fn test_digest_distinct_on_random_sample() {
    let mut state: u64 = 0x1234_5678_9abc_def0;
    let mut next = move || {
        state = state
            .wrapping_mul(6364136223846793005)
            .wrapping_add(1442695040888963407);
        (state >> 33) as u8
    };
    let mut digests: Vec<String> = Vec::new();
    for i in 0..150u16 {
        // Distinct by construction: a two-byte index prefix, then random
        // bytes; many buffers share a length.
        let mut buf = vec![(i & 0xff) as u8, (i >> 8) as u8];
        for _ in 0..(8 + (i % 5)) {
            buf.push(next());
        }
        digests.push(calculate_image_hash(buf).unwrap());
    }
    for a in 0..digests.len() {
        for b in (a + 1)..digests.len() {
            assert_ne!(digests[a], digests[b]);
        }
    }
}

#[test]
fn test_store_image_dedup_same_bytes() {
    let mut store = ImageStore::new();
    let bytes = vec![9u8, 8, 7, 6];
    let first = store.store_image(bytes.clone(), s("image/png"), &s("conv-1"), &s("t1"));
    let second = store.store_image(bytes.clone(), s("image/jpeg"), &s("conv-2"), &s("t2"));
    assert_eq!(second.id, first.id);
    assert_eq!(second.hash, first.hash);
    // Dedup is authoritative: the second call's mime type is discarded.
    assert_eq!(second.mime_type, "image/png");
    assert_eq!(second.size, 4);
    let stored = store.get_image(first.id).unwrap();
    assert_eq!(stored.data, bytes);
    assert_eq!(stored.mime_type, "image/png");
    assert_eq!(stored.created_at, "t1");
    let (count, total) = store.get_image_stats();
    assert_eq!(count, 1);
    assert_eq!(total, 4);
}

#[test]
fn test_two_conversations_share_one_row() {
    let mut store = ImageStore::new();
    let bytes = vec![4u8, 5, 6];
    let first = store.store_image(bytes.clone(), s("image/png"), &s("left"), &s("t1"));
    let second = store.store_image(bytes, s("image/png"), &s("right"), &s("t2"));
    assert_eq!(first.id, second.id);
    let left = store.get_conversation_images(&s("left"));
    let right = store.get_conversation_images(&s("right"));
    assert_eq!(left.len(), 1);
    assert_eq!(right.len(), 1);
    assert_eq!(left[0].id, first.id);
    assert_eq!(right[0].id, first.id);
    let (count, _) = store.get_image_stats();
    assert_eq!(count, 1);
}

#[test]
fn test_delete_touches_only_target_conversation() {
    let mut store = ImageStore::new();
    store.store_image(vec![1u8], s("image/png"), &s("a"), &s("t1"));
    store.store_image(vec![2u8], s("image/png"), &s("a"), &s("t2"));
    store.store_image(vec![1u8], s("image/png"), &s("b"), &s("t3"));
    let removed = store.delete_conversation_images(&s("a"));
    assert_eq!(removed, 2);
    assert_eq!(store.get_conversation_images(&s("a")).len(), 0);
    let b_images = store.get_conversation_images(&s("b"));
    assert_eq!(b_images.len(), 1);
    let removed_again = store.delete_conversation_images(&s("a"));
    assert_eq!(removed_again, 0);
}

#[test]
fn test_cleanup_deletes_only_orphans() {
    let mut store = ImageStore::new();
    let kept = store.store_image(vec![1u8, 1], s("image/png"), &s("a"), &s("t1"));
    let orphaned = store.store_image(vec![2u8, 2], s("image/png"), &s("b"), &s("t2"));
    store.delete_conversation_images(&s("b"));
    let deleted = store.cleanup_orphaned_images();
    assert_eq!(deleted, 1);
    assert!(store.get_image(kept.id).is_ok());
    assert!(matches!(
        store.get_image(orphaned.id),
        Err(StoreError::NotFound)
    ));
}

#[test]
fn test_listing_order_follows_reference_creation() {
    let mut store = ImageStore::new();
    let first = store.store_image(vec![1u8], s("image/png"), &s("c"), &s("2024-01-01"));
    let second = store.store_image(vec![2u8], s("image/png"), &s("c"), &s("2024-01-02"));
    let listed = store.get_conversation_images(&s("c"));
    assert_eq!(listed.len(), 2);
    assert_eq!(listed[0].id, first.id);
    assert_eq!(listed[0].created_at, "2024-01-01");
    assert_eq!(listed[1].id, second.id);
    assert_eq!(listed[1].created_at, "2024-01-02");
}

#[test]
fn test_get_image_not_found() {
    let store = ImageStore::new();
    assert!(matches!(store.get_image(42), Err(StoreError::NotFound)));
}

#[test]
fn test_get_image_by_hash_absent_is_normal() {
    let store = ImageStore::new();
    assert!(store.get_image_by_hash(&s(ABC_SHA256)).is_none());
}

#[test]
fn test_add_reference_insert_or_ignore() {
    let mut store = ImageStore::new();
    let meta = store.store_image(vec![5u8], s("image/png"), &s("a"), &s("t1"));
    let added = store.add_reference(meta.id, &s("b"), &s("t2")).unwrap();
    assert!(added);
    let added_again = store.add_reference(meta.id, &s("b"), &s("t3")).unwrap();
    assert!(!added_again);
    assert_eq!(store.get_conversation_images(&s("b")).len(), 1);
}

#[test]
fn test_add_reference_unknown_image() {
    let mut store = ImageStore::new();
    let r = store.add_reference(99, &s("a"), &s("t1"));
    assert_eq!(r, Err(StoreError::NotFound));
}

#[test]
fn test_stats_sum_sizes() {
    let mut store = ImageStore::new();
    store.store_image(vec![0u8; 10], s("image/png"), &s("a"), &s("t1"));
    store.store_image(vec![1u8; 32], s("image/jpeg"), &s("a"), &s("t2"));
    let (count, total) = store.get_image_stats();
    assert_eq!(count, 2);
    assert_eq!(total, 42);
    let empty = ImageStore::new();
    assert_eq!(empty.get_image_stats(), (0usize, 0u128));
}

#[test]
fn test_full_scenario() {
    let mut store = ImageStore::new();
    let first = store.store_image(vec![1u8, 2, 3], s("image/png"), &s("A"), &s("t1"));
    assert_eq!(first.hash, ONE_TWO_THREE_SHA256);
    assert_eq!(first.size, 3);
    let second = store.store_image(vec![1u8, 2, 3], s("image/png"), &s("B"), &s("t2"));
    assert_eq!(second.hash, first.hash);
    assert_eq!(second.id, first.id);
    let a_images = store.get_conversation_images(&s("A"));
    let b_images = store.get_conversation_images(&s("B"));
    assert_eq!(a_images.len(), 1);
    assert_eq!(b_images.len(), 1);
    assert_eq!(a_images[0].hash, ONE_TWO_THREE_SHA256);
    assert_eq!(b_images[0].hash, ONE_TWO_THREE_SHA256);
    assert_eq!(store.delete_conversation_images(&s("A")), 1);
    assert_eq!(store.cleanup_orphaned_images(), 0);
    assert_eq!(store.delete_conversation_images(&s("B")), 1);
    assert_eq!(store.cleanup_orphaned_images(), 1);
    assert!(store.get_image_by_hash(&s(ONE_TWO_THREE_SHA256)).is_none());
}
