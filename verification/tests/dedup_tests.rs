use gitka::config::Config;
use gitka::dedup::{DedupIndex, DedupRef, DedupStore};

#[test]
fn test_hash_consistency() {
    let data = b"hello world";
    let hash1 = DedupStore::hash_content(data);
    let hash2 = DedupStore::hash_content(data);
    assert_eq!(hash1, hash2);
}

#[test]
fn test_dedup_store_roundtrip() {
    let mut store = DedupStore::at("/tmp/gitka-dedup-test".to_string());

    let hash = DedupStore::hash_content(b"test content");
    let ref_info = DedupRef { hash: hash.clone(), archive: "a.gitka.zst".to_string(), source_part: 0, offset: 0, length: 12 };

    assert!(!store.contains(&hash));
    store.register(hash.clone(), ref_info);
    assert!(store.contains(&hash));
    assert_eq!(store.entry_count(), 1);
    assert_eq!(store.bytes_saved(), 12);

    // The index, as saved, loads into a fresh store.
    let saved: DedupIndex = store.index().clone();
    let mut store2 = DedupStore::at("/tmp/gitka-dedup-test".to_string());
    store2.set_index(saved);
    assert!(store2.contains(&hash));
    assert_eq!(store2.entry_count(), 1);
}

#[test]
fn sha256_hex_known_value() {
    assert_eq!(
        DedupStore::hash_content(b"hello world"),
        "b94d27b9934d3e08a52e52d7da7dabfac484efe37a5380ee9088f7ace2efcde9"
    );
    assert_eq!(
        DedupStore::hash_content(b""),
        "e3b0c44298fc1c149afbf4c8996fb92427ae41e4649b934ca495991b7852b855"
    );
}

#[test]
fn register_replaces_and_counts() {
    let mut store = DedupStore::at("s".to_string());
    let r1 = DedupRef { hash: "h".to_string(), archive: "a.gitka.zst".to_string(), source_part: 1, offset: 0, length: 5 };
    let r2 = DedupRef { hash: "h".to_string(), archive: "a.gitka.zst".to_string(), source_part: 2, offset: 9, length: 7 };
    store.register("h".to_string(), r1);
    store.register("h".to_string(), r2);
    assert_eq!(store.entry_count(), 1);
    assert_eq!(store.bytes_saved(), 12);
    assert_eq!(store.lookup("h").unwrap().source_part, 2);
    assert!(store.lookup("other").is_none());
    store.record_saved_bytes(3);
    let stats = store.stats();
    assert_eq!(stats.entry_count, 1);
    assert_eq!(stats.bytes_saved, 15);
}

#[test]
fn loaded_duplicates_keep_last() {
    let mut index = DedupIndex::default();
    index.entries.push(("k".to_string(), DedupRef { hash: "k".to_string(), archive: String::new(), source_part: 1, offset: 0, length: 1 }));
    index.entries.push(("k".to_string(), DedupRef { hash: "k".to_string(), archive: String::new(), source_part: 3, offset: 0, length: 1 }));
    index.bytes_saved = 42;
    let mut store = DedupStore::at("s".to_string());
    store.set_index(index);
    assert_eq!(store.entry_count(), 1);
    assert_eq!(store.lookup("k").unwrap().source_part, 3);
    assert_eq!(store.bytes_saved(), 42);
}

#[test]
fn store_paths() {
    let mut config = Config::default();
    config.target.path = "/media/usb".to_string();
    let store = DedupStore::open(&config);
    assert_eq!(store.store_path(), "/media/usb/.gitka/dedup-store");
    assert_eq!(store.index_path(), "/media/usb/.gitka/dedup-store/index.toml");
}
