use manga_reader_engine::cache::{
    blake2_simple, sanitize_filename, CacheIndex, CacheIndexEntry, CacheLookup, EvictionPolicy, ImageCache,
};

fn new_cache(max: u64, target: u64) -> ImageCache {
    ImageCache::new("manga_cache_test", max, target, CacheIndex::new())
}

#[test]
fn test_cache_put_get() {
    let mut cache = new_cache(1024 * 1024, 943718);
    cache.put("page_001", b"test_image_data_123");
    match cache.lookup("page_001") {
        CacheLookup::Hot(data) => assert_eq!(data, b"test_image_data_123".to_vec()),
        other => panic!("unexpected lookup: {:?}", other),
    }
    let removed = cache.clear();
    assert_eq!(removed.len(), 1);
}

#[test]
fn test_cache_miss() {
    let mut cache = new_cache(1024 * 1024, 943718);
    assert!(matches!(cache.lookup("nonexistent"), CacheLookup::Miss));
}

#[test]
fn test_sanitize_filename() {
    assert_eq!(sanitize_filename("simple_key"), "simple_key");
    assert_eq!(sanitize_filename("path/to/file"), "path_to_file");
    assert!(!sanitize_filename(".hidden").starts_with('.'));
}

#[test]
fn sanitize_replaces_unsafe_characters() {
    assert_eq!(sanitize_filename("a:b*c?d"), "a3b2c3d");
    assert_eq!(sanitize_filename("a\\b"), "a_b");
    assert_eq!(sanitize_filename(".hidden"), "_.hidden");
}

#[test]
fn long_keys_are_shortened_with_a_hash() {
    let key = "k".repeat(300);
    let name = sanitize_filename(&key);
    assert_eq!(name.len(), 197);
    assert_eq!(name, sanitize_filename(&key));
    assert!(name.starts_with(&format!("{}_", "k".repeat(180))));
    assert!(name.ends_with(&blake2_simple(&key)));
    assert_eq!(blake2_simple("abc"), blake2_simple("abc"));
    assert_ne!(blake2_simple("abc"), blake2_simple("abd"));
}

#[test]
fn put_records_the_entry() {
    let mut cache = new_cache(100, 90);
    let evicted = cache.put("a/b", b"12345");
    assert!(evicted.is_empty());
    assert_eq!(cache.total_size(), 5);
    assert_eq!(cache.entry_count(), 1);
    assert_eq!(cache.access_counter(), 1);
    assert_eq!(cache.lookup_file("a/b"), Some("a_b".to_string()));
    assert_eq!(ImageCache::file_name_for("a/b"), "a_b");
}

#[test]
fn least_recently_used_is_evicted() {
    let mut cache = new_cache(10, 9);
    assert!(cache.put("a", b"aaaaaa").is_empty());
    let evicted = cache.put("b", b"bbbbbb");
    assert_eq!(evicted.len(), 1);
    assert_eq!(evicted[0].0, "a");
    assert_eq!(evicted[0].1.size, 6);
    assert!(matches!(cache.lookup("a"), CacheLookup::Miss));
    assert_eq!(cache.total_size(), 6);
    assert!(cache.total_size() <= 10);
}

#[test]
fn promoted_entry_is_not_the_victim() {
    let mut cache = new_cache(12, 10);
    cache.put("a", b"aaaa");
    cache.put("b", b"bbbb");
    cache.promote("a", b"aaaa".to_vec());
    let evicted = cache.put("c", b"cccc!");
    assert_eq!(evicted.len(), 1);
    assert_eq!(evicted[0].0, "b");
    assert!(matches!(cache.lookup("a"), CacheLookup::Hot(_)));
}

#[test]
fn index_only_entries_are_found_on_disk() {
    let mut index = CacheIndex::new();
    assert!(index.insert("k".to_string(), CacheIndexEntry { file_path: "k".to_string(), size: 3, access_count: 7 }));
    assert_eq!(index.total_size(), 3);
    let mut cache = ImageCache::new("dir", 100, 90, index);
    match cache.lookup("k") {
        CacheLookup::OnDisk(path) => assert_eq!(path, "k"),
        other => panic!("unexpected lookup: {:?}", other),
    }
    cache.forget("k");
    assert!(matches!(cache.lookup("k"), CacheLookup::Miss));
    assert_eq!(cache.total_size(), 0);
}

#[test]
fn index_insert_replaces_and_refuses_overflow() {
    let mut index = CacheIndex::new();
    assert!(index.insert("a".to_string(), CacheIndexEntry { file_path: "a".to_string(), size: 10, access_count: 1 }));
    assert!(index.insert("a".to_string(), CacheIndexEntry { file_path: "a".to_string(), size: 4, access_count: 2 }));
    assert_eq!(index.total_size(), 4);
    assert_eq!(index.entries.len(), 1);
    assert!(!index.insert("b".to_string(), CacheIndexEntry { file_path: "b".to_string(), size: u64::MAX, access_count: 3 }));
    assert_eq!(index.total_size(), 4);
}

#[test]
fn remove_and_clear() {
    let mut cache = new_cache(100, 90);
    cache.put("x", b"xx");
    cache.put("y", b"yyy");
    let removed = cache.remove("x").unwrap();
    assert_eq!(removed.size, 2);
    assert!(cache.remove("x").is_none());
    assert!(matches!(cache.lookup("x"), CacheLookup::Miss));
    let cleared = cache.clear();
    assert_eq!(cleared.len(), 1);
    assert_eq!(cache.total_size(), 0);
    assert_eq!(cache.entry_count(), 0);
}

#[test]
fn largest_first_policy_value() {
    assert_ne!(EvictionPolicy::Lru, EvictionPolicy::LargestFirst);
}

#[test]
fn file_names_cannot_escape_the_cache_directory() {
    let name = sanitize_filename("../../etc/passwd");
    assert_eq!(name, "_.._.._etc_passwd");
    assert!(!name.contains('/') && !name.starts_with('.'));
    let long = sanitize_filename(&"é/".repeat(150));
    assert!(long.len() <= 200);
    assert!(long.chars().all(|c| c.is_ascii_alphanumeric() || c == '-' || c == '_' || c == '.'));
}

#[test]
fn duplicate_is_an_independent_copy() {
    let mut cache = new_cache(100, 90);
    cache.put("a", b"aaa");
    let mut copy = cache.duplicate();
    assert_eq!(copy.total_size(), 3);
    assert!(matches!(copy.lookup("a"), CacheLookup::Hot(_)));
    copy.remove("a");
    assert!(matches!(cache.lookup("a"), CacheLookup::Hot(_)));
    assert_eq!(cache.index().duplicate().entries.len(), 1);
}

#[test]
fn small_put_survives_its_own_eviction() {
    let mut cache = new_cache(100, 90);
    assert!(cache.put("old", &[1u8; 80]).is_empty());
    let evicted = cache.put("new", &[2u8; 50]);
    assert_eq!(evicted.len(), 1);
    assert_eq!(evicted[0].0, "old");
    match cache.lookup("new") {
        CacheLookup::Hot(data) => assert_eq!(data, vec![2u8; 50]),
        other => panic!("unexpected lookup: {:?}", other),
    }
    assert_eq!(cache.total_size(), 50);
}

#[test]
fn remove_drops_one_entry_and_then_misses() {
    let mut cache = new_cache(100, 90);
    cache.put("x", b"xx");
    cache.put("y", b"yyy");
    assert_eq!(cache.entry_count(), 2);
    assert!(cache.remove("x").is_some());
    assert_eq!(cache.entry_count(), 1);
    assert!(cache.remove("nothing").is_none());
    assert_eq!(cache.entry_count(), 1);
    assert!(matches!(cache.lookup("x"), CacheLookup::Miss));
    assert!(matches!(cache.lookup("y"), CacheLookup::Hot(_)));
}
