use kondo::cache::{sha256_hex, Cache, ContentHasher, DirSnapshot, FileEntry};
use kondo::strmap::StrMap;

const DIR: &str = "/home/user/Downloads";
const MTIME: u64 = 1_709_913_600;

fn snapshot(files: &[(&str, u64)]) -> DirSnapshot {
    let pairs: Vec<(String, FileEntry)> = files
        .iter()
        .map(|(name, size)| (name.to_string(), FileEntry { size: *size, mtime: MTIME }))
        .collect();
    DirSnapshot::new(pairs, MTIME + 100)
}

#[test]
fn test_snapshot_dir_captures_files() {
    let snapshot = snapshot(&[("a.txt", 5), ("b.png", 10)]);
    assert_eq!(snapshot.entries.len(), 2);
    assert!(snapshot.entries.contains_key("a.txt"));
    assert!(snapshot.entries.contains_key("b.png"));
    assert_eq!(snapshot.entries.get("a.txt").expect("a.txt").size, 5);
    assert_eq!(snapshot.entries.get("b.png").expect("b.png").size, 10);
}

#[test]
fn test_is_unchanged_empty_cache() {
    let cache = Cache::default();
    assert!(!cache.is_unchanged(DIR, Some(&snapshot(&[]))));
}

#[test]
fn test_is_unchanged_after_update() {
    let mut cache = Cache::default();
    cache.update_dir(DIR, snapshot(&[("a.txt", 5)]));
    assert!(cache.is_unchanged(DIR, Some(&snapshot(&[("a.txt", 5)]))));
}

#[test]
fn test_is_changed_after_new_file() {
    let mut cache = Cache::default();
    cache.update_dir(DIR, snapshot(&[("a.txt", 5)]));
    assert!(!cache.is_unchanged(DIR, Some(&snapshot(&[("a.txt", 5), ("b.txt", 5)]))));
}

#[test]
fn test_is_changed_after_file_removed() {
    let mut cache = Cache::default();
    cache.update_dir(DIR, snapshot(&[("a.txt", 5)]));
    assert!(!cache.is_unchanged(DIR, Some(&snapshot(&[]))));
}

#[test]
fn test_config_hash_changes() {
    let serialize = |s: &str| serde_json::to_string(&s).expect("serialize");
    let hash1 = Cache::hash_config_content(&serialize("dashify: true"));
    let hash2 = Cache::hash_config_content(&serialize("dashify: false"));
    assert_ne!(hash1, hash2);

    let hash3 = Cache::hash_config_content(&serialize("dashify: true"));
    assert_eq!(hash1, hash3);
}

#[test]
fn test_sha256_file_identical_content() {
    let hash1 = sha256_hex(b"hello world");
    let hash2 = sha256_hex(b"hello world");
    assert_eq!(hash1, hash2);
}

#[test]
fn test_sha256_file_different_content() {
    let hash1 = sha256_hex(b"hello world");
    let hash2 = sha256_hex(b"hello world!");
    assert_ne!(hash1, hash2);
}

#[test]
fn sha256_known_values() {
    assert_eq!(
        sha256_hex(b"abc"),
        "ba7816bf8f01cfea414140de5dae2223b00361a396177a9cb410ff61f20015ad"
    );
    assert_eq!(
        sha256_hex(b""),
        "e3b0c44298fc1c149afbf4c8996fb92427ae41e4649b934ca495991b7852b855"
    );
    assert_eq!(
        Cache::hash_config_content("abc"),
        "ba7816bf8f01cfea414140de5dae2223b00361a396177a9cb410ff61f20015ad"
    );
}

#[test]
fn chunked_hash_equals_whole_hash() {
    let data: Vec<u8> = (0..20000u32).map(|i| (i % 251) as u8).collect();
    let mut h = ContentHasher::new();
    for chunk in data.chunks(8192) {
        h.update(chunk);
    }
    assert_eq!(h.finish_hex(), sha256_hex(&data));
}

#[test]
fn changed_size_or_time_is_a_change() {
    let mut cache = Cache::default();
    cache.update_dir(DIR, snapshot(&[("a.txt", 5)]));
    assert!(!cache.is_unchanged(DIR, Some(&snapshot(&[("a.txt", 6)]))));
    let later = DirSnapshot::new(
        vec![("a.txt".to_string(), FileEntry { size: 5, mtime: MTIME + 1 })],
        0,
    );
    assert!(!cache.is_unchanged(DIR, Some(&later)));
    assert!(!cache.is_unchanged(DIR, None));
    assert!(!cache.is_unchanged("/elsewhere", Some(&snapshot(&[("a.txt", 5)]))));
}

#[test]
fn updating_one_directory_leaves_others() {
    let mut cache = Cache::default();
    cache.update_dir("/a", snapshot(&[("x", 1)]));
    cache.update_dir("/b", snapshot(&[("y", 2)]));
    cache.update_dir("/a", snapshot(&[("z", 3)]));
    assert!(cache.is_unchanged("/a", Some(&snapshot(&[("z", 3)]))));
    assert!(!cache.is_unchanged("/a", Some(&snapshot(&[("x", 1)]))));
    assert!(cache.is_unchanged("/b", Some(&snapshot(&[("y", 2)]))));
    assert_eq!(cache.dirs.len(), 2);
}

#[test]
fn order_of_listing_does_not_matter() {
    let mut cache = Cache::default();
    cache.update_dir(DIR, snapshot(&[("a", 1), ("b", 2)]));
    assert!(cache.is_unchanged(DIR, Some(&snapshot(&[("b", 2), ("a", 1)]))));
}

#[test]
fn string_map_operations() {
    let mut m: StrMap<u32> = StrMap::new();
    assert_eq!(m.len(), 0);
    m.insert("k".to_string(), 1);
    m.insert("j".to_string(), 2);
    m.insert("k".to_string(), 3);
    assert_eq!(m.len(), 2);
    assert_eq!(m.get("k"), Some(&3));
    assert_eq!(m.get("j"), Some(&2));
    assert_eq!(m.get("x"), None);
    assert!(m.contains_key("j"));
    let pairs: Vec<(String, u32)> = m.items().clone();
    assert_eq!(pairs, vec![("k".to_string(), 3), ("j".to_string(), 2)]);
    let from = StrMap::from_pairs(vec![("a".to_string(), 1), ("a".to_string(), 2)]);
    assert_eq!(from.len(), 1);
    assert_eq!(from.get("a"), Some(&2));
}

#[test]
fn config_change_drops_snapshots() {
    let mut cache = Cache::default();
    let hash = Cache::hash_config_content("{\"dashify\":true}");
    assert!(!cache.use_config(hash.clone()));
    cache.update_dir(DIR, snapshot(&[("a.txt", 5)]));
    assert!(cache.use_config(hash.clone()));
    assert!(cache.is_unchanged(DIR, Some(&snapshot(&[("a.txt", 5)]))));
    let other = Cache::hash_config_content("{\"dashify\":false}");
    assert!(!cache.use_config(other.clone()));
    assert_eq!(cache.config_hash, other);
    assert_eq!(cache.dirs.len(), 0);
    assert!(!cache.is_unchanged(DIR, Some(&snapshot(&[("a.txt", 5)]))));
}
