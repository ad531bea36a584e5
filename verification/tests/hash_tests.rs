use synclite::hash::{calculate_bytes_hash, calculate_quick_hash, FileInfo, HashCache};

#[test]
fn test_calculate_bytes_hash() {
    let hash1 = calculate_bytes_hash(b"hello");
    let hash2 = calculate_bytes_hash(b"hello");
    let hash3 = calculate_bytes_hash(b"world");

    assert_eq!(hash1, hash2);
    assert_ne!(hash1, hash3);
    assert_eq!(hash1.len(), 64); // SHA256 hex string length
}

#[test]
fn bytes_hash_known_values() {
    assert_eq!(
        calculate_bytes_hash(b"hello"),
        "2cf24dba5fb0a30e26e83b2ac5b9e29e1b161e5c1fa7425e73043362938b9824"
    );
    assert_eq!(
        calculate_bytes_hash(b""),
        "e3b0c44298fc1c149afbf4c8996fb92427ae41e4649b934ca495991b7852b855"
    );
}

#[test]
fn quick_hash_is_hash_of_path_size_and_time() {
    let q = calculate_quick_hash("/a/b.txt", 12, "SystemTime { tv_sec: 1, tv_nsec: 2 }");
    assert_eq!(q, calculate_bytes_hash("/a/b.txt:12:SystemTime { tv_sec: 1, tv_nsec: 2 }".as_bytes()));
    assert_ne!(q, calculate_quick_hash("/a/b.txt", 13, "SystemTime { tv_sec: 1, tv_nsec: 2 }"));
    assert_eq!(calculate_quick_hash("é", 0, "t"), calculate_bytes_hash("é:0:t".as_bytes()));
}

fn info(path: &str, contents: &[u8], modified: &str) -> FileInfo {
    FileInfo::from_contents(path.to_string(), contents.len() as u64, 7, modified, contents)
}

#[test]
fn file_info_comparisons() {
    let a = info("/f", b"abc", "t1");
    let b = info("/f", b"abc", "t2");
    let c = info("/f", b"abd", "t1");
    assert!(a.has_changed(&b));
    assert!(!a.has_changed(&c));
    assert!(a.is_identical(&b));
    assert!(!a.is_identical(&c));
    assert_eq!(a.hash, calculate_bytes_hash(b"abc"));
    assert_eq!(a.size, 3);
    assert_eq!(a.modified, 7);
}

#[test]
fn hash_cache_get_insert_and_change() {
    let mut cache = HashCache::new();
    assert!(cache.get("/f").is_none());
    let a = info("/f", b"abc", "t1");
    assert!(cache.is_changed("/f", &a));
    cache.insert("/f".to_string(), a.copy());
    assert_eq!(cache.get("/f").unwrap().hash, a.hash);
    assert!(!cache.is_changed("/f", &a));
    let b = info("/f", b"abc", "t2");
    assert!(cache.is_changed("/f", &b));
    cache.insert("/g".to_string(), b.copy());
    assert_eq!(cache.entries().len(), 2);
    cache.insert("/f".to_string(), b.copy());
    assert_eq!(cache.entries().len(), 2);
    assert_eq!(cache.get("/f").unwrap().quick_hash, b.quick_hash);
    assert!(!cache.is_changed("/f", &b));
}
