use synclite::config::Config;
use synclite::storage::{LocalStorage, S3Storage, StorageError, StorageFactory, StorageTarget};

#[test]
fn local_paths_resolve_under_base() {
    let s = LocalStorage::new("/backup".to_string());
    assert_eq!(s.resolve_path("a/b.txt"), "/backup/a/b.txt");
    assert_eq!(s.resolve_path("//a"), "/backup/a");
    assert_eq!(s.resolve_path(""), "/backup/");
    let t = LocalStorage::new("/backup/".to_string());
    assert_eq!(t.resolve_path("/x"), "/backup/x");
    let e = LocalStorage::new(String::new());
    assert_eq!(e.resolve_path("x"), "x");
    assert_eq!(s.base_path(), "/backup");
}

#[test]
fn s3_keys_and_region() {
    let mut config = Config::new("/src".to_string(), "s3://bucket/pre".to_string(), "push".to_string());
    let s = S3Storage::new(&config).unwrap();
    assert_eq!(s.bucket(), "bucket");
    assert_eq!(s.prefix(), "pre");
    assert_eq!(s.region(), "us-east-1");
    assert_eq!(s.resolve_key("/a/b"), "pre/a/b");
    config.destination = "s3://bucket".to_string();
    let s = S3Storage::new(&config).unwrap();
    assert_eq!(s.resolve_key("/a/b"), "a/b");
    config.destination = "/local".to_string();
    assert!(matches!(S3Storage::new(&config), Err(StorageError::InvalidS3Destination)));
    assert_eq!(StorageError::InvalidS3Destination.message(), "Invalid S3 destination");
}

#[test]
fn factory_picks_destination_kind() {
    let c = Config::new("/src".to_string(), "/backup/docs".to_string(), "push".to_string());
    match StorageFactory::create(&c) {
        Ok(StorageTarget::Local(l)) => assert_eq!(l.base_path(), "/backup/docs"),
        _ => panic!("expected local storage"),
    }
    let c = Config::new("/src".to_string(), "s3://b/p".to_string(), "push".to_string());
    assert!(matches!(StorageFactory::create(&c), Ok(StorageTarget::S3(_))));
    let c = Config::new("/src".to_string(), "sftp://host/p".to_string(), "push".to_string());
    match StorageFactory::create(&c) {
        Ok(StorageTarget::Sftp(s)) => assert_eq!(s.config().destination, "sftp://host/p"),
        _ => panic!("expected sftp storage"),
    }
}
