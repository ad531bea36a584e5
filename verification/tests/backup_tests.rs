use synclite::backup::{
    keep_newest, newest_first_order, BackupManager, BackupMetadata, RestoreError, RestoreSource,
};
use synclite::config::Config;

fn manager() -> BackupManager {
    BackupManager::new(Config::new("/home/u/docs".to_string(), "/dest".to_string(), "push".to_string()))
}

#[test]
fn backup_names_and_paths() {
    let m = manager();
    assert_eq!(BackupManager::backup_name("20250602_120000", &None), "20250602_120000");
    assert_eq!(
        BackupManager::backup_name("20250602_120000", &Some("before-update".to_string())),
        "20250602_120000_before-update"
    );
    assert_eq!(m.backup_dir(), "/home/u/docs/.synclite/backups");
    assert_eq!(m.backup_path("n", true), "/home/u/docs/.synclite/backups/n.tar.gz");
    assert_eq!(m.backup_path("n", false), "/home/u/docs/.synclite/backups/n");
    assert_eq!(m.metadata_path("n"), "/home/u/docs/.synclite/backups/n.json");
    let meta = BackupMetadata { name: "x".to_string(), timestamp: 0, compressed: true, tag: Some("t".to_string()) };
    assert_eq!(m.data_path(&meta), "/home/u/docs/.synclite/backups/x.tar.gz");
    assert!(meta.has_tag("t"));
    assert!(!meta.has_tag("u"));
}

#[test]
fn absolute_backup_location_replaces_source() {
    let mut c = Config::new("/home/u/docs".to_string(), "/dest".to_string(), "push".to_string());
    c.backup.location = "/var/backups".to_string();
    let m = BackupManager::new(c);
    assert_eq!(m.backup_dir(), "/var/backups");
}

#[test]
fn restore_targets() {
    let m = manager();
    let t = m.restore_targets("20250602_120000", None);
    assert_eq!(t.archive, "/home/u/docs/.synclite/backups/20250602_120000.tar.gz");
    assert_eq!(t.directory, "/home/u/docs/.synclite/backups/20250602_120000");
    assert_eq!(t.destination, "/home/u/docs");
    let t = m.restore_targets("x", Some("/tmp/r".to_string()));
    assert_eq!(t.destination, "/tmp/r");
}

#[test]
fn backups_left_out() {
    let m = manager();
    assert!(m.leaves_out("/home/u/docs/.synclite/backups/old/file"));
    assert!(m.leaves_out("/home/u/docs/.git/config"));
    assert!(m.leaves_out("/home/u/docs/x.tmp"));
    assert!(!m.leaves_out("/home/u/docs/notes.txt"));
}

#[test]
fn newest_first_is_a_stable_descending_order() {
    assert_eq!(newest_first_order(&vec![5, 9, 5, 1, 9]), vec![1, 4, 0, 2, 3]);
    assert_eq!(newest_first_order(&vec![]), Vec::<usize>::new());
}

#[test]
fn cleanup_removes_oldest_beyond_limit() {
    let mut c = Config::new("/s".to_string(), "/d".to_string(), "push".to_string());
    c.backup.max_backups = 2;
    let m = BackupManager::new(c);
    assert_eq!(m.backups_to_remove(&vec![30, 10, 20, 40]), vec![2, 1]);
    assert!(m.backups_to_remove(&vec![30, 10]).is_empty());
    assert_eq!(keep_newest(&vec![3, 1, 2], 0), vec![3, 1, 2]);
    assert!(!m.cleans_up());
}

fn record(name: &str, compressed: bool, tag: Option<&str>) -> BackupMetadata {
    BackupMetadata { name: name.to_string(), timestamp: 0, compressed, tag: tag.map(|t| t.to_string()) }
}

#[test]
fn restore_prefers_archive_then_directory() {
    let m = manager();
    let tagged = vec![record("other", true, Some("b1"))];
    assert_eq!(
        m.restore_source("b1", true, true, &tagged),
        Ok(RestoreSource::Archive("/home/u/docs/.synclite/backups/b1.tar.gz".to_string()))
    );
    assert_eq!(
        m.restore_source("b1", false, true, &tagged),
        Ok(RestoreSource::Directory("/home/u/docs/.synclite/backups/b1".to_string()))
    );
}

#[test]
fn restore_finds_first_backup_by_tag() {
    let m = manager();
    let records = vec![
        record("20250101_000000_x", true, Some("x")),
        record("20250102_000000_rel", false, Some("rel")),
        record("20250103_000000_rel", true, Some("rel")),
    ];
    assert_eq!(
        m.restore_source("rel", false, false, &records),
        Ok(RestoreSource::Directory("/home/u/docs/.synclite/backups/20250102_000000_rel".to_string()))
    );
    assert_eq!(
        m.restore_source("x", false, false, &records),
        Ok(RestoreSource::Archive("/home/u/docs/.synclite/backups/20250101_000000_x.tar.gz".to_string()))
    );
}

#[test]
fn restore_of_unknown_backup_fails() {
    let m = manager();
    let records = vec![record("n", false, None)];
    let err = m.restore_source("missing", false, false, &records).unwrap_err();
    assert_eq!(err, RestoreError::NotFound("missing".to_string()));
    assert_eq!(err.message(), "Backup not found: missing");
}
