use synclite::config::{config_file_path, BackupConfig, Config, DestinationType};

fn config_with(dest: &str) -> Config {
    Config::new("/src".to_string(), dest.to_string(), "push".to_string())
}

#[test]
fn test_parse_s3_dest() {
    let config = Config::new(
        "/src".to_string(),
        "s3://mybucket/prefix/path".to_string(),
        "push".to_string(),
    );

    let (bucket, prefix) = config.parse_s3_dest().unwrap();
    assert_eq!(bucket, "mybucket");
    assert_eq!(prefix, "prefix/path");
}

#[test]
fn test_should_exclude() {
    let config = Config::new("/src".to_string(), "/dest".to_string(), "push".to_string());

    assert!(config.should_exclude("/src/.git"));
    assert!(config.should_exclude("/src/test.tmp"));
    assert!(!config.should_exclude("/src/file.txt"));
}

#[test]
fn new_config_has_documented_defaults() {
    let config = Config::new("/home/user/docs".to_string(), "/backup".to_string(), "push".to_string());
    assert_eq!(config.source, "/home/user/docs");
    assert_eq!(config.destination, "/backup");
    assert_eq!(config.mode, "push");
    assert_eq!(
        config.exclude,
        vec![".git", ".synclite", "node_modules", "target", ".DS_Store", "*.tmp", "*.log"]
    );
    assert_eq!(config.conflict_strategy, "timestamp");
    assert!(config.compression);
    assert_eq!(config.concurrency, 4);
    assert!(config.s3.is_none());
    assert!(config.sftp.is_none());
    assert!(config.backup.enabled);
    assert_eq!(config.backup.location, ".synclite/backups");
    assert_eq!(config.backup.max_backups, 10);
    assert!(!config.backup.auto_cleanup);
    assert!(config.options.is_empty());
}

#[test]
fn backup_config_default_values() {
    let b = BackupConfig::default();
    assert!(b.enabled);
    assert_eq!(b.location, ".synclite/backups");
    assert_eq!(b.max_backups, 10);
    assert!(!b.auto_cleanup);
}

#[test]
fn destination_types() {
    assert_eq!(config_with("s3://bucket").destination_type(), DestinationType::S3);
    assert_eq!(config_with("sftp://host").destination_type(), DestinationType::Sftp);
    assert_eq!(config_with("/backup/docs").destination_type(), DestinationType::Local);
    assert_eq!(config_with("S3://bucket").destination_type(), DestinationType::Local);
    assert!(config_with("s3://x").is_s3());
    assert!(!config_with("s3:/x").is_s3());
    assert!(config_with("sftp://x").is_sftp());
    assert!(!config_with("sftp:/x").is_sftp());
}

#[test]
fn s3_dest_without_prefix_and_repeated_scheme() {
    let (bucket, prefix) = config_with("s3://bucket").parse_s3_dest().unwrap();
    assert_eq!(bucket, "bucket");
    assert_eq!(prefix, "");
    let (bucket, prefix) = config_with("s3://s3://b/p/q").parse_s3_dest().unwrap();
    assert_eq!(bucket, "b");
    assert_eq!(prefix, "p/q");
    let (bucket, prefix) = config_with("s3://").parse_s3_dest().unwrap();
    assert_eq!(bucket, "");
    assert_eq!(prefix, "");
    assert!(config_with("/local").parse_s3_dest().is_none());
}

#[test]
fn sftp_dest_parsing() {
    let (host, port, path) = config_with("sftp://user@host:2222/backup").parse_sftp_dest().unwrap();
    assert_eq!(host, "user@host");
    assert_eq!(port, 2222);
    assert_eq!(path, "/backup");

    let (host, port, path) = config_with("sftp://host").parse_sftp_dest().unwrap();
    assert_eq!(host, "host");
    assert_eq!(port, 22);
    assert_eq!(path, "/");

    let (_, port, _) = config_with("sftp://host:notaport/x").parse_sftp_dest().unwrap();
    assert_eq!(port, 22);
    let (_, port, _) = config_with("sftp://host:70000/x").parse_sftp_dest().unwrap();
    assert_eq!(port, 22);
    let (_, port, _) = config_with("sftp://host:+21/x").parse_sftp_dest().unwrap();
    assert_eq!(port, 21);
    let (_, port, _) = config_with("sftp://host:/x").parse_sftp_dest().unwrap();
    assert_eq!(port, 22);
    let (_, port, _) = config_with("sftp://host:65535").parse_sftp_dest().unwrap();
    assert_eq!(port, 65535);
    assert!(config_with("s3://x").parse_sftp_dest().is_none());
}

#[test]
fn exclude_matches_by_name_substring_and_wildcard() {
    let config = config_with("/dest");
    assert!(config.should_exclude("/src/node_modules/pkg/index.js"));
    assert!(config.should_exclude("/src/a/debug.log"));
    assert!(config.should_exclude("/src/.DS_Store"));
    assert!(!config.should_exclude("/src/logs/readme.md"));
    assert!(config.should_exclude("/src/targeted.rs"));
    assert!(config.should_exclude("/src/a.tmpx"));
    assert!(config.should_exclude("/src/x.tmp/"));
}

#[test]
fn exclude_wildcard_with_regex_metacharacters() {
    let mut config = config_with("/dest");
    config.exclude = vec!["*(".to_string()];
    assert!(!config.should_exclude("/src/a("));
    config.exclude = vec!["a*b".to_string()];
    assert!(config.should_exclude("/src/xaYYb"));
    assert!(!config.should_exclude("/src/ba"));
    config.exclude = vec![];
    assert!(!config.should_exclude("/src/.git"));
}

#[test]
fn config_file_defaults_to_synclite_toml() {
    assert_eq!(config_file_path(None), "synclite.toml");
    assert_eq!(config_file_path(Some("my.toml".to_string())), "my.toml");
}

#[test]
fn config_copy_is_equal() {
    let mut config = config_with("s3://b/p");
    config.options.push(("k".to_string(), "1".to_string()));
    let c = config.copy();
    assert_eq!(c.source, config.source);
    assert_eq!(c.destination, config.destination);
    assert_eq!(c.exclude, config.exclude);
    assert_eq!(c.options, config.options);
}

#[test]
fn readme_sftp_destination() {
    let c = Config::new("/src".to_string(), "sftp://user@host:22/backup".to_string(), "push".to_string());
    assert_eq!(c.parse_sftp_dest(), Some(("user@host".to_string(), 22, "/backup".to_string())));
}
