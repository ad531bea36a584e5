use synclite::config::Config;
use synclite::hash::FileInfo;
use synclite::storage::FileEntry;
use synclite::sync::{
    count_operations, sync_outcome, total_local_size, total_remote_size, ConflictResolution,
    SyncEngine, SyncMode, SyncOp, SyncOutcome, Transfer,
};

fn engine(mode: &str) -> SyncEngine {
    SyncEngine::new(Config::new("/src".to_string(), "/dest".to_string(), mode.to_string()))
}

fn local(path: &str, size: u64, modified: i128) -> (String, FileInfo) {
    let mut info = FileInfo::from_contents(format!("/src/{}", path), size, modified, "t", b"");
    info.size = size;
    (path.to_string(), info)
}

fn remote(path: &str, size: u64, modified: Option<i128>) -> FileEntry {
    FileEntry { path: path.to_string(), size, modified, is_directory: false, hash: None }
}

fn remote_with_hash(path: &str, size: u64, hash: &str) -> FileEntry {
    FileEntry {
        path: path.to_string(),
        size,
        modified: Some(0),
        is_directory: false,
        hash: Some(hash.to_string()),
    }
}

fn local_with_contents(path: &str, contents: &[u8]) -> (String, FileInfo) {
    let info = FileInfo::from_contents(
        format!("/src/{}", path),
        contents.len() as u64,
        0,
        "t",
        contents,
    );
    (path.to_string(), info)
}

#[test]
fn mode_names() {
    assert_eq!(engine("push").mode(), SyncMode::Push);
    assert_eq!(engine("pull").mode(), SyncMode::Pull);
    assert_eq!(engine("bidirectional").mode(), SyncMode::Bidirectional);
    assert_eq!(engine("anything").mode(), SyncMode::Bidirectional);
}

#[test]
fn push_plan() {
    let l = vec![local("a", 1, 0), local("b", 2, 0), local("c", 3, 0)];
    let r = vec![remote("b", 2, None), remote("c", 4, None), remote("d", 1, None), remote("d", 5, None)];
    let ops = engine("push").determine_operations(&l, &r, false);
    assert_eq!(
        ops,
        vec![
            SyncOp::Upload("a".to_string()),
            SyncOp::Conflict("c".to_string(), ConflictResolution::KeepLocal),
            SyncOp::DeleteRemote("d".to_string()),
        ]
    );
    let ops = engine("push").determine_operations(&l, &r, true);
    assert_eq!(
        ops,
        vec![
            SyncOp::Upload("a".to_string()),
            SyncOp::Upload("c".to_string()),
            SyncOp::DeleteRemote("d".to_string()),
        ]
    );
}

#[test]
fn push_compares_with_last_remote_entry() {
    let l = vec![local("x", 5, 0)];
    let r = vec![remote("x", 1, None), remote("x", 5, None)];
    assert!(engine("push").determine_operations(&l, &r, false).is_empty());
}

#[test]
fn pull_plan() {
    let l = vec![local("a", 1, 0), local("b", 2, 0), local("c", 3, 0)];
    let r = vec![remote("b", 2, None), remote("c", 4, None), remote("d", 1, None)];
    let ops = engine("pull").determine_operations(&l, &r, false);
    assert_eq!(
        ops,
        vec![
            SyncOp::Conflict("c".to_string(), ConflictResolution::KeepRemote),
            SyncOp::Download("d".to_string()),
            SyncOp::DeleteLocal("a".to_string()),
        ]
    );
    let ops = engine("pull").determine_operations(&l, &r, true);
    assert_eq!(ops[0], SyncOp::Download("c".to_string()));
}

#[test]
fn bidirectional_plan_uses_timestamps() {
    let l = vec![
        local("newer", 1, 200),
        local("older", 1, 100),
        local("same", 1, 150),
        local("unknown", 1, 150),
        local("equal", 9, 1),
        local("only_local", 1, 0),
    ];
    let r = vec![
        remote("newer", 2, Some(100)),
        remote("older", 2, Some(200)),
        remote("same", 2, Some(150)),
        remote("unknown", 2, None),
        remote("equal", 9, Some(5)),
        remote("only_remote", 3, None),
    ];
    let ops = engine("bidirectional").determine_operations(&l, &r, false);
    assert_eq!(
        ops,
        vec![
            SyncOp::Upload("newer".to_string()),
            SyncOp::Download("older".to_string()),
            SyncOp::Conflict("same".to_string(), ConflictResolution::KeepBoth),
            SyncOp::Conflict("unknown".to_string(), ConflictResolution::KeepBoth),
            SyncOp::Upload("only_local".to_string()),
            SyncOp::Download("only_remote".to_string()),
        ]
    );
    let forced = engine("bidirectional").determine_operations(&l, &r, true);
    assert_eq!(forced[2], SyncOp::Upload("same".to_string()));
    assert_eq!(forced[3], SyncOp::Upload("unknown".to_string()));
}

#[test]
fn in_sync_means_empty_plan() {
    let l = vec![local("a", 1, 0), local("b", 2, 0)];
    let r = vec![remote("b", 2, None), remote("a", 1, Some(99))];
    for mode in ["push", "pull", "bidirectional"] {
        assert!(engine(mode).determine_operations(&l, &r, false).is_empty());
        assert!(engine(mode).determine_operations(&l, &r, true).is_empty());
    }
    assert!(engine("push").determine_operations(&vec![], &vec![], false).is_empty());
}

#[test]
fn counts_of_each_kind() {
    let ops = vec![
        SyncOp::Upload("a".to_string()),
        SyncOp::Upload("b".to_string()),
        SyncOp::Download("c".to_string()),
        SyncOp::DeleteLocal("d".to_string()),
        SyncOp::DeleteRemote("e".to_string()),
        SyncOp::Conflict("f".to_string(), ConflictResolution::KeepBoth),
        SyncOp::Skip("g".to_string(), "why".to_string()),
    ];
    let c = count_operations(&ops);
    assert_eq!((c.uploads, c.downloads, c.deletes, c.conflicts), (2, 1, 2, 1));
}

#[test]
fn transfers_resolve_local_paths() {
    let e = engine("push");
    match e.transfer_for(&SyncOp::Upload("dir/a.txt".to_string())) {
        Transfer::Upload { local, remote, report_failure } => {
            assert_eq!(local, "/src/dir/a.txt");
            assert_eq!(remote, "dir/a.txt");
            assert!(report_failure);
        }
        _ => panic!("expected an upload"),
    }
    match e.transfer_for(&SyncOp::Conflict("a".to_string(), ConflictResolution::KeepRemote)) {
        Transfer::Download { remote, local, report_failure } => {
            assert_eq!(remote, "a");
            assert_eq!(local, "/src/a");
            assert!(!report_failure);
        }
        _ => panic!("expected a download"),
    }
    match e.transfer_for(&SyncOp::Conflict("a".to_string(), ConflictResolution::KeepBoth)) {
        Transfer::SetAsideThenDownload { local, set_aside, remote } => {
            assert_eq!(local, "/src/a");
            assert_eq!(set_aside, "/src/a.local");
            assert_eq!(remote, "a");
        }
        _ => panic!("expected keep-both"),
    }
    match e.transfer_for(&SyncOp::DeleteLocal("/abs".to_string())) {
        Transfer::RemoveLocal { local } => assert_eq!(local, "/abs"),
        _ => panic!("expected a local removal"),
    }
    match e.transfer_for(&SyncOp::DeleteRemote("r".to_string())) {
        Transfer::RemoveRemote { remote } => assert_eq!(remote, "r"),
        _ => panic!("expected a remote removal"),
    }
    assert!(matches!(e.transfer_for(&SyncOp::Skip("s".to_string(), "w".to_string())), Transfer::Nothing));
}

#[test]
fn sizes_and_outcomes() {
    let l = vec![local("a", 10, 0), local("b", 32, 0)];
    assert_eq!(total_local_size(&l), Some(42));
    let r = vec![remote("a", u64::MAX, None), remote("b", 1, None)];
    assert_eq!(total_remote_size(&r), None);
    assert_eq!(total_remote_size(&vec![]), Some(0));
    assert_eq!(sync_outcome(0, true), SyncOutcome::UpToDate);
    assert_eq!(sync_outcome(3, true), SyncOutcome::DryRun);
    assert_eq!(sync_outcome(3, false), SyncOutcome::Execute);
}

#[test]
fn same_size_changed_contents_are_detected_by_hash() {
    let l = vec![local_with_contents("a.txt", b"new!")];
    let old_digest = synclite::hash::calculate_bytes_hash(b"old!");
    let r = vec![remote_with_hash("a.txt", 4, &old_digest)];
    assert_eq!(
        engine("push").determine_operations(&l, &r, true),
        vec![SyncOp::Upload("a.txt".to_string())]
    );
    assert_eq!(
        engine("push").determine_operations(&l, &r, false),
        vec![SyncOp::Conflict("a.txt".to_string(), ConflictResolution::KeepLocal)]
    );
    assert_eq!(
        engine("pull").determine_operations(&l, &r, true),
        vec![SyncOp::Download("a.txt".to_string())]
    );
    let new_digest = synclite::hash::calculate_bytes_hash(b"new!");
    let same = vec![remote_with_hash("a.txt", 4, &new_digest)];
    for mode in ["push", "pull", "bidirectional"] {
        assert!(engine(mode).determine_operations(&l, &same, true).is_empty());
    }
}

#[test]
fn unknown_remote_digest_falls_back_to_size() {
    let l = vec![local_with_contents("a.txt", b"new!")];
    let r = vec![remote("a.txt", 4, None)];
    assert!(engine("push").determine_operations(&l, &r, true).is_empty());
}
