use synclite::path::{file_name, join, starts_with_path, strip_path_prefix};
use synclite::scheduler::{cron_line, interval_line, next_step, schtasks_command, validate_cron, SchedulerStep};
use synclite::text::{contains, decimal_string, parse_u16, split_once_at, starts_with, trim_start_all};
use synclite::watcher::{should_ignore_event, FileWatcher, WatchAction, WatchInput, WatchState};
use synclite::config::Config;
use synclite::pattern::{glob_matches, glob_to_regex};

#[test]
fn file_names() {
    assert_eq!(file_name("/src/.git"), Some(".git".to_string()));
    assert_eq!(file_name("a/b/"), Some("b".to_string()));
    assert_eq!(file_name("a/b/."), Some("b".to_string()));
    assert_eq!(file_name("a/.."), None);
    assert_eq!(file_name("/"), None);
    assert_eq!(file_name(""), None);
    assert_eq!(file_name("."), None);
    assert_eq!(file_name("./x"), Some("x".to_string()));
    assert_eq!(file_name("..."), Some("...".to_string()));
}

#[test]
fn joins() {
    assert_eq!(join("/a", "b"), "/a/b");
    assert_eq!(join("/a/", "b"), "/a/b");
    assert_eq!(join("/a", "/b"), "/b");
    assert_eq!(join("", "b"), "b");
    assert_eq!(join("/a", ""), "/a/");
}

#[test]
fn component_prefixes() {
    assert!(starts_with_path("/a/b/c", "/a/b"));
    assert!(starts_with_path("/a//b/./c", "/a/b/"));
    assert!(!starts_with_path("/a/bc", "/a/b"));
    assert!(!starts_with_path("a/b", "/a"));
    assert!(!starts_with_path("./a", "a"));
    assert!(starts_with_path("./a", "."));
    assert!(starts_with_path("x", ""));
}

#[test]
fn text_helpers() {
    assert!(starts_with("s3://b", "s3://"));
    assert!(!starts_with("s3:", "s3://"));
    assert!(contains("hello", "ll"));
    assert!(contains("hello", ""));
    assert!(!contains("hello", "lo!"));
    assert_eq!(trim_start_all("///a/", "/"), "a/");
    assert_eq!(trim_start_all("///a/", ""), "///a/");
    assert_eq!(trim_start_all("abab-x", "ab"), "-x");
    assert_eq!(split_once_at("a:b:c", ':'), ("a".to_string(), Some("b:c".to_string())));
    assert_eq!(split_once_at("abc", ':'), ("abc".to_string(), None));
    assert_eq!(decimal_string(0), "0");
    assert_eq!(decimal_string(1234567890), "1234567890");
    assert_eq!(decimal_string(u64::MAX), u64::MAX.to_string());
    assert_eq!(parse_u16("22"), Some(22));
    assert_eq!(parse_u16("+7"), Some(7));
    assert_eq!(parse_u16("007"), Some(7));
    assert_eq!(parse_u16("65536"), None);
    assert_eq!(parse_u16(""), None);
    assert_eq!(parse_u16("+"), None);
    assert_eq!(parse_u16("-1"), None);
    assert_eq!(parse_u16("1a"), None);
    for s in ["0", "65535", "99999999999", "+65535", "12 ", "٣"] {
        assert_eq!(parse_u16(s), s.parse::<u16>().ok());
    }
}

#[test]
fn wildcard_patterns() {
    assert_eq!(glob_to_regex("*.tmp"), ".*\\.tmp");
    assert_eq!(glob_to_regex("a.b*c"), "a\\.b.*c");
    assert!(glob_matches("*.tmp", "test.tmp"));
    assert!(!glob_matches("*.tmp", "file.txt"));
    assert!(!glob_matches("*[", "x["));
}

#[test]
fn schedules() {
    let s = validate_cron("0 */30 * * * *").ok().unwrap();
    assert_eq!(s.source_text(), "0 */30 * * * *");
    assert_eq!(s.schedule().source(), "0 */30 * * * *");
    let err = validate_cron("not a cron").err().unwrap();
    assert!(err.message().starts_with("Invalid cron expression: "));
    let crate_error = "not a cron".parse::<cron::Schedule>().unwrap_err();
    assert_eq!(err.message(), format!("Invalid cron expression: {}", crate_error));
    assert_eq!(cron_line("0 0 * * * *", "/docs"), "0 0 * * * * cd /docs && synclite sync");
    assert_eq!(interval_line(30, "/docs"), "*/30 * * * * cd /docs && synclite sync");
    assert_eq!(
        schtasks_command("/docs", 30),
        "schtasks /create /tn SyncLite /tr \"cd /docs && synclite sync\" /sc minute /mo 30"
    );
    assert_eq!(next_step(Some(60)), SchedulerStep::SleepThenSync(60));
    assert_eq!(next_step(Some(-1)), SchedulerStep::SleepThenSync(u64::MAX));
    assert_eq!(next_step(None), SchedulerStep::Stop);
}

#[test]
fn watcher_ignores_and_debounces() {
    let config = Config::new("/src".to_string(), "/dest".to_string(), "push".to_string());
    assert!(should_ignore_event(&vec!["/src/.git/HEAD".to_string()], &config));
    assert!(should_ignore_event(&vec!["/src/a.txt".to_string(), "/src/.synclite/x".to_string()], &config));
    assert!(!should_ignore_event(&vec!["/src/a.txt".to_string()], &config));
    assert!(!should_ignore_event(&vec![], &config));

    let w = FileWatcher::new(config, 5);
    let s0 = FileWatcher::initial_state();
    assert!(!s0.pending_sync);
    let (s1, a1) = w.step(s0, &WatchInput::Changed(vec!["/src/a.txt".to_string()]));
    assert_eq!(a1, WatchAction::RecordChange);
    assert!(s1.pending_sync);
    let (s2, a2) = w.step(s1, &WatchInput::Changed(vec!["/src/.git/x".to_string()]));
    assert_eq!((s2, a2), (s1, WatchAction::Ignore));
    let (s3, a3) = w.step(s2, &WatchInput::Tick(4));
    assert_eq!((s3, a3), (s2, WatchAction::Wait));
    let (s4, a4) = w.step(s3, &WatchInput::Tick(5));
    assert_eq!(a4, WatchAction::Sync);
    assert_eq!(s4, WatchState { pending_sync: false });
    let (_, a5) = w.step(s4, &WatchInput::Tick(100));
    assert_eq!(a5, WatchAction::Wait);
}

#[test]
fn decimal_text_parses_back() {
    for n in [0u16, 7, 22, 1000, 65535] {
        assert_eq!(parse_u16(&decimal_string(n as u64)), Some(n));
    }
}

#[test]
fn watcher_ignores_glob_excluded_paths() {
    let config = Config::new("/src".to_string(), "/dest".to_string(), "push".to_string());
    assert!(config.should_exclude("/src/a.tmp"));
    assert!(should_ignore_event(&vec!["/src/a.tmp".to_string()], &config));
}

#[test]
fn paths_relative_to_a_base() {
    assert_eq!(strip_path_prefix("/src/dir/a.txt", "/src"), Some("dir/a.txt".to_string()));
    assert_eq!(strip_path_prefix("/src/dir/a.txt", "/src/"), Some("dir/a.txt".to_string()));
    assert_eq!(strip_path_prefix("/src//dir/./a.txt/", "/src"), Some("dir/a.txt".to_string()));
    assert_eq!(strip_path_prefix("/src", "/src"), Some("".to_string()));
    assert_eq!(strip_path_prefix("/a", ""), Some("/a".to_string()));
    assert_eq!(strip_path_prefix("/srcx/a", "/src"), None);
    assert_eq!(strip_path_prefix("src/a", "/src"), None);
}
