use gitka::config::Config;
use gitka::dirty::{dirty_log_path, format_age, has_dirty_log, DirtyAction, DirtyEntry, DirtyLog};
use gitka::workflow::{clear_after_sync, record_session, session_baseline};

#[test]
fn test_dirty_log_roundtrip() {
    let mut log = DirtyLog::default();
    log.record_unlock("test-repo");
    log.record_commit("test-repo", "abc123");
    log.record_file_touched("test-repo", "src/main.rs");

    // The entries that are saved load back into the same log.
    let saved: Vec<(String, DirtyEntry)> = log.entries.clone();
    let loaded = DirtyLog::from_entries(saved);
    assert!(loaded.is_dirty("test-repo"));
    assert_eq!(loaded.entries.len(), 1);

    let entry = loaded.get("test-repo").unwrap();
    assert_eq!(entry.action, DirtyAction::Unlock);
    assert_eq!(entry.commits, vec!["abc123"]);
    assert_eq!(entry.files_touched, vec!["src/main.rs"]);
}

#[test]
fn test_dirty_log_clear() {
    let mut log = DirtyLog::default();
    log.record_unlock("repo-a");
    log.record_serve("repo-b");

    assert!(!log.is_empty());
    assert_eq!(log.dirty_repos().len(), 2);

    log.clear_repo("repo-a");
    assert_eq!(log.dirty_repos().len(), 1);
    assert!(log.is_dirty("repo-b"));

    log.clear_all();
    assert!(log.is_empty());
}

#[test]
fn test_detect_orphaned() {
    let mut log = DirtyLog::default();
    log.record_unlock("tracked-repo");

    let extracted = vec!["tracked-repo".to_string(), "orphaned-repo".to_string()];

    let orphaned = log.detect_orphaned(&extracted);
    assert_eq!(orphaned, vec!["orphaned-repo"]);
}

#[test]
fn commits_and_files_recorded_once() {
    let mut log = DirtyLog::new();
    log.record_commit("clean", "c1");
    assert!(!log.is_dirty("clean"));
    log.record_unlock("r");
    log.record_commit("r", "c1");
    log.record_commit("r", "c1");
    log.record_commit("r", "c2");
    log.record_file_touched("r", "f");
    log.record_file_touched("r", "f");
    let e = log.get("r").unwrap();
    assert_eq!(e.commits, vec!["c1", "c2"]);
    assert_eq!(e.files_touched, vec!["f"]);
    assert_eq!(e.repo_name, "r");
}

#[test]
fn modified_marks_or_creates() {
    let mut log = DirtyLog::new();
    log.record_modified("new");
    assert_eq!(log.get("new").unwrap().action, DirtyAction::Modified);
    log.record_serve("s");
    log.record_commit("s", "x");
    log.record_modified("s");
    let e = log.get("s").unwrap();
    assert_eq!(e.action, DirtyAction::Modified);
    assert_eq!(e.commits, vec!["x"]);
    assert!(has_dirty_log(&log));
    assert_eq!(log.len(), 2);
}

#[test]
fn ages() {
    assert_eq!(format_age(0), "0s");
    assert_eq!(format_age(59), "59s");
    assert_eq!(format_age(60), "1m");
    assert_eq!(format_age(3599), "59m");
    assert_eq!(format_age(3600), "1h");
    assert_eq!(format_age(86399), "23h");
    assert_eq!(format_age(86400), "1d");
    assert_eq!(format_age(200000), "2d");
}

#[test]
fn summary_text() {
    let empty = DirtyLog::new();
    assert_eq!(empty.summary_at(0), "No dirty repos (clean session)");
    let mut log = DirtyLog::new();
    log.record_unlock("a");
    log.record_commit("a", "c1");
    log.record_file_touched("a", "f1");
    log.record_file_touched("a", "f2");
    let t = log.get("a").unwrap().timestamp;
    assert_eq!(log.summary_at(t + 125), "1 dirty repo(s):\n  a - Unlock (2m ago), 1 commits, 2 files");
    log.record_serve("b");
    let t2 = log.get("b").unwrap().timestamp;
    let text = log.summary_at(t2);
    assert!(text.starts_with("2 dirty repo(s):\n"));
    assert!(text.ends_with("\n  b - Serve (0s ago)"));
}

#[test]
fn log_path() {
    let mut config = Config::default();
    config.target.path = "/mnt/x".to_string();
    assert_eq!(dirty_log_path(&config), "/mnt/x/.gitka/dirty.toml");
}

#[test]
fn loaded_entries_keep_the_last_per_name() {
    let entry = |name: &str, ts: u64| DirtyEntry {
        repo_name: name.to_string(),
        action: DirtyAction::Serve,
        timestamp: ts,
        commits: vec![],
        files_touched: vec![],
    };
    let log = DirtyLog::from_entries(vec![
        ("a".to_string(), entry("a", 1)),
        ("b".to_string(), entry("b", 2)),
        ("a".to_string(), entry("a", 3)),
    ]);
    assert_eq!(log.len(), 2);
    assert!(log.is_dirty("a") && log.is_dirty("b"));
    assert_eq!(log.get("a").unwrap().timestamp, 3);
}

#[test]
fn lock_session_audit_trail() {
    let mut log = DirtyLog::new();
    log.record_unlock("r");
    assert_eq!(session_baseline(&mut log, "r", "abc"), None);
    assert_eq!(session_baseline(&mut log, "r", "def"), Some("abc".to_string()));
    let touched = vec!["f1".to_string(), "f1".to_string(), "f2".to_string()];
    let summary = record_session(&mut log, "r", vec!["def second".to_string()], &touched);
    assert_eq!(summary, vec!["def second".to_string()]);
    let e = log.get("r").unwrap();
    assert_eq!(e.action, DirtyAction::Modified);
    assert_eq!(e.commits, vec!["abc".to_string(), "def".to_string()]);
    assert_eq!(e.files_touched, vec!["f1".to_string(), "f2".to_string()]);
    let mut clean = DirtyLog::new();
    assert_eq!(session_baseline(&mut clean, "x", "abc"), None);
    assert!(record_session(&mut clean, "x", Vec::new(), &touched).is_empty());
    assert!(clean.is_empty());
}

#[test]
fn partial_sync_clears_only_the_synced() {
    let mut log = DirtyLog::new();
    log.record_unlock("a");
    log.record_unlock("b");
    log.record_serve("c");
    clear_after_sync(&mut log, true, &vec!["a".to_string(), "c".to_string()]);
    assert!(!log.is_dirty("a"));
    assert!(log.is_dirty("b"));
    assert!(!log.is_dirty("c"));
    clear_after_sync(&mut log, false, &Vec::new());
    assert!(log.is_empty());
}
