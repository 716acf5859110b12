use gitka::config::{CompressionTier, Config, RepoConfig, SolidMode};
use gitka::workflow::{check_archive, ArchiveCheck};
use gitka::dirty::{DirtyAction, DirtyEntry};
use gitka::encryption::{decrypt_parts, encrypt_parts};
use gitka::error::GitkaError;
use gitka::repo::{RepoMeta, RepoState};
use gitka::sync::SyncStatus;
use gitka::workflow::{
    archive_file_name, cloned_meta, commit_line, config_candidates, config_file_path, dictionary_path,
    full_archive_meta, import_name, imported_meta, init_config, init_directories, not_a_repository_error,
    plan_remote_sync, record_compression, record_lock, recovery_marker, register_import, select_named,
    session_line, session_text, stale_parts, sync_report, unlock_check, use_full_archive, verified_line,
    wizard_config, InitAnswers, RemoteAction,
};
use gitka::writer::CompressResult;

fn result(parts: &[&str]) -> CompressResult {
    CompressResult {
        total_size: 300,
        volume_count: parts.len() as u32,
        part_files: parts.iter().map(|s| s.to_string()).collect(),
        dedup_bytes_saved: 12,
        dedup_files_skipped: 1,
    }
}

fn meta(name: &str, state: RepoState, path: Option<&str>) -> RepoMeta {
    let mut m = cloned_meta(name, 10);
    m.state = state;
    m.extraction_path = path.map(|p| p.to_string());
    m
}

#[test]
fn drive_layout() {
    assert_eq!(
        init_directories("/mnt/usb", true),
        vec![
            "/mnt/usb/repos/archive",
            "/mnt/usb/extract",
            "/mnt/usb/tools/gitflare",
            "/mnt/usb/tools/recovery",
            "/mnt/usb/recovery-data",
            "/mnt/usb/.gitka/logs",
            "/mnt/usb/.gitka/repos",
            "/mnt/usb/.gitka/dedup-store",
        ]
    );
    assert_eq!(init_directories("/mnt/usb", false).len(), 7);
    assert_eq!(config_file_path("/mnt/usb"), "/mnt/usb/.gitka/gitka.toml");
    assert_eq!(
        config_candidates("/work", "/home/me"),
        vec!["/work/gitka.toml", "/work/.gitka/gitka.toml", "/home/me/.gitka/gitka.toml"]
    );
}

#[test]
fn init_configurations() {
    let c = init_config("/mnt/usb", "github", Some("alice"), Some("tok"), Some("ignored"), Some(700), Some(false)).unwrap();
    assert_eq!(c.target.path, "/mnt/usb");
    assert_eq!(c.source.github_username.as_deref(), Some("alice"));
    assert!(c.source.gitflare_url.is_none());
    assert_eq!(c.source.auth_token.as_deref(), Some("tok"));
    assert_eq!(c.compression.volume_splitting.unwrap().size_mb, 700);
    assert!(!c.compression.dedup);
    let g = init_config("/t", "gitflare", Some("ignored"), None, Some("http://g"), None, None).unwrap();
    assert_eq!(g.source.gitflare_url.as_deref(), Some("http://g"));
    assert!(g.source.github_username.is_none());
    assert!(g.compression.dedup);
    match init_config("/t", "gitlab", None, None, None, None, None) {
        Err(GitkaError::Config(m)) => assert_eq!(m, "Unknown source type: gitlab"),
        _ => panic!(),
    }
}

fn answers(source: &str, tier: &str, vol: &str, dedup: &str, rec: &str, enc: &str) -> InitAnswers {
    InitAnswers {
        source: source.into(),
        username: " bob \n".into(),
        token: "\n".into(),
        gitflare_url: "http://g\n".into(),
        tier: tier.into(),
        volume_size: vol.into(),
        dedup: dedup.into(),
        recovery_records: rec.into(),
        encryption: enc.into(),
    }
}

#[test]
fn setup_wizard() {
    let (c, unknown) = wizard_config("/t", &answers("\n", "high\n", "4096\n", "\n", "Y\n", "n\n"));
    assert!(!unknown);
    assert_eq!(c.source.github_username.as_deref(), Some("bob"));
    assert!(c.source.auth_token.is_none());
    assert_eq!(c.compression.tier, CompressionTier::High);
    assert_eq!(c.compression.volume_splitting.unwrap().size_mb, 4096);
    assert!(c.compression.dedup);
    assert!(c.toggles.recovery_records);
    assert!(!c.toggles.encryption);
    let (c, unknown) = wizard_config("/t", &answers("gitflare", "weird", "zero", "N", "yes", "y"));
    assert!(!unknown);
    assert_eq!(c.source.gitflare_url.as_deref(), Some("http://g"));
    assert_eq!(c.compression.tier, CompressionTier::Auto);
    assert!(c.compression.volume_splitting.is_none());
    assert!(!c.compression.dedup);
    assert!(!c.toggles.recovery_records);
    assert!(c.toggles.encryption);
    let (c, unknown) = wizard_config("/t", &answers("svn", "", "0", "", "", ""));
    assert!(unknown);
    assert!(c.source.github_username.is_none() && c.source.gitflare_url.is_none());
}

#[test]
fn selection_and_sync_plans() {
    let all: Vec<String> = vec!["a".into(), "b".into(), "c".into()];
    assert_eq!(select_named(&all, None), vec![0, 1, 2]);
    let wanted: Vec<String> = vec!["c".into(), "a".into(), "zz".into()];
    assert_eq!(select_named(&all, Some(&wanted)), vec![0, 2]);

    let mut config = Config::default();
    config.repos.push(RepoConfig { name: "deep".into(), workspace_eligible: true, full_history: true, last_synced: None });
    let archived = meta("r", RepoState::Archived, None);
    assert!(matches!(plan_remote_sync(&config, "r", false, false, Some(&archived)), Ok(RemoteAction::SkipUnmodified)));
    assert!(matches!(plan_remote_sync(&config, "r", true, false, Some(&archived)), Ok(RemoteAction::SkipArchived)));
    assert!(matches!(plan_remote_sync(&config, "r", false, true, Some(&archived)), Ok(RemoteAction::SkipArchived)));
    let open = meta("r", RepoState::ExtractedLocal, Some("/x/r"));
    assert!(matches!(plan_remote_sync(&config, "r", false, false, Some(&open)), Ok(RemoteAction::Update(p)) if p == "/x/r"));
    let lost = meta("r", RepoState::ExtractedServed, None);
    match plan_remote_sync(&config, "r", false, false, Some(&lost)) {
        Err(GitkaError::Extraction(m)) => assert_eq!(m, "No extraction path for r"),
        _ => panic!(),
    }
    assert!(matches!(plan_remote_sync(&config, "deep", false, false, None), Ok(RemoteAction::Clone { shallow: false })));
    assert!(matches!(plan_remote_sync(&config, "new", false, false, None), Ok(RemoteAction::Clone { shallow: true })));
    assert!(use_full_archive(SolidMode::FullArchive, 2));
    assert!(!use_full_archive(SolidMode::FullArchive, 1));
    assert!(!use_full_archive(SolidMode::PerRepo, 5));
}

#[test]
fn recorded_metadata() {
    assert_eq!(archive_file_name("p"), "p.gitka.zst");
    let mut m = cloned_meta("p", 77);
    assert_eq!(m.archive_path, "p.gitka.zst");
    assert_eq!(m.decompressed_size, Some(77));
    record_compression(&mut m, result(&["p.gitka.zst", "p.gitka.zst.002"]), "h1".into(), true);
    assert_eq!((m.archive_size, m.volume_count, m.dedup_bytes_saved), (300, 2, 12));
    assert_eq!(m.archive_hash.as_deref(), Some("h1"));
    assert!(m.dedup_enabled);
    assert_eq!(m.decompressed_size, Some(77));
    let f = full_archive_meta("q", "h2".into(), result(&["full-archive.gitka.zst"]), false);
    assert_eq!(f.archive_path, "full-archive.gitka.zst");
    assert!(f.decompressed_size.is_none());
    let i = imported_meta("imp", "h3".into(), result(&["imp.gitka.zst"]), 5, true);
    assert_eq!(i.archive_path, "imp.gitka.zst");
    assert_eq!(i.decompressed_size, Some(5));
    let mut l = meta("lockme", RepoState::ExtractedLocal, Some("/e"));
    l.archive_path = "old.zst".into();
    record_lock(&mut l, "lockme", "h4".into(), result(&["lockme.gitka.zst"]), false);
    assert_eq!(l.state, RepoState::Archived);
    assert_eq!(l.archive_path, "lockme.gitka.zst");
    assert!(l.extraction_path.is_none());
    assert_eq!(l.archive_hash.as_deref(), Some("h4"));
}

#[test]
fn unlock_and_import_checks() {
    let mut config = Config::default();
    config.repos.push(RepoConfig { name: "ro".into(), workspace_eligible: false, full_history: true, last_synced: None });
    assert!(unlock_check(&config, &meta("free", RepoState::Archived, None), "free").is_ok());
    match unlock_check(&config, &meta("ro", RepoState::Archived, None), "ro") {
        Err(GitkaError::NotWorkspaceEligible(n)) => assert_eq!(n, "ro"),
        _ => panic!(),
    }
    match unlock_check(&config, &meta("x", RepoState::ExtractedLocal, Some("/x")), "x") {
        Err(GitkaError::AlreadyExtracted(n)) => assert_eq!(n, "x"),
        _ => panic!(),
    }
    assert_eq!(import_name(Some("given"), Some("dir")).unwrap(), "given");
    assert_eq!(import_name(None, Some("dir")).unwrap(), "dir");
    match import_name(None, None) {
        Err(GitkaError::Config(m)) => assert_eq!(m, "Invalid repo path"),
        _ => panic!(),
    }
    match not_a_repository_error("/tmp/x") {
        GitkaError::Config(m) => assert_eq!(m, "Not a git repository: /tmp/x"),
        _ => panic!(),
    }
    assert!(register_import(&mut config, "newone"));
    assert_eq!(config.repos.len(), 2);
    assert!(config.repos[1].workspace_eligible && config.repos[1].full_history);
    assert!(!register_import(&mut config, "ro"));
    assert_eq!(config.repos.len(), 2);
}

#[test]
fn lock_and_status_texts() {
    let kept = vec!["p.gitka.zst".to_string(), "p.gitka.zst.002".to_string()];
    assert_eq!(stale_parts("p.gitka.zst", 4, &kept), vec!["p.gitka.zst.003", "p.gitka.zst.004"]);
    assert!(stale_parts("p.gitka.zst", 1, &kept).is_empty());
    assert_eq!(
        commit_line("0123456789abcdef0123456789abcdef01234567", "Fix bug"),
        "01234567 Fix bug"
    );
    let e = DirtyEntry {
        repo_name: "r".into(),
        action: DirtyAction::Unlock,
        timestamp: 1000,
        commits: vec!["a".into(), "b".into(), "c".into()],
        files_touched: vec!["x".into()],
    };
    assert_eq!(session_text(&e, 1000 + 7200), "unlocked 2h (2 commits, 1 files)");
    assert_eq!(session_line("r", &e, 1030), "  r \u{2014} unlocked (30s, 2 commits, 1 files touched)");
    let only_files = DirtyEntry { commits: vec!["a".into()], ..e.clone() };
    assert_eq!(session_text(&only_files, 1000), "unlocked 0s, 1 files");
    assert_eq!(session_line("r", &only_files, 1000), "  r \u{2014} unlocked (0s, 1 files touched)");
    let nothing = DirtyEntry { commits: vec![], files_touched: vec![], ..e.clone() };
    assert_eq!(session_text(&nothing, 1000), "unlocked 0s");
    let e2 = DirtyEntry { files_touched: vec![], action: DirtyAction::Serve, ..e.clone() };
    assert_eq!(session_line("r", &e2, 500), "  r \u{2014} serving (0s, 2 commits)");
    assert_eq!(sync_report(&SyncStatus::Ahead(3)), "  Pushed 3 commits");
    assert_eq!(sync_report(&SyncStatus::Diverged { ahead: 1, behind: 2 }), "  Diverged (1 ahead, 2 behind)");
    assert_eq!(sync_report(&SyncStatus::Conflict("c".into())), "  CONFLICT: c");
    assert_eq!(verified_line("r", &vec!["header: OK".into(), "hash: OK".into()]), "\u{2713} r - header: OK, hash: OK");
    let mut c = Config::default();
    c.target.path = "/m".into();
    assert_eq!(recovery_marker(&c, "r"), "/m/recovery-data/r.par2");
    assert_eq!(dictionary_path(&c), "/m/repos/archive/.trained.dict");
}

#[test]
fn parts_encrypt_and_decrypt_independently() {
    let key = [3u8; 32];
    let parts = vec![b"first part".to_vec(), b"second".to_vec(), vec![]];
    let (enc, total) = encrypt_parts(&parts, &key).unwrap();
    assert_eq!(enc.len(), 3);
    assert_eq!(total, (10 + 34) + (6 + 34) + 34);
    assert_ne!(enc[0][6..18], enc[1][6..18]);
    assert_eq!(decrypt_parts(&enc, &key).unwrap(), parts);
    let one = decrypt_parts(&enc[1..2].to_vec(), &key).unwrap();
    assert_eq!(one[0], b"second");
    assert!(decrypt_parts(&enc, &[4u8; 32]).is_err());
}

#[test]
fn status_session_example() {
    let e = DirtyEntry {
        repo_name: "other-repo".into(),
        action: DirtyAction::Unlock,
        timestamp: 0,
        commits: vec!["base".into(), "c1".into(), "c2".into()],
        files_touched: (0..5).map(|i| format!("f{}", i)).collect(),
    };
    assert_eq!(session_text(&e, 1800), "unlocked 30m (2 commits, 5 files)");
    assert_eq!(session_line("other-repo", &e, 1800), "  other-repo \u{2014} unlocked (30m, 2 commits, 5 files touched)");
}

#[test]
fn archive_checks_stop_at_the_first_failure() {
    let ok = || -> Result<(), String> { Ok(()) };
    assert!(matches!(check_archive(None, "s".into(), ok(), ok(), None, Err(String::new()), "r".into(), None), ArchiveCheck::NotFound));
    assert!(matches!(check_archive(Some(0), "s".into(), ok(), ok(), None, Err(String::new()), "r".into(), None), ArchiveCheck::Empty));
    match check_archive(Some(5), "s".into(), Err("bad".into()), Err("worse".into()), None, Err(String::new()), "r".into(), None) {
        ArchiveCheck::BadHeader(m) => assert_eq!(m, "bad"),
        _ => panic!("expected a header failure"),
    }
    match check_archive(Some(5), "s".into(), ok(), ok(), Some("aa".into()), Ok("bb".into()), "r".into(), None) {
        ArchiveCheck::HashMismatch { expected, computed } => {
            assert_eq!(expected, "aa");
            assert_eq!(computed, "bb");
        }
        _ => panic!("expected a mismatch"),
    }
    match check_archive(Some(5), "size: 0.0 MB".into(), ok(), ok(), Some("aa".into()), Ok("aa".into()),
        "recovery: none".into(), Some(true)) {
        ArchiveCheck::Verified(lines) => assert_eq!(lines, vec![
            "size: 0.0 MB", "header: OK", "decompression: OK", "hash: OK", "recovery: none",
            "perms: world-writable (warning)",
        ]),
        _ => panic!("expected a pass"),
    }
}
