use gitka::cli::Commands;
use gitka::config::{Config, ExtractionTarget, RepoConfig};
use gitka::error::GitkaError;
use gitka::recovery::{
    created_recovery_info, estimated_block_count, is_par2_name, par2_total, recovery_info_from_listing,
    recovery_targets, repo_recovery_dir,
};
use gitka::repo::{RepoManager, RepoMeta, RepoState};

fn meta(name: &str, size: u64, dec: Option<u64>) -> RepoMeta {
    RepoMeta {
        name: name.to_string(),
        state: RepoState::Archived,
        archive_path: format!("{}.gitka.zst", name),
        archive_hash: None,
        archive_size: size,
        volume_count: 1,
        archive_parts: vec![],
        decompressed_size: dec,
        last_synced: None,
        last_verified: None,
        extraction_path: None,
        dedup_enabled: false,
        dedup_bytes_saved: 0,
    }
}

fn config() -> Config {
    let mut c = Config::default();
    c.target.path = "/mnt/usb".to_string();
    c.repos.push(RepoConfig { name: "work".into(), workspace_eligible: true, full_history: false, last_synced: None });
    c.repos.push(RepoConfig { name: "ro".into(), workspace_eligible: false, full_history: true, last_synced: None });
    c
}

#[test]
fn directories() {
    let c = config();
    assert_eq!(c.archive_dir(), "/mnt/usb/repos/archive");
    assert_eq!(c.extract_dir(), "/mnt/usb/extract");
    assert_eq!(c.recovery_dir(), "/mnt/usb/recovery-data");
    assert_eq!(c.state_dir(), "/mnt/usb/.gitka");
    let m = RepoManager::new(config());
    assert_eq!(m.meta_dir(), "/mnt/usb/.gitka/repos");
    assert_eq!(m.meta_path("work"), "/mnt/usb/.gitka/repos/work.toml");
    assert_eq!(m.config().target.path, "/mnt/usb");
}

#[test]
fn eligibility_and_paths() {
    let mut c = config();
    assert!(c.is_workspace_eligible("work").unwrap());
    assert!(!c.is_workspace_eligible("ro").unwrap());
    match c.get_repo("missing") {
        Err(GitkaError::RepoNotFound(n)) => assert_eq!(n, "missing"),
        _ => panic!(),
    }
    let mut w = meta("work", 1, None);
    assert!(w.can_extract(&c).unwrap());
    assert!(!meta("ro", 1, None).can_extract(&c).unwrap());
    assert!(meta("nope", 1, None).can_extract(&c).is_err());
    assert_eq!(w.archive_full_path(&c), "/mnt/usb/repos/archive/work.gitka.zst");
    assert_eq!(w.extraction_target(&c, "/tmp"), "/mnt/usb/extract/work");
    c.extraction.target = ExtractionTarget::Host;
    assert_eq!(w.extraction_target(&c, "/tmp"), "/tmp/gitka/work");
    w.extraction_path = Some("/elsewhere".into());
    assert_eq!(w.extraction_full_path(&c, "/tmp"), "/elsewhere");
    w.state = RepoState::ExtractedLocal;
    assert!(!w.can_extract(&config()).unwrap());
}

#[test]
fn marking_states_and_totals() {
    let m = RepoManager::new(config());
    let mut w = meta("work", 10, Some(100));
    m.mark_extracted(&mut w, RepoState::ExtractedServed, "/x".into());
    assert!(m.is_extracted(&w));
    assert_eq!(w.extraction_path.as_deref(), Some("/x"));
    m.mark_archived(&mut w, "new.gitka.zst".into(), "abcd".into(), 42);
    assert!(!m.is_extracted(&w));
    assert_eq!(w.archive_path, "new.gitka.zst");
    assert_eq!(w.archive_hash.as_deref(), Some("abcd"));
    assert_eq!(w.archive_size, 42);
    assert!(w.extraction_path.is_none());
    let all = vec![meta("a", 10, Some(100)), meta("b", 5, None), meta("c", 1, Some(7))];
    assert_eq!(m.total_archive_size(&all), 16);
    assert_eq!(m.total_decompressed_size(&all), 107);
}

#[test]
fn recovery_records() {
    assert_eq!(estimated_block_count(0), 10);
    assert_eq!(estimated_block_count(25), 30);
    assert!(is_par2_name("a.par2"));
    assert!(is_par2_name("a.vol00+01.par2"));
    assert!(!is_par2_name(".par2"));
    assert!(!is_par2_name("a.par"));
    let listing = vec![("a.par2".to_string(), 10), ("a.vol0+1.par2".to_string(), 5), ("notes.txt".to_string(), 99)];
    assert_eq!(par2_total(&listing), 15);
    assert_eq!(par2_total(&vec![("x.par2".to_string(), u64::MAX), ("y.par2".to_string(), 1)]), u64::MAX);
    assert_eq!(recovery_targets("/a/r.gitka.zst", "/a", &vec!["r.gitka.zst".into()]), vec!["/a/r.gitka.zst"]);
    assert_eq!(
        recovery_targets("/a/r.gitka.zst", "/a", &vec!["r.gitka.zst".into(), "r.gitka.zst.001".into()]),
        vec!["/a/r.gitka.zst", "/a/r.gitka.zst.001"]
    );
    let info = created_recovery_info("r.gitka.zst", "/rec", 1000, &listing, 25);
    assert_eq!(info.repo_name, "r.gitka.zst");
    assert_eq!(info.recovery_size, 15);
    assert_eq!(info.block_count, 30);
    let c = config();
    assert_eq!(repo_recovery_dir(&c, "work"), "/mnt/usb/recovery-data/work");
    assert!(recovery_info_from_listing(&c, "work", &vec![("n.txt".to_string(), 4)]).is_none());
    let got = recovery_info_from_listing(&c, "work", &listing).unwrap();
    assert_eq!(got.par2_dir, "/mnt/usb/recovery-data/work");
    assert_eq!((got.original_size, got.recovery_size, got.block_count), (0, 15, 0));
}

#[test]
fn error_messages() {
    assert_eq!(GitkaError::Config("x".into()).message(), "Config error: x");
    assert_eq!(GitkaError::RepoNotFound("r".into()).message(), "Repo not found: r");
    assert_eq!(
        GitkaError::BudgetExceeded { needed: 10, available: 3 }.message(),
        "Budget exceeded: 10 needed, 3 available"
    );
    assert_eq!(
        GitkaError::SyncConflict("r".into()).message(),
        "Sync conflict in repo r: manual resolution required"
    );
    assert_eq!(
        GitkaError::VerificationFailed("r".into(), "bad".into()).message(),
        "Verification failed for repo r: bad"
    );
}

#[test]
fn commands_needing_a_drive() {
    assert!(!Commands::Gui.requires_init());
    assert!(!Commands::Usb { json: false }.requires_init());
    assert!(!Commands::Update { check: true, no_gui: false, json: false }.requires_init());
    assert!(Commands::Scan.requires_init());
    assert!(Commands::Lock { repo: "r".into() }.requires_init());
}
