use gitka::error::GitkaError;
use gitka::repo::{RepoMeta, RepoState};
use gitka::sync::{
    classify_sync_status, conflict_error, default_branch, local_ref, merge_message, no_merge_base_error,
    push_refspec, remote_ref, sync_all, sync_plan, sync_results, sync_target, upstream_name, ConflictPaths, SyncPlan,
    SyncStatus,
};

fn meta(name: &str, state: RepoState, extraction_path: Option<&str>) -> RepoMeta {
    RepoMeta {
        name: name.to_string(),
        state,
        archive_path: format!("{}.gitka.zst", name),
        archive_hash: None,
        archive_size: 0,
        volume_count: 1,
        archive_parts: vec![],
        decompressed_size: None,
        last_synced: None,
        last_verified: None,
        extraction_path: extraction_path.map(|s| s.to_string()),
        dedup_enabled: false,
        dedup_bytes_saved: 0,
    }
}

#[test]
fn default_branch_choice() {
    assert_eq!(default_branch(Some("refs/remotes/origin/develop"), true, true, true), "develop");
    assert_eq!(default_branch(Some("refs/heads/x"), false, true, true), "master");
    assert_eq!(default_branch(None, true, true, false), "main");
    assert_eq!(default_branch(None, false, false, true), "trunk");
    assert_eq!(default_branch(None, false, false, false), "main");
}

#[test]
fn ref_names() {
    assert_eq!(remote_ref("main"), "refs/remotes/origin/main");
    assert_eq!(local_ref("main"), "refs/heads/main");
    assert_eq!(upstream_name("main"), "origin/main");
    assert_eq!(push_refspec("main"), "refs/heads/main:refs/heads/main");
    assert_eq!(merge_message("main"), "Auto-merge branch 'main' of origin/main");
}

#[test]
fn plans_and_statuses() {
    assert_eq!(sync_plan(true, 3, 4), SyncPlan::UpToDate);
    assert_eq!(sync_plan(false, 3, 4), SyncPlan::Merge);
    assert_eq!(sync_plan(false, 3, 0), SyncPlan::Push(3));
    assert_eq!(sync_plan(false, 0, 4), SyncPlan::FastForward(4));
    assert_eq!(sync_plan(false, 0, 0), SyncPlan::UpToDate);
    assert!(matches!(classify_sync_status(true, 1, 1), SyncStatus::InSync));
    assert!(matches!(classify_sync_status(false, 2, 5), SyncStatus::Diverged { ahead: 2, behind: 5 }));
    assert!(matches!(classify_sync_status(false, 2, 0), SyncStatus::Ahead(2)));
    assert!(matches!(classify_sync_status(false, 0, 5), SyncStatus::Behind(5)));
}

#[test]
fn conflicts_and_targets() {
    let cs = vec![
        ConflictPaths { ancestor: "a.txt".into(), ours: "a.txt".into(), theirs: "b.txt".into() },
        ConflictPaths { ancestor: "c".into(), ours: "c".into(), theirs: "c".into() },
    ];
    match conflict_error("repo", &cs) {
        GitkaError::SyncConflict(m) => {
            assert_eq!(m, "repo: a.txt (ours: a.txt, theirs: b.txt), c (ours: c, theirs: c) conflicts")
        }
        _ => panic!(),
    }
    match no_merge_base_error("repo") {
        GitkaError::SyncConflict(m) => assert_eq!(m, "repo: no merge base found"),
        _ => panic!(),
    }
    match sync_target(&meta("r", RepoState::Archived, None), "r") {
        Err(GitkaError::NotExtracted(n)) => assert_eq!(n, "r"),
        _ => panic!(),
    }
    assert_eq!(sync_target(&meta("r", RepoState::ExtractedLocal, Some("/x/r")), "r").unwrap(), "/x/r");
}

#[test]
fn sync_all_selection() {
    let repos = vec![
        meta("a", RepoState::Archived, None),
        meta("b", RepoState::ExtractedLocal, Some("/e/b")),
        meta("c", RepoState::ExtractedServed, Some("/e/c")),
    ];
    assert_eq!(sync_all(&repos, None), vec!["b", "c"]);
    let names = vec!["a".to_string(), "c".to_string()];
    assert_eq!(sync_all(&repos, Some(&names)), vec!["a", "c"]);
}

#[test]
fn failed_syncs_are_left_out() {
    let names = vec!["a".to_string(), "b".to_string(), "c".to_string()];
    let results = vec![
        Ok(SyncStatus::Ahead(2)),
        Err(GitkaError::SyncConflict("b: no merge base found".to_string())),
        Ok(SyncStatus::InSync),
    ];
    let got = sync_results(names, results);
    assert_eq!(got.len(), 2);
    assert_eq!(got[0].0, "a");
    assert!(matches!(got[0].1, SyncStatus::Ahead(2)));
    assert_eq!(got[1].0, "c");
    assert!(matches!(got[1].1, SyncStatus::InSync));
}
