use gitka::config::Config;
use gitka::error::GitkaError;
use gitka::repo::{RepoMeta, RepoState};
use gitka::serve::{
    already_running_error, gitflare_config_text, gitflare_settings, mark_stopped, parse_pid, pick_source_repo,
    pid_file, serve_dir, serve_layout, start_check, ServeInfo, ServerState,
};

fn usb_config() -> Config {
    let mut c = Config::default();
    c.target.path = "/mnt/usb".to_string();
    c
}

#[test]
fn urls() {
    let info = ServeInfo {
        repo_name: "r".into(),
        pid: 1,
        port: 8080,
        serve_dir: "/s".into(),
        bare_repo_dir: "/s/repos/r.git".into(),
    };
    assert_eq!(info.clone_url(), "http://localhost:8080");
    assert_eq!(info.lan_url(Some("192.168.1.5")), "http://192.168.1.5:8080");
    assert_eq!(info.lan_url(None), "http://localhost:8080");
}

#[test]
fn layout_and_pid_file() {
    let c = usb_config();
    assert_eq!(serve_dir(&c), "/mnt/usb/.gitka/serve");
    let l = serve_layout(&c, "proj");
    assert_eq!(l.repos_dir, "/mnt/usb/.gitka/serve/repos");
    assert_eq!(l.bare_repo_dir, "/mnt/usb/.gitka/serve/repos/proj.git");
    assert_eq!(l.extract_dir, "/mnt/usb/.gitka/serve/extract");
    assert_eq!(l.config_path, "/mnt/usb/.gitka/serve/gitflare.toml");
    assert_eq!(l.venv_python, "/mnt/usb/.gitka/serve/.venv/bin/python3");
    assert_eq!(l.info_path, "/mnt/usb/.gitka/serve/serve.json");
    assert_eq!(pid_file(&c, "proj"), "/mnt/usb/.gitka/proj.serve.pid");
    assert_eq!(parse_pid(" 1234\n"), Some(1234));
    assert_eq!(parse_pid("x"), None);
    match already_running_error("proj", 77) {
        GitkaError::Config(m) => assert_eq!(m, "Server already running for proj (PID 77). Use `gitka serve proj --stop` first."),
        _ => panic!(),
    }
}

#[test]
fn gitflare_files() {
    let mut c = usb_config();
    let g = gitflare_settings(&c);
    assert_eq!((g.port, g.bind_address.as_str()), (8080, "0.0.0.0"));
    c.integrations.gitflare = None;
    let g = gitflare_settings(&c);
    assert_eq!((g.port, g.bind_address.as_str()), (8080, "0.0.0.0"));
    assert_eq!(
        gitflare_config_text("127.0.0.1", 9000, "/r"),
        "[server]\nhost = \"127.0.0.1\"\nport = 9000\nrepos_path = \"/r\"\n\n[auth]\nadmin_token = \"\"\n\n[ssh]\nenabled = false\n"
    );
    assert_eq!(pick_source_repo(&vec!["/e/a".into(), "/e/b".into()], "/e"), "/e/a");
    assert_eq!(pick_source_repo(&vec![], "/e"), "/e");
}

#[test]
fn stopping_archives_served_repo() {
    let mut m = RepoMeta {
        name: "r".into(),
        state: RepoState::ExtractedServed,
        archive_path: "r.gitka.zst".into(),
        archive_hash: None,
        archive_size: 5,
        volume_count: 1,
        archive_parts: vec![],
        decompressed_size: None,
        last_synced: None,
        last_verified: None,
        extraction_path: Some("/x".into()),
        dedup_enabled: false,
        dedup_bytes_saved: 0,
    };
    mark_stopped(&mut m);
    assert_eq!(m.state, RepoState::Archived);
    assert!(m.extraction_path.is_none());
    m.state = RepoState::ExtractedLocal;
    m.extraction_path = Some("/y".into());
    mark_stopped(&mut m);
    assert_eq!(m.state, RepoState::ExtractedLocal);
    assert_eq!(m.extraction_path.as_deref(), Some("/y"));
}

#[test]
fn one_server_at_a_time() {
    let state = |n: &str, pid: Option<u32>, running: bool| ServerState { repo_name: n.to_string(), pid, running };
    let stale = start_check("a", &vec![state("a", Some(5), false), state("b", None, false)]).unwrap();
    assert_eq!(stale, vec!["a".to_string(), "b".to_string()]);
    match start_check("a", &vec![state("a", Some(5), false), state("b", Some(9), true)]) {
        Err(GitkaError::Config(m)) => assert_eq!(
            m,
            "GitFlare is already serving b (PID 9); it serves one repo at a time. Use `gitka serve b --stop` first."
        ),
        _ => panic!("expected a refusal"),
    }
    match start_check("a", &vec![state("a", Some(7), true)]) {
        Err(GitkaError::Config(m)) => {
            assert_eq!(m, "Server already running for a (PID 7). Use `gitka serve a --stop` first.")
        }
        _ => panic!("expected a refusal"),
    }
}
