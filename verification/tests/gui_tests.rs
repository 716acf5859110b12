use gitka::gui::{
    import_args, init_args, parse_status_output, parse_usb_output, repos_command_args, set_config_args, wipe_args,
    with_config,
};

#[test]
fn status_table() {
    let out = "Repository  State  Synced  Size  Session\n----------\nproj archived 2024-01-01 12MB clean\nlib extracted never 3MB 2 files changed\nshort line\n";
    let rows = parse_status_output(out);
    assert_eq!(rows.len(), 2);
    assert_eq!(rows[0].name, "proj");
    assert_eq!(rows[0].session, "clean");
    assert_eq!(rows[1].state, "extracted");
    assert_eq!(rows[1].archive_size, "3MB");
    assert_eq!(rows[1].session, "2 files changed");
}

#[test]
fn usb_table() {
    let out = "Path Label Size Mount\n----\n/dev/sdb1 BACKUP 32G /media/usb\n/dev/sdc1 X\nNo drives found\n";
    let rows = parse_usb_output(out);
    assert_eq!(rows.len(), 2);
    assert_eq!(rows[0].mountpoint, "/media/usb");
    assert_eq!(rows[1].size, "unknown");
    assert_eq!(rows[1].mountpoint, "");
}

#[test]
fn command_arguments() {
    assert_eq!(with_config(Some("/c.toml"), vec!["status".into()]), vec!["--config", "/c.toml", "status"]);
    assert_eq!(with_config(None, vec!["usb".into(), "--json".into()]), vec!["usb", "--json"]);
    assert_eq!(
        set_config_args(Some("/c.toml"), "compression.tier", "high"),
        vec!["--config", "/c.toml", "config", "--set", "compression.tier=high"]
    );
    assert_eq!(set_config_args(None, "k", "v"), vec!["--config", "config", "--set", "k=v"]);
}

#[test]
fn setup_arguments() {
    assert_eq!(
        init_args("github", "/mnt/usb", Some("alice"), None, None, Some(700), Some(false)),
        vec!["init", "--source", "github", "--target", "/mnt/usb", "--username", "alice", "--volume-size", "700", "--dedup", "false"]
    );
    assert_eq!(init_args("gitflare", "/t", None, Some("k"), Some("http://g"), None, None).len(), 9);
    assert_eq!(
        wipe_args("/dev/sdb1", "github", None, Some("tok"), None, Some("ext4"), true),
        vec!["wipe", "--target", "/dev/sdb1", "--source", "github", "--token", "tok", "--filesystem", "ext4", "--yes"]
    );
    assert_eq!(wipe_args("/d", "github", None, None, None, None, false), vec!["wipe", "--target", "/d", "--source", "github"]);
}

#[test]
fn repository_command_arguments() {
    let names = vec!["a".to_string(), "b".to_string()];
    assert_eq!(repos_command_args("sync", Some(&names)), vec!["sync", "--repos", "a", "b"]);
    assert_eq!(repos_command_args("verify", None), vec!["verify"]);
    assert_eq!(with_config(Some("/c"), repos_command_args("sync", None)), vec!["--config", "/c", "sync"]);
    assert_eq!(import_args("/src/x", Some("y")), vec!["import", "/src/x", "--name", "y"]);
    assert_eq!(import_args("/src/x", None), vec!["import", "/src/x"]);
}
