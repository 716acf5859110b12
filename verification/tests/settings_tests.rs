use gitka::config::{CompressionTier, Config, TargetMode};
use gitka::settings::{config_get, config_set, SetOutcome};

fn get(c: &Config, k: &str) -> Option<String> {
    config_get(c, k)
}

#[test]
fn get_defaults() {
    let c = Config::default();
    assert_eq!(get(&c, "source.github_username").unwrap(), "not set");
    assert_eq!(get(&c, "source.auth_token").unwrap(), "not set");
    assert_eq!(get(&c, "target.path").unwrap(), "/");
    assert_eq!(get(&c, "target.mode").unwrap(), "Removable");
    assert_eq!(get(&c, "compression.backend").unwrap(), "Zstd");
    assert_eq!(get(&c, "compression.tier").unwrap(), "Auto");
    assert_eq!(get(&c, "compression.dictionary_size_mb").unwrap(), "32");
    assert_eq!(get(&c, "compression.dedup").unwrap(), "true");
    assert_eq!(get(&c, "compression.volume_splitting.size_mb").unwrap(), "off (not set)");
    assert_eq!(get(&c, "extraction.target").unwrap(), "Usb");
    assert_eq!(get(&c, "toggles.clear_after_lock").unwrap(), "true");
    assert_eq!(get(&c, "toggles.encryption").unwrap(), "false");
    assert_eq!(get(&c, "integrations.gitflare.port").unwrap(), "8080");
    assert_eq!(get(&c, "integrations.gitflare.bind_address").unwrap(), "0.0.0.0");
    assert!(get(&c, "no.such.key").is_none());
}

#[test]
fn set_then_get() {
    let mut c = Config::default();
    match config_set(&mut c, " source.github_username = alice ") {
        SetOutcome::Updated { key, value } => {
            assert_eq!(key, "source.github_username");
            assert_eq!(value, "alice");
        }
        other => panic!("unexpected {:?}", other),
    }
    assert_eq!(get(&c, "source.github_username").unwrap(), "alice");

    assert!(matches!(config_set(&mut c, "compression.tier=high"), SetOutcome::Updated { .. }));
    assert_eq!(c.compression.tier, CompressionTier::High);
    assert_eq!(get(&c, "compression.tier").unwrap(), "High");

    assert!(matches!(config_set(&mut c, "target.mode=local"), SetOutcome::Updated { .. }));
    assert_eq!(c.target.mode, TargetMode::Local);

    assert!(matches!(config_set(&mut c, "compression.volume_splitting.size_mb=100"), SetOutcome::Updated { .. }));
    assert_eq!(get(&c, "compression.volume_splitting.size_mb").unwrap(), "100");
    assert!(matches!(config_set(&mut c, "compression.volume_splitting.size_mb=off"), SetOutcome::Updated { .. }));
    assert!(c.compression.volume_splitting.is_none());

    assert!(matches!(config_set(&mut c, "integrations.gitflare.port=9000"), SetOutcome::Updated { .. }));
    assert_eq!(get(&c, "integrations.gitflare.port").unwrap(), "9000");

    assert!(matches!(config_set(&mut c, "source.auth_token=tok"), SetOutcome::Updated { .. }));
    assert_eq!(get(&c, "source.auth_token").unwrap(), "*** (set)");

    assert!(matches!(config_set(&mut c, "a=b=c"), SetOutcome::UnknownKey(_)));
    assert!(matches!(config_set(&mut c, "target.path=/mnt/usb=1"), SetOutcome::Updated { .. }));
    assert_eq!(c.target.path, "/mnt/usb=1");
}

#[test]
fn set_errors_leave_config_alone() {
    let mut c = Config::default();
    assert!(matches!(config_set(&mut c, "no equals sign"), SetOutcome::InvalidFormat));
    match config_set(&mut c, "bogus=1") {
        SetOutcome::UnknownKey(k) => assert_eq!(k, "bogus"),
        other => panic!("unexpected {:?}", other),
    }
    match config_set(&mut c, "compression.tier=extreme") {
        SetOutcome::Rejected(m) => assert_eq!(m, "Invalid tier. Use: auto | low | medium | high"),
        other => panic!("unexpected {:?}", other),
    }
    match config_set(&mut c, "compression.dictionary_size_mb=lots") {
        SetOutcome::Rejected(m) => assert_eq!(m, "Invalid number: lots"),
        other => panic!("unexpected {:?}", other),
    }
    match config_set(&mut c, "compression.volume_splitting.size_mb=-5") {
        SetOutcome::Rejected(m) => {
            assert_eq!(m, "Invalid value. Use: a positive number in MB, or 'off' to disable")
        }
        other => panic!("unexpected {:?}", other),
    }
    assert_eq!(c.compression.tier, CompressionTier::Auto);
    assert_eq!(c.compression.dictionary_size_mb, 32);
    assert!(c.compression.volume_splitting.is_none());
}

#[test]
fn password_can_be_set() {
    let mut c = Config::default();
    assert!(matches!(config_set(&mut c, "encryption.password = s3cret"), SetOutcome::Updated { .. }));
    assert_eq!(c.encryption.as_ref().unwrap().password.as_deref(), Some("s3cret"));
    assert!(c.encryption.as_ref().unwrap().salt.is_none());
    c.toggles.encryption = true;
    c.ensure_encryption_salt_with(&[1u8; 16]);
    assert!(c.get_encryption_key().is_some());
    assert!(matches!(config_set(&mut c, "encryption.password=other"), SetOutcome::Updated { .. }));
    assert_eq!(c.encryption.as_ref().unwrap().salt.as_deref(), Some("01".repeat(16).as_str()));
    assert!(config_get(&c, "encryption.password").is_none());
}

#[test]
fn switches_read_back_as_set() {
    let mut c = Config::default();
    for key in ["compression.dedup", "toggles.clear_after_lock", "toggles.verify_after_sync",
        "toggles.encryption", "toggles.recovery_records"] {
        for value in ["true", "false", "true"] {
            let line = format!("{}={}", key, value);
            assert!(matches!(config_set(&mut c, &line), SetOutcome::Updated { .. }));
            assert_eq!(get(&c, key), Some(value.to_string()));
        }
    }
}

#[test]
fn numbers_read_back_as_set() {
    let mut c = Config::default();
    for (key, value) in [("compression.dictionary_size_mb", "64"), ("integrations.gitflare.port", "9090"),
        ("compression.volume_splitting.size_mb", "700"), ("compression.volume_splitting.size_mb", "4096")] {
        let line = format!("{}={}", key, value);
        assert!(matches!(config_set(&mut c, &line), SetOutcome::Updated { .. }));
        assert_eq!(get(&c, key), Some(value.to_string()));
    }
}
