//! Reading and setting single configuration values by dotted key.
use vstd::prelude::*;

use crate::config::{
    CompressionBackend, CompressionTier, Config, EncryptionConfig, ExtractionTarget, GitFlareConfig, SourceConfig,
    TargetConfig, TargetMode, Toggles, VolumeSplitting, CompressionConfig, ExtractionConfig,
    Integrations,
};
use crate::strings::{parse_u16, parse_u32, parse_u64, spec_parse_u16, spec_parse_u32, spec_parse_u64, spec_trim, trim};
use crate::text::{chars_of, decimal, push_str, spec_decimal, str_eq};
use crate::strings::{lemma_parse_decimal, string_of};

verus! {

/// How a boolean is shown.
pub open spec fn spec_bool_text(b: bool) -> Seq<char> {
    if b { "true"@ } else { "false"@ }
}

/// How a tier is shown.
pub open spec fn spec_tier_text(t: CompressionTier) -> Seq<char> {
    match t {
        CompressionTier::Auto => "Auto"@,
        CompressionTier::Low => "Low"@,
        CompressionTier::Medium => "Medium"@,
        CompressionTier::High => "High"@,
    }
}

/// An optional text, or "not set".
pub open spec fn spec_or_not_set(o: Option<String>) -> Seq<char> {
    match o {
        Some(s) => s@,
        None => "not set"@,
    }
}

/// The text `config --get` shows for a key; `None` for an unknown key.
pub open spec fn spec_config_get(c: Config, key: Seq<char>) -> Option<Seq<char>> {
    if key == "source.github_username"@ {
        Some(spec_or_not_set(c.source.github_username))
    } else if key == "source.gitflare_url"@ {
        Some(spec_or_not_set(c.source.gitflare_url))
    } else if key == "source.auth_token"@ {
        Some(if c.source.auth_token is Some { "*** (set)"@ } else { "not set"@ })
    } else if key == "target.path"@ {
        Some(c.target.path@)
    } else if key == "target.mode"@ {
        Some(if c.target.mode == TargetMode::Removable { "Removable"@ } else { "Local"@ })
    } else if key == "compression.backend"@ {
        Some("Zstd"@)
    } else if key == "compression.tier"@ {
        Some(spec_tier_text(c.compression.tier))
    } else if key == "compression.dictionary_size_mb"@ {
        Some(spec_decimal(c.compression.dictionary_size_mb as nat))
    } else if key == "compression.dedup"@ {
        Some(spec_bool_text(c.compression.dedup))
    } else if key == "compression.volume_splitting.size_mb"@ {
        Some(match c.compression.volume_splitting {
            Some(vs) => spec_decimal(vs.size_mb as nat),
            None => "off (not set)"@,
        })
    } else if key == "extraction.target"@ {
        Some(if c.extraction.target == ExtractionTarget::Usb { "Usb"@ } else { "Host"@ })
    } else if key == "toggles.clear_after_lock"@ {
        Some(spec_bool_text(c.toggles.clear_after_lock))
    } else if key == "toggles.verify_after_sync"@ {
        Some(spec_bool_text(c.toggles.verify_after_sync))
    } else if key == "toggles.encryption"@ {
        Some(spec_bool_text(c.toggles.encryption))
    } else if key == "toggles.recovery_records"@ {
        Some(spec_bool_text(c.toggles.recovery_records))
    } else if key == "integrations.gitflare.port"@ {
        Some(spec_decimal(match c.integrations.gitflare {
            Some(g) => g.port as nat,
            None => 8080,
        }))
    } else if key == "integrations.gitflare.bind_address"@ {
        Some(match c.integrations.gitflare {
            Some(g) => g.bind_address@,
            None => "0.0.0.0"@,
        })
    } else {
        None
    }
}

fn bool_text(b: bool) -> (r: String)
    ensures
        r@ == spec_bool_text(b),
{
    proof { reveal_strlit("true"); reveal_strlit("false"); }
    if b { "true".to_owned() } else { "false".to_owned() }
}

fn or_not_set(o: &Option<String>) -> (r: String)
    ensures
        r@ == spec_or_not_set(*o),
{
    proof { reveal_strlit("not set"); }
    match o {
        Some(s) => s.clone(),
        None => "not set".to_owned(),
    }
}

/// The text `config --get` shows for a key; `None` for an unknown key.
pub fn config_get(config: &Config, key: &str) -> (r: Option<String>)
    ensures
        match spec_config_get(*config, key@) {
            Some(t) => r matches Some(s) && s@ == t,
            None => r is None,
        },
{
    proof {
        reveal_strlit("source.github_username"); reveal_strlit("source.gitflare_url");
        reveal_strlit("source.auth_token"); reveal_strlit("target.path");
        reveal_strlit("target.mode"); reveal_strlit("compression.backend");
        reveal_strlit("compression.tier"); reveal_strlit("compression.dictionary_size_mb");
        reveal_strlit("compression.dedup"); reveal_strlit("compression.volume_splitting.size_mb");
        reveal_strlit("extraction.target"); reveal_strlit("toggles.clear_after_lock");
        reveal_strlit("toggles.verify_after_sync"); reveal_strlit("toggles.encryption");
        reveal_strlit("toggles.recovery_records"); reveal_strlit("integrations.gitflare.port");
        reveal_strlit("integrations.gitflare.bind_address");
        reveal_strlit("*** (set)"); reveal_strlit("not set"); reveal_strlit("Removable");
        reveal_strlit("Local"); reveal_strlit("Zstd"); reveal_strlit("Auto"); reveal_strlit("Low");
        reveal_strlit("Medium"); reveal_strlit("High"); reveal_strlit("off (not set)");
        reveal_strlit("Usb"); reveal_strlit("Host"); reveal_strlit("0.0.0.0");
    }
    if str_eq(key, "source.github_username") {
        Some(or_not_set(&config.source.github_username))
    } else if str_eq(key, "source.gitflare_url") {
        Some(or_not_set(&config.source.gitflare_url))
    } else if str_eq(key, "source.auth_token") {
        Some(if config.source.auth_token.is_some() { "*** (set)".to_owned() } else { "not set".to_owned() })
    } else if str_eq(key, "target.path") {
        Some(config.target.path.clone())
    } else if str_eq(key, "target.mode") {
        Some(match config.target.mode {
            TargetMode::Removable => "Removable".to_owned(),
            TargetMode::Local => "Local".to_owned(),
        })
    } else if str_eq(key, "compression.backend") {
        Some("Zstd".to_owned())
    } else if str_eq(key, "compression.tier") {
        Some(match config.compression.tier {
            CompressionTier::Auto => "Auto".to_owned(),
            CompressionTier::Low => "Low".to_owned(),
            CompressionTier::Medium => "Medium".to_owned(),
            CompressionTier::High => "High".to_owned(),
        })
    } else if str_eq(key, "compression.dictionary_size_mb") {
        Some(decimal(config.compression.dictionary_size_mb as u64))
    } else if str_eq(key, "compression.dedup") {
        Some(bool_text(config.compression.dedup))
    } else if str_eq(key, "compression.volume_splitting.size_mb") {
        Some(match config.compression.volume_splitting {
            Some(vs) => decimal(vs.size_mb),
            None => "off (not set)".to_owned(),
        })
    } else if str_eq(key, "extraction.target") {
        Some(match config.extraction.target {
            ExtractionTarget::Usb => "Usb".to_owned(),
            ExtractionTarget::Host => "Host".to_owned(),
        })
    } else if str_eq(key, "toggles.clear_after_lock") {
        Some(bool_text(config.toggles.clear_after_lock))
    } else if str_eq(key, "toggles.verify_after_sync") {
        Some(bool_text(config.toggles.verify_after_sync))
    } else if str_eq(key, "toggles.encryption") {
        Some(bool_text(config.toggles.encryption))
    } else if str_eq(key, "toggles.recovery_records") {
        Some(bool_text(config.toggles.recovery_records))
    } else if str_eq(key, "integrations.gitflare.port") {
        Some(decimal(match &config.integrations.gitflare {
            Some(g) => g.port as u64,
            None => 8080,
        }))
    } else if str_eq(key, "integrations.gitflare.bind_address") {
        Some(match &config.integrations.gitflare {
            Some(g) => g.bind_address.clone(),
            None => "0.0.0.0".to_owned(),
        })
    } else {
        None
    }
}

/// What `config --set key=value` did.
#[derive(Debug)]
pub enum SetOutcome {
    /// The argument has no `=`.
    InvalidFormat,
    /// The key is not a configuration key.
    UnknownKey(String),
    /// The value does not suit the key; the message says what would.
    Rejected(String),
    /// The key was set to the value.
    Updated { key: String, value: String },
}

/// The position of the first `c` in `s`, if any.
pub open spec fn spec_find_char(s: Seq<char>, c: char) -> Option<int>
    decreases s.len(),
{
    if s.len() == 0 {
        None
    } else if s[0] == c {
        Some(0)
    } else {
        match spec_find_char(s.skip(1), c) {
            Some(i) => Some(i + 1),
            None => None,
        }
    }
}

/// `key=value` split at the first `=`, each side trimmed.
pub open spec fn spec_split_kv(kv: Seq<char>) -> Option<(Seq<char>, Seq<char>)> {
    match spec_find_char(kv, '=') {
        Some(i) => Some((spec_trim(kv.take(i)), spec_trim(kv.skip(i + 1)))),
        None => None,
    }
}

/// The keys `config --set` knows.
pub open spec fn spec_known_key(key: Seq<char>) -> bool {
    ||| key == "source.github_username"@
    ||| key == "source.gitflare_url"@
    ||| key == "source.auth_token"@
    ||| key == "target.path"@
    ||| key == "target.mode"@
    ||| key == "compression.backend"@
    ||| key == "compression.tier"@
    ||| key == "compression.dictionary_size_mb"@
    ||| key == "compression.dedup"@
    ||| key == "compression.volume_splitting.size_mb"@
    ||| key == "extraction.target"@
    ||| key == "toggles.clear_after_lock"@
    ||| key == "toggles.verify_after_sync"@
    ||| key == "toggles.encryption"@
    ||| key == "toggles.recovery_records"@
    ||| key == "integrations.gitflare.port"@
    ||| key == "integrations.gitflare.bind_address"@
    ||| key == "encryption.password"@
}

/// A boolean value text.
pub open spec fn spec_bool_value(v: Seq<char>) -> Option<bool> {
    if v == "true"@ { Some(true) } else if v == "false"@ { Some(false) } else { None }
}

/// The message for a value that does not suit a known key, if it does not.
pub open spec fn spec_set_rejection(key: Seq<char>, value: Seq<char>) -> Option<Seq<char>> {
    if key == "source.github_username"@ || key == "source.gitflare_url"@ || key == "source.auth_token"@
        || key == "target.path"@ {
        None
    } else if key == "target.mode"@ {
        if value == "removable"@ || value == "local"@ { None } else { Some("Invalid mode. Use: removable | local"@) }
    } else if key == "compression.backend"@ {
        if value == "zstd"@ { None } else { Some("Invalid backend. Use: zstd"@) }
    } else if key == "compression.tier"@ {
        if value == "auto"@ || value == "low"@ || value == "medium"@ || value == "high"@ {
            None
        } else {
            Some("Invalid tier. Use: auto | low | medium | high"@)
        }
    } else if key == "compression.dictionary_size_mb"@ {
        if spec_parse_u32(value) is Some { None } else { Some("Invalid number: "@ + value) }
    } else if key == "compression.dedup"@ {
        if spec_bool_value(value) is Some { None } else { Some("Invalid value. Use: true | false"@) }
    } else if key == "compression.volume_splitting.size_mb"@ {
        if value == "off"@ || value == "0"@ || (spec_parse_u64(value) matches Some(n) && n > 0) {
            None
        } else {
            Some("Invalid value. Use: a positive number in MB, or 'off' to disable"@)
        }
    } else if key == "extraction.target"@ {
        if value == "usb"@ || value == "host"@ { None } else { Some("Invalid target. Use: usb | host"@) }
    } else if key == "toggles.clear_after_lock"@ || key == "toggles.verify_after_sync"@
        || key == "toggles.encryption"@ || key == "toggles.recovery_records"@ {
        if spec_bool_value(value) is Some { None } else { Some("Invalid value. Use: true | false"@) }
    } else if key == "integrations.gitflare.port"@ {
        if spec_parse_u16(value) is Some { None } else { Some("Invalid port number: "@ + value) }
    } else {
        None
    }
}

/// The tier a value names.
pub open spec fn spec_tier_value(v: Seq<char>) -> CompressionTier {
    if v == "auto"@ {
        CompressionTier::Auto
    } else if v == "low"@ {
        CompressionTier::Low
    } else if v == "medium"@ {
        CompressionTier::Medium
    } else {
        CompressionTier::High
    }
}

/// How setting a known key to an accepted value changes the configuration.
pub open spec fn spec_set_applies(before: Config, key: Seq<char>, value: Seq<char>, after: Config) -> bool {
    if key == "source.github_username"@ {
        &&& after.source.github_username matches Some(u) && u@ == value
        &&& after == (Config { source: SourceConfig { github_username: after.source.github_username, ..before.source }, ..before })
    } else if key == "source.gitflare_url"@ {
        &&& after.source.gitflare_url matches Some(u) && u@ == value
        &&& after == (Config { source: SourceConfig { gitflare_url: after.source.gitflare_url, ..before.source }, ..before })
    } else if key == "source.auth_token"@ {
        &&& after.source.auth_token matches Some(u) && u@ == value
        &&& after == (Config { source: SourceConfig { auth_token: after.source.auth_token, ..before.source }, ..before })
    } else if key == "target.path"@ {
        &&& after.target.path@ == value
        &&& after == (Config { target: TargetConfig { path: after.target.path, ..before.target }, ..before })
    } else if key == "target.mode"@ {
        after == (Config { target: TargetConfig {
            mode: if value == "removable"@ { TargetMode::Removable } else { TargetMode::Local },
            ..before.target
        }, ..before })
    } else if key == "compression.backend"@ {
        after == (Config { compression: CompressionConfig { backend: CompressionBackend::Zstd, ..before.compression }, ..before })
    } else if key == "compression.tier"@ {
        after == (Config { compression: CompressionConfig { tier: spec_tier_value(value), ..before.compression }, ..before })
    } else if key == "compression.dictionary_size_mb"@ {
        after == (Config { compression: CompressionConfig {
            dictionary_size_mb: spec_parse_u32(value).unwrap(),
            ..before.compression
        }, ..before })
    } else if key == "compression.dedup"@ {
        after == (Config { compression: CompressionConfig { dedup: spec_bool_value(value).unwrap(), ..before.compression }, ..before })
    } else if key == "compression.volume_splitting.size_mb"@ {
        after == (Config { compression: CompressionConfig {
            volume_splitting: if value == "off"@ || value == "0"@ {
                None
            } else {
                Some(VolumeSplitting { size_mb: spec_parse_u64(value).unwrap() })
            },
            ..before.compression
        }, ..before })
    } else if key == "extraction.target"@ {
        after == (Config { extraction: ExtractionConfig {
            target: if value == "usb"@ { ExtractionTarget::Usb } else { ExtractionTarget::Host },
        }, ..before })
    } else if key == "toggles.clear_after_lock"@ {
        after == (Config { toggles: Toggles { clear_after_lock: spec_bool_value(value).unwrap(), ..before.toggles }, ..before })
    } else if key == "toggles.verify_after_sync"@ {
        after == (Config { toggles: Toggles { verify_after_sync: spec_bool_value(value).unwrap(), ..before.toggles }, ..before })
    } else if key == "toggles.encryption"@ {
        after == (Config { toggles: Toggles { encryption: spec_bool_value(value).unwrap(), ..before.toggles }, ..before })
    } else if key == "toggles.recovery_records"@ {
        after == (Config { toggles: Toggles { recovery_records: spec_bool_value(value).unwrap(), ..before.toggles }, ..before })
    } else if key == "integrations.gitflare.port"@ {
        &&& after.integrations.gitflare matches Some(g) && g.port == spec_parse_u16(value).unwrap()
            && match before.integrations.gitflare {
                Some(o) => g.bind_address == o.bind_address,
                None => g.bind_address@ == "0.0.0.0"@,
            }
        &&& after == (Config { integrations: after.integrations, ..before })
    } else if key == "integrations.gitflare.bind_address"@ {
        &&& after.integrations.gitflare matches Some(g) && g.bind_address@ == value
            && g.port == match before.integrations.gitflare {
                Some(o) => o.port,
                None => 8080u16,
            }
        &&& after == (Config { integrations: after.integrations, ..before })
    } else {
        &&& after.encryption matches Some(e) && (e.password matches Some(p) && p@ == value)
            && e.salt == match before.encryption {
                Some(o) => o.salt,
                None => None,
            }
        &&& after == (Config { encryption: after.encryption, ..before })
    }
}

/// Setting a switch (`compression.dedup` or one of the toggles) to `true`
/// or `false` and then reading it back gives the value set.
pub proof fn lemma_set_then_get_switch(before: Config, after: Config, key: Seq<char>, value: Seq<char>)
    requires
        key == "compression.dedup"@ || key == "toggles.clear_after_lock"@
            || key == "toggles.verify_after_sync"@ || key == "toggles.encryption"@
            || key == "toggles.recovery_records"@,
        value == "true"@ || value == "false"@,
        spec_set_applies(before, key, value, after),
    ensures
        spec_config_get(after, key) == Some(value),
{
    reveal_strlit("source.github_username"); reveal_strlit("source.gitflare_url");
    reveal_strlit("source.auth_token"); reveal_strlit("target.path");
    reveal_strlit("target.mode"); reveal_strlit("compression.backend");
    reveal_strlit("compression.tier"); reveal_strlit("compression.dictionary_size_mb");
    reveal_strlit("compression.dedup"); reveal_strlit("compression.volume_splitting.size_mb");
    reveal_strlit("extraction.target"); reveal_strlit("toggles.clear_after_lock");
    reveal_strlit("toggles.verify_after_sync"); reveal_strlit("toggles.encryption");
    reveal_strlit("toggles.recovery_records"); reveal_strlit("true"); reveal_strlit("false");
    assert(spec_bool_text(spec_bool_value(value).unwrap()) == value);
    if key == "compression.dedup"@ {
        assert(key.len() == 17);
        assert(key[0] != "source.auth_token"@[0]);
        assert(key != "source.auth_token"@);
        assert(spec_config_get(after, key) == Some(spec_bool_text(after.compression.dedup)));
    } else if key == "toggles.clear_after_lock"@ {
        assert(key.len() == 24);
        assert(spec_config_get(after, key) == Some(spec_bool_text(after.toggles.clear_after_lock)));
    } else if key == "toggles.verify_after_sync"@ {
        assert(key.len() == 25);
        assert(spec_config_get(after, key) == Some(spec_bool_text(after.toggles.verify_after_sync)));
    } else if key == "toggles.encryption"@ {
        assert(key.len() == 18);
        assert(spec_config_get(after, key) == Some(spec_bool_text(after.toggles.encryption)));
    } else {
        assert(key.len() == 24);
        assert(key[8] != "toggles.clear_after_lock"@[8]);
        assert(key != "toggles.clear_after_lock"@);
        assert(spec_config_get(after, key) == Some(spec_bool_text(after.toggles.recovery_records)));
    }
}

/// Setting the dictionary size, the GitFlare port or a positive volume size
/// to the decimal text of a number and then reading it back gives that text.
pub proof fn lemma_set_then_get_number(before: Config, after: Config, key: Seq<char>, n: u64)
    requires
        key == "compression.dictionary_size_mb"@ || key == "integrations.gitflare.port"@
            || key == "compression.volume_splitting.size_mb"@,
        key == "compression.dictionary_size_mb"@ ==> n <= u32::MAX,
        key == "integrations.gitflare.port"@ ==> n <= u16::MAX,
        key == "compression.volume_splitting.size_mb"@ ==> n > 0,
        spec_set_applies(before, key, spec_decimal(n as nat), after),
    ensures
        spec_config_get(after, key) == Some(spec_decimal(n as nat)),
{
    reveal_strlit("source.github_username"); reveal_strlit("source.gitflare_url");
    reveal_strlit("source.auth_token"); reveal_strlit("target.path");
    reveal_strlit("target.mode"); reveal_strlit("compression.backend");
    reveal_strlit("compression.tier"); reveal_strlit("compression.dictionary_size_mb");
    reveal_strlit("compression.dedup"); reveal_strlit("compression.volume_splitting.size_mb");
    reveal_strlit("extraction.target"); reveal_strlit("toggles.clear_after_lock");
    reveal_strlit("toggles.verify_after_sync"); reveal_strlit("toggles.encryption");
    reveal_strlit("toggles.recovery_records"); reveal_strlit("integrations.gitflare.port");
    reveal_strlit("off"); reveal_strlit("0");
    lemma_parse_decimal(n);
    let v = spec_decimal(n as nat);
    if key == "compression.dictionary_size_mb"@ {
        assert(key.len() == 30);
        assert(spec_config_get(after, key) == Some(spec_decimal(after.compression.dictionary_size_mb as nat)));
    } else if key == "compression.volume_splitting.size_mb"@ {
        assert(key.len() == 36);
        assert(v != "0"@) by {
            lemma_parse_decimal(0);
            assert(spec_decimal(0) =~= "0"@);
        }
        assert(v != "off"@) by {
            if v == "off"@ {
                assert(spec_parse_u64("off"@) is None);
            }
        }
        assert(spec_config_get(after, key) == Some(match after.compression.volume_splitting {
            Some(vs) => spec_decimal(vs.size_mb as nat),
            None => "off (not set)"@,
        }));
    } else {
        assert(key.len() == 26);
        assert(spec_config_get(after, key) == Some(spec_decimal(match after.integrations.gitflare {
            Some(g) => g.port as nat,
            None => 8080,
        })));
    }
}

/// Setting `compression.tier` to auto, low, medium or high stores the tier
/// of that name and changes nothing else.
pub proof fn lemma_set_tier(before: Config, after: Config, value: Seq<char>)
    requires
        spec_set_applies(before, "compression.tier"@, value, after),
    ensures
        value == "auto"@ ==> after.compression.tier == CompressionTier::Auto,
        value == "low"@ ==> after.compression.tier == CompressionTier::Low,
        value == "medium"@ ==> after.compression.tier == CompressionTier::Medium,
        value == "high"@ ==> after.compression.tier == CompressionTier::High,
        after == (Config { compression: CompressionConfig { tier: after.compression.tier, ..before.compression }, ..before }),
{
    reveal_strlit("source.github_username"); reveal_strlit("source.gitflare_url");
    reveal_strlit("source.auth_token"); reveal_strlit("target.path");
    reveal_strlit("target.mode"); reveal_strlit("compression.backend");
    reveal_strlit("compression.tier");
    reveal_strlit("auto"); reveal_strlit("low"); reveal_strlit("medium"); reveal_strlit("high");
    let key = "compression.tier"@;
    assert(key.len() == 16);
    assert(key != "source.auth_token"@);
    assert(key[0] != "target.path"@[0]);
    assert(key != "compression.backend"@);
    assert(after.compression.tier == spec_tier_value(value));
    if value == "low"@ {
        assert(value.len() == 3);
        assert(value != "auto"@);
    }
    if value == "medium"@ {
        assert(value.len() == 6);
        assert(value != "auto"@ && value != "low"@);
    }
    if value == "high"@ {
        assert(value[0] != "auto"@[0]);
        assert(value != "auto"@ && value != "low"@ && value != "medium"@);
    }
}

/// The first `c` in `s` is at `i` when no earlier character is `c`.
proof fn lemma_find_char(s: Seq<char>, c: char, i: int)
    requires
        0 <= i <= s.len(),
        forall|j: int| 0 <= j < i ==> s[j] != c,
        i < s.len() ==> s[i] == c,
    ensures
        spec_find_char(s, c) == if i < s.len() { Some(i) } else { None::<int> },
    decreases s.len(),
{
    if s.len() > 0 && i > 0 {
        assert forall|j: int| 0 <= j < i - 1 implies s.skip(1)[j] != c by {
            assert(s.skip(1)[j] == s[j + 1]);
        }
        if i < s.len() {
            assert(s.skip(1)[i - 1] == s[i]);
        }
        lemma_find_char(s.skip(1), c, i - 1);
    }
}

/// The position of the first `c` in `v`, if any.
fn find_char(v: &Vec<char>, c: char) -> (r: Option<usize>)
    ensures
        match r {
            Some(j) => spec_find_char(v@, c) == Some(j as int) && j < v@.len(),
            None => spec_find_char(v@, c) is None,
        },
{
    let mut i: usize = 0;
    while i < v.len()
        invariant
            i <= v@.len(),
            forall|j: int| 0 <= j < i ==> v@[j] != c,
        decreases v@.len() - i,
    {
        if v[i] == c {
            proof { lemma_find_char(v@, c, i as int); }
            return Some(i);
        }
        i = i + 1;
    }
    proof { lemma_find_char(v@, c, i as int); }
    None
}

/// A boolean value text.
fn bool_value(v: &str) -> (r: Option<bool>)
    ensures
        r == spec_bool_value(v@),
{
    proof { reveal_strlit("true"); reveal_strlit("false"); }
    if str_eq(v, "true") { Some(true) } else if str_eq(v, "false") { Some(false) } else { None }
}

/// `msg` followed by `value`.
fn message_with(msg: &str, value: &String) -> (r: String)
    ensures
        r@ == msg@ + value@,
{
    let mut m = msg.to_owned();
    push_str(&mut m, value.as_str());
    m
}

#[verifier::rlimit(60)]
#[verifier::spinoff_prover]
/// Applies `config --set key=value`: splits at the first `=`, trims both
/// sides, checks the key and the value, and sets the value.
pub fn config_set(config: &mut Config, kv: &str) -> (r: SetOutcome)
    ensures
        match spec_split_kv(kv@) {
            None => r is InvalidFormat && *final(config) == *old(config),
            Some((key, value)) => if !spec_known_key(key) {
                r matches SetOutcome::UnknownKey(k) && k@ == key && *final(config) == *old(config)
            } else {
                match spec_set_rejection(key, value) {
                    Some(msg) => r matches SetOutcome::Rejected(m) && m@ == msg && *final(config) == *old(config),
                    None => r matches SetOutcome::Updated { key: k, value: v } && k@ == key && v@ == value
                        && spec_set_applies(*old(config), key, value, *final(config)),
                }
            },
        },
{
    let v = chars_of(kv);
    let eq = match find_char(&v, '=') {
        Some(i) => i,
        None => { return SetOutcome::InvalidFormat; },
    };
    let n = v.len();
    let key_raw = string_of(&v, 0, eq);
    let value_raw = string_of(&v, eq + 1, n);
    proof {
        assert(key_raw@ =~= kv@.take(eq as int));
        assert(value_raw@ =~= kv@.skip(eq as int + 1));
    }
    let key = trim(key_raw.as_str());
    let value = trim(value_raw.as_str());
    let k = key.as_str();
    let val = value.as_str();
    assert(spec_split_kv(kv@) == Some((key@, value@)));
    proof {
        reveal_strlit("source.github_username"); reveal_strlit("source.gitflare_url");
        reveal_strlit("source.auth_token"); reveal_strlit("target.path");
        reveal_strlit("target.mode"); reveal_strlit("compression.backend");
        reveal_strlit("compression.tier"); reveal_strlit("compression.dictionary_size_mb");
        reveal_strlit("compression.dedup"); reveal_strlit("compression.volume_splitting.size_mb");
        reveal_strlit("extraction.target"); reveal_strlit("toggles.clear_after_lock");
        reveal_strlit("toggles.verify_after_sync"); reveal_strlit("toggles.encryption");
        reveal_strlit("toggles.recovery_records"); reveal_strlit("integrations.gitflare.port");
        reveal_strlit("integrations.gitflare.bind_address"); reveal_strlit("encryption.password");
    }
    if str_eq(k, "source.github_username") {
        config.source.github_username = Some(value.clone());
    } else if str_eq(k, "source.gitflare_url") {
        config.source.gitflare_url = Some(value.clone());
    } else if str_eq(k, "source.auth_token") {
        config.source.auth_token = Some(value.clone());
    } else if str_eq(k, "target.path") {
        config.target.path = value.clone();
    } else if str_eq(k, "target.mode") {
        proof { reveal_strlit("removable"); reveal_strlit("local"); reveal_strlit("Invalid mode. Use: removable | local"); }
        if str_eq(val, "removable") {
            config.target.mode = TargetMode::Removable;
        } else if str_eq(val, "local") {
            config.target.mode = TargetMode::Local;
        } else {
            return SetOutcome::Rejected("Invalid mode. Use: removable | local".to_owned());
        }
    } else if str_eq(k, "compression.backend") {
        proof { reveal_strlit("zstd"); reveal_strlit("Invalid backend. Use: zstd"); }
        if str_eq(val, "zstd") {
            config.compression.backend = CompressionBackend::Zstd;
        } else {
            return SetOutcome::Rejected("Invalid backend. Use: zstd".to_owned());
        }
    } else if str_eq(k, "compression.tier") {
        proof {
            reveal_strlit("auto"); reveal_strlit("low"); reveal_strlit("medium"); reveal_strlit("high");
            reveal_strlit("Invalid tier. Use: auto | low | medium | high");
        }
        if str_eq(val, "auto") {
            config.compression.tier = CompressionTier::Auto;
        } else if str_eq(val, "low") {
            config.compression.tier = CompressionTier::Low;
        } else if str_eq(val, "medium") {
            config.compression.tier = CompressionTier::Medium;
        } else if str_eq(val, "high") {
            config.compression.tier = CompressionTier::High;
        } else {
            return SetOutcome::Rejected("Invalid tier. Use: auto | low | medium | high".to_owned());
        }
    } else if str_eq(k, "compression.dictionary_size_mb") {
        match parse_u32(val) {
            Some(n) => { config.compression.dictionary_size_mb = n; },
            None => {
                proof { reveal_strlit("Invalid number: "); }
                return SetOutcome::Rejected(message_with("Invalid number: ", &value));
            },
        }
    } else if str_eq(k, "compression.dedup") {
        match bool_value(val) {
            Some(b) => { config.compression.dedup = b; },
            None => {
                proof { reveal_strlit("Invalid value. Use: true | false"); }
                return SetOutcome::Rejected("Invalid value. Use: true | false".to_owned());
            },
        }
    } else if str_eq(k, "compression.volume_splitting.size_mb") {
        proof {
            reveal_strlit("off"); reveal_strlit("0");
            reveal_strlit("Invalid value. Use: a positive number in MB, or 'off' to disable");
        }
        if str_eq(val, "off") || str_eq(val, "0") {
            config.compression.volume_splitting = None;
        } else {
            match parse_u64(val) {
                Some(n) => {
                    if n > 0 {
                        config.compression.volume_splitting = Some(VolumeSplitting { size_mb: n });
                    } else {
                        return SetOutcome::Rejected(
                            "Invalid value. Use: a positive number in MB, or 'off' to disable".to_owned());
                    }
                },
                None => {
                    return SetOutcome::Rejected(
                        "Invalid value. Use: a positive number in MB, or 'off' to disable".to_owned());
                },
            }
        }
    } else if str_eq(k, "extraction.target") {
        proof { reveal_strlit("usb"); reveal_strlit("host"); reveal_strlit("Invalid target. Use: usb | host"); }
        if str_eq(val, "usb") {
            config.extraction.target = ExtractionTarget::Usb;
        } else if str_eq(val, "host") {
            config.extraction.target = ExtractionTarget::Host;
        } else {
            return SetOutcome::Rejected("Invalid target. Use: usb | host".to_owned());
        }
    } else if str_eq(k, "toggles.clear_after_lock") || str_eq(k, "toggles.verify_after_sync")
        || str_eq(k, "toggles.encryption") || str_eq(k, "toggles.recovery_records") {
        match bool_value(val) {
            Some(b) => {
                if str_eq(k, "toggles.clear_after_lock") {
                    config.toggles.clear_after_lock = b;
                } else if str_eq(k, "toggles.verify_after_sync") {
                    config.toggles.verify_after_sync = b;
                } else if str_eq(k, "toggles.encryption") {
                    config.toggles.encryption = b;
                } else {
                    config.toggles.recovery_records = b;
                }
            },
            None => {
                proof { reveal_strlit("Invalid value. Use: true | false"); }
                return SetOutcome::Rejected("Invalid value. Use: true | false".to_owned());
            },
        }
    } else if str_eq(k, "integrations.gitflare.port") {
        match parse_u16(val) {
            Some(n) => {
                proof { reveal_strlit("0.0.0.0"); }
                let g = match config.integrations.gitflare.take() {
                    Some(o) => GitFlareConfig { port: n, bind_address: o.bind_address },
                    None => GitFlareConfig { port: n, bind_address: "0.0.0.0".to_owned() },
                };
                config.integrations.gitflare = Some(g);
            },
            None => {
                proof { reveal_strlit("Invalid port number: "); }
                return SetOutcome::Rejected(message_with("Invalid port number: ", &value));
            },
        }
    } else if str_eq(k, "integrations.gitflare.bind_address") {
        let g = match config.integrations.gitflare.take() {
            Some(o) => GitFlareConfig { port: o.port, bind_address: value.clone() },
            None => GitFlareConfig { port: 8080, bind_address: value.clone() },
        };
        config.integrations.gitflare = Some(g);
    } else if str_eq(k, "encryption.password") {
        let salt = match config.encryption.take() {
            Some(e) => e.salt,
            None => None,
        };
        config.encryption = Some(EncryptionConfig { password: Some(value.clone()), salt });
    } else {
        return SetOutcome::UnknownKey(key);
    }
    SetOutcome::Updated { key, value }
}

/// Setting the user name, the GitFlare URL, the target path or the bind
/// address and then reading it back gives the value set.
pub proof fn lemma_set_then_get(before: Config, after: Config, key: Seq<char>, value: Seq<char>)
    requires
        key == "source.github_username"@ || key == "source.gitflare_url"@ || key == "target.path"@
            || key == "integrations.gitflare.bind_address"@,
        spec_set_applies(before, key, value, after),
    ensures
        spec_config_get(after, key) == Some(value),
{
    reveal_strlit("source.github_username"); reveal_strlit("source.gitflare_url");
    reveal_strlit("source.auth_token"); reveal_strlit("target.path");
    reveal_strlit("target.mode"); reveal_strlit("compression.backend");
    reveal_strlit("compression.tier"); reveal_strlit("compression.dictionary_size_mb");
    reveal_strlit("compression.dedup"); reveal_strlit("compression.volume_splitting.size_mb");
    reveal_strlit("extraction.target"); reveal_strlit("toggles.clear_after_lock");
    reveal_strlit("toggles.verify_after_sync"); reveal_strlit("toggles.encryption");
    reveal_strlit("toggles.recovery_records"); reveal_strlit("integrations.gitflare.port");
    reveal_strlit("integrations.gitflare.bind_address");
    reveal_strlit("true"); reveal_strlit("false");
    if key == "source.github_username"@ {
        assert(spec_config_get(after, key) == Some(spec_or_not_set(after.source.github_username)));
    } else if key == "source.gitflare_url"@ {
        assert(spec_config_get(after, key) == Some(spec_or_not_set(after.source.gitflare_url)));
    } else if key == "target.path"@ {
        assert(key.len() == 11);
        assert(key != "source.auth_token"@);
        assert(spec_config_get(after, key) == Some(after.target.path@));
    } else {
        assert(key == "integrations.gitflare.bind_address"@);
        assert(key.len() == 34);
        assert(key != "source.auth_token"@ && key != "target.path"@ && key != "target.mode"@);
        assert(key != "compression.backend"@ && key != "compression.tier"@);
        assert(key != "compression.dictionary_size_mb"@ && key != "compression.volume_splitting.size_mb"@);
        assert(key != "extraction.target"@ && key != "integrations.gitflare.port"@);
        assert(after.integrations.gitflare is Some);
    }
}

} // verus!
