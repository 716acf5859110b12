//! The configuration model: source, target, compression, toggles.
use vstd::prelude::*;

use crate::error::GitkaError;
use crate::paths::{join_path, spec_join};
use crate::encryption::{derive_key, generate_salt, spec_derive_key, EncryptionKey};
use crate::hashing::{hex_decode, hex_encode, spec_hex_decode, spec_hex_lower};

verus! {

/// Where repositories come from.
pub struct SourceConfig {
    /// GitHub username or organization.
    pub github_username: Option<String>,
    /// GitFlare instance URL, when GitFlare is the source.
    pub gitflare_url: Option<String>,
    /// Authentication token (GitHub PAT or GitFlare token).
    pub auth_token: Option<String>,
}

/// The backup drive.
pub struct TargetConfig {
    /// Root of the USB or backup drive.
    pub path: String,
    /// Detection mode.
    pub mode: TargetMode,
}

#[derive(Debug, Clone, Copy, PartialEq, Eq, Structural)]
pub enum TargetMode {
    Removable,
    Local,
}

/// Per-repository settings.
pub struct RepoConfig {
    /// Repository name.
    pub name: String,
    /// Whether the repository may be extracted for offline work.
    pub workspace_eligible: bool,
    /// Whether to clone full history rather than a shallow copy.
    pub full_history: bool,
    /// Last synced commit hash.
    pub last_synced: Option<String>,
}

/// Compression settings.
pub struct CompressionConfig {
    pub backend: CompressionBackend,
    pub tier: CompressionTier,
    /// Dictionary size in MB.
    pub dictionary_size_mb: u32,
    /// Volume splitting, off when `None`.
    pub volume_splitting: Option<VolumeSplitting>,
    pub solid: SolidMode,
    /// Cross-repository deduplication.
    pub dedup: bool,
}

#[derive(Debug, Clone, Copy, PartialEq, Eq, Structural)]
pub enum CompressionBackend {
    Zstd,
}

#[derive(Debug, Clone, Copy, PartialEq, Eq, Structural)]
pub enum CompressionTier {
    Auto,
    Low,
    Medium,
    High,
}

/// Size of each volume part.
#[derive(Debug, Clone, Copy, PartialEq, Eq, Structural)]
pub struct VolumeSplitting {
    /// Split size in MB.
    pub size_mb: u64,
}

#[derive(Debug, Clone, Copy, PartialEq, Eq, Structural)]
pub enum SolidMode {
    /// Per-file compression ("none" in the configuration file).
    PerFile,
    PerRepo,
    FullArchive,
}

/// Where repositories are extracted.
#[derive(Debug, Clone, Copy, PartialEq, Eq, Structural)]
pub struct ExtractionConfig {
    pub target: ExtractionTarget,
}

#[derive(Debug, Clone, Copy, PartialEq, Eq, Structural)]
pub enum ExtractionTarget {
    Usb,
    Host,
}

/// Feature toggles.
#[derive(Debug, Clone, Copy, PartialEq, Eq, Structural)]
pub struct Toggles {
    /// Clear the extraction location after lock or serve-stop.
    pub clear_after_lock: bool,
    /// Verify archive integrity after sync or recompression.
    pub verify_after_sync: bool,
    /// AES-256-GCM encryption.
    pub encryption: bool,
    /// par2 recovery records.
    pub recovery_records: bool,
}

/// Encryption settings.
pub struct EncryptionConfig {
    /// Encryption password.
    pub password: Option<String>,
    /// Hex-encoded key-derivation salt.
    pub salt: Option<String>,
}

/// Optional integrations.
pub struct Integrations {
    pub gitflare: Option<GitFlareConfig>,
}

/// LAN serving settings.
pub struct GitFlareConfig {
    pub port: u16,
    pub bind_address: String,
}

/// The whole configuration.
pub struct Config {
    pub source: SourceConfig,
    pub target: TargetConfig,
    pub repos: Vec<RepoConfig>,
    pub compression: CompressionConfig,
    pub extraction: ExtractionConfig,
    pub toggles: Toggles,
    pub encryption: Option<EncryptionConfig>,
    pub integrations: Integrations,
}

/// The settings `Config::default` produces, besides the target path "/"
/// and the default GitFlare settings.
pub open spec fn is_default_compression(c: CompressionConfig) -> bool {
    &&& c.backend == CompressionBackend::Zstd
    &&& c.tier == CompressionTier::Auto
    &&& c.dictionary_size_mb == 32
    &&& c.volume_splitting.is_none()
    &&& c.solid == SolidMode::PerRepo
    &&& c.dedup
}

impl Default for Config {
    fn default() -> (c: Config)
        ensures
            c.source.github_username.is_none(),
            c.source.gitflare_url.is_none(),
            c.source.auth_token.is_none(),
            c.target.path@ == seq!['/'],
            c.target.mode == TargetMode::Removable,
            c.repos@.len() == 0,
            is_default_compression(c.compression),
            c.extraction.target == ExtractionTarget::Usb,
            c.toggles == (Toggles {
                clear_after_lock: true,
                verify_after_sync: true,
                encryption: false,
                recovery_records: false,
            }),
            c.encryption.is_none(),
            c.integrations.gitflare matches Some(g) && g.port == 8080
                && g.bind_address@ == seq!['0', '.', '0', '.', '0', '.', '0'],
    {
        let root = "/".to_owned();
        let any = "0.0.0.0".to_owned();
        proof {
            reveal_strlit("/");
            reveal_strlit("0.0.0.0");
        }
        Config {
            source: SourceConfig { github_username: None, gitflare_url: None, auth_token: None },
            target: TargetConfig { path: root, mode: TargetMode::Removable },
            repos: Vec::new(),
            compression: CompressionConfig {
                backend: CompressionBackend::Zstd,
                tier: CompressionTier::Auto,
                dictionary_size_mb: 32,
                volume_splitting: None,
                solid: SolidMode::PerRepo,
                dedup: true,
            },
            extraction: ExtractionConfig { target: ExtractionTarget::Usb },
            toggles: Toggles {
                clear_after_lock: true,
                verify_after_sync: true,
                encryption: false,
                recovery_records: false,
            },
            encryption: None,
            integrations: Integrations {
                gitflare: Some(GitFlareConfig { port: 8080, bind_address: any }),
            },
        }
    }
}

/// "repos", "archive", "extract", "recovery-data", ".gitka".
pub open spec fn s_repos() -> Seq<char> { seq!['r', 'e', 'p', 'o', 's'] }
pub open spec fn s_archive() -> Seq<char> { seq!['a', 'r', 'c', 'h', 'i', 'v', 'e'] }
pub open spec fn s_extract() -> Seq<char> { seq!['e', 'x', 't', 'r', 'a', 'c', 't'] }
pub open spec fn s_recovery_data() -> Seq<char> {
    seq!['r', 'e', 'c', 'o', 'v', 'e', 'r', 'y', '-', 'd', 'a', 't', 'a']
}
pub open spec fn s_state() -> Seq<char> { seq!['.', 'g', 'i', 't', 'k', 'a'] }

/// Index of the first repository configured under `name`, if any.
pub open spec fn spec_first_repo(repos: Seq<RepoConfig>, name: Seq<char>, i: int) -> bool {
    &&& 0 <= i < repos.len()
    &&& repos[i].name@ == name
    &&& forall|j: int| 0 <= j < i ==> repos[j].name@ != name
}

impl Config {
    /// `<target>/repos/archive`.
    pub open spec fn spec_archive_dir(&self) -> Seq<char> {
        spec_join(spec_join(self.target.path@, s_repos()), s_archive())
    }

    /// `<target>/extract`.
    pub open spec fn spec_extract_dir(&self) -> Seq<char> {
        spec_join(self.target.path@, s_extract())
    }

    /// `<target>/recovery-data`.
    pub open spec fn spec_recovery_dir(&self) -> Seq<char> {
        spec_join(self.target.path@, s_recovery_data())
    }

    /// `<target>/.gitka`.
    pub open spec fn spec_state_dir(&self) -> Seq<char> {
        spec_join(self.target.path@, s_state())
    }

    /// The archive directory path.
    pub fn archive_dir(&self) -> (r: String)
        ensures
            r@ == self.spec_archive_dir(),
    {
        proof { reveal_strlit("repos"); reveal_strlit("archive"); }
        let repos = join_path(self.target.path.as_str(), "repos");
        join_path(repos.as_str(), "archive")
    }

    /// The extraction directory path.
    pub fn extract_dir(&self) -> (r: String)
        ensures
            r@ == self.spec_extract_dir(),
    {
        proof { reveal_strlit("extract"); }
        join_path(self.target.path.as_str(), "extract")
    }

    /// The recovery data directory path.
    pub fn recovery_dir(&self) -> (r: String)
        ensures
            r@ == self.spec_recovery_dir(),
    {
        proof { reveal_strlit("recovery-data"); }
        join_path(self.target.path.as_str(), "recovery-data")
    }

    /// The internal state directory path.
    pub fn state_dir(&self) -> (r: String)
        ensures
            r@ == self.spec_state_dir(),
    {
        proof { reveal_strlit(".gitka"); }
        join_path(self.target.path.as_str(), ".gitka")
    }

    /// The first repository configured under `name`.
    pub fn get_repo(&self, name: &str) -> (r: Result<&RepoConfig, GitkaError>)
        ensures
            match r {
                Ok(rc) => exists|i: int| spec_first_repo(self.repos@, name@, i) && self.repos@[i] == *rc,
                Err(e) => (forall|i: int| 0 <= i < self.repos@.len() ==> self.repos@[i].name@ != name@)
                    && (e matches GitkaError::RepoNotFound(n) && n@ == name@),
            },
    {
        let wanted = name.to_owned();
        let mut i: usize = 0;
        while i < self.repos.len()
            invariant
                i <= self.repos@.len(),
                wanted@ == name@,
                forall|j: int| 0 <= j < i ==> self.repos@[j].name@ != name@,
            decreases self.repos@.len() - i,
        {
            if self.repos[i].name == wanted {
                assert(spec_first_repo(self.repos@, name@, i as int));
                return Ok(&self.repos[i]);
            }
            i = i + 1;
        }
        Err(GitkaError::RepoNotFound(wanted))
    }

    /// Whether the repository configured under `name` is workspace-eligible.
    pub fn is_workspace_eligible(&self, name: &str) -> (r: Result<bool, GitkaError>)
        ensures
            match r {
                Ok(b) => exists|i: int| spec_first_repo(self.repos@, name@, i)
                    && b == self.repos@[i].workspace_eligible,
                Err(e) => (forall|i: int| 0 <= i < self.repos@.len() ==> self.repos@[i].name@ != name@)
                    && (e matches GitkaError::RepoNotFound(n) && n@ == name@),
            },
    {
        let repo = self.get_repo(name)?;
        Ok(repo.workspace_eligible)
    }
}

impl Config {
    /// The key that encryption uses: derived from the configured password
    /// and hex salt, when encryption is on, both are set, and the salt
    /// decodes to sixteen bytes.
    pub open spec fn spec_encryption_key(&self) -> Option<Seq<u8>> {
        if !self.toggles.encryption {
            None
        } else {
            match self.encryption {
                Some(enc) => match (enc.password, enc.salt) {
                    (Some(pw), Some(salt)) => match spec_hex_decode(salt@) {
                        Some(bytes) => if bytes.len() == 16 {
                            Some(spec_derive_key(pw@, bytes))
                        } else {
                            None
                        },
                        None => None,
                    },
                    _ => None,
                },
                None => None,
            }
        }
    }

    /// The key that encryption uses, if it is on and configured.
    pub fn get_encryption_key(&self) -> (r: Option<EncryptionKey>)
        ensures
            match self.spec_encryption_key() {
                Some(k) => r matches Some(key) && key@ == k,
                None => r is None,
            },
    {
        if !self.toggles.encryption {
            return None;
        }
        let enc = match &self.encryption {
            Some(e) => e,
            None => { return None; },
        };
        let password = match &enc.password {
            Some(p) => p,
            None => { return None; },
        };
        let salt_hex = match &enc.salt {
            Some(s) => s,
            None => { return None; },
        };
        let bytes = match hex_decode(salt_hex.as_str()) {
            Some(b) => b,
            None => { return None; },
        };
        if bytes.len() != 16 {
            return None;
        }
        Some(derive_key(password.as_str(), bytes.as_slice()))
    }

    /// What making sure of a salt does, with `salt` the bytes used when
    /// there was none: with encryption off nothing changes; with it on, the
    /// encryption section keeps its password and its salt, or gains the
    /// lowercase hex of `salt`; every other field stays.
    pub open spec fn spec_salted(before: Config, after: Config, salt: Seq<u8>) -> bool {
        &&& after.source == before.source
        &&& after.target == before.target
        &&& after.repos == before.repos
        &&& after.compression == before.compression
        &&& after.extraction == before.extraction
        &&& after.toggles == before.toggles
        &&& after.integrations == before.integrations
        &&& !before.toggles.encryption ==> after.encryption == before.encryption
        &&& before.toggles.encryption ==> (after.encryption matches Some(enc) && {
            &&& enc.password == match before.encryption {
                Some(o) => o.password,
                None => None::<String>,
            }
            &&& match before.encryption {
                Some(o) if o.salt is Some => enc.salt == o.salt,
                _ => enc.salt matches Some(sv) && sv@ == spec_hex_lower(salt),
            }
        })
    }

    /// Making sure of a salt a second time changes nothing, whatever bytes
    /// it would use.
    pub proof fn lemma_salted_idempotent(a: Config, b: Config, c: Config, s1: Seq<u8>, s2: Seq<u8>)
        requires
            Config::spec_salted(a, b, s1),
            Config::spec_salted(b, c, s2),
        ensures
            c == b,
    {
        if b.toggles.encryption {
            let eb = b.encryption.unwrap();
            let ec = c.encryption.unwrap();
            assert(ec.password == eb.password);
            assert(ec.salt == eb.salt);
            assert(ec == eb);
        }
    }

    /// With encryption on, makes sure an encryption section exists and
    /// holds a salt, setting the salt to the hex of `salt` when it had none.
    pub fn ensure_encryption_salt_with(&mut self, salt: &[u8; 16])
        ensures
            Config::spec_salted(*old(self), *final(self), salt@),
            final(self).source == old(self).source,
            final(self).target == old(self).target,
            final(self).repos == old(self).repos,
            final(self).compression == old(self).compression,
            final(self).extraction == old(self).extraction,
            final(self).toggles == old(self).toggles,
            final(self).integrations == old(self).integrations,
            !old(self).toggles.encryption ==> final(self).encryption == old(self).encryption,
            old(self).toggles.encryption ==> (final(self).encryption matches Some(enc) && {
                &&& enc.password == match old(self).encryption {
                    Some(o) => o.password,
                    None => None::<String>,
                }
                &&& match old(self).encryption {
                    Some(o) if o.salt is Some => enc.salt == o.salt,
                    _ => enc.salt matches Some(sv) && sv@ == spec_hex_lower(salt@),
                }
            }),
    {
        if !self.toggles.encryption {
            return;
        }
        let (password, old_salt) = match self.encryption.take() {
            Some(e) => (e.password, e.salt),
            None => (None, None),
        };
        let salt_text = match old_salt {
            Some(s) => s,
            None => hex_encode(salt.as_slice()),
        };
        self.encryption = Some(EncryptionConfig { password, salt: Some(salt_text) });
    }

    /// With encryption on, makes sure an encryption section exists and
    /// holds a salt, generating a random one when it had none; fails only
    /// when the system random source does.
    pub fn ensure_encryption_salt(&mut self) -> (r: Result<(), GitkaError>)
        ensures
            r is Ok ==> exists|salt: Seq<u8>| salt.len() == 16 && #[trigger] Config::spec_salted(*old(self), *final(self), salt),
            r is Err ==> old(self).toggles.encryption && !(old(self).encryption matches Some(enc) && enc.salt is Some)
                && *final(self) == *old(self),
    {
        if !self.toggles.encryption {
            proof {
                assert(Config::spec_salted(*old(self), *self, Seq::<u8>::new(16, |i: int| 0u8)));
            }
            return Ok(());
        }
        let has_salt = match &self.encryption {
            Some(e) => e.salt.is_some(),
            None => false,
        };
        if has_salt {
            proof {
                assert(Config::spec_salted(*old(self), *self, Seq::<u8>::new(16, |i: int| 0u8)));
            }
            return Ok(());
        }
        let salt = generate_salt()?;
        self.ensure_encryption_salt_with(&salt);
        proof {
            assert(salt@.len() == 16);
        }
        Ok(())
    }
}

} // verus!
