//! Repository state: archived, or extracted for local work or serving.
use vstd::prelude::*;

use crate::config::{Config, ExtractionTarget, spec_first_repo};
use crate::error::GitkaError;
use crate::paths::{join_path, spec_join};
use crate::text::push_str;

verus! {

/// Where a repository stands.
#[derive(Debug, Clone, Copy, PartialEq, Eq, Structural)]
pub enum RepoState {
    /// Compressed in the archive directory.
    Archived,
    /// Extracted for offline commits.
    ExtractedLocal,
    /// Extracted and served over the LAN.
    ExtractedServed,
}

/// What is kept about one repository.
#[derive(Debug, Clone)]
pub struct RepoMeta {
    pub name: String,
    pub state: RepoState,
    /// Archive file, relative to the archive directory.
    pub archive_path: String,
    /// SHA-256 of the archive, in hexadecimal.
    pub archive_hash: Option<String>,
    /// Total size of all parts in bytes.
    pub archive_size: u64,
    /// Number of parts (1 when not split).
    pub volume_count: u32,
    /// File names of all parts.
    pub archive_parts: Vec<String>,
    pub decompressed_size: Option<u64>,
    pub last_synced: Option<String>,
    pub last_verified: Option<String>,
    /// Where the repository is extracted, when it is.
    pub extraction_path: Option<String>,
    pub dedup_enabled: bool,
    pub dedup_bytes_saved: u64,
}

/// `gitka`.
pub open spec fn s_gitka() -> Seq<char> {
    seq!['g', 'i', 't', 'k', 'a']
}

impl RepoMeta {
    /// The archive file's full path: `<archive dir>/<archive_path>`.
    pub fn archive_full_path(&self, config: &Config) -> (r: String)
        ensures
            r@ == spec_join(config.spec_archive_dir(), self.archive_path@),
    {
        let dir = config.archive_dir();
        join_path(dir.as_str(), self.archive_path.as_str())
    }

    /// Whether the repository may be extracted: it is configured,
    /// workspace-eligible and archived; an unconfigured one is an error.
    pub fn can_extract(&self, config: &Config) -> (r: Result<bool, GitkaError>)
        ensures
            match r {
                Ok(b) => exists|i: int| spec_first_repo(config.repos@, self.name@, i)
                    && b == (config.repos@[i].workspace_eligible && self.state == RepoState::Archived),
                Err(e) => (forall|i: int| 0 <= i < config.repos@.len() ==> config.repos@[i].name@ != self.name@)
                    && (e matches GitkaError::RepoNotFound(n) && n@ == self.name@),
            },
    {
        if !config.is_workspace_eligible(self.name.as_str())? {
            return Ok(false);
        }
        if self.state != RepoState::Archived {
            return Ok(false);
        }
        Ok(true)
    }

    /// Where the repository is extracted to: `<extract dir>/<name>` for the
    /// drive, `<temp>/gitka/<name>` for the host, given the host's
    /// temporary directory.
    pub fn extraction_target(&self, config: &Config, temp_dir: &str) -> (r: String)
        ensures
            config.extraction.target == ExtractionTarget::Usb
                ==> r@ == spec_join(config.spec_extract_dir(), self.name@),
            config.extraction.target == ExtractionTarget::Host
                ==> r@ == spec_join(spec_join(temp_dir@, s_gitka()), self.name@),
    {
        match config.extraction.target {
            ExtractionTarget::Usb => {
                let dir = config.extract_dir();
                join_path(dir.as_str(), self.name.as_str())
            },
            ExtractionTarget::Host => {
                proof { reveal_strlit("gitka"); }
                let dir = join_path(temp_dir, "gitka");
                join_path(dir.as_str(), self.name.as_str())
            },
        }
    }

    /// The recorded extraction path, or else the extraction target.
    pub fn extraction_full_path(&self, config: &Config, temp_dir: &str) -> (r: String)
        ensures
            self.extraction_path matches Some(p) ==> r@ == p@,
            self.extraction_path is None && config.extraction.target == ExtractionTarget::Usb
                ==> r@ == spec_join(config.spec_extract_dir(), self.name@),
            self.extraction_path is None && config.extraction.target == ExtractionTarget::Host
                ==> r@ == spec_join(spec_join(temp_dir@, s_gitka()), self.name@),
    {
        match &self.extraction_path {
            Some(p) => p.clone(),
            None => self.extraction_target(config, temp_dir),
        }
    }
}

/// The sum of the archive sizes.
pub open spec fn spec_total_archive(ms: Seq<RepoMeta>) -> nat
    decreases ms.len(),
{
    if ms.len() == 0 { 0 } else { spec_total_archive(ms.drop_last()) + ms.last().archive_size as nat }
}

/// The sum of the known decompressed sizes.
pub open spec fn spec_total_decompressed(ms: Seq<RepoMeta>) -> nat
    decreases ms.len(),
{
    if ms.len() == 0 {
        0
    } else {
        spec_total_decompressed(ms.drop_last()) + match ms.last().decompressed_size {
            Some(s) => s as nat,
            None => 0,
        }
    }
}

/// Keeps the state of the repositories of one configuration.
pub struct RepoManager {
    config: Config,
}

/// `repos`.
pub open spec fn s_repos_dir() -> Seq<char> {
    seq!['r', 'e', 'p', 'o', 's']
}

impl RepoManager {
    pub closed spec fn spec_config(&self) -> Config {
        self.config
    }

    pub fn new(config: Config) -> (r: RepoManager)
        ensures
            r.spec_config() == config,
    {
        RepoManager { config }
    }

    /// The configuration it manages.
    pub fn config(&self) -> (r: &Config)
        ensures
            *r == self.spec_config(),
    {
        &self.config
    }

    /// Where the state of a repository is kept: `<state dir>/repos/<name>.toml`.
    pub fn meta_path(&self, name: &str) -> (r: String)
        ensures
            r@ == spec_join(spec_join(self.spec_config().spec_state_dir(), s_repos_dir()), name@ + ".toml"@),
    {
        proof { reveal_strlit("repos"); }
        let state = self.config.state_dir();
        let dir = join_path(state.as_str(), "repos");
        let mut file = name.to_owned();
        push_str(&mut file, ".toml");
        join_path(dir.as_str(), file.as_str())
    }

    /// The directory holding the state files: `<state dir>/repos`.
    pub fn meta_dir(&self) -> (r: String)
        ensures
            r@ == spec_join(self.spec_config().spec_state_dir(), s_repos_dir()),
    {
        proof { reveal_strlit("repos"); }
        let state = self.config.state_dir();
        join_path(state.as_str(), "repos")
    }

    /// Whether a repository is extracted.
    pub fn is_extracted(&self, meta: &RepoMeta) -> (r: bool)
        ensures
            r == (meta.state != RepoState::Archived),
    {
        meta.state != RepoState::Archived
    }

    /// Records an extraction.
    pub fn mark_extracted(&self, meta: &mut RepoMeta, state: RepoState, extraction_path: String)
        ensures
            *final(meta) == (RepoMeta { state, extraction_path: Some(extraction_path), ..*old(meta) }),
    {
        meta.state = state;
        meta.extraction_path = Some(extraction_path);
    }

    /// Records a recompression: archived again, with its new archive.
    pub fn mark_archived(&self, meta: &mut RepoMeta, archive_path: String, archive_hash: String, archive_size: u64)
        ensures
            *final(meta) == (RepoMeta {
                state: RepoState::Archived,
                archive_path,
                archive_hash: Some(archive_hash),
                archive_size,
                extraction_path: None,
                ..*old(meta)
            }),
    {
        meta.state = RepoState::Archived;
        meta.archive_path = archive_path;
        meta.archive_hash = Some(archive_hash);
        meta.archive_size = archive_size;
        meta.extraction_path = None;
    }

    /// The total size of all archives.
    pub fn total_archive_size(&self, repos: &Vec<RepoMeta>) -> (r: u64)
        requires
            spec_total_archive(repos@) <= u64::MAX,
        ensures
            r == spec_total_archive(repos@),
    {
        let mut total: u64 = 0;
        let mut i: usize = 0;
        while i < repos.len()
            invariant
                i <= repos@.len(),
                spec_total_archive(repos@) <= u64::MAX,
                total == spec_total_archive(repos@.take(i as int)),
            decreases repos@.len() - i,
        {
            proof {
                assert(repos@.take(i as int + 1).drop_last() =~= repos@.take(i as int));
                lemma_total_archive_prefix(repos@, i as int + 1);
            }
            total = total + repos[i].archive_size;
            i = i + 1;
        }
        proof { assert(repos@.take(repos@.len() as int) =~= repos@); }
        total
    }

    /// The total of the known decompressed sizes.
    pub fn total_decompressed_size(&self, repos: &Vec<RepoMeta>) -> (r: u64)
        requires
            spec_total_decompressed(repos@) <= u64::MAX,
        ensures
            r == spec_total_decompressed(repos@),
    {
        let mut total: u64 = 0;
        let mut i: usize = 0;
        while i < repos.len()
            invariant
                i <= repos@.len(),
                spec_total_decompressed(repos@) <= u64::MAX,
                total == spec_total_decompressed(repos@.take(i as int)),
            decreases repos@.len() - i,
        {
            proof {
                assert(repos@.take(i as int + 1).drop_last() =~= repos@.take(i as int));
                lemma_total_decompressed_prefix(repos@, i as int + 1);
            }
            match repos[i].decompressed_size {
                Some(s) => { total = total + s; },
                None => {},
            }
            i = i + 1;
        }
        proof { assert(repos@.take(repos@.len() as int) =~= repos@); }
        total
    }
}

/// A prefix's archive total is at most the whole total.
proof fn lemma_total_archive_prefix(ms: Seq<RepoMeta>, i: int)
    requires
        0 <= i <= ms.len(),
    ensures
        spec_total_archive(ms.take(i)) <= spec_total_archive(ms),
    decreases ms.len(),
{
    if i < ms.len() {
        assert(ms.drop_last().take(i) =~= ms.take(i));
        lemma_total_archive_prefix(ms.drop_last(), i);
    } else {
        assert(ms.take(i) =~= ms);
    }
}

/// A prefix's decompressed total is at most the whole total.
proof fn lemma_total_decompressed_prefix(ms: Seq<RepoMeta>, i: int)
    requires
        0 <= i <= ms.len(),
    ensures
        spec_total_decompressed(ms.take(i)) <= spec_total_decompressed(ms),
    decreases ms.len(),
{
    if i < ms.len() {
        assert(ms.drop_last().take(i) =~= ms.take(i));
        lemma_total_decompressed_prefix(ms.drop_last(), i);
    } else {
        assert(ms.take(i) =~= ms);
    }
}

} // verus!
