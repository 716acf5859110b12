//! The decisions the command-line tool makes between its reads and writes:
//! how a drive is laid out and configured, which repositories a command
//! covers, what a sync does with each one, and what is recorded after a
//! repository is compressed.
use vstd::prelude::*;

use crate::config::{
    spec_first_repo, RepoConfig, CompressionBackend, CompressionTier, Config, ExtractionTarget, SolidMode, TargetMode, Toggles,
    VolumeSplitting,
};
use crate::error::GitkaError;
use crate::repo::{RepoMeta, RepoState};
use crate::writer::CompressResult;
use crate::compress::{lemma_part_name_injective, part_name, spec_part_name};
use crate::dirty::{format_age, spec_add_once, spec_format_age, spec_strs, DirtyAction, DirtyEntry, DirtyEntryView, DirtyLog};
use crate::sync::SyncStatus;
use crate::paths::{join_path, spec_join};
use crate::strings::{parse_u64, spec_parse_u64, spec_trim, trim};
use crate::text::{chars_of, push_char, push_decimal, push_str, spec_decimal, str_eq};

verus! {

/// The view of an optional string slice.
pub open spec fn opt_str(o: Option<&str>) -> Option<Seq<char>> {
    match o {
        Some(s) => Some(s@),
        None => None,
    }
}

/// The view of an optional string.
pub open spec fn opt_string(o: Option<String>) -> Option<Seq<char>> {
    match o {
        Some(s) => Some(s@),
        None => None,
    }
}

fn owned_opt(o: Option<&str>) -> (r: Option<String>)
    ensures
        opt_string(r) == opt_str(o),
{
    match o {
        Some(s) => Some(s.to_owned()),
        None => None,
    }
}

/// The directories a fresh drive gets, in the order they are created; the
/// deduplication store only where `with_dedup_store` is set.
pub open spec fn spec_init_directories(target: Seq<char>, with_dedup_store: bool) -> Seq<Seq<char>> {
    let state = spec_join(target, ".gitka"@);
    let base = seq![
        spec_join(spec_join(target, "repos"@), "archive"@),
        spec_join(target, "extract"@),
        spec_join(spec_join(target, "tools"@), "gitflare"@),
        spec_join(spec_join(target, "tools"@), "recovery"@),
        spec_join(target, "recovery-data"@),
        spec_join(state, "logs"@),
        spec_join(state, "repos"@),
    ];
    if with_dedup_store {
        base.push(spec_join(state, "dedup-store"@))
    } else {
        base
    }
}

/// The directories a fresh drive gets.
pub fn init_directories(target: &str, with_dedup_store: bool) -> (r: Vec<String>)
    ensures
        r@.map_values(|s: String| s@) == spec_init_directories(target@, with_dedup_store),
{
    let repos = join_path(target, "repos");
    let tools = join_path(target, "tools");
    let state = join_path(target, ".gitka");
    let mut out: Vec<String> = Vec::new();
    out.push(join_path(repos.as_str(), "archive"));
    out.push(join_path(target, "extract"));
    out.push(join_path(tools.as_str(), "gitflare"));
    out.push(join_path(tools.as_str(), "recovery"));
    out.push(join_path(target, "recovery-data"));
    out.push(join_path(state.as_str(), "logs"));
    out.push(join_path(state.as_str(), "repos"));
    if with_dedup_store {
        out.push(join_path(state.as_str(), "dedup-store"));
    }
    proof {
        assert(out@.map_values(|s: String| s@) =~= spec_init_directories(target@, with_dedup_store));
    }
    out
}

/// Where a drive keeps its configuration: `<target>/.gitka/gitka.toml`.
pub open spec fn spec_config_file(target: Seq<char>) -> Seq<char> {
    spec_join(spec_join(target, ".gitka"@), "gitka.toml"@)
}

/// Where a drive keeps its configuration.
pub fn config_file_path(target: &str) -> (r: String)
    ensures
        r@ == spec_config_file(target@),
{
    let state = join_path(target, ".gitka");
    join_path(state.as_str(), "gitka.toml")
}

/// The places a configuration is looked for, in order: `gitka.toml` and
/// `.gitka/gitka.toml` in the working directory, then `.gitka/gitka.toml`
/// in the home directory.
pub fn config_candidates(current_dir: &str, home_dir: &str) -> (r: Vec<String>)
    ensures
        r@.map_values(|s: String| s@) == seq![
            spec_join(current_dir@, "gitka.toml"@),
            spec_config_file(current_dir@),
            spec_config_file(home_dir@),
        ],
{
    let mut out: Vec<String> = Vec::new();
    out.push(join_path(current_dir, "gitka.toml"));
    out.push(config_file_path(current_dir));
    out.push(config_file_path(home_dir));
    proof {
        assert(out@.map_values(|s: String| s@) =~= seq![
            spec_join(current_dir@, "gitka.toml"@),
            spec_config_file(current_dir@),
            spec_config_file(home_dir@),
        ]);
    }
    out
}

/// A configuration that is the default one but for the target path, the
/// source, volume splitting, the deduplication switch, the tier and the
/// feature toggles given.
pub open spec fn spec_fresh_config(
    c: Config,
    target: Seq<char>,
    github_username: Option<Seq<char>>,
    gitflare_url: Option<Seq<char>>,
    auth_token: Option<Seq<char>>,
    tier: CompressionTier,
    volume_mb: Option<u64>,
    dedup: bool,
    recovery_records: bool,
    encryption: bool,
) -> bool {
    &&& c.target.path@ == target
    &&& c.target.mode == TargetMode::Removable
    &&& opt_string(c.source.github_username) == github_username
    &&& opt_string(c.source.gitflare_url) == gitflare_url
    &&& opt_string(c.source.auth_token) == auth_token
    &&& c.repos@.len() == 0
    &&& c.compression.backend == CompressionBackend::Zstd
    &&& c.compression.tier == tier
    &&& c.compression.dictionary_size_mb == 32
    &&& c.compression.volume_splitting == match volume_mb {
        Some(n) => Some(VolumeSplitting { size_mb: n }),
        None => None,
    }
    &&& c.compression.solid == SolidMode::PerRepo
    &&& c.compression.dedup == dedup
    &&& c.extraction.target == ExtractionTarget::Usb
    &&& c.toggles == (Toggles {
        clear_after_lock: true,
        verify_after_sync: true,
        encryption,
        recovery_records,
    })
    &&& c.encryption is None
    &&& c.integrations.gitflare matches Some(g) && g.port == 8080 && g.bind_address@ == "0.0.0.0"@
}

/// The configuration `init` (and `wipe`, which passes no volume size and no
/// deduplication choice) writes: the default one on the target, with the
/// GitHub user name or the GitFlare URL and the token of the named source
/// type, volume splitting when a size is given and the deduplication
/// choice when one is. Any source type but `github` and `gitflare` is an
/// error.
pub fn init_config(
    target: &str,
    source: &str,
    username: Option<&str>,
    token: Option<&str>,
    gitflare_url: Option<&str>,
    volume_size: Option<u64>,
    dedup: Option<bool>,
) -> (r: Result<Config, GitkaError>)
    ensures
        source@ != "github"@ && source@ != "gitflare"@ ==> (r matches Err(GitkaError::Config(m))
            && m@ == "Unknown source type: "@ + source@),
        source@ == "github"@ ==> (r matches Ok(c) && spec_fresh_config(c, target@, opt_str(username), None,
            opt_str(token), CompressionTier::Auto, volume_size, match dedup { Some(d) => d, None => true },
            false, false)),
        source@ == "gitflare"@ ==> (r matches Ok(c) && spec_fresh_config(c, target@, None, opt_str(gitflare_url),
            opt_str(token), CompressionTier::Auto, volume_size, match dedup { Some(d) => d, None => true },
            false, false)),
{
    proof {
        reveal_strlit("github");
        reveal_strlit("gitflare");
        reveal_strlit("0.0.0.0");
    }
    let is_github = str_eq(source, "github");
    let is_gitflare = str_eq(source, "gitflare");
    assert("github"@.len() != "gitflare"@.len());
    if !is_github && !is_gitflare {
        let mut m = "Unknown source type: ".to_owned();
        push_str(&mut m, source);
        return Err(GitkaError::Config(m));
    }
    let mut config = Config::default();
    config.target.path = target.to_owned();
    if is_github {
        config.source.github_username = owned_opt(username);
    } else {
        config.source.gitflare_url = owned_opt(gitflare_url);
    }
    config.source.auth_token = owned_opt(token);
    match volume_size {
        Some(size) => {
            config.compression.volume_splitting = Some(VolumeSplitting { size_mb: size });
        },
        None => {},
    }
    match dedup {
        Some(d) => {
            config.compression.dedup = d;
        },
        None => {},
    }
    proof {
        assert(config.target.path@ == target@);
        assert(config.target.mode == TargetMode::Removable);
        assert(opt_string(config.source.auth_token) == opt_str(token));
        assert(config.repos@.len() == 0);
        assert(config.compression.tier == CompressionTier::Auto);
        assert(config.compression.volume_splitting == match volume_size {
            Some(n) => Some(VolumeSplitting { size_mb: n }),
            None => None,
        });
        assert(config.compression.dedup == match dedup { Some(d) => d, None => true });
        assert(config.toggles == (Toggles {
            clear_after_lock: true,
            verify_after_sync: true,
            encryption: false,
            recovery_records: false,
        }));
        assert(config.integrations.gitflare matches Some(g) && g.port == 8080 && g.bind_address@ == "0.0.0.0"@);
    }
    Ok(config)
}

/// The answers given to the setup wizard, each as typed (unasked
/// questions as empty lines).
pub struct InitAnswers {
    pub source: String,
    pub username: String,
    pub token: String,
    pub gitflare_url: String,
    pub tier: String,
    pub volume_size: String,
    pub dedup: String,
    pub recovery_records: String,
    pub encryption: String,
}

/// An answer trimmed; `None` when nothing is left.
pub open spec fn spec_answer(a: Seq<char>) -> Option<Seq<char>> {
    if spec_trim(a).len() == 0 { None } else { Some(spec_trim(a)) }
}

/// The source type the wizard goes by: the answer trimmed, `github` when
/// empty.
pub open spec fn spec_wizard_source(a: Seq<char>) -> Seq<char> {
    if spec_trim(a).len() == 0 { "github"@ } else { spec_trim(a) }
}

/// The tier an answer names, `Auto` for anything but low, medium or high.
pub open spec fn spec_wizard_tier(a: Seq<char>) -> CompressionTier {
    let t = spec_trim(a);
    if t == "low"@ {
        CompressionTier::Low
    } else if t == "medium"@ {
        CompressionTier::Medium
    } else if t == "high"@ {
        CompressionTier::High
    } else {
        CompressionTier::Auto
    }
}

/// The wizard's tier is the one the trimmed answer names: low, medium or
/// high, and automatic for any other answer.
pub proof fn lemma_wizard_tier(a: Seq<char>)
    ensures
        spec_trim(a) == "low"@ ==> spec_wizard_tier(a) == CompressionTier::Low,
        spec_trim(a) == "medium"@ ==> spec_wizard_tier(a) == CompressionTier::Medium,
        spec_trim(a) == "high"@ ==> spec_wizard_tier(a) == CompressionTier::High,
        spec_trim(a) != "low"@ && spec_trim(a) != "medium"@ && spec_trim(a) != "high"@
            ==> spec_wizard_tier(a) == CompressionTier::Auto,
{
    reveal_strlit("low");
    reveal_strlit("medium");
    reveal_strlit("high");
    let t = spec_trim(a);
    if t == "medium"@ {
        assert(t.len() == 6);
        assert(t != "low"@);
    }
    if t == "high"@ {
        assert(t.len() == 4);
        assert(t != "low"@ && t != "medium"@);
    }
}

/// The volume size an answer gives: its number, or nothing when it is no
/// number or zero.
pub open spec fn spec_wizard_volume(a: Seq<char>) -> Option<u64> {
    match spec_parse_u64(spec_trim(a)) {
        Some(n) if n > 0 => Some(n),
        _ => None,
    }
}

/// Whether a trimmed answer, lower-cased, is the single letter `l`.
pub open spec fn spec_is_letter(a: Seq<char>, lower: char, upper: char) -> bool {
    spec_trim(a) == seq![lower] || spec_trim(a) == seq![upper]
}

fn is_letter(a: &str, lower: char, upper: char) -> (r: bool)
    ensures
        r == spec_is_letter(a@, lower, upper),
{
    let t = trim(a);
    let c = t.as_str();
    let n = c.unicode_len();
    if n != 1 {
        return false;
    }
    let x = c.get_char(0);
    proof {
        if x == lower {
            assert(c@ =~= seq![lower]);
        }
        if x == upper {
            assert(c@ =~= seq![upper]);
        }
    }
    x == lower || x == upper
}

/// The configuration the setup wizard writes, and whether the source type
/// was not recognized (the wizard then goes on without a source).
pub fn wizard_config(target: &str, answers: &InitAnswers) -> (r: (Config, bool))
    ensures
        ({
            let src = spec_wizard_source(answers.source@);
            let known_github = src == "github"@;
            let known_gitflare = src == "gitflare"@;
            &&& r.1 == (!known_github && !known_gitflare)
            &&& spec_fresh_config(
                r.0,
                target@,
                if known_github { spec_answer(answers.username@) } else { None },
                if known_gitflare { spec_answer(answers.gitflare_url@) } else { None },
                if known_github || known_gitflare { spec_answer(answers.token@) } else { None },
                spec_wizard_tier(answers.tier@),
                spec_wizard_volume(answers.volume_size@),
                !spec_is_letter(answers.dedup@, 'n', 'N'),
                spec_is_letter(answers.recovery_records@, 'y', 'Y'),
                spec_is_letter(answers.encryption@, 'y', 'Y'),
            )
        }),
        spec_trim(answers.tier@) == "low"@ ==> r.0.compression.tier == CompressionTier::Low,
        spec_trim(answers.tier@) == "medium"@ ==> r.0.compression.tier == CompressionTier::Medium,
        spec_trim(answers.tier@) == "high"@ ==> r.0.compression.tier == CompressionTier::High,
        spec_trim(answers.tier@) != "low"@ && spec_trim(answers.tier@) != "medium"@
            && spec_trim(answers.tier@) != "high"@ ==> r.0.compression.tier == CompressionTier::Auto,
{
    proof {
        reveal_strlit("github");
        reveal_strlit("gitflare");
        reveal_strlit("low");
        reveal_strlit("medium");
        reveal_strlit("high");
        reveal_strlit("0.0.0.0");
    }
    let mut config = Config::default();
    config.target.path = target.to_owned();
    let src_t = trim(answers.source.as_str());
    let src = if src_t.as_str().unicode_len() == 0 { "github".to_owned() } else { src_t };
    let is_github = str_eq(src.as_str(), "github");
    let is_gitflare = str_eq(src.as_str(), "gitflare");
    assert("github"@.len() != "gitflare"@.len());
    if is_github || is_gitflare {
        if is_github {
            let u = trim(answers.username.as_str());
            if u.as_str().unicode_len() > 0 {
                config.source.github_username = Some(u);
            }
        } else {
            let u = trim(answers.gitflare_url.as_str());
            if u.as_str().unicode_len() > 0 {
                config.source.gitflare_url = Some(u);
            }
        }
        let t = trim(answers.token.as_str());
        if t.as_str().unicode_len() > 0 {
            config.source.auth_token = Some(t);
        }
    }
    let tier = trim(answers.tier.as_str());
    proof { lemma_wizard_tier(answers.tier@); }
    config.compression.tier = if str_eq(tier.as_str(), "low") {
        CompressionTier::Low
    } else if str_eq(tier.as_str(), "medium") {
        CompressionTier::Medium
    } else if str_eq(tier.as_str(), "high") {
        CompressionTier::High
    } else {
        CompressionTier::Auto
    };
    let vol = trim(answers.volume_size.as_str());
    match parse_u64(vol.as_str()) {
        Some(n) => {
            if n > 0 {
                config.compression.volume_splitting = Some(VolumeSplitting { size_mb: n });
            }
        },
        None => {},
    }
    config.compression.dedup = !is_letter(answers.dedup.as_str(), 'n', 'N');
    config.toggles.recovery_records = is_letter(answers.recovery_records.as_str(), 'y', 'Y');
    config.toggles.encryption = is_letter(answers.encryption.as_str(), 'y', 'Y');
    proof {
        let ghost srcv = spec_wizard_source(answers.source@);
        assert(src@ == srcv);
        assert(is_github == (srcv == "github"@));
        assert(is_gitflare == (srcv == "gitflare"@));
        assert(opt_string(config.source.github_username) == if is_github { spec_answer(answers.username@) } else { None });
        assert(opt_string(config.source.gitflare_url) == if is_gitflare { spec_answer(answers.gitflare_url@) } else { None });
        assert(opt_string(config.source.auth_token) == if is_github || is_gitflare { spec_answer(answers.token@) } else { None });
        assert(config.compression.tier == spec_wizard_tier(answers.tier@));
        assert(config.compression.volume_splitting == match spec_wizard_volume(answers.volume_size@) {
            Some(n) => Some(VolumeSplitting { size_mb: n }),
            None => None,
        });
        assert(config.toggles == (Toggles {
            clear_after_lock: true,
            verify_after_sync: true,
            encryption: spec_is_letter(answers.encryption@, 'y', 'Y'),
            recovery_records: spec_is_letter(answers.recovery_records@, 'y', 'Y'),
        }));
        assert(config.integrations.gitflare matches Some(g) && g.port == 8080 && g.bind_address@ == "0.0.0.0"@);
        assert(config.compression.dedup == !spec_is_letter(answers.dedup@, 'n', 'N'));
        assert(config.target.path@ == target@);
    }
    (config, !is_github && !is_gitflare)
}

/// The indices of the names a command covers: those among `wanted`, when
/// names are given, else all; in order.
pub open spec fn spec_selected(all: Seq<Seq<char>>, wanted: Option<Seq<Seq<char>>>, n: nat) -> Seq<usize>
    decreases n,
{
    if n == 0 {
        Seq::empty()
    } else {
        let k = (n - 1) as nat;
        spec_selected(all, wanted, k) + if (match wanted {
            Some(w) => w.contains(all[k as int]),
            None => true,
        }) {
            seq![k as usize]
        } else {
            Seq::empty()
        }
    }
}

/// The views of a list of strings.
pub open spec fn spec_views_of(v: Seq<String>) -> Seq<Seq<char>> {
    v.map_values(|s: String| s@)
}

fn listed(names: &Vec<String>, name: &str) -> (r: bool)
    ensures
        r == spec_views_of(names@).contains(name@),
{
    let mut i: usize = 0;
    while i < names.len()
        invariant
            i <= names@.len(),
            forall|j: int| 0 <= j < i ==> names@[j]@ != name@,
        decreases names@.len() - i,
    {
        if str_eq(names[i].as_str(), name) {
            proof { assert(spec_views_of(names@)[i as int] == name@); }
            return true;
        }
        i = i + 1;
    }
    proof {
        if spec_views_of(names@).contains(name@) {
            let j = choose|j: int| 0 <= j < spec_views_of(names@).len() && spec_views_of(names@)[j] == name@;
            assert(names@[j]@ == name@);
        }
    }
    false
}

/// The positions of the repositories a command covers, given the names of
/// all and the names asked for, if any.
pub fn select_named(all: &Vec<String>, wanted: Option<&Vec<String>>) -> (r: Vec<usize>)
    ensures
        r@ == spec_selected(spec_views_of(all@), match wanted {
            Some(w) => Some(spec_views_of(w@)),
            None => None,
        }, all@.len()),
{
    let ghost w = match wanted { Some(w) => Some(spec_views_of(w@)), None => None::<Seq<Seq<char>>> };
    let mut out: Vec<usize> = Vec::new();
    let mut i: usize = 0;
    while i < all.len()
        invariant
            i <= all@.len(),
            w == match wanted { Some(w) => Some(spec_views_of(w@)), None => None::<Seq<Seq<char>>> },
            out@ == spec_selected(spec_views_of(all@), w, i as nat),
        decreases all@.len() - i,
    {
        let keep = match wanted {
            Some(names) => listed(names, all[i].as_str()),
            None => true,
        };
        proof { assert(spec_views_of(all@)[i as int] == all@[i as int]@); }
        if keep {
            out.push(i);
        }
        proof {
            assert(out@ =~= spec_selected(spec_views_of(all@), w, (i + 1) as nat));
        }
        i = i + 1;
    }
    out
}

/// What a sync does with one repository of the source.
#[derive(Debug)]
pub enum RemoteAction {
    /// Archived and untouched during the session: left alone.
    SkipUnmodified,
    /// Archived: fetching into it needs an extraction first.
    SkipArchived,
    /// Extracted: fetch into, and sync, the working copy at this path.
    Update(String),
    /// Not known yet: clone it, shallow or with its full history.
    Clone { shallow: bool },
}

/// Whether a clone of `name` is shallow: unless the repository is
/// configured for full history.
pub open spec fn spec_shallow(config: Config, name: Seq<char>) -> bool {
    !exists|i: int| spec_first_repo(config.repos@, name, i) && config.repos@[i].full_history
}

/// What a sync does with the source repository `name`, given whether the
/// repositories were named on the command line, whether the session log
/// holds it, and what is recorded of it locally.
pub fn plan_remote_sync(
    config: &Config,
    name: &str,
    named: bool,
    dirty: bool,
    local: Option<&RepoMeta>,
) -> (r: Result<RemoteAction, GitkaError>)
    ensures
        match local {
            Some(m) => if m.state == RepoState::Archived {
                if !named && !dirty { r matches Ok(RemoteAction::SkipUnmodified) } else { r matches Ok(RemoteAction::SkipArchived) }
            } else {
                match m.extraction_path {
                    Some(p) => r matches Ok(RemoteAction::Update(q)) && q == p,
                    None => r matches Err(GitkaError::Extraction(msg)) && msg@ == "No extraction path for "@ + name@,
                }
            },
            None => r matches Ok(RemoteAction::Clone { shallow }) && shallow == spec_shallow(*config, name@),
        },
{
    match local {
        Some(m) => {
            if m.state == RepoState::Archived {
                if !named && !dirty {
                    return Ok(RemoteAction::SkipUnmodified);
                }
                return Ok(RemoteAction::SkipArchived);
            }
            match &m.extraction_path {
                Some(p) => Ok(RemoteAction::Update(p.clone())),
                None => {
                    let mut msg = "No extraction path for ".to_owned();
                    push_str(&mut msg, name);
                    Err(GitkaError::Extraction(msg))
                },
            }
        },
        None => {
            let shallow = match config.get_repo(name) {
                Ok(rc) => !rc.full_history,
                Err(_) => true,
            };
            proof { lemma_first_repo_unique(config.repos@, name@); }
            Ok(RemoteAction::Clone { shallow })
        },
    }
}

/// At most one index is the first repository configured under a name.
proof fn lemma_first_repo_unique(repos: Seq<RepoConfig>, name: Seq<char>)
    ensures
        forall|i: int, j: int| spec_first_repo(repos, name, i) && spec_first_repo(repos, name, j) ==> i == j,
{
    assert forall|i: int, j: int| spec_first_repo(repos, name, i) && spec_first_repo(repos, name, j) implies i == j by {
        if i < j {
            assert(repos[i].name@ != name);
        } else if j < i {
            assert(repos[j].name@ != name);
        }
    }
}

/// Whether a sync compresses all repositories into one stream: in
/// full-archive mode, when it covers more than one.
pub fn use_full_archive(solid: SolidMode, count: usize) -> (r: bool)
    ensures
        r == (solid == SolidMode::FullArchive && count > 1),
{
    solid == SolidMode::FullArchive && count > 1
}

/// The archive file of a repository: `<name>.gitka.zst`.
pub open spec fn spec_archive_file(name: Seq<char>) -> Seq<char> {
    name + ".gitka.zst"@
}

/// The archive file of a repository.
pub fn archive_file_name(name: &str) -> (r: String)
    ensures
        r@ == spec_archive_file(name@),
{
    let mut s = name.to_owned();
    push_str(&mut s, ".gitka.zst");
    s
}

/// What is recorded of a freshly cloned repository before it is
/// compressed: archived under its archive name, with its size on disk.
pub fn cloned_meta(name: &str, repo_size: u64) -> (r: RepoMeta)
    ensures
        r.name@ == name@,
        r.state == RepoState::Archived,
        r.archive_path@ == spec_archive_file(name@),
        r.archive_hash is None,
        r.archive_size == 0,
        r.volume_count == 1,
        r.archive_parts@.len() == 0,
        r.decompressed_size == Some(repo_size),
        r.last_synced is None,
        r.last_verified is None,
        r.extraction_path is None,
        !r.dedup_enabled,
        r.dedup_bytes_saved == 0,
{
    RepoMeta {
        name: name.to_owned(),
        state: RepoState::Archived,
        archive_path: archive_file_name(name),
        archive_hash: None,
        archive_size: 0,
        volume_count: 1,
        archive_parts: Vec::new(),
        decompressed_size: Some(repo_size),
        last_synced: None,
        last_verified: None,
        extraction_path: None,
        dedup_enabled: false,
        dedup_bytes_saved: 0,
    }
}

/// Records a finished compression: the archive's size, hash, parts and
/// what deduplication saved; the rest stays.
pub fn record_compression(meta: &mut RepoMeta, result: CompressResult, hash: String, dedup: bool)
    ensures
        *final(meta) == (RepoMeta {
            archive_size: result.total_size,
            archive_hash: Some(hash),
            volume_count: result.volume_count,
            archive_parts: result.part_files,
            dedup_enabled: dedup,
            dedup_bytes_saved: result.dedup_bytes_saved,
            ..*old(meta)
        }),
{
    meta.archive_size = result.total_size;
    meta.archive_hash = Some(hash);
    meta.volume_count = result.volume_count;
    meta.archive_parts = result.part_files;
    meta.dedup_enabled = dedup;
    meta.dedup_bytes_saved = result.dedup_bytes_saved;
}

/// What is recorded of each repository of a full archive: archived, in the
/// shared archive, with its hash, size and parts.
pub fn full_archive_meta(name: &str, hash: String, result: CompressResult, dedup: bool) -> (r: RepoMeta)
    ensures
        r == (RepoMeta {
            name: r.name,
            state: RepoState::Archived,
            archive_path: r.archive_path,
            archive_hash: Some(hash),
            archive_size: result.total_size,
            volume_count: result.volume_count,
            archive_parts: result.part_files,
            decompressed_size: None,
            last_synced: None,
            last_verified: None,
            extraction_path: None,
            dedup_enabled: dedup,
            dedup_bytes_saved: result.dedup_bytes_saved,
        }),
        r.name@ == name@,
        r.archive_path@ == "full-archive.gitka.zst"@,
{
    RepoMeta {
        name: name.to_owned(),
        state: RepoState::Archived,
        archive_path: "full-archive.gitka.zst".to_owned(),
        archive_hash: Some(hash),
        archive_size: result.total_size,
        volume_count: result.volume_count,
        archive_parts: result.part_files,
        decompressed_size: None,
        last_synced: None,
        last_verified: None,
        extraction_path: None,
        dedup_enabled: dedup,
        dedup_bytes_saved: result.dedup_bytes_saved,
    }
}

/// What is recorded of an imported repository.
pub fn imported_meta(name: &str, hash: String, result: CompressResult, repo_size: u64, dedup: bool) -> (r: RepoMeta)
    ensures
        r == (RepoMeta {
            name: r.name,
            state: RepoState::Archived,
            archive_path: r.archive_path,
            archive_hash: Some(hash),
            archive_size: result.total_size,
            volume_count: result.volume_count,
            archive_parts: result.part_files,
            decompressed_size: Some(repo_size),
            last_synced: None,
            last_verified: None,
            extraction_path: None,
            dedup_enabled: dedup,
            dedup_bytes_saved: result.dedup_bytes_saved,
        }),
        r.name@ == name@,
        r.archive_path@ == spec_archive_file(name@),
{
    RepoMeta {
        name: name.to_owned(),
        state: RepoState::Archived,
        archive_path: archive_file_name(name),
        archive_hash: Some(hash),
        archive_size: result.total_size,
        volume_count: result.volume_count,
        archive_parts: result.part_files,
        decompressed_size: Some(repo_size),
        last_synced: None,
        last_verified: None,
        extraction_path: None,
        dedup_enabled: dedup,
        dedup_bytes_saved: result.dedup_bytes_saved,
    }
}

/// Records a lock: archived again under its archive name, with the new
/// archive's hash, size and parts, and no extraction.
pub fn record_lock(meta: &mut RepoMeta, repo_name: &str, hash: String, result: CompressResult, dedup: bool)
    ensures
        *final(meta) == (RepoMeta {
            state: RepoState::Archived,
            archive_path: final(meta).archive_path,
            archive_hash: Some(hash),
            archive_size: result.total_size,
            volume_count: result.volume_count,
            archive_parts: result.part_files,
            dedup_enabled: dedup,
            dedup_bytes_saved: result.dedup_bytes_saved,
            extraction_path: None,
            ..*old(meta)
        }),
        final(meta).archive_path@ == spec_archive_file(repo_name@),
{
    meta.state = RepoState::Archived;
    meta.archive_path = archive_file_name(repo_name);
    meta.archive_hash = Some(hash);
    meta.archive_size = result.total_size;
    meta.volume_count = result.volume_count;
    meta.archive_parts = result.part_files;
    meta.dedup_enabled = dedup;
    meta.dedup_bytes_saved = result.dedup_bytes_saved;
    meta.extraction_path = None;
}

/// Whether an archived repository may be unlocked: it must be archived,
/// and, when it is configured, workspace-eligible (an unconfigured one is).
pub fn unlock_check(config: &Config, meta: &RepoMeta, repo_name: &str) -> (r: Result<(), GitkaError>)
    ensures
        meta.state != RepoState::Archived ==> (r matches Err(GitkaError::AlreadyExtracted(n)) && n@ == repo_name@),
        meta.state == RepoState::Archived && (exists|i: int| spec_first_repo(config.repos@, repo_name@, i)
            && !config.repos@[i].workspace_eligible) ==> (r matches Err(GitkaError::NotWorkspaceEligible(n))
            && n@ == repo_name@),
        meta.state == RepoState::Archived && !(exists|i: int| spec_first_repo(config.repos@, repo_name@, i)
            && !config.repos@[i].workspace_eligible) ==> r is Ok,
{
    if meta.state != RepoState::Archived {
        return Err(GitkaError::AlreadyExtracted(repo_name.to_owned()));
    }
    match config.get_repo(repo_name) {
        Ok(rc) => {
            proof { lemma_first_repo_unique(config.repos@, repo_name@); }
            if !rc.workspace_eligible {
                return Err(GitkaError::NotWorkspaceEligible(repo_name.to_owned()));
            }
        },
        Err(_) => {},
    }
    Ok(())
}

/// The name an import goes by: the one given, else the directory's name;
/// a path without one is an error.
pub fn import_name(name: Option<&str>, dir_name: Option<&str>) -> (r: Result<String, GitkaError>)
    ensures
        name matches Some(n) ==> (r matches Ok(s) && s@ == n@),
        name is None && dir_name is Some ==> (r matches Ok(s) && s@ == dir_name.unwrap()@),
        name is None && dir_name is None ==> (r matches Err(GitkaError::Config(m)) && m@ == "Invalid repo path"@),
{
    match name {
        Some(n) => Ok(n.to_owned()),
        None => match dir_name {
            Some(d) => Ok(d.to_owned()),
            None => Err(GitkaError::Config("Invalid repo path".to_owned())),
        },
    }
}

/// The error for an import of a directory that is no git repository.
pub fn not_a_repository_error(path: &str) -> (r: GitkaError)
    ensures
        r matches GitkaError::Config(m) && m@ == "Not a git repository: "@ + path@,
{
    let mut m = "Not a git repository: ".to_owned();
    push_str(&mut m, path);
    GitkaError::Config(m)
}

/// Adds an imported repository to the configuration, workspace-eligible
/// and with full history, unless one is configured under its name; says
/// whether it was added.
pub fn register_import(config: &mut Config, name: &str) -> (added: bool)
    ensures
        added == !exists|i: int| 0 <= i < old(config).repos@.len() && old(config).repos@[i].name@ == name@,
        added ==> *final(config) == (Config { repos: final(config).repos, ..*old(config) })
            && final(config).repos@ == old(config).repos@.push(RepoConfig {
                name: final(config).repos@.last().name,
                workspace_eligible: true,
                full_history: true,
                last_synced: None,
            })
            && final(config).repos@.last().name@ == name@,
        !added ==> *final(config) == *old(config),
{
    let known = config.get_repo(name).is_ok();
    if known {
        return false;
    }
    config.repos.push(RepoConfig {
        name: name.to_owned(),
        workspace_eligible: true,
        full_history: true,
        last_synced: None,
    });
    true
}

/// The part files an earlier archive of `old_count` parts left behind that
/// the new archive does not use: parts 2 to `old_count`, in order, unless
/// listed among the new parts.
pub open spec fn spec_stale_parts(file: Seq<char>, old_count: nat, new_parts: Seq<Seq<char>>) -> Seq<Seq<char>>
    decreases old_count,
{
    if old_count <= 1 {
        Seq::empty()
    } else {
        let p = spec_part_name(file, old_count);
        spec_stale_parts(file, (old_count - 1) as nat, new_parts) + if new_parts.contains(p) {
            Seq::empty()
        } else {
            seq![p]
        }
    }
}

/// Of an earlier archive of `old_count` parts, exactly the parts 2 to
/// `old_count` that the new archive does not use are stale, and nothing
/// else is: a part is removed precisely when it is left over.
pub proof fn lemma_stale_parts(file: Seq<char>, old_count: nat, new_parts: Seq<Seq<char>>)
    ensures
        forall|n: nat| #![trigger spec_part_name(file, n)]
            spec_stale_parts(file, old_count, new_parts).contains(spec_part_name(file, n))
            <==> (2 <= n <= old_count && !new_parts.contains(spec_part_name(file, n))),
        forall|x: Seq<char>| #[trigger] spec_stale_parts(file, old_count, new_parts).contains(x)
            ==> exists|n: nat| 2 <= n <= old_count && x == spec_part_name(file, n),
    decreases old_count,
{
    let st = spec_stale_parts(file, old_count, new_parts);
    if old_count <= 1 {
        assert(st =~= Seq::<Seq<char>>::empty());
    } else {
        let k = (old_count - 1) as nat;
        lemma_stale_parts(file, k, new_parts);
        let prev = spec_stale_parts(file, k, new_parts);
        let p = spec_part_name(file, old_count);
        let tail = if new_parts.contains(p) { Seq::<Seq<char>>::empty() } else { seq![p] };
        assert(st == prev + tail);
        assert forall|x: Seq<char>| st.contains(x) <==> (prev.contains(x) || (!new_parts.contains(p) && x == p)) by {
            if st.contains(x) {
                let i = choose|i: int| 0 <= i < st.len() && st[i] == x;
                if i < prev.len() {
                    assert(prev[i] == x);
                } else {
                    assert(tail[i - prev.len()] == x);
                }
            }
            if prev.contains(x) {
                let i = choose|i: int| 0 <= i < prev.len() && prev[i] == x;
                assert(st[i] == x);
            }
            if !new_parts.contains(p) && x == p {
                assert(st[prev.len() as int] == p);
            }
        }
        assert forall|n: nat| #![trigger spec_part_name(file, n)]
            st.contains(spec_part_name(file, n)) <==> (2 <= n <= old_count && !new_parts.contains(spec_part_name(file, n))) by {
            lemma_part_name_injective(file, n, old_count);
            assert(prev.contains(spec_part_name(file, n)) <==> (2 <= n <= k && !new_parts.contains(spec_part_name(file, n))));
        }
        assert forall|x: Seq<char>| #[trigger] st.contains(x) implies exists|n: nat| 2 <= n <= old_count && x == spec_part_name(file, n) by {
            if prev.contains(x) {
                let n = choose|n: nat| 2 <= n <= k && x == spec_part_name(file, n);
                assert(2 <= n <= old_count && x == spec_part_name(file, n));
            } else {
                assert(x == spec_part_name(file, old_count));
            }
        }
    }
}

/// The part files an earlier archive left behind that the new one does not
/// use: of parts 2 to `old_count`, each one the new parts do not list.
pub fn stale_parts(file: &str, old_count: u32, new_parts: &Vec<String>) -> (r: Vec<String>)
    ensures
        spec_views_of(r@) == spec_stale_parts(file@, old_count as nat, spec_views_of(new_parts@)),
        forall|n: nat| #![trigger spec_part_name(file@, n)]
            spec_views_of(r@).contains(spec_part_name(file@, n))
            <==> (2 <= n <= old_count && !spec_views_of(new_parts@).contains(spec_part_name(file@, n))),
        forall|x: Seq<char>| #[trigger] spec_views_of(r@).contains(x)
            ==> exists|n: nat| 2 <= n <= old_count && x == spec_part_name(file@, n),
{
    proof { lemma_stale_parts(file@, old_count as nat, spec_views_of(new_parts@)); }
    let mut out: Vec<String> = Vec::new();
    if old_count <= 1 {
        proof { assert(spec_views_of(out@) =~= Seq::<Seq<char>>::empty()); }
        return out;
    }
    let mut i: u64 = 2;
    proof { assert(spec_views_of(out@) =~= spec_stale_parts(file@, 1, spec_views_of(new_parts@))); }
    while i <= old_count as u64
        invariant
            2 <= i <= old_count as int + 1,
            spec_views_of(out@) == spec_stale_parts(file@, (i - 1) as nat, spec_views_of(new_parts@)),
        decreases old_count as int + 1 - i,
    {
        let p = part_name(file, i as u32);
        let used = listed(new_parts, p.as_str());
        if !used {
            out.push(p);
        }
        proof {
            assert(spec_views_of(out@) =~= spec_stale_parts(file@, i as nat, spec_views_of(new_parts@)));
        }
        i = i + 1;
    }
    out
}

/// One line of a session's audit trail: the commit's first eight hex
/// digits and its summary.
pub fn commit_line(commit_hex: &str, summary: &str) -> (r: String)
    requires
        commit_hex@.len() >= 8,
    ensures
        r@ == commit_hex@.take(8) + " "@ + summary@,
{
    let c = chars_of(commit_hex);
    let mut s = String::new();
    let mut i: usize = 0;
    while i < 8
        invariant
            i <= 8 <= c@.len(),
            c@ == commit_hex@,
            s@ == commit_hex@.take(i as int),
        decreases 8 - i,
    {
        push_char(&mut s, c[i]);
        proof { assert(s@ =~= commit_hex@.take(i as int + 1)); }
        i = i + 1;
    }
    push_str(&mut s, " ");
    push_str(&mut s, summary);
    s
}

/// How the status table names a session's action.
pub open spec fn spec_session_action(a: DirtyAction) -> Seq<char> {
    match a {
        DirtyAction::Unlock => "unlocked"@,
        DirtyAction::Serve => "serving"@,
        DirtyAction::Modified => "modified"@,
    }
}

fn session_action(a: DirtyAction) -> (r: &'static str)
    ensures
        r@ == spec_session_action(a),
{
    match a {
        DirtyAction::Unlock => "unlocked",
        DirtyAction::Serve => "serving",
        DirtyAction::Modified => "modified",
    }
}

/// The age of an entry at time `now`, zero for a later timestamp.
pub open spec fn spec_age(e: DirtyEntryView, now: u64) -> u64 {
    if now >= e.timestamp { (now - e.timestamp) as u64 } else { 0 }
}

/// The session column of the status table: the action and age, then the
/// commits after the first and the files touched, both in one bracket when
/// there are both.
pub open spec fn spec_session_text(e: DirtyEntryView, now: u64) -> Seq<char> {
    let commits = (e.commits.len() - 1) as nat;
    let files = e.files_touched.len();
    spec_session_action(e.action) + " "@ + spec_format_age(spec_age(e, now)) + if e.commits.len() > 1 && files > 0 {
        " ("@ + spec_decimal(commits) + " commits, "@ + spec_decimal(files) + " files)"@
    } else if e.commits.len() > 1 {
        " ("@ + spec_decimal(commits) + " commits)"@
    } else if files > 0 {
        ", "@ + spec_decimal(files) + " files"@
    } else {
        Seq::empty()
    }
}

/// The session column of the status table for one entry.
pub fn session_text(e: &DirtyEntry, now: u64) -> (r: String)
    ensures
        r@ == spec_session_text(e@, now),
{
    let mut s = String::new();
    push_str(&mut s, session_action(e.action));
    push_str(&mut s, " ");
    let age = format_age(now.saturating_sub(e.timestamp));
    push_str(&mut s, age.as_str());
    let c = e.commits.len();
    let f = e.files_touched.len();
    if c > 1 && f > 0 {
        push_str(&mut s, " (");
        push_decimal(&mut s, (c - 1) as u64);
        push_str(&mut s, " commits, ");
        push_decimal(&mut s, f as u64);
        push_str(&mut s, " files)");
    } else if c > 1 {
        push_str(&mut s, " (");
        push_decimal(&mut s, (c - 1) as u64);
        push_str(&mut s, " commits)");
    } else if f > 0 {
        push_str(&mut s, ", ");
        push_decimal(&mut s, f as u64);
        push_str(&mut s, " files");
    }
    proof {
        assert(spec_strs(e.commits@).len() == e.commits@.len());
        assert(spec_strs(e.files_touched@).len() == e.files_touched@.len());
        assert(s@ =~= spec_session_text(e@, now));
    }
    s
}

/// The line the status command shows for an active session: the action and
/// age, then the commits after the first and the files touched.
pub open spec fn spec_session_line(name: Seq<char>, e: DirtyEntryView, now: u64) -> Seq<char> {
    let commits = (e.commits.len() - 1) as nat;
    let files = e.files_touched.len();
    "  "@ + name + " \u{2014} "@ + spec_session_action(e.action) + " ("@ + spec_format_age(spec_age(e, now))
        + (if e.commits.len() > 1 && files > 0 {
            ", "@ + spec_decimal(commits) + " commits, "@ + spec_decimal(files) + " files touched"@
        } else if files > 0 {
            ", "@ + spec_decimal(files) + " files touched"@
        } else if e.commits.len() > 1 {
            ", "@ + spec_decimal(commits) + " commits"@
        } else {
            Seq::empty()
        }) + ")"@
}

/// The line the status command shows for an active session.
pub fn session_line(name: &str, e: &DirtyEntry, now: u64) -> (r: String)
    ensures
        r@ == spec_session_line(name@, e@, now),
{
    let mut s = "  ".to_owned();
    push_str(&mut s, name);
    push_str(&mut s, " \u{2014} ");
    push_str(&mut s, session_action(e.action));
    push_str(&mut s, " (");
    let age = format_age(now.saturating_sub(e.timestamp));
    push_str(&mut s, age.as_str());
    let c = e.commits.len();
    let f = e.files_touched.len();
    if c > 1 && f > 0 {
        push_str(&mut s, ", ");
        push_decimal(&mut s, (c - 1) as u64);
        push_str(&mut s, " commits, ");
        push_decimal(&mut s, f as u64);
        push_str(&mut s, " files touched");
    } else if f > 0 {
        push_str(&mut s, ", ");
        push_decimal(&mut s, f as u64);
        push_str(&mut s, " files touched");
    } else if c > 1 {
        push_str(&mut s, ", ");
        push_decimal(&mut s, (c - 1) as u64);
        push_str(&mut s, " commits");
    }
    push_str(&mut s, ")");
    proof {
        assert(spec_strs(e.commits@).len() == e.commits@.len());
        assert(spec_strs(e.files_touched@).len() == e.files_touched@.len());
        assert(s@ =~= spec_session_line(name@, e@, now));
    }
    s
}

/// How a sync reports the state it left a repository in.
pub open spec fn spec_sync_report(st: SyncStatus) -> Seq<char> {
    match st {
        SyncStatus::Ahead(n) => "  Pushed "@ + spec_decimal(n as nat) + " commits"@,
        SyncStatus::Behind(n) => "  Pulled "@ + spec_decimal(n as nat) + " commits"@,
        SyncStatus::InSync => "  Up to date"@,
        SyncStatus::Diverged { ahead, behind } => "  Diverged ("@ + spec_decimal(ahead as nat) + " ahead, "@
            + spec_decimal(behind as nat) + " behind)"@,
        SyncStatus::Conflict(m) => "  CONFLICT: "@ + m@,
    }
}

/// How a sync reports the state it left a repository in.
pub fn sync_report(st: &SyncStatus) -> (r: String)
    ensures
        r@ == spec_sync_report(*st),
{
    let mut s = String::new();
    match st {
        SyncStatus::Ahead(n) => {
            push_str(&mut s, "  Pushed ");
            push_decimal(&mut s, *n as u64);
            push_str(&mut s, " commits");
        },
        SyncStatus::Behind(n) => {
            push_str(&mut s, "  Pulled ");
            push_decimal(&mut s, *n as u64);
            push_str(&mut s, " commits");
        },
        SyncStatus::InSync => push_str(&mut s, "  Up to date"),
        SyncStatus::Diverged { ahead, behind } => {
            push_str(&mut s, "  Diverged (");
            push_decimal(&mut s, *ahead as u64);
            push_str(&mut s, " ahead, ");
            push_decimal(&mut s, *behind as u64);
            push_str(&mut s, " behind)");
        },
        SyncStatus::Conflict(m) => {
            push_str(&mut s, "  CONFLICT: ");
            push_str(&mut s, m.as_str());
        },
    }
    s
}

/// The line `verify` prints for an archive that passed: its name and the
/// checks, joined with commas.
pub fn verified_line(name: &str, checks: &Vec<String>) -> (r: String)
    ensures
        r@ == "\u{2713} "@ + name@ + " - "@ + spec_join_with(spec_views_of(checks@), ", "@),
{
    let mut s = "\u{2713} ".to_owned();
    push_str(&mut s, name);
    push_str(&mut s, " - ");
    let ghost head = s@;
    let mut i: usize = 0;
    while i < checks.len()
        invariant
            i <= checks@.len(),
            s@ == head + spec_join_with(spec_views_of(checks@).take(i as int), ", "@),
        decreases checks@.len() - i,
    {
        if i > 0 {
            push_str(&mut s, ", ");
        }
        push_str(&mut s, checks[i].as_str());
        proof {
            let t = spec_views_of(checks@).take(i as int + 1);
            assert(t.drop_last() =~= spec_views_of(checks@).take(i as int));
            assert(t.last() == checks@[i as int]@);
            if i == 0 {
                assert(t[0] == checks@[0]@);
            }
            assert(s@ =~= head + spec_join_with(t, ", "@));
        }
        i = i + 1;
    }
    proof { assert(spec_views_of(checks@).take(checks@.len() as int) =~= spec_views_of(checks@)); }
    s
}

/// Texts joined with a separator.
pub open spec fn spec_join_with(ws: Seq<Seq<char>>, sep: Seq<char>) -> Seq<char>
    decreases ws.len(),
{
    if ws.len() == 0 {
        Seq::empty()
    } else if ws.len() == 1 {
        ws[0]
    } else {
        spec_join_with(ws.drop_last(), sep) + sep + ws.last()
    }
}

/// Where `verify` looks for a repository's recovery marker:
/// `<recovery dir>/<name>.par2`.
pub fn recovery_marker(config: &Config, name: &str) -> (r: String)
    ensures
        r@ == spec_join(config.spec_recovery_dir(), name@ + ".par2"@),
{
    let dir = config.recovery_dir();
    let mut file = name.to_owned();
    push_str(&mut file, ".par2");
    join_path(dir.as_str(), file.as_str())
}

/// Where a trained dictionary is kept: `<archive dir>/.trained.dict`.
pub fn dictionary_path(config: &Config) -> (r: String)
    ensures
        r@ == spec_join(config.spec_archive_dir(), ".trained.dict"@),
{
    let dir = config.archive_dir();
    join_path(dir.as_str(), ".trained.dict")
}

/// The commit a lock session started from: the first commit the log holds
/// for the repository, when it is not the head.
pub open spec fn spec_baseline(m: Map<Seq<char>, DirtyEntryView>, name: Seq<char>, head: Seq<char>) -> Option<Seq<char>> {
    if m.contains_key(name) && m[name].commits.len() > 0 && m[name].commits[0] != head {
        Some(m[name].commits[0])
    } else {
        None
    }
}

/// Records the head commit of a repository being locked and gives the
/// commit its session started from, when that is not the head: the
/// commits in between are the session's audit trail.
pub fn session_baseline(log: &mut DirtyLog, repo_name: &str, head: &str) -> (r: Option<String>)
    requires
        old(log).wf(),
    ensures
        final(log).wf(),
        !old(log).spec_map().contains_key(repo_name@) ==> final(log).spec_map() == old(log).spec_map(),
        old(log).spec_map().contains_key(repo_name@) ==> final(log).spec_map()
            == old(log).spec_map().insert(repo_name@, DirtyEntryView {
                timestamp: final(log).spec_map()[repo_name@].timestamp,
                commits: spec_add_once(old(log).spec_map()[repo_name@].commits, head@),
                ..old(log).spec_map()[repo_name@]
            }),
        match r {
            Some(b) => spec_baseline(final(log).spec_map(), repo_name@, head@) == Some(b@),
            None => spec_baseline(final(log).spec_map(), repo_name@, head@) is None,
        },
{
    log.record_commit(repo_name, head);
    match log.get(repo_name) {
        Some(e) => {
            if e.commits.len() > 0 && !str_eq(e.commits[0].as_str(), head) {
                proof { assert(spec_strs(e.commits@)[0] == e.commits@[0]@); }
                Some(e.commits[0].clone())
            } else {
                proof {
                    if e.commits.len() > 0 {
                        assert(spec_strs(e.commits@)[0] == e.commits@[0]@);
                    }
                }
                None
            }
        },
        None => None,
    }
}

/// `files` added, each once and in order, to those already touched.
pub open spec fn spec_add_all(touched: Seq<Seq<char>>, files: Seq<Seq<char>>) -> Seq<Seq<char>>
    decreases files.len(),
{
    if files.len() == 0 {
        touched
    } else {
        spec_add_once(spec_add_all(touched, files.drop_last()), files.last())
    }
}

/// The log with `files` recorded as touched in the entry of `name`, when
/// it has one.
pub open spec fn spec_touched(m: Map<Seq<char>, DirtyEntryView>, name: Seq<char>, files: Seq<Seq<char>>)
    -> Map<Seq<char>, DirtyEntryView> {
    if m.contains_key(name) {
        m.insert(name, DirtyEntryView { files_touched: spec_add_all(m[name].files_touched, files), ..m[name] })
    } else {
        m
    }
}

/// Records what a lock session found once the commits since its baseline
/// are known: the repository is marked modified when there are any, then
/// every touched file is recorded. Gives the commits as the session's
/// audit trail.
pub fn record_session(log: &mut DirtyLog, repo_name: &str, commits: Vec<String>, touched: &Vec<String>)
    -> (summary: Vec<String>)
    requires
        old(log).wf(),
    ensures
        final(log).wf(),
        spec_strs(summary@) == spec_strs(commits@),
        ({
            let before = old(log).spec_map();
            let t = final(log).spec_map()[repo_name@].timestamp;
            let mid = if commits@.len() == 0 {
                before
            } else if before.contains_key(repo_name@) {
                before.insert(repo_name@, DirtyEntryView { action: DirtyAction::Modified, timestamp: t, ..before[repo_name@] })
            } else {
                before.insert(repo_name@, DirtyEntryView {
                    repo_name: repo_name@,
                    action: DirtyAction::Modified,
                    timestamp: t,
                    commits: Seq::empty(),
                    files_touched: Seq::empty(),
                })
            };
            final(log).spec_map() == spec_touched(mid, repo_name@, spec_strs(touched@))
        }),
{
    if commits.len() > 0 {
        log.record_modified(repo_name);
    }
    let ghost mid = log.spec_map();
    let ghost fs = spec_strs(touched@);
    let mut i: usize = 0;
    proof { assert(fs.take(0) =~= Seq::<Seq<char>>::empty()); }
    while i < touched.len()
        invariant
            i <= touched@.len(),
            fs == spec_strs(touched@),
            log.wf(),
            log.spec_map() == spec_touched(mid, repo_name@, fs.take(i as int)),
        decreases touched@.len() - i,
    {
        log.record_file_touched(repo_name, touched[i].as_str());
        proof {
            assert(fs.take(i as int + 1).drop_last() =~= fs.take(i as int));
            assert(fs.take(i as int + 1).last() == touched@[i as int]@);
            if mid.contains_key(repo_name@) {
                assert(log.spec_map() =~= spec_touched(mid, repo_name@, fs.take(i as int + 1)));
            }
        }
        i = i + 1;
    }
    proof {
        assert(fs.take(touched@.len() as int) =~= fs);
        if !mid.contains_key(repo_name@) {
            assert(spec_touched(mid, repo_name@, fs) == mid);
        }
    }
    commits
}

/// How the checks of an archive came out: the first that failed, or the
/// lines of every check passed.
pub enum ArchiveCheck {
    NotFound,
    Empty,
    /// The header check failed for this reason.
    BadHeader(String),
    /// Decompression failed for this reason.
    BadData(String),
    HashMismatch { expected: String, computed: String },
    /// The hash could not be computed, for this reason.
    HashFailed(String),
    /// Every check passed; the lines to report.
    Verified(Vec<String>),
}

/// The line of the hash check, when it passes: the hash matches the one
/// stored, or none is stored.
pub open spec fn spec_hash_line(stored: Option<String>) -> Seq<char> {
    if stored is Some { "hash: OK"@ } else { "hash: not stored"@ }
}

/// The lines of an archive that passed every check.
pub open spec fn spec_verified_lines(size_text: Seq<char>, stored: Option<String>, recovery: Seq<char>,
    world_writable: Option<bool>) -> Seq<Seq<char>> {
    let base = seq![size_text, "header: OK"@, "decompression: OK"@, spec_hash_line(stored), recovery];
    match world_writable {
        Some(true) => base.push("perms: world-writable (warning)"@),
        Some(false) => base.push("perms: OK"@),
        None => base,
    }
}

/// Runs the checks of `verify` on what was found of an archive, in order,
/// stopping at the first that fails: it exists (`size` is `None` when it
/// does not), is not empty, has a readable header, decompresses, and has
/// the stored hash when one is stored (`computed` is only looked at then);
/// then the recovery line and, when its mode is known, whether others can
/// write it.
pub fn check_archive(size: Option<u64>, size_text: String, header: Result<(), String>,
    decompression: Result<(), String>, stored: Option<String>, computed: Result<String, String>,
    recovery: String, world_writable: Option<bool>) -> (r: ArchiveCheck)
    ensures
        size is None ==> r is NotFound,
        size == Some(0u64) ==> r is Empty,
        size matches Some(n) && n > 0 ==> match header {
            Err(e) => r matches ArchiveCheck::BadHeader(m) && m@ == e@,
            Ok(_) => match decompression {
                Err(e) => r matches ArchiveCheck::BadData(m) && m@ == e@,
                Ok(_) => match stored {
                    Some(h) => match computed {
                        Err(e) => r matches ArchiveCheck::HashFailed(m) && m@ == e@,
                        Ok(c) => if c@ == h@ {
                            r matches ArchiveCheck::Verified(v)
                                && spec_strs(v@) == spec_verified_lines(size_text@, stored, recovery@, world_writable)
                        } else {
                            r matches ArchiveCheck::HashMismatch { expected, computed: got }
                                && expected@ == h@ && got@ == c@
                        },
                    },
                    None => r matches ArchiveCheck::Verified(v)
                        && spec_strs(v@) == spec_verified_lines(size_text@, stored, recovery@, world_writable),
                },
            },
        },
{
    let n = match size {
        None => { return ArchiveCheck::NotFound; },
        Some(n) => n,
    };
    if n == 0 {
        return ArchiveCheck::Empty;
    }
    match header {
        Err(e) => { return ArchiveCheck::BadHeader(e); },
        Ok(_) => {},
    }
    match decompression {
        Err(e) => { return ArchiveCheck::BadData(e); },
        Ok(_) => {},
    }
    let hash_line = match &stored {
        Some(h) => match computed {
            Err(e) => { return ArchiveCheck::HashFailed(e); },
            Ok(c) => {
                if !str_eq(c.as_str(), h.as_str()) {
                    return ArchiveCheck::HashMismatch { expected: h.clone(), computed: c };
                }
                "hash: OK".to_owned()
            },
        },
        None => "hash: not stored".to_owned(),
    };
    let mut lines: Vec<String> = Vec::new();
    lines.push(size_text);
    lines.push("header: OK".to_owned());
    lines.push("decompression: OK".to_owned());
    lines.push(hash_line);
    lines.push(recovery);
    match world_writable {
        Some(true) => lines.push("perms: world-writable (warning)".to_owned()),
        Some(false) => lines.push("perms: OK".to_owned()),
        None => {},
    }
    proof {
        let want = spec_verified_lines(size_text@, stored, recovery@, world_writable);
        assert(spec_strs(lines@) =~= want);
    }
    ArchiveCheck::Verified(lines)
}

/// Closes the sessions a sync covered: a sync of every repository clears
/// the whole log; a sync of named repositories clears only the entries of
/// those it actually synced, so the others keep their state.
pub fn clear_after_sync(log: &mut DirtyLog, partial: bool, synced: &Vec<String>)
    requires
        old(log).wf(),
    ensures
        final(log).wf(),
        !partial ==> final(log).spec_map() == Map::<Seq<char>, DirtyEntryView>::empty(),
        partial ==> final(log).spec_map() == old(log).spec_map().remove_keys(spec_strs(synced@).to_set()),
{
    if !partial {
        log.clear_all();
        return;
    }
    let ghost m0 = log.spec_map();
    let ghost ns = spec_strs(synced@);
    let mut i: usize = 0;
    proof { assert(m0.remove_keys(ns.take(0).to_set()) =~= m0); }
    while i < synced.len()
        invariant
            i <= synced@.len(),
            ns == spec_strs(synced@),
            log.wf(),
            log.spec_map() == m0.remove_keys(ns.take(i as int).to_set()),
        decreases synced@.len() - i,
    {
        log.clear_repo(synced[i].as_str());
        proof {
            assert(ns.take(i as int + 1).to_set() =~= ns.take(i as int).to_set().insert(synced@[i as int]@)) by {
                assert(ns.take(i as int + 1) =~= ns.take(i as int).push(ns[i as int]));
                ns.take(i as int).lemma_push_to_set_commute(ns[i as int]);
            }
            assert(log.spec_map() =~= m0.remove_keys(ns.take(i as int + 1).to_set()));
        }
        i = i + 1;
    }
    proof { assert(ns.take(synced@.len() as int) =~= ns); }
}

} // verus!
