//! Serving one repository over the LAN with GitFlare: the workspace
//! layout, the server configuration, and the PID file.
use vstd::prelude::*;

use crate::config::{Config, GitFlareConfig};
use crate::error::GitkaError;
use crate::paths::{join_path, spec_join};
use crate::repo::{RepoMeta, RepoState};
use crate::strings::{parse_u32, replace_all, spec_parse_u32, spec_replace_all, spec_trim, trim};
use crate::text::{decimal, push_decimal, push_str, spec_decimal, str_eq};

verus! {

/// A running server.
#[derive(Debug, Clone)]
pub struct ServeInfo {
    pub repo_name: String,
    pub pid: u32,
    pub port: u16,
    pub serve_dir: String,
    pub bare_repo_dir: String,
}

impl ServeInfo {
    /// `http://localhost:<port>`.
    pub fn clone_url(&self) -> (r: String)
        ensures
            r@ == "http://localhost:"@ + spec_decimal(self.port as nat),
    {
        let mut s = "http://localhost:".to_owned();
        push_decimal(&mut s, self.port as u64);
        s
    }

    /// `http://<ip>:<port>`, with the host's LAN address when known and
    /// `localhost` otherwise.
    pub fn lan_url(&self, local_ip: Option<&str>) -> (r: String)
        ensures
            r@ == "http://"@ + match local_ip { Some(ip) => ip@, None => "localhost"@ } + ":"@
                + spec_decimal(self.port as nat),
    {
        let mut s = "http://".to_owned();
        match local_ip {
            Some(ip) => push_str(&mut s, ip),
            None => push_str(&mut s, "localhost"),
        }
        push_str(&mut s, ":");
        push_decimal(&mut s, self.port as u64);
        s
    }
}

/// `.gitka/serve`.
pub open spec fn s_serve_dir() -> Seq<char> {
    ".gitka/serve"@
}

/// The serve workspace: `<target>/.gitka/serve`.
pub fn serve_dir(config: &Config) -> (r: String)
    ensures
        r@ == spec_join(config.target.path@, s_serve_dir()),
{
    join_path(config.target.path.as_str(), ".gitka/serve")
}

/// The directories and files of the serve workspace of one repository.
pub struct ServeLayout {
    pub serve_dir: String,
    pub repos_dir: String,
    pub bare_repo_dir: String,
    pub extract_dir: String,
    pub config_path: String,
    pub venv_python: String,
    pub info_path: String,
}

/// The serve workspace of a repository.
pub fn serve_layout(config: &Config, repo_name: &str) -> (r: ServeLayout)
    ensures
        r.serve_dir@ == spec_join(config.target.path@, s_serve_dir()),
        r.repos_dir@ == spec_join(r.serve_dir@, "repos"@),
        r.bare_repo_dir@ == spec_join(r.repos_dir@, repo_name@ + ".git"@),
        r.extract_dir@ == spec_join(r.serve_dir@, "extract"@),
        r.config_path@ == spec_join(r.serve_dir@, "gitflare.toml"@),
        r.venv_python@ == spec_join(r.serve_dir@, ".venv/bin/python3"@),
        r.info_path@ == spec_join(r.serve_dir@, "serve.json"@),
{
    let dir = serve_dir(config);
    let repos_dir = join_path(dir.as_str(), "repos");
    let mut bare_name = repo_name.to_owned();
    push_str(&mut bare_name, ".git");
    let bare_repo_dir = join_path(repos_dir.as_str(), bare_name.as_str());
    let extract_dir = join_path(dir.as_str(), "extract");
    let config_path = join_path(dir.as_str(), "gitflare.toml");
    let venv_python = join_path(dir.as_str(), ".venv/bin/python3");
    let info_path = join_path(dir.as_str(), "serve.json");
    ServeLayout { serve_dir: dir, repos_dir, bare_repo_dir, extract_dir, config_path, venv_python, info_path }
}

/// Where the PID of a repository's server is kept:
/// `<state dir>/<name>.serve.pid`.
pub fn pid_file(config: &Config, repo_name: &str) -> (r: String)
    ensures
        r@ == spec_join(config.spec_state_dir(), repo_name@ + ".serve.pid"@),
{
    let state = config.state_dir();
    let mut file = repo_name.to_owned();
    push_str(&mut file, ".serve.pid");
    join_path(state.as_str(), file.as_str())
}

/// The PID a PID file holds: its text trimmed, as a `u32`.
pub fn parse_pid(text: &str) -> (r: Option<u32>)
    ensures
        r == spec_parse_u32(spec_trim(text@)),
{
    let t = trim(text);
    parse_u32(t.as_str())
}

/// The error when a repository's server is already running.
pub fn already_running_error(repo_name: &str, pid: u32) -> (r: GitkaError)
    ensures
        r matches GitkaError::Config(m) && m@ == "Server already running for "@ + repo_name@ + " (PID "@
            + spec_decimal(pid as nat) + "). Use `gitka serve "@ + repo_name@ + " --stop` first."@,
{
    let mut m = "Server already running for ".to_owned();
    push_str(&mut m, repo_name);
    push_str(&mut m, " (PID ");
    push_decimal(&mut m, pid as u64);
    push_str(&mut m, "). Use `gitka serve ");
    push_str(&mut m, repo_name);
    push_str(&mut m, " --stop` first.");
    GitkaError::Config(m)
}

/// The GitFlare settings a server uses: the configured ones, else port
/// 8080 on every address.
pub fn gitflare_settings(config: &Config) -> (r: GitFlareConfig)
    ensures
        config.integrations.gitflare matches Some(g) ==> r.port == g.port && r.bind_address@ == g.bind_address@,
        config.integrations.gitflare is None ==> r.port == 8080 && r.bind_address@ == "0.0.0.0"@,
{
    match &config.integrations.gitflare {
        Some(g) => GitFlareConfig { port: g.port, bind_address: g.bind_address.clone() },
        None => GitFlareConfig { port: 8080, bind_address: "0.0.0.0".to_owned() },
    }
}

/// The GitFlare configuration template.
pub open spec fn spec_gitflare_template() -> Seq<char> {
    "[server]\nhost = \"{bind}\"\nport = {port}\nrepos_path = \"{repos_path}\"\n\n[auth]\nadmin_token = \"\"\n\n[ssh]\nenabled = false\n"@
}

/// The GitFlare configuration file: the template with the bind address,
/// the port and the repositories path filled in, one after another.
pub open spec fn spec_gitflare_config_text(bind: Seq<char>, port: u16, repos_path: Seq<char>) -> Seq<char> {
    spec_replace_all(
        spec_replace_all(
            spec_replace_all(spec_gitflare_template(), "{bind}"@, bind),
            "{port}"@,
            spec_decimal(port as nat),
        ),
        "{repos_path}"@,
        repos_path,
    )
}

/// The GitFlare configuration file of a server.
pub fn gitflare_config_text(bind: &str, port: u16, repos_path: &str) -> (r: String)
    ensures
        r@ == spec_gitflare_config_text(bind@, port, repos_path@),
{
    proof {
        reveal_strlit("{bind}");
        reveal_strlit("{port}");
        reveal_strlit("{repos_path}");
    }
    let template = "[server]\nhost = \"{bind}\"\nport = {port}\nrepos_path = \"{repos_path}\"\n\n[auth]\nadmin_token = \"\"\n\n[ssh]\nenabled = false\n";
    let a = replace_all(template, "{bind}", bind);
    let p = decimal(port as u64);
    let b = replace_all(a.as_str(), "{port}", p.as_str());
    replace_all(b.as_str(), "{repos_path}", repos_path)
}

/// The repository to serve: the first extracted directory that is a git
/// repository, else the extraction directory itself.
pub fn pick_source_repo(candidates: &Vec<String>, extract_dir: &str) -> (r: String)
    ensures
        candidates@.len() > 0 ==> r == candidates@[0],
        candidates@.len() == 0 ==> r@ == extract_dir@,
{
    if candidates.len() > 0 {
        candidates[0].clone()
    } else {
        extract_dir.to_owned()
    }
}

/// After a server stops, a served repository is archived again.
pub fn mark_stopped(meta: &mut RepoMeta)
    ensures
        old(meta).state == RepoState::ExtractedServed ==> *final(meta) == (RepoMeta {
            state: RepoState::Archived,
            extraction_path: None,
            ..*old(meta)
        }),
        old(meta).state != RepoState::ExtractedServed ==> *final(meta) == *old(meta),
{
    if meta.state == RepoState::ExtractedServed {
        meta.state = RepoState::Archived;
        meta.extraction_path = None;
    }
}

/// What a repository's PID file shows: the PID it holds, when it holds
/// one, and whether that process is running.
pub struct ServerState {
    pub repo_name: String,
    pub pid: Option<u32>,
    pub running: bool,
}

/// Whether a server is live: its PID file holds a PID whose process runs.
pub open spec fn spec_live(s: ServerState) -> bool {
    s.running && s.pid is Some
}

/// The first live server, if any.
pub open spec fn spec_first_live(servers: Seq<ServerState>) -> Option<int>
    decreases servers.len(),
{
    if servers.len() == 0 {
        None
    } else if spec_live(servers[0]) {
        Some(0)
    } else {
        match spec_first_live(servers.skip(1)) {
            Some(i) => Some(i + 1),
            None => None,
        }
    }
}

/// The repositories whose PID files are stale: no live server behind them.
pub open spec fn spec_stale(servers: Seq<ServerState>) -> Seq<Seq<char>>
    decreases servers.len(),
{
    if servers.len() == 0 {
        Seq::empty()
    } else {
        let rest = spec_stale(servers.drop_last());
        if spec_live(servers.last()) { rest } else { rest.push(servers.last().repo_name@) }
    }
}

/// The message when a server for another repository is live: GitFlare
/// serves one repository at a time.
pub open spec fn msg_other_serving(other: Seq<char>, pid: u32) -> Seq<char> {
    "GitFlare is already serving "@ + other + " (PID "@ + spec_decimal(pid as nat)
        + "); it serves one repo at a time. Use `gitka serve "@ + other + " --stop` first."@
}

/// Decides whether a server for `repo_name` may start, given what the PID
/// files of the repositories show. It may not while any server is live,
/// since GitFlare serves one repository at a time: the first live one is
/// named in the error. Otherwise it gives the repositories whose stale PID
/// files are to be removed, in order.
pub fn start_check(repo_name: &str, servers: &Vec<ServerState>) -> (r: Result<Vec<String>, GitkaError>)
    ensures
        match spec_first_live(servers@) {
            Some(i) => {
                let s = servers@[i];
                if s.repo_name@ == repo_name@ {
                    r matches Err(GitkaError::Config(m)) && m@ == "Server already running for "@ + repo_name@
                        + " (PID "@ + spec_decimal(s.pid.unwrap() as nat) + "). Use `gitka serve "@ + repo_name@
                        + " --stop` first."@
                } else {
                    r matches Err(GitkaError::Config(m)) && m@ == msg_other_serving(s.repo_name@, s.pid.unwrap())
                }
            },
            None => r matches Ok(v) && v@.map_values(|n: String| n@) == spec_stale(servers@),
        },
{
    let mut stale: Vec<String> = Vec::new();
    let mut i: usize = 0;
    proof { assert(servers@.skip(0) =~= servers@); }
    while i < servers.len()
        invariant
            i <= servers@.len(),
            spec_first_live(servers@) == match spec_first_live(servers@.skip(i as int)) {
                Some(k) => Some(k + i),
                None => None::<int>,
            },
            forall|j: int| 0 <= j < i ==> !spec_live(#[trigger] servers@[j]),
            stale@.map_values(|n: String| n@) == spec_stale(servers@.take(i as int)),
        decreases servers@.len() - i,
    {
        let s = &servers[i];
        proof {
            let t = servers@.skip(i as int);
            assert(t[0] == servers@[i as int]);
            assert(t.skip(1) =~= servers@.skip(i as int + 1));
            let u = servers@.take(i as int + 1);
            assert(u.drop_last() =~= servers@.take(i as int));
            assert(u.last() == servers@[i as int]);
        }
        if s.running {
            match s.pid {
                Some(pid) => {
                    if str_eq(s.repo_name.as_str(), repo_name) {
                        return Err(already_running_error(repo_name, pid));
                    }
                    let mut m = "GitFlare is already serving ".to_owned();
                    push_str(&mut m, s.repo_name.as_str());
                    push_str(&mut m, " (PID ");
                    push_decimal(&mut m, pid as u64);
                    push_str(&mut m, "); it serves one repo at a time. Use `gitka serve ");
                    push_str(&mut m, s.repo_name.as_str());
                    push_str(&mut m, " --stop` first.");
                    return Err(GitkaError::Config(m));
                },
                None => {},
            }
        }
        let ghost before = stale@;
        stale.push(s.repo_name.clone());
        proof {
            assert(stale@.map_values(|n: String| n@) =~= before.map_values(|n: String| n@).push(s.repo_name@));
        }
        i = i + 1;
    }
    proof {
        assert(servers@.skip(i as int) =~= Seq::<ServerState>::empty());
        assert(servers@.take(i as int) =~= servers@);
    }
    Ok(stale)
}

} // verus!
