//! Where repositories come from: GitHub or a GitFlare instance, the URLs
//! and requests used to reach them, and how their answers are judged.
use vstd::prelude::*;

use crate::config::SourceConfig;
use crate::error::GitkaError;
use crate::paths::{join_path, spec_join};
use crate::strings::{replace_all, spec_replace_all};
use crate::text::{decimal, push_str, spec_decimal};

verus! {

/// A repository offered by the source.
#[derive(Debug, Clone)]
pub struct RemoteRepo {
    pub name: String,
    /// `owner/name`.
    pub full_name: String,
    pub clone_url: String,
    pub ssh_url: Option<String>,
    pub default_branch: String,
    pub description: Option<String>,
    pub private: bool,
    /// Size in bytes.
    pub size: u64,
}

/// A repository as the GitHub API lists it (size in kilobytes).
#[derive(Debug, Clone)]
pub struct GitHubRepo {
    pub name: String,
    pub full_name: String,
    pub clone_url: String,
    pub ssh_url: Option<String>,
    pub default_branch: String,
    pub description: Option<String>,
    pub private: bool,
    pub size: u64,
}

/// A repository as the GitFlare API lists it.
#[derive(Debug, Clone)]
pub struct GitFlareRepo {
    pub name: String,
    pub clone_url: String,
    pub default_branch: Option<String>,
    pub description: Option<String>,
    pub size: u64,
}

/// The account a GitHub token belongs to.
#[derive(Debug, Clone)]
pub struct GitHubIdentity {
    pub login: String,
    pub name: Option<String>,
}

/// How a source authenticates.
#[derive(Debug, Clone)]
pub enum AuthMethod {
    /// Public access only.
    Anonymous,
    /// A personal access token.
    Token(String),
    /// An SSH key file.
    SshKey(String),
}

/// What every source offers besides listing repositories.
pub trait SourceProvider {
    /// The URL to clone a repository from.
    fn get_clone_url(&self, repo_name: &str) -> Result<String, GitkaError>;

    /// How the source authenticates.
    fn auth_method(&self) -> AuthMethod;
}

/// A GitHub user or organization.
pub struct GitHubSource {
    pub username: String,
    pub token: Option<String>,
}

/// A GitFlare instance.
pub struct GitFlareSource {
    pub url: String,
    pub token: Option<String>,
}

/// The authentication of an optional token.
pub open spec fn spec_auth_of(token: Option<String>) -> AuthMethod {
    match token {
        Some(t) => AuthMethod::Token(t),
        None => AuthMethod::Anonymous,
    }
}

/// The clone URL of a GitHub repository: token-authenticated HTTPS when a
/// token is set, public HTTPS otherwise.
pub open spec fn spec_github_clone_url(username: Seq<char>, has_token: bool, repo: Seq<char>) -> Seq<char> {
    if has_token {
        "https://x-access-token@github.com/"@ + username + "/"@ + repo + ".git"@
    } else {
        "https://github.com/"@ + username + "/"@ + repo + ".git"@
    }
}

impl GitHubSource {
    pub fn new(username: String, token: Option<String>) -> (r: GitHubSource)
        ensures
            r.username == username,
            r.token == token,
    {
        GitHubSource { username, token }
    }

    /// The headers of every API request: JSON v3, the user agent, and the
    /// bearer token when there is one.
    pub fn headers(&self) -> (r: Vec<(String, String)>)
        ensures
            r@.len() == if self.token is Some { 3int } else { 2int },
            r@[0].0@ == "Accept"@ && r@[0].1@ == "application/vnd.github.v3+json"@,
            r@[1].0@ == "User-Agent"@ && r@[1].1@ == "gitka/0.1.0"@,
            self.token matches Some(t) ==> r@[2].0@ == "Authorization"@ && r@[2].1@ == "Bearer "@ + t@,
    {
        let mut h: Vec<(String, String)> = Vec::new();
        h.push(("Accept".to_owned(), "application/vnd.github.v3+json".to_owned()));
        h.push(("User-Agent".to_owned(), "gitka/0.1.0".to_owned()));
        match &self.token {
            Some(t) => {
                let mut v = "Bearer ".to_owned();
                push_str(&mut v, t.as_str());
                h.push(("Authorization".to_owned(), v));
            },
            None => {},
        }
        h
    }

    /// The URL and query of one page of the repository listing: the
    /// token owner's repositories when a token is set, else the user's
    /// public ones.
    pub fn list_request(&self, page: u32) -> (r: (String, Vec<(String, String)>))
        ensures
            self.token is Some ==> r.0@ == "https://api.github.com/user/repos"@ && r.1@.len() == 5
                && r.1@[0].0@ == "per_page"@ && r.1@[0].1@ == "100"@
                && r.1@[1].0@ == "page"@ && r.1@[1].1@ == spec_decimal(page as nat)
                && r.1@[2].0@ == "sort"@ && r.1@[2].1@ == "updated"@
                && r.1@[3].0@ == "visibility"@ && r.1@[3].1@ == "all"@
                && r.1@[4].0@ == "affiliation"@ && r.1@[4].1@ == "owner,collaborator,organization_member"@,
            self.token is None ==> r.0@ == "https://api.github.com/users/"@ + self.username@ + "/repos"@
                && r.1@.len() == 3
                && r.1@[0].0@ == "per_page"@ && r.1@[0].1@ == "100"@
                && r.1@[1].0@ == "page"@ && r.1@[1].1@ == spec_decimal(page as nat)
                && r.1@[2].0@ == "sort"@ && r.1@[2].1@ == "updated"@,
    {
        let mut q: Vec<(String, String)> = Vec::new();
        q.push(("per_page".to_owned(), "100".to_owned()));
        q.push(("page".to_owned(), decimal(page as u64)));
        q.push(("sort".to_owned(), "updated".to_owned()));
        if self.token.is_some() {
            q.push(("visibility".to_owned(), "all".to_owned()));
            q.push(("affiliation".to_owned(), "owner,collaborator,organization_member".to_owned()));
            ("https://api.github.com/user/repos".to_owned(), q)
        } else {
            let mut url = "https://api.github.com/users/".to_owned();
            push_str(&mut url, self.username.as_str());
            push_str(&mut url, "/repos");
            (url, q)
        }
    }

    /// The error a listing answer with this status stands for, if any:
    /// 404 names the user, another failure quotes the status and body.
    pub fn list_error(&self, status: u16, status_text: &str, body: &str) -> (r: Option<GitkaError>)
        ensures
            status == 404 ==> (r matches Some(GitkaError::Config(m)) && m@ == "GitHub user or organization '"@
                + self.username@ + "' not found. Please check the username."@),
            status != 404 && (status < 200 || status > 299) ==> (r matches Some(GitkaError::Config(m))
                && m@ == "GitHub API error: "@ + status_text@ + " - "@ + body@),
            200 <= status <= 299 ==> r is None,
    {
        if status == 404 {
            let mut m = "GitHub user or organization '".to_owned();
            push_str(&mut m, self.username.as_str());
            push_str(&mut m, "' not found. Please check the username.");
            return Some(GitkaError::Config(m));
        }
        if status < 200 || status > 299 {
            let mut m = "GitHub API error: ".to_owned();
            push_str(&mut m, status_text);
            push_str(&mut m, " - ");
            push_str(&mut m, body);
            return Some(GitkaError::Config(m));
        }
        None
    }
}

/// Whether another page of the listing may follow a page with `count`
/// repositories: only a full page of a hundred.
pub fn github_has_more(count: usize) -> (r: bool)
    ensures
        r == (count >= 100),
{
    count >= 100
}

/// A listed GitHub repository, its size turned from kilobytes into bytes.
pub fn remote_from_github(r: GitHubRepo) -> (out: RemoteRepo)
    requires
        r.size * 1024 <= u64::MAX,
    ensures
        out == (RemoteRepo {
            name: r.name,
            full_name: r.full_name,
            clone_url: r.clone_url,
            ssh_url: r.ssh_url,
            default_branch: r.default_branch,
            description: r.description,
            private: r.private,
            size: (r.size * 1024) as u64,
        }),
{
    RemoteRepo {
        name: r.name,
        full_name: r.full_name,
        clone_url: r.clone_url,
        ssh_url: r.ssh_url,
        default_branch: r.default_branch,
        description: r.description,
        private: r.private,
        size: r.size * 1024,
    }
}

/// A listed GitFlare repository: its name is its full name, its branch
/// main unless given, public, without SSH URL.
pub fn remote_from_gitflare(r: GitFlareRepo) -> (out: RemoteRepo)
    ensures
        out.name == r.name,
        out.full_name == r.name,
        out.clone_url == r.clone_url,
        out.ssh_url is None,
        r.default_branch matches Some(b) ==> out.default_branch == b,
        r.default_branch is None ==> out.default_branch@ == "main"@,
        out.description == r.description,
        !out.private,
        out.size == r.size,
{
    let branch = match r.default_branch {
        Some(b) => b,
        None => "main".to_owned(),
    };
    RemoteRepo {
        name: r.name.clone(),
        full_name: r.name,
        clone_url: r.clone_url,
        ssh_url: None,
        default_branch: branch,
        description: r.description,
        private: false,
        size: r.size,
    }
}

impl SourceProvider for GitHubSource {
    fn get_clone_url(&self, repo_name: &str) -> (r: Result<String, GitkaError>)
        ensures
            r matches Ok(u) && u@ == spec_github_clone_url(self.username@, self.token is Some, repo_name@),
    {
        let mut u = if self.token.is_some() {
            "https://x-access-token@github.com/".to_owned()
        } else {
            "https://github.com/".to_owned()
        };
        push_str(&mut u, self.username.as_str());
        push_str(&mut u, "/");
        push_str(&mut u, repo_name);
        push_str(&mut u, ".git");
        Ok(u)
    }

    fn auth_method(&self) -> (r: AuthMethod)
        ensures
            r == spec_auth_of(self.token),
    {
        match &self.token {
            Some(t) => AuthMethod::Token(t.clone()),
            None => AuthMethod::Anonymous,
        }
    }
}

impl GitFlareSource {
    pub fn new(url: String, token: Option<String>) -> (r: GitFlareSource)
        ensures
            r.url == url,
            r.token == token,
    {
        GitFlareSource { url, token }
    }

    /// The headers of every API request: the user agent, and the bearer
    /// token when there is one.
    pub fn headers(&self) -> (r: Vec<(String, String)>)
        ensures
            r@.len() == if self.token is Some { 2int } else { 1int },
            r@[0].0@ == "User-Agent"@ && r@[0].1@ == "gitka/0.1.0"@,
            self.token matches Some(t) ==> r@[1].0@ == "Authorization"@ && r@[1].1@ == "Bearer "@ + t@,
    {
        let mut h: Vec<(String, String)> = Vec::new();
        h.push(("User-Agent".to_owned(), "gitka/0.1.0".to_owned()));
        match &self.token {
            Some(t) => {
                let mut v = "Bearer ".to_owned();
                push_str(&mut v, t.as_str());
                h.push(("Authorization".to_owned(), v));
            },
            None => {},
        }
        h
    }

    /// `<url>/api/repos`.
    pub fn list_url(&self) -> (r: String)
        ensures
            r@ == self.url@ + "/api/repos"@,
    {
        let mut u = self.url.clone();
        push_str(&mut u, "/api/repos");
        u
    }

    /// The error a listing answer with this status stands for, if any.
    pub fn list_error(&self, status: u16, status_text: &str) -> (r: Option<GitkaError>)
        ensures
            (status < 200 || status > 299) ==> (r matches Some(GitkaError::Config(m))
                && m@ == "GitFlare API error: "@ + status_text@),
            200 <= status <= 299 ==> r is None,
    {
        if status < 200 || status > 299 {
            let mut m = "GitFlare API error: ".to_owned();
            push_str(&mut m, status_text);
            return Some(GitkaError::Config(m));
        }
        None
    }
}

impl SourceProvider for GitFlareSource {
    fn get_clone_url(&self, repo_name: &str) -> (r: Result<String, GitkaError>)
        ensures
            r matches Ok(u) && u@ == self.url@ + "/"@ + repo_name@ + ".git"@,
    {
        let mut u = self.url.clone();
        push_str(&mut u, "/");
        push_str(&mut u, repo_name);
        push_str(&mut u, ".git");
        Ok(u)
    }

    fn auth_method(&self) -> (r: AuthMethod)
        ensures
            r == spec_auth_of(self.token),
    {
        match &self.token {
            Some(t) => AuthMethod::Token(t.clone()),
            None => AuthMethod::Anonymous,
        }
    }
}

/// The configured source.
pub enum Source {
    GitHub(GitHubSource),
    GitFlare(GitFlareSource),
}

impl SourceProvider for Source {
    fn get_clone_url(&self, repo_name: &str) -> (r: Result<String, GitkaError>)
        ensures
            self matches Source::GitHub(g) ==> (r matches Ok(u)
                && u@ == spec_github_clone_url(g.username@, g.token is Some, repo_name@)),
            self matches Source::GitFlare(f) ==> (r matches Ok(u) && u@ == f.url@ + "/"@ + repo_name@ + ".git"@),
    {
        match self {
            Source::GitHub(g) => g.get_clone_url(repo_name),
            Source::GitFlare(f) => f.get_clone_url(repo_name),
        }
    }

    fn auth_method(&self) -> (r: AuthMethod)
        ensures
            self matches Source::GitHub(g) ==> r == spec_auth_of(g.token),
            self matches Source::GitFlare(f) ==> r == spec_auth_of(f.token),
    {
        match self {
            Source::GitHub(g) => g.auth_method(),
            Source::GitFlare(f) => f.auth_method(),
        }
    }
}

/// The source a configuration names: GitFlare when its URL is set; else
/// GitHub when a user name or token is set, authenticated when there is a
/// token and anonymous (public repositories only) when there is none; else
/// none.
pub fn create_source(config: &SourceConfig) -> (r: Result<Source, GitkaError>)
    ensures
        config.gitflare_url matches Some(u) ==> (r matches Ok(Source::GitFlare(f))
            && f.url == u && f.token == config.auth_token),
        config.gitflare_url is None && (config.auth_token is Some || config.github_username is Some)
            ==> (r matches Ok(Source::GitHub(g))
            && g.token == config.auth_token
            && g.username@ == match config.github_username { Some(n) => n@, None => Seq::<char>::empty() }),
        config.gitflare_url is None && config.auth_token is None && config.github_username is None
            ==> (r matches Err(GitkaError::Config(m))
            && m@ == "No source configured. Set github_username or gitflare_url in config."@),
{
    match &config.gitflare_url {
        Some(url) => {
            return Ok(Source::GitFlare(GitFlareSource::new(url.clone(), config.auth_token.clone())));
        },
        None => {},
    }
    if config.github_username.is_some() || config.auth_token.is_some() {
        let username = match &config.github_username {
            Some(n) => n.clone(),
            None => String::new(),
        };
        return Ok(Source::GitHub(GitHubSource::new(username, config.auth_token.clone())));
    }
    Err(GitkaError::Config("No source configured. Set github_username or gitflare_url in config.".to_owned()))
}

/// The headers of a token check: JSON, the user agent and the bearer token.
pub fn identity_headers(token: &str) -> (r: Vec<(String, String)>)
    ensures
        r@.len() == 3,
        r@[0].0@ == "Accept"@ && r@[0].1@ == "application/vnd.github+json"@,
        r@[1].0@ == "User-Agent"@ && r@[1].1@ == "gitka/0.1.0"@,
        r@[2].0@ == "Authorization"@ && r@[2].1@ == "Bearer "@ + token@,
{
    let mut h: Vec<(String, String)> = Vec::new();
    h.push(("Accept".to_owned(), "application/vnd.github+json".to_owned()));
    h.push(("User-Agent".to_owned(), "gitka/0.1.0".to_owned()));
    let mut v = "Bearer ".to_owned();
    push_str(&mut v, token);
    h.push(("Authorization".to_owned(), v));
    h
}

/// Judges GitHub's answer to a token check by its status: 401 and 403
/// reject the token, another failure quotes the status and body.
pub fn verify_github_token(status: u16, status_text: &str, body: &str) -> (r: Result<(), GitkaError>)
    ensures
        (status == 401 || status == 403) ==> (r matches Err(GitkaError::Config(m))
            && m@ == "GitHub authentication failed. Check the personal access token."@),
        status != 401 && status != 403 && (status < 200 || status > 299) ==> (r matches Err(GitkaError::Config(m))
            && m@ == "GitHub auth error: "@ + status_text@ + " - "@ + body@),
        200 <= status <= 299 ==> r is Ok,
{
    if status == 401 || status == 403 {
        return Err(GitkaError::Config("GitHub authentication failed. Check the personal access token.".to_owned()));
    }
    if status < 200 || status > 299 {
        let mut m = "GitHub auth error: ".to_owned();
        push_str(&mut m, status_text);
        push_str(&mut m, " - ");
        push_str(&mut m, body);
        return Err(GitkaError::Config(m));
    }
    Ok(())
}

/// The URL a clone uses: with a token, `https://` becomes
/// `https://x-access-token:<token>@` wherever it occurs.
pub fn authenticated_clone_url(clone_url: &str, auth: &AuthMethod) -> (r: String)
    ensures
        auth matches AuthMethod::Token(t) ==> r@ == spec_replace_all(clone_url@, "https://"@,
            "https://x-access-token:"@ + t@ + "@"@),
        !(auth is Token) ==> r@ == clone_url@,
{
    match auth {
        AuthMethod::Token(t) => {
            let mut rep = "https://x-access-token:".to_owned();
            push_str(&mut rep, t.as_str());
            push_str(&mut rep, "@");
            proof { reveal_strlit("https://"); }
            replace_all(clone_url, "https://", rep.as_str())
        },
        _ => clone_url.to_owned(),
    }
}

/// Where a repository is cloned to: `<target dir>/<name>`.
pub fn clone_destination(target_dir: &str, repo: &RemoteRepo) -> (r: String)
    ensures
        r@ == spec_join(target_dir@, repo.name@),
{
    join_path(target_dir, repo.name.as_str())
}

} // verus!
