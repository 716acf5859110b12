//! Sync decisions: which branch, which repositories, and what to do with a
//! local branch that is ahead of, behind or diverged from origin.
use vstd::prelude::*;

use crate::error::GitkaError;
use crate::repo::{RepoMeta, RepoState};
use crate::strings::{spec_starts_with, starts_with};
use crate::text::{contains_str, chars_of, push_str};
use crate::strings::string_of;

verus! {

/// How a repository stands against origin.
#[derive(Debug, Clone)]
pub enum SyncStatus {
    /// Local is ahead by this many commits.
    Ahead(u32),
    /// Origin is ahead by this many commits.
    Behind(u32),
    /// Both moved.
    Diverged { ahead: u32, behind: u32 },
    InSync,
    /// Manual resolution needed.
    Conflict(String),
}

/// `refs/remotes/origin/`.
pub open spec fn s_origin_prefix() -> Seq<char> {
    "refs/remotes/origin/"@
}

/// The default branch: the one origin/HEAD points at, else the first of
/// main, master and trunk that origin has, else main.
pub open spec fn spec_default_branch(head_target: Option<Seq<char>>, has_main: bool, has_master: bool, has_trunk: bool) -> Seq<char> {
    match head_target {
        Some(t) if spec_starts_with(t, s_origin_prefix()) => t.skip(s_origin_prefix().len() as int),
        _ => if has_main {
            "main"@
        } else if has_master {
            "master"@
        } else if has_trunk {
            "trunk"@
        } else {
            "main"@
        },
    }
}

/// Picks the default branch from origin/HEAD's symbolic target, when it
/// has one, and which of main, master and trunk origin has.
pub fn default_branch(head_target: Option<&str>, has_main: bool, has_master: bool, has_trunk: bool) -> (r: String)
    ensures
        r@ == spec_default_branch(match head_target { Some(t) => Some(t@), None => None }, has_main, has_master, has_trunk),
{
    proof {
        reveal_strlit("refs/remotes/origin/");
        reveal_strlit("main");
        reveal_strlit("master");
        reveal_strlit("trunk");
    }
    match head_target {
        Some(t) => {
            if starts_with(t, "refs/remotes/origin/") {
                let v = chars_of(t);
                let r = string_of(&v, 20, v.len());
                proof { assert(r@ =~= t@.skip(20)); }
                return r;
            }
        },
        None => {},
    }
    if has_main {
        "main".to_owned()
    } else if has_master {
        "master".to_owned()
    } else if has_trunk {
        "trunk".to_owned()
    } else {
        "main".to_owned()
    }
}

/// `prefix` + `branch`.
fn prefixed(prefix: &str, branch: &str) -> (r: String)
    ensures
        r@ == prefix@ + branch@,
{
    let mut s = prefix.to_owned();
    push_str(&mut s, branch);
    s
}

/// `refs/remotes/origin/<branch>`.
pub fn remote_ref(branch: &str) -> (r: String)
    ensures
        r@ == "refs/remotes/origin/"@ + branch@,
{
    prefixed("refs/remotes/origin/", branch)
}

/// `refs/heads/<branch>`.
pub fn local_ref(branch: &str) -> (r: String)
    ensures
        r@ == "refs/heads/"@ + branch@,
{
    prefixed("refs/heads/", branch)
}

/// `origin/<branch>`.
pub fn upstream_name(branch: &str) -> (r: String)
    ensures
        r@ == "origin/"@ + branch@,
{
    prefixed("origin/", branch)
}

/// `refs/heads/<branch>:refs/heads/<branch>`.
pub fn push_refspec(branch: &str) -> (r: String)
    ensures
        r@ == "refs/heads/"@ + branch@ + ":refs/heads/"@ + branch@,
{
    let mut s = prefixed("refs/heads/", branch);
    push_str(&mut s, ":refs/heads/");
    push_str(&mut s, branch);
    s
}

/// `Auto-merge branch '<branch>' of origin/<branch>`.
pub fn merge_message(branch: &str) -> (r: String)
    ensures
        r@ == "Auto-merge branch '"@ + branch@ + "' of origin/"@ + branch@,
{
    let mut s = prefixed("Auto-merge branch '", branch);
    push_str(&mut s, "' of origin/");
    push_str(&mut s, branch);
    s
}

/// The extraction path of a repository about to be synced: it must be
/// extracted and have a recorded path.
pub fn sync_target(meta: &RepoMeta, repo_name: &str) -> (r: Result<String, GitkaError>)
    ensures
        meta.state == RepoState::Archived ==> (r matches Err(GitkaError::NotExtracted(n)) && n@ == repo_name@),
        meta.state != RepoState::Archived && meta.extraction_path is None ==> (r matches Err(GitkaError::Extraction(m))
            && m@ == "No extraction path for "@ + repo_name@),
        meta.state != RepoState::Archived && meta.extraction_path is Some ==> (r matches Ok(p)
            && p == meta.extraction_path.unwrap()),
{
    if meta.state == RepoState::Archived {
        return Err(GitkaError::NotExtracted(repo_name.to_owned()));
    }
    match &meta.extraction_path {
        Some(p) => Ok(p.clone()),
        None => Err(GitkaError::Extraction(prefixed("No extraction path for ", repo_name))),
    }
}

/// What a sync does once the two heads are known.
#[derive(Debug, Clone, Copy, PartialEq, Eq, Structural)]
pub enum SyncPlan {
    /// Nothing to do.
    UpToDate,
    /// Merge origin into the local branch.
    Merge,
    /// Push this many local commits.
    Push(u32),
    /// Fast-forward over this many origin commits.
    FastForward(u32),
}

/// What to do given whether the heads are the same commit and how far
/// each is ahead of the other (counts kept to their low 32 bits).
pub open spec fn spec_sync_plan(same_head: bool, ahead: usize, behind: usize) -> SyncPlan {
    if same_head {
        SyncPlan::UpToDate
    } else if ahead > 0 && behind > 0 {
        SyncPlan::Merge
    } else if ahead > 0 {
        SyncPlan::Push(ahead as u32)
    } else if behind > 0 {
        SyncPlan::FastForward(behind as u32)
    } else {
        SyncPlan::UpToDate
    }
}

/// What to do given the two heads and the ahead/behind counts.
pub fn sync_plan(same_head: bool, ahead: usize, behind: usize) -> (r: SyncPlan)
    ensures
        r == spec_sync_plan(same_head, ahead, behind),
{
    if same_head {
        SyncPlan::UpToDate
    } else if ahead > 0 && behind > 0 {
        SyncPlan::Merge
    } else if ahead > 0 {
        SyncPlan::Push(ahead as u32)
    } else if behind > 0 {
        SyncPlan::FastForward(behind as u32)
    } else {
        SyncPlan::UpToDate
    }
}

/// The status `check_sync_status` reports without changing anything.
pub fn classify_sync_status(same_head: bool, ahead: usize, behind: usize) -> (r: SyncStatus)
    ensures
        same_head ==> r is InSync,
        !same_head && ahead > 0 && behind > 0 ==> (r matches SyncStatus::Diverged { ahead: a, behind: b }
            && a == ahead as u32 && b == behind as u32),
        !same_head && ahead > 0 && behind == 0 ==> (r matches SyncStatus::Ahead(a) && a == ahead as u32),
        !same_head && ahead == 0 && behind > 0 ==> (r matches SyncStatus::Behind(b) && b == behind as u32),
        !same_head && ahead == 0 && behind == 0 ==> r is InSync,
{
    if same_head {
        SyncStatus::InSync
    } else if ahead > 0 && behind > 0 {
        SyncStatus::Diverged { ahead: ahead as u32, behind: behind as u32 }
    } else if ahead > 0 {
        SyncStatus::Ahead(ahead as u32)
    } else if behind > 0 {
        SyncStatus::Behind(behind as u32)
    } else {
        SyncStatus::InSync
    }
}

/// The paths of one merge conflict; empty when a side has none.
pub struct ConflictPaths {
    pub ancestor: String,
    pub ours: String,
    pub theirs: String,
}

/// How one conflict is described.
pub open spec fn spec_conflict_text(c: ConflictPaths) -> Seq<char> {
    c.ancestor@ + " (ours: "@ + c.ours@ + ", theirs: "@ + c.theirs@ + ")"@
}

/// The conflict descriptions, separated by ", ".
pub open spec fn spec_conflict_list(cs: Seq<ConflictPaths>) -> Seq<char>
    decreases cs.len(),
{
    if cs.len() == 0 {
        Seq::empty()
    } else if cs.len() == 1 {
        spec_conflict_text(cs[0])
    } else {
        spec_conflict_list(cs.drop_last()) + ", "@ + spec_conflict_text(cs.last())
    }
}

/// The error of a merge with conflicts.
pub fn conflict_error(repo_name: &str, conflicts: &Vec<ConflictPaths>) -> (r: GitkaError)
    ensures
        r matches GitkaError::SyncConflict(m)
            && m@ == repo_name@ + ": "@ + spec_conflict_list(conflicts@) + " conflicts"@,
{
    let mut s = prefixed(repo_name, ": ");
    let ghost head = s@;
    let mut i: usize = 0;
    while i < conflicts.len()
        invariant
            i <= conflicts@.len(),
            s@ == head + spec_conflict_list(conflicts@.take(i as int)),
        decreases conflicts@.len() - i,
    {
        let ghost before = s@;
        if i > 0 {
            push_str(&mut s, ", ");
        }
        let c = &conflicts[i];
        push_str(&mut s, c.ancestor.as_str());
        push_str(&mut s, " (ours: ");
        push_str(&mut s, c.ours.as_str());
        push_str(&mut s, ", theirs: ");
        push_str(&mut s, c.theirs.as_str());
        push_str(&mut s, ")");
        proof {
            let t = conflicts@.take(i as int + 1);
            assert(t.drop_last() =~= conflicts@.take(i as int));
            assert(t.last() == conflicts@[i as int]);
            if i == 0 {
                assert(t[0] == conflicts@[0]);
            }
            assert(s@ =~= head + spec_conflict_list(t));
        }
        i = i + 1;
    }
    push_str(&mut s, " conflicts");
    proof { assert(conflicts@.take(conflicts@.len() as int) =~= conflicts@); }
    GitkaError::SyncConflict(s)
}

/// The error when diverged branches share no history.
pub fn no_merge_base_error(repo_name: &str) -> (r: GitkaError)
    ensures
        r matches GitkaError::SyncConflict(m) && m@ == repo_name@ + ": no merge base found"@,
{
    GitkaError::SyncConflict(prefixed(repo_name, ": no merge base found"))
}

/// The names of the repositories a sync covers, in order: those named,
/// when names are given, else every extracted one.
pub open spec fn spec_sync_selection(repos: Seq<RepoMeta>, names: Option<Seq<Seq<char>>>) -> Seq<Seq<char>>
    decreases repos.len(),
{
    if repos.len() == 0 {
        Seq::empty()
    } else {
        let r = repos.last();
        let keep = match names {
            Some(ns) => ns.contains(r.name@),
            None => r.state != RepoState::Archived,
        };
        spec_sync_selection(repos.drop_last(), names) + if keep { seq![r.name@] } else { Seq::empty() }
    }
}

/// The views of a list of strings.
pub open spec fn spec_names(v: Seq<String>) -> Seq<Seq<char>> {
    v.map_values(|s: String| s@)
}

/// The repositories a sync of all repositories covers: those named, when
/// names are given, else every extracted one, in the order listed.
pub fn sync_all(repos: &Vec<RepoMeta>, names: Option<&Vec<String>>) -> (r: Vec<String>)
    ensures
        spec_names(r@) == spec_sync_selection(repos@, match names {
            Some(ns) => Some(spec_names(ns@)),
            None => None,
        }),
{
    let ghost sel = match names { Some(ns) => Some(spec_names(ns@)), None => None::<Seq<Seq<char>>> };
    let mut out: Vec<String> = Vec::new();
    let mut i: usize = 0;
    while i < repos.len()
        invariant
            i <= repos@.len(),
            sel == match names { Some(ns) => Some(spec_names(ns@)), None => None::<Seq<Seq<char>>> },
            spec_names(out@) == spec_sync_selection(repos@.take(i as int), sel),
        decreases repos@.len() - i,
    {
        let r = &repos[i];
        let keep = match names {
            Some(ns) => contains_str(ns, r.name.as_str()),
            None => r.state != RepoState::Archived,
        };
        proof {
            let t = repos@.take(i as int + 1);
            assert(t.drop_last() =~= repos@.take(i as int));
            assert(t.last() == repos@[i as int]);
            match names {
                Some(ns) => {
                    if keep {
                        let j = choose|j: int| 0 <= j < ns@.len() && (#[trigger] ns@[j])@ == r.name@;
                        assert(spec_names(ns@)[j] == r.name@);
                    }
                    if spec_names(ns@).contains(r.name@) {
                        let j = choose|j: int| 0 <= j < spec_names(ns@).len() && spec_names(ns@)[j] == r.name@;
                        assert(ns@[j]@ == r.name@);
                    }
                },
                None => {},
            }
        }
        let ghost before = out@;
        if keep {
            out.push(r.name.clone());
            proof { assert(spec_names(out@) =~= spec_names(before) + seq![r.name@]); }
        } else {
            proof { assert(spec_names(out@) =~= spec_names(before) + Seq::<Seq<char>>::empty()); }
        }
        i = i + 1;
    }
    proof { assert(repos@.take(repos@.len() as int) =~= repos@); }
    out
}

/// The outcomes of the repositories synced, in order: each whose sync
/// succeeded, with its status; those whose sync failed are left out.
pub open spec fn spec_synced(names: Seq<Seq<char>>, results: Seq<Result<SyncStatus, GitkaError>>)
    -> Seq<(Seq<char>, SyncStatus)>
    decreases results.len(),
{
    if results.len() == 0 || names.len() == 0 {
        Seq::empty()
    } else {
        let prev = spec_synced(names.drop_last(), results.drop_last());
        match results.last() {
            Ok(st) => prev.push((names.last(), st)),
            Err(_) => prev,
        }
    }
}

/// The views of a list of named statuses.
pub open spec fn spec_status_views(v: Seq<(String, SyncStatus)>) -> Seq<(Seq<char>, SyncStatus)> {
    v.map_values(|p: (String, SyncStatus)| (p.0@, p.1))
}

/// Gathers what a sync of all repositories gives, from the names that
/// `sync_all` selected and the outcome of syncing each: the name and
/// status of every repository whose sync succeeded, in order; a failed
/// sync is left out and the others go on.
pub fn sync_results(names: Vec<String>, results: Vec<Result<SyncStatus, GitkaError>>) -> (r: Vec<(String, SyncStatus)>)
    requires
        names@.len() == results@.len(),
    ensures
        spec_status_views(r@) == spec_synced(spec_names(names@), results@),
{
    let ghost ns0 = spec_names(names@);
    let ghost rs0 = results@;
    let mut names = names;
    let mut results = results;
    let mut out: Vec<(String, SyncStatus)> = Vec::new();
    let ghost mut k: int = 0;
    proof {
        assert(ns0.take(0) =~= Seq::<Seq<char>>::empty());
        assert(rs0.take(0) =~= Seq::<Result<SyncStatus, GitkaError>>::empty());
    }
    while results.len() > 0
        invariant
            0 <= k <= rs0.len(),
            ns0.len() == rs0.len(),
            results@ == rs0.skip(k),
            spec_names(names@) == ns0.skip(k),
            names@.len() == results@.len(),
            spec_status_views(out@) == spec_synced(ns0.take(k), rs0.take(k)),
        decreases results@.len(),
    {
        let ghost pre = names@;
        let ghost pre_r = results@;
        let name = names.remove(0);
        let res = results.remove(0);
        proof {
            assert(spec_names(pre)[0] == pre[0]@);
            assert(ns0.skip(k)[0] == ns0[k]);
            assert(name@ == ns0[k]);
            assert(pre_r[0] == rs0[k]);
            assert(spec_names(names@) =~= spec_names(pre).skip(1));
            assert(ns0.skip(k).skip(1) =~= ns0.skip(k + 1));
            assert(rs0.skip(k).skip(1) =~= rs0.skip(k + 1));
        }
        let ghost before = out@;
        proof {
            assert(res == rs0[k]);
            let t = ns0.take(k + 1);
            let u = rs0.take(k + 1);
            assert(t.drop_last() =~= ns0.take(k));
            assert(u.drop_last() =~= rs0.take(k));
            assert(t.last() == ns0[k]);
            assert(u.last() == rs0[k]);
        }
        match res {
            Ok(st) => {
                out.push((name, st));
                proof { assert(spec_status_views(out@) =~= spec_status_views(before).push((name@, st))); }
            },
            Err(_) => {},
        }
        proof {
            k = k + 1;
            assert(results@ =~= rs0.skip(k));
            assert(spec_names(names@) =~= ns0.skip(k));
        }
    }
    proof {
        assert(ns0.take(k) =~= ns0);
        assert(rs0.take(k) =~= rs0);
    }
    out
}

} // verus!
