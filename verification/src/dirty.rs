//! The session log: which repositories were unlocked, served or modified
//! since the last sync, with the commits and files they saw.
use vstd::prelude::*;

use crate::config::Config;
use crate::keyed::{
    find_key, keys_unique, lemma_keyed_map, lemma_keyed_map_push, lemma_keyed_map_remove,
    lemma_keyed_map_set, spec_keyed_map,
};
use crate::paths::{join_path, spec_join};
use crate::text::{contains_str, push_decimal, push_str, spec_decimal};

verus! {

/// What happened to a repository during the session.
#[derive(Debug, Clone, Copy, PartialEq, Eq, Structural)]
pub enum DirtyAction {
    /// Extracted from its archive.
    Unlock,
    /// Served over GitFlare.
    Serve,
    /// Commits were made.
    Modified,
}

/// The log entry of one repository.
#[derive(Debug, Clone)]
pub struct DirtyEntry {
    pub repo_name: String,
    pub action: DirtyAction,
    /// Unix time of the latest activity.
    pub timestamp: u64,
    /// Commits seen during the session, each once, in the order seen.
    pub commits: Vec<String>,
    /// Files touched during the session, each once, in the order seen.
    pub files_touched: Vec<String>,
}

/// The mathematical value of a log entry.
pub struct DirtyEntryView {
    pub repo_name: Seq<char>,
    pub action: DirtyAction,
    pub timestamp: u64,
    pub commits: Seq<Seq<char>>,
    pub files_touched: Seq<Seq<char>>,
}

/// The views of a list of strings.
pub open spec fn spec_strs(v: Seq<String>) -> Seq<Seq<char>> {
    v.map_values(|s: String| s@)
}

impl View for DirtyEntry {
    type V = DirtyEntryView;

    open spec fn view(&self) -> DirtyEntryView {
        DirtyEntryView {
            repo_name: self.repo_name@,
            action: self.action,
            timestamp: self.timestamp,
            commits: spec_strs(self.commits@),
            files_touched: spec_strs(self.files_touched@),
        }
    }
}

/// The session log: one entry per repository name.
#[derive(Debug, Clone)]
pub struct DirtyLog {
    pub entries: Vec<(String, DirtyEntry)>,
}

/// `s` with `x` appended unless it holds `x` already.
pub open spec fn spec_add_once(s: Seq<Seq<char>>, x: Seq<char>) -> Seq<Seq<char>> {
    if s.contains(x) { s } else { s.push(x) }
}

/// The names among `names` that the log has no entry for, in order.
pub open spec fn spec_orphans(names: Seq<Seq<char>>, log: Map<Seq<char>, DirtyEntryView>) -> Seq<Seq<char>>
    decreases names.len(),
{
    if names.len() == 0 {
        Seq::empty()
    } else {
        spec_orphans(names.drop_last(), log) + if log.contains_key(names.last()) {
            Seq::empty()
        } else {
            seq![names.last()]
        }
    }
}

/// `std::time::SystemTime`, carried opaquely.
#[verifier::external_type_specification]
#[verifier::external_body]
pub struct ExSystemTime(std::time::SystemTime);

/// `SystemTime::now`: the system clock's time. Nothing is said of it.
#[verifier::external_body]
fn clock_now() -> (r: std::time::SystemTime) {
    std::time::SystemTime::now()
}

/// `SystemTime::duration_since` with the Unix epoch: the time elapsed since
/// 1970, or `None` for a time before it. Nothing is said of the value.
#[verifier::external_body]
fn elapsed_since_epoch(t: &std::time::SystemTime) -> (r: Option<std::time::Duration>) {
    t.duration_since(std::time::UNIX_EPOCH).ok()
}

/// `Duration::as_secs`: the whole seconds of a duration. Nothing is said
/// of the value.
#[verifier::external_body]
fn duration_secs(d: &std::time::Duration) -> (r: u64) {
    d.as_secs()
}

/// The current Unix time in seconds, from the system clock; 0 when the
/// clock is before 1970.
fn unix_now() -> (r: u64) {
    let now = clock_now();
    match elapsed_since_epoch(&now) {
        Some(d) => duration_secs(&d),
        None => 0,
    }
}

/// A list of strings holds `x` exactly when its views do.
proof fn lemma_contains_strs(v: Seq<String>, x: Seq<char>)
    ensures
        spec_strs(v).contains(x) == exists|i: int| 0 <= i < v.len() && (#[trigger] v[i])@ == x,
{
    if spec_strs(v).contains(x) {
        let j = choose|j: int| 0 <= j < spec_strs(v).len() && spec_strs(v)[j] == x;
        assert(v[j]@ == x);
    }
    if exists|i: int| 0 <= i < v.len() && (#[trigger] v[i])@ == x {
        let j = choose|j: int| 0 <= j < v.len() && (#[trigger] v[j])@ == x;
        assert(spec_strs(v)[j] == x);
    }
}

impl DirtyLog {
    /// The log's names are those of its list.
    proof fn lemma_dom(&self)
        ensures
            self.spec_map().dom() == spec_keyed_map(self.entries@).dom(),
    {
        assert(self.spec_map().dom() =~= spec_keyed_map(self.entries@).dom());
    }

    /// Every repository name occurs once.
    pub open spec fn wf(&self) -> bool {
        keys_unique(self.entries@)
    }

    /// The log as a map from repository name to entry.
    pub open spec fn spec_map(&self) -> Map<Seq<char>, DirtyEntryView> {
        spec_keyed_map(self.entries@).map_values(|e: DirtyEntry| e@)
    }

    /// An empty log.
    pub fn new() -> (r: DirtyLog)
        ensures
            r.wf(),
            r.spec_map() == Map::<Seq<char>, DirtyEntryView>::empty(),
    {
        let r = DirtyLog { entries: Vec::new() };
        assert(r.spec_map() =~= Map::<Seq<char>, DirtyEntryView>::empty());
        r
    }

    /// Whether no repository is dirty.
    pub fn is_empty(&self) -> (r: bool)
        requires
            self.wf(),
        ensures
            r == (self.spec_map().dom().len() == 0),
    {
        proof { lemma_keyed_map(self.entries@); self.lemma_dom(); }
        self.entries.len() == 0
    }

    /// The number of dirty repositories.
    pub fn len(&self) -> (r: usize)
        requires
            self.wf(),
        ensures
            r == self.spec_map().dom().len(),
    {
        proof { lemma_keyed_map(self.entries@); self.lemma_dom(); }
        self.entries.len()
    }

    /// The names of the dirty repositories, each once.
    pub fn dirty_repos(&self) -> (r: Vec<String>)
        requires
            self.wf(),
        ensures
            r@.len() == self.spec_map().dom().len(),
            forall|i: int| 0 <= i < r@.len() ==> self.spec_map().contains_key(#[trigger] r@[i]@),
            forall|k: Seq<char>| #[trigger] self.spec_map().contains_key(k)
                ==> exists|i: int| 0 <= i < r@.len() && r@[i]@ == k,
            forall|i: int, j: int| 0 <= i < j < r@.len() ==> (#[trigger] r@[i])@ != (#[trigger] r@[j])@,
            self.spec_map().dom().finite(),
    {
        proof { lemma_keyed_map(self.entries@); self.lemma_dom(); }
        let mut out: Vec<String> = Vec::new();
        let mut i: usize = 0;
        while i < self.entries.len()
            invariant
                i <= self.entries@.len(),
                out@.len() == i,
                forall|j: int| 0 <= j < i ==> (#[trigger] out@[j])@ == self.entries@[j].0@,
            decreases self.entries@.len() - i,
        {
            out.push(self.entries[i].0.clone());
            i = i + 1;
        }
        proof {
            assert forall|k: Seq<char>| #[trigger] self.spec_map().contains_key(k)
                implies exists|i: int| 0 <= i < out@.len() && out@[i]@ == k by {
                let j = choose|j: int| 0 <= j < self.entries@.len() && self.entries@[j].0@ == k;
                assert(out@[j]@ == k);
            }
        }
        out
    }

    /// Whether the repository is dirty.
    pub fn is_dirty(&self, repo_name: &str) -> (r: bool)
        ensures
            r == self.spec_map().contains_key(repo_name@),
    {
        proof { lemma_keyed_map(self.entries@); }
        find_key(&self.entries, repo_name).is_some()
    }

    /// The entry of a repository, if it is dirty.
    pub fn get(&self, repo_name: &str) -> (r: Option<&DirtyEntry>)
        requires
            self.wf(),
        ensures
            match r {
                Some(e) => self.spec_map().contains_key(repo_name@) && self.spec_map()[repo_name@] == e@,
                None => !self.spec_map().contains_key(repo_name@),
            },
    {
        proof { lemma_keyed_map(self.entries@); }
        match find_key(&self.entries, repo_name) {
            Some(i) => {
                proof { assert(spec_keyed_map(self.entries@)[self.entries@[i as int].0@] == self.entries@[i as int].1); }
                Some(&self.entries[i].1)
            },
            None => None,
        }
    }

    /// Sets the entry of `name`, replacing any it had.
    fn put(&mut self, name: &str, entry: DirtyEntry)
        requires
            old(self).wf(),
        ensures
            final(self).wf(),
            final(self).spec_map() == old(self).spec_map().insert(name@, entry@),
    {
        let ghost es = self.entries@;
        let ghost ev = entry@;
        let key = name.to_owned();
        match find_key(&self.entries, name) {
            Some(i) => {
                let ghost gk = key;
                let ghost ge = entry;
                proof { lemma_keyed_map_set(es, i as int, gk, ge); }
                self.entries.set(i, (key, entry));
                proof {
                    assert(self.entries@ == es.update(i as int, (gk, ge)));
                    assert(self.spec_map() =~= spec_keyed_map(es).map_values(|e: DirtyEntry| e@).insert(name@, ev));
                }
            },
            None => {
                let ghost gk = key;
                let ghost ge = entry;
                proof { lemma_keyed_map_push(es, gk, ge); }
                self.entries.push((key, entry));
                proof {
                    assert(self.entries@ == es.push((gk, ge)));
                    assert(self.spec_map() =~= spec_keyed_map(es).map_values(|e: DirtyEntry| e@).insert(name@, ev));
                }
            },
        }
    }

    /// A log of loaded entries; of entries under the same name the last one
    /// counts.
    pub fn from_entries(loaded: Vec<(String, DirtyEntry)>) -> (r: DirtyLog)
        ensures
            r.wf(),
            r.spec_map() == spec_keyed_map(loaded@).map_values(|e: DirtyEntry| e@),
    {
        let ghost les = loaded@;
        let mut rest = loaded;
        let mut log = DirtyLog::new();
        let ghost mut done: int = 0;
        proof { assert(log.spec_map() =~= spec_keyed_map(les.take(0)).map_values(|e: DirtyEntry| e@)); }
        while rest.len() > 0
            invariant
                0 <= done <= les.len(),
                rest@ == les.skip(done),
                log.wf(),
                log.spec_map() == spec_keyed_map(les.take(done)).map_values(|e: DirtyEntry| e@),
            decreases rest@.len(),
        {
            let (k, e) = rest.remove(0);
            proof {
                assert(les.take(done + 1).drop_last() =~= les.take(done));
                assert(les.take(done + 1).last() == les[done]);
            }
            log.put(k.as_str(), e);
            proof {
                assert(log.spec_map() =~= spec_keyed_map(les.take(done + 1)).map_values(|e: DirtyEntry| e@));
                done = done + 1;
                assert(rest@ =~= les.skip(done));
            }
        }
        proof { assert(les.take(done) =~= les); }
        log
    }

    /// A fresh entry for `name` with the given action and time.
    fn fresh_entry(name: &str, action: DirtyAction, timestamp: u64) -> (e: DirtyEntry)
        ensures
            e@ == (DirtyEntryView {
                repo_name: name@,
                action,
                timestamp,
                commits: Seq::empty(),
                files_touched: Seq::empty(),
            }),
    {
        let e = DirtyEntry {
            repo_name: name.to_owned(),
            action,
            timestamp,
            commits: Vec::new(),
            files_touched: Vec::new(),
        };
        assert(spec_strs(e.commits@) =~= Seq::<Seq<char>>::empty());
        assert(spec_strs(e.files_touched@) =~= Seq::<Seq<char>>::empty());
        e
    }

    /// Records that a repository was unlocked: a fresh entry, replacing any
    /// it had, stamped with the current time.
    pub fn record_unlock(&mut self, repo_name: &str)
        requires
            old(self).wf(),
        ensures
            final(self).wf(),
            final(self).spec_map() == old(self).spec_map().insert(repo_name@, DirtyEntryView {
                repo_name: repo_name@,
                action: DirtyAction::Unlock,
                timestamp: final(self).spec_map()[repo_name@].timestamp,
                commits: Seq::empty(),
                files_touched: Seq::empty(),
            }),
    {
        let now = unix_now();
        self.put(repo_name, Self::fresh_entry(repo_name, DirtyAction::Unlock, now));
    }

    /// Records that a repository was served: a fresh entry, replacing any
    /// it had, stamped with the current time.
    pub fn record_serve(&mut self, repo_name: &str)
        requires
            old(self).wf(),
        ensures
            final(self).wf(),
            final(self).spec_map() == old(self).spec_map().insert(repo_name@, DirtyEntryView {
                repo_name: repo_name@,
                action: DirtyAction::Serve,
                timestamp: final(self).spec_map()[repo_name@].timestamp,
                commits: Seq::empty(),
                files_touched: Seq::empty(),
            }),
    {
        let now = unix_now();
        self.put(repo_name, Self::fresh_entry(repo_name, DirtyAction::Serve, now));
    }

    /// Takes the entry of `name` out of the log, if it is there.
    fn take_entry(&mut self, name: &str) -> (r: Option<DirtyEntry>)
        requires
            old(self).wf(),
        ensures
            final(self).wf(),
            final(self).spec_map() == old(self).spec_map().remove(name@),
            match r {
                Some(e) => old(self).spec_map().contains_key(name@) && old(self).spec_map()[name@] == e@,
                None => !old(self).spec_map().contains_key(name@) && final(self).entries@ == old(self).entries@,
            },
    {
        let ghost es = self.entries@;
        proof { lemma_keyed_map(es); }
        match find_key(&self.entries, name) {
            Some(i) => {
                proof {
                    lemma_keyed_map_remove(es, i as int);
                    assert(spec_keyed_map(es)[es[i as int].0@] == es[i as int].1);
                }
                let (_, e) = self.entries.remove(i);
                proof {
                    assert(self.spec_map() =~= spec_keyed_map(es).map_values(|e: DirtyEntry| e@).remove(name@));
                }
                Some(e)
            },
            None => {
                proof {
                    assert(self.spec_map() =~= spec_keyed_map(es).map_values(|e: DirtyEntry| e@).remove(name@));
                }
                None
            },
        }
    }

    /// Records a commit of a dirty repository (once) and stamps its entry
    /// with the current time; a clean repository is left alone.
    pub fn record_commit(&mut self, repo_name: &str, commit_hash: &str)
        requires
            old(self).wf(),
        ensures
            final(self).wf(),
            !old(self).spec_map().contains_key(repo_name@) ==> final(self).spec_map() == old(self).spec_map(),
            old(self).spec_map().contains_key(repo_name@) ==> final(self).spec_map()
                == old(self).spec_map().insert(repo_name@, DirtyEntryView {
                    timestamp: final(self).spec_map()[repo_name@].timestamp,
                    commits: spec_add_once(old(self).spec_map()[repo_name@].commits, commit_hash@),
                    ..old(self).spec_map()[repo_name@]
                }),
    {
        match self.take_entry(repo_name) {
            Some(mut e) => {
                let ghost old_commits = spec_strs(e.commits@);
                let present = contains_str(&e.commits, commit_hash);
                proof { lemma_contains_strs(e.commits@, commit_hash@); }
                if !present {
                    e.commits.push(commit_hash.to_owned());
                    proof { assert(spec_strs(e.commits@) =~= old_commits.push(commit_hash@)); }
                }
                e.timestamp = unix_now();
                self.put(repo_name, e);
                proof {
                    assert(self.spec_map() =~= old(self).spec_map().insert(repo_name@, e@));
                }
            },
            None => {
                proof { assert(self.spec_map() =~= old(self).spec_map()); }
            },
        }
    }

    /// Records a file touched in a dirty repository (once); a clean
    /// repository is left alone.
    pub fn record_file_touched(&mut self, repo_name: &str, file_path: &str)
        requires
            old(self).wf(),
        ensures
            final(self).wf(),
            !old(self).spec_map().contains_key(repo_name@) ==> final(self).spec_map() == old(self).spec_map(),
            old(self).spec_map().contains_key(repo_name@) ==> final(self).spec_map()
                == old(self).spec_map().insert(repo_name@, DirtyEntryView {
                    files_touched: spec_add_once(old(self).spec_map()[repo_name@].files_touched, file_path@),
                    ..old(self).spec_map()[repo_name@]
                }),
    {
        match self.take_entry(repo_name) {
            Some(mut e) => {
                let ghost old_files = spec_strs(e.files_touched@);
                let present = contains_str(&e.files_touched, file_path);
                proof { lemma_contains_strs(e.files_touched@, file_path@); }
                if !present {
                    e.files_touched.push(file_path.to_owned());
                    proof { assert(spec_strs(e.files_touched@) =~= old_files.push(file_path@)); }
                }
                self.put(repo_name, e);
                proof {
                    assert(self.spec_map() =~= old(self).spec_map().insert(repo_name@, e@));
                }
            },
            None => {
                proof { assert(self.spec_map() =~= old(self).spec_map()); }
            },
        }
    }

    /// Marks a repository as modified and stamps it with the current time;
    /// a clean repository gets a fresh entry marked modified.
    pub fn record_modified(&mut self, repo_name: &str)
        requires
            old(self).wf(),
        ensures
            final(self).wf(),
            old(self).spec_map().contains_key(repo_name@) ==> final(self).spec_map()
                == old(self).spec_map().insert(repo_name@, DirtyEntryView {
                    action: DirtyAction::Modified,
                    timestamp: final(self).spec_map()[repo_name@].timestamp,
                    ..old(self).spec_map()[repo_name@]
                }),
            !old(self).spec_map().contains_key(repo_name@) ==> final(self).spec_map()
                == old(self).spec_map().insert(repo_name@, DirtyEntryView {
                    repo_name: repo_name@,
                    action: DirtyAction::Modified,
                    timestamp: final(self).spec_map()[repo_name@].timestamp,
                    commits: Seq::empty(),
                    files_touched: Seq::empty(),
                }),
    {
        match self.take_entry(repo_name) {
            Some(mut e) => {
                e.action = DirtyAction::Modified;
                e.timestamp = unix_now();
                self.put(repo_name, e);
                proof {
                    assert(self.spec_map() =~= old(self).spec_map().insert(repo_name@, e@));
                }
            },
            None => {
                let now = unix_now();
                let e = Self::fresh_entry(repo_name, DirtyAction::Modified, now);
                self.put(repo_name, e);
                proof {
                    assert(self.spec_map() =~= old(self).spec_map().insert(repo_name@, e@));
                }
            },
        }
    }

    /// Removes a repository from the log.
    pub fn clear_repo(&mut self, repo_name: &str)
        requires
            old(self).wf(),
        ensures
            final(self).wf(),
            final(self).spec_map() == old(self).spec_map().remove(repo_name@),
    {
        let _ = self.take_entry(repo_name);
    }

    /// Empties the log.
    pub fn clear_all(&mut self)
        ensures
            final(self).wf(),
            final(self).spec_map() == Map::<Seq<char>, DirtyEntryView>::empty(),
    {
        self.entries = Vec::new();
        assert(self.spec_map() =~= Map::<Seq<char>, DirtyEntryView>::empty());
    }

    /// The extracted repositories the log has no entry for, in order: left
    /// extracted by a session that did not end cleanly.
    pub fn detect_orphaned(&self, extracted_repos: &[String]) -> (r: Vec<String>)
        ensures
            spec_strs(r@) == spec_orphans(spec_strs(extracted_repos@), self.spec_map()),
    {
        let ghost names = spec_strs(extracted_repos@);
        let mut out: Vec<String> = Vec::new();
        let mut i: usize = 0;
        while i < extracted_repos.len()
            invariant
                i <= extracted_repos@.len(),
                names == spec_strs(extracted_repos@),
                spec_strs(out@) == spec_orphans(names.take(i as int), self.spec_map()),
            decreases extracted_repos@.len() - i,
        {
            proof {
                assert(names.take(i as int + 1).drop_last() =~= names.take(i as int));
                assert(names.take(i as int + 1).last() == extracted_repos@[i as int]@);
            }
            if !self.is_dirty(extracted_repos[i].as_str()) {
                let ghost before = spec_strs(out@);
                out.push(extracted_repos[i].clone());
                proof { assert(spec_strs(out@) =~= before + seq![extracted_repos@[i as int]@]); }
            } else {
                proof {
                    let before = spec_strs(out@);
                    assert(before + Seq::<Seq<char>>::empty() =~= before);
                }
            }
            i = i + 1;
        }
        proof { assert(names.take(extracted_repos@.len() as int) =~= names); }
        out
    }
}

impl Default for DirtyLog {
    fn default() -> (r: DirtyLog)
        ensures
            r.wf(),
            r.spec_map() == Map::<Seq<char>, DirtyEntryView>::empty(),
    {
        DirtyLog::new()
    }
}

/// `dirty.toml`.
pub open spec fn s_dirty_toml() -> Seq<char> {
    seq!['d', 'i', 'r', 't', 'y', '.', 't', 'o', 'm', 'l']
}

/// Where the session log of a configuration lives: `<state dir>/dirty.toml`.
pub fn dirty_log_path(config: &Config) -> (r: String)
    ensures
        r@ == spec_join(config.spec_state_dir(), s_dirty_toml()),
{
    proof { reveal_strlit("dirty.toml"); }
    let state = config.state_dir();
    join_path(state.as_str(), "dirty.toml")
}

/// An age in seconds as text: seconds under a minute, then whole minutes
/// under an hour, whole hours under a day, else whole days.
pub open spec fn spec_format_age(secs: u64) -> Seq<char> {
    if secs < 60 {
        spec_decimal(secs as nat) + seq!['s']
    } else if secs < 3600 {
        spec_decimal((secs / 60) as nat) + seq!['m']
    } else if secs < 86400 {
        spec_decimal((secs / 3600) as nat) + seq!['h']
    } else {
        spec_decimal((secs / 86400) as nat) + seq!['d']
    }
}

/// An age in seconds as text.
pub fn format_age(secs: u64) -> (r: String)
    ensures
        r@ == spec_format_age(secs),
{
    let mut s = String::new();
    if secs < 60 {
        push_decimal(&mut s, secs);
        push_str(&mut s, "s");
        proof { reveal_strlit("s"); }
    } else if secs < 3600 {
        push_decimal(&mut s, secs / 60);
        push_str(&mut s, "m");
        proof { reveal_strlit("m"); }
    } else if secs < 86400 {
        push_decimal(&mut s, secs / 3600);
        push_str(&mut s, "h");
        proof { reveal_strlit("h"); }
    } else {
        push_decimal(&mut s, secs / 86400);
        push_str(&mut s, "d");
        proof { reveal_strlit("d"); }
    }
    proof { assert(s@ =~= spec_format_age(secs)); }
    s
}

/// How an action is shown.
pub open spec fn spec_action_name(a: DirtyAction) -> Seq<char> {
    match a {
        DirtyAction::Unlock => "Unlock"@,
        DirtyAction::Serve => "Serve"@,
        DirtyAction::Modified => "Modified"@,
    }
}

/// How an action is shown.
pub fn action_name(a: DirtyAction) -> (r: &'static str)
    ensures
        r@ == spec_action_name(a),
{
    match a {
        DirtyAction::Unlock => "Unlock",
        DirtyAction::Serve => "Serve",
        DirtyAction::Modified => "Modified",
    }
}

/// The summary line of one dirty repository at time `now`.
pub open spec fn spec_summary_line(name: Seq<char>, e: DirtyEntryView, now: u64) -> Seq<char> {
    let age = if now >= e.timestamp { (now - e.timestamp) as u64 } else { 0u64 };
    "  "@ + name + " - "@ + spec_action_name(e.action) + " ("@ + spec_format_age(age) + " ago)"@
        + (if e.commits.len() > 0 { ", "@ + spec_decimal(e.commits.len()) + " commits"@ } else { Seq::empty() })
        + (if e.files_touched.len() > 0 { ", "@ + spec_decimal(e.files_touched.len()) + " files"@ } else { Seq::empty() })
}

/// The summary lines of the entries, separated by newlines.
pub open spec fn spec_summary_lines(es: Seq<(String, DirtyEntry)>, now: u64) -> Seq<char>
    decreases es.len(),
{
    if es.len() == 0 {
        Seq::empty()
    } else if es.len() == 1 {
        spec_summary_line(es[0].0@, es[0].1@, now)
    } else {
        spec_summary_lines(es.drop_last(), now) + seq!['\n'] + spec_summary_line(es.last().0@, es.last().1@, now)
    }
}

/// The summary of a log at time `now`.
pub open spec fn spec_summary(log: DirtyLog, now: u64) -> Seq<char> {
    if log.entries@.len() == 0 {
        "No dirty repos (clean session)"@
    } else {
        spec_decimal(log.entries@.len()) + " dirty repo(s):\n"@ + spec_summary_lines(log.entries@, now)
    }
}

/// Appends the summary line of one entry.
fn push_summary_line(s: &mut String, name: &str, e: &DirtyEntry, now: u64)
    ensures
        final(s)@ == old(s)@ + spec_summary_line(name@, e@, now),
{
    let ghost start = s@;
    push_str(s, "  ");
    push_str(s, name);
    push_str(s, " - ");
    push_str(s, action_name(e.action));
    push_str(s, " (");
    let age = format_age(now.saturating_sub(e.timestamp));
    push_str(s, age.as_str());
    push_str(s, " ago)");
    let ghost mid = s@;
    if e.commits.len() > 0 {
        push_str(s, ", ");
        push_decimal(s, e.commits.len() as u64);
        push_str(s, " commits");
    }
    let ghost mid2 = s@;
    if e.files_touched.len() > 0 {
        push_str(s, ", ");
        push_decimal(s, e.files_touched.len() as u64);
        push_str(s, " files");
    }
    proof {
        reveal_strlit("  ");
        reveal_strlit(" - ");
        reveal_strlit(" (");
        reveal_strlit(" ago)");
        reveal_strlit(", ");
        reveal_strlit(" commits");
        reveal_strlit(" files");
        assert(spec_strs(e.commits@).len() == e.commits@.len());
        assert(spec_strs(e.files_touched@).len() == e.files_touched@.len());
        assert(s@ =~= start + spec_summary_line(name@, e@, now));
    }
}

impl DirtyLog {
    /// The summary of the log at time `now`: one line per dirty repository
    /// with its action, age and counts.
    pub fn summary_at(&self, now: u64) -> (r: String)
        ensures
            r@ == spec_summary(*self, now),
    {
        if self.entries.len() == 0 {
            proof { reveal_strlit("No dirty repos (clean session)"); }
            return "No dirty repos (clean session)".to_owned();
        }
        let mut s = String::new();
        push_decimal(&mut s, self.entries.len() as u64);
        push_str(&mut s, " dirty repo(s):\n");
        let ghost head = s@;
        let mut i: usize = 0;
        while i < self.entries.len()
            invariant
                i <= self.entries@.len(),
                s@ == head + spec_summary_lines(self.entries@.take(i as int), now),
            decreases self.entries@.len() - i,
        {
            let ghost before = s@;
            if i > 0 {
                push_str(&mut s, "\n");
                proof { reveal_strlit("\n"); }
            }
            push_summary_line(&mut s, self.entries[i].0.as_str(), &self.entries[i].1, now);
            proof {
                let t = self.entries@.take(i as int + 1);
                assert(t.drop_last() =~= self.entries@.take(i as int));
                assert(t.last() == self.entries@[i as int]);
                if i == 0 {
                    assert(t[0] == self.entries@[0]);
                    assert(s@ =~= head + spec_summary_lines(t, now));
                } else {
                    assert(s@ =~= head + spec_summary_lines(t, now));
                }
            }
            i = i + 1;
        }
        proof {
            reveal_strlit(" dirty repo(s):\n");
            assert(self.entries@.take(self.entries@.len() as int) =~= self.entries@);
            assert(s@ =~= spec_summary(*self, now));
        }
        s
    }
}

/// The summary of the log at the current time.
pub fn dirty_log_summary(log: &DirtyLog) -> (r: String)
    ensures
        exists|now: u64| r@ == #[trigger] spec_summary(*log, now),
{
    let now = unix_now();
    log.summary_at(now)
}

/// Whether the log has any dirty repository.
pub fn has_dirty_log(log: &DirtyLog) -> (r: bool)
    requires
        log.wf(),
    ensures
        r == (log.spec_map().dom().len() > 0),
{
    !log.is_empty()
}

/// A name is reported orphaned exactly when it is among the extracted
/// repositories and the log has no entry for it.
pub proof fn lemma_orphans_exact(names: Seq<Seq<char>>, log: Map<Seq<char>, DirtyEntryView>, x: Seq<char>)
    ensures
        spec_orphans(names, log).contains(x) <==> (names.contains(x) && !log.contains_key(x)),
    decreases names.len(),
{
    if names.len() > 0 {
        let init = names.drop_last();
        lemma_orphans_exact(init, log, x);
        let tail: Seq<Seq<char>> = if log.contains_key(names.last()) { Seq::empty() } else { seq![names.last()] };
        let o = spec_orphans(names, log);
        assert(o == spec_orphans(init, log) + tail);
        if o.contains(x) {
            let k = choose|k: int| 0 <= k < o.len() && o[k] == x;
            if k < spec_orphans(init, log).len() {
                assert(spec_orphans(init, log)[k] == x);
                let j = choose|j: int| 0 <= j < init.len() && init[j] == x;
                assert(names[j] == x);
            } else {
                assert(tail[k - spec_orphans(init, log).len()] == x);
                assert(names[names.len() - 1] == x);
            }
        }
        if names.contains(x) && !log.contains_key(x) {
            let j = choose|j: int| 0 <= j < names.len() && names[j] == x;
            if j < names.len() - 1 {
                assert(init[j] == x);
                let k = choose|k: int| 0 <= k < spec_orphans(init, log).len() && spec_orphans(init, log)[k] == x;
                assert(o[k] == x);
            } else {
                assert(o[o.len() - 1] == x);
            }
        }
    }
}

/// After a repository is recorded as unlocked or served it is dirty, after
/// it is cleared it is not, and other repositories keep their entries
/// either way.
pub proof fn lemma_record_then_clear(log: DirtyLog, name: Seq<char>, e: DirtyEntryView, other: Seq<char>)
    requires
        other != name,
    ensures
        log.spec_map().insert(name, e).contains_key(name),
        !log.spec_map().insert(name, e).remove(name).contains_key(name),
        log.spec_map().insert(name, e).remove(name).contains_key(other) == log.spec_map().contains_key(other),
        log.spec_map().contains_key(other) ==> log.spec_map().insert(name, e)[other] == log.spec_map()[other],
{
}

} // verus!
