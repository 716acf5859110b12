//! The desktop front end's side of talking to the command line tool: the
//! arguments it passes and how it reads the tool's tables.
use vstd::prelude::*;

use crate::strings::{lines, spec_lines, spec_starts_with, spec_views, spec_words, split_whitespace, starts_with};
use crate::text::{decimal, push_str, spec_decimal, str_eq};

verus! {

/// One row of `gitka status`.
#[derive(Debug, Clone)]
pub struct RepoStatus {
    pub name: String,
    pub state: String,
    pub last_synced: String,
    pub archive_size: String,
    pub session: String,
}

/// The outcome of a sync.
#[derive(Debug, Clone)]
pub struct SyncResult {
    pub success: bool,
    pub output: String,
}

/// The configuration as the tool prints it.
#[derive(Debug, Clone)]
pub struct GitkaConfig {
    pub content: String,
}

/// One row of `gitka usb`.
#[derive(Debug, Clone)]
pub struct UsbDrive {
    pub path: String,
    pub label: String,
    pub size: String,
    pub mountpoint: String,
}

/// Words joined with single spaces.
pub open spec fn spec_join_words(ws: Seq<Seq<char>>) -> Seq<char>
    decreases ws.len(),
{
    if ws.len() == 0 {
        Seq::empty()
    } else if ws.len() == 1 {
        ws[0]
    } else {
        spec_join_words(ws.drop_last()) + seq![' '] + ws.last()
    }
}

/// Whether a status line is a table row: at least four words, not a rule
/// and not a heading.
pub open spec fn spec_status_row(w: Seq<Seq<char>>) -> bool {
    w.len() >= 4 && !spec_starts_with(w[0], "-"@) && w[0] != "Name"@ && w[0] != "Repository"@
}

/// The rows of a status table, in order.
pub open spec fn spec_status_rows(ls: Seq<Seq<char>>) -> Seq<(Seq<char>, Seq<char>, Seq<char>, Seq<char>, Seq<char>)>
    decreases ls.len(),
{
    if ls.len() == 0 {
        Seq::empty()
    } else {
        let w = spec_words(ls.last());
        spec_status_rows(ls.drop_last()) + if spec_status_row(w) {
            seq![(w[0], w[1], w[2], w[3], spec_join_words(w.skip(4)))]
        } else {
            Seq::empty()
        }
    }
}

/// The mathematical value of a status row.
pub open spec fn spec_status_view(s: RepoStatus) -> (Seq<char>, Seq<char>, Seq<char>, Seq<char>, Seq<char>) {
    (s.name@, s.state@, s.last_synced@, s.archive_size@, s.session@)
}

/// The words from `i` on, joined with single spaces.
fn join_from(ws: &Vec<String>, i: usize) -> (r: String)
    requires
        i <= ws@.len(),
    ensures
        r@ == spec_join_words(spec_views(ws@).skip(i as int)),
{
    let mut s = String::new();
    let mut k: usize = i;
    proof { assert(spec_views(ws@).skip(i as int).take(0) =~= Seq::<Seq<char>>::empty()); }
    while k < ws.len()
        invariant
            i <= k <= ws@.len(),
            s@ == spec_join_words(spec_views(ws@).skip(i as int).take(k - i)),
        decreases ws@.len() - k,
    {
        proof {
            let t = spec_views(ws@).skip(i as int).take(k - i + 1);
            assert(t.drop_last() =~= spec_views(ws@).skip(i as int).take(k - i));
            assert(t.last() == ws@[k as int]@);
            if k == i {
                assert(t[0] == ws@[k as int]@);
            }
        }
        if k > i {
            push_str(&mut s, " ");
            proof { reveal_strlit(" "); }
        }
        push_str(&mut s, ws[k].as_str());
        k = k + 1;
    }
    proof { assert(spec_views(ws@).skip(i as int).take(ws@.len() - i) =~= spec_views(ws@).skip(i as int)); }
    s
}

/// The rows of the output of `gitka status`.
pub fn parse_status_output(output: &str) -> (r: Vec<RepoStatus>)
    ensures
        r@.map_values(|s: RepoStatus| spec_status_view(s)) == spec_status_rows(spec_lines(output@)),
{
    let ls = lines(output);
    let ghost lv = spec_views(ls@);
    let mut out: Vec<RepoStatus> = Vec::new();
    let mut i: usize = 0;
    while i < ls.len()
        invariant
            i <= ls@.len(),
            lv == spec_views(ls@),
            out@.map_values(|s: RepoStatus| spec_status_view(s)) == spec_status_rows(lv.take(i as int)),
        decreases ls@.len() - i,
    {
        let w = split_whitespace(ls[i].as_str());
        let ghost wv = spec_views(w@);
        proof {
            let t = lv.take(i as int + 1);
            assert(t.drop_last() =~= lv.take(i as int));
            assert(t.last() == ls@[i as int]@);
        }
        let ghost before = out@;
        if w.len() >= 4 && !starts_with(w[0].as_str(), "-") && !str_eq(w[0].as_str(), "Name")
            && !str_eq(w[0].as_str(), "Repository") {
            proof {
                assert(wv[0] == w@[0]@);
                assert(wv[1] == w@[1]@);
                assert(wv[2] == w@[2]@);
                assert(wv[3] == w@[3]@);
            }
            let row = RepoStatus {
                name: w[0].clone(),
                state: w[1].clone(),
                last_synced: w[2].clone(),
                archive_size: w[3].clone(),
                session: join_from(&w, 4),
            };
            out.push(row);
            proof {
                assert(out@.map_values(|s: RepoStatus| spec_status_view(s))
                    =~= before.map_values(|s: RepoStatus| spec_status_view(s)).push(spec_status_view(row)));
            }
        } else {
            proof {
                if wv.len() >= 1 {
                    assert(wv[0] == w@[0]@);
                }
                assert(before.map_values(|s: RepoStatus| spec_status_view(s))
                    + Seq::<(Seq<char>, Seq<char>, Seq<char>, Seq<char>, Seq<char>)>::empty()
                    =~= before.map_values(|s: RepoStatus| spec_status_view(s)));
            }
        }
        i = i + 1;
    }
    proof { assert(lv.take(ls@.len() as int) =~= lv); }
    out
}

/// Whether a `gitka usb` line is a table row: at least two words, not a
/// rule, not the heading, and not the "No drives" message.
pub open spec fn spec_usb_row(w: Seq<Seq<char>>) -> bool {
    w.len() >= 2 && !spec_starts_with(w[0], "-"@) && w[0] != "Path"@ && w[0] != "No"@
}

/// The rows of a `gitka usb` table: path, label, size (or "unknown") and
/// mount point (or empty).
pub open spec fn spec_usb_rows(ls: Seq<Seq<char>>) -> Seq<(Seq<char>, Seq<char>, Seq<char>, Seq<char>)>
    decreases ls.len(),
{
    if ls.len() == 0 {
        Seq::empty()
    } else {
        let w = spec_words(ls.last());
        spec_usb_rows(ls.drop_last()) + if spec_usb_row(w) {
            seq![(w[0], w[1], if w.len() > 2 { w[2] } else { "unknown"@ }, if w.len() > 3 { w[3] } else { Seq::empty() })]
        } else {
            Seq::empty()
        }
    }
}

/// The mathematical value of a drive row.
pub open spec fn spec_usb_view(d: UsbDrive) -> (Seq<char>, Seq<char>, Seq<char>, Seq<char>) {
    (d.path@, d.label@, d.size@, d.mountpoint@)
}

/// The rows of the output of `gitka usb`.
pub fn parse_usb_output(output: &str) -> (r: Vec<UsbDrive>)
    ensures
        r@.map_values(|d: UsbDrive| spec_usb_view(d)) == spec_usb_rows(spec_lines(output@)),
{
    let ls = lines(output);
    let ghost lv = spec_views(ls@);
    let mut out: Vec<UsbDrive> = Vec::new();
    let mut i: usize = 0;
    while i < ls.len()
        invariant
            i <= ls@.len(),
            lv == spec_views(ls@),
            out@.map_values(|d: UsbDrive| spec_usb_view(d)) == spec_usb_rows(lv.take(i as int)),
        decreases ls@.len() - i,
    {
        let w = split_whitespace(ls[i].as_str());
        let ghost wv = spec_views(w@);
        proof {
            let t = lv.take(i as int + 1);
            assert(t.drop_last() =~= lv.take(i as int));
            assert(t.last() == ls@[i as int]@);
        }
        let ghost before = out@;
        if w.len() >= 2 && !starts_with(w[0].as_str(), "-") && !str_eq(w[0].as_str(), "Path")
            && !str_eq(w[0].as_str(), "No") {
            proof {
                assert(wv[0] == w@[0]@);
                assert(wv[1] == w@[1]@);
                if w@.len() > 2 { assert(wv[2] == w@[2]@); }
                if w@.len() > 3 { assert(wv[3] == w@[3]@); }
            }
            let size = if w.len() > 2 { w[2].clone() } else { "unknown".to_owned() };
            let mountpoint = if w.len() > 3 { w[3].clone() } else { String::new() };
            let d = UsbDrive { path: w[0].clone(), label: w[1].clone(), size, mountpoint };
            out.push(d);
            proof {
                assert(out@.map_values(|d: UsbDrive| spec_usb_view(d))
                    =~= before.map_values(|d: UsbDrive| spec_usb_view(d)).push(spec_usb_view(d)));
            }
        } else {
            proof {
                if wv.len() >= 1 {
                    assert(wv[0] == w@[0]@);
                }
                assert(before.map_values(|d: UsbDrive| spec_usb_view(d))
                    + Seq::<(Seq<char>, Seq<char>, Seq<char>, Seq<char>)>::empty()
                    =~= before.map_values(|d: UsbDrive| spec_usb_view(d)));
            }
        }
        i = i + 1;
    }
    proof { assert(lv.take(ls@.len() as int) =~= lv); }
    out
}

/// The arguments of a command: `--config <path>` first when a
/// configuration path is given, then the command's own.
pub fn with_config(config_path: Option<&str>, rest: Vec<String>) -> (r: Vec<String>)
    ensures
        spec_views(r@) == (match config_path {
            Some(c) => seq!["--config"@, c@],
            None => Seq::empty(),
        }) + spec_views(rest@),
{
    let mut out: Vec<String> = Vec::new();
    match config_path {
        Some(c) => {
            out.push("--config".to_owned());
            out.push(c.to_owned());
        },
        None => {},
    }
    let ghost head = spec_views(out@);
    let mut i: usize = 0;
    while i < rest.len()
        invariant
            i <= rest@.len(),
            spec_views(out@) == head + spec_views(rest@).take(i as int),
        decreases rest@.len() - i,
    {
        let ghost before = out@;
        out.push(rest[i].clone());
        proof {
            assert(spec_views(out@) =~= spec_views(before).push(rest@[i as int]@));
            assert(spec_views(rest@).take(i as int + 1) =~= spec_views(rest@).take(i as int).push(rest@[i as int]@));
        }
        i = i + 1;
    }
    proof {
        assert(spec_views(rest@).take(rest@.len() as int) =~= spec_views(rest@));
        assert(head =~= match config_path { Some(c) => seq!["--config"@, c@], None => Seq::<Seq<char>>::empty() });
    }
    out
}

/// The arguments that set a configuration value: `--config`, then the
/// path when given, then `config --set key=value`.
pub fn set_config_args(config_path: Option<&str>, key: &str, value: &str) -> (r: Vec<String>)
    ensures
        spec_views(r@) == seq!["--config"@] + (match config_path {
            Some(c) => seq![c@],
            None => Seq::empty(),
        }) + seq!["config"@, "--set"@, key@ + "="@ + value@],
{
    let mut out: Vec<String> = Vec::new();
    out.push("--config".to_owned());
    match config_path {
        Some(c) => out.push(c.to_owned()),
        None => {},
    }
    out.push("config".to_owned());
    out.push("--set".to_owned());
    let mut kv = key.to_owned();
    push_str(&mut kv, "=");
    push_str(&mut kv, value);
    out.push(kv);
    proof {
        assert(spec_views(out@) =~= seq!["--config"@] + (match config_path {
            Some(c) => seq![c@],
            None => Seq::<Seq<char>>::empty(),
        }) + seq!["config"@, "--set"@, key@ + "="@ + value@]);
    }
    out
}

/// A flag and its value, when a value is given.
pub open spec fn spec_opt_flag(flag: Seq<char>, v: Option<Seq<char>>) -> Seq<Seq<char>> {
    match v {
        Some(x) => seq![flag, x],
        None => Seq::empty(),
    }
}

/// The view of an optional string slice.
pub open spec fn spec_opt_view(o: Option<&str>) -> Option<Seq<char>> {
    match o {
        Some(s) => Some(s@),
        None => None,
    }
}

/// How a boolean is written on the command line.
pub open spec fn spec_bool_arg(b: bool) -> Seq<char> {
    if b { "true"@ } else { "false"@ }
}

fn push_arg(out: &mut Vec<String>, a: &str)
    ensures
        spec_views(final(out)@) == spec_views(old(out)@).push(a@),
{
    let ghost before = out@;
    out.push(a.to_owned());
    proof { assert(spec_views(out@) =~= spec_views(before).push(a@)); }
}

fn push_opt(out: &mut Vec<String>, flag: &str, v: Option<&str>)
    ensures
        spec_views(final(out)@) == spec_views(old(out)@) + spec_opt_flag(flag@, spec_opt_view(v)),
{
    let ghost before = spec_views(out@);
    match v {
        Some(x) => {
            push_arg(out, flag);
            push_arg(out, x);
            proof { assert(spec_views(out@) =~= before + seq![flag@, x@]); }
        },
        None => {
            proof { assert(spec_views(out@) =~= before + Seq::<Seq<char>>::empty()); }
        },
    }
}

/// The arguments that initialize a backup: source and target, then each
/// option given.
pub fn init_args(
    source: &str,
    target: &str,
    username: Option<&str>,
    token: Option<&str>,
    gitflare_url: Option<&str>,
    volume_size: Option<u64>,
    dedup: Option<bool>,
) -> (r: Vec<String>)
    ensures
        spec_views(r@) == seq!["init"@, "--source"@, source@, "--target"@, target@]
            + spec_opt_flag("--username"@, spec_opt_view(username))
            + spec_opt_flag("--token"@, spec_opt_view(token))
            + spec_opt_flag("--gitflare-url"@, spec_opt_view(gitflare_url))
            + spec_opt_flag("--volume-size"@, match volume_size { Some(v) => Some(spec_decimal(v as nat)), None => None })
            + spec_opt_flag("--dedup"@, match dedup { Some(d) => Some(spec_bool_arg(d)), None => None }),
{
    proof { reveal_strlit("true"); reveal_strlit("false"); }
    let mut out: Vec<String> = Vec::new();
    push_arg(&mut out, "init");
    push_arg(&mut out, "--source");
    push_arg(&mut out, source);
    push_arg(&mut out, "--target");
    push_arg(&mut out, target);
    push_opt(&mut out, "--username", username);
    push_opt(&mut out, "--token", token);
    push_opt(&mut out, "--gitflare-url", gitflare_url);
    let vol = match volume_size { Some(v) => Some(decimal(v)), None => None };
    push_opt(&mut out, "--volume-size", match &vol { Some(v) => Some(v.as_str()), None => None });
    push_opt(&mut out, "--dedup", match dedup { Some(true) => Some("true"), Some(false) => Some("false"), None => None });
    proof {
        assert(spec_views(out@) =~= seq!["init"@, "--source"@, source@, "--target"@, target@]
            + spec_opt_flag("--username"@, spec_opt_view(username))
            + spec_opt_flag("--token"@, spec_opt_view(token))
            + spec_opt_flag("--gitflare-url"@, spec_opt_view(gitflare_url))
            + spec_opt_flag("--volume-size"@, match volume_size { Some(v) => Some(spec_decimal(v as nat)), None => None })
            + spec_opt_flag("--dedup"@, match dedup { Some(d) => Some(spec_bool_arg(d)), None => None }));
    }
    out
}

/// The arguments that wipe and set up a drive: target and source, then each
/// option given, then `--yes` when confirmation is skipped.
pub fn wipe_args(
    target: &str,
    source: &str,
    username: Option<&str>,
    token: Option<&str>,
    gitflare_url: Option<&str>,
    filesystem: Option<&str>,
    yes: bool,
) -> (r: Vec<String>)
    ensures
        spec_views(r@) == seq!["wipe"@, "--target"@, target@, "--source"@, source@]
            + spec_opt_flag("--username"@, spec_opt_view(username))
            + spec_opt_flag("--token"@, spec_opt_view(token))
            + spec_opt_flag("--gitflare-url"@, spec_opt_view(gitflare_url))
            + spec_opt_flag("--filesystem"@, spec_opt_view(filesystem))
            + (if yes { seq!["--yes"@] } else { Seq::empty() }),
{
    let mut out: Vec<String> = Vec::new();
    push_arg(&mut out, "wipe");
    push_arg(&mut out, "--target");
    push_arg(&mut out, target);
    push_arg(&mut out, "--source");
    push_arg(&mut out, source);
    push_opt(&mut out, "--username", username);
    push_opt(&mut out, "--token", token);
    push_opt(&mut out, "--gitflare-url", gitflare_url);
    push_opt(&mut out, "--filesystem", filesystem);
    let ghost before = spec_views(out@);
    if yes {
        push_arg(&mut out, "--yes");
    }
    proof {
        assert(spec_views(out@) =~= before + (if yes { seq!["--yes"@] } else { Seq::<Seq<char>>::empty() }));
        assert(spec_views(out@) =~= seq!["wipe"@, "--target"@, target@, "--source"@, source@]
            + spec_opt_flag("--username"@, spec_opt_view(username))
            + spec_opt_flag("--token"@, spec_opt_view(token))
            + spec_opt_flag("--gitflare-url"@, spec_opt_view(gitflare_url))
            + spec_opt_flag("--filesystem"@, spec_opt_view(filesystem))
            + (if yes { seq!["--yes"@] } else { Seq::<Seq<char>>::empty() }));
    }
    out
}

/// The arguments of a command over some repositories (`sync`, `verify`):
/// the command, then `--repos` and the names when names are given.
pub fn repos_command_args(command: &str, repos: Option<&Vec<String>>) -> (r: Vec<String>)
    ensures
        spec_views(r@) == seq![command@] + match repos {
            Some(rs) => seq!["--repos"@] + spec_views(rs@),
            None => Seq::empty(),
        },
{
    let mut out: Vec<String> = Vec::new();
    push_arg(&mut out, command);
    match repos {
        Some(rs) => {
            push_arg(&mut out, "--repos");
            let ghost head = spec_views(out@);
            let mut i: usize = 0;
            while i < rs.len()
                invariant
                    i <= rs@.len(),
                    spec_views(out@) == head + spec_views(rs@).take(i as int),
                decreases rs@.len() - i,
            {
                let ghost before = spec_views(out@);
                push_arg(&mut out, rs[i].as_str());
                proof {
                    assert(spec_views(rs@).take(i as int + 1) =~= spec_views(rs@).take(i as int).push(rs@[i as int]@));
                }
                i = i + 1;
            }
            proof {
                assert(spec_views(rs@).take(rs@.len() as int) =~= spec_views(rs@));
                assert(spec_views(out@) =~= seq![command@] + (seq!["--repos"@] + spec_views(rs@)));
            }
        },
        None => {
            proof { assert(spec_views(out@) =~= seq![command@] + Seq::<Seq<char>>::empty()); }
        },
    }
    out
}

/// The arguments that import a repository: the path, then `--name` and the
/// name when one is given.
pub fn import_args(path: &str, name: Option<&str>) -> (r: Vec<String>)
    ensures
        spec_views(r@) == seq!["import"@, path@] + spec_opt_flag("--name"@, spec_opt_view(name)),
{
    let mut out: Vec<String> = Vec::new();
    push_arg(&mut out, "import");
    push_arg(&mut out, path);
    push_opt(&mut out, "--name", name);
    out
}

} // verus!
