//! Drive detection: which block devices count as backup targets, what
//! `/proc/mounts` says about a path, and the filesystem a fresh drive gets.
use vstd::prelude::*;
use vstd::utf8::encode_utf8;

use crate::config::TargetMode;
use crate::error::GitkaError;
use crate::dirty::spec_strs;
use crate::strings::{
    contains, lines, spec_contains, spec_lines, spec_starts_with, spec_trim, spec_views,
    spec_words, split_whitespace, starts_with, string_of, trim,
};
use crate::text::{chars_of, clone_opt, push_char, push_str, str_eq};

verus! {

/// A detected drive.
#[derive(Debug, Clone)]
pub struct DriveInfo {
    /// Mount point or drive letter.
    pub mount_point: String,
    pub fs_type: String,
    /// Total space in bytes.
    pub total_space: u64,
    /// Free space in bytes.
    pub free_space: u64,
    pub is_removable: bool,
    pub label: Option<String>,
}

/// One block device as `lsblk` reports it (missing fields as `lsblk`
/// readers default them: not removable, no mount point, filesystem
/// "unknown", no label, no type).
#[derive(Debug, Clone)]
pub struct BlockDevice {
    pub removable: bool,
    pub mountpoint: String,
    pub fstype: String,
    pub label: Option<String>,
    pub dev_type: String,
}

/// The filesystems a removable backup drive may carry.
pub open spec fn spec_backup_fs(fs: Seq<char>) -> bool {
    fs == "vfat"@ || fs == "ntfs"@ || fs == "exfat"@ || fs == "ext4"@ || fs == "ext3"@
}

/// Whether a block device counts as a drive of the given kind: a mounted
/// removable device with a backup filesystem, or a mounted fixed partition.
pub open spec fn spec_device_wanted(mode: TargetMode, d: BlockDevice) -> bool {
    match mode {
        TargetMode::Removable => d.removable && d.mountpoint@.len() > 0 && spec_backup_fs(d.fstype@),
        TargetMode::Local => !d.removable && d.mountpoint@.len() > 0 && d.dev_type@ == "part"@,
    }
}

/// Whether a block device counts as a drive of the given kind: in
/// removable mode, a mounted removable device formatted vfat, ntfs, exfat,
/// ext4 or ext3; in local mode, a mounted fixed partition.
pub fn device_wanted(mode: &TargetMode, d: &BlockDevice) -> (r: bool)
    ensures
        r == spec_device_wanted(*mode, *d),
        *mode == TargetMode::Removable ==> (r <==> (d.removable && d.mountpoint@.len() > 0
            && (d.fstype@ == "vfat"@ || d.fstype@ == "ntfs"@ || d.fstype@ == "exfat"@ || d.fstype@ == "ext4"@
                || d.fstype@ == "ext3"@))),
        *mode == TargetMode::Local ==> (r <==> (!d.removable && d.mountpoint@.len() > 0 && d.dev_type@ == "part"@)),
{
    let mounted = !d.mountpoint.as_str().is_empty();
    match mode {
        TargetMode::Removable => {
            let fs = d.fstype.as_str();
            d.removable && mounted && (str_eq(fs, "vfat") || str_eq(fs, "ntfs") || str_eq(fs, "exfat")
                || str_eq(fs, "ext4") || str_eq(fs, "ext3"))
        },
        TargetMode::Local => !d.removable && mounted && str_eq(d.dev_type.as_str(), "part"),
    }
}

/// The drives among the block devices, in order, each with the space
/// measured at its mount point.
pub open spec fn spec_detected(mode: TargetMode, ds: Seq<BlockDevice>, spaces: Seq<(u64, u64)>) -> Seq<DriveInfo>
    decreases ds.len(),
{
    if ds.len() == 0 || spaces.len() < ds.len() {
        Seq::empty()
    } else {
        let n = ds.len() - 1;
        let d = ds[n];
        spec_detected(mode, ds.drop_last(), spaces.take(n)) + if spec_device_wanted(mode, d) {
            seq![DriveInfo {
                mount_point: d.mountpoint,
                fs_type: d.fstype,
                total_space: spaces[n].0,
                free_space: spaces[n].1,
                is_removable: mode == TargetMode::Removable,
                label: d.label,
            }]
        } else {
            Seq::empty()
        }
    }
}

/// In removable mode every mounted removable device formatted vfat, ntfs,
/// exfat, ext4 or ext3 is detected, with its mount point, filesystem,
/// label and the space measured for it; and every drive detected is a
/// removable one with one of those filesystems.
pub proof fn lemma_removable_detected(ds: Seq<BlockDevice>, spaces: Seq<(u64, u64)>, i: int)
    requires
        ds.len() == spaces.len(),
    ensures
        0 <= i < ds.len() && ds[i].removable && ds[i].mountpoint@.len() > 0
            && (ds[i].fstype@ == "vfat"@ || ds[i].fstype@ == "ntfs"@ || ds[i].fstype@ == "exfat"@
                || ds[i].fstype@ == "ext4"@ || ds[i].fstype@ == "ext3"@)
            ==> exists|j: int| 0 <= j < spec_detected(TargetMode::Removable, ds, spaces).len()
                && #[trigger] spec_detected(TargetMode::Removable, ds, spaces)[j] == (DriveInfo {
                    mount_point: ds[i].mountpoint,
                    fs_type: ds[i].fstype,
                    total_space: spaces[i].0,
                    free_space: spaces[i].1,
                    is_removable: true,
                    label: ds[i].label,
                }),
        forall|j: int| 0 <= j < spec_detected(TargetMode::Removable, ds, spaces).len() ==> {
            let di = #[trigger] spec_detected(TargetMode::Removable, ds, spaces)[j];
            &&& di.is_removable
            &&& di.fs_type@ == "vfat"@ || di.fs_type@ == "ntfs"@ || di.fs_type@ == "exfat"@
                || di.fs_type@ == "ext4"@ || di.fs_type@ == "ext3"@
        },
    decreases ds.len(),
{
    let mode = TargetMode::Removable;
    let out = spec_detected(mode, ds, spaces);
    if ds.len() > 0 {
        let n = ds.len() - 1;
        let d = ds[n];
        let init = ds.drop_last();
        let sp = spaces.take(n);
        lemma_removable_detected(init, sp, i);
        let prev = spec_detected(mode, init, sp);
        let tail = if spec_device_wanted(mode, d) {
            seq![DriveInfo {
                mount_point: d.mountpoint,
                fs_type: d.fstype,
                total_space: spaces[n].0,
                free_space: spaces[n].1,
                is_removable: mode == TargetMode::Removable,
                label: d.label,
            }]
        } else {
            Seq::empty()
        };
        assert(out == prev + tail);
        if 0 <= i < ds.len() && ds[i].removable && ds[i].mountpoint@.len() > 0
            && (ds[i].fstype@ == "vfat"@ || ds[i].fstype@ == "ntfs"@ || ds[i].fstype@ == "exfat"@
                || ds[i].fstype@ == "ext4"@ || ds[i].fstype@ == "ext3"@) {
            if i == n {
                assert(out[prev.len() as int] == tail[0]);
            } else {
                assert(init[i] == ds[i]);
                assert(sp[i] == spaces[i]);
                let j = choose|j: int| 0 <= j < prev.len() && #[trigger] prev[j] == (DriveInfo {
                    mount_point: ds[i].mountpoint,
                    fs_type: ds[i].fstype,
                    total_space: spaces[i].0,
                    free_space: spaces[i].1,
                    is_removable: true,
                    label: ds[i].label,
                });
                assert(out[j] == prev[j]);
            }
        }
        assert forall|j: int| 0 <= j < out.len() implies {
            let di = #[trigger] out[j];
            &&& di.is_removable
            &&& di.fs_type@ == "vfat"@ || di.fs_type@ == "ntfs"@ || di.fs_type@ == "exfat"@
                || di.fs_type@ == "ext4"@ || di.fs_type@ == "ext3"@
        } by {
            if j < prev.len() {
                assert(out[j] == prev[j]);
            } else {
                assert(out[j] == tail[j - prev.len()]);
            }
        }
    }
}

/// The drives of the given kind among the block devices; `spaces[i]` is
/// the total and free space at the mount point of `devices[i]`.
pub fn detect_drives(mode: &TargetMode, devices: &Vec<BlockDevice>, spaces: &Vec<(u64, u64)>) -> (r: Vec<DriveInfo>)
    requires
        spaces@.len() == devices@.len(),
    ensures
        r@ == spec_detected(*mode, devices@, spaces@),
{
    let mut out: Vec<DriveInfo> = Vec::new();
    let mut i: usize = 0;
    while i < devices.len()
        invariant
            i <= devices@.len() == spaces@.len(),
            out@ == spec_detected(*mode, devices@.take(i as int), spaces@.take(i as int)),
        decreases devices@.len() - i,
    {
        proof {
            let dt = devices@.take(i as int + 1);
            let st = spaces@.take(i as int + 1);
            assert(dt.drop_last() =~= devices@.take(i as int));
            assert(st.take(i as int) =~= spaces@.take(i as int));
            assert(dt[i as int] == devices@[i as int]);
            assert(st[i as int] == spaces@[i as int]);
        }
        let d = &devices[i];
        if device_wanted(mode, d) {
            let info = DriveInfo {
                mount_point: d.mountpoint.clone(),
                fs_type: d.fstype.clone(),
                total_space: spaces[i].0,
                free_space: spaces[i].1,
                is_removable: match mode { TargetMode::Removable => true, TargetMode::Local => false },
                label: clone_opt(&d.label),
            };
            out.push(info);
        }
        i = i + 1;
    }
    proof {
        assert(devices@.take(devices@.len() as int) =~= devices@);
        assert(spaces@.take(spaces@.len() as int) =~= spaces@);
    }
    out
}

/// The pieces of `s` between `/` characters; at least one.
pub open spec fn spec_slash_pieces(s: Seq<char>) -> Seq<Seq<char>>
    decreases s.len(),
{
    if s.len() == 0 {
        seq![Seq::empty()]
    } else {
        let p = spec_slash_pieces(s.drop_last());
        if s.last() == '/' {
            p.push(Seq::empty())
        } else {
            p.drop_last().push(p.last().push(s.last()))
        }
    }
}

proof fn lemma_slash_pieces_nonempty(s: Seq<char>)
    ensures
        spec_slash_pieces(s).len() > 0,
    decreases s.len(),
{
    if s.len() > 0 {
        lemma_slash_pieces_nonempty(s.drop_last());
    }
}

/// Whether piece `i` of a path names a component: not empty, and not `.`
/// unless it opens a relative path.
pub open spec fn spec_keep_piece(p: Seq<char>, i: int, rooted: bool) -> bool {
    p.len() > 0 && (p != seq!['.'] || (i == 0 && !rooted))
}

/// The component pieces among the first pieces, in order.
pub open spec fn spec_kept_pieces(ps: Seq<Seq<char>>, rooted: bool) -> Seq<Seq<char>>
    decreases ps.len(),
{
    if ps.len() == 0 {
        Seq::empty()
    } else {
        spec_kept_pieces(ps.drop_last(), rooted) + if spec_keep_piece(ps.last(), ps.len() - 1, rooted) {
            seq![ps.last()]
        } else {
            Seq::empty()
        }
    }
}

/// The components of a path, as `Path::components` gives them: the root
/// as `/` when the path starts with one, then the names between slashes,
/// without empty names and without `.` except at the start of a relative
/// path.
pub open spec fn spec_components(s: Seq<char>) -> Seq<Seq<char>> {
    let rooted = s.len() > 0 && s[0] == '/';
    (if rooted { seq![seq!['/']] } else { Seq::empty() }) + spec_kept_pieces(spec_slash_pieces(s), rooted)
}

/// The components of a path.
pub fn components(s: &str) -> (r: Vec<String>)
    ensures
        spec_views(r@) == spec_components(s@),
{
    let v = chars_of(s);
    let rooted = v.len() > 0 && v[0] == '/';
    let mut out: Vec<String> = Vec::new();
    if rooted {
        let mut root = String::new();
        push_char(&mut root, '/');
        out.push(root);
    }
    let ghost head = spec_views(out@);
    proof { assert(head =~= if rooted { seq![seq!['/']] } else { Seq::<Seq<char>>::empty() }); }
    let mut cur = String::new();
    let mut piece_index: usize = 0;
    let mut i: usize = 0;
    proof {
        assert(v@.take(0) =~= Seq::<char>::empty());
        assert(spec_views(out@) =~= head + spec_kept_pieces(spec_slash_pieces(v@.take(0)).drop_last(), rooted));
    }
    while i < v.len()
        invariant
            i <= v@.len(),
            v@ == s@,
            rooted == (s@.len() > 0 && s@[0] == '/'),
            piece_index as int == spec_slash_pieces(v@.take(i as int)).len() - 1,
            piece_index <= i,
            spec_views(out@) == head + spec_kept_pieces(spec_slash_pieces(v@.take(i as int)).drop_last(), rooted),
            cur@ == spec_slash_pieces(v@.take(i as int)).last(),
        decreases v@.len() - i,
    {
        let c = v[i];
        let ghost t = v@.take(i as int + 1);
        let ghost p = spec_slash_pieces(v@.take(i as int));
        proof {
            assert(t.drop_last() =~= v@.take(i as int));
            assert(t.last() == c);
            lemma_slash_pieces_nonempty(v@.take(i as int));
        }
        if c == '/' {
            let ghost before = out@;
            let mut piece = String::new();
            std::mem::swap(&mut piece, &mut cur);
            let pc = chars_of(piece.as_str());
            let keep = pc.len() > 0 && !(pc.len() == 1 && pc[0] == '.' && !(piece_index == 0 && !rooted));
            proof {
                let q = spec_slash_pieces(t);
                assert(q == p.push(Seq::<char>::empty()));
                assert(q.drop_last() =~= p);
                assert(p.drop_last().len() == piece_index);
                assert(keep == spec_keep_piece(p.last(), p.len() - 1, rooted)) by {
                    if pc@.len() == 1 {
                        assert(pc@ == seq![pc@[0]]);
                    }
                    if p.last() == seq!['.'] {
                        assert(pc@.len() == 1 && pc@[0] == '.');
                    }
                }
                assert(p =~= p.drop_last().push(p.last()));
            }
            if keep {
                out.push(piece);
                proof { assert(spec_views(out@) =~= spec_views(before) + seq![p.last()]); }
            } else {
                proof { assert(spec_views(out@) =~= spec_views(before) + Seq::<Seq<char>>::empty()); }
            }
            piece_index = piece_index + 1;
        } else {
            push_char(&mut cur, c);
            proof {
                let q = spec_slash_pieces(t);
                assert(q.drop_last() =~= p.drop_last());
            }
        }
        i = i + 1;
    }
    proof {
        assert(v@.take(v@.len() as int) =~= v@);
        lemma_slash_pieces_nonempty(v@);
    }
    let ghost p = spec_slash_pieces(s@);
    let pc = chars_of(cur.as_str());
    let keep = pc.len() > 0 && !(pc.len() == 1 && pc[0] == '.' && !(piece_index == 0 && !rooted));
    proof {
        assert(keep == spec_keep_piece(p.last(), p.len() - 1, rooted)) by {
            if pc@.len() == 1 {
                assert(pc@ == seq![pc@[0]]);
            }
            if p.last() == seq!['.'] {
                assert(pc@.len() == 1 && pc@[0] == '.');
            }
        }
        assert(p =~= p.drop_last().push(p.last()));
    }
    let ghost before = out@;
    if keep {
        out.push(cur);
        proof { assert(spec_views(out@) =~= spec_views(before) + seq![p.last()]); }
    } else {
        proof { assert(spec_views(out@) =~= spec_views(before) + Seq::<Seq<char>>::empty()); }
    }
    out
}

/// Whether `base` is a leading run of the components of `path`, as
/// `Path::starts_with` has it.
pub open spec fn spec_path_starts_with(path: Seq<char>, base: Seq<char>) -> bool {
    let pc = spec_components(path);
    let bc = spec_components(base);
    bc.len() <= pc.len() && pc.take(bc.len() as int) == bc
}

/// Whether `base` is a leading run of the components of `path`.
pub fn path_starts_with(path: &str, base: &str) -> (r: bool)
    ensures
        r == spec_path_starts_with(path@, base@),
{
    let pc = components(path);
    let bc = components(base);
    if bc.len() > pc.len() {
        return false;
    }
    let mut i: usize = 0;
    while i < bc.len()
        invariant
            i <= bc@.len() <= pc@.len(),
            spec_views(pc@) == spec_components(path@),
            spec_views(bc@) == spec_components(base@),
            forall|j: int| 0 <= j < i ==> pc@[j]@ == bc@[j]@,
        decreases bc@.len() - i,
    {
        if pc[i] != bc[i] {
            proof {
                let a = spec_components(path@).take(bc@.len() as int);
                let b = spec_components(base@);
                assert(a[i as int] == pc@[i as int]@);
                assert(b[i as int] == bc@[i as int]@);
                assert(a != b);
            }
            return false;
        }
        i = i + 1;
    }
    proof {
        assert(spec_views(pc@).take(bc@.len() as int) =~= spec_views(bc@));
    }
    true
}

/// One line of `/proc/mounts`: device, mount point and, when the line has
/// a third field, the filesystem type.
#[derive(Debug, Clone)]
pub struct MountEntry {
    pub device: String,
    pub mount_point: String,
    pub fs_type: Option<String>,
}

/// The mathematical value of a mount entry.
pub open spec fn spec_mount_view(m: MountEntry) -> (Seq<char>, Seq<char>, Option<Seq<char>>) {
    (m.device@, m.mount_point@, match m.fs_type { Some(f) => Some(f@), None => None })
}

/// The entries of the lines with at least two fields, in order.
pub open spec fn spec_mount_lines(ls: Seq<Seq<char>>) -> Seq<(Seq<char>, Seq<char>, Option<Seq<char>>)>
    decreases ls.len(),
{
    if ls.len() == 0 {
        Seq::empty()
    } else {
        let w = spec_words(ls.last());
        spec_mount_lines(ls.drop_last()) + if w.len() >= 2 {
            seq![(w[0], w[1], if w.len() >= 3 { Some(w[2]) } else { None })]
        } else {
            Seq::empty()
        }
    }
}

/// The entries of the text of `/proc/mounts`.
pub fn parse_mounts(text: &str) -> (r: Vec<MountEntry>)
    ensures
        r@.map_values(|m: MountEntry| spec_mount_view(m)) == spec_mount_lines(spec_lines(text@)),
{
    let ls = lines(text);
    let ghost lv = spec_views(ls@);
    let mut out: Vec<MountEntry> = Vec::new();
    let mut i: usize = 0;
    while i < ls.len()
        invariant
            i <= ls@.len(),
            lv == spec_views(ls@),
            out@.map_values(|m: MountEntry| spec_mount_view(m)) == spec_mount_lines(lv.take(i as int)),
        decreases ls@.len() - i,
    {
        let w = split_whitespace(ls[i].as_str());
        let ghost before = out@;
        proof {
            let t = lv.take(i as int + 1);
            assert(t.drop_last() =~= lv.take(i as int));
            assert(t.last() == ls@[i as int]@);
        }
        if w.len() >= 2 {
            let fs = if w.len() >= 3 { Some(w[2].clone()) } else { None };
            let e = MountEntry { device: w[0].clone(), mount_point: w[1].clone(), fs_type: fs };
            proof {
                assert(spec_views(w@)[0] == w@[0]@);
                assert(spec_views(w@)[1] == w@[1]@);
                if w@.len() >= 3 {
                    assert(spec_views(w@)[2] == w@[2]@);
                }
            }
            out.push(e);
            proof {
                assert(out@.map_values(|m: MountEntry| spec_mount_view(m))
                    =~= before.map_values(|m: MountEntry| spec_mount_view(m)).push(spec_mount_view(e)));
            }
        } else {
            proof {
                assert(before.map_values(|m: MountEntry| spec_mount_view(m))
                    + Seq::<(Seq<char>, Seq<char>, Option<Seq<char>>)>::empty()
                    =~= before.map_values(|m: MountEntry| spec_mount_view(m)));
            }
        }
        i = i + 1;
    }
    proof { assert(lv.take(ls@.len() as int) =~= lv); }
    out
}

/// The mount point of the first entry whose device name contains
/// `device_name`.
pub fn find_mount_point(mounts: &Vec<MountEntry>, device_name: &str) -> (r: Option<String>)
    ensures
        match r {
            Some(m) => exists|i: int| 0 <= i < mounts@.len() && spec_contains(mounts@[i].device@, device_name@)
                && m == mounts@[i].mount_point
                && forall|j: int| 0 <= j < i ==> !spec_contains(#[trigger] mounts@[j].device@, device_name@),
            None => forall|j: int| 0 <= j < mounts@.len() ==> !spec_contains(#[trigger] mounts@[j].device@, device_name@),
        },
{
    let mut i: usize = 0;
    while i < mounts.len()
        invariant
            i <= mounts@.len(),
            forall|j: int| 0 <= j < i ==> !spec_contains(#[trigger] mounts@[j].device@, device_name@),
        decreases mounts@.len() - i,
    {
        if contains(mounts[i].device.as_str(), device_name) {
            return Some(mounts[i].mount_point.clone());
        }
        i = i + 1;
    }
    None
}

/// Whether two paths have the same components, as `Path` equality has it.
pub open spec fn spec_same_path(a: Seq<char>, b: Seq<char>) -> bool {
    spec_components(a) == spec_components(b)
}

/// Whether two paths have the same components.
pub fn same_path(a: &str, b: &str) -> (r: bool)
    ensures
        r == spec_same_path(a@, b@),
{
    let ac = components(a);
    let bc = components(b);
    if ac.len() != bc.len() {
        proof { assert(spec_views(ac@).len() != spec_views(bc@).len()); }
        return false;
    }
    let mut i: usize = 0;
    while i < ac.len()
        invariant
            i <= ac@.len() == bc@.len(),
            spec_views(ac@) == spec_components(a@),
            spec_views(bc@) == spec_components(b@),
            forall|j: int| 0 <= j < i ==> ac@[j]@ == bc@[j]@,
        decreases ac@.len() - i,
    {
        if ac[i] != bc[i] {
            proof {
                assert(spec_views(ac@)[i as int] == ac@[i as int]@);
                assert(spec_views(bc@)[i as int] == bc@[i as int]@);
            }
            return false;
        }
        i = i + 1;
    }
    proof { assert(spec_views(ac@) =~= spec_views(bc@)); }
    true
}

/// The filesystem type of the first entry with a type mounted at
/// `mount_point`, else "unknown".
pub fn find_fs_type(mounts: &Vec<MountEntry>, mount_point: &str) -> (r: String)
    ensures
        (forall|j: int| 0 <= j < mounts@.len() ==> !(mounts@[j].fs_type is Some
            && spec_same_path(#[trigger] mounts@[j].mount_point@, mount_point@))) ==> r@ == "unknown"@,
        forall|i: int| 0 <= i < mounts@.len() && mounts@[i].fs_type is Some
            && spec_same_path(mounts@[i].mount_point@, mount_point@)
            && (forall|j: int| 0 <= j < i ==> !(mounts@[j].fs_type is Some
                && spec_same_path(#[trigger] mounts@[j].mount_point@, mount_point@)))
            ==> r == mounts@[i].fs_type.unwrap(),
{
    let mut i: usize = 0;
    while i < mounts.len()
        invariant
            i <= mounts@.len(),
            forall|j: int| 0 <= j < i ==> !(mounts@[j].fs_type is Some
                && spec_same_path(#[trigger] mounts@[j].mount_point@, mount_point@)),
        decreases mounts@.len() - i,
    {
        match &mounts[i].fs_type {
            Some(f) => {
                if same_path(mounts[i].mount_point.as_str(), mount_point) {
                    return f.clone();
                }
            },
            None => {},
        }
        i = i + 1;
    }
    "unknown".to_owned()
}

/// The mount point that holds `path`: the longest (in bytes) that `path`
/// starts with, else `/`.
pub open spec fn spec_best_mount(ms: Seq<MountEntry>, path: Seq<char>) -> (Seq<char>, nat)
    decreases ms.len(),
{
    if ms.len() == 0 {
        (seq!['/'], 0)
    } else {
        let prev = spec_best_mount(ms.drop_last(), path);
        let mp = ms.last().mount_point@;
        if spec_path_starts_with(path, mp) && encode_utf8(mp).len() > prev.1 {
            (mp, encode_utf8(mp).len())
        } else {
            prev
        }
    }
}

/// The mount point that holds `path`.
pub fn best_mount(mounts: &Vec<MountEntry>, path: &str) -> (r: String)
    ensures
        r@ == spec_best_mount(mounts@, path@).0,
{
    let mut best = "/".to_owned();
    let mut best_len: usize = 0;
    let mut i: usize = 0;
    proof { reveal_strlit("/"); }
    while i < mounts.len()
        invariant
            i <= mounts@.len(),
            (best@, best_len as nat) == spec_best_mount(mounts@.take(i as int), path@),
        decreases mounts@.len() - i,
    {
        proof {
            let t = mounts@.take(i as int + 1);
            assert(t.drop_last() =~= mounts@.take(i as int));
            assert(t.last() == mounts@[i as int]);
        }
        let mp = mounts[i].mount_point.as_str();
        let mlen = mp.as_bytes().len();
        if path_starts_with(path, mp) && mlen > best_len {
            best = mp.to_owned();
            best_len = mlen;
        }
        i = i + 1;
    }
    proof { assert(mounts@.take(mounts@.len() as int) =~= mounts@); }
    best
}

/// The device and filesystem of the first entry mounted at `mount_point`:
/// both when the entry has a type, else none and "unknown".
pub open spec fn spec_mount_device(ms: Seq<MountEntry>, mount_point: Seq<char>) -> (Option<Seq<char>>, Seq<char>)
    decreases ms.len(),
{
    if ms.len() == 0 {
        (None, "unknown"@)
    } else if spec_same_path(ms[0].mount_point@, mount_point) {
        match ms[0].fs_type {
            Some(f) => (Some(ms[0].device@), f@),
            None => (None, "unknown"@),
        }
    } else {
        spec_mount_device(ms.skip(1), mount_point)
    }
}

/// The device and filesystem of the first entry mounted at `mount_point`.
pub fn mount_device(mounts: &Vec<MountEntry>, mount_point: &str) -> (r: (Option<String>, String))
    ensures
        (match r.0 { Some(d) => Some(d@), None => None::<Seq<char>> }, r.1@)
            == spec_mount_device(mounts@, mount_point@),
{
    let mut i: usize = 0;
    proof { assert(mounts@.skip(0) =~= mounts@); }
    while i < mounts.len()
        invariant
            i <= mounts@.len(),
            spec_mount_device(mounts@, mount_point@) == spec_mount_device(mounts@.skip(i as int), mount_point@),
        decreases mounts@.len() - i,
    {
        proof {
            let t = mounts@.skip(i as int);
            assert(t[0] == mounts@[i as int]);
            assert(t.skip(1) =~= mounts@.skip(i as int + 1));
        }
        if same_path(mounts[i].mount_point.as_str(), mount_point) {
            return match &mounts[i].fs_type {
                Some(f) => (Some(mounts[i].device.clone()), f.clone()),
                None => (None, "unknown".to_owned()),
            };
        }
        i = i + 1;
    }
    (None, "unknown".to_owned())
}

/// `s` without every leading copy of `p`, as `str::trim_start_matches`.
pub open spec fn spec_trim_prefix(s: Seq<char>, p: Seq<char>) -> Seq<char>
    decreases s.len(),
{
    if p.len() > 0 && spec_starts_with(s, p) {
        spec_trim_prefix(s.skip(p.len() as int), p)
    } else {
        s
    }
}

/// Whether `c` is an ASCII digit.
pub open spec fn spec_ascii_digit(c: char) -> bool {
    '0' <= c && c <= '9'
}

/// `s` without trailing ASCII digits.
pub open spec fn spec_trim_digits(s: Seq<char>) -> Seq<char>
    decreases s.len(),
{
    if s.len() > 0 && spec_ascii_digit(s.last()) {
        spec_trim_digits(s.drop_last())
    } else {
        s
    }
}

/// `device` without leading `/dev/`.
pub fn strip_dev(device: &str) -> (r: String)
    ensures
        r@ == spec_trim_prefix(device@, "/dev/"@),
{
    proof { reveal_strlit("/dev/"); }
    let v = chars_of(device);
    let n = v.len();
    let mut i: usize = 0;
    proof { assert(v@.subrange(0, n as int) =~= device@); }
    while n - i >= 5 && v[i] == '/' && v[i + 1] == 'd' && v[i + 2] == 'e' && v[i + 3] == 'v' && v[i + 4] == '/'
        invariant
            i <= n == v@.len(),
            v@ == device@,
            spec_trim_prefix(device@, "/dev/"@) == spec_trim_prefix(v@.subrange(i as int, n as int), "/dev/"@),
        decreases n - i,
    {
        proof {
            reveal_strlit("/dev/");
            let t = v@.subrange(i as int, n as int);
            assert(t.subrange(0, 5) =~= "/dev/"@);
            assert(t.skip(5) =~= v@.subrange(i as int + 5, n as int));
        }
        i = i + 5;
    }
    proof {
        reveal_strlit("/dev/");
        let t = v@.subrange(i as int, n as int);
        if spec_starts_with(t, "/dev/"@) {
            assert(t.subrange(0, 5)[0] == t[0]);
            assert(t[0] == v@[i as int]);
            assert(t.subrange(0, 5)[1] == v@[i + 1]);
            assert(t.subrange(0, 5)[2] == v@[i + 2]);
            assert(t.subrange(0, 5)[3] == v@[i + 3]);
            assert(t.subrange(0, 5)[4] == v@[i + 4]);
        }
    }
    string_of(&v, i, n)
}

/// The whole-disk name of a partition device: `/dev/` and the partition
/// number dropped.
pub fn base_device(device: &str) -> (r: String)
    ensures
        r@ == spec_trim_digits(spec_trim_prefix(device@, "/dev/"@)),
{
    let stripped = strip_dev(device);
    let v = chars_of(stripped.as_str());
    let mut j: usize = v.len();
    proof { assert(v@.subrange(0, v@.len() as int) =~= v@); }
    while j > 0 && '0' <= v[j - 1] && v[j - 1] <= '9'
        invariant
            j <= v@.len(),
            v@ == stripped@,
            spec_trim_digits(stripped@) == spec_trim_digits(v@.subrange(0, j as int)),
        decreases j,
    {
        proof { assert(v@.subrange(0, j as int).drop_last() =~= v@.subrange(0, j as int - 1)); }
        j = j - 1;
    }
    proof { assert(v@.subrange(0, v@.len() as int) =~= v@); }
    string_of(&v, 0, j)
}

/// `/sys/block/<base>/removable`.
pub fn removable_flag_path(base: &str) -> (r: String)
    ensures
        r@ == "/sys/block/"@ + base@ + "/removable"@,
{
    let mut s = "/sys/block/".to_owned();
    push_str(&mut s, base);
    push_str(&mut s, "/removable");
    s
}

/// Whether a sysfs `removable` file says the device is removable.
pub fn is_removable_flag(text: &str) -> (r: bool)
    ensures
        r == (spec_trim(text@) == "1"@),
{
    let t = trim(text);
    str_eq(t.as_str(), "1")
}

/// Whether a `/sys/block` entry is a loop or RAM device, which detection
/// skips.
pub fn skip_block_device(name: &str) -> (r: bool)
    ensures
        r == (spec_starts_with(name@, "loop"@) || spec_starts_with(name@, "ram"@)),
{
    starts_with(name, "loop") || starts_with(name, "ram")
}

/// The label of the first `/dev/disk/by-label` link whose target names
/// the device.
pub fn find_drive_label(device_name: &str, links: &Vec<(String, String)>) -> (r: Option<String>)
    ensures
        match r {
            Some(l) => exists|i: int| 0 <= i < links@.len()
                && (spec_contains(links@[i].1@, device_name@) || links@[i].1@ == "/dev/"@ + device_name@)
                && l == links@[i].0
                && forall|j: int| 0 <= j < i ==> !(spec_contains(#[trigger] links@[j].1@, device_name@)
                    || links@[j].1@ == "/dev/"@ + device_name@),
            None => forall|j: int| 0 <= j < links@.len() ==> !(spec_contains(#[trigger] links@[j].1@, device_name@)
                || links@[j].1@ == "/dev/"@ + device_name@),
        },
{
    let mut dev_path = "/dev/".to_owned();
    push_str(&mut dev_path, device_name);
    let mut i: usize = 0;
    while i < links.len()
        invariant
            i <= links@.len(),
            dev_path@ == "/dev/"@ + device_name@,
            forall|j: int| 0 <= j < i ==> !(spec_contains(#[trigger] links@[j].1@, device_name@)
                || links@[j].1@ == "/dev/"@ + device_name@),
        decreases links@.len() - i,
    {
        let target = links[i].1.as_str();
        if contains(target, device_name) || str_eq(target, dev_path.as_str()) {
            return Some(links[i].0.clone());
        }
        i = i + 1;
    }
    None
}

/// The drive holding `path`, from `/proc/mounts`, the space at its mount
/// point, the text of its device's sysfs `removable` file when it could be
/// read, and its label.
pub fn get_drive_info(
    path: &str,
    mounts: &Vec<MountEntry>,
    total_space: u64,
    free_space: u64,
    removable_text: Option<&str>,
    label: Option<String>,
) -> (r: DriveInfo)
    ensures
        r.mount_point@ == spec_best_mount(mounts@, path@).0,
        r.total_space == total_space,
        r.free_space == free_space,
        r.label == label,
        r.fs_type@ == spec_mount_device(mounts@, r.mount_point@).1,
        r.is_removable == (spec_mount_device(mounts@, r.mount_point@).0 is Some
            && (removable_text matches Some(t) && spec_trim(t@) == "1"@)),
{
    let mount_point = best_mount(mounts, path);
    let (device, fs_type) = mount_device(mounts, mount_point.as_str());
    let is_removable = match (device, removable_text) {
        (Some(_), Some(t)) => is_removable_flag(t),
        _ => false,
    };
    DriveInfo { mount_point, fs_type, total_space, free_space, is_removable, label }
}

/// The filesystem to format a drive with: the one asked for, else FAT32
/// below 4 GiB and ext4 from there on.
pub fn determine_fs(drive_info: &DriveInfo, preference: Option<&str>) -> (r: Result<String, GitkaError>)
    ensures
        preference matches Some(p) ==> (r matches Ok(f) && f@ == p@),
        preference is None && drive_info.total_space < 4294967296 ==> (r matches Ok(f) && f@ == "vfat"@),
        preference is None && drive_info.total_space >= 4294967296 ==> (r matches Ok(f) && f@ == "ext4"@),
{
    match preference {
        Some(p) => Ok(p.to_owned()),
        None => {
            if drive_info.total_space < 4294967296 {
                Ok("vfat".to_owned())
            } else {
                Ok("ext4".to_owned())
            }
        },
    }
}

/// The device of the first entry mounted at `mount_point`, whatever its
/// filesystem field.
pub open spec fn spec_first_device(ms: Seq<MountEntry>, mount_point: Seq<char>) -> Option<Seq<char>>
    decreases ms.len(),
{
    if ms.len() == 0 {
        None
    } else if spec_same_path(ms[0].mount_point@, mount_point) {
        Some(ms[0].device@)
    } else {
        spec_first_device(ms.skip(1), mount_point)
    }
}

/// The whole-disk device whose sysfs `removable` flag tells whether `path`
/// lies on removable media: that of the first entry mounted where `path`
/// is mounted, without `/dev/` and partition number.
pub fn removable_check_device(mounts: &Vec<MountEntry>, path: &str) -> (r: Option<String>)
    ensures
        match r { Some(d) => Some(d@), None => None::<Seq<char>> } == match spec_first_device(
            mounts@,
            spec_best_mount(mounts@, path@).0,
        ) {
            Some(d) => Some(spec_trim_digits(spec_trim_prefix(d, "/dev/"@))),
            None => None,
        },
{
    let mp = best_mount(mounts, path);
    let mut i: usize = 0;
    proof { assert(mounts@.skip(0) =~= mounts@); }
    while i < mounts.len()
        invariant
            i <= mounts@.len(),
            mp@ == spec_best_mount(mounts@, path@).0,
            spec_first_device(mounts@, mp@) == spec_first_device(mounts@.skip(i as int), mp@),
        decreases mounts@.len() - i,
    {
        proof {
            let t = mounts@.skip(i as int);
            assert(t[0] == mounts@[i as int]);
            assert(t.skip(1) =~= mounts@.skip(i as int + 1));
        }
        if same_path(mounts[i].mount_point.as_str(), mp.as_str()) {
            return Some(base_device(mounts[i].device.as_str()));
        }
        i = i + 1;
    }
    None
}

/// The program and arguments that format `device` with a filesystem:
/// FAT32, ext4 or NTFS, each labelled GITKA; any other filesystem is an
/// error.
pub fn mkfs_command(fs_type: &str, device: &str) -> (r: Result<(String, Vec<String>), GitkaError>)
    ensures
        fs_type@ == "vfat"@ ==> (r matches Ok((p, args)) && p@ == "mkfs.vfat"@
            && spec_strs(args@) == seq!["-F"@, "32"@, "-n"@, "GITKA"@, device@]),
        fs_type@ == "ext4"@ ==> (r matches Ok((p, args)) && p@ == "mkfs.ext4"@
            && spec_strs(args@) == seq!["-F"@, "-L"@, "GITKA"@, device@]),
        fs_type@ == "ntfs"@ ==> (r matches Ok((p, args)) && p@ == "mkfs.ntfs"@
            && spec_strs(args@) == seq!["-f"@, "-L"@, "GITKA"@, device@]),
        fs_type@ != "vfat"@ && fs_type@ != "ext4"@ && fs_type@ != "ntfs"@ ==> (r matches Err(GitkaError::Config(m))
            && m@ == "Unsupported filesystem: "@ + fs_type@ + ". Use ext4, vfat, or ntfs."@),
{
    proof {
        reveal_strlit("vfat");
        reveal_strlit("ext4");
        reveal_strlit("ntfs");
        assert("vfat"@[0] != "ext4"@[0] && "vfat"@[0] != "ntfs"@[0] && "ext4"@[0] != "ntfs"@[0]);
    }
    let mut args: Vec<String> = Vec::new();
    if str_eq(fs_type, "vfat") {
        args.push("-F".to_owned());
        args.push("32".to_owned());
        args.push("-n".to_owned());
        args.push("GITKA".to_owned());
        args.push(device.to_owned());
        proof { assert(spec_strs(args@) =~= seq!["-F"@, "32"@, "-n"@, "GITKA"@, device@]); }
        return Ok(("mkfs.vfat".to_owned(), args));
    }
    if str_eq(fs_type, "ext4") {
        args.push("-F".to_owned());
        args.push("-L".to_owned());
        args.push("GITKA".to_owned());
        args.push(device.to_owned());
        proof { assert(spec_strs(args@) =~= seq!["-F"@, "-L"@, "GITKA"@, device@]); }
        return Ok(("mkfs.ext4".to_owned(), args));
    }
    if str_eq(fs_type, "ntfs") {
        args.push("-f".to_owned());
        args.push("-L".to_owned());
        args.push("GITKA".to_owned());
        args.push(device.to_owned());
        proof { assert(spec_strs(args@) =~= seq!["-f"@, "-L"@, "GITKA"@, device@]); }
        return Ok(("mkfs.ntfs".to_owned(), args));
    }
    let mut m = "Unsupported filesystem: ".to_owned();
    push_str(&mut m, fs_type);
    push_str(&mut m, ". Use ext4, vfat, or ntfs.");
    Err(GitkaError::Config(m))
}

} // verus!
