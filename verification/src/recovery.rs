//! Recovery records: which files get parity data, and what is recorded of
//! them. Running `par2` itself is left to the application.
use vstd::prelude::*;

use crate::config::Config;
use crate::paths::{join_path, spec_join};
use crate::text::chars_of;

verus! {

/// What is kept about the recovery records of one file.
#[derive(Debug, Clone)]
pub struct RecoveryInfo {
    /// Repository (or file) name.
    pub repo_name: String,
    /// Directory holding the `.par2` files.
    pub par2_dir: String,
    /// Size of the protected file before recovery data was added.
    pub original_size: u64,
    /// Total size of the `.par2` files.
    pub recovery_size: u64,
    /// Recovery block count.
    pub block_count: u32,
}

/// The block count recorded for a redundancy percentage: the percentage
/// rounded down to a multiple of ten, plus ten.
pub open spec fn spec_block_count(redundancy_percent: u32) -> int {
    (redundancy_percent / 10 + 1) * 10
}

/// The block count recorded for a redundancy percentage.
pub fn estimated_block_count(redundancy_percent: u32) -> (r: u32)
    requires
        spec_block_count(redundancy_percent) <= u32::MAX,
    ensures
        r == spec_block_count(redundancy_percent),
{
    (redundancy_percent / 10 + 1) * 10
}

/// A file name whose extension is `par2`: it ends in `.par2` and something
/// stands before the dot.
pub open spec fn spec_is_par2_name(name: Seq<char>) -> bool {
    &&& name.len() > 5
    &&& name[name.len() - 5] == '.'
    &&& name[name.len() - 4] == 'p'
    &&& name[name.len() - 3] == 'a'
    &&& name[name.len() - 2] == 'r'
    &&& name[name.len() - 1] == '2'
}

/// Whether a file name has the extension `par2`.
pub fn is_par2_name(name: &str) -> (r: bool)
    ensures
        r == spec_is_par2_name(name@),
{
    let c = chars_of(name);
    let n = c.len();
    n > 5 && c[n - 5] == '.' && c[n - 4] == 'p' && c[n - 3] == 'a' && c[n - 2] == 'r'
        && c[n - 1] == '2'
}

/// The sizes of the `.par2` files among `(name, size)` listings, added up.
pub open spec fn spec_par2_total(entries: Seq<(Seq<char>, u64)>) -> nat
    decreases entries.len(),
{
    if entries.len() == 0 {
        0
    } else {
        spec_par2_total(entries.drop_last()) + if spec_is_par2_name(entries.last().0) {
            entries.last().1 as nat
        } else {
            0
        }
    }
}

/// The listing with each name taken by its view.
pub open spec fn listing_view(entries: Seq<(String, u64)>) -> Seq<(Seq<char>, u64)> {
    entries.map_values(|e: (String, u64)| (e.0@, e.1))
}

/// The size of the `.par2` files in a directory listing, saturating at
/// `u64::MAX`.
pub fn par2_total(entries: &Vec<(String, u64)>) -> (r: u64)
    ensures
        r == if spec_par2_total(listing_view(entries@)) > u64::MAX {
            u64::MAX as nat
        } else {
            spec_par2_total(listing_view(entries@))
        },
{
    let ghost views = listing_view(entries@);
    let mut total: u64 = 0;
    let mut i: usize = 0;
    while i < entries.len()
        invariant
            i <= entries@.len(),
            views == listing_view(entries@),
            total == if spec_par2_total(views.take(i as int)) > u64::MAX {
                u64::MAX as nat
            } else {
                spec_par2_total(views.take(i as int))
            },
        decreases entries@.len() - i,
    {
        proof {
            assert(views.take(i as int + 1).drop_last() =~= views.take(i as int));
            assert(views.take(i as int + 1).last() == (entries@[i as int].0@, entries@[i as int].1));
        }
        if is_par2_name(entries[i].0.as_str()) {
            total = total.saturating_add(entries[i].1);
        }
        i = i + 1;
    }
    proof { assert(views.take(entries@.len() as int) =~= views); }
    total
}

/// The files that get recovery records: the archive itself when it has at
/// most one part, else each part, joined onto the archive's directory.
pub open spec fn spec_recovery_targets(archive_path: Seq<char>, parent: Seq<char>, parts: Seq<Seq<char>>) -> Seq<Seq<char>> {
    if parts.len() <= 1 {
        seq![archive_path]
    } else {
        parts.map_values(|p: Seq<char>| spec_join(parent, p))
    }
}

/// The files to protect, given the archive path, its directory and the part
/// names.
pub fn recovery_targets(archive_path: &str, parent: &str, part_files: &Vec<String>) -> (r: Vec<String>)
    ensures
        r@.map_values(|s: String| s@) == spec_recovery_targets(
            archive_path@,
            parent@,
            part_files@.map_values(|s: String| s@),
        ),
{
    let mut out: Vec<String> = Vec::new();
    if part_files.len() <= 1 {
        out.push(archive_path.to_owned());
        proof {
            assert(out@.map_values(|s: String| s@) =~= seq![archive_path@]);
        }
        return out;
    }
    let mut i: usize = 0;
    while i < part_files.len()
        invariant
            i <= part_files@.len(),
            out@.len() == i,
            forall|k: int| 0 <= k < i ==> #[trigger] out@[k]@ == spec_join(parent@, part_files@[k]@),
        decreases part_files@.len() - i,
    {
        let p = join_path(parent, part_files[i].as_str());
        out.push(p);
        i = i + 1;
    }
    proof {
        assert(out@.map_values(|s: String| s@) =~= part_files@.map_values(|s: String| s@).map_values(
            |p: Seq<char>| spec_join(parent@, p),
        ));
    }
    out
}

/// The info recorded after creating recovery records for `file_name` into
/// `recovery_dir`.
pub fn created_recovery_info(
    file_name: &str,
    recovery_dir: &str,
    original_size: u64,
    listing: &Vec<(String, u64)>,
    redundancy_percent: u32,
) -> (r: RecoveryInfo)
    requires
        spec_block_count(redundancy_percent) <= u32::MAX,
    ensures
        r.repo_name@ == file_name@,
        r.par2_dir@ == recovery_dir@,
        r.original_size == original_size,
        r.recovery_size == if spec_par2_total(listing_view(listing@)) > u64::MAX {
            u64::MAX as nat
        } else {
            spec_par2_total(listing_view(listing@))
        },
        r.block_count == spec_block_count(redundancy_percent),
{
    RecoveryInfo {
        repo_name: file_name.to_owned(),
        par2_dir: recovery_dir.to_owned(),
        original_size,
        recovery_size: par2_total(listing),
        block_count: estimated_block_count(redundancy_percent),
    }
}

/// The directory holding a repository's recovery records.
pub fn repo_recovery_dir(config: &Config, repo_name: &str) -> (r: String)
    ensures
        r@ == spec_join(config.spec_recovery_dir(), repo_name@),
{
    let dir = config.recovery_dir();
    join_path(dir.as_str(), repo_name)
}

/// The info rebuilt from a recovery directory's listing when no saved info
/// could be read: `None` when it holds no `.par2` data.
pub fn recovery_info_from_listing(config: &Config, repo_name: &str, listing: &Vec<(String, u64)>) -> (r: Option<RecoveryInfo>)
    ensures
        r is None <==> spec_par2_total(listing_view(listing@)) == 0,
        r matches Some(info) ==> {
            &&& info.repo_name@ == repo_name@
            &&& info.par2_dir@ == spec_join(config.spec_recovery_dir(), repo_name@)
            &&& info.original_size == 0
            &&& info.block_count == 0
            &&& info.recovery_size == if spec_par2_total(listing_view(listing@)) > u64::MAX {
                u64::MAX as nat
            } else {
                spec_par2_total(listing_view(listing@))
            }
        },
{
    let total = par2_total(listing);
    if total == 0 {
        return None;
    }
    Some(RecoveryInfo {
        repo_name: repo_name.to_owned(),
        par2_dir: repo_recovery_dir(config, repo_name),
        original_size: 0,
        recovery_size: total,
        block_count: 0,
    })
}

} // verus!
