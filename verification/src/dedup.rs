//! Content-addressed deduplication index shared across repositories.
use vstd::prelude::*;

use crate::config::Config;
use crate::hashing::{hash_hex, spec_hash_hex};
use crate::paths::{join_path, spec_join};
use crate::keyed::{keys_unique, lemma_keyed_map, lemma_keyed_map_set, spec_keyed_map};

verus! {

pub use crate::format::{DEDUP_MARKER, RAW_MARKER};

/// Where previously stored content lives.
#[derive(Debug, Clone)]
pub struct DedupRef {
    /// SHA-256 of the content, in hexadecimal.
    pub hash: String,
    /// File name of the archive (its first part) the content was written
    /// to, which may be another repository's; empty when not recorded, and
    /// then the archive being restored.
    pub archive: String,
    /// Which part of that archive holds the content (the primary part is 1).
    pub source_part: u32,
    /// Offset of the record within the part's uncompressed stream.
    pub offset: u64,
    /// Content length in bytes.
    pub length: u64,
}

/// The index: hash to reference, and the bytes saved so far.
#[derive(Debug, Clone)]
pub struct DedupIndex {
    /// Hash and reference, one pair per hash.
    pub entries: Vec<(String, DedupRef)>,
    /// Total deduplicated bytes saved.
    pub bytes_saved: u64,
}

impl DedupIndex {
    /// The index as a map from hash to reference.
    pub open spec fn spec_map(&self) -> Map<Seq<char>, DedupRef> {
        spec_keyed_map(self.entries@)
    }

    /// An empty index.
    pub fn new() -> (r: DedupIndex)
        ensures
            r.entries@.len() == 0,
            r.bytes_saved == 0,
    {
        DedupIndex { entries: Vec::new(), bytes_saved: 0 }
    }
}

impl Default for DedupIndex {
    fn default() -> (r: DedupIndex)
        ensures
            r.entries@.len() == 0,
            r.bytes_saved == 0,
    {
        DedupIndex::new()
    }
}

/// Statistics for display.
#[derive(Debug)]
pub struct DedupStats {
    pub entry_count: usize,
    pub bytes_saved: u64,
}

/// The dedup store of a backup target: where its index file lives and the
/// index itself.
pub struct DedupStore {
    store_path: String,
    index: DedupIndex,
}

/// `dedup-store`.
pub open spec fn s_dedup_store() -> Seq<char> {
    seq!['d', 'e', 'd', 'u', 'p', '-', 's', 't', 'o', 'r', 'e']
}

/// `index.toml`.
pub open spec fn s_index_toml() -> Seq<char> {
    seq!['i', 'n', 'd', 'e', 'x', '.', 't', 'o', 'm', 'l']
}

impl DedupStore {
    /// Every hash occurs once in the index.
    pub closed spec fn wf(&self) -> bool {
        keys_unique(self.index.entries@)
    }

    /// The index as a map from hash to reference.
    pub closed spec fn spec_map(&self) -> Map<Seq<char>, DedupRef> {
        self.index.spec_map()
    }

    /// The bytes saved so far.
    pub closed spec fn spec_bytes_saved(&self) -> u64 {
        self.index.bytes_saved
    }

    /// The directory of the store.
    pub closed spec fn spec_store_path(&self) -> Seq<char> {
        self.store_path@
    }

    /// The store of a configuration: `<target>/.gitka/dedup-store`, empty.
    pub fn open(config: &Config) -> (r: DedupStore)
        ensures
            r.wf(),
            r.spec_store_path() == spec_join(config.spec_state_dir(), s_dedup_store()),
            r.spec_map() == Map::<Seq<char>, DedupRef>::empty(),
            r.spec_bytes_saved() == 0,
    {
        proof { reveal_strlit("dedup-store"); }
        let state = config.state_dir();
        let store_path = join_path(state.as_str(), "dedup-store");
        DedupStore { store_path, index: DedupIndex::new() }
    }

    /// An empty store at `path`.
    pub fn at(path: String) -> (r: DedupStore)
        ensures
            r.wf(),
            r.spec_store_path() == path@,
            r.spec_map() == Map::<Seq<char>, DedupRef>::empty(),
            r.spec_bytes_saved() == 0,
    {
        DedupStore { store_path: path, index: DedupIndex::new() }
    }

    /// The directory of the store.
    pub fn store_path(&self) -> (r: &str)
        ensures
            r@ == self.spec_store_path(),
    {
        self.store_path.as_str()
    }

    /// `<store>/index.toml`, where the index is kept.
    pub fn index_path(&self) -> (r: String)
        ensures
            r@ == spec_join(self.spec_store_path(), s_index_toml()),
    {
        proof { reveal_strlit("index.toml"); }
        join_path(self.store_path.as_str(), "index.toml")
    }

    /// The index, for saving.
    pub fn index(&self) -> (r: &DedupIndex)
        ensures
            r.spec_map() == self.spec_map(),
            r.bytes_saved == self.spec_bytes_saved(),
    {
        &self.index
    }

    /// Sets `k` to `r` in an index with unique keys.
    fn put(index: &mut DedupIndex, k: String, r: DedupRef)
        requires
            keys_unique(old(index).entries@),
        ensures
            keys_unique(final(index).entries@),
            final(index).spec_map() == old(index).spec_map().insert(k@, r),
            final(index).bytes_saved == old(index).bytes_saved,
    {
        let ghost es = index.entries@;
        let ghost saved = index.bytes_saved;
        let mut i: usize = 0;
        while i < index.entries.len()
            invariant
                i <= es.len(),
                index.entries@ == es,
                es == old(index).entries@,
                saved == old(index).bytes_saved,
                index.bytes_saved == saved,
                keys_unique(es),
                forall|j: int| 0 <= j < i ==> es[j].0@ != k@,
            decreases es.len() - i,
        {
            if index.entries[i].0 == k {
                let ghost gk = k;
                let ghost gr = r;
                proof { lemma_keyed_map_set(es, i as int, gk, gr); }
                index.entries.set(i, (k, r));
                assert(index.entries@ == es.update(i as int, (gk, gr)));
                assert(index.bytes_saved == saved);
                return;
            }
            i = i + 1;
        }
        index.entries.push((k, r));
        proof {
            assert(index.entries@.drop_last() =~= es);
            assert forall|a: int, b: int| 0 <= a < b < index.entries@.len() implies
                (#[trigger] index.entries@[a]).0@ != (#[trigger] index.entries@[b]).0@ by {
                if b < es.len() {
                    assert(index.entries@[a] == es[a] && index.entries@[b] == es[b]);
                }
            }
        }
    }

    /// Replaces the index with a loaded one; of pairs with the same hash the
    /// last one counts.
    pub fn set_index(&mut self, loaded: DedupIndex)
        ensures
            final(self).wf(),
            final(self).spec_store_path() == old(self).spec_store_path(),
            final(self).spec_map() == loaded.spec_map(),
            final(self).spec_bytes_saved() == loaded.bytes_saved,
    {
        let ghost les = loaded.entries@;
        let mut rest = loaded.entries;
        let mut fresh = DedupIndex { entries: Vec::new(), bytes_saved: loaded.bytes_saved };
        let ghost mut done: int = 0;
        while rest.len() > 0
            invariant
                0 <= done <= les.len(),
                rest@ == les.skip(done),
                keys_unique(fresh.entries@),
                fresh.spec_map() == spec_keyed_map(les.take(done)),
                fresh.bytes_saved == loaded.bytes_saved,
            decreases rest@.len(),
        {
            let (k, r) = rest.remove(0);
            proof {
                assert(les.take(done + 1).drop_last() =~= les.take(done));
                assert(les.take(done + 1).last() == les[done]);
            }
            Self::put(&mut fresh, k, r);
            proof {
                done = done + 1;
                assert(rest@ =~= les.skip(done));
            }
        }
        proof { assert(les.take(done) =~= les); }
        self.index = fresh;
    }

    /// The lower-case hexadecimal SHA-256 of `data`: 64 characters.
    pub fn hash_content(data: &[u8]) -> (r: String)
        ensures
            r@ == spec_hash_hex(data@),
            r@.len() == 64,
    {
        hash_hex(data)
    }

    /// The reference stored under `hash`, if any.
    pub fn lookup(&self, hash: &str) -> (r: Option<&DedupRef>)
        requires
            self.wf(),
        ensures
            match r {
                Some(rf) => self.spec_map().contains_key(hash@) && self.spec_map()[hash@] == *rf,
                None => !self.spec_map().contains_key(hash@),
            },
    {
        proof { lemma_keyed_map(self.index.entries@); }
        let ghost es = self.index.entries@;
        let wanted = hash.to_owned();
        let mut i: usize = 0;
        while i < self.index.entries.len()
            invariant
                i <= es.len(),
                es == self.index.entries@,
                wanted@ == hash@,
                keys_unique(es),
                forall|j: int| 0 <= j < i ==> es[j].0@ != hash@,
            decreases es.len() - i,
        {
            if self.index.entries[i].0 == wanted {
                proof {
                    lemma_keyed_map(es);
                    assert(es[i as int].0@ == hash@);
                    assert(spec_keyed_map(es)[es[i as int].0@] == es[i as int].1);
                }
                return Some(&self.index.entries[i].1);
            }
            i = i + 1;
        }
        None
    }

    /// Stores `ref_info` under `hash` and adds its length to the bytes saved.
    pub fn register(&mut self, hash: String, ref_info: DedupRef)
        requires
            old(self).wf(),
            old(self).spec_bytes_saved() + ref_info.length <= u64::MAX,
        ensures
            final(self).wf(),
            final(self).spec_store_path() == old(self).spec_store_path(),
            final(self).spec_map() == old(self).spec_map().insert(hash@, ref_info),
            final(self).spec_bytes_saved() == old(self).spec_bytes_saved() + ref_info.length,
            final(self).spec_map().dom().finite(),
            final(self).spec_map().dom().len() == if old(self).spec_map().contains_key(hash@) {
                old(self).spec_map().dom().len()
            } else {
                old(self).spec_map().dom().len() + 1
            },
    {
        proof { lemma_register_then_lookup(*old(self), hash@, ref_info, hash@ + seq!['x']); }
        self.index.bytes_saved = self.index.bytes_saved + ref_info.length;
        Self::put(&mut self.index, hash, ref_info);
        proof { lemma_keyed_map(self.index.entries@); }
    }

    /// Adds `n` to the bytes saved, for content written as a reference.
    pub fn record_saved_bytes(&mut self, n: u64)
        requires
            old(self).spec_bytes_saved() + n <= u64::MAX,
        ensures
            final(self).wf() == old(self).wf(),
            final(self).spec_store_path() == old(self).spec_store_path(),
            final(self).spec_map() == old(self).spec_map(),
            final(self).spec_bytes_saved() == old(self).spec_bytes_saved() + n,
    {
        self.index.bytes_saved = self.index.bytes_saved + n;
    }

    /// Whether content with this hash is stored.
    pub fn contains(&self, hash: &str) -> (r: bool)
        requires
            self.wf(),
        ensures
            r == self.spec_map().contains_key(hash@),
    {
        self.lookup(hash).is_some()
    }

    /// The bytes saved so far.
    pub fn bytes_saved(&self) -> (r: u64)
        ensures
            r == self.spec_bytes_saved(),
    {
        self.index.bytes_saved
    }

    /// The number of stored hashes.
    pub fn entry_count(&self) -> (r: usize)
        requires
            self.wf(),
        ensures
            r == self.spec_map().dom().len(),
            self.spec_map().dom().finite(),
    {
        proof { lemma_keyed_map(self.index.entries@); }
        self.index.entries.len()
    }

    /// The number of stored hashes and the bytes saved.
    pub fn stats(&self) -> (r: DedupStats)
        requires
            self.wf(),
        ensures
            r.entry_count == self.spec_map().dom().len(),
            r.bytes_saved == self.spec_bytes_saved(),
    {
        DedupStats { entry_count: self.entry_count(), bytes_saved: self.index.bytes_saved }
    }
}

/// After content is registered under a hash, the store holds that hash,
/// looking it up gives the registered reference, other hashes keep what
/// they had, and the count of hashes grows by one exactly when the hash
/// was new.
pub proof fn lemma_register_then_lookup(store: DedupStore, hash: Seq<char>, r: DedupRef, other: Seq<char>)
    requires
        store.wf(),
        other != hash,
    ensures
        ({
            let before = store.spec_map();
            &&& before.insert(hash, r).contains_key(hash)
            &&& before.insert(hash, r)[hash] == r
            &&& before.insert(hash, r).contains_key(other) == before.contains_key(other)
            &&& before.contains_key(other) ==> before.insert(hash, r)[other] == before[other]
            &&& before.insert(hash, r).dom().len() == if before.contains_key(hash) {
                before.dom().len()
            } else {
                before.dom().len() + 1
            }
        }),
{
    lemma_keyed_map(store.index.entries@);
    let before = store.spec_map();
    if before.contains_key(hash) {
        assert(before.insert(hash, r).dom() =~= before.dom());
    } else {
        assert(before.insert(hash, r).dom() =~= before.dom().insert(hash));
    }
}

} // verus!
