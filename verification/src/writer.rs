//! The archive writer: files become records, records fill parts, and each
//! finished part is compressed, the first one behind the archive header.
use vstd::prelude::*;
use vstd::bytes::*;

use crate::archive::{ArchiveHeader, COMPRESSION_ZSTD};
use crate::compress::{
    decode_part, spec_compresses, spec_dict_ok, spec_dict_view, spec_part_entries, spec_plain_part, spec_zstd_frame_magic, compress_bytes, spec_compressed, spec_level_for_tier, spec_part_name, spec_zstd_header,
    level_for_tier, part_name, lemma_find_raw_encoded, spec_find_raw, RawLookup, find_raw_content,
    is_extraction_error_with, msg_length_mismatch, msg_not_located, msg_truncated,
};
use crate::config::CompressionConfig;
use crate::dedup::{DedupRef, DedupStore};
use crate::error::GitkaError;
use crate::format::{
    encodable, encode_entry, lemma_parse_encoded, spec_encode_entries, spec_encode_entry,
    spec_parse_stream, ArchiveEntry, EntryBody, EntryView,
};
use crate::hashing::{hash_hex, spec_hash_hex};
use crate::text::{push_str, str_eq};
use crate::sync::spec_names;
use vstd::slice::slice_to_vec;

verus! {

/// What a record adds to the running size of its part: the whole record
/// when it carries content, nothing when it is a reference.
pub open spec fn spec_frame_size(e: EntryView) -> nat {
    match e {
        EntryView::Raw(_, _) => spec_encode_entry(e).len(),
        EntryView::DedupRef(_, _) => 0,
    }
}

/// How records fall into parts: the closed parts, the records of the open
/// part, and the running size of the open part. A part closes after the
/// content record that brings its running size to `max` or beyond.
pub open spec fn spec_split(es: Seq<EntryView>, max: Option<u64>) -> (Seq<Seq<EntryView>>, Seq<EntryView>, nat)
    decreases es.len(),
{
    if es.len() == 0 {
        (Seq::empty(), Seq::empty(), 0)
    } else {
        let prev = spec_split(es.drop_last(), max);
        let e = es.last();
        let cur = prev.1.push(e);
        match e {
            EntryView::DedupRef(_, _) => (prev.0, cur, prev.2),
            EntryView::Raw(_, _) => {
                let b = prev.2 + spec_frame_size(e);
                if max matches Some(m) && b >= m {
                    (prev.0.push(cur), Seq::empty(), 0)
                } else {
                    (prev.0, cur, b)
                }
            },
        }
    }
}

/// The records of every part, the open one last.
pub open spec fn spec_groups(es: Seq<EntryView>, max: Option<u64>) -> Seq<Seq<EntryView>> {
    let s = spec_split(es, max);
    s.0.push(s.1)
}

/// The records of a list of parts, one part after another.
pub open spec fn spec_flatten(gs: Seq<Seq<EntryView>>) -> Seq<EntryView>
    decreases gs.len(),
{
    if gs.len() == 0 {
        Seq::empty()
    } else {
        spec_flatten(gs.drop_last()) + gs.last()
    }
}

/// The bytes of part `n` holding the entry stream `stream`.
pub open spec fn spec_part_data(n: nat, stream: Seq<u8>, level: i32, dict: Option<Seq<u8>>) -> Seq<u8> {
    if n == 1 {
        spec_zstd_header() + spec_compressed(stream, level, dict)
    } else {
        spec_compressed(stream, level, dict)
    }
}

/// Whether the compressed payload of part `n` starts with the zstd magic
/// number: right after the header in the first part, at the start of the
/// others.
pub open spec fn spec_magic_ok(n: nat, data: Seq<u8>) -> bool {
    let off: int = if n == 1 { 12 } else { 0 };
    data.len() >= off + 4 && data.subrange(off, off + 4) == spec_zstd_frame_magic()
}

/// The total size of the files of the closed parts `gs`.
pub open spec fn spec_parts_len(gs: Seq<Seq<EntryView>>, level: i32, dict: Option<Seq<u8>>) -> nat
    decreases gs.len(),
{
    if gs.len() == 0 {
        0
    } else {
        spec_parts_len(gs.drop_last(), level, dict)
            + spec_part_data(gs.len(), spec_encode_entries(gs.last()), level, dict).len()
    }
}

/// The records, taken part by part, are the records written, in order, and
/// every record that can be written lands in a part.
proof fn lemma_split_facts(es: Seq<EntryView>, max: Option<u64>)
    ensures
        spec_flatten(spec_split(es, max).0) + spec_split(es, max).1 == es,
        (forall|i: int| 0 <= i < es.len() ==> encodable(#[trigger] es[i])) ==> {
            &&& forall|g: int, j: int| 0 <= g < spec_split(es, max).0.len()
                && 0 <= j < spec_split(es, max).0[g].len()
                ==> encodable(#[trigger] spec_split(es, max).0[g][j])
            &&& forall|j: int| 0 <= j < spec_split(es, max).1.len()
                ==> encodable(#[trigger] spec_split(es, max).1[j])
        },
    decreases es.len(),
{
    if es.len() > 0 {
        let init = es.drop_last();
        lemma_split_facts(init, max);
        let prev = spec_split(init, max);
        let e = es.last();
        let cur = prev.1.push(e);
        assert(es =~= init.push(e));
        assert(spec_flatten(prev.0) + cur =~= (spec_flatten(prev.0) + prev.1).push(e));
        if (forall|i: int| 0 <= i < es.len() ==> encodable(#[trigger] es[i])) {
            assert forall|i: int| 0 <= i < init.len() implies encodable(#[trigger] init[i]) by {
                assert(init[i] == es[i]);
            }
            assert(encodable(es[es.len() - 1]));
            assert forall|j: int| 0 <= j < cur.len() implies encodable(#[trigger] cur[j]) by {
                if j < prev.1.len() {
                    assert(cur[j] == prev.1[j]);
                }
            }
        }
        match e {
            EntryView::DedupRef(_, _) => {},
            EntryView::Raw(_, _) => {
                let b = prev.2 + spec_frame_size(e);
                if max matches Some(m) && b >= m {
                    let gs = prev.0.push(cur);
                    assert(gs.drop_last() =~= prev.0);
                    assert(spec_flatten(gs) + Seq::<EntryView>::empty() =~= es);
                }
            },
        }
    }
}

/// Every part written reads back as the records that went into it, and
/// the parts, read one after another, give back every record written, in
/// the order written.
pub proof fn lemma_parts_read_back(es: Seq<EntryView>, max: Option<u64>)
    requires
        forall|i: int| 0 <= i < es.len() ==> encodable(#[trigger] es[i]),
    ensures
        spec_flatten(spec_groups(es, max)) == es,
        forall|g: int| 0 <= g < spec_groups(es, max).len() ==>
            spec_parse_stream(spec_encode_entries(#[trigger] spec_groups(es, max)[g]))
                == Some(spec_groups(es, max)[g]),
{
    lemma_split_facts(es, max);
    let s = spec_split(es, max);
    let gs = spec_groups(es, max);
    assert(gs.drop_last() =~= s.0);
    assert forall|g: int| 0 <= g < gs.len() implies
        spec_parse_stream(spec_encode_entries(#[trigger] gs[g])) == Some(gs[g]) by {
        if g < s.0.len() {
            assert(gs[g] == s.0[g]);
            assert forall|j: int| 0 <= j < gs[g].len() implies encodable(#[trigger] gs[g][j]) by {
                assert(gs[g][j] == s.0[g][j]);
            }
        } else {
            assert(gs[g] == s.1);
        }
        lemma_parse_encoded(gs[g]);
    }
}

/// A finished part: its file name and bytes.
pub struct Part {
    pub name: String,
    pub data: Vec<u8>,
}

/// What compressing a directory produced.
pub struct CompressResult {
    /// Total bytes of all part files.
    pub total_size: u64,
    /// Number of parts (1 when nothing was split).
    pub volume_count: u32,
    /// File names of all parts, in order.
    pub part_files: Vec<String>,
    /// Bytes saved by deduplication, when a store was used.
    pub dedup_bytes_saved: u64,
    /// Number of files written as references (not counted).
    pub dedup_files_skipped: u64,
}

/// Writes the records of one archive, part by part.
pub struct ArchiveWriter {
    base_name: String,
    level: i32,
    dictionary: Option<Vec<u8>>,
    split_bytes: Option<u64>,
    part_number: u32,
    bytes_in_current_part: u64,
    stream: Vec<u8>,
    part_files: Vec<String>,
    total_size: u64,
    entries: Ghost<Seq<EntryView>>,
}

/// The split size of a configuration, in bytes.
pub open spec fn spec_split_bytes(config: CompressionConfig) -> Option<u64> {
    match config.volume_splitting {
        Some(vs) => Some((vs.size_mb * 1048576) as u64),
        None => None,
    }
}

impl ArchiveWriter {
    pub closed spec fn spec_entries(&self) -> Seq<EntryView> {
        self.entries@
    }

    pub closed spec fn spec_base(&self) -> Seq<char> {
        self.base_name@
    }

    pub closed spec fn spec_level(&self) -> i32 {
        self.level
    }

    pub closed spec fn spec_dict(&self) -> Option<Seq<u8>> {
        match self.dictionary {
            Some(d) => Some(d@),
            None => None,
        }
    }

    pub closed spec fn spec_max(&self) -> Option<u64> {
        self.split_bytes
    }

    /// The number of the part being filled.
    pub closed spec fn spec_part_number(&self) -> nat {
        self.part_number as nat
    }

    /// The writer's fields agree with the records written so far.
    pub closed spec fn wf(&self) -> bool {
        let s = spec_split(self.entries@, self.split_bytes);
        &&& self.stream@ == spec_encode_entries(s.1)
        &&& self.bytes_in_current_part == s.2
        &&& self.part_number == s.0.len() + 1
        &&& self.part_files@.len() == self.part_number
        &&& forall|i: int| 0 <= i < self.part_files@.len()
            ==> (#[trigger] self.part_files@[i])@ == spec_part_name(self.base_name@, (i + 1) as nat)
        &&& self.total_size == spec_parts_len(s.0, self.level, self.spec_dict())
        &&& forall|i: int| 0 <= i < self.entries@.len() ==> encodable(#[trigger] self.entries@[i])
    }

    /// A writer for the archive named `base_name`, compressing at the level
    /// of the configured tier, with the configured split size and, when
    /// given, a trained dictionary.
    pub fn new(base_name: String, config: &CompressionConfig, dictionary: Option<Vec<u8>>) -> (r: ArchiveWriter)
        requires
            config.volume_splitting matches Some(vs) ==> vs.size_mb * 1048576 <= u64::MAX,
        ensures
            r.wf(),
            r.spec_entries() == Seq::<EntryView>::empty(),
            r.spec_base() == base_name@,
            r.spec_level() == spec_level_for_tier(config.tier),
            r.spec_max() == spec_split_bytes(*config),
            r.spec_dict() == (match dictionary { Some(d) => Some(d@), None => None::<Seq<u8>> }),
    {
        let level = level_for_tier(&config.tier);
        let split_bytes = match config.volume_splitting {
            Some(vs) => Some(vs.size_mb * 1048576),
            None => None,
        };
        let mut part_files: Vec<String> = Vec::new();
        part_files.push(part_name(base_name.as_str(), 1));
        ArchiveWriter {
            base_name,
            level,
            dictionary,
            split_bytes,
            part_number: 1,
            bytes_in_current_part: 0,
            stream: Vec::new(),
            part_files,
            total_size: 0,
            entries: Ghost(Seq::empty()),
        }
    }

    /// Compresses the open part, and opens the next one.
    fn close_part(&mut self) -> (r: Result<Part, GitkaError>)
        requires
            old(self).part_files@.len() == old(self).part_number,
        ensures
            match r {
                Ok(p) => {
                    &&& p.name@ == spec_part_name(old(self).base_name@, old(self).part_number as nat)
                    &&& p.data@ == spec_part_data(old(self).part_number as nat, old(self).stream@,
                        old(self).level, old(self).spec_dict())
                    &&& spec_magic_ok(old(self).part_number as nat, p.data@)
                    &&& final(self).stream@.len() == 0
                    &&& final(self).bytes_in_current_part == 0
                    &&& final(self).part_number == old(self).part_number + 1
                    &&& final(self).part_files@ == old(self).part_files@.push(
                        final(self).part_files@.last())
                    &&& final(self).part_files@.last()@ == spec_part_name(old(self).base_name@,
                        (old(self).part_number + 1) as nat)
                    &&& final(self).total_size == old(self).total_size + p.data@.len()
                    &&& final(self).entries == old(self).entries
                    &&& final(self).base_name == old(self).base_name
                    &&& final(self).level == old(self).level
                    &&& final(self).dictionary == old(self).dictionary
                    &&& final(self).split_bytes == old(self).split_bytes
                },
                Err(e) => e is Compression && (!spec_dict_ok(old(self).spec_dict()) || old(self).part_number == u32::MAX
                    || old(self).total_size + spec_part_data(old(self).part_number as nat, old(self).stream@,
                        old(self).level, old(self).spec_dict()).len() > u64::MAX),
            },
    {
        let data = self.compressed_part()?;
        if self.part_number == u32::MAX || self.total_size > u64::MAX - data.len() as u64 {
            return Err(GitkaError::Compression("Too many parts".to_owned()));
        }
        let name = part_name(self.base_name.as_str(), self.part_number);
        self.total_size = self.total_size + data.len() as u64;
        self.part_number = self.part_number + 1;
        self.part_files.push(part_name(self.base_name.as_str(), self.part_number));
        self.stream = Vec::new();
        self.bytes_in_current_part = 0;
        Ok(Part { name, data })
    }

    /// Whether writing `e` next closes the open part.
    pub open spec fn spec_closes(&self, e: EntryView) -> bool {
        spec_split(self.spec_entries().push(e), self.spec_max()).0.len()
            > spec_split(self.spec_entries(), self.spec_max()).0.len()
    }

    /// Whether writing `e` next would take the running size of the open
    /// part past what a `u64` holds.
    pub open spec fn spec_size_overflows(&self, e: EntryView) -> bool {
        spec_split(self.spec_entries(), self.spec_max()).2 + spec_frame_size(e) > u64::MAX
    }

    /// Whether writing `e` next closes the open part and closing it cannot
    /// be done: the dictionary may not load, the part count would pass
    /// `u32::MAX`, or the total size of the parts would pass `u64::MAX`.
    pub open spec fn spec_close_fails(&self, e: EntryView) -> bool {
        let b = spec_split(self.spec_entries(), self.spec_max());
        &&& self.spec_closes(e)
        &&& (!spec_dict_ok(self.spec_dict()) || b.0.len() + 1 >= u32::MAX
            || spec_parts_len(b.0.push(b.1.push(e)), self.spec_level(), self.spec_dict()) > u64::MAX)
    }

    /// What a successful write of `e` leaves and returns.
    pub open spec fn spec_appended(&self, e: EntryView, after: &ArchiveWriter, p: Option<Part>) -> bool {
        let before = spec_split(self.spec_entries(), self.spec_max());
        let now = spec_split(after.spec_entries(), after.spec_max());
        &&& after.wf()
        &&& after.spec_entries() == self.spec_entries().push(e)
        &&& after.spec_base() == self.spec_base()
        &&& after.spec_level() == self.spec_level()
        &&& after.spec_dict() == self.spec_dict()
        &&& after.spec_max() == self.spec_max()
        &&& (p is Some) == self.spec_closes(e)
        &&& p matches Some(part) ==> {
            &&& part.name@ == spec_part_name(self.spec_base(), before.0.len() + 1)
            &&& part.data@ == spec_part_data(before.0.len() + 1, spec_encode_entries(now.0.last()),
                self.spec_level(), self.spec_dict())
            &&& spec_magic_ok(before.0.len() + 1, part.data@)
        }
    }

    /// Appends one record, and closes the part when it has grown to the
    /// split size.
    fn append_record(&mut self, entry: ArchiveEntry) -> (r: Result<Option<Part>, GitkaError>)
        requires
            old(self).wf(),
        ensures
            match r {
                Ok(p) => old(self).spec_appended(entry@, final(self), p),
                Err(e) => e is Compression && (!encodable(entry@) || old(self).spec_size_overflows(entry@)
                    || old(self).spec_close_fails(entry@)),
            },
    {
        let ghost e = entry@;
        let ghost old_entries = self.entries@;
        let ghost before = spec_split(old_entries, self.split_bytes);
        let path_len = entry.path.as_str().as_bytes().len();
        if path_len > 0xffff_ffff {
            return Err(GitkaError::Compression("Path too long".to_owned()));
        }
        match &entry.body {
            EntryBody::DedupRef(h) => {
                if h.as_str().as_bytes().len() > 0xffff_ffff {
                    return Err(GitkaError::Compression("Hash too long".to_owned()));
                }
            },
            EntryBody::Raw(c) => {
                let _content_len = c.len();
            },
        }
        assert(encodable(e));
        let start_len = self.stream.len();
        encode_entry(&entry, &mut self.stream);
        let frame_len = self.stream.len() - start_len;
        proof {
            assert(self.stream@ == spec_encode_entries(before.1) + spec_encode_entry(e));
            let cur = before.1.push(e);
            assert(cur.drop_last() =~= before.1);
            assert(old_entries.push(e).drop_last() =~= old_entries);
            self.entries = Ghost(old_entries.push(e));
            assert forall|i: int| 0 <= i < self.entries@.len() implies encodable(#[trigger] self.entries@[i]) by {
                if i < old_entries.len() {
                    assert(self.entries@[i] == old_entries[i]);
                }
            }
        }
        match entry.body {
            EntryBody::DedupRef(_) => {
                return Ok(None);
            },
            EntryBody::Raw(_) => {},
        }
        let frame = frame_len as u64;
        if self.bytes_in_current_part > u64::MAX - frame {
            return Err(GitkaError::Compression("Part size overflow".to_owned()));
        }
        self.bytes_in_current_part = self.bytes_in_current_part + frame;
        let close = match self.split_bytes {
            Some(max) => self.bytes_in_current_part >= max,
            None => false,
        };
        if close {
            let ghost cur = before.1.push(e);
            let ghost pre_files = self.part_files@;
            proof {
                let gs = before.0.push(cur);
                assert(gs.drop_last() =~= before.0);
                assert(gs.last() == cur);
                assert(spec_parts_len(gs, self.level, self.spec_dict()) == spec_parts_len(before.0, self.level,
                    self.spec_dict()) + spec_part_data(gs.len(), spec_encode_entries(cur), self.level, self.spec_dict()).len());
                assert(self.stream@ == spec_encode_entries(cur));
            }
            let part = match self.close_part() {
                Ok(p) => p,
                Err(err) => { return Err(err); },
            };
            proof {
                let now = spec_split(self.entries@, self.split_bytes);
                assert(self.entries@.drop_last() =~= old_entries);
                assert(self.entries@.last() == e);
                assert(now.0 == before.0.push(cur));
                assert(now.0.drop_last() =~= before.0);
                assert(spec_encode_entries(Seq::<EntryView>::empty()) =~= self.stream@);
                assert forall|i: int| 0 <= i < self.part_files@.len() implies
                    (#[trigger] self.part_files@[i])@ == spec_part_name(self.base_name@, (i + 1) as nat) by {
                    if i < pre_files.len() {
                        assert(self.part_files@[i] == pre_files[i]);
                    }
                }
            }
            Ok(Some(part))
        } else {
            Ok(None)
        }
    }

    /// Writes a file's content as a record.
    pub fn add_file(&mut self, path: String, content: Vec<u8>) -> (r: Result<Option<Part>, GitkaError>)
        requires
            old(self).wf(),
        ensures
            match r {
                Ok(p) => old(self).spec_appended(EntryView::Raw(path@, content@), final(self), p),
                Err(e) => e is Compression && (!encodable(EntryView::Raw(path@, content@))
                    || old(self).spec_size_overflows(EntryView::Raw(path@, content@))
                    || old(self).spec_close_fails(EntryView::Raw(path@, content@))),
            },
    {
        self.append_record(ArchiveEntry { path, body: EntryBody::Raw(content) })
    }

    /// Writes a file through the dedup store: as a reference when content
    /// with its hash is stored already, else as content, which the store
    /// then records with this part, its offset in the part's entry stream
    /// (every earlier record of the part counted, references too) and its
    /// length. Either way the length is added to the bytes saved.
    pub fn add_file_dedup(&mut self, path: String, content: Vec<u8>, store: &mut DedupStore)
        -> (r: Result<Option<Part>, GitkaError>)
        requires
            old(self).wf(),
            old(store).wf(),
        ensures
            ({
                let h = spec_hash_hex(content@);
                let known = old(store).spec_map().contains_key(h);
                let e = if known { EntryView::DedupRef(path@, h) } else { EntryView::Raw(path@, content@) };
                match r {
                    Ok(p) => {
                        &&& old(self).spec_appended(e, final(self), p)
                        &&& final(store).wf()
                        &&& final(store).spec_store_path() == old(store).spec_store_path()
                        &&& final(store).spec_bytes_saved() == old(store).spec_bytes_saved() + content@.len()
                        &&& known ==> final(store).spec_map() == old(store).spec_map()
                        &&& !known ==> exists|rf: DedupRef| {
                            &&& rf.hash@ == h
                            &&& rf.archive@ == old(self).spec_base()
                            &&& rf.source_part == old(self).spec_part_number()
                            &&& rf.offset == spec_encode_entries(
                                spec_split(old(self).spec_entries(), old(self).spec_max()).1).len()
                            &&& rf.length == content@.len()
                            &&& #[trigger] final(store).spec_map() == old(store).spec_map().insert(h, rf)
                        }
                    },
                    Err(err) => err is Compression && (!encodable(e) || old(self).spec_size_overflows(e)
                        || old(self).spec_close_fails(e)
                        || old(store).spec_bytes_saved() + content@.len() > u64::MAX),
                }
            }),
    {
        let hash = hash_hex(content.as_slice());
        let len = content.len() as u64;
        if store.bytes_saved() > u64::MAX - len {
            return Err(GitkaError::Compression("Dedup counter overflow".to_owned()));
        }
        if store.contains(hash.as_str()) {
            let r = self.append_record(ArchiveEntry { path, body: EntryBody::DedupRef(hash) })?;
            store.record_saved_bytes(len);
            Ok(r)
        } else {
            let source_part = self.part_number;
            let offset = self.stream.len() as u64;
            let rf = DedupRef { hash: hash.clone(), archive: self.base_name.clone(), source_part, offset, length: len };
            let r = self.append_record(ArchiveEntry { path, body: EntryBody::Raw(content) })?;
            store.register(hash, rf);
            Ok(r)
        }
    }

    /// Compresses the last part and sums up the archive.
    pub fn finish(self, dedup: Option<&DedupStore>) -> (r: Result<(Part, CompressResult), GitkaError>)
        requires
            self.wf(),
        ensures
            ({
                let s = spec_split(self.spec_entries(), self.spec_max());
                match r {
                    Ok((p, res)) => {
                        &&& p.name@ == spec_part_name(self.spec_base(), s.0.len() + 1)
                        &&& p.data@ == spec_part_data(s.0.len() + 1, spec_encode_entries(s.1),
                            self.spec_level(), self.spec_dict())
                        &&& spec_magic_ok(s.0.len() + 1, p.data@)
                        &&& res.volume_count == s.0.len() + 1
                        &&& res.part_files@.len() == s.0.len() + 1
                        &&& forall|i: int| 0 <= i < res.part_files@.len() ==> (#[trigger] res.part_files@[i])@
                            == spec_part_name(self.spec_base(), (i + 1) as nat)
                        &&& res.total_size == spec_parts_len(s.0.push(s.1), self.spec_level(), self.spec_dict())
                        &&& res.dedup_bytes_saved == match dedup {
                            Some(st) => st.spec_bytes_saved(),
                            None => 0,
                        }
                        &&& res.dedup_files_skipped == 0
                    },
                    Err(e) => e is Compression && (!spec_dict_ok(self.spec_dict())
                        || spec_parts_len(s.0.push(s.1), self.spec_level(), self.spec_dict()) > u64::MAX),
                }
            }),
    {
        let data = self.compressed_part()?;
        let ghost s = spec_split(self.entries@, self.split_bytes);
        proof {
            assert(s.0.push(s.1).drop_last() =~= s.0);
            assert(s.0.push(s.1).last() == s.1);
        }
        if self.total_size > u64::MAX - data.len() as u64 {
            return Err(GitkaError::Compression("Archive size overflow".to_owned()));
        }
        let total_size = self.total_size + data.len() as u64;
        let name = part_name(self.base_name.as_str(), self.part_number);
        let dedup_bytes_saved = match dedup {
            Some(st) => st.bytes_saved(),
            None => 0,
        };
        let res = CompressResult {
            total_size,
            volume_count: self.part_number,
            part_files: self.part_files,
            dedup_bytes_saved,
            dedup_files_skipped: 0,
        };
        Ok((Part { name, data }, res))
    }

    /// The bytes of the open part: the header in front when it is the first.
    fn compressed_part(&self) -> (r: Result<Vec<u8>, GitkaError>)
        ensures
            match r {
                Ok(v) => v@ == spec_part_data(self.part_number as nat, self.stream@, self.level, self.spec_dict())
                    && spec_magic_ok(self.part_number as nat, v@),
                Err(e) => e is Compression && !spec_dict_ok(self.spec_dict())
                    && !spec_compresses(self.stream@, self.level, self.spec_dict()),
            },
    {
        let dict = match &self.dictionary {
            Some(d) => Some(d.as_slice()),
            None => None,
        };
        assert(spec_dict_view(dict) == self.spec_dict());
        let z = match compress_bytes(self.stream.as_slice(), self.level, dict) {
            Some(z) => z,
            None => { return Err(GitkaError::Compression("Failed to compress part".to_owned())); },
        };
        if self.part_number == 1 {
            let header = ArchiveHeader::new(COMPRESSION_ZSTD).to_bytes();
            let mut out: Vec<u8> = Vec::new();
            let mut i: usize = 0;
            while i < 12
                invariant
                    i <= 12,
                    out@ == header@.take(i as int),
                decreases 12 - i,
            {
                out.push(header[i]);
                proof { assert(header@.take(i as int + 1) =~= header@.take(i as int).push(header@[i as int])); }
                i = i + 1;
            }
            proof { assert(header@.take(12) =~= spec_zstd_header()); }
            let ghost start = out@;
            let ghost zv = z@;
            let mut zz = z;
            out.append(&mut zz);
            proof {
                assert(out@.subrange(12, 16) =~= zv.subrange(0, 4));
            }
            Ok(out)
        } else {
            Ok(z)
        }
    }
}

/// Appending a record either leaves the closed parts as they were or
/// closes the open part with the record in it.
proof fn lemma_split_push(es: Seq<EntryView>, e: EntryView, max: Option<u64>)
    ensures
        ({
            let b = spec_split(es, max);
            let a = spec_split(es.push(e), max);
            (a.0 == b.0 && a.1 == b.1.push(e)) || (a.0 == b.0.push(b.1.push(e)) && a.1.len() == 0)
        }),
{
    assert(es.push(e).drop_last() =~= es);
    assert(es.push(e).last() == e);
}

/// Content registered while the open part held the records `open` is found
/// again, in the entry stream of the part it was written to, at the
/// recorded offset and length, whatever records follow it in that part.
pub proof fn lemma_registered_content_reads_back(open: Seq<EntryView>, path: Seq<char>, content: Seq<u8>,
    rest: Seq<EntryView>)
    requires
        forall|i: int| 0 <= i < open.len() ==> encodable(#[trigger] open[i]),
        forall|i: int| 0 <= i < rest.len() ==> encodable(#[trigger] rest[i]),
        encodable(EntryView::Raw(path, content)),
        spec_encode_entries(open).len() <= u64::MAX,
    ensures
        spec_find_raw(spec_encode_entries(open.push(EntryView::Raw(path, content)) + rest), 0,
            spec_encode_entries(open).len() as u64, content.len() as u64) == RawLookup::Found(content),
{
    let es = open.push(EntryView::Raw(path, content)) + rest;
    let idx = open.len() as int;
    assert(es.take(idx) =~= open);
    assert(es[idx] == EntryView::Raw(path, content));
    assert forall|i: int| 0 <= i < es.len() implies encodable(#[trigger] es[i]) by {
        if i < idx {
            assert(es[i] == open[i]);
        } else if i > idx {
            assert(es[i] == rest[i - idx - 1]);
        }
    }
    lemma_find_raw_encoded(es, idx);
}

/// The records of files written as content.
pub open spec fn spec_raw_entries(files: Seq<(String, Vec<u8>)>) -> Seq<EntryView> {
    files.map_values(|f: (String, Vec<u8>)| EntryView::Raw(f.0@, f.1@))
}

/// The bytes of every part of the archive of `es`, in order.
pub open spec fn spec_archive_parts(es: Seq<EntryView>, max: Option<u64>, level: i32, dict: Option<Seq<u8>>) -> Seq<Seq<u8>> {
    let gs = spec_groups(es, max);
    Seq::new(gs.len(), |i: int| spec_part_data((i + 1) as nat, spec_encode_entries(gs[i]), level, dict))
}

/// Whether writing `e` after the records `prefix` keeps every count within
/// its type: the running size of the open part fits a `u64` and, when `e`
/// closes the part, the part count stays under `u32::MAX` and the total
/// size of the parts fits a `u64`.
pub open spec fn spec_step_fits(prefix: Seq<EntryView>, e: EntryView, max: Option<u64>, level: i32,
    dict: Option<Seq<u8>>) -> bool {
    let b = spec_split(prefix, max);
    &&& b.2 + spec_frame_size(e) <= u64::MAX
    &&& spec_split(prefix.push(e), max).0.len() > b.0.len() ==> {
        &&& b.0.len() + 1 < u32::MAX
        &&& spec_parts_len(b.0.push(b.1.push(e)), level, dict) <= u64::MAX
    }
}

/// Whether an archive of `es` can be written with every count within its
/// type, its total size included.
pub open spec fn spec_fits(es: Seq<EntryView>, max: Option<u64>, level: i32, dict: Option<Seq<u8>>) -> bool {
    &&& forall|k: int| 0 <= k < es.len() ==> #[trigger] spec_step_fits(es.take(k), es[k], max, level, dict)
    &&& spec_parts_len(spec_groups(es, max), level, dict) <= u64::MAX
}

/// Compresses files, given as relative path and content, into the parts
/// of an archive named `base_name`, at the level of the configured tier,
/// split as configured, with the dictionary when given. It succeeds
/// whenever every record can be encoded, every count fits its type and
/// there is no dictionary or one zstd is sure to load.
pub fn compress_directory(
    files: Vec<(String, Vec<u8>)>,
    base_name: String,
    config: &CompressionConfig,
    dictionary: Option<Vec<u8>>,
) -> (r: Result<(Vec<Part>, CompressResult), GitkaError>)
    requires
        config.volume_splitting matches Some(vs) ==> vs.size_mb * 1048576 <= u64::MAX,
    ensures
        ({
            let es = spec_raw_entries(files@);
            let max = spec_split_bytes(*config);
            let level = spec_level_for_tier(config.tier);
            let dict = match dictionary { Some(d) => Some(d@), None => None::<Seq<u8>> };
            let gs = spec_groups(es, max);
            match r {
                Ok((parts, res)) => {
                    &&& parts@.len() == gs.len()
                    &&& forall|i: int| 0 <= i < parts@.len() ==> {
                        &&& (#[trigger] parts@[i]).data@ == spec_archive_parts(es, max, level, dict)[i]
                        &&& spec_magic_ok((i + 1) as nat, parts@[i].data@)
                        &&& parts@[i].name@ == spec_part_name(base_name@, (i + 1) as nat)
                    }
                    &&& res.total_size == spec_parts_len(gs, level, dict)
                    &&& res.volume_count == gs.len()
                    &&& res.part_files@.len() == gs.len()
                    &&& forall|i: int| 0 <= i < res.part_files@.len() ==> (#[trigger] res.part_files@[i])@
                        == spec_part_name(base_name@, (i + 1) as nat)
                    &&& res.dedup_bytes_saved == 0
                    &&& spec_is_archive_of(parts@.map_values(|p: Part| p.data@), es, max, level, dict)
                },
                Err(e) => e is Compression,
            }
        }),
        ({
            let es = spec_raw_entries(files@);
            let max = spec_split_bytes(*config);
            let level = spec_level_for_tier(config.tier);
            let dict = match dictionary { Some(d) => Some(d@), None => None::<Seq<u8>> };
            (forall|i: int| 0 <= i < es.len() ==> encodable(#[trigger] es[i])) && spec_dict_ok(dict)
                && spec_fits(es, max, level, dict) ==> r is Ok
        }),
{
    let ghost fs = files@;
    let ghost es = spec_raw_entries(files@);
    let ghost b = base_name@;
    let mut w = ArchiveWriter::new(base_name, config, dictionary);
    let ghost max = w.spec_max();
    let ghost level = w.spec_level();
    let ghost dict = w.spec_dict();
    let mut rest = files;
    let mut parts: Vec<Part> = Vec::new();
    let ghost mut done: int = 0;
    while rest.len() > 0
        invariant
            0 <= done <= fs.len(),
            rest@ == fs.skip(done),
            es == spec_raw_entries(fs),
            w.wf(),
            w.spec_entries() == es.take(done),
            w.spec_base() == b,
            w.spec_max() == max,
            w.spec_level() == level,
            w.spec_dict() == dict,
            dict == (match dictionary { Some(d) => Some(d@), None => None::<Seq<u8>> }),
            max == spec_split_bytes(*config),
            level == spec_level_for_tier(config.tier),
            fs == files@,
            parts@.len() == spec_split(w.spec_entries(), max).0.len(),
            forall|j: int| 0 <= j < parts@.len() ==> {
                &&& (#[trigger] parts@[j]).data@ == spec_part_data((j + 1) as nat,
                    spec_encode_entries(spec_split(w.spec_entries(), max).0[j]), level, dict)
                &&& spec_magic_ok((j + 1) as nat, parts@[j].data@)
                &&& parts@[j].name@ == spec_part_name(b, (j + 1) as nat)
            },
        decreases rest@.len(),
    {
        let (path, content) = rest.remove(0);
        let ghost e = EntryView::Raw(path@, content@);
        proof {
            assert(fs[done] == (path, content));
            assert(es[done] == e);
            assert(es.take(done + 1) =~= es.take(done).push(e));
            lemma_split_push(w.spec_entries(), e, max);
        }
        let ghost before = spec_split(w.spec_entries(), max);
        let ghost old_parts = parts@;
        let added = match w.add_file(path, content) {
            Ok(a) => a,
            Err(err) => {
                proof {
                    if (forall|i: int| 0 <= i < es.len() ==> encodable(#[trigger] es[i])) && spec_dict_ok(dict)
                        && spec_fits(es, max, level, dict) {
                        assert(encodable(es[done]));
                        assert(spec_step_fits(es.take(done), es[done], max, level, dict));
                    }
                }
                return Err(err);
            },
        };
        match added {
            Some(part) => {
                parts.push(part);
                proof {
                    let now = spec_split(w.spec_entries(), max);
                    assert(now.0 == before.0.push(now.0.last()));
                    assert forall|j: int| 0 <= j < parts@.len() implies {
                        &&& (#[trigger] parts@[j]).data@ == spec_part_data((j + 1) as nat,
                            spec_encode_entries(spec_split(w.spec_entries(), max).0[j]), level, dict)
                        &&& spec_magic_ok((j + 1) as nat, parts@[j].data@)
                        &&& parts@[j].name@ == spec_part_name(b, (j + 1) as nat)
                    } by {
                        if j < old_parts.len() {
                            assert(parts@[j] == old_parts[j]);
                            assert(now.0[j] == before.0[j]);
                        }
                    }
                }
            },
            None => {
                proof {
                    let now = spec_split(w.spec_entries(), max);
                    assert(now.0 == before.0);
                }
            },
        }
        proof {
            done = done + 1;
            assert(rest@ =~= fs.skip(done));
        }
    }
    proof { assert(es.take(done) =~= es); }
    let ghost s = spec_split(w.spec_entries(), max);
    let ghost old_parts = parts@;
    assert(forall|k: int| 0 <= k < es.len() ==> encodable(#[trigger] es[k]));
    let (last, res) = match w.finish(None) {
        Ok(x) => x,
        Err(err) => {
            proof { assert(s.0.push(s.1) == spec_groups(es, max)); }
            return Err(err);
        },
    };
    parts.push(last);
    proof {
        let gs = s.0.push(s.1);
        assert(gs == spec_groups(es, max));
        assert forall|i: int| 0 <= i < parts@.len() implies {
            &&& (#[trigger] parts@[i]).data@ == spec_archive_parts(es, max, level, dict)[i]
            &&& spec_magic_ok((i + 1) as nat, parts@[i].data@)
            &&& parts@[i].name@ == spec_part_name(b, (i + 1) as nat)
        } by {
            if i < old_parts.len() {
                assert(parts@[i] == old_parts[i]);
                assert(gs[i] == s.0[i]);
            } else {
                assert(gs[i] == s.1);
            }
        }
        let pv = parts@.map_values(|p: Part| p.data@);
        assert(pv =~= spec_archive_parts(es, max, level, dict));
        assert forall|i: int| 0 <= i < pv.len() implies spec_magic_ok((i + 1) as nat, #[trigger] pv[i]) by {
            assert(pv[i] == parts@[i].data@);
        }
    }
    Ok((parts, res))
}

/// The records of every part, one part after another; `None` when a part
/// cannot be read or decoded.
pub open spec fn spec_all_part_entries(ps: Seq<Seq<u8>>, dict: Option<Seq<u8>>) -> Option<Seq<EntryView>>
    decreases ps.len(),
{
    if ps.len() == 0 {
        Some(Seq::empty())
    } else {
        match (spec_all_part_entries(ps.drop_last(), dict), spec_part_entries(ps.last(), dict)) {
            (Some(a), Some(b)) => Some(a + b),
            _ => None,
        }
    }
}

/// The views of a list of byte vectors.
pub open spec fn spec_byte_views(ps: Seq<Vec<u8>>) -> Seq<Seq<u8>> {
    ps.map_values(|p: Vec<u8>| p@)
}

/// What an archive written with `dict` (or without dictionary) is: its
/// parts, each the part file of its group of records, each frame starting
/// with the zstd magic number.
pub open spec fn spec_is_archive_of(ps: Seq<Seq<u8>>, es: Seq<EntryView>, max: Option<u64>, level: i32,
    dict: Option<Seq<u8>>) -> bool {
    &&& forall|i: int| 0 <= i < es.len() ==> encodable(#[trigger] es[i])
    &&& ps == spec_archive_parts(es, max, level, dict)
    &&& forall|i: int| 0 <= i < ps.len() ==> spec_magic_ok((i + 1) as nat, #[trigger] ps[i])
}

/// Part `i` of an archive of `es` is the part file of group `i`, and that
/// group's stream parses back to the group.
proof fn lemma_archive_part(ps: Seq<Seq<u8>>, es: Seq<EntryView>, max: Option<u64>, level: i32,
    dict: Option<Seq<u8>>, i: int)
    requires
        spec_is_archive_of(ps, es, max, level, dict),
        0 <= i < ps.len(),
    ensures
        spec_plain_part((i + 1) as nat, spec_encode_entries(spec_groups(es, max)[i]), level, dict, ps[i]),
        spec_parse_stream(spec_encode_entries(spec_groups(es, max)[i])) == Some(spec_groups(es, max)[i]),
{
    lemma_parts_read_back(es, max);
    let g = spec_groups(es, max)[i];
    assert(ps[i] == spec_part_data((i + 1) as nat, spec_encode_entries(g), level, dict));
    assert(spec_magic_ok((i + 1) as nat, ps[i]));
}

/// Reading the first `k` parts of an archive of `es` gives the records of
/// its first `k` groups.
proof fn lemma_archive_prefix(ps: Seq<Seq<u8>>, es: Seq<EntryView>, max: Option<u64>, level: i32,
    dict: Option<Seq<u8>>, k: int)
    requires
        spec_is_archive_of(ps, es, max, level, dict),
        0 <= k <= ps.len(),
        forall|j: int| 0 <= j < ps.len() ==> spec_part_entries(#[trigger] ps[j], dict)
            == Some(spec_groups(es, max)[j]),
    ensures
        spec_all_part_entries(ps.take(k), dict) == Some(spec_flatten(spec_groups(es, max).take(k))),
    decreases k,
{
    let gs = spec_groups(es, max);
    if k > 0 {
        lemma_archive_prefix(ps, es, max, level, dict, k - 1);
        assert(ps.take(k).drop_last() =~= ps.take(k - 1));
        assert(ps.take(k).last() == ps[k - 1]);
        assert(gs.take(k).drop_last() =~= gs.take(k - 1));
        assert(gs.take(k).last() == gs[k - 1]);
    } else {
        assert(ps.take(0) =~= Seq::<Seq<u8>>::empty());
        assert(gs.take(0) =~= Seq::<Seq<EntryView>>::empty());
    }
}

/// Reads every part of an archive, in order, and decodes its records,
/// with the dictionary when given. The parts of an archive written with
/// that dictionary (or without one, when none is given) read back as the
/// records written, in the order written.
pub fn decompress_parts(parts: &Vec<Vec<u8>>, dict: Option<&[u8]>) -> (r: Result<Vec<ArchiveEntry>, GitkaError>)
    ensures
        match spec_all_part_entries(spec_byte_views(parts@), spec_dict_view(dict)) {
            Some(es) => r matches Ok(v) && v@.map_values(|e: ArchiveEntry| e@) == es,
            None => r matches Err(e) && (e is Compression || e is Extraction),
        },
        forall|es: Seq<EntryView>, max: Option<u64>, level: i32|
            #[trigger] spec_is_archive_of(spec_byte_views(parts@), es, max, level, spec_dict_view(dict))
            ==> (r matches Ok(v) && v@.map_values(|e: ArchiveEntry| e@) == es),
{
    let ghost ps = spec_byte_views(parts@);
    let ghost dv = spec_dict_view(dict);
    let mut out: Vec<ArchiveEntry> = Vec::new();
    let mut i: usize = 0;
    proof { assert(ps.take(0) =~= Seq::<Seq<u8>>::empty()); }
    while i < parts.len()
        invariant
            i <= parts@.len(),
            ps == spec_byte_views(parts@),
            dv == spec_dict_view(dict),
            spec_all_part_entries(ps.take(i as int), dv) == Some(out@.map_values(|e: ArchiveEntry| e@)),
            forall|j: int, n: nat, x: Seq<u8>, l: i32| 0 <= j < i
                && #[trigger] spec_plain_part(n, x, l, dv, ps[j]) ==> spec_part_entries(ps[j], dv) == spec_parse_stream(x),
        decreases parts@.len() - i,
    {
        let ghost before = out@.map_values(|e: ArchiveEntry| e@);
        proof {
            assert(ps.take(i as int + 1).drop_last() =~= ps.take(i as int));
            assert(ps.take(i as int + 1).last() == ps[i as int]);
            assert(ps[i as int] == parts@[i as int]@);
        }
        let mut entries = match decode_part(parts[i].as_slice(), dict) {
            Ok(v) => v,
            Err(e) => {
                proof {
                    assert(spec_all_part_entries(ps.take(i as int + 1), dv) is None);
                    lemma_all_none_extends(ps, dv, i as int + 1);
                    assert(ps.take(ps.len() as int) =~= ps);
                    assert forall|es: Seq<EntryView>, max: Option<u64>, level: i32|
                        #[trigger] spec_is_archive_of(ps, es, max, level, dv) implies false by {
                        lemma_archive_part(ps, es, max, level, dv, i as int);
                    }
                }
                return Err(e);
            },
        };
        let ghost got = entries@.map_values(|e: ArchiveEntry| e@);
        out.append(&mut entries);
        proof {
            assert(out@.map_values(|e: ArchiveEntry| e@) =~= before + got);
        }
        i = i + 1;
    }
    proof {
        assert(ps.take(parts@.len() as int) =~= ps);
        assert forall|es: Seq<EntryView>, max: Option<u64>, level: i32|
            #[trigger] spec_is_archive_of(ps, es, max, level, dv)
            implies out@.map_values(|e: ArchiveEntry| e@) == es by {
            let gs = spec_groups(es, max);
            assert forall|j: int| 0 <= j < ps.len() implies spec_part_entries(#[trigger] ps[j], dv) == Some(gs[j]) by {
                lemma_archive_part(ps, es, max, level, dv, j);
            }
            lemma_archive_prefix(ps, es, max, level, dv, ps.len() as int);
            lemma_parts_read_back(es, max);
            assert(gs.take(gs.len() as int) =~= gs);
        }
    }
    Ok(out)
}

/// The first position of `name` in `names`, if it is there.
pub open spec fn spec_first_index(names: Seq<Seq<char>>, name: Seq<char>) -> Option<int>
    decreases names.len(),
{
    if names.len() == 0 {
        None
    } else if names[0] == name {
        Some(0)
    } else {
        match spec_first_index(names.skip(1), name) {
            Some(i) => Some(i + 1),
            None => None,
        }
    }
}

/// A first position found is a position of that name.
proof fn lemma_first_index(names: Seq<Seq<char>>, name: Seq<char>)
    ensures
        spec_first_index(names, name) matches Some(i) ==> 0 <= i < names.len() && names[i] == name,
    decreases names.len(),
{
    if names.len() > 0 && names[0] != name {
        lemma_first_index(names.skip(1), name);
    }
}

/// The archive a reference points into: the one it names, or the archive
/// being restored when it names none.
pub open spec fn spec_ref_archive(rf: DedupRef, base: Seq<char>) -> Seq<char> {
    if rf.archive@.len() == 0 { base } else { rf.archive@ }
}

/// The message when the part a reference points into is not there.
pub open spec fn msg_part_missing(source: Seq<char>) -> Seq<char> {
    "Failed to open archive: "@ + source
}

/// What a looked-up content record gives: its content, or the message of
/// why it could not be read.
pub open spec fn spec_lookup_result(l: RawLookup, offset: u64, length: u64, source: Seq<char>) -> Result<Seq<u8>, Seq<char>> {
    match l {
        RawLookup::Found(c) => Ok(c),
        RawLookup::Mismatch(found) => Err(msg_length_mismatch(length, found)),
        RawLookup::NotFound => Err(msg_not_located(offset, source)),
        RawLookup::Truncated => Err(msg_truncated()),
    }
}

/// The content a record restores to: its own content; for a reference
/// the store knows, the content at the recorded offset and length of the
/// entry stream of the part it names, of the archive it names (of `base`
/// when it names none); for an unknown reference, nothing. An error names why the content could not be had.
pub open spec fn spec_restored(e: EntryView, refs: Map<Seq<char>, DedupRef>, base: Seq<char>,
    names: Seq<Seq<char>>, streams: Seq<Seq<u8>>) -> Result<Seq<u8>, Seq<char>> {
    match e {
        EntryView::Raw(_, c) => Ok(c),
        EntryView::DedupRef(_, h) => if !refs.contains_key(h) {
            Ok(Seq::empty())
        } else {
            let rf = refs[h];
            let source = spec_part_name(spec_ref_archive(rf, base), rf.source_part as nat);
            match spec_first_index(names, source) {
                Some(i) => spec_lookup_result(spec_find_raw(streams[i], 0, rf.offset, rf.length),
                    rf.offset, rf.length, source),
                None => Err(msg_part_missing(source)),
            }
        },
    }
}

/// Whether a restore result is a failure whose message `err` carries.
pub open spec fn spec_fails_with(res: Result<Seq<u8>, Seq<char>>, err: GitkaError) -> bool {
    match res {
        Ok(_) => false,
        Err(m) => is_extraction_error_with(err, m),
    }
}

/// The references a store holds, or none without a store.
pub open spec fn spec_store_refs(store: Option<&DedupStore>) -> Map<Seq<char>, DedupRef> {
    match store {
        Some(s) => s.spec_map(),
        None => Map::empty(),
    }
}

/// Finds the first position of `name` in `names`.
fn first_index(names: &Vec<String>, name: &str) -> (r: Option<usize>)
    ensures
        match r {
            Some(i) => spec_first_index(spec_names(names@), name@) == Some(i as int) && i < names@.len(),
            None => spec_first_index(spec_names(names@), name@) is None,
        },
{
    let ghost ns = spec_names(names@);
    proof {
        assert(ns.skip(0) =~= ns);
        lemma_first_index(ns, name@);
    }
    let mut i: usize = 0;
    while i < names.len()
        invariant
            i <= names@.len(),
            ns == spec_names(names@),
            spec_first_index(ns, name@) == match spec_first_index(ns.skip(i as int), name@) {
                Some(k) => Some(k + i),
                None => None::<int>,
            },
        decreases names@.len() - i,
    {
        proof {
            let t = ns.skip(i as int);
            assert(t[0] == ns[i as int]);
            assert(t.skip(1) =~= ns.skip(i as int + 1));
        }
        if str_eq(names[i].as_str(), name) {
            return Some(i);
        }
        i = i + 1;
    }
    proof { assert(ns.skip(i as int) =~= Seq::<Seq<char>>::empty()); }
    None
}

/// Resolves one record to the content it restores to.
fn restore_one(e: &ArchiveEntry, store: Option<&DedupStore>, base: &str, names: &Vec<String>,
    streams: &Vec<Vec<u8>>) -> (r: Result<Vec<u8>, GitkaError>)
    requires
        store matches Some(s) ==> s.wf(),
        names@.len() == streams@.len(),
    ensures
        match spec_restored(e@, spec_store_refs(store), base@, spec_names(names@),
            spec_byte_views(streams@)) {
            Ok(c) => r matches Ok(v) && v@ == c,
            Err(m) => r matches Err(err) && is_extraction_error_with(err, m),
        },
{
    match &e.body {
        EntryBody::Raw(c) => Ok(slice_to_vec(c.as_slice())),
        EntryBody::DedupRef(h) => {
            let found = match store {
                Some(s) => s.lookup(h.as_str()),
                None => None,
            };
            match found {
                None => Ok(Vec::new()),
                Some(rf) => {
                    let archive: &str = if rf.archive.as_str().unicode_len() == 0 { base } else { rf.archive.as_str() };
                    let source = part_name(archive, rf.source_part);
                    let src: &str = source.as_str();
                    let fi = first_index(names, src);
                    proof {
                        assert(src@ == source@);
                    }
                    match fi {
                        Some(i) => {
                            proof {
                                let ns = spec_names(names@);
                                lemma_first_index(ns, source@);
                                let i0 = spec_first_index(ns, source@).unwrap();
                                assert(spec_byte_views(streams@)[i0] == streams@[i as int]@);
                            }
                            find_raw_content(streams[i].as_slice(), rf.offset, rf.length, source.as_str())
                        },
                        None => {
                            let mut m = "Failed to open archive: ".to_owned();
                            push_str(&mut m, source.as_str());
                            Err(GitkaError::Extraction(m))
                        },
                    }
                },
            }
        },
    }
}

/// The name of the part a record's reference points into, when the store
/// knows its hash.
pub open spec fn spec_ref_part(e: EntryView, refs: Map<Seq<char>, DedupRef>, base: Seq<char>) -> Option<Seq<char>> {
    match e {
        EntryView::DedupRef(_, h) => if refs.contains_key(h) {
            Some(spec_part_name(spec_ref_archive(refs[h], base), refs[h].source_part as nat))
        } else {
            None
        },
        EntryView::Raw(_, _) => None,
    }
}

/// Whether `name` is the part some record's reference points into.
pub open spec fn spec_is_ref_part(es: Seq<ArchiveEntry>, refs: Map<Seq<char>, DedupRef>, base: Seq<char>,
    name: Seq<char>) -> bool {
    exists|j: int| 0 <= j < es.len() && #[trigger] spec_ref_part(es[j]@, refs, base) == Some(name)
}

/// The names of the parts that the records' references point into, one
/// per reference the store knows, in the order of the records: the parts
/// to read, besides those of the archive itself, before restoring it.
pub fn referenced_parts(entries: &Vec<ArchiveEntry>, store: Option<&DedupStore>, base: &str) -> (r: Vec<String>)
    requires
        store matches Some(s) ==> s.wf(),
    ensures
        forall|i: int| 0 <= i < r@.len() ==> spec_is_ref_part(entries@, spec_store_refs(store), base@, #[trigger] r@[i]@),
        forall|j: int| 0 <= j < entries@.len() && (#[trigger] spec_ref_part(entries@[j]@, spec_store_refs(store), base@)) is Some
            ==> exists|i: int| 0 <= i < r@.len()
                && spec_ref_part(entries@[j]@, spec_store_refs(store), base@) == Some(r@[i]@),
{
    let ghost refs = spec_store_refs(store);
    let mut out: Vec<String> = Vec::new();
    let mut k: usize = 0;
    while k < entries.len()
        invariant
            k <= entries@.len(),
            store matches Some(s) ==> s.wf(),
            refs == spec_store_refs(store),
            forall|i: int| #![trigger out@[i]] 0 <= i < out@.len() ==> exists|j: int| 0 <= j < k
                && #[trigger] spec_ref_part(entries@[j]@, refs, base@) == Some(out@[i]@),
            forall|j: int| 0 <= j < k && (#[trigger] spec_ref_part(entries@[j]@, refs, base@)) is Some
                ==> exists|i: int| 0 <= i < out@.len() && spec_ref_part(entries@[j]@, refs, base@) == Some(out@[i]@),
        decreases entries@.len() - k,
    {
        let e = &entries[k];
        let ghost before = out@;
        match &e.body {
            EntryBody::DedupRef(h) => {
                let found = match store {
                    Some(s) => s.lookup(h.as_str()),
                    None => None,
                };
                match found {
                    Some(rf) => {
                        let archive: &str = if rf.archive.as_str().unicode_len() == 0 { base } else { rf.archive.as_str() };
                        let name = part_name(archive, rf.source_part);
                        out.push(name);
                        proof {
                            assert(spec_ref_part(entries@[k as int]@, refs, base@) == Some(out@[out@.len() - 1]@));
                            assert forall|i: int| #![trigger out@[i]] 0 <= i < out@.len() implies exists|j: int| 0 <= j < k + 1
                                && #[trigger] spec_ref_part(entries@[j]@, refs, base@) == Some(out@[i]@) by {
                                if i < before.len() {
                                    assert(out@[i] == before[i]);
                                } else {
                                    assert(spec_ref_part(entries@[k as int]@, refs, base@) == Some(out@[i]@));
                                }
                            }
                            assert forall|j: int| 0 <= j < k + 1 && (#[trigger] spec_ref_part(entries@[j]@, refs, base@)) is Some
                                implies exists|i: int| 0 <= i < out@.len()
                                    && spec_ref_part(entries@[j]@, refs, base@) == Some(out@[i]@) by {
                                if j < k {
                                    let i0 = choose|i: int| 0 <= i < before.len()
                                        && spec_ref_part(entries@[j]@, refs, base@) == Some(before[i]@);
                                    assert(out@[i0] == before[i0]);
                                } else {
                                    assert(spec_ref_part(entries@[j]@, refs, base@) == Some(out@[out@.len() - 1]@));
                                }
                            }
                        }
                    },
                    None => {},
                }
            },
            EntryBody::Raw(_) => {},
        }
        k = k + 1;
    }
    proof {
        assert forall|i: int| 0 <= i < out@.len() implies spec_is_ref_part(entries@, spec_store_refs(store), base@,
            #[trigger] out@[i]@) by {
            let j = choose|j: int| 0 <= j < k && #[trigger] spec_ref_part(entries@[j]@, refs, base@) == Some(out@[i]@);
            assert(spec_ref_part(entries@[j]@, spec_store_refs(store), base@) == Some(out@[i]@));
        }
        assert forall|j: int| 0 <= j < entries@.len()
            && (#[trigger] spec_ref_part(entries@[j]@, spec_store_refs(store), base@)) is Some
            implies exists|i: int| 0 <= i < out@.len()
                && spec_ref_part(entries@[j]@, spec_store_refs(store), base@) == Some(out@[i]@) by {
            assert(spec_ref_part(entries@[j]@, refs, base@) is Some);
        }
    }
    out
}

/// Restoring a reference gives back the content that a write through the
/// shared store registered under its hash, whichever archive that write
/// went to: the part the reference names is given with the entry stream
/// the write produced (the records of the part before the content, the
/// content, and whatever followed it), and the reference records where
/// the content started and its length.
pub proof fn lemma_shared_store_restores(path: Seq<char>, h: Seq<char>, refs: Map<Seq<char>, DedupRef>,
    base: Seq<char>, names: Seq<Seq<char>>, streams: Seq<Seq<u8>>, open: Seq<EntryView>, file: Seq<char>,
    content: Seq<u8>, rest: Seq<EntryView>)
    requires
        refs.contains_key(h),
        spec_first_index(names, spec_part_name(spec_ref_archive(refs[h], base), refs[h].source_part as nat))
            matches Some(i) && streams[i] == spec_encode_entries(open.push(EntryView::Raw(file, content)) + rest),
        refs[h].offset == spec_encode_entries(open).len(),
        refs[h].length == content.len(),
        forall|j: int| 0 <= j < open.len() ==> encodable(#[trigger] open[j]),
        forall|j: int| 0 <= j < rest.len() ==> encodable(#[trigger] rest[j]),
        encodable(EntryView::Raw(file, content)),
    ensures
        spec_restored(EntryView::DedupRef(path, h), refs, base, names, streams) == Ok::<Seq<u8>, Seq<char>>(content),
{
    lemma_registered_content_reads_back(open, file, content, rest);
}

/// Restores the files of the archive named `base` from its records: each
/// record's path with the content it restores to (see `spec_restored`), in
/// order. The parts that can be read, of this archive and of the archives
/// the store's references name (those of other repositories too), are
/// given by name with their entry streams; references are resolved
/// through the store. Fails, with the
/// error of the first record that cannot be restored, exactly when some
/// record cannot be.
pub fn restore_entries(entries: &Vec<ArchiveEntry>, store: Option<&DedupStore>, base: &str,
    names: &Vec<String>, streams: &Vec<Vec<u8>>) -> (r: Result<Vec<(String, Vec<u8>)>, GitkaError>)
    requires
        store matches Some(s) ==> s.wf(),
        names@.len() == streams@.len(),
    ensures
        ({
            let refs = spec_store_refs(store);
            let ns = spec_names(names@);
            let ss = spec_byte_views(streams@);
            match r {
                Ok(v) => {
                    &&& v@.len() == entries@.len()
                    &&& forall|i: int| 0 <= i < v@.len() ==> (#[trigger] v@[i]).0@ == entries@[i]@.path()
                        && spec_restored(entries@[i]@, refs, base@, ns, ss) == Ok::<Seq<u8>, Seq<char>>(v@[i].1@)
                },
                Err(err) => exists|i: int| 0 <= i < entries@.len()
                    && (forall|j: int| 0 <= j < i ==> #[trigger] spec_restored(entries@[j]@, refs, base@, ns, ss) is Ok)
                    && spec_fails_with(#[trigger] spec_restored(entries@[i]@, refs, base@, ns, ss), err),
            }
        }),
        (forall|i: int| 0 <= i < entries@.len() ==> spec_restored(entries@[i]@, spec_store_refs(store), base@,
            spec_names(names@), spec_byte_views(streams@)) is Ok) ==> r is Ok,
{
    let ghost refs = spec_store_refs(store);
    let ghost ns = spec_names(names@);
    let ghost ss = spec_byte_views(streams@);
    let mut out: Vec<(String, Vec<u8>)> = Vec::new();
    let mut i: usize = 0;
    while i < entries.len()
        invariant
            i <= entries@.len(),
            store matches Some(s) ==> s.wf(),
            names@.len() == streams@.len(),
            refs == spec_store_refs(store),
            ns == spec_names(names@),
            ss == spec_byte_views(streams@),
            out@.len() == i,
            forall|k: int| 0 <= k < i ==> (#[trigger] out@[k]).0@ == entries@[k]@.path()
                && spec_restored(entries@[k]@, refs, base@, ns, ss) == Ok::<Seq<u8>, Seq<char>>(out@[k].1@),
        decreases entries@.len() - i,
    {
        let e = &entries[i];
        let content = match restore_one(e, store, base, names, streams) {
            Ok(c) => c,
            Err(err) => {
                proof {
                    assert forall|j: int| 0 <= j < i implies
                        #[trigger] spec_restored(entries@[j]@, refs, base@, ns, ss) is Ok by {
                        assert(out@[j].0@ == entries@[j]@.path());
                    }
                    assert(spec_fails_with(spec_restored(entries@[i as int]@, refs, base@, ns, ss), err));
                }
                return Err(err);
            },
        };
        out.push((e.path.clone(), content));
        i = i + 1;
    }
    Ok(out)
}

/// Once a prefix of the parts fails to read, every longer prefix does.
proof fn lemma_all_none_extends(ps: Seq<Seq<u8>>, dict: Option<Seq<u8>>, k: int)
    requires
        0 <= k <= ps.len(),
        spec_all_part_entries(ps.take(k), dict) is None,
    ensures
        spec_all_part_entries(ps.take(ps.len() as int), dict) is None,
    decreases ps.len() - k,
{
    if k < ps.len() {
        assert(ps.take(k + 1).drop_last() =~= ps.take(k));
        lemma_all_none_extends(ps, dict, k + 1);
    }
}

} // verus!
