//! The entry stream inside each archive part.
//!
//! Every file is one record: a little-endian `u32` path length, the UTF-8
//! path, a marker byte, then either a little-endian `u64` content length and
//! the content (raw marker), or a little-endian `u32` hash length, the UTF-8
//! hash and eight placeholder bytes (dedup marker). A part ends where fewer
//! than four bytes remain.
use vstd::prelude::*;
use vstd::bytes::*;
use vstd::slice::{slice_subrange, slice_to_vec};
use vstd::utf8::*;

use crate::error::GitkaError;

verus! {

broadcast use {encode_utf8_valid_utf8, encode_utf8_decode_utf8};

/// Marker byte of a record whose content is a reference into the dedup store.
pub const DEDUP_MARKER: u8 = 0x01;

/// Marker byte of a record whose content follows it.
pub const RAW_MARKER: u8 = 0x00;

/// What a record holds after its path.
#[derive(Debug)]
pub enum EntryBody {
    /// The file's bytes.
    Raw(Vec<u8>),
    /// The hex SHA-256 of content stored elsewhere.
    DedupRef(String),
}

/// One record of the entry stream.
#[derive(Debug)]
pub struct ArchiveEntry {
    /// Path relative to the archived directory.
    pub path: String,
    pub body: EntryBody,
}

/// The mathematical value of a record.
pub enum EntryView {
    Raw(Seq<char>, Seq<u8>),
    DedupRef(Seq<char>, Seq<char>),
}

impl View for ArchiveEntry {
    type V = EntryView;

    open spec fn view(&self) -> EntryView {
        match self.body {
            EntryBody::Raw(c) => EntryView::Raw(self.path@, c@),
            EntryBody::DedupRef(h) => EntryView::DedupRef(self.path@, h@),
        }
    }
}

impl EntryView {
    pub open spec fn path(self) -> Seq<char> {
        match self {
            EntryView::Raw(p, _) => p,
            EntryView::DedupRef(p, _) => p,
        }
    }
}

/// Whether a record's lengths fit the fields that carry them.
pub open spec fn encodable(e: EntryView) -> bool {
    match e {
        EntryView::Raw(p, c) => encode_utf8(p).len() <= u32::MAX && c.len() <= u64::MAX,
        EntryView::DedupRef(p, h) => encode_utf8(p).len() <= u32::MAX
            && encode_utf8(h).len() <= u32::MAX,
    }
}

/// The bytes of one record.
pub open spec fn spec_encode_entry(e: EntryView) -> Seq<u8> {
    match e {
        EntryView::Raw(p, c) => {
            let pb = encode_utf8(p);
            spec_u32_to_le_bytes(pb.len() as u32) + pb + seq![RAW_MARKER]
                + spec_u64_to_le_bytes(c.len() as u64) + c
        },
        EntryView::DedupRef(p, h) => {
            let pb = encode_utf8(p);
            let hb = encode_utf8(h);
            spec_u32_to_le_bytes(pb.len() as u32) + pb + seq![DEDUP_MARKER]
                + spec_u32_to_le_bytes(hb.len() as u32) + hb + spec_u64_to_le_bytes(0)
        },
    }
}

/// The bytes of a sequence of records, one after another.
pub open spec fn spec_encode_entries(es: Seq<EntryView>) -> Seq<u8>
    decreases es.len(),
{
    if es.len() == 0 {
        Seq::empty()
    } else {
        spec_encode_entries(es.drop_last()) + spec_encode_entry(es.last())
    }
}

/// The little-endian `u32` at `pos`.
pub open spec fn u32_at(s: Seq<u8>, pos: int) -> int {
    spec_u32_from_le_bytes(s.subrange(pos, pos + 4)) as int
}

/// The little-endian `u64` at `pos`.
pub open spec fn u64_at(s: Seq<u8>, pos: int) -> int {
    spec_u64_from_le_bytes(s.subrange(pos, pos + 8)) as int
}

/// The record starting at `pos` and the position after it, when the
/// bytes there form a whole record with UTF-8 path and hash.
pub open spec fn spec_parse_entry_at(s: Seq<u8>, pos: int) -> Option<(EntryView, int)> {
    if pos < 0 || s.len() < pos + 4 {
        None
    } else {
        let pl = u32_at(s, pos);
        let mpos = pos + 4 + pl;
        if s.len() < mpos + 1 {
            None
        } else {
            let pb = s.subrange(pos + 4, mpos);
            if !valid_utf8(pb) {
                None
            } else if s[mpos] == DEDUP_MARKER {
                let hpos = mpos + 1;
                if s.len() < hpos + 4 {
                    None
                } else {
                    let hl = u32_at(s, hpos);
                    let hend = hpos + 4 + hl;
                    if s.len() < hend {
                        None
                    } else {
                        let hb = s.subrange(hpos + 4, hend);
                        if !valid_utf8(hb) || s.len() < hend + 8 {
                            None
                        } else {
                            Some((EntryView::DedupRef(decode_utf8(pb), decode_utf8(hb)), hend + 8))
                        }
                    }
                }
            } else {
                let cpos = mpos + 1;
                if s.len() < cpos + 8 {
                    None
                } else {
                    let cl = u64_at(s, cpos);
                    let cend = cpos + 8 + cl;
                    if s.len() < cend {
                        None
                    } else {
                        Some((EntryView::Raw(decode_utf8(pb), s.subrange(cpos + 8, cend)), cend))
                    }
                }
            }
        }
    }
}

/// The records from `pos` to the end of the part, or `None` when a record
/// is cut short or holds a path or hash that is not UTF-8.
pub open spec fn spec_parse_from(s: Seq<u8>, pos: int) -> Option<Seq<EntryView>>
    decreases s.len() - pos,
{
    if pos < 0 || s.len() < pos + 4 {
        Some(Seq::empty())
    } else {
        match spec_parse_entry_at(s, pos) {
            Some((e, next)) => if pos < next {
                match spec_parse_from(s, next) {
                    Some(rest) => Some(seq![e] + rest),
                    None => None,
                }
            } else {
                None
            },
            None => None,
        }
    }
}

/// The records of a whole part stream.
pub open spec fn spec_parse_stream(s: Seq<u8>) -> Option<Seq<EntryView>> {
    spec_parse_from(s, 0)
}

pub proof fn lemma_parse_entry_advances(s: Seq<u8>, pos: int)
    ensures
        spec_parse_entry_at(s, pos) matches Some((e, next)) ==> pos + 13 <= next <= s.len(),
{
}

/// Reads the little-endian `u32` at `pos`.
fn read_u32(s: &[u8], pos: usize) -> (r: u32)
    requires
        pos + 4 <= s@.len() <= usize::MAX,
    ensures
        r as int == u32_at(s@, pos as int),
{
    u32_from_le_bytes(slice_subrange(s, pos, pos + 4))
}

/// Reads the little-endian `u64` at `pos`.
fn read_u64(s: &[u8], pos: usize) -> (r: u64)
    requires
        pos + 8 <= s@.len() <= usize::MAX,
    ensures
        r as int == u64_at(s@, pos as int),
{
    u64_from_le_bytes(slice_subrange(s, pos, pos + 8))
}

/// Decodes UTF-8 bytes into a string; `None` when they are not UTF-8.
#[verifier::external_body]
pub(crate) fn string_from_utf8(bytes: Vec<u8>) -> (r: Option<String>)
    ensures
        r is Some <==> valid_utf8(bytes@),
        r matches Some(s) ==> s@ == decode_utf8(bytes@),
{
    String::from_utf8(bytes).ok()
}

/// Parses the record at `pos`.
pub fn parse_entry_at(s: &[u8], pos: usize) -> (r: Option<(ArchiveEntry, usize)>)
    ensures
        match spec_parse_entry_at(s@, pos as int) {
            Some((e, next)) => r matches Some((entry, n)) && entry@ == e && n == next,
            None => r is None,
        },
{
    let len = s.len();
    if len < 4 || pos > len - 4 {
        return None;
    }
    let pl = read_u32(s, pos) as usize;
    if pl > len - pos - 4 || len - pos - 4 - pl < 1 {
        return None;
    }
    let mpos = pos + 4 + pl;
    let path = match string_from_utf8(slice_to_vec(slice_subrange(s, pos + 4, mpos))) {
        Some(p) => p,
        None => { return None; },
    };
    if s[mpos] == DEDUP_MARKER {
        let hpos = mpos + 1;
        if len - hpos < 4 {
            return None;
        }
        let hl = read_u32(s, hpos) as usize;
        if hl > len - hpos - 4 {
            return None;
        }
        let hend = hpos + 4 + hl;
        let hash = match string_from_utf8(slice_to_vec(slice_subrange(s, hpos + 4, hend))) {
            Some(h) => h,
            None => { return None; },
        };
        if len - hend < 8 {
            return None;
        }
        Some((ArchiveEntry { path, body: EntryBody::DedupRef(hash) }, hend + 8))
    } else {
        let cpos = mpos + 1;
        if len - cpos < 8 {
            return None;
        }
        let cl = read_u64(s, cpos);
        if cl > (len - cpos - 8) as u64 {
            return None;
        }
        let cend = cpos + 8 + cl as usize;
        let content = slice_to_vec(slice_subrange(s, cpos + 8, cend));
        Some((ArchiveEntry { path, body: EntryBody::Raw(content) }, cend))
    }
}

/// The error a cut-short or malformed record raises.
pub open spec fn is_extraction_error(e: GitkaError) -> bool {
    e is Extraction
}

/// Decodes every record of a part stream.
pub fn decode_stream(s: &[u8]) -> (r: Result<Vec<ArchiveEntry>, GitkaError>)
    ensures
        match spec_parse_stream(s@) {
            Some(es) => r matches Ok(v) && v@.map_values(|e: ArchiveEntry| e@) == es,
            None => r matches Err(e) && is_extraction_error(e),
        },
{
    let mut out: Vec<ArchiveEntry> = Vec::new();
    let mut pos: usize = 0;
    while s.len() >= 4 && pos <= s.len() - 4
        invariant
            pos <= s@.len(),
            spec_parse_stream(s@) == match spec_parse_from(s@, pos as int) {
                Some(rest) => Some(out@.map_values(|e: ArchiveEntry| e@) + rest),
                None => None,
            },
        decreases s@.len() - pos,
    {
        let ghost old_out = out@.map_values(|e: ArchiveEntry| e@);
        proof { lemma_parse_entry_advances(s@, pos as int); }
        match parse_entry_at(s, pos) {
            Some((entry, next)) => {
                let ghost ev = entry@;
                out.push(entry);
                proof {
                    assert(out@.map_values(|e: ArchiveEntry| e@) =~= old_out.push(ev));
                    match spec_parse_from(s@, next as int) {
                        Some(rest) => {
                            assert(old_out + (seq![ev] + rest) =~= old_out.push(ev) + rest);
                        },
                        None => {},
                    }
                }
                pos = next;
            },
            None => {
                return Err(GitkaError::Extraction("Read error: truncated or malformed entry".to_owned()));
            },
        }
    }
    proof {
        assert(out@.map_values(|e: ArchiveEntry| e@) + Seq::<EntryView>::empty()
            =~= out@.map_values(|e: ArchiveEntry| e@));
    }
    Ok(out)
}

/// Appends the bytes of one record.
pub fn encode_entry(e: &ArchiveEntry, out: &mut Vec<u8>)
    requires
        encodable(e@),
    ensures
        final(out)@ == old(out)@ + spec_encode_entry(e@),
{
    let ghost start = out@;
    let pb = e.path.as_str().as_bytes();
    let mut len_bytes = u32_to_le_bytes(pb.len() as u32);
    out.append(&mut len_bytes);
    let mut pv = slice_to_vec(pb);
    out.append(&mut pv);
    match &e.body {
        EntryBody::Raw(content) => {
            out.push(RAW_MARKER);
            let mut cl = u64_to_le_bytes(content.len() as u64);
            out.append(&mut cl);
            let mut cv = slice_to_vec(content.as_slice());
            out.append(&mut cv);
        },
        EntryBody::DedupRef(hash) => {
            out.push(DEDUP_MARKER);
            let hb = hash.as_str().as_bytes();
            let mut hl = u32_to_le_bytes(hb.len() as u32);
            out.append(&mut hl);
            let mut hv = slice_to_vec(hb);
            out.append(&mut hv);
            let mut z = u64_to_le_bytes(0);
            out.append(&mut z);
        },
    }
    proof {
        assert(out@ =~= start + spec_encode_entry(e@));
    }
}

/// Appends the bytes of every record, in order.
pub fn encode_entries(es: &Vec<ArchiveEntry>, out: &mut Vec<u8>)
    requires
        forall|i: int| 0 <= i < es@.len() ==> encodable(#[trigger] es@[i]@),
    ensures
        final(out)@ == old(out)@ + spec_encode_entries(es@.map_values(|e: ArchiveEntry| e@)),
{
    let ghost start = out@;
    let ghost views = es@.map_values(|e: ArchiveEntry| e@);
    let mut i: usize = 0;
    while i < es.len()
        invariant
            i <= es@.len(),
            views == es@.map_values(|e: ArchiveEntry| e@),
            forall|k: int| 0 <= k < es@.len() ==> encodable(#[trigger] es@[k]@),
            out@ == start + spec_encode_entries(views.take(i as int)),
        decreases es@.len() - i,
    {
        encode_entry(&es[i], out);
        proof {
            assert(views.take(i as int + 1).drop_last() =~= views.take(i as int));
            assert(views.take(i as int + 1).last() == es@[i as int]@);
            assert(out@ =~= start + spec_encode_entries(views.take(i as int + 1)));
        }
        i = i + 1;
    }
    proof {
        assert(views.take(es@.len() as int) =~= views);
    }
}

/// The record bytes at `pos..pos + e.len()` parse back to that record.
pub proof fn lemma_parse_encoded_entry(s: Seq<u8>, pos: int, e: EntryView)
    requires
        encodable(e),
        0 <= pos,
        pos + spec_encode_entry(e).len() <= s.len(),
        s.subrange(pos, pos + spec_encode_entry(e).len()) == spec_encode_entry(e),
    ensures
        spec_parse_entry_at(s, pos) == Some((e, pos + spec_encode_entry(e).len())),
{
    lemma_auto_spec_u32_to_from_le_bytes();
    lemma_auto_spec_u64_to_from_le_bytes();
    let enc = spec_encode_entry(e);
    assert forall|a: int, b: int| 0 <= a <= b <= enc.len() implies
        #[trigger] s.subrange(pos + a, pos + b) == enc.subrange(a, b) by {
        assert(s.subrange(pos + a, pos + b) =~= enc.subrange(a, b)) by {
            assert forall|k: int| 0 <= k < b - a implies s.subrange(pos + a, pos + b)[k] == enc.subrange(a, b)[k] by {
                assert(s.subrange(pos, pos + enc.len())[a + k] == s[pos + a + k]);
            }
        }
    }
    match e {
        EntryView::Raw(p, c) => {
            let pb = encode_utf8(p);
            let pl = pb.len() as int;
            let l4 = spec_u32_to_le_bytes(pl as u32);
            let l8 = spec_u64_to_le_bytes(c.len() as u64);
            assert(enc == l4 + pb + seq![RAW_MARKER] + l8 + c);
            assert(enc.subrange(0, 4) =~= l4);
            assert(s.subrange(pos, pos + 4) == enc.subrange(0, 4));
            assert(u32_at(s, pos) == pl);
            assert(enc.subrange(4, 4 + pl) =~= pb);
            assert(s.subrange(pos + 4, pos + 4 + pl) == enc.subrange(4, 4 + pl));
            assert(enc[4 + pl] == RAW_MARKER);
            assert(s.subrange(pos, pos + enc.len())[4 + pl] == s[pos + 4 + pl]);
            assert(enc.subrange(5 + pl, 13 + pl) =~= l8);
            assert(s.subrange(pos + 5 + pl, pos + 5 + pl + 8) == enc.subrange(5 + pl, 13 + pl));
            assert(u64_at(s, pos + 5 + pl) == c.len());
            let cl = c.len() as int;
            assert(enc.subrange(13 + pl, 13 + pl + cl) =~= c);
            assert(s.subrange(pos + 5 + pl + 8, pos + 5 + pl + 8 + cl) == enc.subrange(13 + pl, 13 + pl + cl));
        },
        EntryView::DedupRef(p, h) => {
            let pb = encode_utf8(p);
            let pl = pb.len() as int;
            let hb = encode_utf8(h);
            let hl = hb.len() as int;
            let l4 = spec_u32_to_le_bytes(pl as u32);
            let h4 = spec_u32_to_le_bytes(hl as u32);
            let z8 = spec_u64_to_le_bytes(0);
            assert(enc == l4 + pb + seq![DEDUP_MARKER] + h4 + hb + z8);
            assert(enc.subrange(0, 4) =~= l4);
            assert(s.subrange(pos, pos + 4) == enc.subrange(0, 4));
            assert(u32_at(s, pos) == pl);
            assert(enc.subrange(4, 4 + pl) =~= pb);
            assert(s.subrange(pos + 4, pos + 4 + pl) == enc.subrange(4, 4 + pl));
            assert(enc[4 + pl] == DEDUP_MARKER);
            assert(s.subrange(pos, pos + enc.len())[4 + pl] == s[pos + 4 + pl]);
            assert(enc.subrange(5 + pl, 9 + pl) =~= h4);
            assert(s.subrange(pos + 5 + pl, pos + 5 + pl + 4) == enc.subrange(5 + pl, 9 + pl));
            assert(u32_at(s, pos + 5 + pl) == hl);
            assert(enc.subrange(9 + pl, 9 + pl + hl) =~= hb);
            assert(s.subrange(pos + 5 + pl + 4, pos + 5 + pl + 4 + hl) == enc.subrange(9 + pl, 9 + pl + hl));
            assert(enc.len() == 17 + pl + hl);
        },
    }
}

/// The encoding of the first `i` records is a prefix of the encoding of all.
pub proof fn lemma_encode_prefix(es: Seq<EntryView>, i: int)
    requires
        0 <= i <= es.len(),
    ensures
        spec_encode_entries(es.take(i)).len() <= spec_encode_entries(es).len(),
        spec_encode_entries(es).subrange(0, spec_encode_entries(es.take(i)).len() as int)
            == spec_encode_entries(es.take(i)),
    decreases es.len(),
{
    if i == es.len() {
        assert(es.take(i) =~= es);
        assert(spec_encode_entries(es).subrange(0, spec_encode_entries(es).len() as int)
            =~= spec_encode_entries(es));
    } else {
        let init = es.drop_last();
        assert(init.take(i) =~= es.take(i));
        lemma_encode_prefix(init, i);
        let a = spec_encode_entries(init);
        let b = spec_encode_entries(es.take(i));
        assert(spec_encode_entries(es) == a + spec_encode_entry(es.last()));
        assert((a + spec_encode_entry(es.last())).subrange(0, b.len() as int) =~= a.subrange(0, b.len() as int));
    }
}

/// Parsing from the end of the first `j` records yields the remaining ones.
proof fn lemma_parse_encoded_suffix(es: Seq<EntryView>, j: int)
    requires
        0 <= j <= es.len(),
        forall|i: int| 0 <= i < es.len() ==> encodable(#[trigger] es[i]),
    ensures
        spec_parse_from(spec_encode_entries(es), spec_encode_entries(es.take(j)).len() as int)
            == Some(es.skip(j)),
    decreases es.len() - j,
{
    let s = spec_encode_entries(es);
    let off = spec_encode_entries(es.take(j)).len() as int;
    lemma_encode_prefix(es, j);
    if j == es.len() {
        assert(es.take(j) =~= es);
        assert(es.skip(j) =~= Seq::<EntryView>::empty());
    } else {
        let e = es[j];
        let k = j + 1;
        lemma_encode_prefix(es, k);
        assert(es.take(k).drop_last() =~= es.take(j));
        assert(es.take(k).last() == e);
        let next = spec_encode_entries(es.take(k)).len() as int;
        assert(spec_encode_entries(es.take(k)) == spec_encode_entries(es.take(j)) + spec_encode_entry(e));
        assert(s.subrange(off, next) =~= spec_encode_entry(e)) by {
            assert forall|m: int| 0 <= m < next - off implies s.subrange(off, next)[m] == spec_encode_entry(e)[m] by {
                assert(s.subrange(0, next)[off + m] == s[off + m]);
                assert(spec_encode_entries(es.take(k))[off + m] == spec_encode_entry(e)[m]);
            }
        }
        lemma_parse_encoded_entry(s, off, e);
        lemma_parse_encoded_suffix(es, k);
        assert(seq![e] + es.skip(k) =~= es.skip(j));
    }
}

/// A stream made of whole records parses back to exactly those records.
pub proof fn lemma_parse_encoded(es: Seq<EntryView>)
    requires
        forall|i: int| 0 <= i < es.len() ==> encodable(#[trigger] es[i]),
    ensures
        spec_parse_stream(spec_encode_entries(es)) == Some(es),
{
    lemma_parse_encoded_suffix(es, 0);
    assert(es.take(0) =~= Seq::<EntryView>::empty());
    assert(es.skip(0) =~= es);
}

} // verus!
