//! Compression tiers, archive parts and their zstd payloads.
use vstd::prelude::*;
use vstd::slice::{slice_subrange, slice_to_vec};
use vstd::bytes::{u32_from_le_bytes, u64_from_le_bytes};

use crate::archive::{
    spec_archive_magic, spec_header_bytes, ArchiveHeader, ARCHIVE_VERSION, COMPRESSION_ZSTD,
    HEADER_SIZE, msg_bad_method, msg_bad_version, is_compression_error,
};
use crate::config::{CompressionConfig, CompressionTier};
use crate::error::GitkaError;
use crate::format::{
    decode_stream, encodable, lemma_encode_prefix, lemma_parse_encoded_entry, lemma_parse_entry_advances,
    spec_encode_entries, spec_encode_entry, spec_parse_entry_at, spec_parse_stream, u32_at, u64_at,
    ArchiveEntry, EntryBody, EntryView, DEDUP_MARKER,
};
use crate::text::{push_decimal, spec_decimal};
use crate::strings::lemma_decimal_pad3_injective;
use crate::text::{contains_str, push_decimal_pad3, push_str, spec_decimal_pad3};

verus! {

/// Free space on the target against the space the repositories need.
pub struct BudgetCheck {
    /// Free space on the target drive in bytes.
    pub free_space: u64,
    /// Total size of the repositories to compress in bytes.
    pub needed_space: u64,
}

impl BudgetCheck {
    pub fn new(free_space: u64, needed_space: u64) -> (r: BudgetCheck)
        ensures
            r.free_space == free_space,
            r.needed_space == needed_space,
    {
        BudgetCheck { free_space, needed_space }
    }

    /// The tier the automatic setting picks: low when there is room for
    /// three times what is needed (or nothing is needed), medium when what is
    /// needed fits, high otherwise.
    pub open spec fn spec_auto_tier(&self) -> CompressionTier {
        if self.needed_space == 0 {
            CompressionTier::Low
        } else if self.free_space >= 3 * self.needed_space {
            CompressionTier::Low
        } else if self.free_space >= self.needed_space {
            CompressionTier::Medium
        } else {
            CompressionTier::High
        }
    }

    /// The configured tier, or the one the budget calls for when automatic.
    pub fn determine_tier(&self, config: &CompressionConfig) -> (r: CompressionTier)
        ensures
            config.tier == CompressionTier::Auto ==> r == self.spec_auto_tier(),
            config.tier != CompressionTier::Auto ==> r == config.tier,
    {
        match config.tier {
            CompressionTier::Auto => {
                if self.needed_space == 0 {
                    return CompressionTier::Low;
                }
                if self.free_space as u128 >= 3 * (self.needed_space as u128) {
                    CompressionTier::Low
                } else if self.free_space >= self.needed_space {
                    CompressionTier::Medium
                } else {
                    CompressionTier::High
                }
            },
            tier => tier,
        }
    }

    /// Whether even the highest compression cannot be assumed to fit: what
    /// is needed, shrunk by the high tier's ratio, exceeds the free space.
    pub fn is_over_budget(&self) -> (r: bool)
        ensures
            r == (self.needed_space != 0
                && self.needed_space > self.free_space * spec_compression_ratio(CompressionTier::High)),
    {
        if self.needed_space == 0 {
            return false;
        }
        let high = self.compression_ratio(&CompressionTier::High);
        (self.needed_space as u128) > (self.free_space as u128) * (high as u128)
    }

    /// The compression ratio assumed for a tier.
    pub fn compression_ratio(&self, tier: &CompressionTier) -> (r: u32)
        ensures
            r == spec_compression_ratio(*tier),
    {
        match tier {
            CompressionTier::Low => 2,
            CompressionTier::Medium => 3,
            CompressionTier::High => 4,
            CompressionTier::Auto => 3,
        }
    }
}

/// The space a budget check asks for: the data's size, plus a quarter for
/// recovery records when those are on, saturating at `u64::MAX`.
pub open spec fn spec_space_needed(size: u64, recovery_records: bool) -> nat {
    if !recovery_records {
        size as nat
    } else if size + size / 4 > u64::MAX {
        u64::MAX as nat
    } else {
        (size + size / 4) as nat
    }
}

/// The space a budget check asks for, given the data's size and whether
/// recovery records are on.
pub fn space_needed(size: u64, recovery_records: bool) -> (r: u64)
    ensures
        r == spec_space_needed(size, recovery_records),
{
    if recovery_records {
        size.saturating_add(size / 4)
    } else {
        size
    }
}

/// The compression ratio assumed for a tier.
pub open spec fn spec_compression_ratio(tier: CompressionTier) -> u32 {
    match tier {
        CompressionTier::Low => 2,
        CompressionTier::Medium => 3,
        CompressionTier::High => 4,
        CompressionTier::Auto => 3,
    }
}

/// The zstd level of a tier.
pub open spec fn spec_level_for_tier(tier: CompressionTier) -> i32 {
    match tier {
        CompressionTier::Low => 6,
        CompressionTier::Medium => 15,
        CompressionTier::High => 22,
        CompressionTier::Auto => 6,
    }
}

/// The zstd level of a tier.
pub fn level_for_tier(tier: &CompressionTier) -> (r: i32)
    ensures
        r == spec_level_for_tier(*tier),
{
    match tier {
        CompressionTier::Low => 6,
        CompressionTier::Medium => 15,
        CompressionTier::High => 22,
        CompressionTier::Auto => 6,
    }
}

/// The file name of part `n` of an archive named `base`: the base name
/// itself for part 1, else the base name, a dot and `n` in at least three
/// digits.
pub open spec fn spec_part_name(base: Seq<char>, n: nat) -> Seq<char> {
    if n == 1 {
        base
    } else {
        base + seq!['.'] + spec_decimal_pad3(n)
    }
}

/// Different parts of an archive have different file names.
pub proof fn lemma_part_name_injective(base: Seq<char>, n: nat, m: nat)
    ensures
        spec_part_name(base, n) == spec_part_name(base, m) ==> n == m,
{
    if spec_part_name(base, n) == spec_part_name(base, m) && n != m {
        lemma_decimal_pad3_injective(n, m);
        if n == 1 || m == 1 {
            assert(spec_part_name(base, n).len() != spec_part_name(base, m).len());
        } else {
            let k = base.len() + 1;
            assert(spec_part_name(base, n).skip(k as int) =~= spec_decimal_pad3(n));
            assert(spec_part_name(base, m).skip(k as int) =~= spec_decimal_pad3(m));
        }
    }
}

/// The file name of part `n` of an archive named `base`.
pub fn part_name(base: &str, n: u32) -> (r: String)
    ensures
        r@ == spec_part_name(base@, n as nat),
{
    let mut s = base.to_owned();
    if n != 1 {
        push_str(&mut s, ".");
        push_decimal_pad3(&mut s, n as u64);
        proof {
            reveal_strlit(".");
            assert(s@ =~= spec_part_name(base@, n as nat));
        }
    }
    s
}

/// Whether `name` is among `names`.
pub open spec fn spec_listed(names: Seq<String>, name: Seq<char>) -> bool {
    exists|i: int| 0 <= i < names.len() && (#[trigger] names[i])@ == name
}

/// The parts of an archive named `base`, given the file names present next
/// to it: the base name, then parts 2, 3, ... for as long as they exist.
pub fn find_archive_parts(base: &str, present: &Vec<String>) -> (r: Vec<String>)
    ensures
        r@.len() >= 1,
        forall|i: int| 0 <= i < r@.len() ==> (#[trigger] r@[i])@ == spec_part_name(base@, (i + 1) as nat),
        forall|i: int| 1 <= i < r@.len() ==> spec_listed(present@, (#[trigger] r@[i])@),
        r@.len() + 1 < u32::MAX ==> !spec_listed(present@, spec_part_name(base@, (r@.len() + 1) as nat)),
{
    let mut parts: Vec<String> = Vec::new();
    parts.push(base.to_owned());
    let mut n: u32 = 2;
    while n < u32::MAX
        invariant
            2 <= n <= u32::MAX,
            parts@.len() == n - 1,
            forall|i: int| 0 <= i < parts@.len() ==> (#[trigger] parts@[i])@ == spec_part_name(base@, (i + 1) as nat),
            forall|i: int| 1 <= i < parts@.len() ==> spec_listed(present@, (#[trigger] parts@[i])@),
        decreases u32::MAX - n,
    {
        let name = part_name(base, n);
        if contains_str(present, name.as_str()) {
            parts.push(name);
            n = n + 1;
        } else {
            return parts;
        }
    }
    parts
}

/// The magic number every zstd frame starts with.
pub open spec fn spec_zstd_frame_magic() -> Seq<u8> {
    seq![0x28u8, 0xB5u8, 0x2Fu8, 0xFDu8]
}

/// The frame `zstd::stream::encode_all` makes of `data` at `level`.
pub uninterp spec fn spec_zstd_encode(data: Seq<u8>, level: i32) -> Seq<u8>;

/// The frame a `zstd::stream::write::Encoder` with `dict` makes of `data`
/// at `level`; `None` when zstd does not take `dict`.
pub uninterp spec fn spec_zstd_encode_dict(data: Seq<u8>, level: i32, dict: Seq<u8>) -> Option<Seq<u8>>;

/// What `zstd::stream::decode_all` makes of `data`; `None` when it fails.
pub uninterp spec fn spec_zstd_decode(data: Seq<u8>) -> Option<Seq<u8>>;

/// What a `zstd::stream::read::Decoder` with `dict` reads out of `data`;
/// `None` when it fails.
pub uninterp spec fn spec_zstd_decode_dict(data: Seq<u8>, dict: Seq<u8>) -> Option<Seq<u8>>;

/// The zstd dictionary magic number, little-endian, that starts a
/// dictionary with entropy tables.
pub open spec fn spec_zstd_dict_magic() -> Seq<u8> {
    seq![0x37u8, 0xA4u8, 0x30u8, 0xECu8]
}

/// Whether zstd takes `d` as a dictionary with entropy tables (it starts
/// with the dictionary magic and is eight bytes or more); any other bytes
/// are taken as plain content to refer back to.
pub open spec fn spec_has_dict_magic(d: Seq<u8>) -> bool {
    d.len() >= 8 && d.subrange(0, 4) == spec_zstd_dict_magic()
}

/// Whether zstd is sure to load `d` as a dictionary, for compressing and
/// for decompressing: plain content, or what its trainer made.
pub open spec fn spec_usable_dict(d: Seq<u8>) -> bool {
    ||| !spec_has_dict_magic(d)
    ||| exists|samples: Seq<Seq<u8>>, max_size: usize| #[trigger] spec_zstd_train(samples, max_size) == Some(d)
}

/// Whether an optional dictionary is none or one zstd is sure to load.
pub open spec fn spec_dict_ok(dict: Option<Seq<u8>>) -> bool {
    match dict {
        Some(d) => spec_usable_dict(d),
        None => true,
    }
}

/// `zstd::stream::encode_all` on a byte slice: a single zstd frame, which
/// starts with the zstd magic number. The level is clamped to zstd's range
/// and the output is a growing `Vec`, so it fails only where zstd cannot
/// allocate memory, which is left unsaid.
#[verifier::external_body]
fn zstd_encode(data: &[u8], level: i32) -> (r: Option<Vec<u8>>)
    ensures
        r is Some,
        r matches Some(v) ==> v@ == spec_zstd_encode(data@, level),
        r matches Some(v) ==> v@.len() >= 4 && v@.subrange(0, 4) == spec_zstd_frame_magic(),
{
    zstd::stream::encode_all(data, level).ok()
}

/// `zstd::stream::write::Encoder::with_dictionary` into a `Vec`, with all
/// of `data` written and the frame finished: one zstd frame of `data` made
/// with `dict`, starting with the zstd magic number. It fails when zstd
/// does not take the dictionary, which never happens for a dictionary zstd
/// is sure to load; a failure to allocate memory is left unsaid.
#[verifier::external_body]
fn zstd_encode_with_dict(data: &[u8], level: i32, dict: &[u8]) -> (r: Option<Vec<u8>>)
    ensures
        spec_usable_dict(dict@) ==> r is Some,
        match r {
            Some(v) => spec_zstd_encode_dict(data@, level, dict@) == Some(v@),
            None => spec_zstd_encode_dict(data@, level, dict@) is None,
        },
        r matches Some(v) ==> v@.len() >= 4 && v@.subrange(0, 4) == spec_zstd_frame_magic(),
{
    let mut encoder = zstd::stream::write::Encoder::with_dictionary(Vec::new(), level, dict).ok()?;
    std::io::Write::write_all(&mut encoder, data).ok()?;
    encoder.finish().ok()
}

/// `zstd::stream::decode_all` on a byte slice. A frame that `encode_all`
/// made decodes to the bytes it was made of.
#[verifier::external_body]
fn zstd_decode(data: &[u8]) -> (r: Option<Vec<u8>>)
    ensures
        match r {
            Some(v) => spec_zstd_decode(data@) == Some(v@),
            None => spec_zstd_decode(data@) is None,
        },
        r is None ==> forall|frame: (Seq<u8>, i32)| #[trigger] spec_zstd_encode(frame.0, frame.1) != data@,
        r matches Some(v) ==> forall|frame: (Seq<u8>, i32)| #[trigger] spec_zstd_encode(frame.0, frame.1) == data@
            ==> v@ == frame.0,
{
    zstd::stream::decode_all(data).ok()
}

/// `zstd::stream::read::Decoder::with_dictionary` on a byte slice, read to
/// the end. A frame that zstd made with the same dictionary decodes to the
/// bytes it was made of.
#[verifier::external_body]
fn zstd_decode_with_dict(data: &[u8], dict: &[u8]) -> (r: Option<Vec<u8>>)
    ensures
        match r {
            Some(v) => spec_zstd_decode_dict(data@, dict@) == Some(v@),
            None => spec_zstd_decode_dict(data@, dict@) is None,
        },
        r is None ==> forall|frame: (Seq<u8>, i32)|
            #[trigger] spec_zstd_encode_dict(frame.0, frame.1, dict@) != Some(data@),
        r matches Some(v) ==> forall|frame: (Seq<u8>, i32)|
            #[trigger] spec_zstd_encode_dict(frame.0, frame.1, dict@) == Some(data@) ==> v@ == frame.0,
{
    let mut out: Vec<u8> = Vec::new();
    let read = zstd::stream::read::Decoder::with_dictionary(data, dict)
        .and_then(|mut d| std::io::Read::read_to_end(&mut d, &mut out));
    read.ok().map(|_| out)
}

/// The view of an optional dictionary.
pub open spec fn spec_dict_view(dict: Option<&[u8]>) -> Option<Seq<u8>> {
    match dict {
        Some(d) => Some(d@),
        None => None,
    }
}

/// What a payload decodes to, with the dictionary when there is one.
pub open spec fn spec_decoded(payload: Seq<u8>, dict: Option<Seq<u8>>) -> Option<Seq<u8>> {
    match dict {
        Some(d) => spec_zstd_decode_dict(payload, d),
        None => spec_zstd_decode(payload),
    }
}

/// Decodes a part's payload, with the dictionary when given. A payload
/// compressed with the same dictionary (or without, when none is given)
/// decodes to what it was made of.
fn decompress_bytes(payload: &[u8], dict: Option<&[u8]>) -> (r: Option<Vec<u8>>)
    ensures
        match r {
            Some(v) => spec_decoded(payload@, spec_dict_view(dict)) == Some(v@),
            None => spec_decoded(payload@, spec_dict_view(dict)) is None,
        },
        forall|x: Seq<u8>, level: i32| spec_compresses(x, level, spec_dict_view(dict))
            && #[trigger] spec_compressed(x, level, spec_dict_view(dict)) == payload@ ==> (r matches Some(v) && v@ == x),
{
    match dict {
        Some(d) => {
            let r = zstd_decode_with_dict(payload, d);
            proof {
                assert forall|x: Seq<u8>, level: i32| spec_compresses(x, level, spec_dict_view(dict))
                    && #[trigger] spec_compressed(x, level, spec_dict_view(dict)) == payload@
                    implies (r matches Some(v) && v@ == x) by {
                    let frame = (x, level);
                    assert(spec_zstd_encode_dict(frame.0, frame.1, d@) == Some(payload@));
                }
            }
            r
        },
        None => {
            let r = zstd_decode(payload);
            proof {
                assert forall|x: Seq<u8>, level: i32| spec_compresses(x, level, spec_dict_view(dict))
                    && #[trigger] spec_compressed(x, level, spec_dict_view(dict)) == payload@
                    implies (r matches Some(v) && v@ == x) by {
                    let frame = (x, level);
                    assert(spec_zstd_encode(frame.0, frame.1) == payload@);
                }
            }
            r
        },
    }
}

/// The compressed payload of a part's entry stream: with the dictionary
/// when there is one (nothing when zstd does not take it).
pub open spec fn spec_compressed(stream: Seq<u8>, level: i32, dict: Option<Seq<u8>>) -> Seq<u8> {
    match dict {
        Some(d) => match spec_zstd_encode_dict(stream, level, d) {
            Some(f) => f,
            None => Seq::empty(),
        },
        None => spec_zstd_encode(stream, level),
    }
}

/// Whether zstd compresses a part's entry stream: always without a
/// dictionary, and with one exactly when zstd takes it.
pub open spec fn spec_compresses(stream: Seq<u8>, level: i32, dict: Option<Seq<u8>>) -> bool {
    match dict {
        Some(d) => spec_zstd_encode_dict(stream, level, d) is Some,
        None => true,
    }
}

/// Compresses a part's entry stream, with the dictionary when given.
pub(crate) fn compress_bytes(stream: &[u8], level: i32, dict: Option<&[u8]>) -> (r: Option<Vec<u8>>)
    ensures
        r matches Some(v) ==> v@ == spec_compressed(stream@, level, match dict {
            Some(d) => Some(d@),
            None => None,
        }),
        r matches Some(v) ==> v@.len() >= 4 && v@.subrange(0, 4) == spec_zstd_frame_magic(),
        r is Some <==> spec_compresses(stream@, level, spec_dict_view(dict)),
        spec_dict_ok(spec_dict_view(dict)) ==> r is Some,
{
    match dict {
        Some(d) => zstd_encode_with_dict(stream, level, d),
        None => zstd_encode(stream, level),
    }
}

/// The 12-byte header the first part of a zstd archive starts with.
pub open spec fn spec_zstd_header() -> Seq<u8> {
    spec_archive_magic() + seq![ARCHIVE_VERSION, COMPRESSION_ZSTD, 0u8, 0u8, 0u8, 0u8, 0u8]
}

/// Whether a part file starts with an archive header.
pub open spec fn spec_has_header(data: Seq<u8>) -> bool {
    data.len() >= 12 && data.subrange(0, 5) == spec_archive_magic()
}

/// The compressed payload of a part file: after the header when it has
/// one, whose version and method must then be supported; the whole file
/// when it has none.
pub open spec fn spec_payload(data: Seq<u8>) -> Result<Seq<u8>, Seq<char>> {
    if !spec_has_header(data) {
        Ok(data)
    } else if data[5] > ARCHIVE_VERSION {
        Err(msg_bad_version(data[5]))
    } else if data[6] != COMPRESSION_ZSTD {
        Err(msg_bad_method(data[6]))
    } else {
        Ok(data.subrange(12, data.len() as int))
    }
}

/// The compressed payload of a part file.
pub fn archive_payload(data: &[u8]) -> (r: Result<&[u8], GitkaError>)
    ensures
        match spec_payload(data@) {
            Ok(p) => r matches Ok(s) && s@ == p,
            Err(msg) => r matches Err(e) && is_compression_error(e, msg),
        },
{
    if data.len() < HEADER_SIZE {
        return Ok(data);
    }
    let b: [u8; 12] = [
        data[0], data[1], data[2], data[3], data[4], data[5],
        data[6], data[7], data[8], data[9], data[10], data[11],
    ];
    assert(b@ =~= data@.subrange(0, 12));
    match ArchiveHeader::from_bytes(&b) {
        Err(_) => {
            proof { assert(b@.subrange(0, 5) =~= data@.subrange(0, 5)); }
            Ok(data)
        },
        Ok(h) => {
            proof {
                assert(b@.subrange(0, 5) =~= data@.subrange(0, 5));
                assert(h.magic@ =~= spec_header_bytes(h).subrange(0, 5));
                assert(h.version == b@[5]);
                assert(h.compression_method == b@[6]);
            }
            h.validate()?;
            Ok(slice_subrange(data, HEADER_SIZE, data.len()))
        },
    }
}

/// The uncompressed entry stream of a part, or `None` when its payload
/// does not decode.
pub open spec fn spec_part_stream(data: Seq<u8>, dict: Option<Seq<u8>>) -> Result<Option<Seq<u8>>, Seq<char>> {
    match spec_payload(data) {
        Ok(p) => Ok(spec_decoded(p, dict)),
        Err(msg) => Err(msg),
    }
}

/// Whether `data` is the file of part `n` holding the entry stream `x`
/// compressed at `level`, with `dict` when there is one and zstd took it:
/// the header and a
/// zstd frame of `x` for the first part, a zstd frame of `x` for the
/// others.
pub open spec fn spec_plain_part(n: nat, x: Seq<u8>, level: i32, dict: Option<Seq<u8>>, data: Seq<u8>) -> bool {
    spec_compresses(x, level, dict) && if n == 1 {
        data == spec_zstd_header() + spec_compressed(x, level, dict)
    } else {
        data == spec_compressed(x, level, dict) && data.len() >= 4
            && data.subrange(0, 4) == spec_zstd_frame_magic()
    }
}

/// Whether `e` is an extraction error carrying `msg`.
pub open spec fn is_extraction_error_with(e: GitkaError, msg: Seq<char>) -> bool {
    e matches GitkaError::Extraction(m) && m@ == msg
}

/// The message of a payload that does not decompress.
pub open spec fn msg_decompress() -> Seq<char> {
    "Decompression failed"@
}

/// Reads the uncompressed entry stream of a part file, decoding with the
/// dictionary when given. A part made of a zstd frame of `x` (with the
/// same dictionary), with or without the header in front, reads back as
/// `x`.
pub fn read_part_stream(data: &[u8], dict: Option<&[u8]>) -> (r: Result<Vec<u8>, GitkaError>)
    ensures
        match spec_part_stream(data@, spec_dict_view(dict)) {
            Err(msg) => r matches Err(e) && is_compression_error(e, msg),
            Ok(Some(x)) => r matches Ok(v) && v@ == x,
            Ok(None) => r matches Err(e) && is_extraction_error_with(e, msg_decompress()),
        },
        forall|n: nat, x: Seq<u8>, level: i32|
            #[trigger] spec_plain_part(n, x, level, spec_dict_view(dict), data@)
            ==> spec_part_stream(data@, spec_dict_view(dict)) == Ok::<Option<Seq<u8>>, Seq<char>>(Some(x)),
{
    let payload = archive_payload(data)?;
    let decoded = decompress_bytes(payload, dict);
    proof {
        let dv = spec_dict_view(dict);
        assert forall|n: nat, x: Seq<u8>, level: i32| #[trigger] spec_plain_part(n, x, level, dv, data@)
            implies spec_part_stream(data@, dv) == Ok::<Option<Seq<u8>>, Seq<char>>(Some(x)) by {
            if n == 1 {
                assert(data@.subrange(0, 5) =~= spec_archive_magic());
                assert(data@.subrange(12, data@.len() as int) =~= spec_compressed(x, level, dv));
            } else {
                assert(data@[0] == data@.subrange(0, 4)[0]);
                if data@.len() >= 12 {
                    assert(data@[0] == data@.subrange(0, 5)[0]);
                    assert(data@.subrange(0, 5) != spec_archive_magic());
                }
            }
            assert(payload@ == spec_compressed(x, level, dv));
        }
    }
    match decoded {
        Some(v) => Ok(v),
        None => {
            proof { reveal_strlit("Decompression failed"); }
            Err(GitkaError::Extraction("Decompression failed".to_owned()))
        },
    }
}

/// The records of a part file.
pub open spec fn spec_part_entries(data: Seq<u8>, dict: Option<Seq<u8>>) -> Option<Seq<EntryView>> {
    match spec_part_stream(data, dict) {
        Ok(Some(x)) => spec_parse_stream(x),
        _ => None,
    }
}

/// Reads and decodes every record of a part file.
pub fn decode_part(data: &[u8], dict: Option<&[u8]>) -> (r: Result<Vec<ArchiveEntry>, GitkaError>)
    ensures
        match spec_part_stream(data@, spec_dict_view(dict)) {
            Err(msg) => r matches Err(e) && is_compression_error(e, msg),
            Ok(None) => r matches Err(e) && is_extraction_error_with(e, msg_decompress()),
            Ok(Some(x)) => match spec_parse_stream(x) {
                Some(es) => r matches Ok(v) && v@.map_values(|e: ArchiveEntry| e@) == es,
                None => r matches Err(e) && e is Extraction,
            },
        },
        forall|n: nat, x: Seq<u8>, level: i32|
            #[trigger] spec_plain_part(n, x, level, spec_dict_view(dict), data@)
            ==> spec_part_stream(data@, spec_dict_view(dict)) == Ok::<Option<Seq<u8>>, Seq<char>>(Some(x)),
{
    let stream = read_part_stream(data, dict)?;
    decode_stream(stream.as_slice())
}

/// Checks that a part file has a supported header, if any, and that its
/// payload decompresses (with the dictionary when given); failures name
/// the part.
pub fn verify_part(part_path: &str, data: &[u8], dict: Option<&[u8]>) -> (r: Result<(), GitkaError>)
    ensures
        match spec_part_stream(data@, spec_dict_view(dict)) {
            Ok(Some(_)) => r is Ok,
            Ok(None) => r matches Err(GitkaError::VerificationFailed(p, m))
                && p@ == part_path@ && m@ == msg_decompress(),
            Err(msg) => r matches Err(GitkaError::VerificationFailed(p, m))
                && p@ == part_path@ && m@ == "Compression error: "@ + msg,
        },
{
    match read_part_stream(data, dict) {
        Ok(_) => Ok(()),
        Err(e) => {
            let m = match e {
                GitkaError::Extraction(m) => m,
                other => other.message(),
            };
            Err(GitkaError::VerificationFailed(part_path.to_owned(), m))
        },
    }
}

/// The outcome of looking for the content record at an offset of a part's
/// entry stream.
pub enum RawLookup {
    /// The content of the record that starts at the offset.
    Found(Seq<u8>),
    /// The record at the offset holds this many bytes, not the expected number.
    Mismatch(u64),
    /// The stream ends before a content record starts at the offset.
    NotFound,
    /// A record is cut short.
    Truncated,
}

/// Walks the records from `pos`, counting every record's bytes, until the
/// content record that starts at `offset`.
pub open spec fn spec_find_raw(s: Seq<u8>, pos: int, offset: u64, length: u64) -> RawLookup
    decreases s.len() - pos,
{
    if pos < 0 || s.len() < pos + 4 {
        RawLookup::NotFound
    } else {
        let mpos = pos + 4 + u32_at(s, pos);
        if s.len() < mpos + 1 {
            RawLookup::Truncated
        } else if s[mpos] == DEDUP_MARKER {
            let hpos = mpos + 1;
            if s.len() < hpos + 4 {
                RawLookup::Truncated
            } else {
                let next = hpos + 4 + u32_at(s, hpos) + 8;
                if s.len() < next {
                    RawLookup::Truncated
                } else {
                    spec_find_raw(s, next, offset, length)
                }
            }
        } else {
            let cpos = mpos + 1;
            if s.len() < cpos + 8 {
                RawLookup::Truncated
            } else {
                let cl = u64_at(s, cpos);
                let cend = cpos + 8 + cl;
                if pos == offset {
                    if cl != length {
                        RawLookup::Mismatch(cl as u64)
                    } else if s.len() < cend {
                        RawLookup::Truncated
                    } else {
                        RawLookup::Found(s.subrange(cpos + 8, cend))
                    }
                } else if s.len() < cend {
                    RawLookup::Truncated
                } else {
                    spec_find_raw(s, cend, offset, length)
                }
            }
        }
    }
}

/// Where a whole record starts, the lookup either steps over it or, for
/// the content record at the offset, gives its content.
proof fn lemma_find_raw_step(s: Seq<u8>, pos: int, offset: u64, length: u64)
    requires
        spec_parse_entry_at(s, pos) is Some,
    ensures
        ({
            let (e, next) = spec_parse_entry_at(s, pos).unwrap();
            match e {
                EntryView::DedupRef(_, _) => spec_find_raw(s, pos, offset, length)
                    == spec_find_raw(s, next, offset, length),
                EntryView::Raw(_, c) => if pos == offset {
                    c.len() == length ==> spec_find_raw(s, pos, offset, length) == RawLookup::Found(c)
                } else {
                    spec_find_raw(s, pos, offset, length) == spec_find_raw(s, next, offset, length)
                },
            }
        }),
{
}

/// Looking up, from the start of record `j`, the offset at which content
/// record `idx` starts finds that record's content.
proof fn lemma_find_raw_from(es: Seq<EntryView>, j: int, idx: int)
    requires
        0 <= j <= idx < es.len(),
        forall|i: int| 0 <= i < es.len() ==> encodable(#[trigger] es[i]),
        es[idx] is Raw,
        spec_encode_entries(es.take(idx)).len() <= u64::MAX,
    ensures
        ({
            let c = es[idx]->Raw_1;
            spec_find_raw(spec_encode_entries(es), spec_encode_entries(es.take(j)).len() as int,
                spec_encode_entries(es.take(idx)).len() as u64, c.len() as u64) == RawLookup::Found(c)
        }),
    decreases idx - j,
{
    let s = spec_encode_entries(es);
    let off = spec_encode_entries(es.take(j)).len() as int;
    let k = j + 1;
    let e = es[j];
    lemma_encode_prefix(es, k);
    lemma_encode_prefix(es, j);
    assert(es.take(k).drop_last() =~= es.take(j));
    assert(es.take(k).last() == e);
    let next = spec_encode_entries(es.take(k)).len() as int;
    assert(spec_encode_entries(es.take(k)) == spec_encode_entries(es.take(j)) + spec_encode_entry(e));
    assert(s.subrange(off, next) =~= spec_encode_entry(e)) by {
        assert forall|m: int| 0 <= m < next - off implies s.subrange(off, next)[m] == spec_encode_entry(e)[m] by {
            assert(s.subrange(0, next)[off + m] == s[off + m]);
            assert(spec_encode_entries(es.take(k))[off + m] == spec_encode_entry(e)[m]);
        }
    }
    lemma_parse_encoded_entry(s, off, e);
    lemma_parse_entry_advances(s, off);
    let target = spec_encode_entries(es.take(idx)).len() as u64;
    let c = es[idx]->Raw_1;
    assert(c.len() <= u64::MAX);
    lemma_find_raw_step(s, off, target, c.len() as u64);
    if j < idx {
        lemma_encode_prefix(es.take(idx), k);
        assert(es.take(idx).take(k) =~= es.take(k));
        assert(off < target);
        lemma_find_raw_from(es, k, idx);
    } else {
        assert(off == target);
    }
}

/// A content record written after the records `es.take(idx)` is found, by
/// its content length, at the offset where those records end: reading at
/// a recorded offset gives back the content written there.
pub proof fn lemma_find_raw_encoded(es: Seq<EntryView>, idx: int)
    requires
        0 <= idx < es.len(),
        forall|i: int| 0 <= i < es.len() ==> encodable(#[trigger] es[i]),
        es[idx] is Raw,
        spec_encode_entries(es.take(idx)).len() <= u64::MAX,
    ensures
        spec_find_raw(spec_encode_entries(es), 0, spec_encode_entries(es.take(idx)).len() as u64,
            es[idx]->Raw_1.len() as u64) == RawLookup::Found(es[idx]->Raw_1),
{
    assert(es.take(0) =~= Seq::<EntryView>::empty());
    lemma_find_raw_from(es, 0, idx);
}

/// The message of a record cut short.
pub open spec fn msg_truncated() -> Seq<char> {
    "Read error: truncated entry"@
}

/// The message of a record whose length is not the referenced one.
pub open spec fn msg_length_mismatch(expected: u64, found: u64) -> Seq<char> {
    "Dedup reference length mismatch: expected "@ + spec_decimal(expected as nat) + ", found "@
        + spec_decimal(found as nat)
}

/// The message of an offset at which no content record starts.
pub open spec fn msg_not_located(offset: u64, source: Seq<char>) -> Seq<char> {
    "Unable to locate dedup source content at offset "@ + spec_decimal(offset as nat) + " in "@ + source
}

/// Reads the content that a dedup reference points at: the content record
/// starting at `offset` of the entry stream of the part named `source`,
/// which must hold `length` bytes.
pub fn find_raw_content(stream: &[u8], offset: u64, length: u64, source: &str) -> (r: Result<Vec<u8>, GitkaError>)
    ensures
        match spec_find_raw(stream@, 0, offset, length) {
            RawLookup::Found(c) => r matches Ok(v) && v@ == c,
            RawLookup::Mismatch(found) => r matches Err(e)
                && is_extraction_error_with(e, msg_length_mismatch(length, found)),
            RawLookup::NotFound => r matches Err(e)
                && is_extraction_error_with(e, msg_not_located(offset, source@)),
            RawLookup::Truncated => r matches Err(e) && is_extraction_error_with(e, msg_truncated()),
        },
{
    let len = stream.len();
    let mut pos: usize = 0;
    while len >= 4 && pos <= len - 4
        invariant
            len == stream@.len(),
            pos <= len,
            spec_find_raw(stream@, 0, offset, length) == spec_find_raw(stream@, pos as int, offset, length),
        decreases len - pos,
    {
        let pl = u32_from_le_bytes(slice_subrange(stream, pos, pos + 4)) as usize;
        if pl > len - pos - 4 || len - pos - 4 - pl < 1 {
            proof { reveal_strlit("Read error: truncated entry"); }
            return Err(GitkaError::Extraction("Read error: truncated entry".to_owned()));
        }
        let mpos = pos + 4 + pl;
        if stream[mpos] == DEDUP_MARKER {
            let hpos = mpos + 1;
            if len - hpos < 4 {
                proof { reveal_strlit("Read error: truncated entry"); }
                return Err(GitkaError::Extraction("Read error: truncated entry".to_owned()));
            }
            let hl = u32_from_le_bytes(slice_subrange(stream, hpos, hpos + 4)) as usize;
            if hl > len - hpos - 4 || len - hpos - 4 - hl < 8 {
                proof { reveal_strlit("Read error: truncated entry"); }
                return Err(GitkaError::Extraction("Read error: truncated entry".to_owned()));
            }
            pos = hpos + 4 + hl + 8;
        } else {
            let cpos = mpos + 1;
            if len - cpos < 8 {
                proof { reveal_strlit("Read error: truncated entry"); }
                return Err(GitkaError::Extraction("Read error: truncated entry".to_owned()));
            }
            let cl = u64_from_le_bytes(slice_subrange(stream, cpos, cpos + 8));
            if pos as u64 == offset {
                if cl != length {
                    let mut m = "Dedup reference length mismatch: expected ".to_owned();
                    push_decimal(&mut m, length);
                    push_str(&mut m, ", found ");
                    push_decimal(&mut m, cl);
                    proof {
                        reveal_strlit("Dedup reference length mismatch: expected ");
                        reveal_strlit(", found ");
                        assert(m@ =~= msg_length_mismatch(length, cl));
                    }
                    return Err(GitkaError::Extraction(m));
                }
                if cl > (len - cpos - 8) as u64 {
                    proof { reveal_strlit("Read error: truncated entry"); }
                    return Err(GitkaError::Extraction("Read error: truncated entry".to_owned()));
                }
                let cend = cpos + 8 + cl as usize;
                return Ok(slice_to_vec(slice_subrange(stream, cpos + 8, cend)));
            }
            if cl > (len - cpos - 8) as u64 {
                proof { reveal_strlit("Read error: truncated entry"); }
                return Err(GitkaError::Extraction("Read error: truncated entry".to_owned()));
            }
            pos = cpos + 8 + cl as usize;
        }
    }
    let mut m = "Unable to locate dedup source content at offset ".to_owned();
    push_decimal(&mut m, offset);
    push_str(&mut m, " in ");
    push_str(&mut m, source);
    proof {
        reveal_strlit("Unable to locate dedup source content at offset ");
        reveal_strlit(" in ");
        assert(m@ =~= msg_not_located(offset, source@));
    }
    Err(GitkaError::Extraction(m))
}

/// The content bytes of the records, added up.
pub open spec fn spec_raw_total(es: Seq<EntryView>) -> nat
    decreases es.len(),
{
    if es.len() == 0 {
        0
    } else {
        spec_raw_total(es.drop_last()) + match es.last() {
            EntryView::Raw(_, c) => c.len(),
            EntryView::DedupRef(_, _) => 0,
        }
    }
}

/// The bytes of content the records hold, saturating at `u64::MAX`.
pub fn raw_total(entries: &Vec<ArchiveEntry>) -> (r: u64)
    ensures
        r == if spec_raw_total(entries@.map_values(|e: ArchiveEntry| e@)) > u64::MAX {
            u64::MAX as nat
        } else {
            spec_raw_total(entries@.map_values(|e: ArchiveEntry| e@))
        },
{
    let ghost views = entries@.map_values(|e: ArchiveEntry| e@);
    let mut total: u64 = 0;
    let mut i: usize = 0;
    while i < entries.len()
        invariant
            i <= entries@.len(),
            views == entries@.map_values(|e: ArchiveEntry| e@),
            total == if spec_raw_total(views.take(i as int)) > u64::MAX {
                u64::MAX as nat
            } else {
                spec_raw_total(views.take(i as int))
            },
        decreases entries@.len() - i,
    {
        proof {
            assert(views.take(i as int + 1).drop_last() =~= views.take(i as int));
            assert(views.take(i as int + 1).last() == entries@[i as int]@);
        }
        match &entries[i].body {
            EntryBody::Raw(c) => {
                total = total.saturating_add(c.len() as u64);
            },
            EntryBody::DedupRef(_) => {},
        }
        i = i + 1;
    }
    proof { assert(views.take(entries@.len() as int) =~= views); }
    total
}

/// Files larger than this are not used to train a dictionary.
pub const MAX_SAMPLE_FILE: u64 = 10485760;

/// The dictionary `zstd::dict::from_samples` trains from `samples`, at most
/// `max_size` bytes long; `None` when training fails.
pub uninterp spec fn spec_zstd_train(samples: Seq<Seq<u8>>, max_size: usize) -> Option<Seq<u8>>;

/// `zstd::dict::from_samples`: trains a dictionary from the samples, which
/// depends on the samples and the size limit alone; on failure, the text
/// of zstd's error, of which nothing is said.
#[verifier::external_body]
fn zstd_train(samples: &Vec<Vec<u8>>, max_size: usize) -> (r: Result<Vec<u8>, String>)
    ensures
        match r {
            Ok(d) => spec_zstd_train(samples@.map_values(|v: Vec<u8>| v@), max_size) == Some(d@),
            Err(_) => spec_zstd_train(samples@.map_values(|v: Vec<u8>| v@), max_size) is None,
        },
{
    zstd::dict::from_samples(samples, max_size).map_err(|e| e.to_string())
}

/// The files gathered to train a dictionary, up to four times its size.
pub struct SampleSet {
    samples: Vec<Vec<u8>>,
    total: usize,
    max_dict_size: usize,
    max_sample_bytes: usize,
}

/// The message when no file could serve as a sample.
pub open spec fn msg_no_samples() -> Seq<char> {
    "No suitable files found for dictionary training"@
}

/// The message when training fails.
pub open spec fn msg_training_failed(reason: Seq<char>) -> Seq<char> {
    "Dictionary training failed: "@ + reason
}

impl SampleSet {
    pub closed spec fn spec_samples(&self) -> Seq<Seq<u8>> {
        self.samples@.map_values(|v: Vec<u8>| v@)
    }

    pub closed spec fn spec_total(&self) -> nat {
        self.total as nat
    }

    pub closed spec fn spec_max_dict_size(&self) -> usize {
        self.max_dict_size
    }

    pub closed spec fn spec_limit(&self) -> nat {
        self.max_sample_bytes as nat
    }

    /// An empty set for a dictionary of `dict_size_mb` megabytes.
    pub fn new(dict_size_mb: u32) -> (r: SampleSet)
        requires
            dict_size_mb * 4194304 <= usize::MAX,
        ensures
            r.spec_samples() == Seq::<Seq<u8>>::empty(),
            r.spec_total() == 0,
            r.spec_max_dict_size() == dict_size_mb * 1048576,
            r.spec_limit() == dict_size_mb * 4194304,
    {
        let max_dict_size = (dict_size_mb as usize) * 1048576;
        let r = SampleSet { samples: Vec::new(), total: 0, max_dict_size, max_sample_bytes: max_dict_size * 4 };
        assert(r.samples@.map_values(|v: Vec<u8>| v@) =~= Seq::<Seq<u8>>::empty());
        r
    }

    /// Whether a file of `len` bytes may serve as a sample: neither empty nor
    /// over ten megabytes.
    pub fn is_candidate(len: u64) -> (r: bool)
        ensures
            r == (len != 0 && len <= MAX_SAMPLE_FILE),
    {
        len != 0 && len <= MAX_SAMPLE_FILE
    }

    /// Whether enough sample bytes have been gathered.
    pub fn is_full(&self) -> (r: bool)
        ensures
            r == (self.spec_total() >= self.spec_limit()),
    {
        self.total >= self.max_sample_bytes
    }

    /// Adds a sample; returns whether enough bytes have now been gathered.
    pub fn add(&mut self, sample: Vec<u8>) -> (full: bool)
        ensures
            final(self).spec_samples() == old(self).spec_samples().push(sample@),
            final(self).spec_total() == if old(self).spec_total() + sample@.len() > usize::MAX {
                usize::MAX as nat
            } else {
                old(self).spec_total() + sample@.len()
            },
            final(self).spec_max_dict_size() == old(self).spec_max_dict_size(),
            final(self).spec_limit() == old(self).spec_limit(),
            full == (final(self).spec_total() >= final(self).spec_limit()),
    {
        self.total = self.total.saturating_add(sample.len());
        let ghost before = self.samples@;
        let ghost sv = sample@;
        self.samples.push(sample);
        proof {
            assert(self.samples@.map_values(|v: Vec<u8>| v@)
                =~= before.map_values(|v: Vec<u8>| v@).push(sv));
        }
        self.total >= self.max_sample_bytes
    }

    /// Trains the dictionary; fails when there are no samples or training
    /// fails.
    pub fn train(&self) -> (r: Result<Vec<u8>, GitkaError>)
        ensures
            self.spec_samples().len() == 0 ==> (r matches Err(e) && is_compression_error(e, msg_no_samples())),
            self.spec_samples().len() > 0 ==> match spec_zstd_train(self.spec_samples(), self.spec_max_dict_size()) {
                Some(d) => r matches Ok(v) && v@ == d,
                None => r matches Err(e) && exists|t: Seq<char>|
                    is_compression_error(e, #[trigger] msg_training_failed(t)),
            },
            r matches Ok(v) ==> spec_usable_dict(v@),
    {
        if self.samples.len() == 0 {
            proof { reveal_strlit("No suitable files found for dictionary training"); }
            return Err(GitkaError::Compression("No suitable files found for dictionary training".to_owned()));
        }
        match zstd_train(&self.samples, self.max_dict_size) {
            Ok(d) => {
                proof {
                    assert(spec_zstd_train(self.spec_samples(), self.spec_max_dict_size()) == Some(d@));
                }
                Ok(d)
            },
            Err(t) => {
                let mut m = "Dictionary training failed: ".to_owned();
                push_str(&mut m, t.as_str());
                proof { assert(is_compression_error(GitkaError::Compression(m), msg_training_failed(t@))); }
                Err(GitkaError::Compression(m))
            },
        }
    }
}

} // verus!
