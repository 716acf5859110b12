use vstd::prelude::*;

use crate::config::CompressionBackend;
use crate::error::GitkaError;
use crate::text::{push_decimal, push_hex_byte_upper, push_str, spec_decimal, spec_hex_byte_upper};

verus! {

/// Current archive format version.
pub const ARCHIVE_VERSION: u8 = 1;

/// Compression method byte of the zstd backend.
pub const COMPRESSION_ZSTD: u8 = 0x01;

/// Size of the archive header in bytes.
pub const HEADER_SIZE: usize = 12;

/// The magic bytes "GITKA".
pub open spec fn spec_archive_magic() -> Seq<u8> {
    seq![0x47u8, 0x49u8, 0x54u8, 0x4bu8, 0x41u8]
}

/// Returns the magic bytes "GITKA".
pub fn archive_magic() -> (m: [u8; 5])
    ensures
        m@ == spec_archive_magic(),
{
    let m: [u8; 5] = [0x47, 0x49, 0x54, 0x4b, 0x41];
    assert(m@ =~= spec_archive_magic());
    m
}

/// The 12-byte header at the start of the first part of every archive.
#[derive(Debug, Clone, Copy)]
pub struct ArchiveHeader {
    pub magic: [u8; 5],
    pub version: u8,
    pub compression_method: u8,
    pub reserved: [u8; 5],
}

/// The header layout: magic, version, method, reserved.
pub open spec fn spec_header_bytes(h: ArchiveHeader) -> Seq<u8> {
    h.magic@ + seq![h.version, h.compression_method] + h.reserved@
}

impl ArchiveHeader {
    /// A header for zstd compression.
    pub fn new_zstd() -> (h: ArchiveHeader)
        ensures
            h.magic@ == spec_archive_magic(),
            h.version == ARCHIVE_VERSION,
            h.compression_method == COMPRESSION_ZSTD,
            h.reserved@ == seq![0u8, 0u8, 0u8, 0u8, 0u8],
    {
        Self::new(COMPRESSION_ZSTD)
    }

    /// A header for the given compression method.
    pub fn new(compression_method: u8) -> (h: ArchiveHeader)
        ensures
            h.magic@ == spec_archive_magic(),
            h.version == ARCHIVE_VERSION,
            h.compression_method == compression_method,
            h.reserved@ == seq![0u8, 0u8, 0u8, 0u8, 0u8],
    {
        let reserved: [u8; 5] = [0, 0, 0, 0, 0];
        assert(reserved@ =~= seq![0u8, 0u8, 0u8, 0u8, 0u8]);
        ArchiveHeader {
            magic: archive_magic(),
            version: ARCHIVE_VERSION,
            compression_method,
            reserved,
        }
    }

    /// Serializes the header to its 12 bytes.
    pub fn to_bytes(&self) -> (b: [u8; 12])
        ensures
            b@ == spec_header_bytes(*self),
    {
        let m = self.magic;
        let r = self.reserved;
        let b: [u8; 12] = [
            m[0], m[1], m[2], m[3], m[4],
            self.version, self.compression_method,
            r[0], r[1], r[2], r[3], r[4],
        ];
        assert(b@ =~= spec_header_bytes(*self));
        b
    }
}

/// The message of a header whose magic bytes are wrong.
pub open spec fn msg_bad_magic() -> Seq<char> {
    "Invalid archive: bad magic bytes"@
}

/// The message of a header whose version is newer than this reader.
pub open spec fn msg_bad_version(v: u8) -> Seq<char> {
    "Unsupported archive version: "@ + spec_decimal(v as nat)
}

/// The message of a header whose compression method is unknown.
pub open spec fn msg_bad_method(m: u8) -> Seq<char> {
    "Unsupported compression method: 0x"@ + spec_hex_byte_upper(m)
}

/// Whether `e` is a compression error carrying `msg`.
pub open spec fn is_compression_error(e: GitkaError, msg: Seq<char>) -> bool {
    e matches GitkaError::Compression(m) && m@ == msg
}

/// Validation of version and compression method: a version newer than
/// this reader's fails first, then a method other than zstd.
pub open spec fn spec_version_method_error(version: u8, method: u8) -> Option<Seq<char>> {
    if version > ARCHIVE_VERSION {
        Some(msg_bad_version(version))
    } else if method != COMPRESSION_ZSTD {
        Some(msg_bad_method(method))
    } else {
        None
    }
}

/// What `validate` decides for a header: the first failing check, if any.
pub open spec fn spec_validation_error(h: ArchiveHeader) -> Option<Seq<char>> {
    if h.magic@ != spec_archive_magic() {
        Some(msg_bad_magic())
    } else {
        spec_version_method_error(h.version, h.compression_method)
    }
}

/// Whether five bytes are the archive magic.
pub fn is_archive_magic(b: &[u8]) -> (r: bool)
    requires
        b@.len() >= 5,
    ensures
        r == (b@.subrange(0, 5) == spec_archive_magic()),
{
    let r = b[0] == 0x47 && b[1] == 0x49 && b[2] == 0x54 && b[3] == 0x4b && b[4] == 0x41;
    proof {
        if r {
            assert(b@.subrange(0, 5) =~= spec_archive_magic());
        } else {
            if b@.subrange(0, 5) == spec_archive_magic() {
                assert(b@.subrange(0, 5)[0] == b@[0]);
                assert(b@.subrange(0, 5)[1] == b@[1]);
                assert(b@.subrange(0, 5)[2] == b@[2]);
                assert(b@.subrange(0, 5)[3] == b@[3]);
                assert(b@.subrange(0, 5)[4] == b@[4]);
            }
        }
    }
    r
}

fn compression_error(msg: &str) -> (e: GitkaError)
    ensures
        is_compression_error(e, msg@),
{
    GitkaError::Compression(msg.to_owned())
}

fn bad_version_error(v: u8) -> (e: GitkaError)
    ensures
        is_compression_error(e, msg_bad_version(v)),
{
    let mut m = "Unsupported archive version: ".to_owned();
    push_decimal(&mut m, v as u64);
    GitkaError::Compression(m)
}

fn bad_method_error(method: u8) -> (e: GitkaError)
    ensures
        is_compression_error(e, msg_bad_method(method)),
{
    let mut m = "Unsupported compression method: 0x".to_owned();
    push_hex_byte_upper(&mut m, method);
    GitkaError::Compression(m)
}

impl ArchiveHeader {
    /// Parses a header from its 12 bytes; fails when the magic is wrong.
    pub fn from_bytes(bytes: &[u8; 12]) -> (r: Result<ArchiveHeader, GitkaError>)
        ensures
            match r {
                Ok(h) => bytes@.subrange(0, 5) == spec_archive_magic() && spec_header_bytes(h) == bytes@,
                Err(e) => bytes@.subrange(0, 5) != spec_archive_magic()
                    && is_compression_error(e, msg_bad_magic()),
            },
    {
        let b = bytes;
        if !is_archive_magic(b.as_slice()) {
            return Err(compression_error("Invalid archive: bad magic bytes"));
        }
        let magic: [u8; 5] = [b[0], b[1], b[2], b[3], b[4]];
        let reserved: [u8; 5] = [b[7], b[8], b[9], b[10], b[11]];
        let h = ArchiveHeader { magic, version: b[5], compression_method: b[6], reserved };
        assert(spec_header_bytes(h) =~= bytes@);
        Ok(h)
    }

    /// Checks magic, version and compression method, in that order.
    pub fn validate(&self) -> (r: Result<(), GitkaError>)
        ensures
            match spec_validation_error(*self) {
                None => r is Ok,
                Some(msg) => r matches Err(e) && is_compression_error(e, msg),
            },
    {
        if !is_archive_magic(self.magic.as_slice()) {
            proof { assert(self.magic@.subrange(0, 5) =~= self.magic@); }
            return Err(compression_error("Invalid archive: bad magic bytes"));
        }
        proof { assert(self.magic@.subrange(0, 5) =~= self.magic@); }
        if self.version > ARCHIVE_VERSION {
            return Err(bad_version_error(self.version));
        }
        if self.compression_method == COMPRESSION_ZSTD {
            Ok(())
        } else {
            Err(bad_method_error(self.compression_method))
        }
    }

    /// The compression backend named by the method byte.
    pub fn compression_backend(&self) -> (r: Result<CompressionBackend, GitkaError>)
        ensures
            self.compression_method == COMPRESSION_ZSTD ==> r == Ok::<CompressionBackend, GitkaError>(CompressionBackend::Zstd),
            self.compression_method != COMPRESSION_ZSTD ==> (r matches Err(e)
                && is_compression_error(e, msg_bad_method(self.compression_method))),
    {
        if self.compression_method == COMPRESSION_ZSTD {
            Ok(CompressionBackend::Zstd)
        } else {
            Err(bad_method_error(self.compression_method))
        }
    }
}

/// An archive: where it lives and its parsed header.
pub struct Archive {
    /// Path to the archive file.
    pub path: String,
    /// The parsed header.
    pub header: ArchiveHeader,
}

impl Archive {
    /// Opens an archive from the first 12 bytes of its file: the header
    /// must parse and validate.
    pub fn from_header_bytes(path: String, bytes: &[u8; 12]) -> (r: Result<Archive, GitkaError>)
        ensures
            bytes@.subrange(0, 5) != spec_archive_magic() ==> (r matches Err(e)
                && is_compression_error(e, msg_bad_magic())),
            bytes@.subrange(0, 5) == spec_archive_magic() ==> match spec_version_method_error(bytes@[5], bytes@[6]) {
                None => r matches Ok(a) && a.path == path && spec_header_bytes(a.header) == bytes@,
                Some(msg) => r matches Err(e) && is_compression_error(e, msg),
            },
    {
        let header = ArchiveHeader::from_bytes(bytes)?;
        proof {
            let hb = spec_header_bytes(header);
            assert(hb[5] == header.version);
            assert(hb[6] == header.compression_method);
            assert(hb.subrange(0, 5) =~= header.magic@);
        }
        header.validate()?;
        Ok(Archive { path, header })
    }

    /// A new zstd archive at `path`, with the header its file starts with.
    pub fn create_zstd(path: String) -> (r: Archive)
        ensures
            r.path == path,
            r.header.magic@ == spec_archive_magic(),
            r.header.version == ARCHIVE_VERSION,
            r.header.compression_method == COMPRESSION_ZSTD,
            r.header.reserved@ == seq![0u8, 0u8, 0u8, 0u8, 0u8],
    {
        Archive { path, header: ArchiveHeader::new_zstd() }
    }

    /// Whether this reader understands the archive's version.
    pub fn is_compatible(&self) -> (r: bool)
        ensures
            r == (self.header.version <= ARCHIVE_VERSION),
    {
        self.header.version <= ARCHIVE_VERSION
    }
}

/// The method byte of a compression backend.
pub fn compression_method_byte(backend: &CompressionBackend) -> (r: u8)
    ensures
        r == COMPRESSION_ZSTD,
{
    match backend {
        CompressionBackend::Zstd => COMPRESSION_ZSTD,
    }
}

/// The file extension of archives compressed with `method`.
pub fn archive_extension(method: u8) -> (r: &'static str)
    ensures
        method == COMPRESSION_ZSTD ==> r@ == ".gitka.zst"@,
        method != COMPRESSION_ZSTD ==> r@ == ".gitka"@,
{
    if method == COMPRESSION_ZSTD {
        ".gitka.zst"
    } else {
        ".gitka"
    }
}

/// Whether a header parsed from bytes reproduces those bytes and each of
/// its fields, so that a written header reads back as written.
pub proof fn lemma_header_roundtrip(h: ArchiveHeader)
    requires
        h.magic@ == spec_archive_magic(),
    ensures
        spec_header_bytes(h).subrange(0, 5) == spec_archive_magic(),
        forall|h2: ArchiveHeader| spec_header_bytes(h2) == spec_header_bytes(h) ==> h2 == h,
{
    assert(spec_header_bytes(h).subrange(0, 5) =~= h.magic@);
    assert forall|h2: ArchiveHeader| spec_header_bytes(h2) == spec_header_bytes(h) implies h2 == h by {
        let b = spec_header_bytes(h);
        assert(h2.magic@ =~= b.subrange(0, 5));
        assert(h.magic@ =~= b.subrange(0, 5));
        assert(h2.reserved@ =~= b.subrange(7, 12));
        assert(h.reserved@ =~= b.subrange(7, 12));
        assert(h2.version == b[5]);
        assert(h2.compression_method == b[6]);
        assert(h2.magic == h.magic);
        assert(h2.reserved == h.reserved);
    }
}

} // verus!
