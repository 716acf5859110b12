//! Per-part AES-256-GCM encryption and password-based key derivation.
use vstd::prelude::*;
use vstd::bytes::{spec_u32_to_le_bytes, u32_to_le_bytes};
use vstd::slice::{slice_subrange, slice_to_vec};
use vstd::utf8::encode_utf8;
use aes_gcm::aead::{Aead, KeyInit};

use crate::error::GitkaError;
use crate::hashing::{sha256, spec_sha256};
use crate::text::spec_decimal;

verus! {

/// An AES-256 key.
pub type EncryptionKey = [u8; 32];

/// Size of the encryption header in bytes.
pub const ENCRYPTION_HEADER_SIZE: usize = 18;

/// Number of hashing rounds of the key derivation.
pub const KDF_ROUNDS: u32 = 10000;

/// The magic bytes "GKENC".
pub open spec fn spec_enc_magic() -> Seq<u8> {
    seq![0x47u8, 0x4Bu8, 0x45u8, 0x4Eu8, 0x43u8]
}

/// The header in front of every encrypted file.
#[derive(Debug, Clone, Copy)]
pub struct EncryptionHeader {
    /// "GKENC".
    pub magic: [u8; 5],
    /// Format version, 1.
    pub version: u8,
    /// The nonce the file was encrypted with.
    pub nonce: [u8; 12],
}

/// The header layout: magic, version, nonce.
pub open spec fn spec_enc_header_bytes(h: EncryptionHeader) -> Seq<u8> {
    h.magic@ + seq![h.version] + h.nonce@
}

/// The header of a file encrypted with `nonce`.
pub open spec fn spec_header_for(nonce: Seq<u8>) -> Seq<u8> {
    spec_enc_magic() + seq![1u8] + nonce
}

/// `getrandom::fill`: fills `dest` with random bytes; `false` when the
/// system source fails. Nothing is said of the bytes.
#[verifier::external_body]
fn fill_random(dest: &mut [u8]) -> (ok: bool)
    ensures
        final(dest)@.len() == old(dest)@.len(),
{
    getrandom::fill(dest).is_ok()
}

/// The AES-256-GCM encryption of `plaintext` under `key` and `nonce`, tag
/// appended, as `aes_gcm` computes it.
pub uninterp spec fn spec_aes_gcm_seal(key: Seq<u8>, nonce: Seq<u8>, plaintext: Seq<u8>) -> Seq<u8>;

/// The longest plaintext AES-GCM encrypts, in bytes (`aes_gcm::P_MAX`).
pub const GCM_MAX_PLAINTEXT: u64 = 68719476704;

/// `Aes256Gcm::encrypt`, with the cipher made from the key: the ciphertext
/// followed by its 16-byte tag. It fails only for a plaintext longer than
/// GCM allows.
#[verifier::external_body]
fn aes_gcm_seal(key: &[u8; 32], nonce: &[u8; 12], plaintext: &[u8]) -> (r: Option<Vec<u8>>)
    ensures
        r matches Some(c) ==> c@ == spec_aes_gcm_seal(key@, nonce@, plaintext@),
        r matches Some(c) ==> c@.len() == plaintext@.len() + 16,
        plaintext@.len() <= GCM_MAX_PLAINTEXT <==> r is Some,
{
    aes_gcm::Aes256Gcm::new(&(*key).into()).encrypt(&(*nonce).into(), plaintext).ok()
}

/// `Aes256Gcm::decrypt`, with the cipher made from the key. Decryption
/// succeeds exactly on the encryption, under this key and nonce, of some
/// plaintext no longer than GCM allows, and then gives that plaintext back.
#[verifier::external_body]
fn aes_gcm_open(key: &[u8; 32], nonce: &[u8; 12], ciphertext: &[u8]) -> (r: Option<Vec<u8>>)
    ensures
        r matches Some(p) ==> ciphertext@ == spec_aes_gcm_seal(key@, nonce@, p@)
            && p@.len() <= GCM_MAX_PLAINTEXT,
        r matches Some(p) ==> forall|q: Seq<u8>| q.len() <= GCM_MAX_PLAINTEXT
            && #[trigger] spec_aes_gcm_seal(key@, nonce@, q) == ciphertext@ ==> q == p@,
        r is None ==> forall|p: Seq<u8>| p.len() <= GCM_MAX_PLAINTEXT
            ==> #[trigger] spec_aes_gcm_seal(key@, nonce@, p) != ciphertext@,
{
    aes_gcm::Aes256Gcm::new(&(*key).into()).decrypt(&(*nonce).into(), ciphertext).ok()
}

/// The message of a header with a version other than 1.
pub open spec fn msg_bad_enc_version(v: u8) -> Seq<char> {
    "Unsupported encryption version: "@ + spec_decimal(v as nat)
}

/// Whether `e` is a configuration error carrying `msg`.
pub open spec fn is_config_error(e: GitkaError, msg: Seq<char>) -> bool {
    e matches GitkaError::Config(m) && m@ == msg
}

impl EncryptionHeader {
    /// A header with a fresh random nonce; fails when the system random
    /// source does.
    pub fn new() -> (r: Result<EncryptionHeader, GitkaError>)
        ensures
            r matches Ok(h) ==> h.magic@ == spec_enc_magic() && h.version == 1,
            r matches Err(e) ==> e is Config,
    {
        let mut nonce: [u8; 12] = [0; 12];
        if !fill_random(&mut nonce) {
            return Err(GitkaError::Config("Failed to generate random nonce".to_owned()));
        }
        Ok(Self::with_nonce(nonce))
    }

    /// The header of a file encrypted with `nonce`.
    pub fn with_nonce(nonce: [u8; 12]) -> (h: EncryptionHeader)
        ensures
            h.magic@ == spec_enc_magic(),
            h.version == 1,
            h.nonce == nonce,
            spec_enc_header_bytes(h) == spec_header_for(nonce@),
    {
        let magic: [u8; 5] = [0x47, 0x4B, 0x45, 0x4E, 0x43];
        assert(magic@ =~= spec_enc_magic());
        EncryptionHeader { magic, version: 1, nonce }
    }

    /// The 18 header bytes.
    pub fn to_bytes(&self) -> (b: Vec<u8>)
        ensures
            b@ == spec_enc_header_bytes(*self),
    {
        let mut b: Vec<u8> = Vec::new();
        let mut i: usize = 0;
        while i < 5
            invariant
                i <= 5,
                b@ == self.magic@.take(i as int),
            decreases 5 - i,
        {
            b.push(self.magic[i]);
            proof { assert(self.magic@.take(i as int + 1) =~= self.magic@.take(i as int).push(self.magic@[i as int])); }
            i = i + 1;
        }
        b.push(self.version);
        let ghost mid = b@;
        let mut j: usize = 0;
        while j < 12
            invariant
                j <= 12,
                b@ == mid + self.nonce@.take(j as int),
            decreases 12 - j,
        {
            b.push(self.nonce[j]);
            proof { assert(self.nonce@.take(j as int + 1) =~= self.nonce@.take(j as int).push(self.nonce@[j as int])); }
            j = j + 1;
        }
        proof {
            assert(self.magic@.take(5) =~= self.magic@);
            assert(self.nonce@.take(12) =~= self.nonce@);
            assert(b@ =~= spec_enc_header_bytes(*self));
        }
        b
    }

    /// Parses a header: at least 18 bytes, the magic "GKENC", version 1.
    pub fn from_bytes(bytes: &[u8]) -> (r: Result<EncryptionHeader, GitkaError>)
        ensures
            bytes@.len() < 18 ==> (r matches Err(e) && is_config_error(e, "Header too short"@)),
            bytes@.len() >= 18 && bytes@.subrange(0, 5) != spec_enc_magic() ==> (r matches Err(e)
                && is_config_error(e, "Invalid encryption header magic"@)),
            bytes@.len() >= 18 && bytes@.subrange(0, 5) == spec_enc_magic() && bytes@[5] != 1
                ==> (r matches Err(e) && is_config_error(e, msg_bad_enc_version(bytes@[5]))),
            bytes@.len() >= 18 && bytes@.subrange(0, 5) == spec_enc_magic() && bytes@[5] == 1
                ==> (r matches Ok(h) && spec_enc_header_bytes(h) == bytes@.subrange(0, 18)),
    {
        if bytes.len() < 18 {
            proof { reveal_strlit("Header too short"); }
            return Err(GitkaError::Config("Header too short".to_owned()));
        }
        let magic: [u8; 5] = [bytes[0], bytes[1], bytes[2], bytes[3], bytes[4]];
        assert(magic@ =~= bytes@.subrange(0, 5));
        if !(magic[0] == 0x47 && magic[1] == 0x4B && magic[2] == 0x45 && magic[3] == 0x4E && magic[4] == 0x43) {
            proof {
                reveal_strlit("Invalid encryption header magic");
                assert(magic@ != spec_enc_magic());
            }
            return Err(GitkaError::Config("Invalid encryption header magic".to_owned()));
        }
        assert(magic@ =~= spec_enc_magic());
        let version = bytes[5];
        if version != 1 {
            let mut m = "Unsupported encryption version: ".to_owned();
            crate::text::push_decimal(&mut m, version as u64);
            return Err(GitkaError::Config(m));
        }
        let nonce: [u8; 12] = [
            bytes[6], bytes[7], bytes[8], bytes[9], bytes[10], bytes[11],
            bytes[12], bytes[13], bytes[14], bytes[15], bytes[16], bytes[17],
        ];
        let h = EncryptionHeader { magic, version, nonce };
        assert(spec_enc_header_bytes(h) =~= bytes@.subrange(0, 18));
        Ok(h)
    }
}

/// Whether the first bytes of a file mark it as encrypted: it has a whole
/// header's worth of bytes, starting with "GKENC".
pub open spec fn spec_is_encrypted(data: Seq<u8>) -> bool {
    data.len() >= 18 && data.subrange(0, 5) == spec_enc_magic()
}

/// Whether a file's bytes mark it as encrypted.
pub fn is_encrypted(data: &[u8]) -> (r: bool)
    ensures
        r == spec_is_encrypted(data@),
{
    if data.len() < 18 {
        return false;
    }
    let r = data[0] == 0x47 && data[1] == 0x4B && data[2] == 0x45 && data[3] == 0x4E && data[4] == 0x43;
    proof {
        if r {
            assert(data@.subrange(0, 5) =~= spec_enc_magic());
        } else {
            assert(data@.subrange(0, 5) != spec_enc_magic()) by {
                if data@.subrange(0, 5) == spec_enc_magic() {
                    assert(data@[0] == data@.subrange(0, 5)[0]);
                    assert(data@[1] == data@.subrange(0, 5)[1]);
                    assert(data@[2] == data@.subrange(0, 5)[2]);
                    assert(data@[3] == data@.subrange(0, 5)[3]);
                    assert(data@[4] == data@.subrange(0, 5)[4]);
                }
            }
        }
    }
    r
}

/// The bytes of an encrypted file: the header with `nonce`, then the
/// ciphertext of `data` under `key` and `nonce`.
pub open spec fn spec_sealed(key: Seq<u8>, nonce: Seq<u8>, data: Seq<u8>) -> Seq<u8> {
    spec_header_for(nonce) + spec_aes_gcm_seal(key, nonce, data)
}

/// Encrypts `data` under `key` with the given nonce: header, then
/// ciphertext.
pub fn seal_with_nonce(data: &[u8], key: &EncryptionKey, nonce: [u8; 12]) -> (r: Result<Vec<u8>, GitkaError>)
    ensures
        r matches Ok(v) ==> v@ == spec_sealed(key@, nonce@, data@) && v@.len() == 18 + data@.len() + 16,
        data@.len() <= GCM_MAX_PLAINTEXT <==> r is Ok,
        r matches Err(e) ==> is_config_error(e, "Encryption failed"@),
{
    let header = EncryptionHeader::with_nonce(nonce);
    let mut out = header.to_bytes();
    let mut ct = match aes_gcm_seal(key, &nonce, data) {
        Some(c) => c,
        None => { return Err(GitkaError::Config("Encryption failed".to_owned())); },
    };
    out.append(&mut ct);
    Ok(out)
}

/// Encrypts `data` under `key` with a fresh random nonce.
pub fn encrypt_data(data: &[u8], key: &EncryptionKey) -> (r: Result<Vec<u8>, GitkaError>)
    ensures
        r matches Ok(v) ==> exists|nonce: [u8; 12]| v@ == spec_sealed(key@, nonce@, data@),
        r matches Ok(v) ==> v@.len() == 18 + data@.len() + 16,
        data@.len() > GCM_MAX_PLAINTEXT ==> r is Err,
        r is Ok ==> data@.len() <= GCM_MAX_PLAINTEXT,
        r matches Err(e) ==> e is Config,
{
    let header = EncryptionHeader::new()?;
    seal_with_nonce(data, key, header.nonce)
}

/// The message when a file is too short to hold a header.
pub open spec fn msg_too_small() -> Seq<char> {
    "File too small for encryption header"@
}

/// The message when the key does not open the ciphertext.
pub open spec fn msg_decrypt_failed() -> Seq<char> {
    "Decryption failed (wrong key?)"@
}

/// Decrypts the bytes of an encrypted file. Whatever `seal_with_nonce` or
/// `encrypt_data` made with the same key decrypts to the data it was made
/// of.
pub fn decrypt_data(data: &[u8], key: &EncryptionKey) -> (r: Result<Vec<u8>, GitkaError>)
    ensures
        data@.len() < 18 ==> (r matches Err(e) && is_config_error(e, msg_too_small())),
        data@.len() >= 18 && data@.subrange(0, 5) != spec_enc_magic() ==> (r matches Err(e)
            && is_config_error(e, "Invalid encryption header magic"@)),
        data@.len() >= 18 && data@.subrange(0, 5) == spec_enc_magic() && data@[5] != 1 ==> (r matches Err(e)
            && is_config_error(e, msg_bad_enc_version(data@[5]))),
        data@.len() >= 18 && data@.subrange(0, 5) == spec_enc_magic() && data@[5] == 1 ==> match r {
            Ok(p) => data@.subrange(18, data@.len() as int) == spec_aes_gcm_seal(key@, data@.subrange(6, 18), p@),
            Err(e) => is_config_error(e, msg_decrypt_failed()) && forall|p: Seq<u8>| p.len() <= GCM_MAX_PLAINTEXT
                ==> #[trigger] spec_aes_gcm_seal(key@, data@.subrange(6, 18), p) != data@.subrange(18, data@.len() as int),
        },
        r matches Err(e) ==> e is Config,
        forall|np: (Seq<u8>, Seq<u8>)| np.0.len() == 12 && np.1.len() <= GCM_MAX_PLAINTEXT
            && data@ == #[trigger] spec_sealed(key@, np.0, np.1) ==> (r matches Ok(p) && p@ == np.1),
{
    if data.len() < 18 {
        proof { reveal_strlit("File too small for encryption header"); }
        return Err(GitkaError::Config("File too small for encryption header".to_owned()));
    }
    proof {
        assert forall|np: (Seq<u8>, Seq<u8>)| np.0.len() == 12 && data@ == #[trigger] spec_sealed(key@, np.0, np.1)
            implies data@.subrange(0, 18).subrange(0, 5) == spec_enc_magic() && data@.subrange(0, 18)[5] == 1 by {
            assert(data@.subrange(0, 18).subrange(0, 5) =~= spec_enc_magic());
            assert(data@[5] == 1u8);
        }
    }
    let head = slice_subrange(data, 0, 18);
    proof {
        assert(head@.subrange(0, 5) =~= data@.subrange(0, 5));
        assert(head@[5] == data@[5]);
    }
    let header = EncryptionHeader::from_bytes(head)?;
    proof {
        assert(data@.subrange(0, 18).subrange(0, 5) =~= data@.subrange(0, 5));
        assert(header.nonce@ =~= data@.subrange(6, 18)) by {
            assert(spec_enc_header_bytes(header).subrange(6, 18) =~= header.nonce@);
        }
    }
    let ct = slice_subrange(data, 18, data.len());
    let opened = aes_gcm_open(key, &header.nonce, ct);
    proof {
        assert forall|np: (Seq<u8>, Seq<u8>)| np.0.len() == 12 && np.1.len() <= GCM_MAX_PLAINTEXT
            && data@ == #[trigger] spec_sealed(key@, np.0, np.1)
            implies (opened matches Some(p) && p@ == np.1) by {
            assert(data@.subrange(6, 18) =~= np.0);
            assert(ct@ =~= spec_aes_gcm_seal(key@, np.0, np.1));
        }
    }
    match opened {
        Some(p) => Ok(p),
        None => {
            proof { reveal_strlit("Decryption failed (wrong key?)"); }
            Err(GitkaError::Config("Decryption failed (wrong key?)".to_owned()))
        },
    }
}

/// The digest after `n` rounds of the key derivation chain: round `i`
/// hashes the previous round's digest (none before the first round), the
/// password's UTF-8 bytes, the salt and the little-endian round index.
pub open spec fn spec_kdf_chain(password: Seq<char>, salt: Seq<u8>, n: nat) -> Seq<u8>
    decreases n,
{
    if n == 0 {
        Seq::empty()
    } else {
        spec_sha256(spec_kdf_chain(password, salt, (n - 1) as nat) + encode_utf8(password) + salt
            + spec_u32_to_le_bytes((n - 1) as u32))
    }
}

/// The key derived from a password and salt: the end of the chain of
/// `KDF_ROUNDS` hashing rounds.
pub open spec fn spec_derive_key(password: Seq<char>, salt: Seq<u8>) -> Seq<u8> {
    spec_kdf_chain(password, salt, KDF_ROUNDS as nat)
}

/// Derives a key from a password and salt by a chain of SHA-256 rounds.
pub fn derive_key(password: &str, salt: &[u8]) -> (key: EncryptionKey)
    ensures
        key@ == spec_derive_key(password@, salt@),
{
    let mut key: [u8; 32] = [0; 32];
    let mut i: u32 = 0;
    while i < KDF_ROUNDS
        invariant
            i <= KDF_ROUNDS,
            i > 0 ==> key@ == spec_kdf_chain(password@, salt@, i as nat),
        decreases KDF_ROUNDS - i,
    {
        let mut buf: Vec<u8> = if i == 0 { Vec::new() } else { slice_to_vec(&key) };
        proof {
            if i == 0 {
                assert(buf@ =~= spec_kdf_chain(password@, salt@, 0));
            }
        }
        let mut pw = slice_to_vec(password.as_bytes());
        buf.append(&mut pw);
        let mut s = slice_to_vec(salt);
        buf.append(&mut s);
        let mut le = u32_to_le_bytes(i);
        buf.append(&mut le);
        key = sha256(buf.as_slice());
        i = i + 1;
    }
    key
}

/// A fresh random salt; fails, with a configuration error that says so,
/// only when the system random source does.
pub fn generate_salt() -> (r: Result<[u8; 16], GitkaError>)
    ensures
        r matches Err(e) ==> is_config_error(e, "Failed to generate random salt"@),
{
    let mut salt: [u8; 16] = [0; 16];
    if !fill_random(&mut salt) {
        return Err(GitkaError::Config("Failed to generate random salt".to_owned()));
    }
    Ok(salt)
}

/// The bytes of all parts together.
pub open spec fn spec_total_len(parts: Seq<Seq<u8>>) -> nat
    decreases parts.len(),
{
    if parts.len() == 0 { 0 } else { spec_total_len(parts.drop_last()) + parts.last().len() }
}

/// The views of a list of byte vectors.
pub open spec fn spec_parts_view(parts: Seq<Vec<u8>>) -> Seq<Seq<u8>> {
    parts.map_values(|p: Vec<u8>| p@)
}

/// Whether each of `enc` is the corresponding one of `plain` sealed under
/// `key` with some nonce.
pub open spec fn spec_all_sealed(key: Seq<u8>, enc: Seq<Seq<u8>>, plain: Seq<Seq<u8>>) -> bool {
    &&& plain.len() == enc.len()
    &&& forall|i: int| 0 <= i < enc.len() ==> #[trigger] spec_sealed_some(key, enc[i], plain[i])
}

/// Whether `enc` is `plain`, no longer than GCM allows, sealed under `key`
/// with some nonce.
pub open spec fn spec_sealed_some(key: Seq<u8>, enc: Seq<u8>, plain: Seq<u8>) -> bool {
    &&& plain.len() <= GCM_MAX_PLAINTEXT
    &&& exists|nonce: Seq<u8>| nonce.len() == 12 && enc == #[trigger] spec_sealed(key, nonce, plain)
}

/// Encrypts each volume part on its own, with a nonce of its own, and
/// gives the encrypted parts with their total size (saturating at
/// `u64::MAX`); stops at the first part that fails.
pub fn encrypt_parts(parts: &Vec<Vec<u8>>, key: &EncryptionKey) -> (r: Result<(Vec<Vec<u8>>, u64), GitkaError>)
    ensures
        r matches Ok((enc, total)) ==> {
            &&& spec_all_sealed(key@, spec_parts_view(enc@), spec_parts_view(parts@))
            &&& total == if spec_total_len(spec_parts_view(enc@)) > u64::MAX {
                u64::MAX as nat
            } else {
                spec_total_len(spec_parts_view(enc@))
            }
        },
        r matches Err(e) ==> e is Config,
        parts@.len() == 0 ==> (r matches Ok((enc, total)) && enc@.len() == 0 && total == 0),
{
    let mut out: Vec<Vec<u8>> = Vec::new();
    let mut total: u64 = 0;
    let mut i: usize = 0;
    while i < parts.len()
        invariant
            i <= parts@.len(),
            out@.len() == i,
            spec_all_sealed(key@, spec_parts_view(out@), spec_parts_view(parts@).take(i as int)),
            total == if spec_total_len(spec_parts_view(out@)) > u64::MAX {
                u64::MAX as nat
            } else {
                spec_total_len(spec_parts_view(out@))
            },
        decreases parts@.len() - i,
    {
        let enc = encrypt_data(parts[i].as_slice(), key)?;
        let ghost before = out@;
        total = total.saturating_add(enc.len() as u64);
        out.push(enc);
        proof {
            assert(spec_parts_view(out@).drop_last() =~= spec_parts_view(before));
            let pv = spec_parts_view(parts@).take(i as int + 1);
            assert(pv.drop_last() =~= spec_parts_view(parts@).take(i as int));
            assert forall|k: int| 0 <= k < i + 1 implies
                #[trigger] spec_sealed_some(key@, spec_parts_view(out@)[k], pv[k]) by {
                if k < i {
                    assert(spec_parts_view(out@)[k] == spec_parts_view(before)[k]);
                    assert(pv[k] == spec_parts_view(parts@).take(i as int)[k]);
                    assert(spec_sealed_some(key@, spec_parts_view(before)[k], spec_parts_view(parts@).take(i as int)[k]));
                } else {
                    let nonce = choose|nonce: [u8; 12]| out@[k]@ == spec_sealed(key@, nonce@, parts@[i as int]@);
                    assert(spec_parts_view(out@)[k] == spec_sealed(key@, nonce@, pv[k]));
                }
            }
            assert(spec_parts_view(out@).len() == pv.len());
            assert(spec_all_sealed(key@, spec_parts_view(out@), pv));
        }
        i = i + 1;
    }
    proof { assert(spec_parts_view(parts@).take(parts@.len() as int) =~= spec_parts_view(parts@)); }
    Ok((out, total))
}

/// Decrypts each encrypted volume part on its own; stops at the first part
/// that fails. Parts that `encrypt_parts` made with the same key decrypt
/// to the parts they were made of.
pub fn decrypt_parts(parts: &Vec<Vec<u8>>, key: &EncryptionKey) -> (r: Result<Vec<Vec<u8>>, GitkaError>)
    ensures
        r matches Ok(dec) ==> dec@.len() == parts@.len(),
        forall|plain: Seq<Seq<u8>>| #[trigger] spec_all_sealed(key@, spec_parts_view(parts@), plain)
            ==> (r matches Ok(dec) && spec_parts_view(dec@) == plain),
        r matches Err(e) ==> e is Config,
{
    let mut out: Vec<Vec<u8>> = Vec::new();
    let mut i: usize = 0;
    while i < parts.len()
        invariant
            i <= parts@.len(),
            out@.len() == i,
            forall|plain: Seq<Seq<u8>>| #[trigger] spec_all_sealed(key@, spec_parts_view(parts@), plain)
                ==> spec_parts_view(out@) == plain.take(i as int),
        decreases parts@.len() - i,
    {
        let dec = match decrypt_data(parts[i].as_slice(), key) {
            Ok(d) => d,
            Err(e) => {
                proof {
                    assert forall|plain: Seq<Seq<u8>>| #[trigger] spec_all_sealed(key@, spec_parts_view(parts@), plain)
                        implies false by {
                        assert(spec_parts_view(parts@)[i as int] == parts@[i as int]@);
                        assert(spec_sealed_some(key@, spec_parts_view(parts@)[i as int], plain[i as int]));
                        let nonce = choose|nonce: Seq<u8>| nonce.len() == 12
                            && spec_parts_view(parts@)[i as int] == #[trigger] spec_sealed(key@, nonce, plain[i as int]);
                        let np = (nonce, plain[i as int]);
                        assert(parts[i as int]@ == spec_sealed(key@, np.0, np.1));
                    }
                }
                return Err(e);
            },
        };
        let ghost before = out@;
        proof {
            assert forall|plain: Seq<Seq<u8>>| #[trigger] spec_all_sealed(key@, spec_parts_view(parts@), plain)
                implies dec@ == plain[i as int] by {
                assert(spec_parts_view(parts@)[i as int] == parts@[i as int]@);
                assert(spec_sealed_some(key@, spec_parts_view(parts@)[i as int], plain[i as int]));
                let nonce = choose|nonce: Seq<u8>| nonce.len() == 12
                    && spec_parts_view(parts@)[i as int] == #[trigger] spec_sealed(key@, nonce, plain[i as int]);
                let np = (nonce, plain[i as int]);
                assert(parts[i as int]@ == spec_sealed(key@, np.0, np.1));
            }
        }
        out.push(dec);
        proof {
            assert forall|plain: Seq<Seq<u8>>| #[trigger] spec_all_sealed(key@, spec_parts_view(parts@), plain)
                implies spec_parts_view(out@) == plain.take(i as int + 1) by {
                assert(spec_parts_view(out@) =~= spec_parts_view(before).push(out@[i as int]@));
                assert(plain.take(i as int + 1) =~= plain.take(i as int).push(plain[i as int]));
            }
        }
        i = i + 1;
    }
    proof {
        assert forall|plain: Seq<Seq<u8>>| #[trigger] spec_all_sealed(key@, spec_parts_view(parts@), plain)
            implies spec_parts_view(out@) == plain by {
            assert(plain.take(parts@.len() as int) =~= plain);
        }
    }
    Ok(out)
}

} // verus!
