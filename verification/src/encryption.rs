//! Drive encryption with ChaCha20-Poly1305.
//!
//! Each drive has a 256-bit master key; per-file keys are derived from it
//! with BLAKE3 key derivation. A sealed payload is framed as
//! `[version:1][nonce:12][ciphertext+tag]`; a stream is a 9-byte header
//! (version and 8 reserved bytes) followed by chunks `[nonce:12][ciphertext+tag]`,
//! each chunk's nonce derived from the file path and the chunk's index.
use vstd::prelude::*;
use crate::bytes::{bytes_eq, extend_bytes, sub_bytes, to_array_12};
use crate::hex::{decode, encode, hex_decode, hex_encode, is_hex};
use crate::primitives::{
    aead_decrypt, aead_encrypt, aead_open, aead_seal, blake3_derive, blake3_derive_key, opt_bytes,
    random_bytes_12, random_bytes_32, string_from_utf8, AEAD_MAX_PLAINTEXT,
};
use crate::text::{decimal, decimal_string};

verus! {

/// Size of a ChaCha20 nonce.
pub const NONCE_SIZE: usize = 12;

/// Size of a Poly1305 tag.
pub const TAG_SIZE: usize = 16;

/// Chunk size for streaming encryption (64 KiB).
pub const CHUNK_SIZE: usize = 65536;

/// Current encryption format version.
pub const ENCRYPTION_VERSION: u8 = 1;

/// Errors from drive encryption.
#[derive(Debug)]
pub enum EncryptionError {
    /// Encryption failed (with the cipher's message).
    EncryptionFailed(String),
    /// Decryption failed (with the cipher's message or the reason).
    DecryptionFailed(String),
    /// The ciphertext is not in the expected format.
    InvalidFormat,
    /// The key has the wrong length.
    InvalidKeyLength,
    /// An I/O error (its message).
    IoError(String),
    /// The ciphertext was made by an unsupported format version.
    UnsupportedVersion(u8),
}

impl EncryptionError {
    /// The message of an error.
    pub open spec fn spec_message(&self) -> Seq<char> {
        match self {
            EncryptionError::EncryptionFailed(m) => "Encryption failed: "@ + m@,
            EncryptionError::DecryptionFailed(m) => "Decryption failed: "@ + m@,
            EncryptionError::InvalidFormat => "Invalid ciphertext format"@,
            EncryptionError::InvalidKeyLength => "Invalid key length"@,
            EncryptionError::IoError(m) => "I/O error: "@ + m@,
            EncryptionError::UnsupportedVersion(v) => "Unsupported encryption version: "@
                + decimal(*v as nat),
        }
    }

    /// The message of an error.
    pub fn message(&self) -> (s: String)
        ensures
            s@ == self.spec_message(),
    {
        match self {
            EncryptionError::EncryptionFailed(m) => {
                let mut s = String::from_str("Encryption failed: ");
                s.append(m.as_str());
                s
            },
            EncryptionError::DecryptionFailed(m) => {
                let mut s = String::from_str("Decryption failed: ");
                s.append(m.as_str());
                s
            },
            EncryptionError::InvalidFormat => String::from_str("Invalid ciphertext format"),
            EncryptionError::InvalidKeyLength => String::from_str("Invalid key length"),
            EncryptionError::IoError(m) => {
                let mut s = String::from_str("I/O error: ");
                s.append(m.as_str());
                s
            },
            EncryptionError::UnsupportedVersion(v) => {
                let mut s = String::from_str("Unsupported encryption version: ");
                let d = decimal_string(*v as u64);
                s.append(d.as_str());
                s
            },
        }
    }
}

/// The message the cipher reports on failure.
pub open spec fn cipher_failure() -> Seq<char> {
    "aead::Error"@
}

fn cipher_failure_message() -> (s: String)
    ensures
        s@ == cipher_failure(),
{
    String::from_str("aead::Error")
}

/// The context under which a file's key is derived.
pub open spec fn file_key_context(path: Seq<char>) -> Seq<char> {
    "gix-drive:file-key:"@ + path
}

/// The key of a file, derived from the drive key.
pub open spec fn file_key(key: Seq<u8>, path: Seq<char>) -> Seq<u8> {
    blake3_derive(file_key_context(path), key)
}

/// The key for metadata (paths), derived from the drive key.
pub open spec fn metadata_key(key: Seq<u8>) -> Seq<u8> {
    blake3_derive("gix-drive:metadata-key"@, key)
}

/// The context from which a stream chunk's nonce is derived.
pub open spec fn nonce_context(path: Seq<char>, index: u64) -> Seq<char> {
    "gix-drive:nonce:"@ + path + ":"@ + decimal(index as nat)
}

/// The nonce of a stream chunk: the first 12 bytes derived from the file key.
pub open spec fn chunk_nonce(key: Seq<u8>, path: Seq<char>, index: u64) -> Seq<u8> {
    blake3_derive(nonce_context(path, index), file_key(key, path)).subrange(0, 12)
}

/// What a framed payload opens to under the key of `context`: `None` where it
/// is too short, of another version, or does not authenticate.
pub open spec fn opened_payload(key: Seq<u8>, context: Seq<char>, data: Seq<u8>) -> Option<
    Seq<u8>,
> {
    if data.len() < 29 || data[0] != 1 {
        None
    } else {
        aead_open(file_key(key, context), data.subrange(1, 13), data.subrange(13, data.len() as int))
    }
}

/// The length of the first chunk of a stream's remaining plaintext.
pub open spec fn chunk_len(n: nat) -> nat {
    if n < CHUNK_SIZE {
        n
    } else {
        CHUNK_SIZE as nat
    }
}

/// The sealed chunks of a plaintext, from chunk `index` on: each chunk of
/// 64 KiB (the last one shorter) as its nonce followed by its ciphertext
/// and tag.
pub open spec fn sealed_chunks(key: Seq<u8>, path: Seq<char>, data: Seq<u8>, index: nat) -> Seq<u8>
    decreases data.len(),
{
    if data.len() == 0 {
        Seq::empty()
    } else {
        let n = chunk_len(data.len()) as int;
        let nonce = chunk_nonce(key, path, index as u64);
        nonce + aead_seal(file_key(key, path), nonce, data.take(n)) + sealed_chunks(
            key,
            path,
            data.skip(n),
            index + 1,
        )
    }
}

/// The encrypted stream of a plaintext: the 9-byte header, then the sealed
/// chunks.
pub open spec fn sealed_stream(key: Seq<u8>, path: Seq<char>, data: Seq<u8>) -> Seq<u8> {
    seq![ENCRYPTION_VERSION, 0u8, 0u8, 0u8, 0u8, 0u8, 0u8, 0u8, 0u8] + sealed_chunks(key, path, data, 0)
}

/// Every chunk of a plaintext, sealed, opens back to itself (the cipher's
/// round trip, for the chunks of this plaintext).
pub open spec fn chunks_reopen(key: Seq<u8>, path: Seq<char>, data: Seq<u8>, index: nat) -> bool
    decreases data.len(),
{
    if data.len() == 0 {
        true
    } else {
        let n = chunk_len(data.len()) as int;
        let nonce = chunk_nonce(key, path, index as u64);
        &&& aead_open(file_key(key, path), nonce, aead_seal(file_key(key, path), nonce, data.take(n)))
            == Some(data.take(n))
        &&& aead_seal(file_key(key, path), nonce, data.take(n)).len() == n + 16
        &&& nonce.len() == 12
        &&& chunks_reopen(key, path, data.skip(n), index + 1)
    }
}

/// The message of a chunk whose nonce is not the one of its place.
pub open spec fn nonce_mismatch() -> Seq<char> {
    "Nonce mismatch - possible data corruption or tampering"@
}

/// A result with some plaintext put in front.
pub open spec fn prepend(front: Seq<u8>, r: Result<Seq<u8>, Seq<char>>) -> Result<Seq<u8>, Seq<char>> {
    match r {
        Ok(q) => Ok(front + q),
        Err(e) => Err(e),
    }
}

/// What the chunks of a stream decrypt to, from chunk `index` on: reading
/// stops where fewer than 12 bytes (a nonce) or nothing after a nonce
/// remain; each chunk takes up to 64 KiB and a tag; a chunk whose nonce is
/// not the one of its place, or that does not authenticate, fails
/// decryption (with that message).
pub open spec fn opened_chunks(key: Seq<u8>, path: Seq<char>, data: Seq<u8>, index: nat) -> Result<
    Seq<u8>,
    Seq<char>,
>
    decreases data.len(),
{
    if data.len() < 12 || data.len() == 12 {
        Ok(Seq::empty())
    } else {
        let rest = data.skip(12);
        let n = if rest.len() < CHUNK_SIZE + 16 {
            rest.len() as int
        } else {
            CHUNK_SIZE + 16
        };
        let nonce = data.take(12);
        if nonce != chunk_nonce(key, path, index as u64) {
            Err(nonce_mismatch())
        } else {
            match aead_open(file_key(key, path), nonce, rest.take(n)) {
                None => Err(cipher_failure()),
                Some(p) => prepend(p, opened_chunks(key, path, rest.skip(n), index + 1)),
            }
        }
    }
}

proof fn lemma_reopen(key: Seq<u8>, path: Seq<char>, data: Seq<u8>, index: nat)
    requires
        chunks_reopen(key, path, data, index),
    ensures
        opened_chunks(key, path, sealed_chunks(key, path, data, index), index) == Ok::<Seq<u8>, Seq<char>>(data),
    decreases data.len(),
{
    if data.len() == 0 {
        assert(sealed_chunks(key, path, data, index) =~= Seq::<u8>::empty());
        assert(data =~= Seq::<u8>::empty());
    } else {
        let n = chunk_len(data.len()) as int;
        let nonce = chunk_nonce(key, path, index as u64);
        let ct = aead_seal(file_key(key, path), nonce, data.take(n));
        let tail = sealed_chunks(key, path, data.skip(n), index + 1);
        let all = sealed_chunks(key, path, data, index);
        lemma_reopen(key, path, data.skip(n), index + 1);
        assert(all == nonce + ct + tail);
        assert(nonce.len() == 12);
        assert(all.take(12) =~= nonce);
        assert(all.skip(12) =~= ct + tail);
        let rest = all.skip(12);
        if n < CHUNK_SIZE {
            assert(data.skip(n).len() == 0);
            assert(tail =~= Seq::<u8>::empty());
            assert(rest =~= ct);
            assert(rest.take(ct.len() as int) =~= ct);
            assert(rest.skip(ct.len() as int) =~= tail);
        } else {
            assert(rest.take(CHUNK_SIZE + 16) =~= ct);
            assert(rest.skip(CHUNK_SIZE + 16) =~= tail);
        }
        assert(data.take(n) + data.skip(n) =~= data);
    }
}

/// An encrypted stream decrypts back to the plaintext: the header passes,
/// and each chunk, in its place, opens to the plaintext chunk it sealed.
pub proof fn law_stream_roundtrip(key: Seq<u8>, path: Seq<char>, data: Seq<u8>)
    requires
        chunks_reopen(key, path, data, 0),
    ensures
        sealed_stream(key, path, data).len() >= 9,
        sealed_stream(key, path, data)[0] == ENCRYPTION_VERSION,
        opened_chunks(key, path, sealed_stream(key, path, data).skip(9), 0) == Ok::<Seq<u8>, Seq<char>>(data),
{
    lemma_reopen(key, path, data, 0);
    assert(sealed_stream(key, path, data).skip(9) =~= sealed_chunks(key, path, data, 0));
}

/// Master key of a shared drive (256 bits).
pub struct DriveKey {
    bytes: [u8; 32],
}

impl DriveKey {
    /// The key bytes.
    pub closed spec fn view_bytes(&self) -> Seq<u8> {
        self.bytes@
    }

    /// Generate a new random drive key.
    pub fn generate() -> (k: DriveKey)
        ensures
            k.view_bytes().len() == 32,
    {
        DriveKey { bytes: random_bytes_32() }
    }

    /// Create from raw bytes.
    pub fn from_bytes(bytes: [u8; 32]) -> (k: DriveKey)
        ensures
            k.view_bytes() == bytes@,
    {
        DriveKey { bytes }
    }

    /// The raw key bytes.
    pub fn as_bytes(&self) -> (r: &[u8; 32])
        ensures
            r@ == self.view_bytes(),
    {
        &self.bytes
    }

    /// A copy of the key.
    pub fn copy(&self) -> (k: DriveKey)
        ensures
            k.view_bytes() == self.view_bytes(),
    {
        DriveKey { bytes: self.bytes }
    }

    /// Derive a file-specific key with BLAKE3, so that each file has its own key.
    pub fn derive_file_key(&self, file_path: &str) -> (k: [u8; 32])
        ensures
            k@ == file_key(self.view_bytes(), file_path@),
    {
        let mut context = String::from_str("gix-drive:file-key:");
        context.append(file_path);
        proof {
            reveal_strlit("gix-drive:file-key:");
        }
        blake3_derive_key(context.as_str(), &self.bytes)
    }

    /// Derive the key for metadata.
    pub fn derive_metadata_key(&self) -> (k: [u8; 32])
        ensures
            k@ == metadata_key(self.view_bytes()),
    {
        blake3_derive_key("gix-drive:metadata-key", &self.bytes)
    }
}

/// Frame a sealed payload: version, nonce, then the ciphertext.
pub fn frame_sealed(nonce: &[u8; 12], sealed: &[u8]) -> (out: Vec<u8>)
    ensures
        out@ == seq![ENCRYPTION_VERSION] + nonce@ + sealed@,
{
    let mut out: Vec<u8> = Vec::new();
    out.push(ENCRYPTION_VERSION);
    extend_bytes(&mut out, nonce);
    extend_bytes(&mut out, sealed);
    assert(out@ =~= seq![ENCRYPTION_VERSION] + nonce@ + sealed@);
    out
}

/// Split a framed payload into its nonce and ciphertext: shorter than
/// version, nonce and tag is `InvalidFormat`, another version is
/// `UnsupportedVersion`.
pub fn unframe_sealed(data: &[u8]) -> (r: Result<([u8; 12], Vec<u8>), EncryptionError>)
    ensures
        data@.len() < 29 ==> r matches Err(EncryptionError::InvalidFormat),
        data@.len() >= 29 && data@[0] != ENCRYPTION_VERSION ==> (r matches Err(
            EncryptionError::UnsupportedVersion(v),
        ) && v == data@[0]),
        data@.len() >= 29 && data@[0] == ENCRYPTION_VERSION ==> (r matches Ok((n, c)) && n@
            == data@.subrange(1, 13) && c@ == data@.subrange(13, data@.len() as int)),
{
    if data.len() < 1 + NONCE_SIZE + TAG_SIZE {
        return Err(EncryptionError::InvalidFormat);
    }
    let version = data[0];
    if version != ENCRYPTION_VERSION {
        return Err(EncryptionError::UnsupportedVersion(version));
    }
    let n = sub_bytes(data, 1, 13);
    let nonce = to_array_12(n.as_slice());
    let c = sub_bytes(data, 13, data.len());
    Ok((nonce, c))
}

/// Handles encryption and decryption for a drive's files.
pub struct DriveEncryption {
    key: DriveKey,
}

impl DriveEncryption {
    /// The drive key bytes.
    pub closed spec fn key_view(&self) -> Seq<u8> {
        self.key.view_bytes()
    }

    /// Create with an existing key.
    pub fn new(key: DriveKey) -> (e: DriveEncryption)
        ensures
            e.key_view() == key.view_bytes(),
    {
        DriveEncryption { key }
    }

    /// Create with a newly generated key.
    pub fn generate() -> (e: DriveEncryption)
        ensures
            e.key_view().len() == 32,
    {
        DriveEncryption { key: DriveKey::generate() }
    }

    /// The drive's master key (for wrapping and sharing).
    pub fn key(&self) -> (k: &DriveKey)
        ensures
            k.view_bytes() == self.key_view(),
    {
        &self.key
    }

    /// Encrypt a small payload under the key of `context`, with a fresh random
    /// nonce: `[version:1][nonce:12][ciphertext+tag]`. The result opens back
    /// to the plaintext under the same context.
    pub fn encrypt(&self, plaintext: &[u8], context: &str) -> (r: Result<Vec<u8>, EncryptionError>)
        ensures
            r is Ok <==> plaintext@.len() < AEAD_MAX_PLAINTEXT,
            r matches Ok(out) ==> {
                &&& out@.len() == plaintext@.len() + 29
                &&& out@[0] == ENCRYPTION_VERSION
                &&& out@.subrange(13, out@.len() as int) == aead_seal(
                    file_key(self.key_view(), context@),
                    out@.subrange(1, 13),
                    plaintext@,
                )
                &&& opened_payload(self.key_view(), context@, out@) == Some(plaintext@)
            },
            r matches Err(e) ==> e matches EncryptionError::EncryptionFailed(m) && m@
                == cipher_failure(),
    {
        let key_bytes = self.key.derive_file_key(context);
        let nonce = random_bytes_12();
        match aead_encrypt(&key_bytes, &nonce, plaintext) {
            Some(sealed) => {
                let out = frame_sealed(&nonce, sealed.as_slice());
                assert(out@.subrange(1, 13) =~= nonce@);
                assert(out@.subrange(13, out@.len() as int) =~= sealed@);
                Ok(out)
            },
            None => Err(EncryptionError::EncryptionFailed(cipher_failure_message())),
        }
    }

    /// Decrypt a framed payload under the key of `context`.
    pub fn decrypt(&self, ciphertext: &[u8], context: &str) -> (r: Result<Vec<u8>, EncryptionError>)
        ensures
            ciphertext@.len() < 29 ==> r matches Err(EncryptionError::InvalidFormat),
            ciphertext@.len() >= 29 && ciphertext@[0] != ENCRYPTION_VERSION ==> (r matches Err(
                EncryptionError::UnsupportedVersion(v),
            ) && v == ciphertext@[0]),
            ciphertext@.len() >= 29 && ciphertext@[0] == ENCRYPTION_VERSION ==> match opened_payload(
                self.key_view(),
                context@,
                ciphertext@,
            ) {
                Some(p) => r matches Ok(out) && out@ == p,
                None => r matches Err(EncryptionError::DecryptionFailed(m)) && m@
                    == cipher_failure(),
            },
    {
        let (nonce, sealed) = match unframe_sealed(ciphertext) {
            Ok(parts) => parts,
            Err(e) => return Err(e),
        };
        let key_bytes = self.key.derive_file_key(context);
        match aead_decrypt(&key_bytes, &nonce, sealed.as_slice()) {
            Some(p) => Ok(p),
            None => Err(EncryptionError::DecryptionFailed(cipher_failure_message())),
        }
    }

    /// The header of an encrypted stream: the version and 8 reserved zero bytes.
    pub fn stream_header() -> (h: [u8; 9])
        ensures
            h@ == seq![ENCRYPTION_VERSION, 0u8, 0u8, 0u8, 0u8, 0u8, 0u8, 0u8, 0u8],
    {
        let h = [ENCRYPTION_VERSION, 0u8, 0u8, 0u8, 0u8, 0u8, 0u8, 0u8, 0u8];
        assert(h@ =~= seq![ENCRYPTION_VERSION, 0u8, 0u8, 0u8, 0u8, 0u8, 0u8, 0u8, 0u8]);
        h
    }

    /// Check the version byte of an encrypted stream.
    pub fn check_stream_version(version: u8) -> (r: Result<(), EncryptionError>)
        ensures
            version == ENCRYPTION_VERSION ==> r is Ok,
            version != ENCRYPTION_VERSION ==> (r matches Err(EncryptionError::UnsupportedVersion(v))
                && v == version),
    {
        if version != ENCRYPTION_VERSION {
            return Err(EncryptionError::UnsupportedVersion(version));
        }
        Ok(())
    }

    /// The nonce of a stream chunk.
    pub fn stream_nonce(&self, file_path: &str, chunk_index: u64) -> (n: [u8; 12])
        ensures
            n@ == chunk_nonce(self.key_view(), file_path@, chunk_index),
    {
        let key_bytes = self.key.derive_file_key(file_path);
        let mut context = String::from_str("gix-drive:nonce:");
        context.append(file_path);
        context.append(":");
        let d = decimal_string(chunk_index);
        context.append(d.as_str());
        proof {
            reveal_strlit("gix-drive:nonce:");
            reveal_strlit(":");
        }
        let material = blake3_derive_key(context.as_str(), &key_bytes);
        let n = sub_bytes(&material, 0, 12);
        to_array_12(n.as_slice())
    }

    /// Encrypt a whole plaintext as a stream (see `sealed_stream`): the
    /// header, then each 64 KiB chunk sealed under a nonce of its place. It
    /// decrypts back to the plaintext (see `law_stream_roundtrip`).
    pub fn encrypt_stream_bytes(&self, data: &[u8], file_path: &str) -> (r: Result<Vec<u8>, EncryptionError>)
        ensures
            r matches Ok(out) && out@ == sealed_stream(self.key_view(), file_path@, data@)
                && chunks_reopen(self.key_view(), file_path@, data@, 0),
    {
        let ghost key = self.key_view();
        let ghost path = file_path@;
        let header = Self::stream_header();
        let mut out: Vec<u8> = Vec::new();
        extend_bytes(&mut out, &header);
        let mut pos: usize = 0;
        let mut index: u64 = 0;
        assert(data@.skip(0) =~= data@);
        while pos < data.len()
            invariant
                key == self.key_view(),
                path == file_path@,
                pos <= data@.len(),
                index <= pos,
                out@ + sealed_chunks(key, path, data@.skip(pos as int), index as nat) == sealed_stream(
                    key,
                    path,
                    data@,
                ),
                chunks_reopen(key, path, data@.skip(pos as int), index as nat) ==> chunks_reopen(
                    key,
                    path,
                    data@,
                    0,
                ),
            decreases data@.len() - pos,
        {
            let rem = data.len() - pos;
            let n = if rem < CHUNK_SIZE {
                rem
            } else {
                CHUNK_SIZE
            };
            let chunk = sub_bytes(data, pos, pos + n);
            let ghost d = data@.skip(pos as int);
            assert(chunk@ =~= d.take(n as int));
            assert(d.skip(n as int) =~= data@.skip(pos + n));
            let sealed = match self.encrypt_stream_chunk(file_path, index, chunk.as_slice()) {
                Ok(c) => c,
                Err(e) => return Err(e),
            };
            let ghost o = out@;
            extend_bytes(&mut out, sealed.as_slice());
            proof {
                assert(sealed@ =~= chunk_nonce(key, path, index) + aead_seal(
                    file_key(key, path),
                    chunk_nonce(key, path, index),
                    chunk@,
                ));
                assert(sealed_chunks(key, path, d, index as nat) == sealed@ + sealed_chunks(
                    key,
                    path,
                    data@.skip(pos + n),
                    (index + 1) as nat,
                ));
                assert(out@ + sealed_chunks(key, path, data@.skip(pos + n), (index + 1) as nat)
                    =~= o + sealed_chunks(key, path, d, index as nat));
            }
            pos = pos + n;
            index = index + 1;
        }
        proof {
            assert(data@.skip(pos as int) =~= Seq::<u8>::empty());
            assert(sealed_chunks(key, path, data@.skip(pos as int), index as nat) =~= Seq::<u8>::empty());
            assert(out@ =~= out@ + Seq::<u8>::empty());
        }
        Ok(out)
    }

    /// Decrypt a whole stream (see `opened_chunks`): fewer than 9 bytes is an
    /// I/O error, another version is `UnsupportedVersion`, and the chunks
    /// after the header decrypt in order.
    pub fn decrypt_stream_bytes(&self, data: &[u8], file_path: &str) -> (r: Result<Vec<u8>, EncryptionError>)
        ensures
            data@.len() == 0 ==> (r matches Err(EncryptionError::IoError(m)) && m@
                == "failed to fill whole buffer"@),
            data@.len() > 0 && data@[0] != ENCRYPTION_VERSION ==> (r matches Err(
                EncryptionError::UnsupportedVersion(v),
            ) && v == data@[0]),
            0 < data@.len() < 9 && data@[0] == ENCRYPTION_VERSION ==> (r matches Err(
                EncryptionError::IoError(m),
            ) && m@ == "failed to fill whole buffer"@),
            data@.len() >= 9 && data@[0] == ENCRYPTION_VERSION ==> match opened_chunks(
                self.key_view(),
                file_path@,
                data@.skip(9),
                0,
            ) {
                Ok(p) => r matches Ok(out) && out@ == p,
                Err(m) => r matches Err(EncryptionError::DecryptionFailed(e)) && e@ == m,
            },
    {
        let ghost key = self.key_view();
        let ghost path = file_path@;
        if data.len() == 0 {
            return Err(EncryptionError::IoError(String::from_str("failed to fill whole buffer")));
        }
        match Self::check_stream_version(data[0]) {
            Ok(()) => {},
            Err(e) => return Err(e),
        }
        if data.len() < 9 {
            return Err(EncryptionError::IoError(String::from_str("failed to fill whole buffer")));
        }
        let ghost full = opened_chunks(key, path, data@.skip(9), 0);
        let mut out: Vec<u8> = Vec::new();
        let mut pos: usize = 9;
        let mut index: u64 = 0;
        assert(out@ + Seq::<u8>::empty() =~= Seq::<u8>::empty());
        assert(prepend(Seq::<u8>::empty(), full) == full) by {
            match full {
                Ok(q) => {
                    assert(Seq::<u8>::empty() + q =~= q);
                },
                Err(_) => {},
            }
        }
        while pos < data.len()
            invariant_except_break
                key == self.key_view(),
                path == file_path@,
                9 <= pos <= data@.len(),
                data@[0] == ENCRYPTION_VERSION,
                index <= pos,
                full == opened_chunks(key, path, data@.skip(9), 0),
                full == prepend(out@, opened_chunks(key, path, data@.skip(pos as int), index as nat)),
            ensures
                full == Ok::<Seq<u8>, Seq<char>>(out@),
            decreases data@.len() - pos,
        {
            let ghost d = data@.skip(pos as int);
            let rem = data.len() - pos;
            if rem <= 12 {
                assert(opened_chunks(key, path, d, index as nat) == Ok::<Seq<u8>, Seq<char>>(Seq::<u8>::empty()));
                assert(out@ + Seq::<u8>::empty() =~= out@);
                break;
            }
            assert(d.len() == rem);
            let nonce_v = sub_bytes(data, pos, pos + 12);
            let nonce = to_array_12(nonce_v.as_slice());
            let after = rem - 12;
            let n = if after < CHUNK_SIZE + TAG_SIZE {
                after
            } else {
                CHUNK_SIZE + TAG_SIZE
            };
            let ct = sub_bytes(data, pos + 12, pos + 12 + n);
            proof {
                assert(nonce@ =~= d.take(12));
                assert(ct@ =~= d.skip(12).take(n as int));
                assert(d.skip(12).skip(n as int) =~= data@.skip(pos + 12 + n));
            }
            let plain = match self.decrypt_stream_chunk(file_path, index, &nonce, ct.as_slice()) {
                Ok(p) => p,
                Err(e) => {
                    proof {
                        if nonce@ != chunk_nonce(key, path, index) {
                            assert(opened_chunks(key, path, d, index as nat) == Err::<Seq<u8>, Seq<char>>(
                                nonce_mismatch(),
                            ));
                        } else {
                            assert(opened_chunks(key, path, d, index as nat) == Err::<Seq<u8>, Seq<char>>(
                                cipher_failure(),
                            ));
                        }
                    }
                    return Err(e);
                },
            };
            let ghost o = out@;
            extend_bytes(&mut out, plain.as_slice());
            proof {
                let tail = opened_chunks(key, path, data@.skip(pos + 12 + n), (index + 1) as nat);
                assert(opened_chunks(key, path, d, index as nat) == prepend(plain@, tail));
                match tail {
                    Ok(q) => {
                        assert(o + (plain@ + q) =~= out@ + q);
                    },
                    Err(_) => {},
                }
            }
            pos = pos + 12 + n;
            index = index + 1;
            proof {
                if pos == data.len() {
                    assert(data@.skip(pos as int) =~= Seq::<u8>::empty());
                    assert(out@ + Seq::<u8>::empty() =~= out@);
                }
            }
        }
        Ok(out)
    }

    /// Encrypt one chunk of a stream: `[nonce:12][ciphertext+tag]`, the nonce
    /// derived from the path and the chunk index. The chunk decrypts back with
    /// `decrypt_stream_chunk` at the same index.
    pub fn encrypt_stream_chunk(&self, file_path: &str, chunk_index: u64, chunk: &[u8]) -> (r: Result<
        Vec<u8>,
        EncryptionError,
    >)
        ensures
            r is Ok <==> chunk@.len() < AEAD_MAX_PLAINTEXT,
            r matches Ok(out) ==> {
                &&& out@.len() == chunk@.len() + 28
                &&& out@.subrange(0, 12) == chunk_nonce(self.key_view(), file_path@, chunk_index)
                &&& out@.subrange(12, out@.len() as int) == aead_seal(
                    file_key(self.key_view(), file_path@),
                    chunk_nonce(self.key_view(), file_path@, chunk_index),
                    chunk@,
                )
                &&& aead_open(
                    file_key(self.key_view(), file_path@),
                    chunk_nonce(self.key_view(), file_path@, chunk_index),
                    out@.subrange(12, out@.len() as int),
                ) == Some(chunk@)
            },
            r matches Err(e) ==> e matches EncryptionError::EncryptionFailed(m) && m@
                == cipher_failure(),
    {
        let key_bytes = self.key.derive_file_key(file_path);
        let nonce = self.stream_nonce(file_path, chunk_index);
        match aead_encrypt(&key_bytes, &nonce, chunk) {
            Some(sealed) => {
                let mut out: Vec<u8> = Vec::new();
                extend_bytes(&mut out, &nonce);
                extend_bytes(&mut out, sealed.as_slice());
                assert(out@.subrange(0, 12) =~= nonce@);
                assert(out@.subrange(12, out@.len() as int) =~= sealed@);
                Ok(out)
            },
            None => Err(EncryptionError::EncryptionFailed(cipher_failure_message())),
        }
    }

    /// Decrypt one chunk of a stream, given its nonce and ciphertext: a nonce
    /// other than the one of this index is refused (reordered or corrupt data).
    pub fn decrypt_stream_chunk(
        &self,
        file_path: &str,
        chunk_index: u64,
        nonce: &[u8; 12],
        ciphertext: &[u8],
    ) -> (r: Result<Vec<u8>, EncryptionError>)
        ensures
            nonce@ != chunk_nonce(self.key_view(), file_path@, chunk_index) ==> (r matches Err(
                EncryptionError::DecryptionFailed(m),
            ) && m@ == "Nonce mismatch - possible data corruption or tampering"@),
            nonce@ == chunk_nonce(self.key_view(), file_path@, chunk_index) ==> match aead_open(
                file_key(self.key_view(), file_path@),
                nonce@,
                ciphertext@,
            ) {
                Some(p) => r matches Ok(out) && out@ == p,
                None => r matches Err(EncryptionError::DecryptionFailed(m)) && m@
                    == cipher_failure(),
            },
    {
        let key_bytes = self.key.derive_file_key(file_path);
        let expected = self.stream_nonce(file_path, chunk_index);
        if !bytes_eq(nonce, &expected) {
            return Err(
                EncryptionError::DecryptionFailed(
                    String::from_str("Nonce mismatch - possible data corruption or tampering"),
                ),
            );
        }
        match aead_decrypt(&key_bytes, nonce, ciphertext) {
            Some(p) => Ok(p),
            None => Err(EncryptionError::DecryptionFailed(cipher_failure_message())),
        }
    }

    /// Encrypt a path for metadata privacy: hex of `[nonce:12][ciphertext+tag]`
    /// under the metadata key, with a fresh random nonce. It decrypts back to
    /// the path with `decrypt_path`.
    pub fn encrypt_path(&self, path: &str) -> (r: Result<String, EncryptionError>)
        ensures
            r is Ok <==> vstd::utf8::encode_utf8(path@).len() < AEAD_MAX_PLAINTEXT,
            r matches Ok(h) ==> {
                &&& is_hex(h@)
                &&& hex_decode(h@).len() == vstd::utf8::encode_utf8(path@).len() + 28
                &&& aead_open(
                    metadata_key(self.key_view()),
                    hex_decode(h@).subrange(0, 12),
                    hex_decode(h@).subrange(12, hex_decode(h@).len() as int),
                ) == Some(vstd::utf8::encode_utf8(path@))
            },
            r matches Err(e) ==> e matches EncryptionError::EncryptionFailed(m) && m@
                == cipher_failure(),
    {
        let key_bytes = self.key.derive_metadata_key();
        let nonce = random_bytes_12();
        match aead_encrypt(&key_bytes, &nonce, path.as_bytes()) {
            Some(sealed) => {
                let mut combined: Vec<u8> = Vec::new();
                extend_bytes(&mut combined, &nonce);
                extend_bytes(&mut combined, sealed.as_slice());
                let h = encode(combined.as_slice());
                proof {
                    crate::hex::lemma_hex_roundtrip(combined@);
                    assert(combined@.subrange(0, 12) =~= nonce@);
                    assert(combined@.subrange(12, combined@.len() as int) =~= sealed@);
                }
                Ok(h)
            },
            None => Err(EncryptionError::EncryptionFailed(cipher_failure_message())),
        }
    }

    /// Decrypt a path encrypted with `encrypt_path`: text that is not hex, or
    /// too short for nonce and tag, is `InvalidFormat`; a failed
    /// authentication or bytes that are not UTF-8 are `DecryptionFailed`.
    pub fn decrypt_path(&self, encrypted_hex: &str) -> (r: Result<String, EncryptionError>)
        ensures
            !is_hex(encrypted_hex@) ==> r matches Err(EncryptionError::InvalidFormat),
            is_hex(encrypted_hex@) && hex_decode(encrypted_hex@).len() < 28 ==> r matches Err(
                EncryptionError::InvalidFormat,
            ),
            is_hex(encrypted_hex@) && hex_decode(encrypted_hex@).len() >= 28 ==> match aead_open(
                metadata_key(self.key_view()),
                hex_decode(encrypted_hex@).subrange(0, 12),
                hex_decode(encrypted_hex@).subrange(12, hex_decode(encrypted_hex@).len() as int),
            ) {
                None => r matches Err(EncryptionError::DecryptionFailed(m)) && m@
                    == cipher_failure(),
                Some(p) => if vstd::utf8::valid_utf8(p) {
                    r matches Ok(s) && s@ == vstd::utf8::decode_utf8(p)
                } else {
                    r matches Err(EncryptionError::DecryptionFailed(m)) && m@
                        == "Invalid UTF-8 in path"@
                },
            },
    {
        let combined = match decode(encrypted_hex) {
            Ok(c) => c,
            Err(_) => return Err(EncryptionError::InvalidFormat),
        };
        if combined.len() < NONCE_SIZE + TAG_SIZE {
            return Err(EncryptionError::InvalidFormat);
        }
        let key_bytes = self.key.derive_metadata_key();
        let n = sub_bytes(combined.as_slice(), 0, 12);
        let nonce = to_array_12(n.as_slice());
        let sealed = sub_bytes(combined.as_slice(), 12, combined.len());
        let plain = match aead_decrypt(&key_bytes, &nonce, sealed.as_slice()) {
            Some(p) => p,
            None => return Err(EncryptionError::DecryptionFailed(cipher_failure_message())),
        };
        match string_from_utf8(plain) {
            Some(s) => Ok(s),
            None => Err(
                EncryptionError::DecryptionFailed(String::from_str("Invalid UTF-8 in path")),
            ),
        }
    }
}

/// A framed payload opens, under the same context, to what was sealed in it.
pub proof fn law_payload_roundtrip(key: Seq<u8>, context: Seq<char>, data: Seq<u8>, plaintext: Seq<u8>)
    requires
        data.len() == plaintext.len() + 29,
        data[0] == ENCRYPTION_VERSION,
        aead_open(file_key(key, context), data.subrange(1, 13), data.subrange(13, data.len() as int))
            == Some(plaintext),
    ensures
        opened_payload(key, context, data) == Some(plaintext),
{
}

/// An encrypted path decrypts back to the path: the path's UTF-8 bytes are
/// valid UTF-8 and decode to it.
pub proof fn law_path_roundtrip(path: Seq<char>)
    ensures
        vstd::utf8::valid_utf8(vstd::utf8::encode_utf8(path)),
        vstd::utf8::decode_utf8(vstd::utf8::encode_utf8(path)) == path,
{
    vstd::utf8::encode_utf8_valid_utf8(path);
    vstd::utf8::encode_utf8_decode_utf8(path);
}

} // verus!
