//! The cryptographic and encoding primitives the library rests on, each a
//! thin call into its crate: Ed25519 signatures (`ed25519-dalek`), X25519 key
//! agreement (`x25519-dalek`), BLAKE3 key derivation (`blake3`), the
//! ChaCha20-Poly1305 AEAD (`chacha20poly1305`), URL-safe base64 (`base64`),
//! randomness (`rand`) and RFC 3339 time formatting (`chrono`).
//!
//! What these functions compute is named, not spelled out (base64, a few
//! lines, is the exception): the names below are functions of their
//! arguments alone, and only the short facts that the crates document (a
//! signature made with a key verifies under its public key, an AEAD opens
//! what it sealed, the two sides of a Diffie-Hellman exchange agree) are
//! stated beside them.
use vstd::prelude::*;
use base64::Engine;
use chacha20poly1305::aead::{Aead, KeyInit};
use ed25519_dalek::{Signer, Verifier};

verus! {

/// The Ed25519 public key of a 32-byte secret key.
pub uninterp spec fn ed25519_public(secret: Seq<u8>) -> Seq<u8>;

/// The Ed25519 signature of a message under a 32-byte secret key.
pub uninterp spec fn ed25519_sign(secret: Seq<u8>, message: Seq<u8>) -> Seq<u8>;

/// Whether 32 bytes decode to an Ed25519 public key.
pub uninterp spec fn ed25519_key_valid(public: Seq<u8>) -> bool;

/// Whether a 64-byte signature of a message verifies under a public key
/// (false where the key does not decode).
pub uninterp spec fn ed25519_verify(public: Seq<u8>, message: Seq<u8>, signature: Seq<u8>) -> bool;

/// The X25519 public key of a 32-byte secret.
pub uninterp spec fn x25519_public(secret: Seq<u8>) -> Seq<u8>;

/// The X25519 shared secret of a 32-byte secret and a peer's public key.
pub uninterp spec fn x25519_shared(secret: Seq<u8>, public: Seq<u8>) -> Seq<u8>;

/// BLAKE3 in key-derivation mode: 32 bytes derived from a context string and
/// key material.
pub uninterp spec fn blake3_derive(context: Seq<char>, material: Seq<u8>) -> Seq<u8>;

/// The BLAKE3 hash of some bytes.
pub uninterp spec fn blake3_hash_of(data: Seq<u8>) -> Seq<u8>;

/// ChaCha20-Poly1305 encryption (no associated data): ciphertext followed by
/// the 16-byte tag.
pub uninterp spec fn aead_seal(key: Seq<u8>, nonce: Seq<u8>, plaintext: Seq<u8>) -> Seq<u8>;

/// ChaCha20-Poly1305 decryption (no associated data); `None` where the tag
/// does not authenticate.
pub uninterp spec fn aead_open(key: Seq<u8>, nonce: Seq<u8>, ciphertext: Seq<u8>) -> Option<
    Seq<u8>,
>;

/// The base64 digit of a 6-bit value: `A`-`Z`, `a`-`z`, `0`-`9`, then `-`
/// and `_` in the URL-safe alphabet, `+` and `/` in the standard one.
pub open spec fn base64_digit(url_safe: bool, v: int) -> char {
    if v < 26 {
        (65 + v) as char
    } else if v < 52 {
        (97 + (v - 26)) as char
    } else if v < 62 {
        (48 + (v - 52)) as char
    } else if v == 62 {
        if url_safe { '-' } else { '+' }
    } else {
        if url_safe { '_' } else { '/' }
    }
}

/// Base64 of `data`: each three bytes become four digits of six bits each,
/// most significant first; a last one or two bytes become two or three
/// digits (the unused low bits zero), followed, with `pad`, by `=` up to four.
pub open spec fn base64_text(url_safe: bool, pad: bool, data: Seq<u8>) -> Seq<char>
    decreases data.len(),
{
    let b0 = data[0] as int;
    let b1 = data[1] as int;
    let b2 = data[2] as int;
    if data.len() == 0 {
        Seq::empty()
    } else if data.len() == 1 {
        seq![base64_digit(url_safe, b0 / 4), base64_digit(url_safe, (b0 % 4) * 16)] + if pad {
            seq!['=', '=']
        } else {
            Seq::empty()
        }
    } else if data.len() == 2 {
        seq![
            base64_digit(url_safe, b0 / 4),
            base64_digit(url_safe, (b0 % 4) * 16 + b1 / 16),
            base64_digit(url_safe, (b1 % 16) * 4),
        ] + if pad {
            seq!['=']
        } else {
            Seq::empty()
        }
    } else {
        seq![
            base64_digit(url_safe, b0 / 4),
            base64_digit(url_safe, (b0 % 4) * 16 + b1 / 16),
            base64_digit(url_safe, (b1 % 16) * 4 + b2 / 64),
            base64_digit(url_safe, b2 % 64),
        ] + base64_text(url_safe, pad, data.subrange(3, data.len() as int))
    }
}

/// URL-safe base64 without padding.
pub open spec fn base64_url(data: Seq<u8>) -> Seq<char> {
    base64_text(true, false, data)
}


/// RFC 3339 text of a UTC instant given in Unix milliseconds; `None` outside
/// the range of instants `chrono` represents.
pub uninterp spec fn rfc3339_of_millis(millis: i64) -> Option<Seq<char>>;

/// Whether a character is alphabetic or numeric in Unicode
/// (`char::is_alphanumeric`).
pub uninterp spec fn unicode_alphanumeric(c: char) -> bool;

/// The Unicode lower-case form of a string (`str::to_lowercase`).
pub uninterp spec fn unicode_lowercase(s: Seq<char>) -> Seq<char>;

/// Rust's `Debug` form of a character (`<char as Debug>::fmt`, which the
/// `hex` crate's error text uses): quoted, with escapes.
pub uninterp spec fn debug_char_text(c: char) -> Seq<char>;

/// Standard base64 with padding.
pub open spec fn base64_standard(data: Seq<u8>) -> Seq<char> {
    base64_text(false, true, data)
}

/// Decoding of URL-safe base64 without padding: the bytes whose encoding is
/// the text (the decoder accepts canonical encodings only), `None` where no
/// bytes encode to it.
pub open spec fn base64_url_decoded(text: Seq<char>) -> Option<Seq<u8>> {
    if exists|d: Seq<u8>| base64_url(d) == text {
        Some(choose|d: Seq<u8>| base64_url(d) == text)
    } else {
        None
    }
}

/// Decoding of standard base64 with padding: the bytes whose encoding is
/// the text (the decoder accepts canonical encodings only), `None` where no
/// bytes encode to it.
pub open spec fn base64_standard_decoded(text: Seq<char>) -> Option<Seq<u8>> {
    if exists|d: Seq<u8>| base64_standard(d) == text {
        Some(choose|d: Seq<u8>| base64_standard(d) == text)
    } else {
        None
    }
}

/// Different 6-bit values have different digits, and none is `=`.
proof fn lemma_base64_digit(url_safe: bool, v: int, w: int)
    requires
        0 <= v < 64,
        0 <= w < 64,
    ensures
        base64_digit(url_safe, v) == base64_digit(url_safe, w) ==> v == w,
        base64_digit(url_safe, v) != '=',
{
    let cv = base64_digit(url_safe, v) as int;
    let cw = base64_digit(url_safe, w) as int;
    assert(v < 26 ==> cv == 65 + v);
    assert(26 <= v < 52 ==> cv == 97 + (v - 26));
    assert(52 <= v < 62 ==> cv == 48 + (v - 52));
    assert(w < 26 ==> cw == 65 + w);
    assert(26 <= w < 52 ==> cw == 97 + (w - 26));
    assert(52 <= w < 62 ==> cw == 48 + (w - 52));
}

/// Three bytes are given back by their four digits.
proof fn lemma_base64_quad(url_safe: bool, a: Seq<u8>, b: Seq<u8>)
    requires
        a.len() >= 3,
        b.len() >= 3,
        base64_digit(url_safe, (a[0] as int) / 4) == base64_digit(url_safe, (b[0] as int) / 4),
        base64_digit(url_safe, ((a[0] as int) % 4) * 16 + (a[1] as int) / 16) == base64_digit(
            url_safe,
            ((b[0] as int) % 4) * 16 + (b[1] as int) / 16,
        ),
        base64_digit(url_safe, ((a[1] as int) % 16) * 4 + (a[2] as int) / 64) == base64_digit(
            url_safe,
            ((b[1] as int) % 16) * 4 + (b[2] as int) / 64,
        ),
        base64_digit(url_safe, (a[2] as int) % 64) == base64_digit(url_safe, (b[2] as int) % 64),
    ensures
        a[0] == b[0] && a[1] == b[1] && a[2] == b[2],
{
    lemma_base64_digit(url_safe, (a[0] as int) / 4, (b[0] as int) / 4);
    lemma_base64_digit(url_safe, ((a[0] as int) % 4) * 16 + (a[1] as int) / 16, ((b[0] as int) % 4) * 16 + (b[1] as int) / 16);
    lemma_base64_digit(url_safe, ((a[1] as int) % 16) * 4 + (a[2] as int) / 64, ((b[1] as int) % 16) * 4 + (b[2] as int) / 64);
    lemma_base64_digit(url_safe, (a[2] as int) % 64, (b[2] as int) % 64);
}

/// The length of an encoding, and where its `=` padding stands.
proof fn lemma_base64_shape(url_safe: bool, pad: bool, d: Seq<u8>)
    ensures
        d.len() == 0 ==> base64_text(url_safe, pad, d).len() == 0,
        d.len() == 1 ==> base64_text(url_safe, pad, d).len() == if pad { 4int } else { 2int },
        d.len() == 1 && pad ==> base64_text(url_safe, pad, d)[2] == '=',
        d.len() == 2 ==> base64_text(url_safe, pad, d).len() == if pad { 4int } else { 3int },
        d.len() == 2 ==> base64_text(url_safe, pad, d)[2] != '=',
        d.len() == 2 && pad ==> base64_text(url_safe, pad, d)[3] == '=',
        d.len() >= 3 ==> base64_text(url_safe, pad, d).len() >= 4,
        d.len() >= 3 ==> base64_text(url_safe, pad, d)[2] != '=',
        d.len() >= 3 ==> base64_text(url_safe, pad, d)[3] != '=',
        d.len() >= 3 ==> base64_text(url_safe, pad, d).subrange(
            4,
            base64_text(url_safe, pad, d).len() as int,
        ) == base64_text(url_safe, pad, d.subrange(3, d.len() as int)),
{
    let t = base64_text(url_safe, pad, d);
    if d.len() == 2 {
        lemma_base64_digit(url_safe, ((d[1] as int) % 16) * 4, 0);
    } else if d.len() >= 3 {
        lemma_base64_digit(url_safe, ((d[1] as int) % 16) * 4 + (d[2] as int) / 64, 0);
        lemma_base64_digit(url_safe, (d[2] as int) % 64, 0);
        let head = seq![
            base64_digit(url_safe, (d[0] as int) / 4),
            base64_digit(url_safe, ((d[0] as int) % 4) * 16 + (d[1] as int) / 16),
            base64_digit(url_safe, ((d[1] as int) % 16) * 4 + (d[2] as int) / 64),
            base64_digit(url_safe, (d[2] as int) % 64),
        ];
        let rest = base64_text(url_safe, pad, d.subrange(3, d.len() as int));
        assert(t == head + rest);
        assert(t.subrange(4, t.len() as int) =~= rest);
    }
}

/// Base64 encoding is one to one.
proof fn lemma_base64_injective(url_safe: bool, pad: bool, a: Seq<u8>, b: Seq<u8>)
    requires
        base64_text(url_safe, pad, a) == base64_text(url_safe, pad, b),
    ensures
        a == b,
    decreases a.len(),
{
    let t = base64_text(url_safe, pad, a);
    lemma_base64_shape(url_safe, pad, a);
    lemma_base64_shape(url_safe, pad, b);
    if a.len() == 0 {
        assert(b.len() == 0);
        assert(a =~= b);
    } else if a.len() == 1 {
        assert(b.len() == 1);
        lemma_base64_digit(url_safe, (a[0] as int) / 4, (b[0] as int) / 4);
        lemma_base64_digit(url_safe, ((a[0] as int) % 4) * 16, ((b[0] as int) % 4) * 16);
        assert(t[0] == base64_digit(url_safe, (a[0] as int) / 4));
        assert(t[1] == base64_digit(url_safe, ((a[0] as int) % 4) * 16));
        assert(a =~= b);
    } else if a.len() == 2 {
        assert(b.len() == 2);
        lemma_base64_digit(url_safe, (a[0] as int) / 4, (b[0] as int) / 4);
        lemma_base64_digit(url_safe, ((a[0] as int) % 4) * 16 + (a[1] as int) / 16, ((b[0] as int) % 4) * 16 + (b[1] as int) / 16);
        lemma_base64_digit(url_safe, ((a[1] as int) % 16) * 4, ((b[1] as int) % 16) * 4);
        assert(t[0] == base64_digit(url_safe, (a[0] as int) / 4));
        assert(t[1] == base64_digit(url_safe, ((a[0] as int) % 4) * 16 + (a[1] as int) / 16));
        assert(t[2] == base64_digit(url_safe, ((a[1] as int) % 16) * 4));
        assert(a =~= b);
    } else {
        assert(b.len() >= 3);
        assert(t[0] == base64_digit(url_safe, (a[0] as int) / 4));
        assert(t[1] == base64_digit(url_safe, ((a[0] as int) % 4) * 16 + (a[1] as int) / 16));
        assert(t[2] == base64_digit(url_safe, ((a[1] as int) % 16) * 4 + (a[2] as int) / 64));
        assert(t[3] == base64_digit(url_safe, (a[2] as int) % 64));
        lemma_base64_quad(url_safe, a, b);
        lemma_base64_injective(
            url_safe,
            pad,
            a.subrange(3, a.len() as int),
            b.subrange(3, b.len() as int),
        );
        assert(a =~= a.subrange(0, 3) + a.subrange(3, a.len() as int));
        assert(b =~= b.subrange(0, 3) + b.subrange(3, b.len() as int));
        assert(a.subrange(0, 3) =~= b.subrange(0, 3));
    }
}

/// URL-safe base64 decodes back to what it encoded.
pub proof fn lemma_base64_url_roundtrip(d: Seq<u8>)
    ensures
        base64_url_decoded(base64_url(d)) == Some(d),
{
    let t = base64_url(d);
    assert(exists|e: Seq<u8>| base64_url(e) == t);
    let c = choose|e: Seq<u8>| base64_url(e) == t;
    lemma_base64_injective(true, false, c, d);
}

/// Standard base64 decodes back to what it encoded.
pub proof fn lemma_base64_standard_roundtrip(d: Seq<u8>)
    ensures
        base64_standard_decoded(base64_standard(d)) == Some(d),
{
    let t = base64_standard(d);
    assert(exists|e: Seq<u8>| base64_standard(e) == t);
    let c = choose|e: Seq<u8>| base64_standard(e) == t;
    lemma_base64_injective(false, true, c, d);
}


/// The longest plaintext (exclusive bound, in bytes) ChaCha20-Poly1305 seals:
/// 2^32 - 1 blocks of 64 bytes.
pub const AEAD_MAX_PLAINTEXT: u64 = 274877906880;

/// The bytes of an optional byte vector.
pub open spec fn opt_bytes(v: Option<Vec<u8>>) -> Option<Seq<u8>> {
    match v {
        Some(b) => Some(b@),
        None => None,
    }
}

/// The characters of an optional string.
pub open spec fn opt_chars(v: Option<String>) -> Option<Seq<char>> {
    match v {
        Some(s) => Some(s@),
        None => None,
    }
}

/// A fresh Ed25519 secret key (`SigningKey::generate` with the OS RNG).
#[verifier::external_body]
pub(crate) fn ed25519_generate_secret() -> [u8; 32] {
    ed25519_dalek::SigningKey::generate(&mut rand::rngs::OsRng).to_bytes()
}

/// The public key of a secret key (`SigningKey::verifying_key`); it always
/// decodes as a public key.
#[verifier::external_body]
pub(crate) fn ed25519_public_key(secret: &[u8; 32]) -> (r: [u8; 32])
    ensures
        r@ == ed25519_public(secret@),
        ed25519_key_valid(r@),
{
    ed25519_dalek::SigningKey::from_bytes(secret).verifying_key().to_bytes()
}

/// Sign a message (`Signer::sign` of `SigningKey`); the signature verifies
/// under the key's public key.
#[verifier::external_body]
pub(crate) fn ed25519_sign_message(secret: &[u8; 32], message: &[u8]) -> (r: [u8; 64])
    ensures
        r@ == ed25519_sign(secret@, message@),
        ed25519_verify(ed25519_public(secret@), message@, r@),
{
    ed25519_dalek::SigningKey::from_bytes(secret).sign(message).to_bytes()
}

/// Whether bytes decode as a public key (`VerifyingKey::from_bytes` is `Ok`).
#[verifier::external_body]
pub(crate) fn ed25519_public_key_valid(public: &[u8; 32]) -> (r: bool)
    ensures
        r == ed25519_key_valid(public@),
{
    ed25519_dalek::VerifyingKey::from_bytes(public).is_ok()
}

/// Verify a signature (`VerifyingKey::from_bytes`, then `Verifier::verify`).
#[verifier::external_body]
pub(crate) fn ed25519_verify_signature(public: &[u8; 32], message: &[u8], signature: &[u8; 64]) -> (r:
    bool)
    ensures
        r == ed25519_verify(public@, message@, signature@),
{
    match ed25519_dalek::VerifyingKey::from_bytes(public) {
        Ok(key) => key.verify(message, &ed25519_dalek::Signature::from_bytes(signature)).is_ok(),
        Err(_) => false,
    }
}

/// A fresh X25519 secret (`StaticSecret::random_from_rng`).
#[verifier::external_body]
pub(crate) fn x25519_generate_secret() -> [u8; 32] {
    x25519_dalek::StaticSecret::random_from_rng(rand::thread_rng()).to_bytes()
}

/// The X25519 public key of a secret (`PublicKey::from(&StaticSecret)`).
#[verifier::external_body]
pub(crate) fn x25519_public_key(secret: &[u8; 32]) -> (r: [u8; 32])
    ensures
        r@ == x25519_public(secret@),
{
    x25519_dalek::PublicKey::from(&x25519_dalek::StaticSecret::from(*secret)).to_bytes()
}

/// Diffie-Hellman (`StaticSecret::diffie_hellman`). Both sides agree: when
/// the peer's public key is that of some secret, the peer computes the same
/// shared secret from its own secret and this side's public key.
#[verifier::external_body]
pub(crate) fn x25519_diffie_hellman(secret: &[u8; 32], peer_public: &[u8; 32]) -> (r: [u8; 32])
    ensures
        r@ == x25519_shared(secret@, peer_public@),
        forall|other: Seq<u8>|
            other.len() == 32 && peer_public@ == #[trigger] x25519_public(other) ==> r@
                == x25519_shared(other, x25519_public(secret@)),
{
    x25519_dalek::StaticSecret::from(*secret).diffie_hellman(
        &x25519_dalek::PublicKey::from(*peer_public),
    ).to_bytes()
}

/// BLAKE3 key derivation (`blake3::derive_key`).
#[verifier::external_body]
pub(crate) fn blake3_derive_key(context: &str, material: &[u8]) -> (r: [u8; 32])
    ensures
        r@ == blake3_derive(context@, material@),
{
    blake3::derive_key(context, material)
}

/// The BLAKE3 hash of some bytes (`blake3::hash`; hashing pieces one after
/// another with `Hasher::update` gives the hash of their concatenation).
#[verifier::external_body]
pub(crate) fn blake3_hash(data: &[u8]) -> (r: [u8; 32])
    ensures
        r@ == blake3_hash_of(data@),
{
    *blake3::hash(data).as_bytes()
}

/// ChaCha20-Poly1305 encryption (`Aead::encrypt`). It fails exactly on a
/// plaintext of `AEAD_MAX_PLAINTEXT` bytes or more; the ciphertext is 16
/// bytes longer than the plaintext and opens to it under the same key and
/// nonce.
#[verifier::external_body]
pub(crate) fn aead_encrypt(key: &[u8; 32], nonce: &[u8; 12], plaintext: &[u8]) -> (r: Option<
    Vec<u8>,
>)
    ensures
        r is Some <==> plaintext@.len() < AEAD_MAX_PLAINTEXT,
        r matches Some(c) ==> c@ == aead_seal(key@, nonce@, plaintext@) && c@.len()
            == plaintext@.len() + 16 && aead_open(key@, nonce@, c@) == Some(plaintext@),
{
    let cipher = chacha20poly1305::ChaCha20Poly1305::new(chacha20poly1305::Key::from_slice(key));
    cipher.encrypt(chacha20poly1305::Nonce::from_slice(nonce), plaintext).ok()
}

/// ChaCha20-Poly1305 decryption (`Aead::decrypt`).
#[verifier::external_body]
pub(crate) fn aead_decrypt(key: &[u8; 32], nonce: &[u8; 12], ciphertext: &[u8]) -> (r: Option<
    Vec<u8>,
>)
    ensures
        opt_bytes(r) == aead_open(key@, nonce@, ciphertext@),
{
    let cipher = chacha20poly1305::ChaCha20Poly1305::new(chacha20poly1305::Key::from_slice(key));
    cipher.decrypt(chacha20poly1305::Nonce::from_slice(nonce), ciphertext).ok()
}

/// URL-safe base64 without padding (`URL_SAFE_NO_PAD.encode`).
#[verifier::external_body]
pub(crate) fn base64_url_encode(data: &[u8]) -> (r: String)
    ensures
        r@ == base64_url(data@),
{
    base64::engine::general_purpose::URL_SAFE_NO_PAD.encode(data)
}

/// URL-safe base64 decoding without padding (`URL_SAFE_NO_PAD.decode`): the
/// engine requires no padding and zero trailing bits, so it accepts exactly
/// the texts that `encode` produces and gives back the encoded bytes.
#[verifier::external_body]
pub(crate) fn base64_url_decode(text: &str) -> (r: Option<Vec<u8>>)
    ensures
        opt_bytes(r) == base64_url_decoded(text@),
{
    base64::engine::general_purpose::URL_SAFE_NO_PAD.decode(text).ok()
}

/// Fill 8 bytes from the thread RNG (`RngCore::fill_bytes`).
#[verifier::external_body]
pub(crate) fn random_bytes_8() -> [u8; 8] {
    let mut b = [0u8; 8];
    rand::RngCore::fill_bytes(&mut rand::thread_rng(), &mut b);
    b
}

/// Fill 12 bytes from the thread RNG (`RngCore::fill_bytes`).
#[verifier::external_body]
pub(crate) fn random_bytes_12() -> [u8; 12] {
    let mut b = [0u8; 12];
    rand::RngCore::fill_bytes(&mut rand::thread_rng(), &mut b);
    b
}

/// Fill 16 bytes from the thread RNG (`RngCore::fill_bytes`).
#[verifier::external_body]
pub(crate) fn random_bytes_16() -> [u8; 16] {
    let mut b = [0u8; 16];
    rand::RngCore::fill_bytes(&mut rand::thread_rng(), &mut b);
    b
}

/// Fill 32 bytes from the thread RNG (`RngCore::fill_bytes`).
#[verifier::external_body]
pub(crate) fn random_bytes_32() -> [u8; 32] {
    let mut b = [0u8; 32];
    rand::RngCore::fill_bytes(&mut rand::thread_rng(), &mut b);
    b
}

/// RFC 3339 text of an instant (`DateTime::from_timestamp_millis`, then
/// `to_rfc3339`).
#[verifier::external_body]
pub(crate) fn format_rfc3339(millis: i64) -> (r: Option<String>)
    ensures
        opt_chars(r) == rfc3339_of_millis(millis),
{
    match chrono::DateTime::from_timestamp_millis(millis) {
        Some(t) => Some(t.to_rfc3339()),
        None => None,
    }
}

/// Whether a character is alphanumeric (`char::is_alphanumeric`).
#[verifier::external_body]
pub(crate) fn char_is_alphanumeric(c: char) -> (r: bool)
    ensures
        r == unicode_alphanumeric(c),
{
    c.is_alphanumeric()
}

/// The Unicode lower-case form of a string (`str::to_lowercase`), as
/// characters.
#[verifier::external_body]
pub(crate) fn lowercase_chars(s: &str) -> (r: Vec<char>)
    ensures
        r@ == unicode_lowercase(s@),
{
    s.to_lowercase().chars().collect()
}

/// Standard base64 with padding (`STANDARD.encode`).
#[verifier::external_body]
pub(crate) fn base64_standard_encode(data: &[u8]) -> (r: String)
    ensures
        r@ == base64_standard(data@),
{
    base64::engine::general_purpose::STANDARD.encode(data)
}

/// Standard base64 decoding with padding (`STANDARD.decode`): the engine
/// requires canonical padding and zero trailing bits, so it accepts exactly
/// the texts that `encode` produces and gives back the encoded bytes; the
/// error is the text of the `DecodeError`, which is not stated here.
#[verifier::external_body]
pub(crate) fn base64_standard_decode(text: &str) -> (r: Result<Vec<u8>, String>)
    ensures
        r is Ok <==> base64_standard_decoded(text@) is Some,
        r matches Ok(v) ==> Some(v@) == base64_standard_decoded(text@),
{
    match base64::engine::general_purpose::STANDARD.decode(text) {
        Ok(v) => Ok(v),
        Err(e) => Err(e.to_string()),
    }
}

/// Decode UTF-8 bytes into a string (`String::from_utf8`): `Ok` exactly on
/// valid UTF-8, holding the characters the bytes encode.
#[verifier::external_body]
pub(crate) fn string_from_utf8(bytes: Vec<u8>) -> (r: Option<String>)
    ensures
        r is Some <==> vstd::utf8::valid_utf8(bytes@),
        r matches Some(s) ==> s@ == vstd::utf8::decode_utf8(bytes@),
{
    String::from_utf8(bytes).ok()
}

} // verus!
