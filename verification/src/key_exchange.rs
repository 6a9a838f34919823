//! Sharing drive keys between peers: X25519 key agreement, and drive keys
//! wrapped with ChaCha20-Poly1305 under a key derived from the agreed secret.
use vstd::prelude::*;
use crate::assoc::{
    assoc_find, assoc_insert, assoc_key_list, assoc_keys, assoc_map, assoc_remove, assoc_wf,
    lemma_assoc_len,
};
use crate::bytes::{extend_bytes, sub_bytes, to_array_12, to_array_32};
use crate::primitives::{
    aead_decrypt, aead_encrypt, aead_open, aead_seal, blake3_derive, blake3_derive_key,
    random_bytes_12, x25519_diffie_hellman, x25519_generate_secret, x25519_public,
    x25519_public_key, x25519_shared,
};

verus! {

/// Size of a ChaCha20 nonce.
pub const WRAP_NONCE_SIZE: usize = 12;

/// Size of an X25519 public key.
pub const PUBLIC_KEY_SIZE: usize = 32;

/// Errors from key exchange.
#[derive(Debug)]
pub enum KeyExchangeError {
    /// Failed to generate keypair.
    GenerationFailed,
    /// Invalid public key.
    InvalidPublicKey,
    /// Key wrapping failed.
    WrapFailed(String),
    /// Key unwrapping failed.
    UnwrapFailed(String),
    /// Invalid wrapped key format.
    InvalidFormat,
}

impl KeyExchangeError {
    /// The message of an error.
    pub open spec fn spec_message(&self) -> Seq<char> {
        match self {
            KeyExchangeError::GenerationFailed => "Failed to generate keypair"@,
            KeyExchangeError::InvalidPublicKey => "Invalid public key"@,
            KeyExchangeError::WrapFailed(m) => "Key wrapping failed: "@ + m@,
            KeyExchangeError::UnwrapFailed(m) => "Key unwrapping failed: "@ + m@,
            KeyExchangeError::InvalidFormat => "Invalid wrapped key format"@,
        }
    }

    /// The message of an error.
    pub fn message(&self) -> (s: String)
        ensures
            s@ == self.spec_message(),
    {
        match self {
            KeyExchangeError::GenerationFailed => String::from_str("Failed to generate keypair"),
            KeyExchangeError::InvalidPublicKey => String::from_str("Invalid public key"),
            KeyExchangeError::WrapFailed(m) => {
                let mut s = String::from_str("Key wrapping failed: ");
                s.append(m.as_str());
                s
            },
            KeyExchangeError::UnwrapFailed(m) => {
                let mut s = String::from_str("Key unwrapping failed: ");
                s.append(m.as_str());
                s
            },
            KeyExchangeError::InvalidFormat => String::from_str("Invalid wrapped key format"),
        }
    }
}

/// The key that wraps drive keys, derived from a shared secret.
pub open spec fn wrap_key(shared: Seq<u8>) -> Seq<u8> {
    blake3_derive("gix-drive:key-wrap"@, shared)
}

/// What a wrapped key opens to under a recipient's secret.
pub open spec fn unwrapped(secret: Seq<u8>, w: WrappedKey) -> Option<Seq<u8>> {
    aead_open(wrap_key(x25519_shared(secret, w.ephemeral_public@)), w.nonce@, w.ciphertext@)
}

/// A user's X25519 key pair, used to receive wrapped drive keys.
pub struct KeyExchangePair {
    secret: [u8; 32],
    public: [u8; 32],
}

impl KeyExchangePair {
    /// The secret key bytes.
    pub closed spec fn secret_view(&self) -> Seq<u8> {
        self.secret@
    }

    /// The public key bytes.
    pub closed spec fn public_view(&self) -> Seq<u8> {
        self.public@
    }

    /// The public key is that of the secret.
    pub closed spec fn wf(&self) -> bool {
        self.public@ == x25519_public(self.secret@)
    }

    /// Generate a new random key pair.
    pub fn generate() -> (p: KeyExchangePair)
        ensures
            p.wf(),
            p.secret_view().len() == 32,
    {
        let secret = x25519_generate_secret();
        let public = x25519_public_key(&secret);
        KeyExchangePair { secret, public }
    }

    /// Create from existing secret key bytes.
    pub fn from_bytes(bytes: &[u8; 32]) -> (p: KeyExchangePair)
        ensures
            p.wf(),
            p.secret_view() == bytes@,
            p.public_view() == x25519_public(bytes@),
    {
        let public = x25519_public_key(bytes);
        KeyExchangePair { secret: *bytes, public }
    }

    /// The secret key bytes, for secure storage.
    pub fn secret_bytes(&self) -> (r: [u8; 32])
        ensures
            r@ == self.secret_view(),
    {
        self.secret
    }

    /// The public key, for sharing.
    pub fn public_key(&self) -> (r: &[u8; 32])
        ensures
            r@ == self.public_view(),
    {
        &self.public
    }

    /// The public key bytes.
    pub fn public_bytes(&self) -> (r: [u8; 32])
        ensures
            r@ == self.public_view(),
    {
        self.public
    }

    /// A copy of the key pair (rebuilt from the secret).
    pub fn copy(&self) -> (p: KeyExchangePair)
        requires
            self.wf(),
        ensures
            p.wf(),
            p.secret_view() == self.secret_view(),
            p.public_view() == self.public_view(),
    {
        Self::from_bytes(&self.secret)
    }

    /// Diffie-Hellman with a peer's public key: the shared secret.
    pub fn diffie_hellman(&self, peer_public: &[u8; 32]) -> (r: [u8; 32])
        ensures
            r@ == x25519_shared(self.secret_view(), peer_public@),
    {
        x25519_diffie_hellman(&self.secret, peer_public)
    }

    /// Wrap a drive key for a recipient: a one-time key pair agrees a secret
    /// with the recipient's public key, and the drive key is sealed under the
    /// key derived from it. Whoever holds the secret of that public key
    /// unwraps the drive key.
    pub fn wrap_key_for(recipient_public: &[u8; 32], drive_key: &[u8; 32]) -> (r: Result<
        WrappedKey,
        KeyExchangeError,
    >)
        ensures
            r matches Ok(w) && w.ciphertext@.len() == 48 && forall|s: Seq<u8>|
                s.len() == 32 && #[trigger] x25519_public(s) == recipient_public@ ==> unwrapped(s, w)
                    == Some(drive_key@),
    {
        let ephemeral = x25519_generate_secret();
        let ephemeral_public = x25519_public_key(&ephemeral);
        let shared = x25519_diffie_hellman(&ephemeral, recipient_public);
        let key = blake3_derive_key("gix-drive:key-wrap", &shared);
        let nonce = random_bytes_12();
        match aead_encrypt(&key, &nonce, drive_key) {
            Some(ciphertext) => {
                let w = WrappedKey { ephemeral_public, nonce, ciphertext };
                assert forall|s: Seq<u8>|
                    s.len() == 32 && #[trigger] x25519_public(s) == recipient_public@ implies unwrapped(
                    s,
                    w,
                ) == Some(drive_key@) by {
                    assert(shared@ == x25519_shared(s, x25519_public(ephemeral@)));
                }
                Ok(w)
            },
            None => Err(KeyExchangeError::WrapFailed(String::from_str("aead::Error"))),
        }
    }

    /// Unwrap a drive key sent to this key pair: `UnwrapFailed` where it does
    /// not authenticate, `InvalidFormat` where it is not 32 bytes.
    pub fn unwrap_key(&self, wrapped: &WrappedKey) -> (r: Result<[u8; 32], KeyExchangeError>)
        ensures
            match unwrapped(self.secret_view(), *wrapped) {
                None => r matches Err(KeyExchangeError::UnwrapFailed(m)) && m@ == "aead::Error"@,
                Some(k) => if k.len() == 32 {
                    r matches Ok(a) && a@ == k
                } else {
                    r matches Err(KeyExchangeError::InvalidFormat)
                },
            },
    {
        let shared = x25519_diffie_hellman(&self.secret, &wrapped.ephemeral_public);
        let key = blake3_derive_key("gix-drive:key-wrap", &shared);
        let decrypted = match aead_decrypt(&key, &wrapped.nonce, wrapped.ciphertext.as_slice()) {
            Some(d) => d,
            None => return Err(KeyExchangeError::UnwrapFailed(String::from_str("aead::Error"))),
        };
        if decrypted.len() != 32 {
            return Err(KeyExchangeError::InvalidFormat);
        }
        Ok(to_array_32(decrypted.as_slice()))
    }
}

/// A drive key wrapped for one recipient.
#[derive(Debug)]
pub struct WrappedKey {
    /// Ephemeral public key of this wrap.
    pub ephemeral_public: [u8; 32],
    /// Random nonce of the encryption.
    pub nonce: [u8; 12],
    /// Encrypted drive key and tag.
    pub ciphertext: Vec<u8>,
}

/// The byte form of a wrapped key: ephemeral key, nonce, ciphertext.
pub open spec fn wrapped_bytes(w: WrappedKey) -> Seq<u8> {
    w.ephemeral_public@ + w.nonce@ + w.ciphertext@
}

impl Clone for WrappedKey {
    fn clone(&self) -> (r: WrappedKey)
        ensures
            r.ephemeral_public == self.ephemeral_public,
            r.nonce == self.nonce,
            r.ciphertext@ == self.ciphertext@,
    {
        WrappedKey {
            ephemeral_public: self.ephemeral_public,
            nonce: self.nonce,
            ciphertext: self.ciphertext.clone(),
        }
    }
}

impl WrappedKey {
    /// Serialize to bytes for storage or transmission.
    pub fn to_bytes(&self) -> (r: Vec<u8>)
        ensures
            r@ == wrapped_bytes(*self),
    {
        let mut bytes: Vec<u8> = Vec::new();
        extend_bytes(&mut bytes, &self.ephemeral_public);
        extend_bytes(&mut bytes, &self.nonce);
        extend_bytes(&mut bytes, self.ciphertext.as_slice());
        bytes
    }

    /// Deserialize from bytes: fewer than 92 bytes (key, nonce, a 32-byte key
    /// and its tag) is `InvalidFormat`.
    pub fn from_bytes(bytes: &[u8]) -> (r: Result<WrappedKey, KeyExchangeError>)
        ensures
            bytes@.len() < 92 ==> r matches Err(KeyExchangeError::InvalidFormat),
            bytes@.len() >= 92 ==> (r matches Ok(w) && w.ephemeral_public@ == bytes@.subrange(0, 32)
                && w.nonce@ == bytes@.subrange(32, 44) && w.ciphertext@ == bytes@.subrange(
                44,
                bytes@.len() as int,
            )),
    {
        let min_size = PUBLIC_KEY_SIZE + WRAP_NONCE_SIZE + 32 + 16;
        if bytes.len() < min_size {
            return Err(KeyExchangeError::InvalidFormat);
        }
        let e = sub_bytes(bytes, 0, 32);
        let n = sub_bytes(bytes, 32, 44);
        let ciphertext = sub_bytes(bytes, 44, bytes.len());
        Ok(
            WrappedKey {
                ephemeral_public: to_array_32(e.as_slice()),
                nonce: to_array_12(n.as_slice()),
                ciphertext,
            },
        )
    }
}

/// A wrapped key read back from its bytes is the same wrapped key (when its
/// ciphertext holds at least a key and a tag).
pub proof fn law_wrapped_key_bytes_roundtrip(w: WrappedKey)
    requires
        w.ciphertext@.len() >= 48,
    ensures
        wrapped_bytes(w).len() >= 92,
        wrapped_bytes(w).subrange(0, 32) == w.ephemeral_public@,
        wrapped_bytes(w).subrange(32, 44) == w.nonce@,
        wrapped_bytes(w).subrange(44, wrapped_bytes(w).len() as int) == w.ciphertext@,
{
    assert(wrapped_bytes(w).subrange(0, 32) =~= w.ephemeral_public@);
    assert(wrapped_bytes(w).subrange(32, 44) =~= w.nonce@);
    assert(wrapped_bytes(w).subrange(44, wrapped_bytes(w).len() as int) =~= w.ciphertext@);
}

/// The wrapped keys of all users of a drive.
#[derive(Debug)]
pub struct KeyRing {
    wrapped_keys: Vec<(String, WrappedKey)>,
}

impl KeyRing {
    /// One entry per user.
    pub closed spec fn wf(&self) -> bool {
        assoc_wf(self.wrapped_keys@)
    }

    /// The wrapped keys by user.
    pub closed spec fn keys_view(&self) -> Map<Seq<char>, WrappedKey> {
        assoc_map(self.wrapped_keys@)
    }

    /// The users of a key ring are finitely many.
    pub proof fn lemma_keys_finite(&self)
        ensures
            self.keys_view().dom().finite(),
    {
        crate::assoc::lemma_assoc_finite(self.wrapped_keys@);
    }

    /// An empty keyring.
    pub fn new() -> (k: KeyRing)
        ensures
            k.keys_view().dom().finite(),
            k.wf(),
            k.keys_view() == Map::<Seq<char>, WrappedKey>::empty(),
    {
        KeyRing { wrapped_keys: Vec::new() }
    }

    /// Add (or replace) the wrapped key of a user.
    pub fn add(&mut self, node_id: &str, wrapped_key: WrappedKey)
        requires
            old(self).wf(),
        ensures
            final(self).keys_view().dom().finite(),
            final(self).wf(),
            final(self).keys_view() == old(self).keys_view().insert(node_id@, wrapped_key),
    {
        assoc_insert(&mut self.wrapped_keys, node_id, wrapped_key);
        proof {
            self.lemma_keys_finite();
        }
    }

    /// A user's wrapped key.
    pub fn get(&self, node_id: &str) -> (r: Option<&WrappedKey>)
        requires
            self.wf(),
        ensures
            self.keys_view().dom().contains(node_id@) ==> r == Some(&self.keys_view()[node_id@]),
            !self.keys_view().dom().contains(node_id@) ==> r is None,
    {
        match assoc_find(&self.wrapped_keys, node_id) {
            Some(i) => Some(&self.wrapped_keys[i].1),
            None => None,
        }
    }

    /// Remove a user's wrapped key (revocation), returning it.
    pub fn remove(&mut self, node_id: &str) -> (r: Option<WrappedKey>)
        requires
            old(self).wf(),
        ensures
            final(self).keys_view().dom().finite(),
            final(self).wf(),
            final(self).keys_view() == old(self).keys_view().remove(node_id@),
            old(self).keys_view().dom().contains(node_id@) ==> r == Some(
                old(self).keys_view()[node_id@],
            ),
            !old(self).keys_view().dom().contains(node_id@) ==> r is None,
    {
        let r = assoc_remove(&mut self.wrapped_keys, node_id);
        proof {
            self.lemma_keys_finite();
        }
        r
    }

    /// Whether a user has a wrapped key.
    pub fn has_user(&self, node_id: &str) -> (r: bool)
        requires
            self.wf(),
        ensures
            r == self.keys_view().dom().contains(node_id@),
    {
        assoc_find(&self.wrapped_keys, node_id).is_some()
    }

    /// All users with a wrapped key (each once).
    pub fn users(&self) -> (v: Vec<String>)
        requires
            self.wf(),
        ensures
            forall|k: Seq<char>|
                v@.map_values(|x: String| x@).contains(k) <==> self.keys_view().dom().contains(k),
            v@.map_values(|x: String| x@).no_duplicates(),
    {
        assoc_key_list(&self.wrapped_keys)
    }

    /// The number of users with a wrapped key.
    pub fn len(&self) -> (n: usize)
        requires
            self.wf(),
        ensures
            n == self.keys_view().len(),
    {
        proof {
            lemma_assoc_len(self.wrapped_keys@);
        }
        self.wrapped_keys.len()
    }

    /// Whether no user has a wrapped key.
    pub fn is_empty(&self) -> (r: bool)
        requires
            self.wf(),
        ensures
            r == (self.keys_view().len() == 0),
    {
        proof {
            lemma_assoc_len(self.wrapped_keys@);
        }
        self.wrapped_keys.len() == 0
    }
}

/// A key wrapped for a recipient unwraps, with the recipient's secret, to
/// the drive key that was wrapped.
pub proof fn law_wrap_unwrap(recipient: KeyExchangePair, w: WrappedKey, drive_key: Seq<u8>)
    requires
        recipient.wf(),
        recipient.secret_view().len() == 32,
        forall|s: Seq<u8>|
            s.len() == 32 && #[trigger] x25519_public(s) == recipient.public_view() ==> unwrapped(
                s,
                w,
            ) == Some(drive_key),
    ensures
        unwrapped(recipient.secret_view(), w) == Some(drive_key),
{
    assert(x25519_public(recipient.secret_view()) == recipient.public_view());
}

} // verus!
