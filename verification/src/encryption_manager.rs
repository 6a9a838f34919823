//! The keys of the drives this node can open: its key-exchange pair, the
//! drive keys it has unwrapped (by drive id), and file encryption under
//! them. A drive key not yet unwrapped is taken from its stored wrapped
//! form, which the caller reads from storage and hands in.
use vstd::prelude::*;
use crate::assoc::{assoc_find, assoc_insert, assoc_map, assoc_wf};
use crate::encryption::{
    cipher_failure, opened_payload, DriveEncryption, DriveKey, EncryptionError, ENCRYPTION_VERSION,
};
use crate::key_exchange::{unwrapped, wrap_key, KeyExchangeError, KeyExchangePair, WrappedKey};
use crate::primitives::{aead_open, x25519_public, x25519_shared, AEAD_MAX_PLAINTEXT};

verus! {

/// Errors from the encryption manager.
#[derive(Debug)]
pub enum EncryptionManagerError {
    /// No key for the drive.
    KeyNotFound(String),
    /// A key exchange error.
    KeyExchangeError(KeyExchangeError),
    /// An encryption or decryption error.
    EncryptionError(EncryptionError),
    /// A storage error.
    StorageError(String),
}

impl EncryptionManagerError {
    /// The message of an error.
    pub open spec fn spec_message(&self) -> Seq<char> {
        match self {
            EncryptionManagerError::KeyNotFound(id) => "No encryption key for drive: "@ + id@,
            EncryptionManagerError::KeyExchangeError(e) => "Key exchange error: "@ + e.spec_message(),
            EncryptionManagerError::EncryptionError(e) => "Encryption error: "@ + e.spec_message(),
            EncryptionManagerError::StorageError(m) => "Storage error: "@ + m@,
        }
    }

    /// The message of an error.
    pub fn message(&self) -> (s: String)
        ensures
            s@ == self.spec_message(),
    {
        let (prefix, detail) = match self {
            EncryptionManagerError::KeyNotFound(id) => (
                "No encryption key for drive: ",
                id.clone(),
            ),
            EncryptionManagerError::KeyExchangeError(e) => ("Key exchange error: ", e.message()),
            EncryptionManagerError::EncryptionError(e) => ("Encryption error: ", e.message()),
            EncryptionManagerError::StorageError(m) => ("Storage error: ", m.clone()),
        };
        let mut s = String::from_str(prefix);
        s.append(detail.as_str());
        s
    }
}

/// The drive key that stored wrapped-key bytes (ephemeral key, nonce,
/// ciphertext) give to the holder of an X25519 secret; `None` where the bytes
/// are too short, do not authenticate, or do not hold a 32-byte key.
pub open spec fn stored_key(secret: Seq<u8>, bytes: Seq<u8>) -> Option<Seq<u8>> {
    if bytes.len() < 92 {
        None
    } else {
        match aead_open(
            wrap_key(x25519_shared(secret, bytes.subrange(0, 32))),
            bytes.subrange(32, 44),
            bytes.subrange(44, bytes.len() as int),
        ) {
            Some(k) => if k.len() == 32 {
                Some(k)
            } else {
                None
            },
            None => None,
        }
    }
}

/// The bytes of an optional byte slice.
pub open spec fn opt_slice(b: Option<&[u8]>) -> Option<Seq<u8>> {
    match b {
        Some(x) => Some(x@),
        None => None,
    }
}

/// The key of a drive a manager can use: the unwrapped one it holds, else
/// the one its stored wrapped form gives.
pub open spec fn available_key(
    cache: Map<Seq<char>, Seq<u8>>,
    secret: Seq<u8>,
    drive_id: Seq<char>,
    stored: Option<Seq<u8>>,
) -> Option<Seq<u8>> {
    if cache.dom().contains(drive_id) {
        Some(cache[drive_id])
    } else {
        match stored {
            Some(b) => stored_key(secret, b),
            None => None,
        }
    }
}

/// The drive keys a node holds, and its key-exchange pair.
pub struct EncryptionManager {
    exchange_keypair: KeyExchangePair,
    cached_keys: Vec<(String, DriveKey)>,
}

impl EncryptionManager {
    /// The key pair is consistent and each drive has one key.
    pub closed spec fn wf(&self) -> bool {
        self.exchange_keypair.wf() && assoc_wf(self.cached_keys@)
    }

    /// The secret of the key-exchange pair.
    pub closed spec fn secret_view(&self) -> Seq<u8> {
        self.exchange_keypair.secret_view()
    }

    /// The public key of the key-exchange pair.
    pub closed spec fn public_view(&self) -> Seq<u8> {
        self.exchange_keypair.public_view()
    }

    /// The unwrapped drive keys, by drive id.
    pub closed spec fn cache_view(&self) -> Map<Seq<char>, Seq<u8>> {
        Map::new(
            |d: Seq<char>| assoc_map(self.cached_keys@).dom().contains(d),
            |d: Seq<char>| assoc_map(self.cached_keys@)[d].view_bytes(),
        )
    }

    /// A manager with a key-exchange pair and no drive keys.
    pub fn new(exchange_keypair: KeyExchangePair) -> (m: EncryptionManager)
        requires
            exchange_keypair.wf(),
        ensures
            m.wf(),
            m.secret_view() == exchange_keypair.secret_view(),
            m.public_view() == exchange_keypair.public_view(),
            m.cache_view() == Map::<Seq<char>, Seq<u8>>::empty(),
    {
        let m = EncryptionManager { exchange_keypair, cached_keys: Vec::new() };
        assert(m.cache_view() =~= Map::<Seq<char>, Seq<u8>>::empty());
        m
    }

    /// The key-exchange pair from its stored secret, or a new one (then
    /// `true`: it is to be stored).
    pub fn keypair_from_storage(stored: Option<[u8; 32]>) -> (r: (KeyExchangePair, bool))
        ensures
            r.0.wf(),
            match stored {
                Some(b) => r.0.secret_view() == b@ && !r.1,
                None => r.1,
            },
    {
        match stored {
            Some(b) => (KeyExchangePair::from_bytes(&b), false),
            None => (KeyExchangePair::generate(), true),
        }
    }

    /// Our public key, for receiving wrapped drive keys.
    pub fn public_key(&self) -> (r: [u8; 32])
        ensures
            r@ == self.public_view(),
    {
        self.exchange_keypair.public_bytes()
    }

    /// Whether the key of a drive is already unwrapped.
    pub fn is_cached(&self, drive_id: &str) -> (r: bool)
        requires
            self.wf(),
        ensures
            r == self.cache_view().dom().contains(drive_id@),
    {
        assoc_find(&self.cached_keys, drive_id).is_some()
    }

    fn cached_key(&self, drive_id: &str) -> (r: Option<DriveKey>)
        requires
            self.wf(),
        ensures
            r is Some <==> self.cache_view().dom().contains(drive_id@),
            r matches Some(k) ==> k.view_bytes() == self.cache_view()[drive_id@],
    {
        match assoc_find(&self.cached_keys, drive_id) {
            Some(i) => Some(self.cached_keys[i].1.copy()),
            None => None,
        }
    }

    fn cache_key(&mut self, drive_id: &str, key: DriveKey)
        requires
            old(self).wf(),
        ensures
            final(self).wf(),
            final(self).cache_view() == old(self).cache_view().insert(drive_id@, key.view_bytes()),
            final(self).secret_view() == old(self).secret_view(),
            final(self).public_view() == old(self).public_view(),
    {
        let ghost k = key;
        assoc_insert(&mut self.cached_keys, drive_id, key);
        assert(self.cache_view() =~= old(self).cache_view().insert(drive_id@, k.view_bytes()));
    }

    /// Generate a new drive key, keep it, and wrap it for the owner: whoever
    /// holds the secret of the owner's public key unwraps it.
    pub fn generate_drive_key(&mut self, drive_id: &str, owner_public_key: &[u8; 32]) -> (r: Result<
        WrappedKey,
        EncryptionManagerError,
    >)
        requires
            old(self).wf(),
        ensures
            final(self).wf(),
            final(self).secret_view() == old(self).secret_view(),
            final(self).public_view() == old(self).public_view(),
            final(self).cache_view().dom().contains(drive_id@),
            final(self).cache_view() == old(self).cache_view().insert(
                drive_id@,
                final(self).cache_view()[drive_id@],
            ),
            r matches Ok(w) && forall|s: Seq<u8>|
                s.len() == 32 && #[trigger] x25519_public(s) == owner_public_key@ ==> unwrapped(s, w)
                    == Some(final(self).cache_view()[drive_id@]),
    {
        let drive_key = DriveKey::generate();
        let wrapped = match KeyExchangePair::wrap_key_for(owner_public_key, drive_key.as_bytes()) {
            Ok(w) => w,
            Err(e) => return Err(EncryptionManagerError::KeyExchangeError(e)),
        };
        let ghost k = drive_key.view_bytes();
        self.cache_key(drive_id, drive_key);
        assert(self.cache_view()[drive_id@] == k);
        Ok(wrapped)
    }

    /// Unwrap a drive key received in an invite and keep it; on an error
    /// nothing is kept.
    pub fn import_drive_key(&mut self, drive_id: &str, wrapped: &WrappedKey) -> (r: Result<
        (),
        EncryptionManagerError,
    >)
        requires
            old(self).wf(),
        ensures
            final(self).wf(),
            final(self).secret_view() == old(self).secret_view(),
            final(self).public_view() == old(self).public_view(),
            match unwrapped(old(self).secret_view(), *wrapped) {
                Some(k) => if k.len() == 32 {
                    r is Ok && final(self).cache_view() == old(self).cache_view().insert(drive_id@, k)
                } else {
                    (r matches Err(EncryptionManagerError::KeyExchangeError(
                        KeyExchangeError::InvalidFormat,
                    ))) && final(self).cache_view() == old(self).cache_view()
                },
                None => (r matches Err(EncryptionManagerError::KeyExchangeError(
                    KeyExchangeError::UnwrapFailed(_),
                ))) && final(self).cache_view() == old(self).cache_view(),
            },
    {
        let bytes = match self.exchange_keypair.unwrap_key(wrapped) {
            Ok(b) => b,
            Err(e) => return Err(EncryptionManagerError::KeyExchangeError(e)),
        };
        self.cache_key(drive_id, DriveKey::from_bytes(bytes));
        Ok(())
    }

    /// The drive key stored wrapped bytes give to this node.
    fn key_from_storage(&self, bytes: &[u8]) -> (r: Result<DriveKey, KeyExchangeError>)
        requires
            self.wf(),
        ensures
            match stored_key(self.secret_view(), bytes@) {
                Some(k) => r matches Ok(d) && d.view_bytes() == k,
                None => r is Err,
            },
    {
        let wrapped = match WrappedKey::from_bytes(bytes) {
            Ok(w) => w,
            Err(e) => return Err(e),
        };
        match self.exchange_keypair.unwrap_key(&wrapped) {
            Ok(k) => Ok(DriveKey::from_bytes(k)),
            Err(e) => Err(e),
        }
    }

    /// The encryption of a drive: with the key held for it, else with the one
    /// its stored wrapped form gives (which is then kept); `None` where there
    /// is neither.
    pub fn get_encryption(&mut self, drive_id: &str, stored: Option<&[u8]>) -> (r: Option<
        DriveEncryption,
    >)
        requires
            old(self).wf(),
        ensures
            final(self).wf(),
            final(self).secret_view() == old(self).secret_view(),
            final(self).public_view() == old(self).public_view(),
            match available_key(
                old(self).cache_view(),
                old(self).secret_view(),
                drive_id@,
                opt_slice(stored),
            ) {
                Some(k) => r matches Some(e) && e.key_view() == k && final(self).cache_view()
                    == old(self).cache_view().insert(drive_id@, k),
                None => r is None && final(self).cache_view() == old(self).cache_view(),
            },
    {
        match self.cached_key(drive_id) {
            Some(k) => {
                assert(old(self).cache_view().insert(drive_id@, k.view_bytes()) =~= old(
                    self,
                ).cache_view());
                return Some(DriveEncryption::new(k));
            },
            None => {},
        }
        match stored {
            Some(bytes) => match self.key_from_storage(bytes) {
                Ok(key) => {
                    self.cache_key(drive_id, key.copy());
                    Some(DriveEncryption::new(key))
                },
                Err(_) => None,
            },
            None => None,
        }
    }

    /// Whether this node can open a drive (see `get_encryption`).
    pub fn has_key(&mut self, drive_id: &str, stored: Option<&[u8]>) -> (r: bool)
        requires
            old(self).wf(),
        ensures
            final(self).wf(),
            final(self).secret_view() == old(self).secret_view(),
            final(self).public_view() == old(self).public_view(),
            match available_key(
                old(self).cache_view(),
                old(self).secret_view(),
                drive_id@,
                opt_slice(stored),
            ) {
                Some(k) => final(self).cache_view() == old(self).cache_view().insert(drive_id@, k),
                None => final(self).cache_view() == old(self).cache_view(),
            },
            r == available_key(
                old(self).cache_view(),
                old(self).secret_view(),
                drive_id@,
                opt_slice(stored),
            ) is Some,
    {
        self.get_encryption(drive_id, stored).is_some()
    }

    /// Wrap the key of a drive for a new user: whoever holds the secret of the
    /// user's public key unwraps it. Without a key held or stored for the
    /// drive, `KeyNotFound`; a stored form that does not open is a key
    /// exchange error.
    pub fn wrap_key_for_user(&self, drive_id: &str, stored: Option<&[u8]>, user_public_key: &[u8; 32]) -> (r:
        Result<WrappedKey, EncryptionManagerError>)
        requires
            self.wf(),
        ensures
            match available_key(self.cache_view(), self.secret_view(), drive_id@, opt_slice(stored)) {
                Some(k) => r matches Ok(w) && forall|s: Seq<u8>|
                    s.len() == 32 && #[trigger] x25519_public(s) == user_public_key@ ==> unwrapped(
                        s,
                        w,
                    ) == Some(k),
                None => if !self.cache_view().dom().contains(drive_id@) && stored is None {
                    r matches Err(EncryptionManagerError::KeyNotFound(id)) && id@ == drive_id@
                } else {
                    r matches Err(EncryptionManagerError::KeyExchangeError(_))
                },
            },
    {
        let drive_key = match self.cached_key(drive_id) {
            Some(k) => k,
            None => match stored {
                Some(bytes) => match self.key_from_storage(bytes) {
                    Ok(k) => k,
                    Err(e) => return Err(EncryptionManagerError::KeyExchangeError(e)),
                },
                None => return Err(EncryptionManagerError::KeyNotFound(String::from_str(drive_id))),
            },
        };
        match KeyExchangePair::wrap_key_for(user_public_key, drive_key.as_bytes()) {
            Ok(w) => Ok(w),
            Err(e) => Err(EncryptionManagerError::KeyExchangeError(e)),
        }
    }

    /// Encrypt file content of a drive under the key of its path.
    pub fn encrypt_file(&mut self, drive_id: &str, path: &str, plaintext: &[u8], stored: Option<&[u8]>) -> (r:
        Result<Vec<u8>, EncryptionManagerError>)
        requires
            old(self).wf(),
        ensures
            final(self).wf(),
            final(self).secret_view() == old(self).secret_view(),
            final(self).public_view() == old(self).public_view(),
            match available_key(
                old(self).cache_view(),
                old(self).secret_view(),
                drive_id@,
                opt_slice(stored),
            ) {
                Some(k) => final(self).cache_view() == old(self).cache_view().insert(drive_id@, k),
                None => final(self).cache_view() == old(self).cache_view(),
            },
            match available_key(
                old(self).cache_view(),
                old(self).secret_view(),
                drive_id@,
                opt_slice(stored),
            ) {
                Some(k) => if plaintext@.len() < AEAD_MAX_PLAINTEXT {
                    r matches Ok(out) && opened_payload(k, path@, out@) == Some(plaintext@)
                } else {
                    r matches Err(EncryptionManagerError::EncryptionError(
                        EncryptionError::EncryptionFailed(m),
                    )) && m@ == cipher_failure()
                },
                None => r matches Err(EncryptionManagerError::KeyNotFound(id)) && id@ == drive_id@,
            },
    {
        let encryption = match self.get_encryption(drive_id, stored) {
            Some(e) => e,
            None => return Err(EncryptionManagerError::KeyNotFound(String::from_str(drive_id))),
        };
        match encryption.encrypt(plaintext, path) {
            Ok(out) => Ok(out),
            Err(e) => Err(EncryptionManagerError::EncryptionError(e)),
        }
    }

    /// Decrypt file content of a drive under the key of its path.
    pub fn decrypt_file(&mut self, drive_id: &str, path: &str, ciphertext: &[u8], stored: Option<&[u8]>) -> (r:
        Result<Vec<u8>, EncryptionManagerError>)
        requires
            old(self).wf(),
        ensures
            final(self).wf(),
            final(self).secret_view() == old(self).secret_view(),
            final(self).public_view() == old(self).public_view(),
            match available_key(
                old(self).cache_view(),
                old(self).secret_view(),
                drive_id@,
                opt_slice(stored),
            ) {
                Some(k) => final(self).cache_view() == old(self).cache_view().insert(drive_id@, k),
                None => final(self).cache_view() == old(self).cache_view(),
            },
            match available_key(
                old(self).cache_view(),
                old(self).secret_view(),
                drive_id@,
                opt_slice(stored),
            ) {
                Some(k) => if ciphertext@.len() < 29 {
                    r matches Err(EncryptionManagerError::EncryptionError(
                        EncryptionError::InvalidFormat,
                    ))
                } else if ciphertext@[0] != ENCRYPTION_VERSION {
                    r matches Err(EncryptionManagerError::EncryptionError(
                        EncryptionError::UnsupportedVersion(v),
                    )) && v == ciphertext@[0]
                } else {
                    match opened_payload(k, path@, ciphertext@) {
                        Some(p) => r matches Ok(out) && out@ == p,
                        None => r matches Err(EncryptionManagerError::EncryptionError(
                            EncryptionError::DecryptionFailed(m),
                        )) && m@ == cipher_failure(),
                    }
                },
                None => r matches Err(EncryptionManagerError::KeyNotFound(id)) && id@ == drive_id@,
            },
    {
        let encryption = match self.get_encryption(drive_id, stored) {
            Some(e) => e,
            None => return Err(EncryptionManagerError::KeyNotFound(String::from_str(drive_id))),
        };
        match encryption.decrypt(ciphertext, path) {
            Ok(out) => Ok(out),
            Err(e) => Err(EncryptionManagerError::EncryptionError(e)),
        }
    }

    /// Forget every unwrapped key; `true` where there was one.
    pub fn clear_cache(&mut self) -> (r: bool)
        requires
            old(self).wf(),
        ensures
            final(self).wf(),
            final(self).secret_view() == old(self).secret_view(),
            final(self).public_view() == old(self).public_view(),
            final(self).cache_view() == Map::<Seq<char>, Seq<u8>>::empty(),
            r == (old(self).cache_view() != Map::<Seq<char>, Seq<u8>>::empty()),
    {
        if self.cached_keys.len() == 0 {
            assert(self.cache_view() =~= Map::<Seq<char>, Seq<u8>>::empty());
            return false;
        }
        let ghost first = self.cached_keys@[0].0@;
        proof {
            crate::assoc::lemma_assoc_at(self.cached_keys@, 0);
            assert(self.cache_view().dom().contains(first));
        }
        self.cached_keys = Vec::new();
        assert(self.cache_view() =~= Map::<Seq<char>, Seq<u8>>::empty());
        true
    }
}

} // verus!
