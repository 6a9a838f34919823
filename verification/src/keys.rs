//! Node identity: an Ed25519 key pair, and the public node identifier it
//! yields.
use vstd::prelude::*;
use crate::bytes::{to_array_32};
use crate::hex::{decode, encode, hex_decode, hex_encode, is_hex};
use crate::primitives::{
    ed25519_generate_secret, ed25519_key_valid, ed25519_public, ed25519_public_key, ed25519_sign,
    ed25519_sign_message, ed25519_verify,
};
use crate::text::{chars_of, slice_chars, string_from_chars};

verus! {

/// Errors from identity keys.
#[derive(Clone, Copy, Debug, PartialEq, Eq, Structural)]
pub enum KeyError {
    /// Failed to generate keypair.
    GenerationFailed,
    /// Invalid key bytes.
    InvalidKeyBytes,
    /// Signature verification failed.
    VerificationFailed,
}

impl KeyError {
    /// The message of an error.
    pub open spec fn spec_message(self) -> Seq<char> {
        match self {
            KeyError::GenerationFailed => "Failed to generate keypair"@,
            KeyError::InvalidKeyBytes => "Invalid key bytes"@,
            KeyError::VerificationFailed => "Signature verification failed"@,
        }
    }

    /// The message of an error.
    pub fn message(&self) -> (s: String)
        ensures
            s@ == self.spec_message(),
    {
        match self {
            KeyError::GenerationFailed => String::from_str("Failed to generate keypair"),
            KeyError::InvalidKeyBytes => String::from_str("Invalid key bytes"),
            KeyError::VerificationFailed => String::from_str("Signature verification failed"),
        }
    }
}

/// A node's signing identity: the 32-byte Ed25519 secret key.
pub struct Identity {
    secret: [u8; 32],
}

impl Identity {
    /// The secret key bytes.
    pub closed spec fn secret_view(&self) -> Seq<u8> {
        self.secret@
    }

    /// Generate a new random identity.
    pub fn generate() -> (id: Identity)
        ensures
            id.secret_view().len() == 32,
    {
        Identity { secret: ed25519_generate_secret() }
    }

    /// Restore an identity from secret key bytes.
    pub fn from_bytes(bytes: &[u8; 32]) -> (r: Result<Identity, KeyError>)
        ensures
            r matches Ok(id) && id.secret_view() == bytes@,
    {
        Ok(Identity { secret: *bytes })
    }

    /// The secret key bytes, for storage.
    pub fn to_bytes(&self) -> (r: [u8; 32])
        ensures
            r@ == self.secret_view(),
    {
        self.secret
    }

    /// The public node identifier: the Ed25519 public key.
    pub fn node_id(&self) -> (n: NodeId)
        ensures
            n.0@ == ed25519_public(self.secret_view()),
            ed25519_key_valid(n.0@),
    {
        NodeId(ed25519_public_key(&self.secret))
    }

    /// Sign a message; the signature verifies under this identity's node id.
    pub fn sign(&self, message: &[u8]) -> (sig: [u8; 64])
        ensures
            sig@ == ed25519_sign(self.secret_view(), message@),
            ed25519_verify(ed25519_public(self.secret_view()), message@, sig@),
    {
        ed25519_sign_message(&self.secret, message)
    }

    /// The public key that verifies this identity's signatures.
    pub fn verifying_key(&self) -> (k: [u8; 32])
        ensures
            k@ == ed25519_public(self.secret_view()),
    {
        ed25519_public_key(&self.secret)
    }
}

/// An identity restored from its stored bytes has the same node id and signs
/// the same.
pub proof fn law_identity_roundtrip(a: Identity, b: Identity, message: Seq<u8>)
    requires
        b.secret_view() == a.secret_view(),
    ensures
        ed25519_public(b.secret_view()) == ed25519_public(a.secret_view()),
        ed25519_sign(b.secret_view(), message) == ed25519_sign(a.secret_view(), message),
{
}

/// Public node identifier (32-byte Ed25519 public key).
#[derive(Clone, Copy, Debug, PartialEq, Eq, Hash)]
pub struct NodeId(pub [u8; 32]);

/// The short display form of a hex string: its first 8 characters, `...`,
/// and its characters from the 56th on.
pub open spec fn short_hex(h: Seq<char>) -> Seq<char> {
    h.subrange(0, 8) + "..."@ + h.subrange(56, h.len() as int)
}

impl NodeId {
    /// The raw bytes.
    pub fn as_bytes(&self) -> (r: &[u8; 32])
        ensures
            r@ == self.0@,
    {
        &self.0
    }

    /// Display as truncated hex for UI (first 8 + last 8 characters).
    pub fn short_string(&self) -> (s: String)
        ensures
            s@ == short_hex(hex_encode(self.0@)),
    {
        let h = chars_of(self.to_hex().as_str());
        assert(h@.len() == 64);
        let head = slice_chars(h.as_slice(), 0, 8);
        let tail = slice_chars(h.as_slice(), 56, 64);
        let mut s = string_from_chars(head.as_slice());
        s.append("...");
        let t = string_from_chars(tail.as_slice());
        s.append(t.as_str());
        proof {
            reveal_strlit("...");
        }
        s
    }

    /// Full hex representation.
    pub fn to_hex(self) -> (s: String)
        ensures
            s@ == hex_encode(self.0@),
    {
        encode(&self.0)
    }

    /// Parse from a hex string of 64 hex digits.
    pub fn from_hex(s: &str) -> (r: Result<NodeId, KeyError>)
        ensures
            r is Ok <==> is_hex(s@) && s@.len() == 64,
            r matches Ok(n) ==> n.0@ == hex_decode(s@),
            r matches Err(e) ==> e == KeyError::InvalidKeyBytes,
    {
        let bytes = match decode(s) {
            Ok(b) => b,
            Err(_) => return Err(KeyError::InvalidKeyBytes),
        };
        if bytes.len() != 32 {
            return Err(KeyError::InvalidKeyBytes);
        }
        Ok(NodeId(to_array_32(bytes.as_slice())))
    }
}

/// The hex form of a node id parses back to it.
pub proof fn law_node_id_hex_roundtrip(n: NodeId)
    ensures
        is_hex(hex_encode(n.0@)),
        hex_encode(n.0@).len() == 64,
        hex_decode(hex_encode(n.0@)) == n.0@,
{
    crate::hex::lemma_hex_roundtrip(n.0@);
}

} // verus!
