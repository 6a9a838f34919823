//! This node's identity over its lifetime: restored from its stored secret
//! or created on first run, then used to name and sign.
use vstd::prelude::*;
use crate::hex::hex_encode;
use crate::keys::{short_hex, Identity, NodeId};
use crate::primitives::{ed25519_key_valid, ed25519_public, ed25519_sign, ed25519_verify};

verus! {

/// This node's identity as the frontend sees it.
#[derive(Clone, Debug)]
pub struct IdentityInfo {
    /// The node id in hex.
    pub node_id: String,
    /// The short display form of the node id.
    pub short_id: String,
}

impl IdentityInfo {
    /// The record of a node id.
    pub fn of(node_id: &NodeId) -> (i: IdentityInfo)
        ensures
            i.node_id@ == hex_encode(node_id.0@),
            i.short_id@ == short_hex(hex_encode(node_id.0@)),
    {
        IdentityInfo { node_id: node_id.to_hex(), short_id: node_id.short_string() }
    }
}

/// Holds this node's identity once it is initialized.
pub struct IdentityManager {
    identity: Option<Identity>,
}

impl IdentityManager {
    /// The secret of the identity, once initialized.
    pub closed spec fn secret_view(&self) -> Option<Seq<u8>> {
        match self.identity {
            Some(i) => Some(i.secret_view()),
            None => None,
        }
    }

    /// Not initialized yet.
    pub fn new() -> (m: IdentityManager)
        ensures
            m.secret_view() is None,
    {
        IdentityManager { identity: None }
    }

    /// Initialize from the stored secret, or create a new identity when none
    /// is stored; returns the node id and, for a new identity, the secret to
    /// store.
    pub fn initialize(&mut self, stored: Option<[u8; 32]>) -> (r: (NodeId, Option<[u8; 32]>))
        ensures
            final(self).secret_view() matches Some(s) && r.0.0@ == ed25519_public(s) && match stored {
                Some(b) => s == b@ && r.1 is None,
                None => s.len() == 32 && (r.1 matches Some(t) && t@ == s),
            },
    {
        match stored {
            Some(b) => {
                let identity = match Identity::from_bytes(&b) {
                    Ok(i) => i,
                    Err(_) => Identity::generate(),
                };
                let node_id = identity.node_id();
                self.identity = Some(identity);
                (node_id, None)
            },
            None => {
                let identity = Identity::generate();
                let node_id = identity.node_id();
                let bytes = identity.to_bytes();
                self.identity = Some(identity);
                (node_id, Some(bytes))
            },
        }
    }

    /// The node id, once initialized.
    pub fn node_id(&self) -> (r: Option<NodeId>)
        ensures
            match self.secret_view() {
                Some(s) => r matches Some(n) && n.0@ == ed25519_public(s),
                None => r is None,
            },
    {
        match &self.identity {
            Some(i) => Some(i.node_id()),
            None => None,
        }
    }

    /// The secret key bytes, once initialized.
    pub fn secret_key_bytes(&self) -> (r: Option<[u8; 32]>)
        ensures
            match self.secret_view() {
                Some(s) => r matches Some(b) && b@ == s,
                None => r is None,
            },
    {
        match &self.identity {
            Some(i) => Some(i.to_bytes()),
            None => None,
        }
    }

    /// Sign a message, once initialized; the signature verifies under the
    /// node id.
    pub fn sign(&self, message: &[u8]) -> (r: Option<[u8; 64]>)
        ensures
            match self.secret_view() {
                Some(s) => r matches Some(sig) && sig@ == ed25519_sign(s, message@) && ed25519_verify(
                    ed25519_public(s),
                    message@,
                    sig@,
                ),
                None => r is None,
            },
    {
        match &self.identity {
            Some(i) => Some(i.sign(message)),
            None => None,
        }
    }

    /// Whether the identity is initialized.
    pub fn is_initialized(&self) -> (r: bool)
        ensures
            r == self.secret_view() is Some,
    {
        self.identity.is_some()
    }
}

} // verus!
