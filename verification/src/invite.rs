//! Invite tokens for sharing drives: signed, time-limited, optionally
//! single-use.
//!
//! A token is a payload and an Ed25519 signature (hex) over the payload's
//! serialized bytes; as text it is the URL-safe base64 of the serialized
//! token. Serialization itself is done by the caller: the functions here take
//! and give the bytes.
use vstd::prelude::*;
use crate::access::{clone_opt_string, Permission};
use crate::bytes::to_array_64;
use crate::clock::{now_millis, INSTANT_BOUND};
use crate::hex::{decode, encode, hex_decode, hex_encode, is_hex};
use crate::primitives::{
    base64_url, base64_url_decode, base64_url_decoded, base64_url_encode, ed25519_public,
    ed25519_public_key, ed25519_sign, ed25519_sign_message, ed25519_verify,
    ed25519_verify_signature, opt_bytes, random_bytes_16,
};
use crate::text::{chars_eq, chars_of};

verus! {

/// Current invite token version.
pub const INVITE_VERSION: u8 = 1;

/// Default validity of an invite: 7 days, in milliseconds.
pub const DEFAULT_VALIDITY_MS: i64 = 604800000;

/// Errors from invite tokens.
#[derive(Debug)]
pub enum InviteError {
    /// The token has expired.
    Expired,
    /// The signature does not verify.
    InvalidSignature,
    /// The token is not well formed.
    InvalidFormat,
    /// The token was already used.
    AlreadyUsed,
    /// (De)serialization failed (with its message).
    SerializationError(String),
}

impl InviteError {
    /// The message of an error.
    pub open spec fn spec_message(&self) -> Seq<char> {
        match self {
            InviteError::Expired => "Token expired"@,
            InviteError::InvalidSignature => "Invalid signature"@,
            InviteError::InvalidFormat => "Invalid token format"@,
            InviteError::AlreadyUsed => "Token already used"@,
            InviteError::SerializationError(m) => "Serialization error: "@ + m@,
        }
    }

    /// The message of an error.
    pub fn message(&self) -> (s: String)
        ensures
            s@ == self.spec_message(),
    {
        match self {
            InviteError::Expired => String::from_str("Token expired"),
            InviteError::InvalidSignature => String::from_str("Invalid signature"),
            InviteError::InvalidFormat => String::from_str("Invalid token format"),
            InviteError::AlreadyUsed => String::from_str("Token already used"),
            InviteError::SerializationError(m) => {
                let mut s = String::from_str("Serialization error: ");
                s.append(m.as_str());
                s
            },
        }
    }
}

/// The signed part of an invite token. Times are Unix milliseconds.
#[derive(Debug)]
pub struct InvitePayload {
    /// Format version.
    pub version: u8,
    /// The drive being shared (DriveId hex).
    pub drive_id: String,
    /// Human-readable name of the drive.
    pub drive_name: String,
    /// The inviter's NodeId (hex of the Ed25519 public key).
    pub inviter: String,
    /// Permission level being granted.
    pub permission: Permission,
    /// When the invite was created.
    pub created_at: i64,
    /// When the invite expires.
    pub expires_at: i64,
    /// Optional message from the inviter.
    pub note: Option<String>,
    /// Whether the token may be used once only.
    pub single_use: bool,
    /// Unique token id, for tracking use.
    pub token_id: String,
    /// Optional document share ticket for metadata sync.
    pub doc_ticket: Option<String>,
}

impl Clone for InvitePayload {
    fn clone(&self) -> (r: InvitePayload)
        ensures
            r == *self,
    {
        InvitePayload {
            version: self.version,
            drive_id: self.drive_id.clone(),
            drive_name: self.drive_name.clone(),
            inviter: self.inviter.clone(),
            permission: self.permission,
            created_at: self.created_at,
            expires_at: self.expires_at,
            note: clone_opt_string(&self.note),
            single_use: self.single_use,
            token_id: self.token_id.clone(),
            doc_ticket: clone_opt_string(&self.doc_ticket),
        }
    }
}

/// A complete invite token: payload and signature.
#[derive(Debug)]
pub struct InviteToken {
    /// The signed payload.
    pub payload: InvitePayload,
    /// Ed25519 signature over the serialized payload (hex).
    pub signature: String,
}

/// Whether a token's signature (hex text) verifies over the payload bytes
/// under a public key; what `InviteToken::verify` answers.
pub open spec fn signature_check(signature: Seq<char>, payload_bytes: Seq<u8>, key: Seq<u8>) -> Result<
    (),
    InviteErrorKind,
> {
    if !is_hex(signature) || hex_decode(signature).len() != 64 {
        Err(InviteErrorKind::InvalidFormat)
    } else if !ed25519_verify(key, payload_bytes, hex_decode(signature)) {
        Err(InviteErrorKind::InvalidSignature)
    } else {
        Ok(())
    }
}

/// The kind of an invite error, without its message.
#[derive(Clone, Copy, Debug, PartialEq, Eq, Structural)]
pub enum InviteErrorKind {
    Expired,
    InvalidSignature,
    InvalidFormat,
    AlreadyUsed,
    SerializationError,
}

/// The kind of an invite error.
pub open spec fn kind_of(e: InviteError) -> InviteErrorKind {
    match e {
        InviteError::Expired => InviteErrorKind::Expired,
        InviteError::InvalidSignature => InviteErrorKind::InvalidSignature,
        InviteError::InvalidFormat => InviteErrorKind::InvalidFormat,
        InviteError::AlreadyUsed => InviteErrorKind::AlreadyUsed,
        InviteError::SerializationError(_) => InviteErrorKind::SerializationError,
    }
}

/// The kind of a verification result.
pub open spec fn result_kind(r: Result<(), InviteError>) -> Result<(), InviteErrorKind> {
    match r {
        Ok(()) => Ok(()),
        Err(e) => Err(kind_of(e)),
    }
}

/// A token has expired at `now` once its expiry lies before it.
pub open spec fn token_expired(t: InviteToken, now: i64) -> bool {
    t.payload.expires_at < now
}

impl InviteToken {
    /// Sign a payload: the signature is over `payload_bytes`, the payload as
    /// serialized by the caller.
    pub fn sign(payload: InvitePayload, payload_bytes: &[u8], secret: &[u8; 32]) -> (t: InviteToken)
        ensures
            t.payload == payload,
            t.signature@ == hex_encode(ed25519_sign(secret@, payload_bytes@)),
            signature_check(t.signature@, payload_bytes@, ed25519_public(secret@)) == Ok::<
                (),
                InviteErrorKind,
            >(()),
    {
        let sig = ed25519_sign_message(secret, payload_bytes);
        proof {
            crate::hex::lemma_hex_roundtrip(sig@);
        }
        InviteToken { payload, signature: encode(&sig) }
    }

    /// Verify the signature over the serialized payload: a signature that is
    /// not hex of 64 bytes is `InvalidFormat`, one that does not verify is
    /// `InvalidSignature`.
    pub fn verify(&self, payload_bytes: &[u8], verifying_key: &[u8; 32]) -> (r: Result<(), InviteError>)
        ensures
            result_kind(r) == signature_check(self.signature@, payload_bytes@, verifying_key@),
    {
        let sig_bytes = match decode(self.signature.as_str()) {
            Ok(b) => b,
            Err(_) => return Err(InviteError::InvalidFormat),
        };
        if sig_bytes.len() != 64 {
            return Err(InviteError::InvalidFormat);
        }
        let sig = to_array_64(sig_bytes.as_slice());
        if ed25519_verify_signature(verifying_key, payload_bytes, &sig) {
            Ok(())
        } else {
            Err(InviteError::InvalidSignature)
        }
    }

    /// Whether the token has expired at time `now`.
    pub fn is_expired_at(&self, now: i64) -> (r: bool)
        ensures
            r == token_expired(*self, now),
    {
        self.payload.expires_at < now
    }

    /// Whether the token has expired (against the wall clock).
    pub fn is_expired(&self) -> (r: bool)
        ensures
            r ==> self.payload.expires_at < i64::MAX,
            exists|now: i64| -INSTANT_BOUND < now < INSTANT_BOUND && r == #[trigger] token_expired(*self, now),
    {
        let now = now_millis();
        let r = self.is_expired_at(now);
        assert(r == token_expired(*self, now));
        r
    }

    /// Whether the token is valid at time `now`: unexpired, and its signature
    /// verifies.
    pub fn is_valid_at(&self, payload_bytes: &[u8], verifying_key: &[u8; 32], now: i64) -> (r: bool)
        ensures
            r == (!(self.payload.expires_at < now) && signature_check(
                self.signature@,
                payload_bytes@,
                verifying_key@,
            ) is Ok),
    {
        if self.is_expired_at(now) {
            return false;
        }
        self.verify(payload_bytes, verifying_key).is_ok()
    }

    /// Whether the token is valid now.
    pub fn is_valid(&self, payload_bytes: &[u8], verifying_key: &[u8; 32]) -> (r: bool)
        ensures
            r ==> signature_check(self.signature@, payload_bytes@, verifying_key@) is Ok,
            exists|now: i64|
                -INSTANT_BOUND < now < INSTANT_BOUND && r == (!token_expired(*self, now)
                    && signature_check(self.signature@, payload_bytes@, verifying_key@) is Ok),
    {
        let now = now_millis();
        let r = self.is_valid_at(payload_bytes, verifying_key, now);
        assert(r == (!token_expired(*self, now) && signature_check(
            self.signature@,
            payload_bytes@,
            verifying_key@,
        ) is Ok));
        r
    }

    /// The token id.
    pub fn token_id(&self) -> (s: &str)
        ensures
            s@ == self.payload.token_id@,
    {
        self.payload.token_id.as_str()
    }
}

/// The text form of a serialized token: URL-safe base64 without padding.
pub fn token_text(token_bytes: &[u8]) -> (s: String)
    ensures
        s@ == base64_url(token_bytes@),
        base64_url_decoded(s@) == Some(token_bytes@),
{
    let s = base64_url_encode(token_bytes);
    proof {
        crate::primitives::lemma_base64_url_roundtrip(token_bytes@);
    }
    s
}

/// The serialized token a text form holds; text that is not URL-safe base64
/// is `InvalidFormat`.
pub fn token_bytes(text: &str) -> (r: Result<Vec<u8>, InviteError>)
    ensures
        match base64_url_decoded(text@) {
            Some(b) => r matches Ok(v) && v@ == b,
            None => r matches Err(InviteError::InvalidFormat),
        },
{
    match base64_url_decode(text) {
        Some(b) => Ok(b),
        None => Err(InviteError::InvalidFormat),
    }
}

/// A token's text form reads back as the serialized token, and no other
/// serialized token has the same text form.
pub proof fn law_token_text_roundtrip(token_bytes: Seq<u8>, other: Seq<u8>)
    ensures
        base64_url_decoded(base64_url(token_bytes)) == Some(token_bytes),
        base64_url(other) == base64_url(token_bytes) ==> other == token_bytes,
{
    crate::primitives::lemma_base64_url_roundtrip(token_bytes);
    if base64_url(other) == base64_url(token_bytes) {
        crate::primitives::lemma_base64_url_roundtrip(other);
    }
}

/// A signature made over the payload bytes with an identity's key verifies
/// under that identity's public key.
pub proof fn law_signed_token_verifies(secret: Seq<u8>, payload_bytes: Seq<u8>, signature: Seq<char>)
    requires
        signature == hex_encode(ed25519_sign(secret, payload_bytes)),
        ed25519_verify(ed25519_public(secret), payload_bytes, ed25519_sign(secret, payload_bytes)),
        ed25519_sign(secret, payload_bytes).len() == 64,
    ensures
        signature_check(signature, payload_bytes, ed25519_public(secret)) == Ok::<
            (),
            InviteErrorKind,
        >(()),
{
    crate::hex::lemma_hex_roundtrip(ed25519_sign(secret, payload_bytes));
}

/// A fresh token id: hex of 16 random bytes.
pub fn generate_token_id() -> (s: String)
    ensures
        s@.len() == 32,
        is_hex(s@),
{
    let b = random_bytes_16();
    proof {
        crate::hex::lemma_hex_roundtrip(b@);
    }
    encode(&b)
}

/// Builder of invite payloads.
#[derive(Debug)]
pub struct InviteBuilder {
    pub drive_id: String,
    pub drive_name: String,
    pub permission: Permission,
    /// Validity in milliseconds.
    pub validity: i64,
    pub note: Option<String>,
    pub single_use: bool,
    pub doc_ticket: Option<String>,
}

impl InviteBuilder {
    /// Start an invite for a drive: Read permission, valid for 7 days,
    /// reusable, no note, no ticket.
    pub fn new(drive_id: &str, drive_name: &str) -> (b: InviteBuilder)
        ensures
            b.drive_id@ == drive_id@,
            b.drive_name@ == drive_name@,
            b.permission == Permission::Read,
            b.validity == DEFAULT_VALIDITY_MS,
            b.note is None,
            !b.single_use,
            b.doc_ticket is None,
    {
        InviteBuilder {
            drive_id: String::from_str(drive_id),
            drive_name: String::from_str(drive_name),
            permission: Permission::Read,
            validity: DEFAULT_VALIDITY_MS,
            note: None,
            single_use: false,
            doc_ticket: None,
        }
    }

    /// Set the permission level.
    pub fn with_permission(self, permission: Permission) -> (b: InviteBuilder)
        ensures
            b == (InviteBuilder { permission, ..self }),
    {
        InviteBuilder { permission, ..self }
    }

    /// Set the validity (milliseconds).
    pub fn with_validity(self, validity: i64) -> (b: InviteBuilder)
        ensures
            b == (InviteBuilder { validity, ..self }),
    {
        InviteBuilder { validity, ..self }
    }

    /// Set a note.
    pub fn with_note(self, note: &str) -> (b: InviteBuilder)
        ensures
            b.note matches Some(n) && n@ == note@,
            b.drive_id == self.drive_id,
            b.drive_name == self.drive_name,
            b.permission == self.permission,
            b.validity == self.validity,
            b.single_use == self.single_use,
            b.doc_ticket == self.doc_ticket,
    {
        InviteBuilder { note: Some(String::from_str(note)), ..self }
    }

    /// Make the token single-use.
    pub fn single_use(self) -> (b: InviteBuilder)
        ensures
            b == (InviteBuilder { single_use: true, ..self }),
    {
        InviteBuilder { single_use: true, ..self }
    }

    /// Attach a document share ticket.
    pub fn with_doc_ticket(self, ticket: &str) -> (b: InviteBuilder)
        ensures
            b.doc_ticket matches Some(t) && t@ == ticket@,
            b.drive_id == self.drive_id,
            b.drive_name == self.drive_name,
            b.permission == self.permission,
            b.validity == self.validity,
            b.single_use == self.single_use,
            b.note == self.note,
    {
        InviteBuilder { doc_ticket: Some(String::from_str(ticket)), ..self }
    }

    /// The payload of the invite, issued by the holder of `secret` at time
    /// `now` with the given token id; it expires `validity` after `now`.
    pub fn payload_at(self, secret: &[u8; 32], now: i64, token_id: String) -> (p: InvitePayload)
        requires
            i64::MIN <= now + self.validity <= i64::MAX,
        ensures
            p.version == INVITE_VERSION,
            p.drive_id == self.drive_id,
            p.drive_name == self.drive_name,
            p.inviter@ == hex_encode(ed25519_public(secret@)),
            p.permission == self.permission,
            p.created_at == now,
            p.expires_at == now + self.validity,
            p.note == self.note,
            p.single_use == self.single_use,
            p.token_id == token_id,
            p.doc_ticket == self.doc_ticket,
    {
        let public = ed25519_public_key(secret);
        InvitePayload {
            version: INVITE_VERSION,
            drive_id: self.drive_id,
            drive_name: self.drive_name,
            inviter: encode(&public),
            permission: self.permission,
            created_at: now,
            expires_at: now + self.validity,
            note: self.note,
            single_use: self.single_use,
            token_id,
            doc_ticket: self.doc_ticket,
        }
    }
}

/// The ids of tokens that were used (each once).
#[derive(Debug)]
pub struct TokenTracker {
    used_tokens: Vec<String>,
}

/// The characters of a list of strings.
pub open spec fn strings_view(v: Seq<String>) -> Seq<Seq<char>> {
    v.map_values(|s: String| s@)
}

impl TokenTracker {
    /// No token is listed twice.
    pub closed spec fn wf(&self) -> bool {
        strings_view(self.used_tokens@).no_duplicates()
    }

    /// The set of used token ids.
    pub closed spec fn used_view(&self) -> Set<Seq<char>> {
        strings_view(self.used_tokens@).to_set()
    }

    /// The used ids of a tracker are finitely many.
    pub proof fn lemma_used_finite(&self)
        ensures
            self.used_view().finite(),
    {
        broadcast use vstd::seq_lib::seq_to_set_is_finite;

    }

    /// An empty tracker.
    pub fn new() -> (t: TokenTracker)
        ensures
            t.used_view().finite(),
            t.wf(),
            t.used_view() == Set::<Seq<char>>::empty(),
    {
        let t = TokenTracker { used_tokens: Vec::new() };
        assert(strings_view(t.used_tokens@).to_set() =~= Set::<Seq<char>>::empty());
        t
    }

    /// Rebuild a tracker from a list of used ids (repeats are kept once).
    pub fn from_ids(ids: &[String]) -> (t: TokenTracker)
        ensures
            t.used_view().finite(),
            t.wf(),
            t.used_view() == strings_view(ids@).to_set(),
    {
        let mut t = TokenTracker::new();
        let mut i: usize = 0;
        while i < ids.len()
            invariant
                i <= ids@.len(),
                t.wf(),
                t.used_view() == strings_view(ids@.subrange(0, i as int)).to_set(),
            decreases ids@.len() - i,
        {
            t.mark_used(ids[i].as_str());
            assert(strings_view(ids@.subrange(0, i + 1)) =~= strings_view(
                ids@.subrange(0, i as int),
            ).push(ids@[i as int]@));
            proof {
                strings_view(ids@.subrange(0, i as int)).lemma_push_to_set_commute(ids@[i as int]@);
            }
            i = i + 1;
        }
        assert(ids@.subrange(0, ids@.len() as int) =~= ids@);
        t
    }

    /// The used ids, as a list (each once).
    pub fn ids(&self) -> (v: Vec<String>)
        requires
            self.wf(),
        ensures
            strings_view(v@).to_set() == self.used_view(),
            strings_view(v@).no_duplicates(),
    {
        let mut v: Vec<String> = Vec::new();
        let mut i: usize = 0;
        while i < self.used_tokens.len()
            invariant
                i <= self.used_tokens@.len(),
                strings_view(v@) == strings_view(self.used_tokens@).subrange(0, i as int),
            decreases self.used_tokens@.len() - i,
        {
            let ghost before = strings_view(v@);
            let ghost all = strings_view(self.used_tokens@);
            let s = self.used_tokens[i].clone();
            assert(s@ == all[i as int]);
            assert(all.subrange(0, i + 1) =~= all.subrange(0, i as int).push(all[i as int]));
            v.push(s);
            assert(strings_view(v@) =~= before.push(all[i as int]));
            i = i + 1;
        }
        assert(strings_view(self.used_tokens@).subrange(0, self.used_tokens@.len() as int)
            =~= strings_view(self.used_tokens@));
        v
    }

    fn position(&self, token_id: &str) -> (r: Option<usize>)
        ensures
            r matches Some(i) ==> i < self.used_tokens@.len() && self.used_tokens@[i as int]@
                == token_id@,
            r is None ==> !strings_view(self.used_tokens@).contains(token_id@),
    {
        let k = chars_of(token_id);
        let mut i: usize = 0;
        while i < self.used_tokens.len()
            invariant
                k@ == token_id@,
                i <= self.used_tokens@.len(),
                forall|j: int| 0 <= j < i ==> self.used_tokens@[j]@ != token_id@,
            decreases self.used_tokens@.len() - i,
        {
            let c = chars_of(self.used_tokens[i].as_str());
            if chars_eq(c.as_slice(), k.as_slice()) {
                return Some(i);
            }
            i = i + 1;
        }
        proof {
            if strings_view(self.used_tokens@).contains(token_id@) {
                let j = choose|j: int|
                    0 <= j < strings_view(self.used_tokens@).len() && strings_view(
                        self.used_tokens@,
                    )[j] == token_id@;
                assert(self.used_tokens@[j]@ == token_id@);
            }
        }
        None
    }

    /// Whether a token was used.
    pub fn is_used(&self, token_id: &str) -> (r: bool)
        ensures
            r == self.used_view().contains(token_id@),
    {
        let r = self.position(token_id).is_some();
        proof {
            if r {
                let i = self.position_witness(token_id@);
            }
        }
        r
    }

    proof fn position_witness(&self, token_id: Seq<char>) -> (i: int)
        requires
            exists|i: int| 0 <= i < self.used_tokens@.len() && self.used_tokens@[i]@ == token_id,
        ensures
            strings_view(self.used_tokens@).contains(token_id),
    {
        let i = choose|i: int| 0 <= i < self.used_tokens@.len() && self.used_tokens@[i]@ == token_id;
        assert(strings_view(self.used_tokens@)[i] == token_id);
        i
    }

    /// Mark a token as used.
    pub fn mark_used(&mut self, token_id: &str)
        requires
            old(self).wf(),
        ensures
            final(self).used_view().finite(),
            final(self).wf(),
            final(self).used_view() == old(self).used_view().insert(token_id@),
    {
        match self.position(token_id) {
            Some(i) => {
                assert(strings_view(self.used_tokens@)[i as int] == token_id@);
                assert(self.used_view() =~= old(self).used_view().insert(token_id@));
            },
            None => {
                let ghost before = strings_view(self.used_tokens@);
                self.used_tokens.push(String::from_str(token_id));
                assert(strings_view(self.used_tokens@) =~= before.push(token_id@));
                proof {
                    crate::access::lemma_push_no_duplicates(before, token_id@);
                    before.lemma_push_to_set_commute(token_id@);
                }
            },
        }
    }

    /// The number of used tokens.
    pub fn used_count(&self) -> (n: usize)
        requires
            self.wf(),
        ensures
            n == self.used_view().len(),
    {
        proof {
            strings_view(self.used_tokens@).unique_seq_to_set();
        }
        self.used_tokens.len()
    }

    /// Keep only the tokens whose ids are in `valid_ids`.
    pub fn cleanup(&mut self, valid_ids: &[String])
        requires
            old(self).wf(),
        ensures
            final(self).used_view().finite(),
            final(self).wf(),
            final(self).used_view() == old(self).used_view().intersect(
                strings_view(valid_ids@).to_set(),
            ),
    {
        let ghost old_v = strings_view(self.used_tokens@);
        let mut kept: Vec<String> = Vec::new();
        let mut i: usize = 0;
        while i < self.used_tokens.len()
            invariant
                old_v == strings_view(self.used_tokens@),
                old_v.no_duplicates(),
                i <= self.used_tokens@.len(),
                strings_view(kept@).no_duplicates(),
                forall|k: Seq<char>| #[trigger]
                    strings_view(kept@).contains(k) <==> (old_v.subrange(0, i as int).contains(k)
                        && strings_view(valid_ids@).contains(k)),
            decreases self.used_tokens@.len() - i,
        {
            let ghost prev = strings_view(kept@);
            let id = self.used_tokens[i].as_str();
            let mut found = false;
            let mut j: usize = 0;
            let target = chars_of(id);
            while j < valid_ids.len()
                invariant
                    target@ == id@,
                    j <= valid_ids@.len(),
                    found == strings_view(valid_ids@).subrange(0, j as int).contains(id@),
                decreases valid_ids@.len() - j,
            {
                let c = chars_of(valid_ids[j].as_str());
                proof {
                    crate::access::lemma_push_contains(
                        strings_view(valid_ids@).subrange(0, j as int),
                        valid_ids@[j as int]@,
                        id@,
                    );
                    assert(strings_view(valid_ids@).subrange(0, j + 1) =~= strings_view(
                        valid_ids@,
                    ).subrange(0, j as int).push(valid_ids@[j as int]@));
                }
                if chars_eq(c.as_slice(), target.as_slice()) {
                    found = true;
                }
                j = j + 1;
            }
            assert(strings_view(valid_ids@).subrange(0, valid_ids@.len() as int) =~= strings_view(
                valid_ids@,
            ));
            assert(old_v.subrange(0, i + 1) =~= old_v.subrange(0, i as int).push(old_v[i as int]));
            assert(old_v[i as int] == id@);
            if found {
                proof {
                    assert(!old_v.subrange(0, i as int).contains(id@)) by {
                        if old_v.subrange(0, i as int).contains(id@) {
                            let k = choose|k: int|
                                0 <= k < i && old_v.subrange(0, i as int)[k] == id@;
                            assert(old_v[k] == old_v[i as int]);
                        }
                    }
                    crate::access::lemma_push_no_duplicates(prev, id@);
                }
                kept.push(self.used_tokens[i].clone());
                assert(strings_view(kept@) =~= prev.push(id@));
            }
            proof {
                assert forall|k: Seq<char>| #[trigger]
                    strings_view(kept@).contains(k) <==> (old_v.subrange(0, i + 1).contains(k)
                        && strings_view(valid_ids@).contains(k)) by {
                    crate::access::lemma_push_contains(old_v.subrange(0, i as int), id@, k);
                    if found {
                        crate::access::lemma_push_contains(prev, id@, k);
                    }
                }
            }
            i = i + 1;
        }
        assert(old_v.subrange(0, old_v.len() as int) =~= old_v);
        self.used_tokens = kept;
        assert(self.used_view() =~= old(self).used_view().intersect(
            strings_view(valid_ids@).to_set(),
        ));
    }
}

/// A token marked used is reported used, and stays so when other tokens are
/// marked.
pub proof fn law_used_stays_used(used: Set<Seq<char>>, a: Seq<char>, b: Seq<char>)
    ensures
        used.insert(a).contains(a),
        used.insert(a).insert(b).contains(a),
{
}

} // verus!
