//! Drive events broadcast to peers, and the signed envelope that
//! authenticates them. Times are Unix milliseconds.
use vstd::prelude::*;
use crate::bytes::{extend_bytes, to_array_64};
use crate::clock::{now_millis, INSTANT_BOUND};
use crate::drive::{le_bytes, millis_le_bytes};
use crate::keys::{Identity, NodeId};
use crate::security::{rfc3339_or_empty, rfc3339_text};
use crate::primitives::{
    ed25519_key_valid, ed25519_public, ed25519_public_key_valid, ed25519_sign, ed25519_verify,
    ed25519_verify_signature,
};

verus! {

/// Events broadcast to the peers of a drive.
#[derive(Debug)]
pub enum DriveEvent {
    /// A file was created or modified.
    FileChanged { path: String, hash: String, size: u64, modified_by: NodeId, timestamp: i64 },
    /// A file was deleted.
    FileDeleted { path: String, deleted_by: NodeId, timestamp: i64 },
    /// A file is being edited.
    FileEditStarted { path: String, editor: NodeId },
    /// A file edit session ended.
    FileEditEnded { path: String, editor: NodeId },
    /// A file lock was acquired.
    FileLockAcquired {
        path: String,
        holder: NodeId,
        lock_type: String,
        expires_at: i64,
        timestamp: i64,
    },
    /// A file lock was released.
    FileLockReleased { path: String, holder: NodeId, timestamp: i64 },
    /// A user joined the drive.
    UserJoined { user: NodeId, timestamp: i64 },
    /// A user left the drive.
    UserLeft { user: NodeId, timestamp: i64 },
    /// Transfer progress of a file.
    SyncProgress { path: String, bytes_transferred: u64, total_bytes: u64 },
    /// A file finished syncing.
    SyncComplete { path: String, hash: String },
}

/// The type name of an event.
pub open spec fn event_type_name(e: DriveEvent) -> Seq<char> {
    match e {
        DriveEvent::FileChanged { .. } => "FileChanged"@,
        DriveEvent::FileDeleted { .. } => "FileDeleted"@,
        DriveEvent::FileEditStarted { .. } => "FileEditStarted"@,
        DriveEvent::FileEditEnded { .. } => "FileEditEnded"@,
        DriveEvent::FileLockAcquired { .. } => "FileLockAcquired"@,
        DriveEvent::FileLockReleased { .. } => "FileLockReleased"@,
        DriveEvent::UserJoined { .. } => "UserJoined"@,
        DriveEvent::UserLeft { .. } => "UserLeft"@,
        DriveEvent::SyncProgress { .. } => "SyncProgress"@,
        DriveEvent::SyncComplete { .. } => "SyncComplete"@,
    }
}

/// The time of an event, for events that carry one.
pub open spec fn event_time(e: DriveEvent) -> Option<i64> {
    match e {
        DriveEvent::FileChanged { timestamp, .. } => Some(timestamp),
        DriveEvent::FileDeleted { timestamp, .. } => Some(timestamp),
        DriveEvent::FileLockAcquired { timestamp, .. } => Some(timestamp),
        DriveEvent::FileLockReleased { timestamp, .. } => Some(timestamp),
        DriveEvent::UserJoined { timestamp, .. } => Some(timestamp),
        DriveEvent::UserLeft { timestamp, .. } => Some(timestamp),
        _ => None,
    }
}

impl DriveEvent {
    /// The event type, for routing in the frontend.
    pub fn event_type(&self) -> (s: &'static str)
        ensures
            s@ == event_type_name(*self),
    {
        match self {
            DriveEvent::FileChanged { .. } => "FileChanged",
            DriveEvent::FileDeleted { .. } => "FileDeleted",
            DriveEvent::FileEditStarted { .. } => "FileEditStarted",
            DriveEvent::FileEditEnded { .. } => "FileEditEnded",
            DriveEvent::FileLockAcquired { .. } => "FileLockAcquired",
            DriveEvent::FileLockReleased { .. } => "FileLockReleased",
            DriveEvent::UserJoined { .. } => "UserJoined",
            DriveEvent::UserLeft { .. } => "UserLeft",
            DriveEvent::SyncProgress { .. } => "SyncProgress",
            DriveEvent::SyncComplete { .. } => "SyncComplete",
        }
    }

    /// The time of the event, if it carries one.
    pub fn timestamp(&self) -> (t: Option<i64>)
        ensures
            t == event_time(*self),
    {
        match self {
            DriveEvent::FileChanged { timestamp, .. } => Some(*timestamp),
            DriveEvent::FileDeleted { timestamp, .. } => Some(*timestamp),
            DriveEvent::FileLockAcquired { timestamp, .. } => Some(*timestamp),
            DriveEvent::FileLockReleased { timestamp, .. } => Some(*timestamp),
            DriveEvent::UserJoined { timestamp, .. } => Some(*timestamp),
            DriveEvent::UserLeft { timestamp, .. } => Some(*timestamp),
            _ => None,
        }
    }
}

/// A drive event as the frontend receives it.
#[derive(Clone, Debug)]
pub struct DriveEventDto {
    /// The drive (hex id).
    pub drive_id: String,
    /// The event's type name, for routing.
    pub event_type: String,
    /// The event itself, serialized (JSON text).
    pub payload: String,
    /// When it happened (RFC 3339).
    pub timestamp: String,
}

impl DriveEventDto {
    /// The record of an event of a drive: its type name, its serialized
    /// form, and its own time, or `now` for events that carry none.
    pub fn from_event_at(drive_id: &str, event: &DriveEvent, payload: String, now: i64) -> (d: DriveEventDto)
        ensures
            d.drive_id@ == drive_id@,
            d.event_type@ == event_type_name(*event),
            d.payload == payload,
            d.timestamp@ == rfc3339_text(
                match event_time(*event) {
                    Some(t) => t,
                    None => now,
                },
            ),
    {
        let t = match event.timestamp() {
            Some(t) => t,
            None => now,
        };
        DriveEventDto {
            drive_id: String::from_str(drive_id),
            event_type: String::from_str(event.event_type()),
            payload,
            timestamp: rfc3339_or_empty(t),
        }
    }

    /// The record of an event of a drive, timed now where the event carries
    /// no time.
    pub fn from_event(drive_id: &str, event: &DriveEvent, payload: String) -> (d: DriveEventDto)
        ensures
            d.drive_id@ == drive_id@,
            d.event_type@ == event_type_name(*event),
            d.payload == payload,
            event_time(*event) matches Some(t) ==> d.timestamp@ == rfc3339_text(t),
            event_time(*event) is None ==> exists|now: i64|
                -INSTANT_BOUND < now < INSTANT_BOUND && d.timestamp@ == #[trigger] rfc3339_text(now),
    {
        let now = now_millis();
        Self::from_event_at(drive_id, event, payload, now)
    }
}

/// Errors of gossip message authentication.
#[derive(Clone, Copy, Debug, PartialEq, Eq, Structural)]
pub enum GossipAuthError {
    /// The signature bytes are malformed.
    InvalidSignature,
    /// The sender's public key is invalid.
    InvalidSenderKey,
    /// The signature does not verify.
    SignatureVerificationFailed,
    /// The message is too old.
    StaleMessage,
    /// The sender is not authorized.
    Unauthorized,
}

impl GossipAuthError {
    /// The message of an error.
    pub open spec fn spec_message(self) -> Seq<char> {
        match self {
            GossipAuthError::InvalidSignature => "Invalid signature format"@,
            GossipAuthError::InvalidSenderKey => "Invalid sender public key"@,
            GossipAuthError::SignatureVerificationFailed => "Signature verification failed"@,
            GossipAuthError::StaleMessage => "Message is too old"@,
            GossipAuthError::Unauthorized => "Sender is not authorized"@,
        }
    }

    /// The message of an error.
    pub fn message(&self) -> (s: String)
        ensures
            s@ == self.spec_message(),
    {
        match self {
            GossipAuthError::InvalidSignature => String::from_str("Invalid signature format"),
            GossipAuthError::InvalidSenderKey => String::from_str("Invalid sender public key"),
            GossipAuthError::SignatureVerificationFailed => String::from_str(
                "Signature verification failed",
            ),
            GossipAuthError::StaleMessage => String::from_str("Message is too old"),
            GossipAuthError::Unauthorized => String::from_str("Sender is not authorized"),
        }
    }
}

/// The bytes a gossip message's signature covers: the serialized event,
/// the sender's key and the time (little-endian milliseconds).
pub open spec fn signing_payload_of(event_bytes: Seq<u8>, sender: Seq<u8>, timestamp_ms: i64) -> Seq<u8> {
    event_bytes + sender + le_bytes(timestamp_ms as u64)
}

/// How verifying a gossip message over the given payload ends.
pub open spec fn gossip_check(sender: Seq<u8>, payload: Seq<u8>, signature: Seq<u8>) -> Result<
    (),
    GossipAuthError,
> {
    if signature.len() != 64 {
        Err(GossipAuthError::InvalidSignature)
    } else if !ed25519_key_valid(sender) {
        Err(GossipAuthError::InvalidSenderKey)
    } else if !ed25519_verify(sender, payload, signature) {
        Err(GossipAuthError::SignatureVerificationFailed)
    } else {
        Ok(())
    }
}

/// The signed payload of an event (given serialized), a sender and a time.
pub fn signing_payload(event_bytes: &[u8], sender: &NodeId, timestamp_ms: i64) -> (p: Vec<u8>)
    ensures
        p@ == signing_payload_of(event_bytes@, sender.0@, timestamp_ms),
{
    let mut p: Vec<u8> = Vec::new();
    extend_bytes(&mut p, event_bytes);
    extend_bytes(&mut p, sender.as_bytes());
    let t = millis_le_bytes(timestamp_ms);
    extend_bytes(&mut p, t.as_slice());
    p
}

/// A drive event in a signed envelope.
#[derive(Debug)]
pub struct SignedGossipMessage {
    /// The event.
    pub event: DriveEvent,
    /// The sender's public key.
    pub sender: NodeId,
    /// When the message was made (Unix ms).
    pub timestamp_ms: i64,
    /// Ed25519 signature over the serialized event, the sender and the time.
    pub signature: Vec<u8>,
}

/// A message is stale at `now` when it is older than `max_age_ms`.
pub open spec fn message_stale(m: SignedGossipMessage, max_age_ms: i64, now: i64) -> bool {
    now - m.timestamp_ms > max_age_ms
}

impl SignedGossipMessage {
    /// Sign an event (given also serialized) by an identity at time `now`.
    /// The message verifies over the same serialized event.
    pub fn new_at(event: DriveEvent, event_bytes: &[u8], identity: &Identity, now: i64) -> (m:
        SignedGossipMessage)
        ensures
            m.event == event,
            m.sender.0@ == ed25519_public(identity.secret_view()),
            m.timestamp_ms == now,
            m.signature@ == ed25519_sign(
                identity.secret_view(),
                signing_payload_of(event_bytes@, m.sender.0@, now),
            ),
            gossip_check(
                m.sender.0@,
                signing_payload_of(event_bytes@, m.sender.0@, now),
                m.signature@,
            ) is Ok,
    {
        let sender = identity.node_id();
        let payload = signing_payload(event_bytes, &sender, now);
        let sig = identity.sign(payload.as_slice());
        let mut signature: Vec<u8> = Vec::new();
        extend_bytes(&mut signature, &sig);
        assert(signature@ =~= sig@);
        SignedGossipMessage { event, sender, timestamp_ms: now, signature }
    }

    /// Sign an event by an identity now.
    pub fn new(event: DriveEvent, event_bytes: &[u8], identity: &Identity) -> (m: SignedGossipMessage)
        ensures
            m.event == event,
            m.sender.0@ == ed25519_public(identity.secret_view()),
            gossip_check(
                m.sender.0@,
                signing_payload_of(event_bytes@, m.sender.0@, m.timestamp_ms),
                m.signature@,
            ) is Ok,
            -INSTANT_BOUND < m.timestamp_ms < INSTANT_BOUND,
    {
        Self::new_at(event, event_bytes, identity, now_millis())
    }

    /// Verify the signature over the serialized event: a signature of other
    /// than 64 bytes is `InvalidSignature`, a sender key that does not decode
    /// is `InvalidSenderKey`, a signature that does not verify is
    /// `SignatureVerificationFailed`.
    pub fn verify(&self, event_bytes: &[u8]) -> (r: Result<(), GossipAuthError>)
        ensures
            r == gossip_check(
                self.sender.0@,
                signing_payload_of(event_bytes@, self.sender.0@, self.timestamp_ms),
                self.signature@,
            ),
    {
        let payload = signing_payload(event_bytes, &self.sender, self.timestamp_ms);
        if self.signature.len() != 64 {
            return Err(GossipAuthError::InvalidSignature);
        }
        let sig = to_array_64(self.signature.as_slice());
        if !ed25519_public_key_valid(&self.sender.0) {
            return Err(GossipAuthError::InvalidSenderKey);
        }
        if !ed25519_verify_signature(&self.sender.0, payload.as_slice(), &sig) {
            return Err(GossipAuthError::SignatureVerificationFailed);
        }
        Ok(())
    }

    /// Whether the message is older than `max_age_ms` at time `now`.
    pub fn is_stale_at(&self, max_age_ms: i64, now: i64) -> (r: bool)
        ensures
            r == message_stale(*self, max_age_ms, now),
    {
        (now as i128) - (self.timestamp_ms as i128) > (max_age_ms as i128)
    }

    /// Whether the message is older than `max_age_ms` now.
    pub fn is_stale(&self, max_age_ms: i64) -> (r: bool)
        ensures
            -INSTANT_BOUND - self.timestamp_ms > max_age_ms ==> r,
            INSTANT_BOUND - self.timestamp_ms <= max_age_ms ==> !r,
            exists|now: i64|
                -INSTANT_BOUND < now < INSTANT_BOUND && r == #[trigger] message_stale(*self, max_age_ms, now),
    {
        let now = now_millis();
        let r = self.is_stale_at(max_age_ms, now);
        assert(r == message_stale(*self, max_age_ms, now));
        r
    }
}

/// How old a received gossip message may be: 5 minutes.
pub const MAX_MESSAGE_AGE_MS: i64 = 300000;

/// The answer to a received gossip message: refused where its signature
/// does not check (with that error), where it is older than 5 minutes at
/// `now`, or where the sender is checked against the drive's access list and
/// is not allowed; taken otherwise.
pub open spec fn admission(
    check: Result<(), GossipAuthError>,
    timestamp_ms: i64,
    now: i64,
    sender_allowed: Option<bool>,
) -> Result<(), GossipAuthError> {
    match check {
        Err(e) => Err(e),
        Ok(()) => if now - timestamp_ms > MAX_MESSAGE_AGE_MS {
            Err(GossipAuthError::StaleMessage)
        } else if sender_allowed == Some(false) {
            Err(GossipAuthError::Unauthorized)
        } else {
            Ok(())
        },
    }
}

/// Whether a received gossip message is taken (see `admission`); the event
/// is given in its serialized form, and `sender_allowed` is the access
/// list's answer for the sender where the drive checks senders.
pub fn admit_gossip_at(
    msg: &SignedGossipMessage,
    event_bytes: &[u8],
    now: i64,
    sender_allowed: Option<bool>,
) -> (r: Result<(), GossipAuthError>)
    ensures
        r == admission(
            gossip_check(
                msg.sender.0@,
                signing_payload_of(event_bytes@, msg.sender.0@, msg.timestamp_ms),
                msg.signature@,
            ),
            msg.timestamp_ms,
            now,
            sender_allowed,
        ),
{
    match msg.verify(event_bytes) {
        Err(e) => return Err(e),
        Ok(()) => {},
    }
    if msg.is_stale_at(MAX_MESSAGE_AGE_MS, now) {
        return Err(GossipAuthError::StaleMessage);
    }
    match sender_allowed {
        Some(false) => Err(GossipAuthError::Unauthorized),
        _ => Ok(()),
    }
}

/// A message whose signature checks (as every message `new_at` makes does)
/// is taken by a receiver within 5 minutes of its making, from a sender the
/// drive allows or does not check.
pub proof fn law_fresh_signed_message_admitted(
    msg: SignedGossipMessage,
    event_bytes: Seq<u8>,
    now: i64,
    sender_allowed: Option<bool>,
)
    requires
        gossip_check(
            msg.sender.0@,
            signing_payload_of(event_bytes, msg.sender.0@, msg.timestamp_ms),
            msg.signature@,
        ) is Ok,
        now - msg.timestamp_ms <= MAX_MESSAGE_AGE_MS,
        sender_allowed != Some(false),
    ensures
        admission(
            gossip_check(
                msg.sender.0@,
                signing_payload_of(event_bytes, msg.sender.0@, msg.timestamp_ms),
                msg.signature@,
            ),
            msg.timestamp_ms,
            now,
            sender_allowed,
        ) is Ok,
{
}

/// A message older than 5 minutes, or from a sender the drive does not
/// allow, is refused, whatever its signature.
pub proof fn law_stale_or_unauthorized_refused(
    check: Result<(), GossipAuthError>,
    timestamp_ms: i64,
    now: i64,
    sender_allowed: Option<bool>,
)
    requires
        now - timestamp_ms > MAX_MESSAGE_AGE_MS || sender_allowed == Some(false),
    ensures
        admission(check, timestamp_ms, now, sender_allowed) is Err,
{
}

} // verus!
