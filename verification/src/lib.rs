//! Verified core of a peer-to-peer drive-sharing application.
pub mod text;
pub mod hex;
pub mod error;
pub mod validation;
pub mod clock;
pub mod watcher;
pub mod access;
pub mod primitives;
pub mod bytes;
pub mod keys;
pub mod drive;
pub mod encryption;
pub mod assoc;
pub mod key_exchange;
pub mod invite;
pub mod security;
pub mod store;
pub mod conflict;
pub mod locking;
pub mod rate_limit;
pub mod events;
pub mod presence;
pub mod docs;
pub mod transfer;
pub mod listing;
pub mod file_commands;
pub mod audit;
pub mod encryption_manager;
pub mod cleanup;
pub mod channel;
pub mod sync;
pub mod identity;
pub mod peers;
