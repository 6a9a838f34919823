use gix_drive::access::{AccessControlList, AccessRule, PathRule, Permission};
use gix_drive::encryption::{DriveEncryption, DriveKey, EncryptionError};
use gix_drive::invite::{generate_token_id, token_bytes, token_text, InviteBuilder, InviteToken, TokenTracker};
use gix_drive::key_exchange::{KeyExchangePair, KeyRing, WrappedKey};
use gix_drive::keys::{Identity, NodeId};

fn now_ms() -> i64 {
    let d = std::time::SystemTime::now()
        .duration_since(std::time::UNIX_EPOCH)
        .unwrap();
    d.as_millis() as i64
}

#[test]
fn access_test_permission_ordering() {
    assert!(Permission::Admin > Permission::Manage);
    assert!(Permission::Manage > Permission::Write);
    assert!(Permission::Write > Permission::Read);
}

#[test]
fn access_test_permission_satisfies() {
    assert!(Permission::Admin.satisfies(Permission::Read));
    assert!(Permission::Admin.satisfies(Permission::Admin));
    assert!(!Permission::Read.satisfies(Permission::Write));
}

#[test]
fn test_access_rule_expiry() {
    let rule = AccessRule::new(Permission::Read, "alice");
    assert!(!rule.is_expired());

    let expired_rule =
        AccessRule::new(Permission::Read, "alice").with_expiry(now_ms() - 86_400_000);
    assert!(expired_rule.is_expired());
}

#[test]
fn access_test_path_rule_exact_match() {
    let rule = PathRule::allow("documents/secret.txt", Permission::Read);
    assert!(rule.matches("documents/secret.txt"));
    assert!(!rule.matches("documents/other.txt"));
}

#[test]
fn test_path_rule_single_star() {
    let rule = PathRule::allow("documents/*.txt", Permission::Read);
    assert!(rule.matches("documents/secret.txt"));
    assert!(rule.matches("documents/other.txt"));
    assert!(!rule.matches("images/photo.jpg"));
}

#[test]
fn test_path_rule_double_star() {
    let rule = PathRule::allow("documents/**", Permission::Read);
    assert!(rule.matches("documents/secret.txt"));
    assert!(rule.matches("documents/nested/deep/file.txt"));
}

#[test]
fn test_acl_owner_always_admin() {
    let acl = AccessControlList::new("owner123");
    assert_eq!(acl.get_user_permission("owner123"), Some(Permission::Admin));
    assert!(acl.check_permission("owner123", "any/path", Permission::Admin));
}

#[test]
fn test_acl_grant_revoke() {
    let mut acl = AccessControlList::new("owner123");
    let rule = AccessRule::new(Permission::Write, "owner123");

    acl.grant("user456", rule);
    assert_eq!(acl.get_user_permission("user456"), Some(Permission::Write));
    assert!(acl.check_permission("user456", "file.txt", Permission::Write));
    assert!(!acl.check_permission("user456", "file.txt", Permission::Admin));

    acl.revoke("user456");
    assert_eq!(acl.get_user_permission("user456"), None);
}

#[test]
fn test_acl_path_restriction() {
    let mut acl = AccessControlList::new("owner123");
    acl.grant("user456", AccessRule::new(Permission::Write, "owner123"));
    acl.add_path_rule(PathRule::allow("private/**", Permission::Read));

    assert!(acl.check_permission("user456", "public/file.txt", Permission::Write));
    assert!(acl.check_permission("user456", "private/secret.txt", Permission::Read));
    assert!(!acl.check_permission("user456", "private/secret.txt", Permission::Write));
}

#[test]
fn test_acl_path_deny() {
    let mut acl = AccessControlList::new("owner123");
    acl.grant("user456", AccessRule::new(Permission::Admin, "owner123"));
    acl.add_path_rule(PathRule::deny(".git/**"));

    assert!(!acl.check_permission("user456", ".git/config", Permission::Read));
    assert!(acl.check_permission("owner123", ".git/config", Permission::Read));
}

#[test]
fn test_expired_rule_no_access() {
    let mut acl = AccessControlList::new("owner123");
    let expired_rule =
        AccessRule::new(Permission::Write, "owner123").with_expiry(now_ms() - 86_400_000);

    acl.grant("user456", expired_rule);

    assert_eq!(acl.get_user_permission("user456"), None);
    assert!(!acl.check_permission("user456", "file.txt", Permission::Read));
}

#[test]
fn test_drive_key_generation() {
    let key1 = DriveKey::generate();
    let key2 = DriveKey::generate();
    assert_ne!(key1.as_bytes(), key2.as_bytes());
}

#[test]
fn test_file_key_derivation() {
    let key = DriveKey::generate();
    let file_key1 = key.derive_file_key("test.txt");
    let file_key2 = key.derive_file_key("test.txt");
    let file_key3 = key.derive_file_key("other.txt");
    assert_eq!(file_key1, file_key2);
    assert_ne!(file_key1, file_key3);
}

#[test]
fn test_encrypt_decrypt_roundtrip() {
    let encryption = DriveEncryption::generate();
    let plaintext = b"Hello, encrypted world!";

    let ciphertext = encryption.encrypt(plaintext, "test.txt").unwrap();
    let decrypted = encryption.decrypt(&ciphertext, "test.txt").unwrap();

    assert_eq!(plaintext.as_slice(), decrypted.as_slice());
}

#[test]
fn test_decrypt_wrong_context_fails() {
    let encryption = DriveEncryption::generate();
    let plaintext = b"Secret data";

    let ciphertext = encryption.encrypt(plaintext, "file1.txt").unwrap();
    let result = encryption.decrypt(&ciphertext, "file2.txt");

    assert!(result.is_err());
}

#[test]
fn test_stream_encrypt_decrypt() {
    let encryption = DriveEncryption::generate();
    let plaintext = b"This is some test data for streaming encryption";

    let encrypted = encryption.encrypt_stream_bytes(plaintext, "stream.txt").unwrap();
    let decrypted = encryption.decrypt_stream_bytes(&encrypted, "stream.txt").unwrap();

    assert_eq!(plaintext.as_slice(), decrypted.as_slice());
}

#[test]
fn test_path_encryption() {
    let encryption = DriveEncryption::generate();
    let path = "documents/secret/passwords.txt";

    let encrypted = encryption.encrypt_path(path).unwrap();
    let decrypted = encryption.decrypt_path(&encrypted).unwrap();

    assert_eq!(path, decrypted);
    let encrypted2 = encryption.encrypt_path(path).unwrap();
    assert_ne!(encrypted, encrypted2);
}

#[test]
fn test_large_file_streaming() {
    let encryption = DriveEncryption::generate();
    let plaintext: Vec<u8> = (0..256 * 1024).map(|i| (i % 256) as u8).collect();

    let encrypted = encryption.encrypt_stream_bytes(&plaintext, "large.bin").unwrap();
    let decrypted = encryption.decrypt_stream_bytes(&encrypted, "large.bin").unwrap();

    assert_eq!(plaintext, decrypted);
}

#[test]
fn test_stream_header_and_chunk_framing() {
    let encryption = DriveEncryption::generate();
    let plaintext = vec![7u8; 65536 + 10];
    let encrypted = encryption.encrypt_stream_bytes(&plaintext, "f.bin").unwrap();
    // version byte and 8 zero bytes, then two chunks of (nonce, ciphertext + tag)
    assert_eq!(encrypted[0], 1);
    assert_eq!(&encrypted[1..9], &[0u8; 8]);
    assert_eq!(encrypted.len(), 9 + (12 + 65536 + 16) + (12 + 10 + 16));
}

#[test]
fn test_stream_decrypt_short_input_is_io_error() {
    let encryption = DriveEncryption::generate();
    let r = encryption.decrypt_stream_bytes(&[1u8, 2, 3], "f.bin");
    assert!(matches!(r, Err(EncryptionError::IoError(_))));
}

#[test]
fn test_stream_decrypt_unsupported_version() {
    let encryption = DriveEncryption::generate();
    let mut encrypted = encryption.encrypt_stream_bytes(b"abc", "f.bin").unwrap();
    encrypted[0] = 9;
    let r = encryption.decrypt_stream_bytes(&encrypted, "f.bin");
    assert!(matches!(r, Err(EncryptionError::UnsupportedVersion(9))));
}

#[test]
fn test_stream_decrypt_wrong_path_fails() {
    let encryption = DriveEncryption::generate();
    let encrypted = encryption.encrypt_stream_bytes(b"abc", "a.bin").unwrap();
    assert!(encryption.decrypt_stream_bytes(&encrypted, "b.bin").is_err());
}

#[test]
fn test_decrypt_truncated_ciphertext_is_invalid_format() {
    let encryption = DriveEncryption::generate();
    let r = encryption.decrypt(&[0u8; 5], "x");
    assert!(matches!(r, Err(EncryptionError::InvalidFormat)));
}

#[test]
fn test_encryption_error_messages() {
    assert_eq!(EncryptionError::InvalidFormat.message(), "Invalid ciphertext format");
    assert_eq!(
        EncryptionError::UnsupportedVersion(3).message(),
        "Unsupported encryption version: 3"
    );
}

#[test]
fn test_identity_generation() {
    let identity = Identity::generate();
    let node_id = identity.node_id();
    assert_eq!(node_id.as_bytes().len(), 32);
}

#[test]
fn test_identity_serialization() {
    let identity = Identity::generate();
    let bytes = identity.to_bytes();
    let restored = Identity::from_bytes(&bytes).unwrap();
    assert_eq!(identity.node_id().as_bytes(), restored.node_id().as_bytes());
}

#[test]
fn test_node_id_hex() {
    let identity = Identity::generate();
    let node_id = identity.node_id();
    let hex_str = node_id.to_hex();
    let restored = NodeId::from_hex(&hex_str).unwrap();
    assert_eq!(node_id.as_bytes(), restored.as_bytes());
}

#[test]
fn test_node_id_short_string() {
    let n = NodeId([0xab; 32]);
    assert_eq!(n.short_string(), "abababab...abababab");
    assert!(NodeId::from_hex("zz").is_err());
}

#[test]
fn test_keypair_generation() {
    let pair1 = KeyExchangePair::generate();
    let pair2 = KeyExchangePair::generate();
    assert_ne!(pair1.public_bytes(), pair2.public_bytes());
}

#[test]
fn test_keypair_serialization() {
    let pair = KeyExchangePair::generate();
    let secret_bytes = pair.secret_bytes();
    let restored = KeyExchangePair::from_bytes(&secret_bytes);
    assert_eq!(pair.public_bytes(), restored.public_bytes());
}

#[test]
fn test_diffie_hellman() {
    let alice = KeyExchangePair::generate();
    let bob = KeyExchangePair::generate();

    let alice_shared = alice.diffie_hellman(bob.public_key());
    let bob_shared = bob.diffie_hellman(alice.public_key());

    assert_eq!(alice_shared, bob_shared);
}

#[test]
fn test_key_wrap_unwrap() {
    let bob = KeyExchangePair::generate();
    let drive_key: [u8; 32] = rand::random();

    let wrapped = KeyExchangePair::wrap_key_for(bob.public_key(), &drive_key).unwrap();
    let unwrapped = bob.unwrap_key(&wrapped).unwrap();

    assert_eq!(drive_key, unwrapped);
}

#[test]
fn test_wrong_recipient_cannot_unwrap() {
    let bob = KeyExchangePair::generate();
    let eve = KeyExchangePair::generate();
    let drive_key: [u8; 32] = rand::random();

    let wrapped = KeyExchangePair::wrap_key_for(bob.public_key(), &drive_key).unwrap();
    let result = eve.unwrap_key(&wrapped);
    assert!(result.is_err());
}

#[test]
fn test_wrapped_key_serialization() {
    let bob = KeyExchangePair::generate();
    let drive_key: [u8; 32] = rand::random();

    let wrapped = KeyExchangePair::wrap_key_for(bob.public_key(), &drive_key).unwrap();
    let bytes = wrapped.to_bytes();
    assert_eq!(bytes.len(), 32 + 12 + 48);
    let restored = WrappedKey::from_bytes(&bytes).unwrap();

    let unwrapped = bob.unwrap_key(&restored).unwrap();
    assert_eq!(drive_key, unwrapped);
}

#[test]
fn test_wrapped_key_from_short_bytes_fails() {
    assert!(WrappedKey::from_bytes(&[0u8; 40]).is_err());
}

#[test]
fn test_keyring_operations() {
    let mut keyring = KeyRing::new();
    let bob = KeyExchangePair::generate();
    let drive_key: [u8; 32] = rand::random();

    let wrapped = KeyExchangePair::wrap_key_for(bob.public_key(), &drive_key).unwrap();
    keyring.add("bob123", wrapped);

    assert!(keyring.has_user("bob123"));
    assert!(!keyring.has_user("alice456"));
    assert_eq!(keyring.len(), 1);

    let retrieved = keyring.get("bob123").unwrap();
    let unwrapped = bob.unwrap_key(retrieved).unwrap();
    assert_eq!(drive_key, unwrapped);

    keyring.remove("bob123");
    assert!(!keyring.has_user("bob123"));
    assert!(keyring.is_empty());
}

fn signed_invite(builder: InviteBuilder, identity: &Identity) -> (InviteToken, Vec<u8>) {
    let secret = identity.to_bytes();
    let payload = builder.payload_at(&secret, now_ms(), generate_token_id());
    let bytes = format!("{:?}", payload).into_bytes();
    (InviteToken::sign(payload, &bytes, &secret), bytes)
}

#[test]
fn test_invite_creation() {
    let identity = Identity::generate();
    let (token, _) = signed_invite(
        InviteBuilder::new("drive123", "My Test Drive")
            .with_permission(Permission::Write)
            .with_validity(24 * 3_600_000)
            .with_note("Welcome to my drive!"),
        &identity,
    );

    assert_eq!(token.payload.drive_id, "drive123");
    assert_eq!(token.payload.drive_name, "My Test Drive");
    assert_eq!(token.payload.permission, Permission::Write);
    assert!(!token.is_expired());
}

#[test]
fn test_invite_verification() {
    let identity = Identity::generate();
    let (token, bytes) = signed_invite(
        InviteBuilder::new("drive123", "Test Drive").with_permission(Permission::Read),
        &identity,
    );

    assert!(token.verify(&bytes, &identity.verifying_key()).is_ok());

    let wrong = Identity::generate();
    assert!(token.verify(&bytes, &wrong.verifying_key()).is_err());
}

#[test]
fn test_invite_serialization() {
    let identity = Identity::generate();
    let (token, bytes) = signed_invite(
        InviteBuilder::new("drive123", "Serialization Test")
            .with_permission(Permission::Manage)
            .single_use(),
        &identity,
    );
    let text = token_text(&bytes);
    let restored = token_bytes(&text).unwrap();
    assert_eq!(restored, bytes);
    assert!(token.verify(&restored, &identity.verifying_key()).is_ok());
    assert!(token.payload.single_use);
}

#[test]
fn test_invite_doc_ticket_roundtrip() {
    let identity = Identity::generate();
    let (token, bytes) = signed_invite(
        InviteBuilder::new("drive123", "Doc Ticket Test")
            .with_permission(Permission::Read)
            .with_doc_ticket("doc-ticket-123"),
        &identity,
    );
    assert_eq!(token.payload.doc_ticket.as_deref(), Some("doc-ticket-123"));

    let text = token_text(&bytes);
    let restored = token_bytes(&text).unwrap();
    assert_eq!(restored, bytes);
    assert_eq!(token.payload.doc_ticket.as_deref(), Some("doc-ticket-123"));
    assert!(token.verify(&restored, &identity.verifying_key()).is_ok());
}

#[test]
fn test_expired_invite() {
    let identity = Identity::generate();
    let (token, bytes) = signed_invite(
        InviteBuilder::new("drive123", "Expired Drive").with_validity(-1000),
        &identity,
    );
    assert!(token.is_expired());
    assert!(!token.is_valid(&bytes, &identity.verifying_key()));
}

#[test]
fn test_invite_tampered_payload_fails() {
    let identity = Identity::generate();
    let (token, mut bytes) = signed_invite(InviteBuilder::new("d", "n"), &identity);
    bytes.push(b'x');
    assert!(token.verify(&bytes, &identity.verifying_key()).is_err());
}

#[test]
fn test_invite_bad_text_is_invalid_format() {
    assert!(token_bytes("not base64 !!!").is_err());
}

#[test]
fn test_token_tracker() {
    let mut tracker = TokenTracker::new();
    let token_id = "token123";

    assert!(!tracker.is_used(token_id));

    tracker.mark_used(token_id);
    assert!(tracker.is_used(token_id));
    assert!(tracker.is_used(token_id));
}

#[test]
fn test_token_tracker_marks_once_and_cleanup() {
    let mut tracker = TokenTracker::new();
    tracker.mark_used("a");
    tracker.mark_used("a");
    tracker.mark_used("b");
    assert_eq!(tracker.used_count(), 2);
    tracker.cleanup(&["b".to_string()]);
    assert!(!tracker.is_used("a"));
    assert!(tracker.is_used("b"));
}

#[test]
fn test_invite_builder_defaults() {
    let identity = Identity::generate();
    let (token, _) = signed_invite(InviteBuilder::new("drive123", "Default Test"), &identity);
    assert_eq!(token.payload.permission, Permission::Read);
    assert!(!token.payload.single_use);
    assert_eq!(token.payload.expires_at - token.payload.created_at, 7 * 86_400_000);
}
