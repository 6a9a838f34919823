use gix_drive::access::Permission;
use gix_drive::invite::{InviteBuilder, InviteToken};
use gix_drive::keys::Identity;
use gix_drive::security::{invite_validity_hours, joined_drive_folder_name, PermissionLevel};
use gix_drive::store::SecurityStore;

const DRIVE: &str = "ab00000000000000000000000000000000000000000000000000000000000000";

fn invite(inviter: &Identity, single_use: bool, now: i64) -> (InviteToken, Vec<u8>) {
    let secret = inviter.to_bytes();
    let mut builder = InviteBuilder::new(DRIVE, "Team/Drive").with_permission(Permission::Write);
    if single_use {
        builder = builder.single_use();
    }
    let payload = builder.payload_at(&secret, now, "tok1".to_string());
    let bytes = format!("{:?}", payload).into_bytes();
    (InviteToken::sign(payload, &bytes, &secret), bytes)
}

#[test]
fn test_valid_invite_is_accepted_and_grants_permission() {
    let alice = Identity::generate();
    let bob = Identity::generate().node_id().to_hex();
    let owner = alice.node_id().to_hex();
    let (token, bytes) = invite(&alice, false, 1_000);
    let mut store = SecurityStore::new();

    let v = store.verify_invite_at(&token, &bytes, 2_000);
    assert!(v.valid);
    assert_eq!(v.error, None);

    let id = store.check_invite_acceptance(&token, &bytes, &bob, 2_000).unwrap();
    assert_eq!(id[0], 0xab);
    let done = store.complete_invite_acceptance(&token, &bob, 2_000);
    assert!(done.success);
    assert_eq!(done.permission, PermissionLevel::Write);
    assert!(store.check_permission_at(DRIVE, &owner, &bob, "x.txt", PermissionLevel::Write, 3_000));
    assert!(!store.check_permission_at(DRIVE, &owner, &bob, "x.txt", PermissionLevel::Manage, 3_000));
}

#[test]
fn test_refused_invites() {
    let alice = Identity::generate();
    let bob = Identity::generate().node_id().to_hex();
    let owner = alice.node_id().to_hex();
    let mut store = SecurityStore::new();

    // the inviter cannot join their own drive
    let (token, bytes) = invite(&alice, false, 1_000);
    let r = store.check_invite_acceptance(&token, &bytes, &owner, 2_000).unwrap_err();
    assert!(!r.success);
    assert_eq!(r.error.as_deref(), Some("You cannot join your own drive"));

    // expired
    let late = token.payload.expires_at + 1;
    let r = store.check_invite_acceptance(&token, &bytes, &bob, late).unwrap_err();
    assert_eq!(r.error.as_deref(), Some("Token has expired"));

    // tampered payload
    let mut other = bytes.clone();
    other.push(b' ');
    let r = store.check_invite_acceptance(&token, &other, &bob, 2_000).unwrap_err();
    assert_eq!(
        r.error.as_deref(),
        Some("Invalid signature - token may have been tampered with")
    );

    // revoked
    store.revoke_token(DRIVE, "tok1");
    let r = store.check_invite_acceptance(&token, &bytes, &bob, 2_000).unwrap_err();
    assert_eq!(r.error.as_deref(), Some("This invite has been revoked"));
    assert!(!store.verify_invite_at(&token, &bytes, 2_000).valid);
}

#[test]
fn test_single_use_invite_used_once() {
    let alice = Identity::generate();
    let bob = Identity::generate().node_id().to_hex();
    let carol = Identity::generate().node_id().to_hex();
    let (token, bytes) = invite(&alice, true, 1_000);
    let mut store = SecurityStore::new();

    assert!(store.check_invite_acceptance(&token, &bytes, &bob, 2_000).is_ok());
    assert!(store.complete_invite_acceptance(&token, &bob, 2_000).success);
    let r = store.check_invite_acceptance(&token, &bytes, &carol, 2_000).unwrap_err();
    assert_eq!(
        r.error.as_deref(),
        Some("This single-use invite has already been used")
    );
}

#[test]
fn test_invite_helpers() {
    assert_eq!(invite_validity_hours(None), 24);
    assert_eq!(invite_validity_hours(Some(0)), 1);
    assert_eq!(invite_validity_hours(Some(500)), 168);
    assert_eq!(joined_drive_folder_name("Team/Drive", DRIVE), "Team_Drive_ab000000");
}
