use gix_drive::access::{AccessControlList, AccessRule, Permission};
use gix_drive::audit::{select_entries, select_page, AuditEntry, AuditEvent, AuditFilter};
use gix_drive::cleanup::CleanupManager;
use gix_drive::conflict::{ConflictManager, ConflictVersion, ResolutionStrategy};
use gix_drive::docs::FileMetadata;
use gix_drive::drive::{index_stats, DriveRegistry, SharedDrive};
use gix_drive::encryption_manager::EncryptionManager;
use gix_drive::error::AppError;
use gix_drive::events::{
    admit_gossip_at, DriveEvent, DriveEventDto, GossipAuthError, SignedGossipMessage,
};
use gix_drive::file_commands::{
    authorize_file_operation, authorize_rename, check_not_root, decode_upload, file_content,
    import_destination, mime_type_for, relative_path, FileOperation,
};
use gix_drive::identity::{IdentityInfo, IdentityManager};
use gix_drive::key_exchange::KeyExchangePair;
use gix_drive::keys::{Identity, NodeId};
use gix_drive::listing::{
    is_hidden_name, is_indexed_name, listing_subpath, merge_listing, sort_entries, FileEntry,
};
use gix_drive::locking::{LockManager, LockType};
use gix_drive::presence::PresenceManager;
use gix_drive::security::PermissionLevel;
use gix_drive::store::SecurityStore;
use gix_drive::watcher::{file_hash, plan_fs_change, FsChangeKind, FsStep};

fn entry(name: &str, is_dir: bool, size: u64) -> FileEntry {
    FileEntry {
        name: name.to_string(),
        path: name.to_string(),
        is_dir,
        size,
        modified_at: 0,
    }
}

#[test]
fn test_sort_entries_directories_first_then_name() {
    let sorted = sort_entries(vec![
        entry("b.txt", false, 1),
        entry("Zeta", true, 0),
        entry("A.txt", false, 1),
        entry("alpha", true, 0),
    ]);
    let names: Vec<&str> = sorted.iter().map(|e| e.name.as_str()).collect();
    assert_eq!(names, vec!["alpha", "Zeta", "A.txt", "b.txt"]);
}

#[test]
fn test_merge_listing_local_wins_and_keeps_hash() {
    let remote = vec![
        FileMetadata::with_hash("a.txt", "a.txt", false, 5, "2024-01-01T00:00:00Z", "h1".to_string()),
        FileMetadata::new("r.txt", "r.txt", false, 7, "2024-01-01T00:00:00Z"),
    ];
    let local = vec![entry("a.txt", false, 9)];
    let merged = merge_listing(&remote, &local);
    assert_eq!(merged.len(), 2);
    assert_eq!(merged[0].name, "a.txt");
    assert!(merged[0].is_local);
    assert_eq!(merged[0].size, 9);
    assert_eq!(merged[0].content_hash.as_deref(), Some("h1"));
    assert_eq!(merged[1].name, "r.txt");
    assert!(!merged[1].is_local);
}

#[test]
fn test_listing_names() {
    assert!(is_hidden_name(".git"));
    assert!(!is_hidden_name("git"));
    assert!(!is_indexed_name("node_modules"));
    assert!(!is_indexed_name(".hidden"));
    assert!(is_indexed_name("src"));
    assert_eq!(listing_subpath("/"), None);
    assert_eq!(listing_subpath(""), None);
    assert_eq!(listing_subpath("//docs/a"), Some("docs/a".to_string()));
}

#[test]
fn test_index_stats_counts_files_only() {
    let entries = vec![entry("d", true, 0), entry("a", false, 3), entry("b", false, 4)];
    assert_eq!(index_stats(&entries), (7, 2));
}

#[test]
fn test_authorize_file_operations() {
    let mut acl = AccessControlList::new("owner");
    acl.grant("reader", AccessRule::new_at(Permission::Read, "owner", 0));
    assert!(authorize_file_operation(&acl, "reader", "a.txt", FileOperation::Read, 0).is_ok());
    let r = authorize_file_operation(&acl, "reader", "a.txt", FileOperation::Write, 0);
    match r {
        Err(AppError::AccessDenied { reason }) => {
            assert_eq!(reason, "insufficient permission to write file")
        }
        _ => panic!("expected a refusal"),
    }
    match authorize_rename(&acl, "reader", "a", "b", 0) {
        Err(AppError::AccessDenied { reason }) => {
            assert_eq!(reason, "insufficient permission to rename from source path")
        }
        _ => panic!("expected a refusal"),
    }
    assert!(authorize_rename(&acl, "owner", "a", "b", 0).is_ok());
}

#[test]
fn test_check_not_root() {
    assert_eq!(
        check_not_root("/d/root/", "/d/root", FileOperation::Delete),
        Err("Cannot delete drive root".to_string())
    );
    assert!(check_not_root("/d/root", "/d/root", FileOperation::Read).is_ok());
    assert!(check_not_root("/d/root/x", "/d/root", FileOperation::Delete).is_ok());
}

#[test]
fn test_mime_types_and_content() {
    assert_eq!(mime_type_for("a/b.PNG"), Some("image/png".to_string()));
    assert_eq!(mime_type_for("notes.md"), Some("text/plain".to_string()));
    assert_eq!(mime_type_for("x.bin"), Some("application/octet-stream".to_string()));
    assert_eq!(mime_type_for("Makefile"), None);
    let c = file_content(b"hi!", "a.txt");
    assert_eq!(c.content, "aGkh");
    assert_eq!(c.size, 3);
    assert_eq!(c.mime_type.as_deref(), Some("text/plain"));
}

#[test]
fn test_decode_upload() {
    assert_eq!(decode_upload("aGkh").unwrap(), b"hi!".to_vec());
    let e = decode_upload("@@@").unwrap_err();
    assert!(e.starts_with("Invalid base64 content: "));
    assert!(e.len() > "Invalid base64 content: ".len());
}

#[test]
fn test_relative_path() {
    assert_eq!(relative_path("/d/root/a/b.txt", "/d/root"), Some("a/b.txt".to_string()));
    assert_eq!(relative_path("/d/other/a", "/d/root"), None);
}

fn event(drive: &str, user: &str) -> AuditEvent {
    AuditEvent::FileRead {
        drive_id: drive.to_string(),
        path: "p".to_string(),
        user_id: user.to_string(),
    }
}

#[test]
fn test_audit_record_and_filter() {
    let e = AuditEntry::record(event("d1", "u1"), 42);
    assert_eq!(e.id, 0);
    assert_eq!(e.event_type, "file_read");
    assert_eq!(e.drive_id.as_deref(), Some("d1"));
    assert_eq!(e.user_id.as_deref(), Some("u1"));

    let filter = AuditFilter::for_drive("d1", 10);
    assert!(filter.accepts(&e));
    assert!(!AuditFilter::for_user("u2", 10).accepts(&e));
    assert_eq!(AuditFilter::default().page_limit(), 100);

    let found = vec![
        (7u64, AuditEntry::record(event("d1", "u1"), 3)),
        (8u64, AuditEntry::record(event("d2", "u1"), 2)),
        (9u64, AuditEntry::record(event("d1", "u2"), 1)),
    ];
    let out = select_entries(&filter, found);
    let ids: Vec<u64> = out.iter().map(|e| e.id).collect();
    assert_eq!(ids, vec![7, 9]);
    let created = AuditEntry::record(AuditEvent::IdentityCreated { node_id: "n".to_string() }, 1);
    assert_eq!(created.drive_id, None);
}

#[test]
fn test_audit_select_page() {
    let stamps = vec![Some(50), Some(40), None, Some(20), Some(10)];
    assert_eq!(select_page(&stamps, Some(15), Some(45), 10, 0), vec![1, 2, 3]);
    assert_eq!(select_page(&stamps, None, None, 2, 1), vec![1, 2]);
    // a limit of zero still reads one entry
    assert_eq!(select_page(&stamps, None, None, 0, 0), vec![0]);
    assert_eq!(select_page(&stamps, None, None, 3, 9), Vec::<usize>::new());
}

fn file_deleted(by: NodeId) -> DriveEvent {
    DriveEvent::FileDeleted {
        path: "a".to_string(),
        deleted_by: by,
        timestamp: 5,
    }
}

#[test]
fn test_gossip_admission() {
    let id = Identity::generate();
    let bytes = b"event".to_vec();
    let msg = SignedGossipMessage::new_at(file_deleted(id.node_id()), &bytes, &id, 1_000);
    assert!(msg.verify(&bytes).is_ok());
    assert_eq!(admit_gossip_at(&msg, &bytes, 2_000, None), Ok(()));
    assert_eq!(admit_gossip_at(&msg, &bytes, 2_000, Some(true)), Ok(()));
    assert_eq!(
        admit_gossip_at(&msg, &bytes, 2_000, Some(false)),
        Err(GossipAuthError::Unauthorized)
    );
    assert_eq!(
        admit_gossip_at(&msg, &bytes, 1_000 + 300_001, None),
        Err(GossipAuthError::StaleMessage)
    );
    assert_eq!(
        admit_gossip_at(&msg, b"other", 2_000, None),
        Err(GossipAuthError::SignatureVerificationFailed)
    );
    assert!(msg.is_stale_at(10, 1_011));
    assert!(!msg.is_stale_at(10, 1_010));
}

#[test]
fn test_gossip_sender_allowed() {
    let mut store = SecurityStore::new();
    assert!(!store.gossip_sender_allowed_at("d", "someone", 0));
    let mut acl = AccessControlList::new("owner");
    acl.grant("reader", AccessRule::new_at(Permission::Read, "owner", 0));
    store.update_acl("d", acl);
    assert!(store.gossip_sender_allowed_at("d", "owner", 0));
    assert!(store.gossip_sender_allowed_at("d", "reader", 0));
    assert!(!store.gossip_sender_allowed_at("d", "stranger", 0));
}

#[test]
fn test_store_grant_and_revoke() {
    let mut store = SecurityStore::new();
    assert!(store
        .grant_permission_at("d", "owner", "owner", "bob", PermissionLevel::Write, None, 0)
        .is_ok());
    assert!(store.check_permission_at("d", "owner", "bob", "x.txt", PermissionLevel::Write, 0));
    assert!(store
        .grant_permission_at("d", "owner", "bob", "carol", PermissionLevel::Read, None, 0)
        .is_err());
    assert_eq!(
        store.revoke_permission_at("d", "owner", "owner", "owner", 0),
        Err("Cannot revoke owner's access".to_string())
    );
    assert!(store.revoke_permission_at("d", "owner", "owner", "bob", 0).is_ok());
    assert!(!store.check_permission_at("d", "owner", "bob", "x.txt", PermissionLevel::Read, 0));
}

#[test]
fn test_store_token_revocation() {
    let mut store = SecurityStore::new();
    assert!(!store.is_token_revoked("d", "t1"));
    store.revoke_token("d", "t1");
    store.revoke_token("d", "t1");
    assert!(store.is_token_revoked("d", "t1"));
    assert_eq!(store.get_revoked_tokens("d"), vec!["t1".to_string()]);
}

#[test]
fn test_cleanup_run() {
    let me = NodeId([1; 32]);
    let mut locks = LockManager::new(me);
    let mut presence = PresenceManager::new(me);
    let mut conflicts = ConflictManager::new();
    let mut store = SecurityStore::new();

    locks.acquire_lock_at("d", "a".to_string(), LockType::Exclusive, 0);
    presence.join_drive_at("d", 0, "j".to_string());
    let v = |h: &str| ConflictVersion {
        hash: h.to_string(),
        size: 1,
        modified_at: 0,
        modified_by: me,
        preview: None,
    };
    conflicts.detect_conflict_at("d", "p".to_string(), v("x"), v("y"), None, 0);
    conflicts.resolve_conflict("d", "p", ResolutionStrategy::KeepLocal);
    let mut acl = AccessControlList::new("owner");
    acl.grant("u", AccessRule::new_at(Permission::Read, "owner", 0).with_expiry(10));
    store.update_acl("d", acl);

    let manager = CleanupManager::new();
    let now: i64 = 40 * 86_400_000;
    let stats = manager.run_at(now, &mut locks, &mut presence, &mut conflicts, &mut store);
    assert_eq!(stats.locks, 1);
    assert_eq!(stats.activities, 1);
    assert_eq!(stats.presence, 1);
    assert_eq!(stats.conflicts, 1);
    assert_eq!(stats.acl_rules, 1);
    assert_eq!(stats.total(), 5);
    assert_eq!(manager.activity_cutoff(now), now - 168 * 3_600_000);
}

#[test]
fn test_drive_registry() {
    let owner = NodeId([2; 32]);
    let mut reg = DriveRegistry::new();
    let d = SharedDrive::new_at("Docs".to_string(), "/data/docs".to_string(), owner, 7);
    let id = d.id.0;
    reg.insert(d);
    assert_eq!(reg.get(&id).unwrap().name, "Docs");
    assert!(reg.rename(&id, "Papers".to_string()));
    assert_eq!(reg.get(&id).unwrap().name, "Papers");
    assert_eq!(reg.drives().len(), 1);
    assert!(reg.remove(&id).is_some());
    assert!(reg.get(&id).is_none());
    assert!(!reg.rename(&id, "x".to_string()));
}

#[test]
fn test_encryption_manager_roundtrip() {
    let mut manager = EncryptionManager::new(KeyExchangePair::generate());
    let owner_pk = manager.public_key();
    let wrapped = manager.generate_drive_key("test-drive", &owner_pk).unwrap();
    let stored = wrapped.to_bytes();

    let plaintext = b"Hello, encrypted world!";
    let ciphertext = manager
        .encrypt_file("test-drive", "test.txt", plaintext, None)
        .unwrap();
    let decrypted = manager
        .decrypt_file("test-drive", "test.txt", &ciphertext, None)
        .unwrap();
    assert_eq!(plaintext.as_slice(), decrypted.as_slice());

    manager.clear_cache();
    assert!(!manager.is_cached("test-drive"));
    assert!(manager.encrypt_file("test-drive", "t", b"x", None).is_err());
    let again = manager
        .decrypt_file("test-drive", "test.txt", &ciphertext, Some(&stored))
        .unwrap();
    assert_eq!(again.as_slice(), plaintext.as_slice());
    assert!(manager.is_cached("test-drive"));
}

#[test]
fn test_identity_manager() {
    let mut m = IdentityManager::new();
    assert!(!m.is_initialized());
    assert!(m.node_id().is_none());
    let (node, created) = m.initialize(None);
    let secret = created.unwrap();
    assert_eq!(m.node_id(), Some(node));
    let mut m2 = IdentityManager::new();
    let (node2, created2) = m2.initialize(Some(secret));
    assert_eq!(node, node2);
    assert!(created2.is_none());
    assert!(m.sign(b"x").is_some());
    let info = IdentityInfo::of(&node);
    assert_eq!(info.node_id.len(), 64);
}

#[test]
fn test_plan_fs_change() {
    let root = "/drive";
    let paths = vec!["/drive/a/b.txt".to_string()];
    match plan_fs_change(FsChangeKind::FileCreated, &paths, root) {
        FsStep::ReadFile { path, relative } => {
            assert_eq!(path, "/drive/a/b.txt");
            assert_eq!(relative, "a/b.txt");
        }
        _ => panic!("expected a read"),
    }
    match plan_fs_change(FsChangeKind::FileRemoved, &paths, root) {
        FsStep::Removed { relative } => assert_eq!(relative, "a/b.txt"),
        _ => panic!("expected a removal"),
    }
    let ignored = vec!["/drive/.git/HEAD".to_string()];
    assert!(matches!(
        plan_fs_change(FsChangeKind::FileCreated, &ignored, root),
        FsStep::Ignore
    ));
    let outside = vec!["/elsewhere/x".to_string()];
    assert!(matches!(
        plan_fs_change(FsChangeKind::DataModified, &outside, root),
        FsStep::Ignore
    ));
}

#[test]
fn test_file_hash() {
    let h = file_hash(b"abc", 3);
    assert_eq!(h, blake3::hash(b"abc").to_hex().to_string());
    let big = file_hash(b"abc", 20_000_000);
    let mut data = b"abc".to_vec();
    data.extend_from_slice(&20_000_000u64.to_le_bytes());
    assert_eq!(big, blake3::hash(&data).to_hex().to_string());
}

#[test]
fn test_import_destination() {
    assert_eq!(
        import_destination(None, Some("re:port?.pdf".to_string()), Some("../docs/./2024//".to_string())),
        Ok("docs/2024/report.pdf".to_string())
    );
    assert_eq!(
        import_destination(Some("a b-c_d.txt".to_string()), Some("x".to_string()), None),
        Ok("a b-c_d.txt".to_string())
    );
    assert_eq!(import_destination(None, None, None), Ok("imported_file".to_string()));
    assert_eq!(
        import_destination(Some("???".to_string()), None, None),
        Err("Invalid destination filename".to_string())
    );
    assert_eq!(
        import_destination(Some("é.txt".to_string()), None, Some("/".to_string())),
        Ok("é.txt".to_string())
    );
}

#[test]
fn test_drive_event_dto() {
    let me = NodeId([3; 32]);
    let e = DriveEvent::UserJoined { user: me, timestamp: 0 };
    let d = DriveEventDto::from_event_at("d1", &e, "{}".to_string(), 5);
    assert_eq!(d.event_type, "UserJoined");
    assert_eq!(d.timestamp, "1970-01-01T00:00:00+00:00");
    let p = DriveEvent::SyncComplete { path: "a".to_string(), hash: "h".to_string() };
    let d = DriveEventDto::from_event_at("d1", &p, "{}".to_string(), 1_000);
    assert_eq!(d.timestamp, "1970-01-01T00:00:01+00:00");
    assert_eq!(d.payload, "{}");
}

#[test]
fn test_event_dto_creation() {
    let node_id = Identity::generate().node_id();
    let event = DriveEvent::UserJoined { user: node_id, timestamp: 1_700_000_000_000 };

    let dto = DriveEventDto::from_event("drive123", &event, "{}".to_string());

    assert_eq!(dto.drive_id, "drive123");
    assert_eq!(dto.event_type, "UserJoined");
}
