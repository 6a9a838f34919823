use gix_drive::conflict::{
    conflicts, is_text_file_path, parse_strategy, ConflictManager, ConflictVersion, FileConflict,
    ResolutionStrategy,
};
use gix_drive::keys::{Identity, NodeId};
use gix_drive::locking::{
    check_lock_duration, parse_lock_type, DriveLockManager, FileLock, LockManager, LockResult,
    LockType,
};
use gix_drive::presence::{
    activity_limit, ActivityEntry, ActivityType, DrivePresenceManager, PresenceManager,
    PresenceStatus,
};
use gix_drive::rate_limit::{RateLimitConfig, RateLimitOperation, RateLimitResult, RateLimiter};

fn node(seed: u8) -> NodeId {
    NodeId([seed; 32])
}

fn version(hash: &str, by: NodeId) -> ConflictVersion {
    ConflictVersion {
        hash: hash.to_string(),
        size: 100,
        modified_at: 1_000,
        modified_by: by,
        preview: None,
    }
}

#[test]
fn test_lock_acquire_release() {
    let node_id = Identity::generate().node_id();
    let mut manager = DriveLockManager::new();
    let path = "test/file.txt";

    let result = manager.acquire_at(path.to_string(), node_id, LockType::Advisory, 1_000);
    assert!(matches!(result, LockResult::Acquired(_)));

    let released = manager.release(path, &node_id);
    assert!(released.is_some());

    assert!(manager.get_lock_at(path, 1_000).is_none());
}

#[test]
fn test_exclusive_lock_blocks() {
    let node1 = node(1);
    let node2 = node(2);
    let mut manager = DriveLockManager::new();
    let path = "test/file.txt";

    let result = manager.acquire_at(path.to_string(), node1, LockType::Exclusive, 1_000);
    assert!(matches!(result, LockResult::Acquired(_)));

    let result = manager.acquire_at(path.to_string(), node2, LockType::Advisory, 1_000);
    assert!(matches!(result, LockResult::Denied { .. }));
}

#[test]
fn test_lock_expiration() {
    let node_id = node(3);
    let mut manager = DriveLockManager::new();
    let path = "test/file.txt";
    let lock = FileLock::new_at(path.to_string(), node_id, LockType::Advisory, 1_000)
        .with_expiration(1_000 - 5 * 60_000);
    manager.apply_remote_lock_at(lock, 0);
    assert!(manager.get_lock_at(path, 1_000).is_none());
}

#[test]
fn test_advisory_next_to_advisory_warns_and_own_lock_replaces() {
    let mut manager = DriveLockManager::new();
    let path = "a.txt";
    assert!(matches!(
        manager.acquire_at(path.to_string(), node(1), LockType::Advisory, 0),
        LockResult::Acquired(_)
    ));
    assert!(matches!(
        manager.acquire_at(path.to_string(), node(2), LockType::Advisory, 0),
        LockResult::AcquiredWithWarning { .. }
    ));
    assert!(matches!(
        manager.acquire_at(path.to_string(), node(2), LockType::Exclusive, 0),
        LockResult::Denied { .. }
    ));
    assert!(matches!(
        manager.acquire_at(path.to_string(), node(1), LockType::Exclusive, 0),
        LockResult::Acquired(_)
    ));
    let l = manager.get_lock_at(path, 0).unwrap();
    assert_eq!(l.lock_type, LockType::Exclusive);
    assert_eq!(l.expires_at, 1_800_000);
}

#[test]
fn test_release_by_other_node_keeps_lock() {
    let mut manager = DriveLockManager::new();
    manager.acquire_at("a".to_string(), node(1), LockType::Exclusive, 0);
    assert!(manager.release("a", &node(2)).is_none());
    assert!(manager.get_lock_at("a", 0).is_some());
    assert!(manager.force_release("a").is_some());
    assert!(manager.get_lock_at("a", 0).is_none());
}

#[test]
fn test_lock_manager_per_drive_and_cleanup() {
    let mut m = LockManager::new(node(9));
    m.acquire_lock_at("d1", "x".to_string(), LockType::Exclusive, 0);
    m.acquire_lock_at("d2", "x".to_string(), LockType::Exclusive, 0);
    assert_eq!(m.list_locks_at("d1", 0).len(), 1);
    assert!(m.get_lock_at("d3", "x", 0).is_none());
    assert_eq!(m.cleanup_expired_at(2_000_000), 2);
    assert!(m.list_locks_at("d1", 0).is_empty());
}

#[test]
fn test_lock_duration_and_type() {
    assert!(check_lock_duration(0).is_err());
    assert!(check_lock_duration(1).is_ok());
    assert!(check_lock_duration(1440).is_ok());
    assert!(check_lock_duration(1441).is_err());
    assert_eq!(parse_lock_type("exclusive"), LockType::Exclusive);
    assert_eq!(parse_lock_type("anything"), LockType::Advisory);
}

#[test]
fn test_conflict_detection() {
    let local = version("local123", node(1));
    let remote = version("remote456", node(2));

    let conflict = FileConflict::new(
        "test/file.txt".to_string(),
        local,
        remote,
        Some("base789".to_string()),
    );

    assert!(!conflict.resolved);
    assert!(conflict.is_text_file());
}

#[test]
fn test_conflict_manager() {
    let mut manager = ConflictManager::new();

    let conflict = manager.detect_conflict_at(
        "drive123",
        "test/file.txt".to_string(),
        version("local123", node(1)),
        version("remote456", node(2)),
        Some("base789".to_string()),
        1_000,
    );
    assert!(conflict.is_some());

    let conflicts = manager.list_conflicts("drive123");
    assert_eq!(conflicts.len(), 1);

    let resolved =
        manager.resolve_conflict("drive123", "test/file.txt", ResolutionStrategy::KeepLocal);
    assert!(resolved.is_some());
    assert!(resolved.unwrap().resolved);

    let conflicts = manager.list_conflicts("drive123");
    assert_eq!(conflicts.len(), 0);
}

#[test]
fn test_no_conflict_cases() {
    assert!(!conflicts("a", "a", &None));
    assert!(!conflicts("a", "b", &Some("a".to_string())));
    assert!(!conflicts("a", "b", &Some("b".to_string())));
    assert!(conflicts("a", "b", &Some("c".to_string())));
    assert!(conflicts("a", "b", &None));
    let mut manager = ConflictManager::new();
    let r = manager.detect_conflict_at(
        "d",
        "p".to_string(),
        version("h", node(1)),
        version("h", node(2)),
        None,
        0,
    );
    assert!(r.is_none());
    assert_eq!(manager.drive_conflict_count("d"), 0);
}

#[test]
fn test_conflict_text_files_and_strategies() {
    assert!(is_text_file_path("notes/README.MD"));
    assert!(!is_text_file_path("photo.jpg"));
    assert!(!is_text_file_path("Makefile"));
    assert_eq!(parse_strategy("keep_both").unwrap(), ResolutionStrategy::KeepBoth);
    assert!(parse_strategy("whatever").is_err());
}

#[test]
fn test_cleanup_old_resolved_conflicts() {
    let mut manager = ConflictManager::new();
    manager.detect_conflict_at("d", "p".to_string(), version("a", node(1)), version("b", node(2)), None, 10);
    manager.resolve_conflict("d", "p", ResolutionStrategy::KeepRemote);
    assert_eq!(manager.cleanup_old_resolved(5), 0);
    assert_eq!(manager.cleanup_old_resolved(11), 1);
}

#[test]
fn test_user_presence() {
    let node_id = node(4);
    let mut manager = DrivePresenceManager::new();
    manager.user_joined_at(node_id, 1_000, "act_1".to_string());

    let users = manager.online_users();
    assert_eq!(users.len(), 1);
    assert_eq!(users[0].node_id, node_id);
    assert_eq!(users[0].status, PresenceStatus::Online);
}

#[test]
fn test_activity_feed() {
    let node_id = node(5);
    let mut manager = DrivePresenceManager::new();

    manager.add_activity(
        ActivityEntry::new(ActivityType::FileCreated, node_id).with_path("test.txt".to_string()),
    );

    let activities = manager.recent_activities(10);
    assert_eq!(activities.len(), 1);
    assert!(matches!(activities[0].activity_type, ActivityType::FileCreated));
}

#[test]
fn test_presence_leave_idle_and_feed_order() {
    let mut manager = DrivePresenceManager::new();
    manager.user_joined_at(node(1), 0, "a1".to_string());
    manager.user_joined_at(node(2), 0, "a2".to_string());
    manager.user_heartbeat_at(&node(2), 400_000);
    manager.check_idle_users_at(400_001);
    let users = manager.online_users();
    assert_eq!(users.len(), 2);
    for u in &users {
        if u.node_id == node(1) {
            assert_eq!(u.status, PresenceStatus::Away);
        } else {
            assert_eq!(u.status, PresenceStatus::Online);
        }
    }
    manager.user_left_at(node(2), 500_000, "a3".to_string());
    assert_eq!(manager.online_count(), 1);
    let feed = manager.recent_activities(2);
    assert_eq!(feed.len(), 2);
    assert_eq!(feed[0].id, "a3");
    assert!(matches!(feed[0].activity_type, ActivityType::UserLeft));
    assert_eq!(feed[1].id, "a2");
}

#[test]
fn test_presence_manager_join_and_cleanup() {
    let mut m = PresenceManager::new(node(7));
    m.join_drive_at("d", 1_000, "j".to_string());
    assert_eq!(m.online_count("d"), 1);
    assert_eq!(m.get_recent_activity("d", 10).len(), 1);
    assert_eq!(m.cleanup_old_activities(2_000), 1);
    assert_eq!(m.get_recent_activity("d", 10).len(), 0);
    m.leave_drive_at("d", 3_000, "l".to_string());
    assert_eq!(m.online_count("d"), 0);
    assert_eq!(activity_limit(None), 50);
    assert_eq!(activity_limit(Some(10_000)), 500);
}

#[test]
fn test_rate_limit_allowed() {
    let mut limiter = RateLimiter::new();
    let identity = [0u8; 32];
    let result = limiter.check_at(&identity, &RateLimitOperation::GeneralApi, 0);
    assert!(result.is_allowed());
}

#[test]
fn test_rate_limit_denied_after_exhaustion() {
    let mut limiter = RateLimiter::new();
    let identity = [1u8; 32];
    limiter.set_config(
        RateLimitOperation::Custom("test".to_string()),
        RateLimitConfig::new(2, 0),
    );
    let op = RateLimitOperation::Custom("test".to_string());

    assert!(limiter.check_at(&identity, &op, 0).is_allowed());
    assert!(limiter.check_at(&identity, &op, 0).is_allowed());

    let result = limiter.check_at(&identity, &op, 0);
    assert!(!result.is_allowed());
    assert_eq!(result, RateLimitResult::Denied { retry_after_ms: 3_600_000 });
}

#[test]
fn test_rate_limit_disabled() {
    let mut limiter = RateLimiter::disabled();
    let identity = [2u8; 32];
    for _ in 0..1000 {
        assert!(limiter
            .check_at(&identity, &RateLimitOperation::InviteGeneration, 0)
            .is_allowed());
    }
}

#[test]
fn test_per_identity_isolation() {
    let mut limiter = RateLimiter::new();
    let identity1 = [3u8; 32];
    let identity2 = [4u8; 32];
    limiter.set_config(
        RateLimitOperation::Custom("isolated".to_string()),
        RateLimitConfig::new(1, 0),
    );
    let op = RateLimitOperation::Custom("isolated".to_string());

    assert!(limiter.check_at(&identity1, &op, 0).is_allowed());
    assert!(limiter.check_at(&identity2, &op, 0).is_allowed());
    assert!(!limiter.check_at(&identity1, &op, 0).is_allowed());
    assert!(!limiter.check_at(&identity2, &op, 0).is_allowed());
}

#[test]
fn test_token_refill() {
    let mut limiter = RateLimiter::new();
    let identity = [5u8; 32];
    limiter.set_config(
        RateLimitOperation::Custom("refill".to_string()),
        RateLimitConfig::new(1, 60_000_000),
    );
    let op = RateLimitOperation::Custom("refill".to_string());

    assert!(limiter.check_at(&identity, &op, 0).is_allowed());
    assert!(!limiter.check_at(&identity, &op, 0).is_allowed());
    assert!(limiter.check_at(&identity, &op, 10).is_allowed());
}

#[test]
fn test_rate_limit_retry_after_secs() {
    assert_eq!(RateLimitResult::Allowed { remaining: 3 }.retry_after_secs(), 0);
    assert_eq!(RateLimitResult::Denied { retry_after_ms: 1_500 }.retry_after_secs(), 1);
}

#[test]
fn test_wall_clock_lock_operations() {
    let mut manager = DriveLockManager::new();
    assert!(matches!(
        manager.acquire("w.txt".to_string(), node(1), LockType::Exclusive),
        LockResult::Acquired(_)
    ));
    assert!(manager.get_lock("w.txt").is_some());
    assert_eq!(manager.list_locks().len(), 1);
    let extended = manager.extend_lock("w.txt", &node(1), 60).unwrap();
    assert!(extended.expires_at > extended.acquired_at + 30 * 60_000);
    assert!(manager.extend_lock("w.txt", &node(2), 60).is_none());
    assert_eq!(manager.cleanup_expired(), 0);

    let mut m = LockManager::new(node(1));
    m.acquire_lock("d", "a".to_string(), LockType::Advisory);
    assert!(m.get_lock("d", "a").is_some());
    assert_eq!(m.list_locks("d").len(), 1);
    assert!(m.extend_lock("d", "a", 5).is_some());
    let stale = FileLock::new_at("old".to_string(), node(2), LockType::Advisory, 0);
    m.apply_remote_lock("d", stale);
    assert!(m.get_lock("d", "old").is_none());
    assert_eq!(m.cleanup_expired(), 0);
}

#[test]
fn test_file_lock_extend() {
    let mut lock = FileLock::new_at("p".to_string(), node(1), LockType::Advisory, 0);
    lock.extend(1_000);
    assert!(lock.expires_at > 1_000);
    assert_eq!(lock.acquired_at, 0);
}

#[test]
fn test_conflict_detect_now() {
    let mut manager = ConflictManager::new();
    let c = manager
        .detect_conflict("d", "x.md".to_string(), version("a", node(1)), version("b", node(2)), None)
        .unwrap();
    assert!(c.detected_at > 0);
    assert_eq!(manager.get_conflict("d", "x.md").unwrap().id, c.id);
    assert_eq!(manager.drive_conflict_count("other"), 0);
}

#[test]
fn test_activities_for_path_and_user() {
    let mut manager = DrivePresenceManager::new();
    for (i, p) in ["a/b.txt", "c.txt", "a//b.txt", "a/b.txt"].iter().enumerate() {
        let e = ActivityEntry::new_at(ActivityType::FileModified, node((i % 2) as u8), format!("e{}", i), i as i64)
            .with_path(p.to_string());
        manager.add_activity(e);
    }
    let hits = manager.activities_for_path("a/b.txt", 10);
    let ids: Vec<&str> = hits.iter().map(|e| e.id.as_str()).collect();
    assert_eq!(ids, vec!["e3", "e2", "e0"]);
    assert_eq!(manager.activities_for_path("a/b.txt", 1).len(), 1);
    assert!(manager.activities_for_path("/a/b.txt", 10).is_empty());
    let mine = manager.activities_for_user(&node(1), 10);
    let ids: Vec<&str> = mine.iter().map(|e| e.id.as_str()).collect();
    assert_eq!(ids, vec!["e3", "e1"]);
}

#[test]
fn test_rate_limit_remaining_and_check_now() {
    let mut limiter = RateLimiter::new();
    let id = [9u8; 32];
    limiter.set_config(RateLimitOperation::FileUpload, RateLimitConfig::new(3, 0));
    assert_eq!(limiter.remaining_at(&id, &RateLimitOperation::FileUpload, 0), 3);
    assert!(limiter.check_consume_at(&id, &RateLimitOperation::FileUpload, 2, 0).is_allowed());
    assert_eq!(limiter.remaining_at(&id, &RateLimitOperation::FileUpload, 0), 1);
    assert!(!limiter.check_consume(&id, &RateLimitOperation::FileUpload, 2).is_allowed());
    assert!(limiter.check(&id, &RateLimitOperation::FileUpload).is_allowed());
    assert_eq!(limiter.remaining(&id, &RateLimitOperation::FileUpload), 0);
    assert_eq!(RateLimiter::disabled().remaining(&id, &RateLimitOperation::FileUpload), u32::MAX);
}

#[test]
fn test_rate_limit_cleanup_stale() {
    let mut limiter = RateLimiter::new();
    limiter.set_config(RateLimitOperation::GeneralApi, RateLimitConfig::new(1, 0));
    let op = RateLimitOperation::GeneralApi;
    assert!(limiter.check_at(&[1u8; 32], &op, 0).is_allowed());
    limiter.cleanup_stale(0);
    // few identities: buckets are kept, so the spent token stays spent
    assert!(!limiter.check_at(&[1u8; 32], &op, 0).is_allowed());
    for i in 0..10_001u32 {
        let mut id = [0u8; 32];
        id[..4].copy_from_slice(&i.to_le_bytes());
        id[31] = 7;
        limiter.check_at(&id, &op, 0);
    }
    limiter.cleanup_stale(0);
    // too many identities: every bucket is forgotten
    assert!(limiter.check_at(&[1u8; 32], &op, 0).is_allowed());
}
