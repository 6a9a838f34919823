use gix_drive::clock::{millis_of_reading, nanos_of_reading};
use gix_drive::drive::DriveId;
use gix_drive::error::AppError;
use gix_drive::hex::HexError;
use gix_drive::file_commands::file_content;
use gix_drive::invite::token_text;
use gix_drive::keys::NodeId;
use gix_drive::locking::{AcquireLockResult, FileLock, LockResult, LockType};
use gix_drive::rate_limit::{RateLimitConfig, RateLimitOperation, RateLimitResult, RateLimiter};
use gix_drive::security::rfc3339_or_empty;
use gix_drive::validation::normalize_path;

fn s(t: &str) -> String {
    t.to_string()
}

fn every_error() -> Vec<AppError> {
    vec![
        AppError::ValidationError(s("x")),
        AppError::DriveNotFound { drive_id: s("x") },
        AppError::DriveAlreadyExists { name: s("x") },
        AppError::InvalidDriveId { id: s("x") },
        AppError::PathNotFound { path: s("x") },
        AppError::NotADirectory { path: s("x") },
        AppError::NotAFile { path: s("x") },
        AppError::PathTraversal { path: s("x") },
        AppError::PathOutsideDrive { path: s("x") },
        AppError::InvalidPath { path: s("x"), reason: s("y") },
        AppError::IdentityNotInitialized,
        AppError::IdentityLoadFailed(s("x")),
        AppError::InsufficientPermission { required: s("x"), operation: s("y") },
        AppError::CannotRevokeOwner,
        AppError::AccessDenied { reason: s("x") },
        AppError::SyncNotInitialized,
        AppError::WatcherNotInitialized,
        AppError::TransferNotInitialized,
        AppError::BroadcasterNotInitialized,
        AppError::SyncFailed(s("x")),
        AppError::FileLocked { path: s("x"), holder: s("y") },
        AppError::LockNotFound { path: s("x") },
        AppError::LockExpired { path: s("x") },
        AppError::TransferFailed(s("x")),
        AppError::InvalidHash(s("x")),
        AppError::TransferNotFound { id: s("x") },
        AppError::InvalidTokenFormat,
        AppError::TokenExpired,
        AppError::InvalidSignature,
        AppError::TokenAlreadyUsed,
        AppError::ValidationFailed { field: s("x"), reason: s("y") },
        AppError::NameTooLong { max: 3 },
        AppError::NameEmpty,
        AppError::NameInvalidChars,
        AppError::DatabaseError(s("x")),
        AppError::SerializationError(s("x")),
        AppError::Internal(s("x")),
        AppError::RateLimited { retry_after_secs: 1 },
    ]
}

#[test]
fn test_error_codes_distinct_upper_words() {
    let errors = every_error();
    for (i, a) in errors.iter().enumerate() {
        let code = a.code();
        assert!(!code.is_empty());
        assert!(code.chars().all(|c| c.is_ascii_uppercase() || c == '_'));
        for (j, b) in errors.iter().enumerate() {
            assert_eq!(i == j, a.code() == b.code());
        }
    }
    assert_eq!(AppError::ValidationError(s("a")).code(), AppError::ValidationError(s("b")).code());
    assert_eq!(AppError::ValidationError(s("a")).code(), "VALIDATION_ERROR");
    assert_eq!(AppError::ValidationFailed { field: s("a"), reason: s("b") }.code(), "VALIDATION_FAILED");
}

#[test]
fn test_normalize_path_examples() {
    assert_eq!(normalize_path("/a/b/../c/./d"), "/a/c/d");
    assert_eq!(normalize_path("/../x"), "/x");
    assert_eq!(normalize_path("a/.."), "");
    assert_eq!(normalize_path("../a/./b//c/"), "a/b/c");
    assert_eq!(normalize_path("/"), "/");
}

#[test]
fn test_normalize_path_idempotent() {
    for p in ["/a/b/../c/./d", "/../x", "a/..", "../a/./b//c/", "/", "", "./..", "x/../../y/."] {
        let once = normalize_path(p);
        assert_eq!(normalize_path(&once), once);
        assert!(once.split('/').all(|piece| piece != "." && piece != ".."));
    }
}

#[test]
fn test_clock_reading_conversion() {
    assert_eq!(millis_of_reading(true, 1_500_000), 1);
    assert_eq!(millis_of_reading(false, 1_500_000), -2);
    assert_eq!(millis_of_reading(false, 1_000_000), -1);
    assert_eq!(millis_of_reading(false, 0), 0);
    assert_eq!(millis_of_reading(true, u128::MAX), 9_007_199_254_740_991);
    assert_eq!(millis_of_reading(false, u128::MAX), -9_007_199_254_740_991);
    assert_eq!(nanos_of_reading(true, 42), Some(42));
    assert_eq!(nanos_of_reading(false, 42), Some(-42));
    assert_eq!(nanos_of_reading(false, 9_223_372_036_854_775_808), Some(i64::MIN));
    assert_eq!(nanos_of_reading(true, 9_223_372_036_854_775_808), None);
}

#[test]
fn test_rate_limit_takes_one_token_per_check() {
    let mut limiter = RateLimiter::new();
    let identity = [7u8; 32];
    let op = RateLimitOperation::Custom("count".to_string());
    limiter.set_config(op.clone(), RateLimitConfig::new(3, 0));
    assert_eq!(limiter.check_at(&identity, &op, 0), RateLimitResult::Allowed { remaining: 2 });
    assert_eq!(limiter.check_at(&identity, &op, 0), RateLimitResult::Allowed { remaining: 1 });
    assert_eq!(limiter.check_at(&identity, &op, 0), RateLimitResult::Allowed { remaining: 0 });
    assert!(!limiter.check_at(&identity, &op, 0).is_allowed());
    let other = [8u8; 32];
    assert_eq!(limiter.check_at(&other, &op, 0), RateLimitResult::Allowed { remaining: 2 });
}

#[test]
fn test_acquire_lock_result_records_lock() {
    let me = NodeId([1u8; 32]);
    let other = NodeId([2u8; 32]);
    let lock = FileLock::new_at(s("docs/a.txt"), other, LockType::Exclusive, 0);
    let r = AcquireLockResult::from_result(
        LockResult::Denied { existing_lock: lock, reason: s("held") },
        &me,
    );
    assert!(!r.success);
    assert_eq!(r.error, Some(s("held")));
    assert_eq!(r.warning, None);
    let d = r.lock.expect("the refusing lock is reported");
    assert_eq!(d.path, "docs/a.txt");
    assert_eq!(d.holder, "02".repeat(32));
    assert_eq!(d.lock_type, "exclusive");
    assert_eq!(d.acquired_at, rfc3339_or_empty(0));
    assert_eq!(d.acquired_at, "1970-01-01T00:00:00+00:00");
    assert_eq!(d.expires_at, rfc3339_or_empty(1_800_000));
    assert_eq!(d.reason, None);
    assert!(!d.is_mine);

    let mine = FileLock::new_at(s("b"), me, LockType::Advisory, 5);
    let r = AcquireLockResult::from_result(
        LockResult::AcquiredWithWarning { lock: mine, warning: s("careful") },
        &me,
    );
    assert!(r.success);
    assert_eq!(r.warning, Some(s("careful")));
    let d = r.lock.expect("the acquired lock is reported");
    assert_eq!(d.lock_type, "advisory");
    assert!(d.is_mine);
}

#[test]
fn test_base64_text_forms() {
    assert_eq!(file_content(b"Ma", "x.txt").content, "TWE=");
    assert_eq!(file_content(b"M", "x.txt").content, "TQ==");
    assert_eq!(file_content(b"Man", "x.txt").content, "TWFu");
    assert_eq!(file_content(b"", "x.txt").content, "");
    assert_eq!(file_content(&[251, 255], "x.bin").content, "+/8=");
    assert_eq!(token_text(&[251, 255]), "-_8");
    assert_eq!(token_text(b"Man"), "TWFu");
}

#[test]
fn test_drive_id_hex_errors() {
    let e = DriveId::from_hex("zz").unwrap_err();
    assert_eq!(e, HexError::InvalidHexCharacter { c: 'z', index: 0 });
    assert_eq!(e.message(), "Invalid character 'z' at position 0");
    let e = DriveId::from_hex("0g").unwrap_err();
    assert_eq!(e, HexError::InvalidHexCharacter { c: 'g', index: 1 });
    assert_eq!(e.message(), "Invalid character 'g' at position 1");
    let e = DriveId::from_hex("0\n").unwrap_err();
    assert_eq!(e.message(), "Invalid character '\\n' at position 1");
    assert_eq!(DriveId::from_hex("abc").unwrap_err(), HexError::OddLength);
    assert_eq!(DriveId::from_hex("abc").unwrap_err().message(), "Odd number of digits");
    assert_eq!(DriveId::from_hex("ab").unwrap_err(), HexError::InvalidStringLength);
    let e = DriveId::from_hex("\u{e9}").unwrap_err();
    assert_eq!(e, HexError::InvalidHexCharacter { c: '\u{c3}', index: 0 });
    assert!(DriveId::from_hex(&"ab".repeat(32)).is_ok());
}

#[test]
fn test_rate_limit_fractional_refill() {
    let mut limiter = RateLimiter::new();
    let identity = [9u8; 32];
    let op = RateLimitOperation::Custom("slow".to_string());
    // 0.75 tokens a minute: a token every 80 seconds.
    limiter.set_config(op.clone(), RateLimitConfig::new(1, 750));
    assert_eq!(limiter.check_at(&identity, &op, 0), RateLimitResult::Allowed { remaining: 0 });
    assert_eq!(limiter.check_at(&identity, &op, 60_000), RateLimitResult::Denied { retry_after_ms: 20_000 });
    assert_eq!(limiter.check_at(&identity, &op, 79_999), RateLimitResult::Denied { retry_after_ms: 1 });
    assert_eq!(limiter.check_at(&identity, &op, 80_000), RateLimitResult::Allowed { remaining: 0 });
}
