use gix_drive::cleanup::{CleanupConfig, CleanupStats};
use gix_drive::error::AppError;
use gix_drive::validation::{is_safe_filename, validate_name, validate_path};
use gix_drive::watcher::should_ignore;
use std::path::Path;

#[test]
fn test_default_config() {
    let config = CleanupConfig::default();
    assert_eq!(config.interval_secs, 300);
    assert_eq!(config.max_activity_age_hours, 168);
}

#[test]
fn test_cleanup_stats() {
    let stats = CleanupStats {
        locks: 5,
        activities: 10,
        presence: 2,
        conflicts: 1,
        acl_rules: 3,
    };
    assert_eq!(stats.total(), 21);
}

#[test]
fn test_validate_path_normal() {
    let base = "/home/user/drive";
    let result = validate_path(base, "documents/file.txt");
    assert!(result.is_ok());
}

#[test]
fn test_validate_path_traversal() {
    let base = "/home/user/drive";

    let attacks = vec![
        "../etc/passwd",
        "..\\windows\\system32",
        "documents/../../../etc/passwd",
        "documents%2f..%2f..%2fetc/passwd",
        "...\\secret",
    ];

    for attack in attacks {
        let result = validate_path(base, attack);
        assert!(result.is_err(), "Should reject: {}", attack);
    }
}

#[test]
fn test_validate_path_absolute() {
    let base = "/home/user/drive";
    let result = validate_path(base, "/subdir/file.txt");
    assert!(result.is_ok());
    let path = result.unwrap();
    assert!(Path::new(&path).starts_with(Path::new(base)));
}

#[test]
fn test_validate_name_empty() {
    let result = validate_name("", "test");
    assert!(matches!(result, Err(AppError::NameEmpty)));
}

#[test]
fn test_validate_name_too_long() {
    let long_name = "a".repeat(300);
    let result = validate_name(&long_name, "test");
    assert!(matches!(result, Err(AppError::NameTooLong { .. })));
}

#[test]
fn test_validate_name_forbidden_chars() {
    let result = validate_name("file<name", "test");
    assert!(result.is_err());

    let result = validate_name("file|name", "test");
    assert!(result.is_err());
}

#[test]
fn test_validate_name_reserved() {
    let result = validate_name("CON", "test");
    assert!(result.is_err());

    let result = validate_name("COM1.txt", "test");
    assert!(result.is_err());
}

#[test]
fn test_validate_name_valid() {
    let result = validate_name("  My Drive Name  ", "test");
    assert!(result.is_ok());
    assert_eq!(result.unwrap(), "My Drive Name");
}

#[test]
fn test_is_safe_filename() {
    assert!(is_safe_filename("normal_file.txt"));
    assert!(!is_safe_filename("file<name.txt"));
    assert!(!is_safe_filename("CON"));
    assert!(!is_safe_filename("COM1.txt"));
    assert!(!is_safe_filename(""));
}

#[test]
fn test_should_ignore() {
    assert!(should_ignore("/project/.git/HEAD"));
    assert!(should_ignore("/project/node_modules/pkg"));
    assert!(should_ignore("/project/file.tmp"));
    assert!(should_ignore("/project/~$document.docx"));
    assert!(!should_ignore("/project/src/main.rs"));
    assert!(!should_ignore("/project/README.md"));
}

#[test]
fn test_ignore_patterns() {
    assert!(should_ignore("/.git"));
    assert!(should_ignore("/foo/.git/config"));
    assert!(should_ignore("/test.swp"));
    assert!(should_ignore("/doc.tmp"));
}
