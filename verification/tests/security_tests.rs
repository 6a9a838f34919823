//! Permission levels as the security tests model them, beside the library's
//! own permission type.

use gix_drive::access::Permission as DrivePermission;

/// Permission levels, with an explicit "no access" level.
#[derive(Clone, Copy, Debug, PartialEq, Eq, PartialOrd, Ord)]
enum Permission {
    NoAccess,
    Read,
    Write,
    Manage,
    Admin,
}

impl Permission {
    fn satisfies(&self, required: Permission) -> bool {
        *self >= required
    }

    fn display_name(&self) -> &'static str {
        match self {
            Permission::NoAccess => "None",
            Permission::Read => "Read",
            Permission::Write => "Write",
            Permission::Manage => "Manager",
            Permission::Admin => "Admin",
        }
    }
}

#[test]
fn security_tests_test_permission_ordering() {
    assert!(Permission::NoAccess < Permission::Read);
    assert!(Permission::Read < Permission::Write);
    assert!(Permission::Write < Permission::Manage);
    assert!(Permission::Manage < Permission::Admin);
}

#[test]
fn security_tests_test_permission_satisfies() {
    assert!(Permission::Admin.satisfies(Permission::Read));
    assert!(Permission::Admin.satisfies(Permission::Write));
    assert!(Permission::Admin.satisfies(Permission::Manage));
    assert!(Permission::Admin.satisfies(Permission::Admin));

    assert!(Permission::Write.satisfies(Permission::Read));
    assert!(Permission::Write.satisfies(Permission::Write));
    assert!(!Permission::Write.satisfies(Permission::Manage));
    assert!(!Permission::Write.satisfies(Permission::Admin));

    assert!(!Permission::Read.satisfies(Permission::Write));
    assert!(!Permission::NoAccess.satisfies(Permission::Read));
}

#[test]
fn test_permission_display_names() {
    assert_eq!(Permission::NoAccess.display_name(), "None");
    assert_eq!(Permission::Read.display_name(), "Read");
    assert_eq!(Permission::Write.display_name(), "Write");
    assert_eq!(Permission::Manage.display_name(), "Manager");
    assert_eq!(Permission::Admin.display_name(), "Admin");
}

#[test]
fn test_drive_permission_display_names_and_ranks() {
    assert_eq!(DrivePermission::Read.display_name(), "Read");
    assert_eq!(DrivePermission::Write.display_name(), "Read & Write");
    assert_eq!(DrivePermission::Manage.display_name(), "Manager");
    assert_eq!(DrivePermission::Admin.display_name(), "Admin");
    assert_eq!(DrivePermission::Read.rank(), 0);
    assert_eq!(DrivePermission::Admin.rank(), 3);
    assert!(DrivePermission::Write.satisfies(DrivePermission::Read));
    assert!(!DrivePermission::Write.satisfies(DrivePermission::Manage));
}
