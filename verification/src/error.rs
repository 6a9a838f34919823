//! Application-level errors with stable codes for the front end.
use vstd::prelude::*;
use crate::text::decimal;

verus! {

/// Application-level errors for front-end commands.
#[derive(Debug)]
pub enum AppError {
    ValidationError(String),
    DriveNotFound { drive_id: String },
    DriveAlreadyExists { name: String },
    InvalidDriveId { id: String },
    PathNotFound { path: String },
    NotADirectory { path: String },
    NotAFile { path: String },
    PathTraversal { path: String },
    PathOutsideDrive { path: String },
    InvalidPath { path: String, reason: String },
    IdentityNotInitialized,
    IdentityLoadFailed(String),
    InsufficientPermission { required: String, operation: String },
    CannotRevokeOwner,
    AccessDenied { reason: String },
    SyncNotInitialized,
    WatcherNotInitialized,
    TransferNotInitialized,
    BroadcasterNotInitialized,
    SyncFailed(String),
    FileLocked { path: String, holder: String },
    LockNotFound { path: String },
    LockExpired { path: String },
    TransferFailed(String),
    InvalidHash(String),
    TransferNotFound { id: String },
    InvalidTokenFormat,
    TokenExpired,
    InvalidSignature,
    TokenAlreadyUsed,
    ValidationFailed { field: String, reason: String },
    NameTooLong { max: usize },
    NameEmpty,
    NameInvalidChars,
    DatabaseError(String),
    SerializationError(String),
    Internal(String),
    RateLimited { retry_after_secs: u64 },
}

impl AppError {
    /// The error code that the front end receives for this error.
    pub open spec fn spec_code(&self) -> Seq<char> {
        match self {
            AppError::ValidationError(_) => "VALIDATION_ERROR"@,
            AppError::DriveNotFound { .. } => "DRIVE_NOT_FOUND"@,
            AppError::DriveAlreadyExists { .. } => "DRIVE_EXISTS"@,
            AppError::InvalidDriveId { .. } => "INVALID_DRIVE_ID"@,
            AppError::PathNotFound { .. } => "PATH_NOT_FOUND"@,
            AppError::NotADirectory { .. } => "NOT_A_DIRECTORY"@,
            AppError::NotAFile { .. } => "NOT_A_FILE"@,
            AppError::PathTraversal { .. } => "PATH_TRAVERSAL"@,
            AppError::PathOutsideDrive { .. } => "PATH_OUTSIDE_DRIVE"@,
            AppError::InvalidPath { .. } => "INVALID_PATH"@,
            AppError::IdentityNotInitialized => "IDENTITY_NOT_INIT"@,
            AppError::IdentityLoadFailed(_) => "IDENTITY_LOAD_FAILED"@,
            AppError::InsufficientPermission { .. } => "PERMISSION_DENIED"@,
            AppError::CannotRevokeOwner => "CANNOT_REVOKE_OWNER"@,
            AppError::AccessDenied { .. } => "ACCESS_DENIED"@,
            AppError::SyncNotInitialized => "SYNC_NOT_INIT"@,
            AppError::WatcherNotInitialized => "WATCHER_NOT_INIT"@,
            AppError::TransferNotInitialized => "TRANSFER_NOT_INIT"@,
            AppError::BroadcasterNotInitialized => "BROADCASTER_NOT_INIT"@,
            AppError::SyncFailed(_) => "SYNC_FAILED"@,
            AppError::FileLocked { .. } => "FILE_LOCKED"@,
            AppError::LockNotFound { .. } => "LOCK_NOT_FOUND"@,
            AppError::LockExpired { .. } => "LOCK_EXPIRED"@,
            AppError::TransferFailed(_) => "TRANSFER_FAILED"@,
            AppError::InvalidHash(_) => "INVALID_HASH"@,
            AppError::TransferNotFound { .. } => "TRANSFER_NOT_FOUND"@,
            AppError::InvalidTokenFormat => "INVALID_TOKEN"@,
            AppError::TokenExpired => "TOKEN_EXPIRED"@,
            AppError::InvalidSignature => "INVALID_SIGNATURE"@,
            AppError::TokenAlreadyUsed => "TOKEN_USED"@,
            AppError::ValidationFailed { .. } => "VALIDATION_FAILED"@,
            AppError::NameTooLong { .. } => "NAME_TOO_LONG"@,
            AppError::NameEmpty => "NAME_EMPTY"@,
            AppError::NameInvalidChars => "NAME_INVALID_CHARS"@,
            AppError::DatabaseError(_) => "DATABASE_ERROR"@,
            AppError::SerializationError(_) => "SERIALIZATION_ERROR"@,
            AppError::Internal(_) => "INTERNAL_ERROR"@,
            AppError::RateLimited { .. } => "RATE_LIMITED"@,
        }
    }

    /// The position of this error's variant in the declaration, which tells
    /// the variants apart whatever they carry.
    pub open spec fn variant_index(&self) -> nat {
        match self {
            AppError::ValidationError(_) => 0,
            AppError::DriveNotFound { .. } => 1,
            AppError::DriveAlreadyExists { .. } => 2,
            AppError::InvalidDriveId { .. } => 3,
            AppError::PathNotFound { .. } => 4,
            AppError::NotADirectory { .. } => 5,
            AppError::NotAFile { .. } => 6,
            AppError::PathTraversal { .. } => 7,
            AppError::PathOutsideDrive { .. } => 8,
            AppError::InvalidPath { .. } => 9,
            AppError::IdentityNotInitialized => 10,
            AppError::IdentityLoadFailed(_) => 11,
            AppError::InsufficientPermission { .. } => 12,
            AppError::CannotRevokeOwner => 13,
            AppError::AccessDenied { .. } => 14,
            AppError::SyncNotInitialized => 15,
            AppError::WatcherNotInitialized => 16,
            AppError::TransferNotInitialized => 17,
            AppError::BroadcasterNotInitialized => 18,
            AppError::SyncFailed(_) => 19,
            AppError::FileLocked { .. } => 20,
            AppError::LockNotFound { .. } => 21,
            AppError::LockExpired { .. } => 22,
            AppError::TransferFailed(_) => 23,
            AppError::InvalidHash(_) => 24,
            AppError::TransferNotFound { .. } => 25,
            AppError::InvalidTokenFormat => 26,
            AppError::TokenExpired => 27,
            AppError::InvalidSignature => 28,
            AppError::TokenAlreadyUsed => 29,
            AppError::ValidationFailed { .. } => 30,
            AppError::NameTooLong { .. } => 31,
            AppError::NameEmpty => 32,
            AppError::NameInvalidChars => 33,
            AppError::DatabaseError(_) => 34,
            AppError::SerializationError(_) => 35,
            AppError::Internal(_) => 36,
            AppError::RateLimited { .. } => 37,
        }
    }

    /// Errors that a retry may cure.
    pub open spec fn spec_is_retryable(&self) -> bool {
        ||| self is SyncFailed
        ||| self is TransferFailed
        ||| self is RateLimited
        ||| self is DatabaseError
    }

    /// The human-readable message of this error.
    pub open spec fn spec_message(&self) -> Seq<char> {
        match self {
            AppError::ValidationError(m) => "Validation error: "@ + m@,
            AppError::DriveNotFound { drive_id } => "Drive not found: "@ + drive_id@,
            AppError::DriveAlreadyExists { name } => "Drive already exists: "@ + name@,
            AppError::InvalidDriveId { id } => "Invalid drive ID format: "@ + id@,
            AppError::PathNotFound { path } => "Path does not exist: "@ + path@,
            AppError::NotADirectory { path } => "Path is not a directory: "@ + path@,
            AppError::NotAFile { path } => "Path is not a file: "@ + path@,
            AppError::PathTraversal { path } => "Path traversal detected: "@ + path@,
            AppError::PathOutsideDrive { path } => "Path outside drive root: "@ + path@,
            AppError::InvalidPath { path, reason } => "Invalid path: "@ + path@ + " - "@
                + reason@,
            AppError::IdentityNotInitialized => "Identity not initialized"@,
            AppError::IdentityLoadFailed(m) => "Failed to load identity: "@ + m@,
            AppError::InsufficientPermission { required, operation } => "Insufficient permission: "@
                + required@ + " required for "@ + operation@,
            AppError::CannotRevokeOwner => "Cannot revoke owner's access"@,
            AppError::AccessDenied { reason } => "Access denied: "@ + reason@,
            AppError::SyncNotInitialized => "Sync engine not initialized"@,
            AppError::WatcherNotInitialized => "File watcher not initialized"@,
            AppError::TransferNotInitialized => "File transfer not initialized"@,
            AppError::BroadcasterNotInitialized => "Event broadcaster not initialized"@,
            AppError::SyncFailed(m) => "Sync failed: "@ + m@,
            AppError::FileLocked { holder, .. } => "File locked by another user: "@ + holder@,
            AppError::LockNotFound { path } => "Lock not found: "@ + path@,
            AppError::LockExpired { path } => "Lock expired: "@ + path@,
            AppError::TransferFailed(m) => "Transfer failed: "@ + m@,
            AppError::InvalidHash(m) => "Invalid hash: "@ + m@,
            AppError::TransferNotFound { id } => "Transfer not found: "@ + id@,
            AppError::InvalidTokenFormat => "Invalid token format"@,
            AppError::TokenExpired => "Token expired"@,
            AppError::InvalidSignature => "Invalid signature"@,
            AppError::TokenAlreadyUsed => "Token already used"@,
            AppError::ValidationFailed { field, reason } => "Validation failed: "@ + field@
                + " - "@ + reason@,
            AppError::NameTooLong { max } => "Name too long: max "@ + decimal(*max as nat)
                + " characters"@,
            AppError::NameEmpty => "Name cannot be empty"@,
            AppError::NameInvalidChars => "Name contains invalid characters"@,
            AppError::DatabaseError(m) => "Database error: "@ + m@,
            AppError::SerializationError(m) => "Serialization error: "@ + m@,
            AppError::Internal(m) => "Internal error: "@ + m@,
            AppError::RateLimited { retry_after_secs } => "Rate limited: try again in "@
                + decimal(*retry_after_secs as nat) + " seconds"@,
        }
    }

    /// Get an error code for front-end consumption.
    pub fn code(&self) -> (c: &'static str)
        ensures
            c@ == self.spec_code(),
    {
        match self {
            AppError::ValidationError(_) => "VALIDATION_ERROR",
            AppError::DriveNotFound { .. } => "DRIVE_NOT_FOUND",
            AppError::DriveAlreadyExists { .. } => "DRIVE_EXISTS",
            AppError::InvalidDriveId { .. } => "INVALID_DRIVE_ID",
            AppError::PathNotFound { .. } => "PATH_NOT_FOUND",
            AppError::NotADirectory { .. } => "NOT_A_DIRECTORY",
            AppError::NotAFile { .. } => "NOT_A_FILE",
            AppError::PathTraversal { .. } => "PATH_TRAVERSAL",
            AppError::PathOutsideDrive { .. } => "PATH_OUTSIDE_DRIVE",
            AppError::InvalidPath { .. } => "INVALID_PATH",
            AppError::IdentityNotInitialized => "IDENTITY_NOT_INIT",
            AppError::IdentityLoadFailed(_) => "IDENTITY_LOAD_FAILED",
            AppError::InsufficientPermission { .. } => "PERMISSION_DENIED",
            AppError::CannotRevokeOwner => "CANNOT_REVOKE_OWNER",
            AppError::AccessDenied { .. } => "ACCESS_DENIED",
            AppError::SyncNotInitialized => "SYNC_NOT_INIT",
            AppError::WatcherNotInitialized => "WATCHER_NOT_INIT",
            AppError::TransferNotInitialized => "TRANSFER_NOT_INIT",
            AppError::BroadcasterNotInitialized => "BROADCASTER_NOT_INIT",
            AppError::SyncFailed(_) => "SYNC_FAILED",
            AppError::FileLocked { .. } => "FILE_LOCKED",
            AppError::LockNotFound { .. } => "LOCK_NOT_FOUND",
            AppError::LockExpired { .. } => "LOCK_EXPIRED",
            AppError::TransferFailed(_) => "TRANSFER_FAILED",
            AppError::InvalidHash(_) => "INVALID_HASH",
            AppError::TransferNotFound { .. } => "TRANSFER_NOT_FOUND",
            AppError::InvalidTokenFormat => "INVALID_TOKEN",
            AppError::TokenExpired => "TOKEN_EXPIRED",
            AppError::InvalidSignature => "INVALID_SIGNATURE",
            AppError::TokenAlreadyUsed => "TOKEN_USED",
            AppError::ValidationFailed { .. } => "VALIDATION_FAILED",
            AppError::NameTooLong { .. } => "NAME_TOO_LONG",
            AppError::NameEmpty => "NAME_EMPTY",
            AppError::NameInvalidChars => "NAME_INVALID_CHARS",
            AppError::DatabaseError(_) => "DATABASE_ERROR",
            AppError::SerializationError(_) => "SERIALIZATION_ERROR",
            AppError::Internal(_) => "INTERNAL_ERROR",
            AppError::RateLimited { .. } => "RATE_LIMITED",
        }
    }

    /// Check if this error is recoverable by retry.
    pub fn is_retryable(&self) -> (r: bool)
        ensures
            r == self.spec_is_retryable(),
    {
        match self {
            AppError::SyncFailed(_) | AppError::TransferFailed(_) | AppError::RateLimited { .. }
            | AppError::DatabaseError(_) => true,
            _ => false,
        }
    }

    /// The human-readable message of this error (its display text).
    pub fn message(&self) -> (m: String)
        ensures
            m@ == self.spec_message(),
    {
        match self {
            AppError::ValidationError(m) => cat2("Validation error: ", m),
            AppError::DriveNotFound { drive_id } => cat2("Drive not found: ", drive_id),
            AppError::DriveAlreadyExists { name } => cat2("Drive already exists: ", name),
            AppError::InvalidDriveId { id } => cat2("Invalid drive ID format: ", id),
            AppError::PathNotFound { path } => cat2("Path does not exist: ", path),
            AppError::NotADirectory { path } => cat2("Path is not a directory: ", path),
            AppError::NotAFile { path } => cat2("Path is not a file: ", path),
            AppError::PathTraversal { path } => cat2("Path traversal detected: ", path),
            AppError::PathOutsideDrive { path } => cat2("Path outside drive root: ", path),
            AppError::InvalidPath { path, reason } => {
                let mut s = cat2("Invalid path: ", path);
                s.append(" - ");
                s.append(reason.as_str());
                s
            },
            AppError::IdentityNotInitialized => String::from_str("Identity not initialized"),
            AppError::IdentityLoadFailed(m) => cat2("Failed to load identity: ", m),
            AppError::InsufficientPermission { required, operation } => {
                let mut s = cat2("Insufficient permission: ", required);
                s.append(" required for ");
                s.append(operation.as_str());
                s
            },
            AppError::CannotRevokeOwner => String::from_str("Cannot revoke owner's access"),
            AppError::AccessDenied { reason } => cat2("Access denied: ", reason),
            AppError::SyncNotInitialized => String::from_str("Sync engine not initialized"),
            AppError::WatcherNotInitialized => String::from_str("File watcher not initialized"),
            AppError::TransferNotInitialized => String::from_str("File transfer not initialized"),
            AppError::BroadcasterNotInitialized => String::from_str(
                "Event broadcaster not initialized",
            ),
            AppError::SyncFailed(m) => cat2("Sync failed: ", m),
            AppError::FileLocked { holder, .. } => cat2("File locked by another user: ", holder),
            AppError::LockNotFound { path } => cat2("Lock not found: ", path),
            AppError::LockExpired { path } => cat2("Lock expired: ", path),
            AppError::TransferFailed(m) => cat2("Transfer failed: ", m),
            AppError::InvalidHash(m) => cat2("Invalid hash: ", m),
            AppError::TransferNotFound { id } => cat2("Transfer not found: ", id),
            AppError::InvalidTokenFormat => String::from_str("Invalid token format"),
            AppError::TokenExpired => String::from_str("Token expired"),
            AppError::InvalidSignature => String::from_str("Invalid signature"),
            AppError::TokenAlreadyUsed => String::from_str("Token already used"),
            AppError::ValidationFailed { field, reason } => {
                let mut s = cat2("Validation failed: ", field);
                s.append(" - ");
                s.append(reason.as_str());
                s
            },
            AppError::NameTooLong { max } => {
                let mut s = String::from_str("Name too long: max ");
                let d = crate::text::decimal_string(*max as u64);
                s.append(d.as_str());
                s.append(" characters");
                s
            },
            AppError::NameEmpty => String::from_str("Name cannot be empty"),
            AppError::NameInvalidChars => String::from_str("Name contains invalid characters"),
            AppError::DatabaseError(m) => cat2("Database error: ", m),
            AppError::SerializationError(m) => cat2("Serialization error: ", m),
            AppError::Internal(m) => cat2("Internal error: ", m),
            AppError::RateLimited { retry_after_secs } => {
                let mut s = String::from_str("Rate limited: try again in ");
                let d = crate::text::decimal_string(*retry_after_secs);
                s.append(d.as_str());
                s.append(" seconds");
                s
            },
        }
    }

    /// The text that a front-end command returns for this error: `[CODE] message`.
    pub fn to_command_error(&self) -> (s: String)
        ensures
            s@ == "["@ + self.spec_code() + "] "@ + self.spec_message(),
    {
        let mut s = String::from_str("[");
        s.append(self.code());
        s.append("] ");
        let m = self.message();
        s.append(m.as_str());
        s
    }
}

/// `prefix` followed by `rest`.
fn cat2(prefix: &str, rest: &String) -> (s: String)
    ensures
        s@ == prefix@ + rest@,
{
    let mut s = String::from_str(prefix);
    s.append(rest.as_str());
    s
}

/// Serializable error response for the front end.
#[derive(Debug)]
pub struct ErrorResponse {
    pub code: String,
    pub message: String,
    pub retryable: bool,
}

impl ErrorResponse {
    /// The response that describes `error`.
    pub fn from_error(error: &AppError) -> (r: ErrorResponse)
        ensures
            r.code@ == error.spec_code(),
            r.message@ == error.spec_message(),
            r.retryable == error.spec_is_retryable(),
    {
        ErrorResponse {
            code: String::from_str(error.code()),
            message: error.message(),
            retryable: error.is_retryable(),
        }
    }
}

/// The length of an error code and four of its letters, which are enough to
/// tell the codes apart.
spec fn code_key(s: Seq<char>) -> (nat, char, char, char, char) {
    (s.len(), s[0], s[1], s[5], s[8])
}

/// A non-empty word of upper-case ASCII letters and underscores.
pub open spec fn is_code_word(s: Seq<char>) -> bool {
    &&& s.len() > 0
    &&& forall|i: int| 0 <= i < s.len() ==> ('A' <= #[trigger] s[i] <= 'Z' || s[i] == '_')
}

/// Two errors have the same code exactly when they are of the same variant,
/// whatever they carry; every code is a word of upper-case letters and
/// underscores.
pub proof fn law_error_codes_distinct(a: &AppError, b: &AppError)
    ensures
        a.spec_code() == b.spec_code() <==> a.variant_index() == b.variant_index(),
        is_code_word(a.spec_code()),
{
    reveal_strlit("VALIDATION_ERROR");
    reveal_strlit("DRIVE_NOT_FOUND");
    reveal_strlit("DRIVE_EXISTS");
    reveal_strlit("INVALID_DRIVE_ID");
    reveal_strlit("PATH_NOT_FOUND");
    reveal_strlit("NOT_A_DIRECTORY");
    reveal_strlit("NOT_A_FILE");
    reveal_strlit("PATH_TRAVERSAL");
    reveal_strlit("PATH_OUTSIDE_DRIVE");
    reveal_strlit("INVALID_PATH");
    reveal_strlit("IDENTITY_NOT_INIT");
    reveal_strlit("IDENTITY_LOAD_FAILED");
    reveal_strlit("PERMISSION_DENIED");
    reveal_strlit("CANNOT_REVOKE_OWNER");
    reveal_strlit("ACCESS_DENIED");
    reveal_strlit("SYNC_NOT_INIT");
    reveal_strlit("WATCHER_NOT_INIT");
    reveal_strlit("TRANSFER_NOT_INIT");
    reveal_strlit("BROADCASTER_NOT_INIT");
    reveal_strlit("SYNC_FAILED");
    reveal_strlit("FILE_LOCKED");
    reveal_strlit("LOCK_NOT_FOUND");
    reveal_strlit("LOCK_EXPIRED");
    reveal_strlit("TRANSFER_FAILED");
    reveal_strlit("INVALID_HASH");
    reveal_strlit("TRANSFER_NOT_FOUND");
    reveal_strlit("INVALID_TOKEN");
    reveal_strlit("TOKEN_EXPIRED");
    reveal_strlit("INVALID_SIGNATURE");
    reveal_strlit("TOKEN_USED");
    reveal_strlit("VALIDATION_FAILED");
    reveal_strlit("NAME_TOO_LONG");
    reveal_strlit("NAME_EMPTY");
    reveal_strlit("NAME_INVALID_CHARS");
    reveal_strlit("DATABASE_ERROR");
    reveal_strlit("SERIALIZATION_ERROR");
    reveal_strlit("INTERNAL_ERROR");
    reveal_strlit("RATE_LIMITED");
    assert(code_key(a.spec_code()) == code_key(b.spec_code()) ==> a.variant_index()
        == b.variant_index());
}

} // verus!
