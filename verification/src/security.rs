//! Invites and permissions as the frontend sees them: permission levels,
//! the records it is shown, and the checks an invite passes before it is
//! verified or accepted.
use vstd::prelude::*;
use crate::access::Permission;
use crate::error::AppError;
use crate::hex::{decode, hex_decode, hex_encode, is_hex};
use crate::invite::{signature_check, InviteBuilder, InviteError, InviteToken};
use crate::primitives::{
    char_is_alphanumeric, ed25519_key_valid, ed25519_public_key_valid, format_rfc3339, opt_chars,
    rfc3339_of_millis, unicode_alphanumeric,
};
use crate::text::{chars_eq, chars_of, string_from_chars};
use crate::bytes::to_array_32;

verus! {

/// Permission level as the frontend names it.
#[derive(Clone, Copy, Debug, PartialEq, Eq, Structural)]
pub enum PermissionLevel {
    Read,
    Write,
    Manage,
    Admin,
}

/// The permission of a level.
pub open spec fn permission_of(level: PermissionLevel) -> Permission {
    match level {
        PermissionLevel::Read => Permission::Read,
        PermissionLevel::Write => Permission::Write,
        PermissionLevel::Manage => Permission::Manage,
        PermissionLevel::Admin => Permission::Admin,
    }
}

/// The level of a permission.
pub open spec fn level_of(p: Permission) -> PermissionLevel {
    match p {
        Permission::Read => PermissionLevel::Read,
        Permission::Write => PermissionLevel::Write,
        Permission::Manage => PermissionLevel::Manage,
        Permission::Admin => PermissionLevel::Admin,
    }
}

impl From<PermissionLevel> for Permission {
    fn from(level: PermissionLevel) -> (p: Permission) {
        match level {
            PermissionLevel::Read => Permission::Read,
            PermissionLevel::Write => Permission::Write,
            PermissionLevel::Manage => Permission::Manage,
            PermissionLevel::Admin => Permission::Admin,
        }
    }
}

impl vstd::std_specs::convert::FromSpecImpl<PermissionLevel> for Permission {
    open spec fn obeys_from_spec() -> bool {
        true
    }

    open spec fn from_spec(level: PermissionLevel) -> Permission {
        permission_of(level)
    }
}

impl From<Permission> for PermissionLevel {
    fn from(p: Permission) -> (l: PermissionLevel) {
        match p {
            Permission::Read => PermissionLevel::Read,
            Permission::Write => PermissionLevel::Write,
            Permission::Manage => PermissionLevel::Manage,
            Permission::Admin => PermissionLevel::Admin,
        }
    }
}

impl vstd::std_specs::convert::FromSpecImpl<Permission> for PermissionLevel {
    open spec fn obeys_from_spec() -> bool {
        true
    }

    open spec fn from_spec(p: Permission) -> PermissionLevel {
        level_of(p)
    }
}

/// Converting a level to a permission and back gives the level; converting a
/// permission to a level and back gives the permission.
pub proof fn law_level_roundtrip(l: PermissionLevel, p: Permission)
    ensures
        level_of(permission_of(l)) == l,
        permission_of(level_of(p)) == p,
{
}

/// The permission of a level, as a function.
pub fn to_permission(level: PermissionLevel) -> (p: Permission)
    ensures
        p == permission_of(level),
{
    Permission::from(level)
}

/// The level of a permission, as a function.
pub fn to_level(p: Permission) -> (l: PermissionLevel)
    ensures
        l == level_of(p),
{
    PermissionLevel::from(p)
}

/// A user's permission as the frontend is shown it.
#[derive(Clone, Debug)]
pub struct UserPermission {
    pub node_id: String,
    pub permission: PermissionLevel,
    pub granted_by: String,
    pub granted_at: String,
    pub expires_at: Option<String>,
    pub is_owner: bool,
}

/// A request to create an invite.
#[derive(Clone, Debug)]
pub struct CreateInviteRequest {
    pub drive_id: String,
    pub permission: PermissionLevel,
    /// Validity in hours (default 24).
    pub validity_hours: Option<u32>,
    /// Optional message.
    pub note: Option<String>,
    /// Single-use token.
    pub single_use: Option<bool>,
}

/// A created invite, as the frontend is shown it.
#[derive(Clone, Debug)]
pub struct InviteInfo {
    pub token: String,
    pub drive_id: String,
    pub permission: PermissionLevel,
    pub expires_at: String,
    pub note: Option<String>,
    pub single_use: bool,
}

/// The outcome of verifying an invite.
#[derive(Clone, Debug)]
pub struct InviteVerification {
    pub valid: bool,
    pub drive_id: Option<String>,
    pub drive_name: Option<String>,
    pub permission: Option<PermissionLevel>,
    pub inviter: Option<String>,
    pub expires_at: Option<String>,
    pub error: Option<String>,
}

/// The outcome of accepting an invite.
#[derive(Clone, Debug)]
pub struct AcceptInviteResult {
    pub success: bool,
    pub drive_id: String,
    pub drive_name: String,
    pub permission: PermissionLevel,
    pub error: Option<String>,
}

/// The RFC 3339 text of an instant, or empty text outside chrono's range.
pub open spec fn rfc3339_text(millis: i64) -> Seq<char> {
    match rfc3339_of_millis(millis) {
        Some(t) => t,
        None => Seq::empty(),
    }
}

/// RFC 3339 text of an instant (empty outside chrono's range).
pub fn rfc3339_or_empty(millis: i64) -> (s: String)
    ensures
        s@ == rfc3339_text(millis),
{
    match format_rfc3339(millis) {
        Some(t) => t,
        None => String::new(),
    }
}

/// Validity of an invite in hours: 24 by default, clamped to 1..=168.
pub fn invite_validity_hours(requested: Option<u32>) -> (h: u32)
    ensures
        h == match requested {
            None => 24,
            Some(v) => if v > 168 {
                168
            } else if v < 1 {
                1
            } else {
                v
            },
        },
{
    let v = match requested {
        Some(v) => v,
        None => 24,
    };
    let v = if v > 168 {
        168
    } else {
        v
    };
    if v < 1 {
        1
    } else {
        v
    }
}

/// Check an invite note: more than 500 bytes is refused.
pub fn check_invite_note(note: &Option<String>) -> (r: Result<(), String>)
    ensures
        match note {
            Some(n) => if vstd::utf8::encode_utf8(n@).len() > 500 {
                r matches Err(m) && m@ == "Validation error: Note too long (max 500 chars)"@
            } else {
                r is Ok
            },
            None => r is Ok,
        },
{
    match note {
        Some(n) => {
            if n.as_str().as_bytes().len() > 500 {
                let e = AppError::ValidationError(String::from_str("Note too long (max 500 chars)"));
                let m = e.message();
                proof {
                    reveal_strlit("Validation error: ");
                    reveal_strlit("Note too long (max 500 chars)");
                    reveal_strlit("Validation error: Note too long (max 500 chars)");
                }
                return Err(m);
            }
            Ok(())
        },
        None => Ok(()),
    }
}

/// The first problem an unexpired-looking token has, in the order they are
/// checked: expiry, revocation, the inviter's key (hex of 32 bytes, then a
/// valid key), the signature. `None` for a valid token.
pub open spec fn invite_problem(
    token: InviteToken,
    payload_bytes: Seq<u8>,
    now: i64,
    revoked: bool,
) -> Option<Seq<char>> {
    let p = token.payload;
    if p.expires_at < now {
        Some("Token has expired"@)
    } else if revoked {
        Some("This invite has been revoked"@)
    } else if !is_hex(p.inviter@) || hex_decode(p.inviter@).len() != 32 {
        Some("Invalid inviter key format"@)
    } else if !ed25519_key_valid(hex_decode(p.inviter@)) {
        Some("Invalid inviter public key"@)
    } else if signature_check(token.signature@, payload_bytes, hex_decode(p.inviter@)) is Err {
        Some("Invalid signature - token may have been tampered with"@)
    } else {
        None
    }
}

/// The verification of a token that did not parse.
pub fn unreadable_invite_verification(err: &InviteError) -> (v: InviteVerification)
    ensures
        !v.valid,
        v.drive_id is None,
        v.drive_name is None,
        v.permission is None,
        v.inviter is None,
        v.expires_at is None,
        v.error matches Some(m) && m@ == "Invalid token format: "@ + err.spec_message(),
{
    let mut m = String::from_str("Invalid token format: ");
    let e = err.message();
    m.append(e.as_str());
    proof {
        reveal_strlit("Invalid token format: ");
    }
    InviteVerification {
        valid: false,
        drive_id: None,
        drive_name: None,
        permission: None,
        inviter: None,
        expires_at: None,
        error: Some(m),
    }
}

/// The outcome of accepting a token that did not parse.
pub fn unreadable_invite_acceptance(err: &InviteError) -> (r: AcceptInviteResult)
    ensures
        !r.success,
        r.drive_id@.len() == 0,
        r.drive_name@.len() == 0,
        r.permission == PermissionLevel::Read,
        r.error matches Some(m) && m@ == "Invalid token format: "@ + err.spec_message(),
{
    let mut m = String::from_str("Invalid token format: ");
    let e = err.message();
    m.append(e.as_str());
    proof {
        reveal_strlit("Invalid token format: ");
    }
    AcceptInviteResult {
        success: false,
        drive_id: String::new(),
        drive_name: String::new(),
        permission: PermissionLevel::Read,
        error: Some(m),
    }
}

/// The message of the first problem of a token (see `invite_problem`).
pub fn find_invite_problem(token: &InviteToken, payload_bytes: &[u8], now: i64, revoked: bool) -> (r:
    Option<String>)
    ensures
        opt_chars(r) == invite_problem(*token, payload_bytes@, now, revoked),
{
    if token.is_expired_at(now) {
        return Some(String::from_str("Token has expired"));
    }
    if revoked {
        return Some(String::from_str("This invite has been revoked"));
    }
    let key = match decode(token.payload.inviter.as_str()) {
        Ok(b) => {
            if b.len() != 32 {
                return Some(String::from_str("Invalid inviter key format"));
            }
            to_array_32(b.as_slice())
        },
        Err(_) => return Some(String::from_str("Invalid inviter key format")),
    };
    if !ed25519_public_key_valid(&key) {
        return Some(String::from_str("Invalid inviter public key"));
    }
    match token.verify(payload_bytes, &key) {
        Ok(()) => None,
        Err(_) => Some(String::from_str("Invalid signature - token may have been tampered with")),
    }
}


/// The verification of a parsed token at time `now`, given whether it is
/// revoked: valid exactly when it has no problem, and then without error.
pub fn invite_verification(token: &InviteToken, payload_bytes: &[u8], now: i64, revoked: bool) -> (v:
    InviteVerification)
    ensures
        v.valid == (invite_problem(*token, payload_bytes@, now, revoked) is None),
        opt_chars(v.error) == invite_problem(*token, payload_bytes@, now, revoked),
        v.drive_id matches Some(d) && d@ == token.payload.drive_id@,
        v.drive_name matches Some(d) && d@ == token.payload.drive_name@,
        v.permission == Some(level_of(token.payload.permission)),
        v.inviter matches Some(i) && i@ == token.payload.inviter@,
        opt_chars(v.expires_at) == rfc3339_of_millis(token.payload.expires_at),
{
    let problem = find_invite_problem(token, payload_bytes, now, revoked);
    InviteVerification {
        valid: problem.is_none(),
        drive_id: Some(token.payload.drive_id.clone()),
        drive_name: Some(token.payload.drive_name.clone()),
        permission: Some(to_level(token.payload.permission)),
        inviter: Some(token.payload.inviter.clone()),
        expires_at: format_rfc3339(token.payload.expires_at),
        error: problem,
    }
}

/// The first reason a parsed token cannot be accepted by `caller` (hex node
/// id), and whether the drive's name is reported with it: the token's own
/// problems, a drive id that is not hex of 32 bytes, the inviter accepting
/// their own invite, a single-use token already used.
pub open spec fn acceptance_problem(
    token: InviteToken,
    payload_bytes: Seq<u8>,
    now: i64,
    revoked: bool,
    caller: Seq<char>,
    used: bool,
) -> Option<(Seq<char>, bool)> {
    let p = token.payload;
    match invite_problem(token, payload_bytes, now, revoked) {
        Some(m) => Some((m, false)),
        None => if !is_hex(p.drive_id@) {
            Some(("Invalid drive ID format"@, false))
        } else if p.drive_id@.len() != 64 {
            Some(("Invalid drive ID length"@, false))
        } else if caller == p.inviter@ {
            Some(("You cannot join your own drive"@, true))
        } else if p.single_use && used {
            Some(("This single-use invite has already been used"@, true))
        } else {
            None
        },
    }
}

/// A failed acceptance of a parsed token.
pub fn acceptance_failure(token: &InviteToken, with_name: bool, message: String) -> (r:
    AcceptInviteResult)
    ensures
        !r.success,
        r.drive_id@ == token.payload.drive_id@,
        with_name ==> r.drive_name@ == token.payload.drive_name@,
        !with_name ==> r.drive_name@.len() == 0,
        r.permission == level_of(token.payload.permission),
        r.error == Some(message),
{
    AcceptInviteResult {
        success: false,
        drive_id: token.payload.drive_id.clone(),
        drive_name: if with_name {
            token.payload.drive_name.clone()
        } else {
            String::new()
        },
        permission: to_level(token.payload.permission),
        error: Some(message),
    }
}

/// A successful acceptance of a parsed token.
pub fn acceptance_success(token: &InviteToken) -> (r: AcceptInviteResult)
    ensures
        r.success,
        r.drive_id@ == token.payload.drive_id@,
        r.drive_name@ == token.payload.drive_name@,
        r.permission == level_of(token.payload.permission),
        r.error is None,
{
    AcceptInviteResult {
        success: true,
        drive_id: token.payload.drive_id.clone(),
        drive_name: token.payload.drive_name.clone(),
        permission: to_level(token.payload.permission),
        error: None,
    }
}

/// What an acceptance check answers: the drive id's bytes when the token
/// has no acceptance problem, else a failed result with the problem's message.
pub open spec fn acceptance_outcome(
    r: Result<[u8; 32], AcceptInviteResult>,
    token: InviteToken,
    payload_bytes: Seq<u8>,
    now: i64,
    revoked: bool,
    caller: Seq<char>,
    used: bool,
) -> bool {
    match acceptance_problem(token, payload_bytes, now, revoked, caller, used) {
        None => r matches Ok(id) && id@ == hex_decode(token.payload.drive_id@),
        Some((m, with_name)) => r matches Err(res) && !res.success && opt_chars(res.error) == Some(m)
            && res.drive_id@ == token.payload.drive_id@ && res.permission == level_of(
            token.payload.permission,
        ) && (with_name ==> res.drive_name@ == token.payload.drive_name@) && (!with_name
            ==> res.drive_name@.len() == 0),
    }
}

/// Check whether `caller` (hex node id) may accept a parsed token at time
/// `now`, given whether it is revoked and whether (single-use) it was used:
/// the drive id's bytes when it may, else the failed result to report.
pub fn acceptance_check(
    token: &InviteToken,
    payload_bytes: &[u8],
    now: i64,
    revoked: bool,
    caller: &str,
    used: bool,
) -> (r: Result<[u8; 32], AcceptInviteResult>)
    ensures
        acceptance_outcome(r, *token, payload_bytes@, now, revoked, caller@, used),
{
    match find_invite_problem(token, payload_bytes, now, revoked) {
        Some(m) => return Err(acceptance_failure(token, false, m)),
        None => {},
    }
    let id = match crate::drive::parse_drive_id(token.payload.drive_id.as_str()) {
        Ok(a) => a,
        Err(m) => {
            proof {
                reveal_strlit("Invalid drive ID format");
                reveal_strlit("Invalid drive ID length");
            }
            return Err(acceptance_failure(token, false, m));
        },
    };
    let c = chars_of(caller);
    let o = chars_of(token.payload.inviter.as_str());
    if chars_eq(c.as_slice(), o.as_slice()) {
        return Err(
            acceptance_failure(token, true, String::from_str("You cannot join your own drive")),
        );
    }
    if token.payload.single_use && used {
        return Err(
            acceptance_failure(
                token,
                true,
                String::from_str("This single-use invite has already been used"),
            ),
        );
    }
    Ok(id)
}

/// A character kept in a folder name: alphanumeric, space, `-` or `_`.
pub open spec fn folder_char(c: char) -> char {
    if unicode_alphanumeric(c) || c == ' ' || c == '-' || c == '_' {
        c
    } else {
        '_'
    }
}

/// The local folder of a joined drive: its name with other characters
/// replaced by `_`, then `_` and the first 8 characters of its id.
pub open spec fn joined_folder_name(drive_name: Seq<char>, drive_id: Seq<char>) -> Seq<char> {
    drive_name.map_values(|c: char| folder_char(c)) + "_"@ + drive_id.subrange(0, 8)
}

/// The local folder name of a joined drive (the id being 64 hex digits).
pub fn joined_drive_folder_name(drive_name: &str, drive_id: &str) -> (s: String)
    requires
        is_hex(drive_id@),
        drive_id@.len() == 64,
    ensures
        s@ == joined_folder_name(drive_name@, drive_id@),
{
    let name = chars_of(drive_name);
    let mut out: Vec<char> = Vec::new();
    let mut i: usize = 0;
    while i < name.len()
        invariant
            i <= name@.len(),
            out@ == name@.subrange(0, i as int).map_values(|c: char| folder_char(c)),
        decreases name@.len() - i,
    {
        let c = name[i];
        let keep = char_is_alphanumeric(c) || c == ' ' || c == '-' || c == '_';
        out.push(
            if keep {
                c
            } else {
                '_'
            },
        );
        i = i + 1;
        assert(out@ =~= name@.subrange(0, i as int).map_values(|c: char| folder_char(c)));
    }
    assert(name@.subrange(0, name@.len() as int) =~= name@);
    out.push('_');
    let id = chars_of(drive_id);
    let mut j: usize = 0;
    let ghost base = out@;
    while j < 8
        invariant
            id@ == drive_id@,
            id@.len() == 64,
            j <= 8,
            out@ == base + drive_id@.subrange(0, j as int),
        decreases 8 - j,
    {
        out.push(id[j]);
        j = j + 1;
        assert(out@ =~= base + drive_id@.subrange(0, j as int));
    }
    proof {
        reveal_strlit("_");
    }
    assert(out@ =~= joined_folder_name(drive_name@, drive_id@));
    string_from_chars(out.as_slice())
}

/// The invite builder of a request for a drive: validity clamped to
/// 1..=168 hours (24 by default), the requested permission, note (refused
/// over 500 bytes) and single use.
pub fn invite_builder_for(request: &CreateInviteRequest, drive_name: &str) -> (r: Result<
    InviteBuilder,
    String,
>)
    ensures
        match check_note_spec(request.note) {
            Some(m) => r matches Err(e) && e@ == m,
            None => r matches Ok(b) && b.drive_id@ == request.drive_id@ && b.drive_name@
                == drive_name@ && b.permission == permission_of(request.permission) && b.validity
                == 3600000 * validity_hours_spec(request.validity_hours) && opt_chars(b.note)
                == opt_chars(request.note) && b.single_use == (request.single_use == Some(true))
                && b.doc_ticket is None,
        },
{
    let hours = invite_validity_hours(request.validity_hours);
    let mut b = InviteBuilder::new(request.drive_id.as_str(), drive_name).with_permission(
        to_permission(request.permission),
    ).with_validity(3600000 * (hours as i64));
    match check_invite_note(&request.note) {
        Err(m) => return Err(m),
        Ok(()) => {},
    }
    match &request.note {
        Some(n) => {
            b = b.with_note(n.as_str());
        },
        None => {},
    }
    let single = match request.single_use {
        Some(v) => v,
        None => false,
    };
    if single {
        b = b.single_use();
    }
    Ok(b)
}

/// What `invite_validity_hours` answers.
pub open spec fn validity_hours_spec(requested: Option<u32>) -> int {
    match requested {
        None => 24,
        Some(v) => if v > 168 {
            168
        } else if v < 1 {
            1
        } else {
            v as int
        },
    }
}

/// The error `check_invite_note` gives, if any.
pub open spec fn check_note_spec(note: Option<String>) -> Option<Seq<char>> {
    match note {
        Some(n) => if vstd::utf8::encode_utf8(n@).len() > 500 {
            Some("Validation error: Note too long (max 500 chars)"@)
        } else {
            None
        },
        None => None,
    }
}

/// The info of a created invite: its text, and its expiry as RFC 3339 text.
pub fn invite_info(token: String, request: &CreateInviteRequest, expires_at: i64) -> (i: InviteInfo)
    ensures
        i.token == token,
        i.drive_id@ == request.drive_id@,
        i.permission == request.permission,
        i.expires_at@ == rfc3339_text(expires_at),
        opt_chars(i.note) == opt_chars(request.note),
        i.single_use == (request.single_use == Some(true)),
{
    InviteInfo {
        token,
        drive_id: request.drive_id.clone(),
        permission: request.permission,
        expires_at: rfc3339_or_empty(expires_at),
        note: crate::access::clone_opt_string(&request.note),
        single_use: match request.single_use {
            Some(v) => v,
            None => false,
        },
    }
}


/// A revoked invite is never valid and is never accepted.
pub proof fn law_revoked_invite_refused(
    token: InviteToken,
    payload_bytes: Seq<u8>,
    now: i64,
    caller: Seq<char>,
    used: bool,
)
    ensures
        invite_problem(token, payload_bytes, now, true) is Some,
        acceptance_problem(token, payload_bytes, now, true, caller, used) is Some,
{
}

/// An expired invite is never valid and is never accepted.
pub proof fn law_expired_invite_refused(
    token: InviteToken,
    payload_bytes: Seq<u8>,
    now: i64,
    revoked: bool,
    caller: Seq<char>,
    used: bool,
)
    requires
        token.payload.expires_at < now,
    ensures
        invite_problem(token, payload_bytes, now, revoked) == Some("Token has expired"@),
        acceptance_problem(token, payload_bytes, now, revoked, caller, used) is Some,
{
}

/// A used single-use invite is never accepted again.
pub proof fn law_used_single_use_invite_refused(
    token: InviteToken,
    payload_bytes: Seq<u8>,
    now: i64,
    revoked: bool,
    caller: Seq<char>,
)
    requires
        token.payload.single_use,
    ensures
        acceptance_problem(token, payload_bytes, now, revoked, caller, true) is Some,
{
}

/// The inviter cannot accept their own invite.
pub proof fn law_inviter_cannot_join_own_drive(
    token: InviteToken,
    payload_bytes: Seq<u8>,
    now: i64,
    revoked: bool,
    used: bool,
)
    ensures
        acceptance_problem(token, payload_bytes, now, revoked, token.payload.inviter@, used) is Some,
{
}

/// An invite without problems is valid, and its acceptance by another node
/// is refused only for a malformed drive id or a used single-use token.
pub proof fn law_valid_invite_accepted(
    token: InviteToken,
    payload_bytes: Seq<u8>,
    now: i64,
    caller: Seq<char>,
)
    requires
        invite_problem(token, payload_bytes, now, false) is None,
        is_hex(token.payload.drive_id@),
        token.payload.drive_id@.len() == 64,
        caller != token.payload.inviter@,
    ensures
        acceptance_problem(token, payload_bytes, now, false, caller, false) is None,
{
}

} // verus!
