//! The security audit trail: the events recorded, the entries they are kept
//! in, the filters a query applies and the page of the log a query reads
//! (newest first, inside a time window, after an offset).
use vstd::prelude::*;
use crate::text::chars_eq;

verus! {

/// A security-relevant event.
#[derive(Clone, Debug)]
pub enum AuditEvent {
    /// A new identity was created.
    IdentityCreated { node_id: String },
    /// A drive was accessed.
    DriveAccessed { drive_id: String, user_id: String, operation: String },
    /// Access to a drive was denied.
    AccessDenied { drive_id: String, user_id: String, path: String, reason: String },
    /// Permission was granted to a user.
    PermissionGranted { drive_id: String, user_id: String, permission: String, granted_by: String },
    /// Permission was revoked from a user.
    PermissionRevoked { drive_id: String, user_id: String, revoked_by: String },
    /// An invite token was created (expiry in Unix milliseconds).
    InviteCreated {
        drive_id: String,
        token_id: String,
        permission: String,
        created_by: String,
        expires_at: i64,
    },
    /// An invite was accepted.
    InviteAccepted { drive_id: String, token_id: String, user_id: String },
    /// An invite was revoked.
    InviteRevoked { drive_id: String, token_id: String, revoked_by: String },
    /// A file was read.
    FileRead { drive_id: String, path: String, user_id: String },
    /// A file was written.
    FileWritten { drive_id: String, path: String, user_id: String, size: u64 },
    /// A file was deleted.
    FileDeleted { drive_id: String, path: String, user_id: String },
    /// A file was renamed.
    FileRenamed { drive_id: String, old_path: String, new_path: String, user_id: String },
    /// A lock was force released by an admin.
    LockForceReleased { drive_id: String, path: String, by_user: String, lock_holder: String },
}

impl AuditEvent {
    /// The name of the event's type.
    pub open spec fn spec_event_type(&self) -> Seq<char> {
        match self {
            AuditEvent::IdentityCreated { .. } => "identity_created"@,
            AuditEvent::DriveAccessed { .. } => "drive_accessed"@,
            AuditEvent::AccessDenied { .. } => "access_denied"@,
            AuditEvent::PermissionGranted { .. } => "permission_granted"@,
            AuditEvent::PermissionRevoked { .. } => "permission_revoked"@,
            AuditEvent::InviteCreated { .. } => "invite_created"@,
            AuditEvent::InviteAccepted { .. } => "invite_accepted"@,
            AuditEvent::InviteRevoked { .. } => "invite_revoked"@,
            AuditEvent::FileRead { .. } => "file_read"@,
            AuditEvent::FileWritten { .. } => "file_written"@,
            AuditEvent::FileDeleted { .. } => "file_deleted"@,
            AuditEvent::FileRenamed { .. } => "file_renamed"@,
            AuditEvent::LockForceReleased { .. } => "lock_force_released"@,
        }
    }

    /// The drive the event concerns, if any.
    pub open spec fn spec_drive_id(&self) -> Option<Seq<char>> {
        match self {
            AuditEvent::IdentityCreated { .. } => None,
            AuditEvent::DriveAccessed { drive_id, .. } => Some(drive_id@),
            AuditEvent::AccessDenied { drive_id, .. } => Some(drive_id@),
            AuditEvent::PermissionGranted { drive_id, .. } => Some(drive_id@),
            AuditEvent::PermissionRevoked { drive_id, .. } => Some(drive_id@),
            AuditEvent::InviteCreated { drive_id, .. } => Some(drive_id@),
            AuditEvent::InviteAccepted { drive_id, .. } => Some(drive_id@),
            AuditEvent::InviteRevoked { drive_id, .. } => Some(drive_id@),
            AuditEvent::FileRead { drive_id, .. } => Some(drive_id@),
            AuditEvent::FileWritten { drive_id, .. } => Some(drive_id@),
            AuditEvent::FileDeleted { drive_id, .. } => Some(drive_id@),
            AuditEvent::FileRenamed { drive_id, .. } => Some(drive_id@),
            AuditEvent::LockForceReleased { drive_id, .. } => Some(drive_id@),
        }
    }

    /// The user the event concerns: the acting user where the event has no
    /// other (the creator of an invite, the revoker of one, the user who
    /// forced a lock open).
    pub open spec fn spec_user_id(&self) -> Option<Seq<char>> {
        match self {
            AuditEvent::IdentityCreated { node_id } => Some(node_id@),
            AuditEvent::DriveAccessed { user_id, .. } => Some(user_id@),
            AuditEvent::AccessDenied { user_id, .. } => Some(user_id@),
            AuditEvent::PermissionGranted { user_id, .. } => Some(user_id@),
            AuditEvent::PermissionRevoked { user_id, .. } => Some(user_id@),
            AuditEvent::InviteCreated { created_by, .. } => Some(created_by@),
            AuditEvent::InviteAccepted { user_id, .. } => Some(user_id@),
            AuditEvent::InviteRevoked { revoked_by, .. } => Some(revoked_by@),
            AuditEvent::FileRead { user_id, .. } => Some(user_id@),
            AuditEvent::FileWritten { user_id, .. } => Some(user_id@),
            AuditEvent::FileDeleted { user_id, .. } => Some(user_id@),
            AuditEvent::FileRenamed { user_id, .. } => Some(user_id@),
            AuditEvent::LockForceReleased { by_user, .. } => Some(by_user@),
        }
    }

    /// The name of the event's type.
    pub fn event_type(&self) -> (s: &'static str)
        ensures
            s@ == self.spec_event_type(),
    {
        match self {
            AuditEvent::IdentityCreated { .. } => "identity_created",
            AuditEvent::DriveAccessed { .. } => "drive_accessed",
            AuditEvent::AccessDenied { .. } => "access_denied",
            AuditEvent::PermissionGranted { .. } => "permission_granted",
            AuditEvent::PermissionRevoked { .. } => "permission_revoked",
            AuditEvent::InviteCreated { .. } => "invite_created",
            AuditEvent::InviteAccepted { .. } => "invite_accepted",
            AuditEvent::InviteRevoked { .. } => "invite_revoked",
            AuditEvent::FileRead { .. } => "file_read",
            AuditEvent::FileWritten { .. } => "file_written",
            AuditEvent::FileDeleted { .. } => "file_deleted",
            AuditEvent::FileRenamed { .. } => "file_renamed",
            AuditEvent::LockForceReleased { .. } => "lock_force_released",
        }
    }

    /// The drive the event concerns, if any.
    pub fn drive_id(&self) -> (r: Option<&str>)
        ensures
            match (r, self.spec_drive_id()) {
                (Some(a), Some(b)) => a@ == b,
                (None, None) => true,
                _ => false,
            },
    {
        match self {
            AuditEvent::IdentityCreated { .. } => None,
            AuditEvent::DriveAccessed { drive_id, .. } => Some(drive_id.as_str()),
            AuditEvent::AccessDenied { drive_id, .. } => Some(drive_id.as_str()),
            AuditEvent::PermissionGranted { drive_id, .. } => Some(drive_id.as_str()),
            AuditEvent::PermissionRevoked { drive_id, .. } => Some(drive_id.as_str()),
            AuditEvent::InviteCreated { drive_id, .. } => Some(drive_id.as_str()),
            AuditEvent::InviteAccepted { drive_id, .. } => Some(drive_id.as_str()),
            AuditEvent::InviteRevoked { drive_id, .. } => Some(drive_id.as_str()),
            AuditEvent::FileRead { drive_id, .. } => Some(drive_id.as_str()),
            AuditEvent::FileWritten { drive_id, .. } => Some(drive_id.as_str()),
            AuditEvent::FileDeleted { drive_id, .. } => Some(drive_id.as_str()),
            AuditEvent::FileRenamed { drive_id, .. } => Some(drive_id.as_str()),
            AuditEvent::LockForceReleased { drive_id, .. } => Some(drive_id.as_str()),
        }
    }

    /// The user the event concerns (see `spec_user_id`).
    pub fn user_id(&self) -> (r: Option<&str>)
        ensures
            match (r, self.spec_user_id()) {
                (Some(a), Some(b)) => a@ == b,
                (None, None) => true,
                _ => false,
            },
    {
        match self {
            AuditEvent::IdentityCreated { node_id } => Some(node_id.as_str()),
            AuditEvent::DriveAccessed { user_id, .. } => Some(user_id.as_str()),
            AuditEvent::AccessDenied { user_id, .. } => Some(user_id.as_str()),
            AuditEvent::PermissionGranted { user_id, .. } => Some(user_id.as_str()),
            AuditEvent::PermissionRevoked { user_id, .. } => Some(user_id.as_str()),
            AuditEvent::InviteCreated { created_by, .. } => Some(created_by.as_str()),
            AuditEvent::InviteAccepted { user_id, .. } => Some(user_id.as_str()),
            AuditEvent::InviteRevoked { revoked_by, .. } => Some(revoked_by.as_str()),
            AuditEvent::FileRead { user_id, .. } => Some(user_id.as_str()),
            AuditEvent::FileWritten { user_id, .. } => Some(user_id.as_str()),
            AuditEvent::FileDeleted { user_id, .. } => Some(user_id.as_str()),
            AuditEvent::FileRenamed { user_id, .. } => Some(user_id.as_str()),
            AuditEvent::LockForceReleased { by_user, .. } => Some(by_user.as_str()),
        }
    }
}

/// The characters of an optional string.
pub open spec fn opt_view(s: Option<String>) -> Option<Seq<char>> {
    match s {
        Some(x) => Some(x@),
        None => None,
    }
}

fn opt_str_to_string(s: Option<&str>) -> (r: Option<String>)
    ensures
        match (r, s) {
            (Some(a), Some(b)) => a@ == b@,
            (None, None) => true,
            _ => false,
        },
{
    match s {
        Some(x) => Some(String::from_str(x)),
        None => None,
    }
}

/// An entry of the audit log.
#[derive(Clone, Debug)]
pub struct AuditEntry {
    /// Entry id (given by the log's storage).
    pub id: u64,
    /// When the event occurred (Unix milliseconds).
    pub timestamp: i64,
    /// The event's type name.
    pub event_type: String,
    /// The drive the event concerns, if any.
    pub drive_id: Option<String>,
    /// The user the event concerns, if any.
    pub user_id: Option<String>,
    /// The event itself.
    pub event: AuditEvent,
}

impl AuditEntry {
    /// The entry recording an event at `timestamp`, before storage gives it
    /// an id (0): its type, drive and user are read off the event.
    pub fn record(event: AuditEvent, timestamp: i64) -> (e: AuditEntry)
        ensures
            e.id == 0,
            e.timestamp == timestamp,
            e.event_type@ == event.spec_event_type(),
            opt_view(e.drive_id) == event.spec_drive_id(),
            opt_view(e.user_id) == event.spec_user_id(),
            e.event == event,
    {
        let event_type = String::from_str(event.event_type());
        let drive_id = opt_str_to_string(event.drive_id());
        let user_id = opt_str_to_string(event.user_id());
        AuditEntry { id: 0, timestamp, event_type, drive_id, user_id, event }
    }
}

/// What a query of the audit log selects.
#[derive(Clone, Debug)]
pub struct AuditFilter {
    /// Only events of this drive.
    pub drive_id: Option<String>,
    /// Only events of this type.
    pub event_type: Option<String>,
    /// Only events of this user.
    pub user_id: Option<String>,
    /// Only events at or after this instant (Unix milliseconds).
    pub since: Option<i64>,
    /// Only events at or before this instant (Unix milliseconds).
    pub until: Option<i64>,
    /// At most this many entries (100 when not given).
    pub limit: Option<usize>,
    /// Entries to skip first (none when not given).
    pub offset: Option<usize>,
}

/// The number of entries a query returns when it gives no limit.
pub const DEFAULT_AUDIT_LIMIT: usize = 100;

impl Default for AuditFilter {
    fn default() -> (f: AuditFilter)
        ensures
            f.drive_id is None,
            f.event_type is None,
            f.user_id is None,
            f.since is None,
            f.until is None,
            f.limit is None,
            f.offset is None,
    {
        AuditFilter {
            drive_id: None,
            event_type: None,
            user_id: None,
            since: None,
            until: None,
            limit: None,
            offset: None,
        }
    }
}

/// Whether an optional field of an entry equals a wanted value, where one is
/// wanted.
pub open spec fn field_accepted(wanted: Option<Seq<char>>, actual: Option<Seq<char>>) -> bool {
    match wanted {
        Some(w) => actual == Some(w),
        None => true,
    }
}

impl AuditFilter {
    /// The most recent `limit` events of a drive.
    pub fn for_drive(drive_id: &str, limit: usize) -> (f: AuditFilter)
        ensures
            opt_view(f.drive_id) == Some(drive_id@),
            f.event_type is None,
            f.user_id is None,
            f.since is None,
            f.until is None,
            f.limit == Some(limit),
            f.offset is None,
    {
        AuditFilter { drive_id: Some(String::from_str(drive_id)), limit: Some(limit), ..Default::default() }
    }

    /// The most recent `limit` events of a user.
    pub fn for_user(user_id: &str, limit: usize) -> (f: AuditFilter)
        ensures
            f.drive_id is None,
            f.event_type is None,
            opt_view(f.user_id) == Some(user_id@),
            f.since is None,
            f.until is None,
            f.limit == Some(limit),
            f.offset is None,
    {
        AuditFilter { user_id: Some(String::from_str(user_id)), limit: Some(limit), ..Default::default() }
    }

    /// The most recent `limit` refusals of access.
    pub fn denied_access(limit: usize) -> (f: AuditFilter)
        ensures
            f.drive_id is None,
            opt_view(f.event_type) == Some("access_denied"@),
            f.user_id is None,
            f.since is None,
            f.until is None,
            f.limit == Some(limit),
            f.offset is None,
    {
        AuditFilter {
            event_type: Some(String::from_str("access_denied")),
            limit: Some(limit),
            ..Default::default()
        }
    }

    /// The number of entries the query returns at most.
    pub fn page_limit(&self) -> (n: usize)
        ensures
            n == match self.limit {
                Some(l) => l,
                None => DEFAULT_AUDIT_LIMIT,
            },
    {
        match self.limit {
            Some(l) => l,
            None => DEFAULT_AUDIT_LIMIT,
        }
    }

    /// The number of entries the query skips.
    pub fn page_offset(&self) -> (n: usize)
        ensures
            n == match self.offset {
                Some(o) => o,
                None => 0,
            },
    {
        match self.offset {
            Some(o) => o,
            None => 0,
        }
    }

    /// Whether an entry passes the filter's drive, type and user.
    pub open spec fn spec_accepts(&self, e: AuditEntry) -> bool {
        &&& field_accepted(opt_view(self.drive_id), opt_view(e.drive_id))
        &&& field_accepted(opt_view(self.event_type), Some(e.event_type@))
        &&& field_accepted(opt_view(self.user_id), opt_view(e.user_id))
    }

    /// Whether an entry passes the filter's drive, type and user.
    pub fn accepts(&self, e: &AuditEntry) -> (r: bool)
        ensures
            r == self.spec_accepts(*e),
    {
        let drive_ok = match &self.drive_id {
            Some(w) => match &e.drive_id {
                Some(a) => same_text(w, a),
                None => false,
            },
            None => true,
        };
        let type_ok = match &self.event_type {
            Some(w) => same_text(w, &e.event_type),
            None => true,
        };
        let user_ok = match &self.user_id {
            Some(w) => match &e.user_id {
                Some(a) => same_text(w, a),
                None => false,
            },
            None => true,
        };
        drive_ok && type_ok && user_ok
    }
}

/// A filter accepts an entry exactly when the entry has the drive, the event
/// type and the user that the filter names (each where it names one): an
/// entry of another event type, drive or user is never accepted.
pub proof fn law_filter_accepts_only_named(f: AuditFilter, e: AuditEntry)
    ensures
        f.spec_accepts(e) <==> {
            &&& (f.drive_id matches Some(d) ==> (e.drive_id matches Some(x) && x@ == d@))
            &&& (f.event_type matches Some(t) ==> e.event_type@ == t@)
            &&& (f.user_id matches Some(u) ==> (e.user_id matches Some(x) && x@ == u@))
        },
{
}

fn same_text(a: &String, b: &String) -> (r: bool)
    ensures
        r == (a@ == b@),
{
    let x = crate::text::chars_of(a.as_str());
    let y = crate::text::chars_of(b.as_str());
    chars_eq(x.as_slice(), y.as_slice())
}

/// The entries a query returns, from the entries its page of the log held
/// (each with its storage id): each takes its id, and those the filter does
/// not accept are left out; the order is kept.
pub open spec fn selected(filter: AuditFilter, found: Seq<(u64, AuditEntry)>) -> Seq<AuditEntry>
    decreases found.len(),
{
    if found.len() == 0 {
        Seq::empty()
    } else {
        let rest = selected(filter, found.drop_last());
        let e = AuditEntry { id: found.last().0, ..found.last().1 };
        if filter.spec_accepts(e) {
            rest.push(e)
        } else {
            rest
        }
    }
}

/// The entries a query returns from its page of the log (see `selected`).
pub fn select_entries(filter: &AuditFilter, found: Vec<(u64, AuditEntry)>) -> (r: Vec<AuditEntry>)
    ensures
        r@ == selected(*filter, found@),
{
    let ghost all = found@;
    let mut rest = found;
    let mut picked: Vec<AuditEntry> = Vec::new();
    let mut out: Vec<AuditEntry> = Vec::new();
    // Take the entries off the end, then put them back in order.
    while rest.len() > 0
        invariant
            rest@ == all.subrange(0, rest@.len() as int),
            rest@.len() <= all.len(),
            selected(*filter, all) == selected(*filter, rest@) + picked@.reverse(),
        decreases rest@.len(),
    {
        let ghost before = rest@;
        match rest.pop() {
            Some(item) => {
                let (id, mut e) = item;
                e.id = id;
                assert(before.drop_last() =~= rest@);
                if filter.accepts(&e) {
                    let ghost p = picked@;
                    picked.push(e);
                    assert(picked@.reverse() =~= seq![e] + p.reverse());
                    assert(selected(*filter, before) == selected(*filter, rest@).push(e));
                    assert(selected(*filter, rest@).push(e) + p.reverse() =~= selected(
                        *filter,
                        rest@,
                    ) + picked@.reverse());
                }
                assert(rest@ =~= all.subrange(0, rest@.len() as int));
            },
            None => {},
        }
    }
    assert(selected(*filter, rest@) =~= Seq::<AuditEntry>::empty());
    assert(selected(*filter, all) =~= picked@.reverse());
    let ghost pv = picked@;
    while picked.len() > 0
        invariant
            out@ + picked@.reverse() == pv.reverse(),
        decreases picked@.len(),
    {
        let ghost p = picked@;
        match picked.pop() {
            Some(e) => {
                let ghost o = out@;
                out.push(e);
                assert(p =~= picked@.push(e));
                assert(p.reverse() =~= seq![e] + picked@.reverse());
                assert(out@ + picked@.reverse() =~= o + p.reverse());
            },
            None => {},
        }
    }
    assert(picked@.reverse() =~= Seq::<AuditEntry>::empty());
    assert(out@ =~= out@ + picked@.reverse());
    out
}

/// Whether an instant lies in a query's window; an entry whose instant is
/// unknown (`None`) always does.
pub open spec fn in_window(stamp: Option<i64>, since: Option<i64>, until: Option<i64>) -> bool {
    match stamp {
        Some(t) => (match since {
            Some(s) => t >= s,
            None => true,
        }) && (match until {
            Some(u) => t <= u,
            None => true,
        }),
        None => true,
    }
}

/// The positions (in the log read newest first) of the entries inside a
/// window.
pub open spec fn window_positions(stamps: Seq<Option<i64>>, since: Option<i64>, until: Option<i64>) -> Seq<
    int,
>
    decreases stamps.len(),
{
    if stamps.len() == 0 {
        Seq::empty()
    } else {
        let rest = window_positions(stamps.drop_last(), since, until);
        if in_window(stamps.last(), since, until) {
            rest.push(stamps.len() - 1)
        } else {
            rest
        }
    }
}

/// The page of the log a query reads: of the entries inside the window
/// (newest first), those after the first `offset`, at most `limit` of them
/// but at least one where there is one.
pub open spec fn page_positions(
    stamps: Seq<Option<i64>>,
    since: Option<i64>,
    until: Option<i64>,
    limit: nat,
    offset: nat,
) -> Seq<int> {
    let w = window_positions(stamps, since, until);
    let take = if limit == 0 {
        1
    } else {
        limit
    };
    let lo = if offset < w.len() {
        offset as int
    } else {
        w.len() as int
    };
    let hi = if lo + take < w.len() {
        lo + take
    } else {
        w.len() as int
    };
    w.subrange(lo, hi)
}

/// The window positions of a prefix of the log begin those of the whole.
proof fn lemma_window_prefix(stamps: Seq<Option<i64>>, j: int, since: Option<i64>, until: Option<i64>)
    requires
        0 <= j <= stamps.len(),
    ensures
        window_positions(stamps.subrange(0, j), since, until).len() <= window_positions(
            stamps,
            since,
            until,
        ).len(),
        window_positions(stamps.subrange(0, j), since, until) == window_positions(
            stamps,
            since,
            until,
        ).subrange(0, window_positions(stamps.subrange(0, j), since, until).len() as int),
    decreases stamps.len(),
{
    if j == stamps.len() {
        assert(stamps.subrange(0, j) =~= stamps);
        assert(window_positions(stamps, since, until).subrange(
            0,
            window_positions(stamps, since, until).len() as int,
        ) =~= window_positions(stamps, since, until));
    } else {
        let d = stamps.drop_last();
        assert(stamps.subrange(0, j) =~= d.subrange(0, j));
        lemma_window_prefix(d, j, since, until);
        let k = window_positions(d.subrange(0, j), since, until).len() as int;
        assert(window_positions(stamps, since, until).subrange(0, k) =~= window_positions(
            d,
            since,
            until,
        ).subrange(0, k));
    }
}

fn stamp_in_window(stamp: Option<i64>, since: Option<i64>, until: Option<i64>) -> (r: bool)
    ensures
        r == in_window(stamp, since, until),
{
    match stamp {
        Some(t) => {
            let after = match since {
                Some(s) => t >= s,
                None => true,
            };
            let before = match until {
                Some(u) => t <= u,
                None => true,
            };
            after && before
        },
        None => true,
    }
}

/// The positions of the page of the log a query reads (see
/// `page_positions`), given the instant of each entry, newest first.
pub fn select_page(stamps: &[Option<i64>], since: Option<i64>, until: Option<i64>, limit: usize, offset: usize) -> (r:
    Vec<usize>)
    ensures
        r@.map_values(|i: usize| i as int) == page_positions(
            stamps@,
            since,
            until,
            limit as nat,
            offset as nat,
        ),
{
    let ghost take: int = if limit == 0 {
        1
    } else {
        limit as int
    };
    let mut out: Vec<usize> = Vec::new();
    let mut skipped: usize = 0;
    let mut seen: usize = 0;
    let mut i: usize = 0;
    assert(stamps@.subrange(0, 0) =~= Seq::<Option<i64>>::empty());
    assert(stamps@.subrange(0, stamps@.len() as int) =~= stamps@);
    assert(out@.map_values(|j: usize| j as int) =~= Seq::<int>::empty());
    while i < stamps.len()
        invariant_except_break
            i <= stamps@.len(),
            seen <= i,
            stamps@.subrange(0, stamps@.len() as int) == stamps@,
            take == if limit == 0 {
                1
            } else {
                limit as int
            },
            window_positions(stamps@.subrange(0, i as int), since, until).len() == seen,
            skipped == if seen < offset {
                seen
            } else {
                offset
            },
            out@.map_values(|j: usize| j as int) == window_positions(
                stamps@.subrange(0, i as int),
                since,
                until,
            ).subrange(skipped as int, seen as int),
            out@.len() < take,
        ensures
            out@.map_values(|j: usize| j as int) == page_positions(
                stamps@,
                since,
                until,
                limit as nat,
                offset as nat,
            ),
        decreases stamps@.len() - i,
    {
        let ghost wp = window_positions(stamps@.subrange(0, i as int), since, until);
        let ghost o = out@;
        assert(stamps@.subrange(0, i + 1).drop_last() =~= stamps@.subrange(0, i as int));
        assert(stamps@.subrange(0, i + 1).last() == stamps@[i as int]);
        if stamp_in_window(stamps[i], since, until) {
            let ghost wq = wp.push(i as int);
            assert(window_positions(stamps@.subrange(0, i + 1), since, until) == wq);
            if skipped < offset {
                assert(out@.map_values(|j: usize| j as int) =~= wq.subrange(
                    skipped + 1,
                    seen + 1,
                ));
                skipped = skipped + 1;
                seen = seen + 1;
            } else {
                out.push(i);
                assert(out@.map_values(|j: usize| j as int) =~= o.map_values(
                    |j: usize| j as int,
                ).push(i as int));
                assert(out@.map_values(|j: usize| j as int) =~= wq.subrange(
                    skipped as int,
                    seen + 1,
                ));
                seen = seen + 1;
                if out.len() >= limit {
                    proof {
                        lemma_window_prefix(stamps@, i + 1, since, until);
                        let w = window_positions(stamps@, since, until);
                        assert(wq == w.subrange(0, seen as int));
                        assert(out@.len() == take);
                        assert(w.subrange(offset as int, offset + take) =~= wq.subrange(
                            offset as int,
                            seen as int,
                        ));
                    }
                    break;
                }
            }
        } else {
            assert(window_positions(stamps@.subrange(0, i + 1), since, until) == wp);
        }
        i = i + 1;
    }
    out
}

} // verus!
