//! Presence of users on a drive, and the drive's activity feed (newest
//! first, bounded). Times are Unix milliseconds.
use vstd::prelude::*;
use crate::bytes::{extend_bytes, sub_bytes};
use crate::clock::{now_millis, now_nanos, INSTANT_BOUND};
use crate::drive::{le_bytes, millis_le_bytes};
use crate::hex::{encode, hex_encode};
use crate::keys::{short_hex, NodeId};
use crate::locking::{node_eq, same_node};
use crate::text::chars_of;
use crate::validation::{components, components_prefix, is_absolute, path_components};
use crate::primitives::{blake3_hash, blake3_hash_of, random_bytes_8};
use crate::security::{rfc3339_or_empty, rfc3339_text};
use crate::assoc::{saturated, sum_over, assoc_key_list, assoc_map, assoc_remove, assoc_insert, assoc_wf, lemma_assoc_index};

verus! {

/// Idle time after which a user is away: 5 minutes.
pub const IDLE_THRESHOLD_MS: i64 = 300000;

/// How many activities a drive keeps.
pub const MAX_ACTIVITIES: usize = 200;

/// Presence status of a user.
#[derive(Clone, Copy, Debug, PartialEq, Eq, Structural)]
pub enum PresenceStatus {
    /// Actively connected.
    Online,
    /// Recently seen, may be idle.
    Away,
    /// Disconnected.
    Offline,
}

/// The name of a status, in lower case.
pub open spec fn status_name(s: PresenceStatus) -> Seq<char> {
    match s {
        PresenceStatus::Online => "online"@,
        PresenceStatus::Away => "away"@,
        PresenceStatus::Offline => "offline"@,
    }
}

/// A connected user.
#[derive(Debug)]
pub struct UserPresence {
    /// The user's node id.
    pub node_id: NodeId,
    /// Current status.
    pub status: PresenceStatus,
    /// When the user joined the drive.
    pub joined_at: i64,
    /// When the user was last seen.
    pub last_seen: i64,
    /// What the user is doing, if known.
    pub current_activity: Option<String>,
}

impl Clone for UserPresence {
    fn clone(&self) -> (r: UserPresence)
        ensures
            r == *self,
    {
        UserPresence {
            node_id: self.node_id,
            status: self.status,
            joined_at: self.joined_at,
            last_seen: self.last_seen,
            current_activity: crate::access::clone_opt_string(&self.current_activity),
        }
    }
}

/// The user after being idle-checked at `now`: away after 5 idle minutes.
pub open spec fn idle_checked(u: UserPresence, now: i64) -> UserPresence {
    if now - u.last_seen > IDLE_THRESHOLD_MS {
        UserPresence { status: PresenceStatus::Away, ..u }
    } else {
        u
    }
}

impl UserPresence {
    /// A user who joined at `now`.
    pub fn new_at(node_id: NodeId, now: i64) -> (u: UserPresence)
        ensures
            u == (UserPresence {
                node_id,
                status: PresenceStatus::Online,
                joined_at: now,
                last_seen: now,
                current_activity: None,
            }),
    {
        UserPresence {
            node_id,
            status: PresenceStatus::Online,
            joined_at: now,
            last_seen: now,
            current_activity: None,
        }
    }

    /// A user who joined now.
    pub fn new(node_id: NodeId) -> (u: UserPresence)
        ensures
            u.node_id == node_id,
            u.status == PresenceStatus::Online,
            u.joined_at == u.last_seen,
            u.current_activity is None,
            -INSTANT_BOUND < u.joined_at < INSTANT_BOUND,
    {
        Self::new_at(node_id, now_millis())
    }

    /// Seen at `now`: online again.
    pub fn touch_at(&mut self, now: i64)
        ensures
            *final(self) == (UserPresence {
                last_seen: now,
                status: PresenceStatus::Online,
                ..*old(self)
            }),
    {
        self.last_seen = now;
        self.status = PresenceStatus::Online;
    }

    /// Seen now.
    pub fn touch(&mut self)
        ensures
            final(self).status == PresenceStatus::Online,
            final(self).node_id == old(self).node_id,
            final(self).joined_at == old(self).joined_at,
            final(self).current_activity == old(self).current_activity,
            *final(self) == (UserPresence {
                last_seen: final(self).last_seen,
                status: PresenceStatus::Online,
                ..*old(self)
            }),
            -INSTANT_BOUND < final(self).last_seen < INSTANT_BOUND,
    {
        self.touch_at(now_millis());
    }

    /// Set what the user is doing, at `now` (it is seen then).
    pub fn set_activity_at(&mut self, activity: Option<String>, now: i64)
        ensures
            *final(self) == (UserPresence {
                current_activity: activity,
                last_seen: now,
                status: PresenceStatus::Online,
                ..*old(self)
            }),
    {
        self.current_activity = activity;
        self.touch_at(now);
    }

    /// Set what the user is doing, now.
    pub fn set_activity(&mut self, activity: Option<String>)
        ensures
            final(self).current_activity == activity,
            final(self).status == PresenceStatus::Online,
            final(self).node_id == old(self).node_id,
            *final(self) == (UserPresence {
                current_activity: activity,
                last_seen: final(self).last_seen,
                status: PresenceStatus::Online,
                ..*old(self)
            }),
            -INSTANT_BOUND < final(self).last_seen < INSTANT_BOUND,
    {
        self.set_activity_at(activity, now_millis());
    }

    /// Mark the user away if idle for more than 5 minutes at `now`.
    pub fn check_idle_at(&mut self, now: i64)
        ensures
            *final(self) == idle_checked(*old(self), now),
    {
        if (now as i128) - (self.last_seen as i128) > (IDLE_THRESHOLD_MS as i128) {
            self.status = PresenceStatus::Away;
        }
    }

    /// Mark the user away if idle for more than 5 minutes now.
    pub fn check_idle(&mut self)
        ensures
            final(self).node_id == old(self).node_id,
            final(self).last_seen == old(self).last_seen,
            final(self).status == old(self).status || final(self).status == PresenceStatus::Away,
            exists|now: i64|
                -INSTANT_BOUND < now < INSTANT_BOUND && *final(self) == idle_checked(*old(self), now),
    {
        let now = now_millis();
        self.check_idle_at(now);
        assert(*self == idle_checked(*old(self), now));
    }
}

/// A user's presence as the frontend is shown it.
#[derive(Clone, Debug)]
pub struct UserPresenceDto {
    pub node_id: String,
    pub short_id: String,
    pub status: String,
    pub joined_at: String,
    pub last_seen: String,
    pub current_activity: Option<String>,
    pub is_self: bool,
}

impl UserPresenceDto {
    /// The record of a user's presence, seen by `my_node_id`.
    pub fn from_presence(p: &UserPresence, my_node_id: &NodeId) -> (d: UserPresenceDto)
        ensures
            d.node_id@ == hex_encode(p.node_id.0@),
            d.short_id@ == short_hex(hex_encode(p.node_id.0@)),
            d.status@ == status_name(p.status),
            d.joined_at@ == rfc3339_text(p.joined_at),
            d.last_seen@ == rfc3339_text(p.last_seen),
            d.current_activity == p.current_activity,
            d.is_self == same_node(p.node_id, *my_node_id),
    {
        UserPresenceDto {
            node_id: p.node_id.to_hex(),
            short_id: p.node_id.short_string(),
            status: match p.status {
                PresenceStatus::Online => String::from_str("online"),
                PresenceStatus::Away => String::from_str("away"),
                PresenceStatus::Offline => String::from_str("offline"),
            },
            joined_at: rfc3339_or_empty(p.joined_at),
            last_seen: rfc3339_or_empty(p.last_seen),
            current_activity: crate::access::clone_opt_string(&p.current_activity),
            is_self: node_eq(&p.node_id, my_node_id),
        }
    }
}

/// Type of activity.
#[derive(Clone, Copy, Debug, PartialEq, Eq, Structural)]
pub enum ActivityType {
    FileCreated,
    FileModified,
    FileDeleted,
    FileRenamed,
    UserJoined,
    UserLeft,
    LockAcquired,
    LockReleased,
    ConflictDetected,
    ConflictResolved,
}

/// The name of an activity type.
pub open spec fn activity_name(t: ActivityType) -> Seq<char> {
    match t {
        ActivityType::FileCreated => "FileCreated"@,
        ActivityType::FileModified => "FileModified"@,
        ActivityType::FileDeleted => "FileDeleted"@,
        ActivityType::FileRenamed => "FileRenamed"@,
        ActivityType::UserJoined => "UserJoined"@,
        ActivityType::UserLeft => "UserLeft"@,
        ActivityType::LockAcquired => "LockAcquired"@,
        ActivityType::LockReleased => "LockReleased"@,
        ActivityType::ConflictDetected => "ConflictDetected"@,
        ActivityType::ConflictResolved => "ConflictResolved"@,
    }
}

impl ActivityType {
    /// The name of the activity type.
    pub fn name(&self) -> (s: &'static str)
        ensures
            s@ == activity_name(*self),
    {
        match self {
            ActivityType::FileCreated => "FileCreated",
            ActivityType::FileModified => "FileModified",
            ActivityType::FileDeleted => "FileDeleted",
            ActivityType::FileRenamed => "FileRenamed",
            ActivityType::UserJoined => "UserJoined",
            ActivityType::UserLeft => "UserLeft",
            ActivityType::LockAcquired => "LockAcquired",
            ActivityType::LockReleased => "LockReleased",
            ActivityType::ConflictDetected => "ConflictDetected",
            ActivityType::ConflictResolved => "ConflictResolved",
        }
    }
}

/// An activity in the feed.
#[derive(Debug)]
pub struct ActivityEntry {
    /// Unique id.
    pub id: String,
    /// Type of activity.
    pub activity_type: ActivityType,
    /// User who acted.
    pub user: NodeId,
    /// File path, if any.
    pub path: Option<String>,
    /// When it happened.
    pub timestamp: i64,
    /// Further details.
    pub details: Option<String>,
}

impl Clone for ActivityEntry {
    fn clone(&self) -> (r: ActivityEntry)
        ensures
            r == *self,
    {
        ActivityEntry {
            id: self.id.clone(),
            activity_type: self.activity_type,
            user: self.user,
            path: crate::access::clone_opt_string(&self.path),
            timestamp: self.timestamp,
            details: crate::access::clone_opt_string(&self.details),
        }
    }
}

/// An activity id: hex of the first 8 bytes of the BLAKE3 hash of a
/// nanosecond time (little-endian) and 8 random bytes.
pub open spec fn activity_id(nanos: i64, random: Seq<u8>) -> Seq<char> {
    hex_encode(blake3_hash_of(le_bytes(nanos as u64) + random).subrange(0, 8))
}

impl ActivityEntry {
    /// An activity at time `now` with the given id.
    pub fn new_at(activity_type: ActivityType, user: NodeId, id: String, now: i64) -> (e: ActivityEntry)
        ensures
            e == (ActivityEntry { id, activity_type, user, path: None, timestamp: now, details: None }),
    {
        ActivityEntry { id, activity_type, user, path: None, timestamp: now, details: None }
    }

    /// An activity now, with a fresh id.
    pub fn new(activity_type: ActivityType, user: NodeId) -> (e: ActivityEntry)
        ensures
            e.activity_type == activity_type,
            e.user == user,
            e.path is None,
            e.details is None,
            e.id@.len() == 16,
            -INSTANT_BOUND < e.timestamp < INSTANT_BOUND,
    {
        let id = Self::generate_id();
        Self::new_at(activity_type, user, id, now_millis())
    }

    /// A fresh activity id (see `activity_id`; a time outside 64-bit
    /// nanoseconds counts as 0).
    pub fn generate_id() -> (s: String)
        ensures
            s@.len() == 16,
            exists|n: i64, r: Seq<u8>| r.len() == 8 && s@ == activity_id(n, r),
    {
        let nanos = match now_nanos() {
            Some(n) => n,
            None => 0,
        };
        let random = random_bytes_8();
        let mut data = millis_le_bytes(nanos);
        extend_bytes(&mut data, &random);
        let h = blake3_hash(data.as_slice());
        let head = sub_bytes(&h, 0, 8);
        let s = encode(head.as_slice());
        assert(s@ == activity_id(nanos, random@));
        s
    }

    /// Set the path.
    pub fn with_path(self, path: String) -> (e: ActivityEntry)
        ensures
            e == (ActivityEntry { path: Some(path), ..self }),
    {
        ActivityEntry { path: Some(path), ..self }
    }

    /// Set the details.
    pub fn with_details(self, details: String) -> (e: ActivityEntry)
        ensures
            e == (ActivityEntry { details: Some(details), ..self }),
    {
        ActivityEntry { details: Some(details), ..self }
    }
}

/// An activity as the frontend is shown it.
#[derive(Clone, Debug)]
pub struct ActivityEntryDto {
    pub id: String,
    pub activity_type: String,
    pub user_id: String,
    pub user_short: String,
    pub path: Option<String>,
    pub timestamp: String,
    pub details: Option<String>,
    pub is_self: bool,
}

impl ActivityEntryDto {
    /// The record of an activity, seen by `my_node_id`.
    pub fn from_entry(e: &ActivityEntry, my_node_id: &NodeId) -> (d: ActivityEntryDto)
        ensures
            d.id@ == e.id@,
            d.activity_type@ == activity_name(e.activity_type),
            d.user_id@ == hex_encode(e.user.0@),
            d.user_short@ == short_hex(hex_encode(e.user.0@)),
            d.path == e.path,
            d.timestamp@ == rfc3339_text(e.timestamp),
            d.details == e.details,
            d.is_self == same_node(e.user, *my_node_id),
    {
        ActivityEntryDto {
            id: e.id.clone(),
            activity_type: String::from_str(e.activity_type.name()),
            user_id: e.user.to_hex(),
            user_short: e.user.short_string(),
            path: crate::access::clone_opt_string(&e.path),
            timestamp: rfc3339_or_empty(e.timestamp),
            details: crate::access::clone_opt_string(&e.details),
            is_self: node_eq(&e.user, my_node_id),
        }
    }
}

/// The users of a drive, by node id (bytes), and its activity feed.
#[derive(Debug)]
pub struct DrivePresenceManager {
    users: Vec<UserPresence>,
    activities: Vec<ActivityEntry>,
    max_activities: usize,
}

/// A relative path that starts with a `.` component (`.` alone or `./`),
/// which a path keeps as its first component.
pub open spec fn leading_cur_dir(s: Seq<char>) -> bool {
    !is_absolute(s) && (s == seq!['.'] || (s.len() >= 2 && s[0] == '.' && s[1] == '/'))
}

/// Two path strings name the same path component by component (`/`
/// separators, empty and inner `.` components dropped), as paths compare.
pub open spec fn same_path(a: Seq<char>, b: Seq<char>) -> bool {
    is_absolute(a) == is_absolute(b) && leading_cur_dir(a) == leading_cur_dir(b) && components(a)
        == components(b)
}

/// The activities of a feed about a path, in feed order.
pub open spec fn feed_for_path(f: Seq<ActivityEntry>, path: Seq<char>) -> Seq<ActivityEntry>
    decreases f.len(),
{
    if f.len() == 0 {
        Seq::empty()
    } else {
        let r = feed_for_path(f.drop_last(), path);
        if f.last().path matches Some(p) && same_path(p@, path) {
            r.push(f.last())
        } else {
            r
        }
    }
}

/// The activities of a feed by a user, in feed order.
pub open spec fn feed_for_user(f: Seq<ActivityEntry>, user: NodeId) -> Seq<ActivityEntry>
    decreases f.len(),
{
    if f.len() == 0 {
        Seq::empty()
    } else {
        let r = feed_for_user(f.drop_last(), user);
        if same_node(f.last().user, user) {
            r.push(f.last())
        } else {
            r
        }
    }
}

/// The first `n` items of a sequence (all of a shorter one).
pub open spec fn first_n<T>(s: Seq<T>, n: nat) -> Seq<T> {
    if s.len() <= n {
        s
    } else {
        s.take(n as int)
    }
}

/// Whether two path strings name the same path (see `same_path`).
pub fn paths_equal(a: &str, b: &str) -> (r: bool)
    ensures
        r == same_path(a@, b@),
{
    let ac = chars_of(a);
    let bc = chars_of(b);
    let abs_a = ac.len() > 0 && ac[0] == '/';
    let abs_b = bc.len() > 0 && bc[0] == '/';
    let cur_a = !abs_a && ((ac.len() == 1 && ac[0] == '.') || (ac.len() >= 2 && ac[0] == '.' && ac[1] == '/'));
    let cur_b = !abs_b && ((bc.len() == 1 && bc[0] == '.') || (bc.len() >= 2 && bc[0] == '.' && bc[1] == '/'));
    assert(cur_a == leading_cur_dir(a@)) by {
        if ac@.len() == 1 && ac@[0] == '.' {
            assert(ac@ =~= seq!['.']);
        }
    }
    assert(cur_b == leading_cur_dir(b@)) by {
        if bc@.len() == 1 && bc@[0] == '.' {
            assert(bc@ =~= seq!['.']);
        }
    }
    let pa = path_components(ac.as_slice());
    let pb = path_components(bc.as_slice());
    let same = pa.len() == pb.len() && components_prefix(&pa, &pb);
    proof {
        let av = pa@.map_values(|v: Vec<char>| v@);
        let bv = pb@.map_values(|v: Vec<char>| v@);
        assert(bv.subrange(0, bv.len() as int) =~= bv);
        assert(av.len() == pa@.len() && bv.len() == pb@.len());
        assert(same == (av == bv));
        assert(abs_a == is_absolute(a@));
        assert(abs_b == is_absolute(b@));
    }
    abs_a == abs_b && cur_a == cur_b && same
}

/// The node ids of a user list.
pub open spec fn user_ids(s: Seq<UserPresence>) -> Seq<Seq<u8>> {
    s.map_values(|u: UserPresence| u.node_id.0@)
}

/// The feed after an activity is added: newest first, at most `max` kept.
pub open spec fn feed_after(feed: Seq<ActivityEntry>, e: ActivityEntry, max: nat) -> Seq<ActivityEntry> {
    let f = seq![e] + feed;
    if f.len() > max {
        f.subrange(0, max as int)
    } else {
        f
    }
}

/// A user joins a drive (users and feed before, then after): a user already
/// there is seen again (online, last seen `now`) and the feed is unchanged;
/// a new user is added and announced in the feed with the given id.
pub open spec fn after_join(
    u0: Seq<UserPresence>,
    f0: Seq<ActivityEntry>,
    u1: Seq<UserPresence>,
    f1: Seq<ActivityEntry>,
    node_id: NodeId,
    now: i64,
    activity_id: String,
) -> bool {
    &&& user_ids(u0).contains(node_id.0@) ==> f1 == f0 && exists|i: int|
        0 <= i < u0.len() && u0[i].node_id.0@ == node_id.0@ && u1 == u0.update(
            i,
            UserPresence { last_seen: now, status: PresenceStatus::Online, ..u0[i] },
        )
    &&& !user_ids(u0).contains(node_id.0@) ==> u1 == u0.push(UserPresence::new_spec(node_id, now))
        && f1 == feed_after(
        f0,
        ActivityEntry {
            id: activity_id,
            activity_type: ActivityType::UserJoined,
            user: node_id,
            path: None,
            timestamp: now,
            details: None,
        },
        MAX_ACTIVITIES as nat,
    )
}

/// A user is seen at `now` (users before, then after): a user not there
/// changes nothing; a user there is online again, last seen `now`.
pub open spec fn after_heartbeat(u0: Seq<UserPresence>, u1: Seq<UserPresence>, node_id: NodeId, now: i64) -> bool {
    &&& !user_ids(u0).contains(node_id.0@) ==> u1 == u0
    &&& user_ids(u0).contains(node_id.0@) ==> exists|i: int|
        0 <= i < u0.len() && u0[i].node_id.0@ == node_id.0@ && u1 == u0.update(
            i,
            UserPresence { last_seen: now, status: PresenceStatus::Online, ..u0[i] },
        )
}

/// Users after an idle check at `now`.
pub open spec fn all_idle_checked(u0: Seq<UserPresence>, u1: Seq<UserPresence>, now: i64) -> bool {
    u1 == u0.map_values(|u: UserPresence| idle_checked(u, now))
}

/// A user leaves a drive (users and feed before, then after): the user is no
/// longer there, every other user stays, and the departure is announced in
/// the feed with the given id.
pub open spec fn after_leave(
    u0: Seq<UserPresence>,
    f0: Seq<ActivityEntry>,
    u1: Seq<UserPresence>,
    f1: Seq<ActivityEntry>,
    node_id: NodeId,
    now: i64,
    activity_id: String,
) -> bool {
    &&& !user_ids(u1).contains(node_id.0@)
    &&& forall|u: UserPresence| u.node_id.0@ != node_id.0@ ==> (u1.contains(u) <==> u0.contains(u))
    &&& f1 == feed_after(
        f0,
        ActivityEntry {
            id: activity_id,
            activity_type: ActivityType::UserLeft,
            user: node_id,
            path: None,
            timestamp: now,
            details: None,
        },
        MAX_ACTIVITIES as nat,
    )
}

impl DrivePresenceManager {
    /// One entry per user; the feed is bounded.
    pub closed spec fn wf(&self) -> bool {
        &&& user_ids(self.users@).no_duplicates()
        &&& self.activities@.len() <= self.max_activities
        &&& self.max_activities == MAX_ACTIVITIES
    }

    /// The users present.
    pub closed spec fn users_view(&self) -> Seq<UserPresence> {
        self.users@
    }

    /// The activity feed, newest first.
    pub closed spec fn feed_view(&self) -> Seq<ActivityEntry> {
        self.activities@
    }

    /// No users, an empty feed.
    pub fn new() -> (m: DrivePresenceManager)
        ensures
            m.wf(),
            m.users_view() == Seq::<UserPresence>::empty(),
            m.feed_view() == Seq::<ActivityEntry>::empty(),
    {
        DrivePresenceManager { users: Vec::new(), activities: Vec::new(), max_activities: MAX_ACTIVITIES }
    }

    fn user_index(&self, node_id: &NodeId) -> (r: Option<usize>)
        ensures
            r matches Some(i) ==> i < self.users@.len() && self.users@[i as int].node_id.0@
                == node_id.0@,
            r is None ==> !user_ids(self.users@).contains(node_id.0@),
    {
        let mut i: usize = 0;
        while i < self.users.len()
            invariant
                i <= self.users@.len(),
                forall|j: int| 0 <= j < i ==> self.users@[j].node_id.0@ != node_id.0@,
            decreases self.users@.len() - i,
        {
            if node_eq(&self.users[i].node_id, node_id) {
                return Some(i);
            }
            i = i + 1;
        }
        proof {
            if user_ids(self.users@).contains(node_id.0@) {
                let j = choose|j: int|
                    0 <= j < user_ids(self.users@).len() && user_ids(self.users@)[j] == node_id.0@;
                assert(self.users@[j].node_id.0@ == node_id.0@);
            }
        }
        None
    }

    /// Add an activity (newest first; the oldest beyond 200 are dropped).
    pub fn add_activity(&mut self, entry: ActivityEntry)
        requires
            old(self).wf(),
        ensures
            final(self).wf(),
            final(self).feed_view() == feed_after(old(self).feed_view(), entry, MAX_ACTIVITIES as nat),
            final(self).users_view() == old(self).users_view(),
    {
        let ghost before = self.activities@;
        let ghost e = entry;
        self.activities.insert(0, entry);
        assert(self.activities@ =~= seq![e] + before);
        if self.activities.len() > self.max_activities {
            self.activities.truncate(self.max_activities);
            assert(self.activities@ =~= (seq![e] + before).subrange(0, MAX_ACTIVITIES as int));
        }
    }

    /// A user joins (or is seen again) at `now`; a user new to the drive
    /// is announced in the feed with the given activity id.
    pub fn user_joined_at(&mut self, node_id: NodeId, now: i64, activity_id: String)
        requires
            old(self).wf(),
        ensures
            final(self).wf(),
            after_join(
                old(self).users_view(),
                old(self).feed_view(),
                final(self).users_view(),
                final(self).feed_view(),
                node_id,
                now,
                activity_id,
            ),
    {
        match self.user_index(&node_id) {
            Some(i) => {
                assert(user_ids(self.users@)[i as int] == node_id.0@);
                assert(user_ids(self.users@).contains(node_id.0@));
                let mut u = self.users[i].clone();
                u.touch_at(now);
                let ghost before = self.users@;
                self.users.set(i, u);
                proof {
                    assert(user_ids(self.users@) =~= user_ids(before));
                }
            },
            None => {
                let ghost before = self.users@;
                self.users.push(UserPresence::new_at(node_id, now));
                proof {
                    assert(user_ids(self.users@) =~= user_ids(before).push(node_id.0@));
                    crate::access::lemma_push_no_duplicates(user_ids(before), node_id.0@);
                }
                self.add_activity(ActivityEntry::new_at(ActivityType::UserJoined, node_id, activity_id, now));
            },
        }
    }

    /// A user leaves at `now`; the departure is announced in the feed with
    /// the given activity id.
    pub fn user_left_at(&mut self, node_id: NodeId, now: i64, activity_id: String)
        requires
            old(self).wf(),
        ensures
            final(self).wf(),
            after_leave(
                old(self).users_view(),
                old(self).feed_view(),
                final(self).users_view(),
                final(self).feed_view(),
                node_id,
                now,
                activity_id,
            ),
    {
        match self.user_index(&node_id) {
            Some(i) => {
                let ghost before = self.users@;
                self.users.remove(i);
                proof {
                    assert(self.users@ == before.remove(i as int));
                    assert(user_ids(self.users@) =~= user_ids(before).remove(i as int));
                    assert(!user_ids(self.users@).contains(node_id.0@)) by {
                        if user_ids(self.users@).contains(node_id.0@) {
                            let j = choose|j: int|
                                0 <= j < user_ids(self.users@).len() && user_ids(self.users@)[j]
                                    == node_id.0@;
                            if j < i {
                                assert(user_ids(before)[j] == user_ids(before)[i as int]);
                            } else {
                                assert(user_ids(before)[j + 1] == user_ids(before)[i as int]);
                            }
                        }
                    }
                    assert forall|u: UserPresence|
                        u.node_id.0@ != node_id.0@ implies (self.users@.contains(u) <==> before.contains(
                        u,
                    )) by {
                        if before.contains(u) {
                            let j = choose|j: int| 0 <= j < before.len() && before[j] == u;
                            if j < i {
                                assert(self.users@[j] == u);
                            } else if j > i {
                                assert(self.users@[j - 1] == u);
                            }
                        }
                        if self.users@.contains(u) {
                            let j = choose|j: int| 0 <= j < self.users@.len() && self.users@[j] == u;
                            if j < i {
                                assert(before[j] == u);
                            } else {
                                assert(before[j + 1] == u);
                            }
                        }
                    }
                    assert forall|a: int, b: int|
                        0 <= a < user_ids(self.users@).len() && 0 <= b < user_ids(self.users@).len()
                            && a != b implies user_ids(self.users@)[a] != user_ids(self.users@)[b] by {
                        let a2 = if a < i { a } else { a + 1 };
                        let b2 = if b < i { b } else { b + 1 };
                        assert(user_ids(self.users@)[a] == user_ids(before)[a2]);
                        assert(user_ids(self.users@)[b] == user_ids(before)[b2]);
                    }
                }
            },
            None => {},
        }
        self.add_activity(ActivityEntry::new_at(ActivityType::UserLeft, node_id, activity_id, now));
    }

    /// A user is seen at `now` (if present).
    pub fn user_heartbeat_at(&mut self, node_id: &NodeId, now: i64)
        requires
            old(self).wf(),
        ensures
            final(self).wf(),
            final(self).feed_view() == old(self).feed_view(),
            !user_ids(old(self).users_view()).contains(node_id.0@) ==> final(self).users_view() == old(self).users_view(),
            user_ids(old(self).users_view()).contains(node_id.0@) ==> exists|i: int|
                0 <= i < old(self).users_view().len() && old(self).users_view()[i].node_id.0@
                    == node_id.0@ && final(self).users_view() == old(self).users_view().update(
                    i,
                    UserPresence {
                        last_seen: now,
                        status: PresenceStatus::Online,
                        ..old(self).users_view()[i]
                    },
                ),
    {
        match self.user_index(node_id) {
            Some(i) => {
                assert(user_ids(self.users@)[i as int] == node_id.0@);
                assert(user_ids(self.users@).contains(node_id.0@));
                let mut u = self.users[i].clone();
                u.touch_at(now);
                let ghost before = self.users@;
                self.users.set(i, u);
                proof {
                    assert(user_ids(self.users@) =~= user_ids(before));
                }
            },
            None => {},
        }
    }

    /// A user joins now (see `user_joined_at`), announced with a fresh id.
    pub fn user_joined(&mut self, node_id: NodeId)
        requires
            old(self).wf(),
        ensures
            final(self).wf(),
            exists|now: i64, id: String|
                -INSTANT_BOUND < now < INSTANT_BOUND && id@.len() == 16 && after_join(
                    old(self).users_view(),
                    old(self).feed_view(),
                    final(self).users_view(),
                    final(self).feed_view(),
                    node_id,
                    now,
                    id,
                ),
    {
        let now = now_millis();
        let id = ActivityEntry::generate_id();
        let ghost g = id;
        self.user_joined_at(node_id, now, id);
        assert(after_join(
            old(self).users_view(),
            old(self).feed_view(),
            self.users_view(),
            self.feed_view(),
            node_id,
            now,
            g,
        ));
    }

    /// A user leaves now (see `user_left_at`), announced with a fresh id.
    pub fn user_left(&mut self, node_id: NodeId)
        requires
            old(self).wf(),
        ensures
            final(self).wf(),
            exists|now: i64, id: String|
                -INSTANT_BOUND < now < INSTANT_BOUND && id@.len() == 16 && after_leave(
                    old(self).users_view(),
                    old(self).feed_view(),
                    final(self).users_view(),
                    final(self).feed_view(),
                    node_id,
                    now,
                    id,
                ),
    {
        let now = now_millis();
        let id = ActivityEntry::generate_id();
        let ghost g = id;
        self.user_left_at(node_id, now, id);
        assert(after_leave(
            old(self).users_view(),
            old(self).feed_view(),
            self.users_view(),
            self.feed_view(),
            node_id,
            now,
            g,
        ));
    }

    /// A user is seen now (if present; see `user_heartbeat_at`).
    pub fn user_heartbeat(&mut self, node_id: &NodeId)
        requires
            old(self).wf(),
        ensures
            final(self).wf(),
            final(self).feed_view() == old(self).feed_view(),
            exists|now: i64|
                -INSTANT_BOUND < now < INSTANT_BOUND && after_heartbeat(
                    old(self).users_view(),
                    final(self).users_view(),
                    *node_id,
                    now,
                ),
    {
        let now = now_millis();
        self.user_heartbeat_at(node_id, now);
        assert(after_heartbeat(old(self).users_view(), self.users_view(), *node_id, now));
    }

    /// Mark the users idle for 5 minutes away, now.
    pub fn check_idle_users(&mut self)
        requires
            old(self).wf(),
        ensures
            final(self).wf(),
            final(self).feed_view() == old(self).feed_view(),
            exists|now: i64|
                -INSTANT_BOUND < now < INSTANT_BOUND && all_idle_checked(
                    old(self).users_view(),
                    final(self).users_view(),
                    now,
                ),
    {
        let now = now_millis();
        self.check_idle_users_at(now);
        assert(all_idle_checked(old(self).users_view(), self.users_view(), now));
    }

    /// The users present.
    pub fn online_users(&self) -> (v: Vec<UserPresence>)
        ensures
            v@ == self.users_view(),
    {
        let mut v: Vec<UserPresence> = Vec::new();
        let mut i: usize = 0;
        while i < self.users.len()
            invariant
                i <= self.users@.len(),
                v@ == self.users@.subrange(0, i as int),
            decreases self.users@.len() - i,
        {
            v.push(self.users[i].clone());
            i = i + 1;
            assert(v@ =~= self.users@.subrange(0, i as int));
        }
        assert(self.users@.subrange(0, self.users@.len() as int) =~= self.users@);
        v
    }

    /// The number of users present.
    pub fn online_count(&self) -> (n: usize)
        ensures
            n == self.users_view().len(),
    {
        self.users.len()
    }

    /// The newest `limit` activities.
    pub fn recent_activities(&self, limit: usize) -> (v: Vec<ActivityEntry>)
        ensures
            v@ == self.feed_view().subrange(
                0,
                if limit < self.feed_view().len() {
                    limit as int
                } else {
                    self.feed_view().len() as int
                },
            ),
    {
        let n = if limit < self.activities.len() {
            limit
        } else {
            self.activities.len()
        };
        let mut v: Vec<ActivityEntry> = Vec::new();
        let mut i: usize = 0;
        while i < n
            invariant
                n <= self.activities@.len(),
                i <= n,
                v@ == self.activities@.subrange(0, i as int),
            decreases n - i,
        {
            v.push(self.activities[i].clone());
            i = i + 1;
            assert(v@ =~= self.activities@.subrange(0, i as int));
        }
        v
    }

    /// The newest `limit` activities about a path.
    pub fn activities_for_path(&self, path: &str, limit: usize) -> (v: Vec<ActivityEntry>)
        ensures
            v@ == first_n(feed_for_path(self.feed_view(), path@), limit as nat),
    {
        let mut v: Vec<ActivityEntry> = Vec::new();
        let mut i: usize = 0;
        while i < self.activities.len()
            invariant
                i <= self.activities@.len(),
                v@ == first_n(feed_for_path(self.activities@.subrange(0, i as int), path@), limit as nat),
            decreases self.activities@.len() - i,
        {
            let ghost f = feed_for_path(self.activities@.subrange(0, i as int), path@);
            let e = &self.activities[i];
            let hit = match &e.path {
                Some(p) => paths_equal(p.as_str(), path),
                None => false,
            };
            assert(self.activities@.subrange(0, i + 1).drop_last() =~= self.activities@.subrange(0, i as int));
            if hit && v.len() < limit {
                v.push(e.clone());
                assert(v@ =~= first_n(f.push(self.activities@[i as int]), limit as nat));
            } else if hit {
                assert(first_n(f.push(self.activities@[i as int]), limit as nat) =~= first_n(f, limit as nat));
            }
            i = i + 1;
        }
        assert(self.activities@.subrange(0, self.activities@.len() as int) =~= self.activities@);
        v
    }

    /// The newest `limit` activities of a user.
    pub fn activities_for_user(&self, user: &NodeId, limit: usize) -> (v: Vec<ActivityEntry>)
        ensures
            v@ == first_n(feed_for_user(self.feed_view(), *user), limit as nat),
    {
        let mut v: Vec<ActivityEntry> = Vec::new();
        let mut i: usize = 0;
        while i < self.activities.len()
            invariant
                i <= self.activities@.len(),
                v@ == first_n(feed_for_user(self.activities@.subrange(0, i as int), *user), limit as nat),
            decreases self.activities@.len() - i,
        {
            let ghost f = feed_for_user(self.activities@.subrange(0, i as int), *user);
            let e = &self.activities[i];
            let hit = node_eq(&e.user, user);
            assert(self.activities@.subrange(0, i + 1).drop_last() =~= self.activities@.subrange(0, i as int));
            if hit && v.len() < limit {
                v.push(e.clone());
                assert(v@ =~= first_n(f.push(self.activities@[i as int]), limit as nat));
            } else if hit {
                assert(first_n(f.push(self.activities@[i as int]), limit as nat) =~= first_n(f, limit as nat));
            }
            i = i + 1;
        }
        assert(self.activities@.subrange(0, self.activities@.len() as int) =~= self.activities@);
        v
    }

    /// Mark idle users away at `now`.
    pub fn check_idle_users_at(&mut self, now: i64)
        requires
            old(self).wf(),
        ensures
            final(self).wf(),
            final(self).feed_view() == old(self).feed_view(),
            final(self).users_view() == old(self).users_view().map_values(
                |u: UserPresence| idle_checked(u, now),
            ),
    {
        let ghost before = self.users@;
        let mut i: usize = 0;
        while i < self.users.len()
            invariant
                self.wf(),
                self.activities@ == old(self).activities@,
                self.max_activities == old(self).max_activities,
                self.users@.len() == before.len(),
                user_ids(self.users@) == user_ids(before),
                i <= before.len(),
                forall|j: int| 0 <= j < i ==> self.users@[j] == idle_checked(before[j], now),
                forall|j: int| i <= j < before.len() ==> self.users@[j] == before[j],
            decreases before.len() - i,
        {
            let mut u = self.users[i].clone();
            u.check_idle_at(now);
            let ghost prev = self.users@;
            self.users.set(i, u);
            proof {
                assert(user_ids(self.users@) =~= user_ids(prev));
            }
            i = i + 1;
        }
        assert(self.users@ =~= before.map_values(|u: UserPresence| idle_checked(u, now)));
    }

    /// Drop activities at or before `cutoff`; returns how many were dropped.
    pub fn cleanup_old_activities(&mut self, cutoff: i64) -> (n: usize)
        requires
            old(self).wf(),
        ensures
            final(self).wf(),
            final(self).feed_view() == old(self).feed_view().filter(
                |e: ActivityEntry| e.timestamp > cutoff,
            ),
            final(self).users_view() == old(self).users_view(),
            n == old(self).feed_view().len() - final(self).feed_view().len(),
    {
        let ghost old_f = self.activities@;
        let mut kept: Vec<ActivityEntry> = Vec::new();
        let mut i: usize = 0;
        while i < self.activities.len()
            invariant
                old_f == self.activities@,
                i <= old_f.len(),
                kept@ == old_f.subrange(0, i as int).filter(|e: ActivityEntry| e.timestamp > cutoff),
                kept@.len() <= i,
            decreases old_f.len() - i,
        {
            assert(old_f.subrange(0, i + 1).drop_last() =~= old_f.subrange(0, i as int));
            proof {
                reveal(Seq::filter);
            }
            if self.activities[i].timestamp > cutoff {
                kept.push(self.activities[i].clone());
            }
            i = i + 1;
        }
        assert(old_f.subrange(0, old_f.len() as int) =~= old_f);
        let n = self.activities.len() - kept.len();
        self.activities = kept;
        n
    }
}

impl UserPresence {
    /// A user who joined at `now`.
    pub open spec fn new_spec(node_id: NodeId, now: i64) -> UserPresence {
        UserPresence {
            node_id,
            status: PresenceStatus::Online,
            joined_at: now,
            last_seen: now,
            current_activity: None,
        }
    }
}

/// An added activity is the newest in the feed, and the feed never holds
/// more than its bound.
pub proof fn law_feed_newest_first(feed: Seq<ActivityEntry>, e: ActivityEntry)
    requires
        feed.len() <= MAX_ACTIVITIES,
    ensures
        feed_after(feed, e, MAX_ACTIVITIES as nat)[0] == e,
        feed_after(feed, e, MAX_ACTIVITIES as nat).len() <= MAX_ACTIVITIES,
        feed.len() < MAX_ACTIVITIES ==> feed_after(feed, e, MAX_ACTIVITIES as nat).len() == feed.len()
            + 1,
{
}

/// Every drive's presence manager of a list is well formed.
pub open spec fn presence_managers_wf(s: Seq<(String, DrivePresenceManager)>) -> bool {
    forall|i: int| 0 <= i < s.len() ==> (#[trigger] s[i]).1.wf()
}

proof fn lemma_presence_managers_sub(
    old: Seq<(String, DrivePresenceManager)>,
    new: Seq<(String, DrivePresenceManager)>,
)
    requires
        presence_managers_wf(old),
        forall|j: int| 0 <= j < new.len() ==> old.contains(#[trigger] new[j]),
    ensures
        presence_managers_wf(new),
{
    assert forall|j: int| 0 <= j < new.len() implies (#[trigger] new[j]).1.wf() by {
        assert(old.contains(new[j]));
        let m = choose|m: int| 0 <= m < old.len() && old[m] == new[j];
        assert(old[m].1.wf());
    }
}

proof fn lemma_presence_managers_insert(
    old: Seq<(String, DrivePresenceManager)>,
    new: Seq<(String, DrivePresenceManager)>,
    key: Seq<char>,
    m: DrivePresenceManager,
)
    requires
        presence_managers_wf(old),
        m.wf(),
        forall|j: int|
            0 <= j < new.len() ==> old.contains(#[trigger] new[j]) || (new[j].0@ == key && new[j].1
                == m),
    ensures
        presence_managers_wf(new),
{
    assert forall|j: int| 0 <= j < new.len() implies (#[trigger] new[j]).1.wf() by {
        if old.contains(new[j]) {
            let k = choose|k: int| 0 <= k < old.len() && old[k] == new[j];
            assert(old[k].1.wf());
        }
    }
}

/// The activities a cleanup at `cutoff` drops from a feed.
pub open spec fn feed_removed(f: Seq<ActivityEntry>, cutoff: i64) -> nat {
    (f.len() - f.filter(|e: ActivityEntry| e.timestamp > cutoff).len()) as nat
}

/// The users of a list who are not online.
pub open spec fn not_online(u: Seq<UserPresence>) -> nat {
    u.filter(|p: UserPresence| p.status != PresenceStatus::Online).len()
}

/// Presence on every drive (by drive id, hex), and this node's id.
#[derive(Debug)]
pub struct PresenceManager {
    drives: Vec<(String, DrivePresenceManager)>,
    node_id: NodeId,
}

impl PresenceManager {
    /// One manager per drive, each well formed.
    pub closed spec fn wf(&self) -> bool {
        assoc_wf(self.drives@) && presence_managers_wf(self.drives@)
    }

    /// The drives presence is kept for.
    pub closed spec fn drive_ids(&self) -> Set<Seq<char>> {
        assoc_map(self.drives@).dom()
    }

    /// The users present on a drive (none on a drive not known).
    pub closed spec fn users_of(&self, drive_id: Seq<char>) -> Seq<UserPresence> {
        if assoc_map(self.drives@).dom().contains(drive_id) {
            assoc_map(self.drives@)[drive_id].users_view()
        } else {
            Seq::empty()
        }
    }

    /// The activity feed of a drive, newest first (empty on a drive not
    /// known).
    pub closed spec fn feed_of(&self, drive_id: Seq<char>) -> Seq<ActivityEntry> {
        if assoc_map(self.drives@).dom().contains(drive_id) {
            assoc_map(self.drives@)[drive_id].feed_view()
        } else {
            Seq::empty()
        }
    }

    /// This node's id.
    pub closed spec fn node_view(&self) -> NodeId {
        self.node_id
    }

    /// No drives yet.
    pub fn new(node_id: NodeId) -> (m: PresenceManager)
        ensures
            m.wf(),
            m.node_view() == node_id,
            m.drive_ids() == Set::<Seq<char>>::empty(),
    {
        let m = PresenceManager { drives: Vec::new(), node_id };
        assert(m.drive_ids() =~= Set::<Seq<char>>::empty());
        m
    }

    /// This node's id.
    pub fn node_id(&self) -> (n: &NodeId)
        ensures
            *n == self.node_view(),
    {
        &self.node_id
    }

    fn take_drive(&mut self, drive_id: &str) -> (m: DrivePresenceManager)
        requires
            old(self).wf(),
        ensures
            final(self).wf(),
            m.wf(),
            m.users_view() == old(self).users_of(drive_id@),
            m.feed_view() == old(self).feed_of(drive_id@),
            final(self).node_view() == old(self).node_view(),
            final(self).drive_ids() == old(self).drive_ids().remove(drive_id@),
            forall|d: Seq<char>| d != drive_id@ ==> #[trigger] final(self).users_of(d) == old(self).users_of(d),
            forall|d: Seq<char>| d != drive_id@ ==> #[trigger] final(self).feed_of(d) == old(self).feed_of(d),
    {
        proof {
            if assoc_map(self.drives@).dom().contains(drive_id@) {
                let i = lemma_assoc_index(self.drives@, drive_id@);
            }
        }
        let ghost before = self.drives@;
        let r = assoc_remove(&mut self.drives, drive_id);
        proof {
            lemma_presence_managers_sub(before, self.drives@);
        }
        match r {
            Some(m) => m,
            None => DrivePresenceManager::new(),
        }
    }

    fn put_drive(&mut self, drive_id: &str, m: DrivePresenceManager)
        requires
            old(self).wf(),
            m.wf(),
        ensures
            final(self).wf(),
            final(self).users_of(drive_id@) == m.users_view(),
            final(self).feed_of(drive_id@) == m.feed_view(),
            final(self).node_view() == old(self).node_view(),
            final(self).drive_ids() == old(self).drive_ids().insert(drive_id@),
            forall|d: Seq<char>| d != drive_id@ ==> #[trigger] final(self).users_of(d) == old(self).users_of(d),
            forall|d: Seq<char>| d != drive_id@ ==> #[trigger] final(self).feed_of(d) == old(self).feed_of(d),
    {
        let ghost before = self.drives@;
        let ghost mm = m;
        assoc_insert(&mut self.drives, drive_id, m);
        proof {
            lemma_presence_managers_insert(before, self.drives@, drive_id@, mm);
        }
    }

    /// This node joins a drive at `now` (see `after_join`); the drive is
    /// kept from then on.
    pub fn join_drive_at(&mut self, drive_id: &str, now: i64, activity_id: String)
        requires
            old(self).wf(),
        ensures
            final(self).wf(),
            final(self).node_view() == old(self).node_view(),
            final(self).drive_ids() == old(self).drive_ids().insert(drive_id@),
            after_join(
                old(self).users_of(drive_id@),
                old(self).feed_of(drive_id@),
                final(self).users_of(drive_id@),
                final(self).feed_of(drive_id@),
                old(self).node_view(),
                now,
                activity_id,
            ),
            forall|d: Seq<char>| d != drive_id@ ==> #[trigger] final(self).users_of(d) == old(self).users_of(d),
            forall|d: Seq<char>| d != drive_id@ ==> #[trigger] final(self).feed_of(d) == old(self).feed_of(d),
    {
        let mut m = self.take_drive(drive_id);
        m.user_joined_at(self.node_id, now, activity_id);
        self.put_drive(drive_id, m);
    }

    /// This node leaves a drive at `now` (see `after_leave`).
    pub fn leave_drive_at(&mut self, drive_id: &str, now: i64, activity_id: String)
        requires
            old(self).wf(),
        ensures
            final(self).wf(),
            final(self).node_view() == old(self).node_view(),
            final(self).drive_ids() == old(self).drive_ids().insert(drive_id@),
            after_leave(
                old(self).users_of(drive_id@),
                old(self).feed_of(drive_id@),
                final(self).users_of(drive_id@),
                final(self).feed_of(drive_id@),
                old(self).node_view(),
                now,
                activity_id,
            ),
            forall|d: Seq<char>| d != drive_id@ ==> #[trigger] final(self).users_of(d) == old(self).users_of(d),
            forall|d: Seq<char>| d != drive_id@ ==> #[trigger] final(self).feed_of(d) == old(self).feed_of(d),
    {
        let mut m = self.take_drive(drive_id);
        m.user_left_at(self.node_id, now, activity_id);
        self.put_drive(drive_id, m);
    }

    /// This node joins a drive now, announced with a fresh id.
    pub fn join_drive(&mut self, drive_id: &str)
        requires
            old(self).wf(),
        ensures
            final(self).wf(),
            final(self).node_view() == old(self).node_view(),
            exists|now: i64, id: String|
                -INSTANT_BOUND < now < INSTANT_BOUND && id@.len() == 16 && after_join(
                    old(self).users_of(drive_id@),
                    old(self).feed_of(drive_id@),
                    final(self).users_of(drive_id@),
                    final(self).feed_of(drive_id@),
                    old(self).node_view(),
                    now,
                    id,
                ),
    {
        let now = now_millis();
        let id = ActivityEntry::generate_id();
        let ghost g = id;
        self.join_drive_at(drive_id, now, id);
        assert(after_join(
            old(self).users_of(drive_id@),
            old(self).feed_of(drive_id@),
            self.users_of(drive_id@),
            self.feed_of(drive_id@),
            old(self).node_view(),
            now,
            g,
        ));
    }

    /// This node leaves a drive now, announced with a fresh id.
    pub fn leave_drive(&mut self, drive_id: &str)
        requires
            old(self).wf(),
        ensures
            final(self).wf(),
            final(self).node_view() == old(self).node_view(),
            exists|now: i64, id: String|
                -INSTANT_BOUND < now < INSTANT_BOUND && id@.len() == 16 && after_leave(
                    old(self).users_of(drive_id@),
                    old(self).feed_of(drive_id@),
                    final(self).users_of(drive_id@),
                    final(self).feed_of(drive_id@),
                    old(self).node_view(),
                    now,
                    id,
                ),
    {
        let now = now_millis();
        let id = ActivityEntry::generate_id();
        let ghost g = id;
        self.leave_drive_at(drive_id, now, id);
        assert(after_leave(
            old(self).users_of(drive_id@),
            old(self).feed_of(drive_id@),
            self.users_of(drive_id@),
            self.feed_of(drive_id@),
            old(self).node_view(),
            now,
            g,
        ));
    }

    /// The users present on a drive (the drive is kept from then on).
    pub fn get_online_users(&mut self, drive_id: &str) -> (v: Vec<UserPresence>)
        requires
            old(self).wf(),
        ensures
            final(self).wf(),
            v@ == old(self).users_of(drive_id@),
            final(self).node_view() == old(self).node_view(),
            final(self).drive_ids() == old(self).drive_ids().insert(drive_id@),
            forall|d: Seq<char>| #[trigger] final(self).users_of(d) == old(self).users_of(d),
            forall|d: Seq<char>| #[trigger] final(self).feed_of(d) == old(self).feed_of(d),
    {
        let m = self.take_drive(drive_id);
        let v = m.online_users();
        self.put_drive(drive_id, m);
        v
    }

    /// The newest `limit` activities of a drive (the drive is kept from then
    /// on).
    pub fn get_recent_activity(&mut self, drive_id: &str, limit: usize) -> (v: Vec<ActivityEntry>)
        requires
            old(self).wf(),
        ensures
            final(self).wf(),
            v@ == old(self).feed_of(drive_id@).subrange(
                0,
                if limit < old(self).feed_of(drive_id@).len() {
                    limit as int
                } else {
                    old(self).feed_of(drive_id@).len() as int
                },
            ),
            final(self).node_view() == old(self).node_view(),
            final(self).drive_ids() == old(self).drive_ids().insert(drive_id@),
            forall|d: Seq<char>| #[trigger] final(self).users_of(d) == old(self).users_of(d),
            forall|d: Seq<char>| #[trigger] final(self).feed_of(d) == old(self).feed_of(d),
    {
        let m = self.take_drive(drive_id);
        let v = m.recent_activities(limit);
        self.put_drive(drive_id, m);
        v
    }

    /// The number of users present on a drive (the drive is kept from then
    /// on).
    pub fn online_count(&mut self, drive_id: &str) -> (n: usize)
        requires
            old(self).wf(),
        ensures
            final(self).wf(),
            n == old(self).users_of(drive_id@).len(),
            final(self).node_view() == old(self).node_view(),
            final(self).drive_ids() == old(self).drive_ids().insert(drive_id@),
            forall|d: Seq<char>| #[trigger] final(self).users_of(d) == old(self).users_of(d),
            forall|d: Seq<char>| #[trigger] final(self).feed_of(d) == old(self).feed_of(d),
    {
        let m = self.take_drive(drive_id);
        let n = m.online_count();
        self.put_drive(drive_id, m);
        n
    }

    /// This node is seen on a drive at `now` (see `after_heartbeat`).
    pub fn heartbeat_at(&mut self, drive_id: &str, now: i64)
        requires
            old(self).wf(),
        ensures
            final(self).wf(),
            final(self).node_view() == old(self).node_view(),
            final(self).drive_ids() == old(self).drive_ids().insert(drive_id@),
            after_heartbeat(
                old(self).users_of(drive_id@),
                final(self).users_of(drive_id@),
                old(self).node_view(),
                now,
            ),
            forall|d: Seq<char>| d != drive_id@ ==> #[trigger] final(self).users_of(d) == old(self).users_of(d),
            forall|d: Seq<char>| #[trigger] final(self).feed_of(d) == old(self).feed_of(d),
    {
        let mut m = self.take_drive(drive_id);
        let node = self.node_id;
        m.user_heartbeat_at(&node, now);
        self.put_drive(drive_id, m);
    }

    /// Add an activity to a drive's feed (newest first, bounded).
    pub fn add_activity(&mut self, drive_id: &str, entry: ActivityEntry)
        requires
            old(self).wf(),
        ensures
            final(self).wf(),
            final(self).feed_of(drive_id@) == feed_after(
                old(self).feed_of(drive_id@),
                entry,
                MAX_ACTIVITIES as nat,
            ),
            final(self).users_of(drive_id@) == old(self).users_of(drive_id@),
            final(self).node_view() == old(self).node_view(),
            final(self).drive_ids() == old(self).drive_ids().insert(drive_id@),
            forall|d: Seq<char>| d != drive_id@ ==> #[trigger] final(self).users_of(d) == old(self).users_of(d),
            forall|d: Seq<char>| d != drive_id@ ==> #[trigger] final(self).feed_of(d) == old(self).feed_of(d),
    {
        let mut m = self.take_drive(drive_id);
        m.add_activity(entry);
        self.put_drive(drive_id, m);
    }

    /// Drop, on every drive, the activities at or before `cutoff`; returns
    /// how many were dropped in all (capped at `usize::MAX`).
    pub fn cleanup_old_activities(&mut self, cutoff: i64) -> (n: usize)
        requires
            old(self).wf(),
        ensures
            final(self).wf(),
            final(self).node_view() == old(self).node_view(),
            final(self).drive_ids() == old(self).drive_ids(),
            forall|d: Seq<char>|
                #[trigger] final(self).feed_of(d) == old(self).feed_of(d).filter(
                    |e: ActivityEntry| e.timestamp > cutoff,
                ),
            forall|d: Seq<char>| #[trigger] final(self).users_of(d) == old(self).users_of(d),
            exists|keys: Seq<Seq<char>>|
                keys.no_duplicates() && (forall|d: Seq<char>|
                    keys.contains(d) <==> old(self).drive_ids().contains(d)) && n == saturated(
                    sum_over(keys, |d: Seq<char>| feed_removed(old(self).feed_of(d), cutoff)),
                ),
    {
        let ghost g = |d: Seq<char>| feed_removed(old(self).feed_of(d), cutoff);
        let keys = assoc_key_list(&self.drives);
        let ghost names = keys@.map_values(|x: String| x@);
        let mut total: usize = 0;
        let mut i: usize = 0;
        assert(names.subrange(0, 0) =~= Seq::<Seq<char>>::empty());
        while i < keys.len()
            invariant
                self.wf(),
                self.node_view() == old(self).node_view(),
                self.drive_ids() == old(self).drive_ids(),
                names == keys@.map_values(|x: String| x@),
                names.no_duplicates(),
                forall|k: Seq<char>| names.contains(k) <==> old(self).drive_ids().contains(k),
                i <= keys@.len(),
                g == (|d: Seq<char>| feed_removed(old(self).feed_of(d), cutoff)),
                total == saturated(sum_over(names.subrange(0, i as int), g)),
                forall|d: Seq<char>|
                    #![trigger self.feed_of(d)]
                    names.subrange(0, i as int).contains(d) ==> self.feed_of(d) == old(self).feed_of(
                        d,
                    ).filter(|e: ActivityEntry| e.timestamp > cutoff),
                forall|d: Seq<char>|
                    #![trigger self.feed_of(d)]
                    !names.subrange(0, i as int).contains(d) ==> self.feed_of(d) == old(self).feed_of(d),
                forall|d: Seq<char>| #[trigger] self.users_of(d) == old(self).users_of(d),
            decreases keys@.len() - i,
        {
            let ghost k = names[i as int];
            assert(keys@[i as int]@ == k);
            assert(!names.subrange(0, i as int).contains(k)) by {
                if names.subrange(0, i as int).contains(k) {
                    let j = choose|j: int| 0 <= j < i && names.subrange(0, i as int)[j] == k;
                    assert(names[j] == names[i as int]);
                }
            }
            assert(old(self).drive_ids().contains(k)) by {
                assert(names.contains(k));
            }
            let mut m = self.take_drive(keys[i].as_str());
            let c = m.cleanup_old_activities(cutoff);
            proof {
                assert(c == feed_removed(old(self).feed_of(k), cutoff));
                assert(names.subrange(0, i + 1).drop_last() =~= names.subrange(0, i as int));
                assert(names.subrange(0, i + 1).last() == k);
            }
            total = total.saturating_add(c);
            self.put_drive(keys[i].as_str(), m);
            proof {
                assert(self.drive_ids() =~= old(self).drive_ids());
                assert(names.subrange(0, i + 1) =~= names.subrange(0, i as int).push(k));
                assert forall|d: Seq<char>|
                    names.subrange(0, i + 1).contains(d) implies #[trigger] self.feed_of(d)
                    == old(self).feed_of(d).filter(|e: ActivityEntry| e.timestamp > cutoff) by {
                    crate::assoc::lemma_seq_push_contains(names.subrange(0, i as int), k, d);
                }
                assert forall|d: Seq<char>|
                    !names.subrange(0, i + 1).contains(d) implies #[trigger] self.feed_of(d)
                    == old(self).feed_of(d) by {
                    crate::assoc::lemma_seq_push_contains(names.subrange(0, i as int), k, d);
                }
            }
            i = i + 1;
        }
        proof {
            assert(names.subrange(0, names.len() as int) =~= names);
            assert forall|d: Seq<char>| #[trigger] self.feed_of(d) == old(self).feed_of(d).filter(
                |e: ActivityEntry| e.timestamp > cutoff,
            ) by {
                if !names.contains(d) {
                    assert(old(self).feed_of(d) == Seq::<ActivityEntry>::empty());
                    assert(Seq::<ActivityEntry>::empty().filter(
                        |e: ActivityEntry| e.timestamp > cutoff,
                    ) =~= Seq::<ActivityEntry>::empty());
                }
            }
        }
        total
    }

    /// Mark, on every drive, the users idle for 5 minutes at `now` away;
    /// returns how many users, over all drives, are then not online (capped
    /// at `usize::MAX`).
    pub fn update_idle_status_at(&mut self, now: i64) -> (n: usize)
        requires
            old(self).wf(),
        ensures
            final(self).wf(),
            final(self).node_view() == old(self).node_view(),
            final(self).drive_ids() == old(self).drive_ids(),
            forall|d: Seq<char>|
                #[trigger] final(self).users_of(d) == old(self).users_of(d).map_values(
                    |u: UserPresence| idle_checked(u, now),
                ),
            forall|d: Seq<char>| #[trigger] final(self).feed_of(d) == old(self).feed_of(d),
            exists|keys: Seq<Seq<char>>|
                keys.no_duplicates() && (forall|d: Seq<char>|
                    keys.contains(d) <==> old(self).drive_ids().contains(d)) && n == saturated(
                    sum_over(keys, |d: Seq<char>| not_online(final(self).users_of(d))),
                ),
    {
        let ghost g = |d: Seq<char>|
            not_online(old(self).users_of(d).map_values(|u: UserPresence| idle_checked(u, now)));
        let keys = assoc_key_list(&self.drives);
        let ghost names = keys@.map_values(|x: String| x@);
        let mut total: usize = 0;
        let mut i: usize = 0;
        assert(names.subrange(0, 0) =~= Seq::<Seq<char>>::empty());
        while i < keys.len()
            invariant
                self.wf(),
                self.node_view() == old(self).node_view(),
                self.drive_ids() == old(self).drive_ids(),
                names == keys@.map_values(|x: String| x@),
                names.no_duplicates(),
                forall|k: Seq<char>| names.contains(k) <==> old(self).drive_ids().contains(k),
                i <= keys@.len(),
                g == (|d: Seq<char>|
                    not_online(old(self).users_of(d).map_values(|u: UserPresence| idle_checked(u, now)))),
                total == saturated(sum_over(names.subrange(0, i as int), g)),
                forall|d: Seq<char>|
                    #![trigger self.users_of(d)]
                    names.subrange(0, i as int).contains(d) ==> self.users_of(d) == old(self).users_of(
                        d,
                    ).map_values(|u: UserPresence| idle_checked(u, now)),
                forall|d: Seq<char>|
                    #![trigger self.users_of(d)]
                    !names.subrange(0, i as int).contains(d) ==> self.users_of(d) == old(self).users_of(d),
                forall|d: Seq<char>| #[trigger] self.feed_of(d) == old(self).feed_of(d),
            decreases keys@.len() - i,
        {
            let ghost k = names[i as int];
            assert(keys@[i as int]@ == k);
            assert(!names.subrange(0, i as int).contains(k)) by {
                if names.subrange(0, i as int).contains(k) {
                    let j = choose|j: int| 0 <= j < i && names.subrange(0, i as int)[j] == k;
                    assert(names[j] == names[i as int]);
                }
            }
            assert(old(self).drive_ids().contains(k)) by {
                assert(names.contains(k));
            }
            let mut m = self.take_drive(keys[i].as_str());
            m.check_idle_users_at(now);
            let users = m.online_users();
            let c = count_not_online(&users);
            proof {
                assert(c == g(k));
                assert(names.subrange(0, i + 1).drop_last() =~= names.subrange(0, i as int));
                assert(names.subrange(0, i + 1).last() == k);
            }
            total = total.saturating_add(c);
            self.put_drive(keys[i].as_str(), m);
            proof {
                assert(self.drive_ids() =~= old(self).drive_ids());
                assert(names.subrange(0, i + 1) =~= names.subrange(0, i as int).push(k));
                assert forall|d: Seq<char>|
                    names.subrange(0, i + 1).contains(d) implies #[trigger] self.users_of(d)
                    == old(self).users_of(d).map_values(|u: UserPresence| idle_checked(u, now)) by {
                    crate::assoc::lemma_seq_push_contains(names.subrange(0, i as int), k, d);
                }
                assert forall|d: Seq<char>|
                    !names.subrange(0, i + 1).contains(d) implies #[trigger] self.users_of(d)
                    == old(self).users_of(d) by {
                    crate::assoc::lemma_seq_push_contains(names.subrange(0, i as int), k, d);
                }
            }
            i = i + 1;
        }
        proof {
            assert(names.subrange(0, names.len() as int) =~= names);
            assert forall|d: Seq<char>| #[trigger] self.users_of(d) == old(self).users_of(d).map_values(
                |u: UserPresence| idle_checked(u, now),
            ) by {
                if !names.contains(d) {
                    assert(old(self).users_of(d) == Seq::<UserPresence>::empty());
                    assert(Seq::<UserPresence>::empty().map_values(
                        |u: UserPresence| idle_checked(u, now),
                    ) =~= Seq::<UserPresence>::empty());
                }
            }
            let g1 = |d: Seq<char>| not_online(self.users_of(d));
            assert(g1 =~= g);
        }
        total
    }

    /// Mark idle users away on every drive, now (see
    /// `update_idle_status_at`).
    pub fn update_idle_status(&mut self) -> (n: usize)
        requires
            old(self).wf(),
        ensures
            final(self).wf(),
            final(self).node_view() == old(self).node_view(),
            final(self).drive_ids() == old(self).drive_ids(),
            exists|now: i64| -INSTANT_BOUND < now < INSTANT_BOUND && idle_applied(*old(self), *final(self), now),
            forall|d: Seq<char>| #[trigger] final(self).feed_of(d) == old(self).feed_of(d),
            exists|keys: Seq<Seq<char>>|
                keys.no_duplicates() && (forall|d: Seq<char>|
                    keys.contains(d) <==> old(self).drive_ids().contains(d)) && n == saturated(
                    sum_over(keys, |d: Seq<char>| not_online(final(self).users_of(d))),
                ),
    {
        let now = now_millis();
        let n = self.update_idle_status_at(now);
        assert(idle_applied(*old(self), *self, now));
        n
    }
}

/// Every drive's users after an idle check at `now`.
pub open spec fn idle_applied(a: PresenceManager, b: PresenceManager, now: i64) -> bool {
    forall|d: Seq<char>| all_idle_checked(a.users_of(d), #[trigger] b.users_of(d), now)
}

/// The number of users of a list who are not online.
fn count_not_online(users: &Vec<UserPresence>) -> (n: usize)
    ensures
        n == not_online(users@),
{
    let mut n: usize = 0;
    let mut i: usize = 0;
    while i < users.len()
        invariant
            i <= users@.len(),
            n == users@.subrange(0, i as int).filter(
                |p: UserPresence| p.status != PresenceStatus::Online,
            ).len(),
            n <= i,
        decreases users@.len() - i,
    {
        assert(users@.subrange(0, i + 1).drop_last() =~= users@.subrange(0, i as int));
        proof {
            reveal(Seq::filter);
        }
        if users[i].status != PresenceStatus::Online {
            n = n + 1;
        }
        i = i + 1;
    }
    assert(users@.subrange(0, users@.len() as int) =~= users@);
    n
}

/// The most activities a feed request returns.
pub const MAX_ACTIVITY_LIMIT: usize = 500;

/// The number of activities a feed request returns: 50 unless given, at
/// most 500.
pub fn activity_limit(limit: Option<usize>) -> (n: usize)
    ensures
        n == (match limit {
            Some(l) => if l < MAX_ACTIVITY_LIMIT {
                l
            } else {
                MAX_ACTIVITY_LIMIT
            },
            None => 50,
        }),
{
    match limit {
        Some(l) => if l < MAX_ACTIVITY_LIMIT {
            l
        } else {
            MAX_ACTIVITY_LIMIT
        },
        None => 50,
    }
}

} // verus!
