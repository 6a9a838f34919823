//! File locks for collaborative editing: advisory locks warn others,
//! exclusive locks keep them out. Locks expire; times are Unix milliseconds.
use vstd::prelude::*;
use crate::assoc::{
    assoc_find, assoc_insert, assoc_keys, assoc_map, assoc_remove, assoc_wf, lemma_assoc_at,
    lemma_assoc_dom, lemma_assoc_index, lemma_assoc_len, lemma_assoc_push,
};
use crate::bytes::bytes_eq;
use crate::clock::{now_millis, INSTANT_BOUND};
use crate::hex::hex_encode;
use crate::keys::{short_hex, NodeId};
use crate::security::{rfc3339_or_empty, rfc3339_text};
use crate::access::{AccessControlList, Permission};
use crate::error::AppError;
use crate::events::DriveEvent;

verus! {

/// Default lifetime of a lock: 30 minutes.
pub const LOCK_LIFETIME_MS: i64 = 1800000;

/// Type of lock.
#[derive(Clone, Copy, Debug, PartialEq, Eq, Structural)]
pub enum LockType {
    /// Warns others but does not keep them out.
    Advisory,
    /// Keeps others from editing.
    Exclusive,
}

/// An active lock on a file.
#[derive(Debug)]
pub struct FileLock {
    /// Path relative to the drive root.
    pub path: String,
    /// Node that holds the lock.
    pub holder: NodeId,
    /// Type of lock.
    pub lock_type: LockType,
    /// When the lock was acquired.
    pub acquired_at: i64,
    /// When the lock expires.
    pub expires_at: i64,
    /// Optional reason.
    pub reason: Option<String>,
}

impl Clone for FileLock {
    fn clone(&self) -> (r: FileLock)
        ensures
            r == *self,
    {
        FileLock {
            path: self.path.clone(),
            holder: self.holder,
            lock_type: self.lock_type,
            acquired_at: self.acquired_at,
            expires_at: self.expires_at,
            reason: crate::access::clone_opt_string(&self.reason),
        }
    }
}

/// A lock has expired at time `now`.
pub open spec fn lock_expired(l: FileLock, now: i64) -> bool {
    now > l.expires_at
}

/// The same node.
pub open spec fn same_node(a: NodeId, b: NodeId) -> bool {
    a.0@ == b.0@
}

/// Whether two node ids are the same.
pub fn node_eq(a: &NodeId, b: &NodeId) -> (r: bool)
    ensures
        r == same_node(*a, *b),
{
    bytes_eq(&a.0, &b.0)
}

impl FileLock {
    /// A new lock acquired at `now`, expiring 30 minutes later.
    pub fn new_at(path: String, holder: NodeId, lock_type: LockType, now: i64) -> (l: FileLock)
        requires
            now + LOCK_LIFETIME_MS <= i64::MAX,
        ensures
            l.path == path,
            l.holder == holder,
            l.lock_type == lock_type,
            l.acquired_at == now,
            l.expires_at == now + LOCK_LIFETIME_MS,
            l.reason is None,
    {
        FileLock {
            path,
            holder,
            lock_type,
            acquired_at: now,
            expires_at: now + LOCK_LIFETIME_MS,
            reason: None,
        }
    }

    /// A new lock acquired now, expiring 30 minutes later.
    pub fn new(path: String, holder: NodeId, lock_type: LockType) -> (l: FileLock)
        ensures
            l.path == path,
            l.holder == holder,
            l.lock_type == lock_type,
            l.expires_at == l.acquired_at + LOCK_LIFETIME_MS,
            l.reason is None,
            -INSTANT_BOUND < l.acquired_at < INSTANT_BOUND,
    {
        Self::new_at(path, holder, lock_type, now_millis())
    }

    /// Set the expiry.
    pub fn with_expiration(self, expires_at: i64) -> (l: FileLock)
        ensures
            l == (FileLock { expires_at, ..self }),
    {
        FileLock { expires_at, ..self }
    }

    /// Set the reason.
    pub fn with_reason(self, reason: String) -> (l: FileLock)
        ensures
            l == (FileLock { reason: Some(reason), ..self }),
    {
        FileLock { reason: Some(reason), ..self }
    }

    /// Whether the lock has expired at `now`.
    pub fn is_expired_at(&self, now: i64) -> (r: bool)
        ensures
            r == lock_expired(*self, now),
    {
        now > self.expires_at
    }

    /// Whether the lock has expired now.
    pub fn is_expired(&self) -> (r: bool)
        ensures
            self.expires_at >= INSTANT_BOUND ==> !r,
            exists|now: i64| -INSTANT_BOUND < now < INSTANT_BOUND && r == lock_expired(*self, now),
    {
        let now = now_millis();
        let r = self.is_expired_at(now);
        assert(r == lock_expired(*self, now));
        r
    }

    /// Make the lock expire `duration` milliseconds after `now`.
    pub fn extend_at(&mut self, duration: i64, now: i64)
        requires
            i64::MIN <= now + duration <= i64::MAX,
        ensures
            *final(self) == (FileLock { expires_at: (now + duration) as i64, ..*old(self) }),
    {
        self.expires_at = now + duration;
    }

    /// Make the lock expire `duration` milliseconds from now.
    pub fn extend(&mut self, duration: i64)
        requires
            -INSTANT_BOUND <= duration <= INSTANT_BOUND,
        ensures
            -INSTANT_BOUND < final(self).expires_at - duration < INSTANT_BOUND,
            *final(self) == (FileLock { expires_at: final(self).expires_at, ..*old(self) }),
    {
        let now = now_millis();
        self.extend_at(duration, now);
    }

    /// Whether the lock is held by a node.
    pub fn is_held_by(&self, node_id: &NodeId) -> (r: bool)
        ensures
            r == same_node(self.holder, *node_id),
    {
        node_eq(&self.holder, node_id)
    }
}

/// A lock as the frontend is shown it.
#[derive(Clone, Debug)]
pub struct FileLockDto {
    pub path: String,
    pub holder: String,
    pub lock_type: String,
    pub acquired_at: String,
    pub expires_at: String,
    pub reason: Option<String>,
    pub is_mine: bool,
}

/// The name of a lock type.
pub open spec fn lock_type_name(t: LockType) -> Seq<char> {
    match t {
        LockType::Advisory => "advisory"@,
        LockType::Exclusive => "exclusive"@,
    }
}

/// `d` is the record of `lock` as `viewer` is shown it.
pub open spec fn dto_of(d: FileLockDto, lock: FileLock, viewer: NodeId) -> bool {
    &&& d.path@ == lock.path@
    &&& d.holder@ == hex_encode(lock.holder.0@)
    &&& d.lock_type@ == lock_type_name(lock.lock_type)
    &&& d.acquired_at@ == rfc3339_text(lock.acquired_at)
    &&& d.expires_at@ == rfc3339_text(lock.expires_at)
    &&& d.reason == lock.reason
    &&& d.is_mine == same_node(lock.holder, viewer)
}

impl FileLockDto {
    /// The record of a lock, seen by `my_node_id`.
    pub fn from_lock(lock: &FileLock, my_node_id: &NodeId) -> (d: FileLockDto)
        ensures
            d.path@ == lock.path@,
            d.holder@ == hex_encode(lock.holder.0@),
            d.lock_type@ == lock_type_name(lock.lock_type),
            d.acquired_at@ == rfc3339_text(lock.acquired_at),
            d.expires_at@ == rfc3339_text(lock.expires_at),
            d.reason == lock.reason,
            d.is_mine == same_node(lock.holder, *my_node_id),
    {
        FileLockDto {
            path: lock.path.clone(),
            holder: lock.holder.to_hex(),
            lock_type: match lock.lock_type {
                LockType::Advisory => String::from_str("advisory"),
                LockType::Exclusive => String::from_str("exclusive"),
            },
            acquired_at: rfc3339_or_empty(lock.acquired_at),
            expires_at: rfc3339_or_empty(lock.expires_at),
            reason: crate::access::clone_opt_string(&lock.reason),
            is_mine: lock.is_held_by(my_node_id),
        }
    }
}

/// The outcome of a lock request.
#[derive(Debug)]
pub enum LockResult {
    /// The lock was acquired.
    Acquired(FileLock),
    /// Refused: another node holds a lock that keeps this one out.
    Denied { existing_lock: FileLock, reason: String },
    /// Acquired, with a warning (another node holds an advisory lock).
    AcquiredWithWarning { lock: FileLock, warning: String },
}

/// How a lock request ends, given the live lock on the path (if any).
#[derive(Clone, Copy, Debug, PartialEq, Eq, Structural)]
pub enum AcquireKind {
    /// Granted and recorded.
    Acquired,
    /// Refused.
    Denied,
    /// Granted with a warning, not recorded.
    AcquiredWithWarning,
}

/// How a lock request by `holder` ends, given the live lock on the path:
/// no lock or the requester's own lock is replaced; another node's
/// exclusive lock, or its advisory lock against an exclusive request,
/// refuses it; an advisory request next to another advisory lock is granted
/// with a warning.
pub open spec fn acquire_kind(existing: Option<FileLock>, holder: NodeId, lock_type: LockType) -> AcquireKind {
    match existing {
        None => AcquireKind::Acquired,
        Some(e) => if same_node(e.holder, holder) {
            AcquireKind::Acquired
        } else if e.lock_type == LockType::Exclusive || lock_type == LockType::Exclusive {
            AcquireKind::Denied
        } else {
            AcquireKind::AcquiredWithWarning
        },
    }
}

/// The message of a refusal or warning caused by an existing lock.
pub open spec fn lock_message(e: FileLock, lock_type: LockType) -> Seq<char> {
    let who = short_hex(hex_encode(e.holder.0@));
    if e.lock_type == LockType::Exclusive {
        "File is exclusively locked by "@ + who
    } else if lock_type == LockType::Exclusive {
        "File has advisory lock by "@ + who + " - cannot acquire exclusive"@
    } else {
        "File also has advisory lock by "@ + who
    }
}

/// The locks of a map that are live at `now`.
pub open spec fn live_locks(m: Map<Seq<char>, FileLock>, now: i64) -> Map<Seq<char>, FileLock> {
    m.restrict(m.dom().filter(|k: Seq<char>| !lock_expired(m[k], now)))
}

/// The live lock of a path at `now`, if any.
pub open spec fn live_lock_of(m: Map<Seq<char>, FileLock>, path: Seq<char>, now: i64) -> Option<
    FileLock,
> {
    if live_locks(m, now).dom().contains(path) {
        Some(live_locks(m, now)[path])
    } else {
        None
    }
}

/// What a lock request by `holder` at `now` answers and leaves, from the
/// locks `before`: expired locks are dropped, then the request ends as
/// `acquire_kind` says; a granted lock lasts 30 minutes from `now`, and only
/// a plain grant is recorded.
pub open spec fn acquire_outcome(
    before: Map<Seq<char>, FileLock>,
    after: Map<Seq<char>, FileLock>,
    path: Seq<char>,
    holder: NodeId,
    lock_type: LockType,
    now: i64,
    r: LockResult,
) -> bool {
    let live = live_locks(before, now);
    match acquire_kind(live_lock_of(before, path, now), holder, lock_type) {
        AcquireKind::Acquired => r matches LockResult::Acquired(l) && l.path@ == path && l.holder
            == holder && l.lock_type == lock_type && l.acquired_at == now && l.expires_at == now
            + LOCK_LIFETIME_MS && l.reason is None && after == live.insert(path, l),
        AcquireKind::Denied => r matches LockResult::Denied { existing_lock, reason }
            && existing_lock == live[path] && reason@ == lock_message(live[path], lock_type)
            && after == live,
        AcquireKind::AcquiredWithWarning => r matches LockResult::AcquiredWithWarning {
            lock,
            warning,
        } && lock.path@ == path && lock.holder == holder && lock.lock_type == lock_type
            && lock.acquired_at == now && lock.expires_at == now + LOCK_LIFETIME_MS && lock.reason is None
            && warning@ == lock_message(live[path], lock_type) && after == live,
    }
}

/// A list holds exactly the locks live at `now` (one per path).
pub open spec fn lists_live(m: Map<Seq<char>, FileLock>, now: i64, v: Seq<FileLock>) -> bool {
    &&& forall|i: int|
        0 <= i < v.len() ==> live_locks(m, now).dom().contains(#[trigger] v[i].path@)
            && live_locks(m, now)[v[i].path@] == v[i]
    &&& forall|p: Seq<char>|
        live_locks(m, now).dom().contains(p) ==> exists|i: int|
            0 <= i < v.len() && (#[trigger] v[i]).path@ == p
    &&& forall|i: int, j: int| 0 <= i < j < v.len() ==> v[i].path@ != v[j].path@
}

/// What extending the lock of `path` held by `holder` at `now` by
/// `duration_mins` answers and leaves: a live lock of the holder expires
/// that long after `now`; anything else is left alone.
pub open spec fn extend_outcome(
    before: Map<Seq<char>, FileLock>,
    after: Map<Seq<char>, FileLock>,
    path: Seq<char>,
    holder: NodeId,
    duration_mins: i64,
    now: i64,
    r: Option<FileLock>,
) -> bool {
    if before.dom().contains(path) && same_node(before[path].holder, holder) && !lock_expired(
        before[path],
        now,
    ) {
        let l = FileLock { expires_at: (now + 60000 * duration_mins) as i64, ..before[path] };
        r == Some(l) && after == before.insert(path, l)
    } else {
        r is None && after == before
    }
}

/// What applying a peer's lock at `now` leaves: an expired lock is ignored,
/// and a live lock acquired earlier is kept.
pub open spec fn apply_outcome(
    before: Map<Seq<char>, FileLock>,
    after: Map<Seq<char>, FileLock>,
    lock: FileLock,
    now: i64,
) -> bool {
    let keep_existing = lock_expired(lock, now) || (before.dom().contains(lock.path@)
        && !lock_expired(before[lock.path@], now) && before[lock.path@].acquired_at
        < lock.acquired_at);
    &&& keep_existing ==> after == before
    &&& !keep_existing ==> after == before.insert(lock.path@, lock)
}

/// Applying a peer's lock never replaces a live lock on the same path that
/// was acquired strictly earlier (the earliest live lock wins), while a live
/// peer lock acquired no later than the lock it meets, or meeting none or an
/// expired one, is recorded; an expired peer lock changes nothing.
pub proof fn law_earliest_live_lock_wins(
    before: Map<Seq<char>, FileLock>,
    after: Map<Seq<char>, FileLock>,
    lock: FileLock,
    now: i64,
)
    requires
        apply_outcome(before, after, lock, now),
    ensures
        before.dom().contains(lock.path@) && now <= before[lock.path@].expires_at
            && before[lock.path@].acquired_at < lock.acquired_at ==> after == before,
        now <= lock.expires_at && (!before.dom().contains(lock.path@) || now
            > before[lock.path@].expires_at || lock.acquired_at <= before[lock.path@].acquired_at)
            ==> after.dom().contains(lock.path@) && after[lock.path@] == lock,
        now > lock.expires_at ==> after == before,
        forall|p: Seq<char>| p != lock.path@ ==> (after.dom().contains(p) == before.dom().contains(p)
            && (before.dom().contains(p) ==> after[p] == before[p])),
{
}

/// An extension of `duration_mins` minutes that no instant overflows.
pub open spec fn extension_in_range(duration_mins: i64) -> bool {
    -INSTANT_BOUND <= 60000 * duration_mins <= INSTANT_BOUND
}

/// The locks of one drive, by path.
#[derive(Debug)]
pub struct DriveLockManager {
    locks: Vec<(String, FileLock)>,
}

/// The entries of a lock list that are live at `now`, in order.
pub open spec fn keep_live(s: Seq<(String, FileLock)>, now: i64) -> Seq<(String, FileLock)>
    decreases s.len(),
{
    if s.len() == 0 {
        Seq::empty()
    } else {
        let r = keep_live(s.drop_last(), now);
        if lock_expired(s.last().1, now) {
            r
        } else {
            r.push(s.last())
        }
    }
}

proof fn lemma_keep_live(s: Seq<(String, FileLock)>, now: i64)
    requires
        assoc_wf(s),
    ensures
        assoc_wf(keep_live(s, now)),
        assoc_map(keep_live(s, now)) == live_locks(assoc_map(s), now),
        forall|j: int|
            0 <= j < keep_live(s, now).len() ==> s.contains(#[trigger] keep_live(s, now)[j]),
        keep_live(s, now).len() <= s.len(),
    decreases s.len(),
{
    if s.len() > 0 {
        let d = s.drop_last();
        let e = s.last();
        assert(assoc_keys(d) =~= assoc_keys(s).drop_last());
        lemma_keep_live(d, now);
        lemma_assoc_dom(d);
        assert(!assoc_keys(d).contains(e.0@)) by {
            if assoc_keys(d).contains(e.0@) {
                let j = choose|j: int| 0 <= j < assoc_keys(d).len() && assoc_keys(d)[j] == e.0@;
                assert(assoc_keys(s)[j] == assoc_keys(s)[s.len() - 1]);
            }
        }
        let kd = keep_live(d, now);
        lemma_assoc_dom(kd);
        assert(assoc_map(s) == assoc_map(d).insert(e.0@, e.1));
        if !lock_expired(e.1, now) {
            assert(keep_live(s, now) == kd.push(e));
            assert(!assoc_map(kd).dom().contains(e.0@));
            lemma_assoc_push(kd, e);
            assert(assoc_map(keep_live(s, now)) =~= live_locks(assoc_map(s), now));
            assert forall|j: int|
                0 <= j < keep_live(s, now).len() implies s.contains(#[trigger] keep_live(s, now)[j]) by {
                if j < kd.len() {
                    assert(kd.contains(kd[j]));
                    let m = choose|m: int| 0 <= m < d.len() && d[m] == kd[j];
                    assert(s[m] == d[m]);
                } else {
                    assert(s[s.len() - 1] == e);
                }
            }
        } else {
            assert(keep_live(s, now) == kd);
            assert(assoc_map(keep_live(s, now)) =~= live_locks(assoc_map(s), now));
            assert forall|j: int|
                0 <= j < keep_live(s, now).len() implies s.contains(#[trigger] keep_live(s, now)[j]) by {
                assert(kd.contains(kd[j]));
                let m = choose|m: int| 0 <= m < d.len() && d[m] == kd[j];
                assert(s[m] == d[m]);
            }
        }
    }
}

impl DriveLockManager {
    /// One lock per path, each stored under its own path.
    pub closed spec fn wf(&self) -> bool {
        &&& assoc_wf(self.locks@)
        &&& forall|j: int|
            0 <= j < self.locks@.len() ==> (#[trigger] self.locks@[j]).1.path@ == self.locks@[j].0@
    }

    /// The locks by path.
    pub closed spec fn locks_view(&self) -> Map<Seq<char>, FileLock> {
        assoc_map(self.locks@)
    }

    /// No locks.
    pub fn new() -> (m: DriveLockManager)
        ensures
            m.wf(),
            m.locks_view() == Map::<Seq<char>, FileLock>::empty(),
    {
        DriveLockManager { locks: Vec::new() }
    }

    /// Drop the locks expired at `now`; returns how many were dropped.
    pub fn cleanup_expired_at(&mut self, now: i64) -> (n: usize)
        requires
            old(self).wf(),
        ensures
            final(self).wf(),
            final(self).locks_view() == live_locks(old(self).locks_view(), now),
            n == old(self).locks_view().len() - final(self).locks_view().len(),
    {
        let ghost old_l = self.locks@;
        let mut kept: Vec<(String, FileLock)> = Vec::new();
        let mut i: usize = 0;
        while i < self.locks.len()
            invariant
                old_l == self.locks@,
                i <= old_l.len(),
                kept@ == keep_live(old_l.subrange(0, i as int), now),
            decreases old_l.len() - i,
        {
            assert(old_l.subrange(0, i + 1).drop_last() =~= old_l.subrange(0, i as int));
            if !self.locks[i].1.is_expired_at(now) {
                let k = self.locks[i].0.clone();
                let l = self.locks[i].1.clone();
                assert(k == old_l[i as int].0) by {
                    assert(k@ == old_l[i as int].0@);
                }
                kept.push((k, l));
            }
            i = i + 1;
        }
        assert(old_l.subrange(0, old_l.len() as int) =~= old_l);
        proof {
            lemma_keep_live(old_l, now);
            lemma_assoc_len(old_l);
            lemma_assoc_len(kept@);
            assert forall|j: int|
                0 <= j < kept@.len() implies (#[trigger] kept@[j]).1.path@ == kept@[j].0@ by {
                let m = choose|m: int| 0 <= m < old_l.len() && old_l[m] == kept@[j];
                assert(old_l[m].1.path@ == old_l[m].0@);
            }
        }
        let n = self.locks.len() - kept.len();
        self.locks = kept;
        n
    }

    /// Request a lock on `path` for `holder` at time `now` (expired locks
    /// are dropped first).
    pub fn acquire_at(&mut self, path: String, holder: NodeId, lock_type: LockType, now: i64) -> (r:
        LockResult)
        requires
            old(self).wf(),
            now + LOCK_LIFETIME_MS <= i64::MAX,
        ensures
            final(self).wf(),
            acquire_outcome(
                old(self).locks_view(),
                final(self).locks_view(),
                path@,
                holder,
                lock_type,
                now,
                r,
            ),
    {
        let _ = self.cleanup_expired_at(now);
        match assoc_find(&self.locks, path.as_str()) {
            Some(i) => {
                let existing = &self.locks[i].1;
                if node_eq(&existing.holder, &holder) {
                    let lock = FileLock::new_at(path, holder, lock_type, now);
                    self.insert_lock(lock.clone());
                    return LockResult::Acquired(lock);
                }
                let who = existing.holder.short_string();
                if existing.lock_type == LockType::Exclusive {
                    let mut reason = String::from_str("File is exclusively locked by ");
                    reason.append(who.as_str());
                    proof {
                        reveal_strlit("File is exclusively locked by ");
                    }
                    return LockResult::Denied { existing_lock: existing.clone(), reason };
                }
                if lock_type == LockType::Exclusive {
                    let mut reason = String::from_str("File has advisory lock by ");
                    reason.append(who.as_str());
                    reason.append(" - cannot acquire exclusive");
                    proof {
                        reveal_strlit("File has advisory lock by ");
                        reveal_strlit(" - cannot acquire exclusive");
                    }
                    return LockResult::Denied { existing_lock: existing.clone(), reason };
                }
                let mut warning = String::from_str("File also has advisory lock by ");
                warning.append(who.as_str());
                proof {
                    reveal_strlit("File also has advisory lock by ");
                }
                let lock = FileLock::new_at(path, holder, lock_type, now);
                LockResult::AcquiredWithWarning { lock, warning }
            },
            None => {
                let lock = FileLock::new_at(path, holder, lock_type, now);
                self.insert_lock(lock.clone());
                LockResult::Acquired(lock)
            },
        }
    }

    /// Record a lock under its own path.
    fn insert_lock(&mut self, lock: FileLock)
        requires
            old(self).wf(),
        ensures
            final(self).wf(),
            final(self).locks_view() == old(self).locks_view().insert(lock.path@, lock),
    {
        let p = lock.path.clone();
        let ghost before = self.locks@;
        let ghost l = lock;
        assoc_insert(&mut self.locks, p.as_str(), lock);
        proof {
            assert forall|j: int|
                0 <= j < self.locks@.len() implies (#[trigger] self.locks@[j]).1.path@
                == self.locks@[j].0@ by {
                if before.contains(self.locks@[j]) {
                    let m = choose|m: int| 0 <= m < before.len() && before[m] == self.locks@[j];
                    assert(before[m].1.path@ == before[m].0@);
                }
            }
        }
    }

    /// Remove the lock of a path.
    fn remove_lock(&mut self, path: &str) -> (r: Option<FileLock>)
        requires
            old(self).wf(),
        ensures
            final(self).wf(),
            final(self).locks_view() == old(self).locks_view().remove(path@),
            old(self).locks_view().dom().contains(path@) ==> r == Some(old(self).locks_view()[path@]),
            !old(self).locks_view().dom().contains(path@) ==> r is None,
    {
        let ghost before = self.locks@;
        let r = assoc_remove(&mut self.locks, path);
        proof {
            assert forall|j: int|
                0 <= j < self.locks@.len() implies (#[trigger] self.locks@[j]).1.path@
                == self.locks@[j].0@ by {
                let m = choose|m: int| 0 <= m < before.len() && before[m] == self.locks@[j];
                assert(before[m].1.path@ == before[m].0@);
            }
        }
        r
    }

    /// Release the lock of a path held by `holder`.
    pub fn release(&mut self, path: &str, holder: &NodeId) -> (r: Option<FileLock>)
        requires
            old(self).wf(),
        ensures
            final(self).wf(),
            old(self).locks_view().dom().contains(path@) && same_node(
                old(self).locks_view()[path@].holder,
                *holder,
            ) ==> r == Some(old(self).locks_view()[path@]) && final(self).locks_view() == old(self).locks_view().remove(path@),
            !(old(self).locks_view().dom().contains(path@) && same_node(
                old(self).locks_view()[path@].holder,
                *holder,
            )) ==> r is None && final(self).locks_view() == old(self).locks_view(),
    {
        match assoc_find(&self.locks, path) {
            Some(i) => {
                if node_eq(&self.locks[i].1.holder, holder) {
                    return self.remove_lock(path);
                }
                None
            },
            None => None,
        }
    }

    /// Release the lock of a path whoever holds it.
    pub fn force_release(&mut self, path: &str) -> (r: Option<FileLock>)
        requires
            old(self).wf(),
        ensures
            final(self).wf(),
            final(self).locks_view() == old(self).locks_view().remove(path@),
            old(self).locks_view().dom().contains(path@) ==> r == Some(old(self).locks_view()[path@]),
            !old(self).locks_view().dom().contains(path@) ==> r is None,
    {
        self.remove_lock(path)
    }

    /// The live lock of a path at `now`.
    pub fn get_lock_at(&self, path: &str, now: i64) -> (r: Option<FileLock>)
        requires
            self.wf(),
        ensures
            r == live_lock_of(self.locks_view(), path@, now),
    {
        match assoc_find(&self.locks, path) {
            Some(i) => {
                if self.locks[i].1.is_expired_at(now) {
                    None
                } else {
                    Some(self.locks[i].1.clone())
                }
            },
            None => None,
        }
    }

    /// The live locks at `now`.
    pub fn list_locks_at(&self, now: i64) -> (v: Vec<FileLock>)
        requires
            self.wf(),
        ensures
            lists_live(self.locks_view(), now, v@),
    {
        let mut v: Vec<FileLock> = Vec::new();
        let mut i: usize = 0;
        while i < self.locks.len()
            invariant
                self.wf(),
                i <= self.locks@.len(),
                forall|j: int|
                    0 <= j < v@.len() ==> live_locks(self.locks_view(), now).dom().contains(
                        #[trigger] v@[j].path@,
                    ) && live_locks(self.locks_view(), now)[v@[j].path@] == v@[j],
                forall|j: int|
                    0 <= j < i && !lock_expired(self.locks@[j].1, now) ==> exists|m: int|
                        0 <= m < v@.len() && (#[trigger] v@[m]).path@ == self.locks@[j].0@,
                forall|m: int|
                    0 <= m < v@.len() ==> exists|j: int|
                        0 <= j < i && (#[trigger] v@[m]).path@ == self.locks@[j].0@,
                forall|a: int, b: int| 0 <= a < b < v@.len() ==> v@[a].path@ != v@[b].path@,
            decreases self.locks@.len() - i,
        {
            let ghost before = v@;
            proof {
                lemma_assoc_at(self.locks@, i as int);
            }
            if !self.locks[i].1.is_expired_at(now) {
                v.push(self.locks[i].1.clone());
                assert(v@[v@.len() - 1].path@ == self.locks@[i as int].0@);
            }
            proof {
                assert forall|j: int|
                    0 <= j < v@.len() implies live_locks(self.locks_view(), now).dom().contains(
                    #[trigger] v@[j].path@,
                ) && live_locks(self.locks_view(), now)[v@[j].path@] == v@[j] by {
                    if j < before.len() {
                        assert(before[j] == v@[j]);
                    }
                }
                assert forall|j: int|
                    0 <= j < i + 1 && !lock_expired(self.locks@[j].1, now) implies exists|m: int|
                    0 <= m < v@.len() && (#[trigger] v@[m]).path@ == self.locks@[j].0@ by {
                    if j < i {
                        let m = choose|m: int|
                            0 <= m < before.len() && (#[trigger] before[m]).path@ == self.locks@[j].0@;
                        assert(v@[m] == before[m]);
                    } else {
                        assert(v@[v@.len() - 1].path@ == self.locks@[i as int].0@);
                    }
                }
                assert forall|m: int|
                    0 <= m < v@.len() implies exists|j: int|
                    0 <= j < i + 1 && (#[trigger] v@[m]).path@ == self.locks@[j].0@ by {
                    if m < before.len() {
                        assert(v@[m] == before[m]);
                        let j = choose|j: int| 0 <= j < i && (#[trigger] before[m]).path@ == self.locks@[j].0@;
                        assert(v@[m].path@ == self.locks@[j].0@);
                    } else {
                        assert(v@[m].path@ == self.locks@[i as int].0@);
                    }
                }
                assert forall|a: int, b: int| 0 <= a < b < v@.len() implies v@[a].path@ != v@[b].path@ by {
                    if b < before.len() {
                        assert(v@[a] == before[a]);
                        assert(v@[b] == before[b]);
                    } else {
                        assert(v@[a] == before[a]);
                        let j = choose|j: int| 0 <= j < i && (#[trigger] before[a]).path@ == self.locks@[j].0@;
                        assert(crate::assoc::assoc_keys(self.locks@)[j] == self.locks@[j].0@);
                        assert(crate::assoc::assoc_keys(self.locks@)[i as int] == self.locks@[i as int].0@);
                        assert(v@[b].path@ == self.locks@[i as int].0@);
                    }
                }
            }
            i = i + 1;
        }
        proof {
            assert forall|p: Seq<char>|
                live_locks(self.locks_view(), now).dom().contains(p) implies exists|i: int|
                0 <= i < v@.len() && (#[trigger] v@[i]).path@ == p by {
                let j = lemma_assoc_index(self.locks@, p);
            }
        }
        v
    }

    /// Extend the lock of a path held by `holder` and live at `now`, to
    /// expire `duration_mins` minutes after `now`.
    pub fn extend_lock_at(&mut self, path: &str, holder: &NodeId, duration_mins: i64, now: i64) -> (r:
        Option<FileLock>)
        requires
            old(self).wf(),
            i64::MIN <= 60000 * duration_mins <= i64::MAX,
            i64::MIN <= now + 60000 * duration_mins <= i64::MAX,
        ensures
            final(self).wf(),
            extend_outcome(
                old(self).locks_view(),
                final(self).locks_view(),
                path@,
                *holder,
                duration_mins,
                now,
                r,
            ),
    {
        match assoc_find(&self.locks, path) {
            Some(i) => {
                let lock = &self.locks[i].1;
                if node_eq(&lock.holder, holder) && !lock.is_expired_at(now) {
                    let mut l = lock.clone();
                    l.extend_at(60000 * duration_mins, now);
                    self.insert_lock(l.clone());
                    return Some(l);
                }
                None
            },
            None => None,
        }
    }

    /// Apply a lock received from a peer at `now`: an expired lock is
    /// ignored, and a live lock acquired earlier is kept.
    pub fn apply_remote_lock_at(&mut self, lock: FileLock, now: i64)
        requires
            old(self).wf(),
        ensures
            final(self).wf(),
            apply_outcome(old(self).locks_view(), final(self).locks_view(), lock, now),
    {
        if lock.is_expired_at(now) {
            return;
        }
        match assoc_find(&self.locks, lock.path.as_str()) {
            Some(i) => {
                let existing = &self.locks[i].1;
                if !existing.is_expired_at(now) && existing.acquired_at < lock.acquired_at {
                    return;
                }
            },
            None => {},
        }
        self.insert_lock(lock);
    }

    /// Request a lock on `path` for `holder` now (see `acquire_at`).
    pub fn acquire(&mut self, path: String, holder: NodeId, lock_type: LockType) -> (r: LockResult)
        requires
            old(self).wf(),
        ensures
            final(self).wf(),
            exists|now: i64|
                -INSTANT_BOUND < now < INSTANT_BOUND && acquire_outcome(
                    old(self).locks_view(),
                    final(self).locks_view(),
                    path@,
                    holder,
                    lock_type,
                    now,
                    r,
                ),
    {
        let now = now_millis();
        self.acquire_at(path, holder, lock_type, now)
    }

    /// The live lock of a path now.
    pub fn get_lock(&self, path: &str) -> (r: Option<FileLock>)
        requires
            self.wf(),
        ensures
            exists|now: i64| -INSTANT_BOUND < now < INSTANT_BOUND && r == live_lock_of(self.locks_view(), path@, now),
    {
        let now = now_millis();
        self.get_lock_at(path, now)
    }

    /// The live locks now.
    pub fn list_locks(&self) -> (v: Vec<FileLock>)
        requires
            self.wf(),
        ensures
            exists|now: i64| -INSTANT_BOUND < now < INSTANT_BOUND && lists_live(self.locks_view(), now, v@),
    {
        let now = now_millis();
        self.list_locks_at(now)
    }

    /// Extend the lock of a path held by `holder` and live now, to expire
    /// `duration_mins` minutes from now.
    pub fn extend_lock(&mut self, path: &str, holder: &NodeId, duration_mins: i64) -> (r: Option<FileLock>)
        requires
            old(self).wf(),
            extension_in_range(duration_mins),
        ensures
            final(self).wf(),
            exists|now: i64|
                -INSTANT_BOUND < now < INSTANT_BOUND && extend_outcome(
                    old(self).locks_view(),
                    final(self).locks_view(),
                    path@,
                    *holder,
                    duration_mins,
                    now,
                    r,
                ),
    {
        let now = now_millis();
        self.extend_lock_at(path, holder, duration_mins, now)
    }

    /// Apply a lock received from a peer now (see `apply_remote_lock_at`).
    pub fn apply_remote_lock(&mut self, lock: FileLock)
        requires
            old(self).wf(),
        ensures
            final(self).wf(),
            exists|now: i64|
                -INSTANT_BOUND < now < INSTANT_BOUND && apply_outcome(
                    old(self).locks_view(),
                    final(self).locks_view(),
                    lock,
                    now,
                ),
    {
        let now = now_millis();
        self.apply_remote_lock_at(lock, now);
    }

    /// Drop the locks expired now; returns how many were dropped.
    pub fn cleanup_expired(&mut self) -> (n: usize)
        requires
            old(self).wf(),
        ensures
            final(self).wf(),
            exists|now: i64|
                -INSTANT_BOUND < now < INSTANT_BOUND && final(self).locks_view() == live_locks(
                    old(self).locks_view(),
                    now,
                ),
            n == old(self).locks_view().len() - final(self).locks_view().len(),
    {
        let now = now_millis();
        self.cleanup_expired_at(now)
    }

    /// Remove a lock a peer released.
    pub fn remove_remote_lock(&mut self, path: &str, holder: &NodeId)
        requires
            old(self).wf(),
        ensures
            final(self).wf(),
            old(self).locks_view().dom().contains(path@) && same_node(
                old(self).locks_view()[path@].holder,
                *holder,
            ) ==> final(self).locks_view() == old(self).locks_view().remove(path@),
            !(old(self).locks_view().dom().contains(path@) && same_node(
                old(self).locks_view()[path@].holder,
                *holder,
            )) ==> final(self).locks_view() == old(self).locks_view(),
    {
        let _ = self.release(path, holder);
    }
}

/// Another node's live exclusive lock keeps every request out: whoever else
/// asks for any lock on that path is refused.
pub proof fn law_exclusive_lock_blocks_others(existing: FileLock, requester: NodeId, lock_type: LockType)
    requires
        existing.lock_type == LockType::Exclusive,
        !same_node(existing.holder, requester),
    ensures
        acquire_kind(Some(existing), requester, lock_type) == AcquireKind::Denied,
{
}

/// A node can always re-acquire (refresh or change) its own lock.
pub proof fn law_holder_reacquires(existing: FileLock, lock_type: LockType)
    ensures
        acquire_kind(Some(existing), existing.holder, lock_type) == AcquireKind::Acquired,
{
}

/// An expired lock keeps nobody out: it is dropped before a request is
/// decided.
pub proof fn law_expired_lock_ignored(m: Map<Seq<char>, FileLock>, path: Seq<char>, now: i64)
    requires
        m.dom().contains(path),
        lock_expired(m[path], now),
    ensures
        !live_locks(m, now).dom().contains(path),
{
}

/// An exclusive lock is refused next to another node's advisory lock;
/// two advisory locks coexist (with a warning).
pub proof fn law_advisory_locks_coexist(existing: FileLock, requester: NodeId)
    requires
        existing.lock_type == LockType::Advisory,
        !same_node(existing.holder, requester),
    ensures
        acquire_kind(Some(existing), requester, LockType::Advisory) == AcquireKind::AcquiredWithWarning,
        acquire_kind(Some(existing), requester, LockType::Exclusive) == AcquireKind::Denied,
{
}


/// Every manager of a list is well formed.
pub open spec fn lock_managers_wf(s: Seq<(String, DriveLockManager)>) -> bool {
    forall|i: int| 0 <= i < s.len() ==> (#[trigger] s[i]).1.wf()
}

proof fn lemma_lock_managers_sub(old: Seq<(String, DriveLockManager)>, new: Seq<(String, DriveLockManager)>)
    requires
        lock_managers_wf(old),
        forall|j: int| 0 <= j < new.len() ==> old.contains(#[trigger] new[j]),
    ensures
        lock_managers_wf(new),
{
    assert forall|j: int| 0 <= j < new.len() implies (#[trigger] new[j]).1.wf() by {
        assert(old.contains(new[j]));
        let m = choose|m: int| 0 <= m < old.len() && old[m] == new[j];
        assert(old[m].1.wf());
    }
}

proof fn lemma_lock_managers_insert(
    old: Seq<(String, DriveLockManager)>,
    new: Seq<(String, DriveLockManager)>,
    key: Seq<char>,
    m: DriveLockManager,
)
    requires
        lock_managers_wf(old),
        m.wf(),
        forall|j: int|
            0 <= j < new.len() ==> old.contains(#[trigger] new[j]) || (new[j].0@ == key && new[j].1
                == m),
    ensures
        lock_managers_wf(new),
{
    assert forall|j: int| 0 <= j < new.len() implies (#[trigger] new[j]).1.wf() by {
        if old.contains(new[j]) {
            let k = choose|k: int| 0 <= k < old.len() && old[k] == new[j];
            assert(old[k].1.wf());
        }
    }
}

/// The locks of all drives (by drive id, hex), and this node's id.
#[derive(Debug)]
pub struct LockManager {
    drives: Vec<(String, DriveLockManager)>,
    node_id: NodeId,
}

impl LockManager {
    /// One manager per drive, each well formed.
    pub closed spec fn wf(&self) -> bool {
        assoc_wf(self.drives@) && lock_managers_wf(self.drives@)
    }

    /// The locks of a drive (none for an unknown drive).
    pub closed spec fn locks_of(&self, drive_id: Seq<char>) -> Map<Seq<char>, FileLock> {
        if assoc_map(self.drives@).dom().contains(drive_id) {
            assoc_map(self.drives@)[drive_id].locks_view()
        } else {
            Map::empty()
        }
    }

    /// This node's id.
    pub closed spec fn node_view(&self) -> NodeId {
        self.node_id
    }

    /// No locks, for this node.
    pub fn new(node_id: NodeId) -> (m: LockManager)
        ensures
            m.wf(),
            m.node_view() == node_id,
            forall|d: Seq<char>| m.locks_of(d) == Map::<Seq<char>, FileLock>::empty(),
    {
        LockManager { drives: Vec::new(), node_id }
    }

    /// This node's id.
    pub fn node_id(&self) -> (n: &NodeId)
        ensures
            *n == self.node_view(),
    {
        &self.node_id
    }

    fn take_drive(&mut self, drive_id: &str) -> (m: DriveLockManager)
        requires
            old(self).wf(),
        ensures
            final(self).wf(),
            m.wf(),
            m.locks_view() == old(self).locks_of(drive_id@),
            final(self).node_view() == old(self).node_view(),
            forall|d: Seq<char>| d != drive_id@ ==> #[trigger] final(self).locks_of(d) == old(self).locks_of(d),
            assoc_map(final(self).drives@) == assoc_map(old(self).drives@).remove(drive_id@),
    {
        proof {
            if assoc_map(self.drives@).dom().contains(drive_id@) {
                let i = lemma_assoc_index(self.drives@, drive_id@);
            }
        }
        let ghost before = self.drives@;
        let r = assoc_remove(&mut self.drives, drive_id);
        proof {
            lemma_lock_managers_sub(before, self.drives@);
        }
        match r {
            Some(m) => m,
            None => DriveLockManager::new(),
        }
    }

    fn put_drive(&mut self, drive_id: &str, m: DriveLockManager)
        requires
            old(self).wf(),
            m.wf(),
            !assoc_map(old(self).drives@).dom().contains(drive_id@),
        ensures
            final(self).wf(),
            final(self).locks_of(drive_id@) == m.locks_view(),
            final(self).node_view() == old(self).node_view(),
            forall|d: Seq<char>| d != drive_id@ ==> #[trigger] final(self).locks_of(d) == old(self).locks_of(d),
    {
        let ghost before = self.drives@;
        let ghost mm = m;
        assoc_insert(&mut self.drives, drive_id, m);
        proof {
            lemma_lock_managers_insert(before, self.drives@, drive_id@, mm);
        }
    }

    /// Request a lock for this node on a path of a drive at `now`.
    pub fn acquire_lock_at(&mut self, drive_id: &str, path: String, lock_type: LockType, now: i64) -> (r:
        LockResult)
        requires
            old(self).wf(),
            now + LOCK_LIFETIME_MS <= i64::MAX,
        ensures
            final(self).wf(),
            final(self).node_view() == old(self).node_view(),
            forall|d: Seq<char>| d != drive_id@ ==> #[trigger] final(self).locks_of(d) == old(self).locks_of(d),
            acquire_outcome(
                old(self).locks_of(drive_id@),
                final(self).locks_of(drive_id@),
                path@,
                old(self).node_view(),
                lock_type,
                now,
                r,
            ),
    {
        let mut m = self.take_drive(drive_id);
        let holder = self.node_id;
        let r = m.acquire_at(path, holder, lock_type, now);
        self.put_drive(drive_id, m);
        r
    }

    /// Release this node's lock on a path of a drive.
    pub fn release_lock(&mut self, drive_id: &str, path: &str) -> (r: Option<FileLock>)
        requires
            old(self).wf(),
        ensures
            final(self).wf(),
            final(self).node_view() == old(self).node_view(),
            forall|d: Seq<char>| d != drive_id@ ==> #[trigger] final(self).locks_of(d) == old(self).locks_of(d),
            ({
                let m = old(self).locks_of(drive_id@);
                if m.dom().contains(path@) && same_node(m[path@].holder, old(self).node_view()) {
                    r == Some(m[path@]) && final(self).locks_of(drive_id@) == m.remove(path@)
                } else {
                    r is None && final(self).locks_of(drive_id@) == m
                }
            }),
    {
        let mut m = self.take_drive(drive_id);
        let holder = self.node_id;
        let r = m.release(path, &holder);
        self.put_drive(drive_id, m);
        r
    }

    /// The live lock of a path of a drive at `now`.
    pub fn get_lock_at(&self, drive_id: &str, path: &str, now: i64) -> (r: Option<FileLock>)
        requires
            self.wf(),
        ensures
            r == live_lock_of(self.locks_of(drive_id@), path@, now),
    {
        match assoc_find(&self.drives, drive_id) {
            Some(i) => {
                assert(self.drives@[i as int].1.wf());
                self.drives[i].1.get_lock_at(path, now)
            },
            None => None,
        }
    }

    /// The live locks of a drive at `now`.
    pub fn list_locks_at(&self, drive_id: &str, now: i64) -> (v: Vec<FileLock>)
        requires
            self.wf(),
        ensures
            lists_live(self.locks_of(drive_id@), now, v@),
    {
        match assoc_find(&self.drives, drive_id) {
            Some(i) => {
                assert(self.drives@[i as int].1.wf());
                self.drives[i].1.list_locks_at(now)
            },
            None => {
                assert(live_locks(Map::<Seq<char>, FileLock>::empty(), now).dom() =~= Set::<
                    Seq<char>,
                >::empty());
                Vec::new()
            },
        }
    }

    /// Extend this node's live lock on a path of a drive.
    pub fn extend_lock_at(&mut self, drive_id: &str, path: &str, duration_mins: i64, now: i64) -> (r:
        Option<FileLock>)
        requires
            old(self).wf(),
            i64::MIN <= 60000 * duration_mins <= i64::MAX,
            i64::MIN <= now + 60000 * duration_mins <= i64::MAX,
        ensures
            final(self).wf(),
            final(self).node_view() == old(self).node_view(),
            forall|d: Seq<char>| d != drive_id@ ==> #[trigger] final(self).locks_of(d) == old(self).locks_of(d),
            extend_outcome(
                old(self).locks_of(drive_id@),
                final(self).locks_of(drive_id@),
                path@,
                old(self).node_view(),
                duration_mins,
                now,
                r,
            ),
    {
        let mut m = self.take_drive(drive_id);
        let holder = self.node_id;
        let r = m.extend_lock_at(path, &holder, duration_mins, now);
        self.put_drive(drive_id, m);
        r
    }

    /// Apply a lock of a drive received from a peer at `now`.
    pub fn apply_remote_lock_at(&mut self, drive_id: &str, lock: FileLock, now: i64)
        requires
            old(self).wf(),
        ensures
            final(self).wf(),
            final(self).node_view() == old(self).node_view(),
            forall|d: Seq<char>| d != drive_id@ ==> #[trigger] final(self).locks_of(d) == old(self).locks_of(d),
            apply_outcome(old(self).locks_of(drive_id@), final(self).locks_of(drive_id@), lock, now),
    {
        let mut m = self.take_drive(drive_id);
        m.apply_remote_lock_at(lock, now);
        self.put_drive(drive_id, m);
    }

    /// Request a lock for this node on a path of a drive now.
    pub fn acquire_lock(&mut self, drive_id: &str, path: String, lock_type: LockType) -> (r: LockResult)
        requires
            old(self).wf(),
        ensures
            final(self).wf(),
            final(self).node_view() == old(self).node_view(),
            forall|d: Seq<char>| d != drive_id@ ==> #[trigger] final(self).locks_of(d) == old(self).locks_of(d),
            exists|now: i64|
                -INSTANT_BOUND < now < INSTANT_BOUND && acquire_outcome(
                    old(self).locks_of(drive_id@),
                    final(self).locks_of(drive_id@),
                    path@,
                    old(self).node_view(),
                    lock_type,
                    now,
                    r,
                ),
    {
        let now = now_millis();
        self.acquire_lock_at(drive_id, path, lock_type, now)
    }

    /// The live lock of a path of a drive now.
    pub fn get_lock(&self, drive_id: &str, path: &str) -> (r: Option<FileLock>)
        requires
            self.wf(),
        ensures
            exists|now: i64|
                -INSTANT_BOUND < now < INSTANT_BOUND && r == live_lock_of(self.locks_of(drive_id@), path@, now),
    {
        let now = now_millis();
        self.get_lock_at(drive_id, path, now)
    }

    /// The live locks of a drive now.
    pub fn list_locks(&self, drive_id: &str) -> (v: Vec<FileLock>)
        requires
            self.wf(),
        ensures
            exists|now: i64|
                -INSTANT_BOUND < now < INSTANT_BOUND && lists_live(self.locks_of(drive_id@), now, v@),
    {
        let now = now_millis();
        self.list_locks_at(drive_id, now)
    }

    /// Extend this node's live lock on a path of a drive to expire
    /// `duration_mins` minutes from now.
    pub fn extend_lock(&mut self, drive_id: &str, path: &str, duration_mins: i64) -> (r: Option<FileLock>)
        requires
            old(self).wf(),
            extension_in_range(duration_mins),
        ensures
            final(self).wf(),
            final(self).node_view() == old(self).node_view(),
            forall|d: Seq<char>| d != drive_id@ ==> #[trigger] final(self).locks_of(d) == old(self).locks_of(d),
            exists|now: i64|
                -INSTANT_BOUND < now < INSTANT_BOUND && extend_outcome(
                    old(self).locks_of(drive_id@),
                    final(self).locks_of(drive_id@),
                    path@,
                    old(self).node_view(),
                    duration_mins,
                    now,
                    r,
                ),
    {
        let now = now_millis();
        self.extend_lock_at(drive_id, path, duration_mins, now)
    }

    /// Apply a lock of a drive received from a peer now.
    pub fn apply_remote_lock(&mut self, drive_id: &str, lock: FileLock)
        requires
            old(self).wf(),
        ensures
            final(self).wf(),
            final(self).node_view() == old(self).node_view(),
            forall|d: Seq<char>| d != drive_id@ ==> #[trigger] final(self).locks_of(d) == old(self).locks_of(d),
            exists|now: i64|
                -INSTANT_BOUND < now < INSTANT_BOUND && apply_outcome(
                    old(self).locks_of(drive_id@),
                    final(self).locks_of(drive_id@),
                    lock,
                    now,
                ),
    {
        let now = now_millis();
        self.apply_remote_lock_at(drive_id, lock, now);
    }

    /// Remove a lock of a drive a peer released.
    pub fn remove_remote_lock(&mut self, drive_id: &str, path: &str, holder: &NodeId)
        requires
            old(self).wf(),
        ensures
            final(self).wf(),
            final(self).node_view() == old(self).node_view(),
            forall|d: Seq<char>| d != drive_id@ ==> #[trigger] final(self).locks_of(d) == old(self).locks_of(d),
            ({
                let m = old(self).locks_of(drive_id@);
                if m.dom().contains(path@) && same_node(m[path@].holder, *holder) {
                    final(self).locks_of(drive_id@) == m.remove(path@)
                } else {
                    final(self).locks_of(drive_id@) == m
                }
            }),
    {
        let mut m = self.take_drive(drive_id);
        m.remove_remote_lock(path, holder);
        self.put_drive(drive_id, m);
    }

    /// Release the lock of a path of a drive whoever holds it.
    pub fn force_release_lock(&mut self, drive_id: &str, path: &str) -> (r: Option<FileLock>)
        requires
            old(self).wf(),
        ensures
            final(self).wf(),
            final(self).node_view() == old(self).node_view(),
            forall|d: Seq<char>| d != drive_id@ ==> #[trigger] final(self).locks_of(d) == old(self).locks_of(d),
            final(self).locks_of(drive_id@) == old(self).locks_of(drive_id@).remove(path@),
            old(self).locks_of(drive_id@).dom().contains(path@) ==> r == Some(
                old(self).locks_of(drive_id@)[path@],
            ),
            !old(self).locks_of(drive_id@).dom().contains(path@) ==> r is None,
    {
        let mut m = self.take_drive(drive_id);
        let r = m.force_release(path);
        self.put_drive(drive_id, m);
        r
    }

    /// The drives locks are kept for.
    pub closed spec fn drive_ids(&self) -> Set<Seq<char>> {
        assoc_map(self.drives@).dom()
    }

    /// Drop the locks expired at `now` on every drive; returns how many were
    /// dropped in all (capped at `usize::MAX`).
    pub fn cleanup_expired_at(&mut self, now: i64) -> (n: usize)
        requires
            old(self).wf(),
        ensures
            final(self).wf(),
            final(self).node_view() == old(self).node_view(),
            forall|d: Seq<char>| #[trigger] final(self).locks_of(d) == live_locks(old(self).locks_of(d), now),
            exists|keys: Seq<Seq<char>>|
                keys.no_duplicates() && (forall|d: Seq<char>|
                    keys.contains(d) <==> old(self).drive_ids().contains(d)) && n == crate::assoc::saturated(
                    crate::assoc::sum_over(
                        keys,
                        |d: Seq<char>|
                            (old(self).locks_of(d).len() - live_locks(old(self).locks_of(d), now).len()) as nat,
                    ),
                ),
    {
        let ghost g = |d: Seq<char>|
            (old(self).locks_of(d).len() - live_locks(old(self).locks_of(d), now).len()) as nat;
        let keys = crate::assoc::assoc_key_list(&self.drives);
        let ghost names = keys@.map_values(|x: String| x@);
        let mut total: usize = 0;
        let mut i: usize = 0;
        assert(names.subrange(0, 0) =~= Seq::<Seq<char>>::empty());
        while i < keys.len()
            invariant
                g == (|d: Seq<char>|
                    (old(self).locks_of(d).len() - live_locks(old(self).locks_of(d), now).len()) as nat),
                total == crate::assoc::saturated(crate::assoc::sum_over(names.subrange(0, i as int), g)),
                self.wf(),
                self.node_view() == old(self).node_view(),
                names == keys@.map_values(|x: String| x@),
                names.no_duplicates(),
                forall|k: Seq<char>| names.contains(k) <==> assoc_map(old(self).drives@).dom().contains(k),
                i <= keys@.len(),
                forall|d: Seq<char>|
                    #![trigger self.locks_of(d)]
                    names.subrange(0, i as int).contains(d) ==> self.locks_of(d) == live_locks(
                        old(self).locks_of(d),
                        now,
                    ),
                forall|d: Seq<char>|
                    #![trigger self.locks_of(d)]
                    !names.subrange(0, i as int).contains(d) ==> self.locks_of(d) == old(self).locks_of(d),
            decreases keys@.len() - i,
        {
            let ghost k = names[i as int];
            assert(keys@[i as int]@ == k);
            assert(!names.subrange(0, i as int).contains(k)) by {
                if names.subrange(0, i as int).contains(k) {
                    let j = choose|j: int| 0 <= j < i && names.subrange(0, i as int)[j] == k;
                    assert(names[j] == names[i as int]);
                }
            }
            let mut m = self.take_drive(keys[i].as_str());
            let c = m.cleanup_expired_at(now);
            proof {
                assert(c == g(k));
                assert(names.subrange(0, i + 1).drop_last() =~= names.subrange(0, i as int));
                assert(names.subrange(0, i + 1).last() == k);
            }
            total = total.saturating_add(c);
            self.put_drive(keys[i].as_str(), m);
            proof {
                assert(names.subrange(0, i + 1) =~= names.subrange(0, i as int).push(k));
                assert forall|d: Seq<char>|
                    names.subrange(0, i + 1).contains(d) implies #[trigger] self.locks_of(d)
                    == live_locks(old(self).locks_of(d), now) by {
                    crate::assoc::lemma_seq_push_contains(names.subrange(0, i as int), k, d);
                }
                assert forall|d: Seq<char>|
                    !names.subrange(0, i + 1).contains(d) implies #[trigger] self.locks_of(d)
                    == old(self).locks_of(d) by {
                    crate::assoc::lemma_seq_push_contains(names.subrange(0, i as int), k, d);
                }
            }
            i = i + 1;
        }
        proof {
            assert(names.subrange(0, names.len() as int) =~= names);
            assert forall|d: Seq<char>| #[trigger] self.locks_of(d) == live_locks(old(self).locks_of(d), now) by {
                if !names.contains(d) {
                    assert(old(self).locks_of(d) == Map::<Seq<char>, FileLock>::empty());
                    assert(live_locks(Map::<Seq<char>, FileLock>::empty(), now) =~= Map::<
                        Seq<char>,
                        FileLock,
                    >::empty());
                }
            }
        }
        total
    }
    /// What dropping the locks expired at `now` on every drive leaves and
    /// counts (capped at `usize::MAX`).
    pub open spec fn swept(before: LockManager, after: LockManager, now: i64, n: usize) -> bool {
        &&& forall|d: Seq<char>| #[trigger] after.locks_of(d) == live_locks(before.locks_of(d), now)
        &&& exists|keys: Seq<Seq<char>>|
            keys.no_duplicates() && (forall|d: Seq<char>|
                keys.contains(d) <==> before.drive_ids().contains(d)) && n == crate::assoc::saturated(
                crate::assoc::sum_over(
                    keys,
                    |d: Seq<char>|
                        (before.locks_of(d).len() - live_locks(before.locks_of(d), now).len()) as nat,
                ),
            )
    }

    /// Drop the locks expired now on every drive; returns how many were
    /// dropped in all (see `swept`).
    pub fn cleanup_expired(&mut self) -> (n: usize)
        requires
            old(self).wf(),
        ensures
            final(self).wf(),
            final(self).node_view() == old(self).node_view(),
            exists|now: i64|
                -INSTANT_BOUND < now < INSTANT_BOUND && #[trigger] Self::swept(*old(self), *final(self), now, n),
    {
        let now = now_millis();
        let n = self.cleanup_expired_at(now);
        assert(Self::swept(*old(self), *self, now, n));
        n
    }
}

/// The lock type a request names: "exclusive", or advisory otherwise.
pub fn parse_lock_type(s: &str) -> (t: LockType)
    ensures
        t == (if s@ == "exclusive"@ {
            LockType::Exclusive
        } else {
            LockType::Advisory
        }),
{
    let a = crate::text::chars_of(s);
    let b = crate::text::chars_of("exclusive");
    if crate::text::chars_eq(a.as_slice(), b.as_slice()) {
        LockType::Exclusive
    } else {
        LockType::Advisory
    }
}

/// The outcome of a lock request as the frontend is shown it.
#[derive(Clone, Debug)]
pub struct AcquireLockResult {
    pub success: bool,
    pub lock: Option<FileLockDto>,
    pub error: Option<String>,
    pub warning: Option<String>,
}

impl AcquireLockResult {
    /// The record of a lock request's outcome, seen by `node_id`: the lock
    /// acquired (with its warning), or the lock that refused it (with the
    /// reason as error).
    pub fn from_result(result: LockResult, node_id: &NodeId) -> (r: AcquireLockResult)
        ensures
            match result {
                LockResult::Acquired(l) => {
                    &&& r.success
                    &&& r.lock matches Some(d) && dto_of(d, l, *node_id)
                    &&& r.error is None
                    &&& r.warning is None
                },
                LockResult::AcquiredWithWarning { lock, warning } => {
                    &&& r.success
                    &&& r.lock matches Some(d) && dto_of(d, lock, *node_id)
                    &&& r.error is None
                    &&& r.warning == Some(warning)
                },
                LockResult::Denied { existing_lock, reason } => {
                    &&& !r.success
                    &&& r.lock matches Some(d) && dto_of(d, existing_lock, *node_id)
                    &&& r.error == Some(reason)
                    &&& r.warning is None
                },
            },
    {
        match result {
            LockResult::Acquired(lock) => AcquireLockResult {
                success: true,
                lock: Some(FileLockDto::from_lock(&lock, node_id)),
                error: None,
                warning: None,
            },
            LockResult::AcquiredWithWarning { lock, warning } => AcquireLockResult {
                success: true,
                lock: Some(FileLockDto::from_lock(&lock, node_id)),
                error: None,
                warning: Some(warning),
            },
            LockResult::Denied { existing_lock, reason } => AcquireLockResult {
                success: false,
                lock: Some(FileLockDto::from_lock(&existing_lock, node_id)),
                error: Some(reason),
                warning: None,
            },
        }
    }
}

/// The longest a lock may be extended by, in minutes (a day).
pub const MAX_LOCK_EXTENSION_MINS: i64 = 1440;

/// A lock extension must last from 1 minute to a day.
pub fn check_lock_duration(duration_mins: i64) -> (r: Result<(), AppError>)
    ensures
        r is Ok <==> 1 <= duration_mins <= MAX_LOCK_EXTENSION_MINS,
        r matches Err(e) ==> (e matches AppError::ValidationError(m) && m@
            == "Lock duration must be between 1 and 1440 minutes"@),
{
    if 1 <= duration_mins && duration_mins <= MAX_LOCK_EXTENSION_MINS {
        Ok(())
    } else {
        Err(
            AppError::ValidationError(
                String::from_str("Lock duration must be between 1 and 1440 minutes"),
            ),
        )
    }
}

/// Only a user with admin permission on the drive (at its root) may force a
/// lock open.
pub fn authorize_force_release(acl: &AccessControlList, caller: &str, now: i64) -> (r: Result<
    (),
    AppError,
>)
    requires
        acl.wf(),
    ensures
        r is Ok <==> acl.permits_at(caller@, "/"@, Permission::Admin, now),
        r matches Err(e) ==> (e matches AppError::AccessDenied { reason } && reason@
            == "Only admin can force release locks"@),
{
    if acl.check_permission_at(caller, "/", Permission::Admin, now) {
        Ok(())
    } else {
        Err(AppError::AccessDenied { reason: String::from_str("Only admin can force release locks") })
    }
}

/// The name of a lock type.
pub fn lock_type_text(t: LockType) -> (s: String)
    ensures
        s@ == lock_type_name(t),
{
    match t {
        LockType::Advisory => String::from_str("advisory"),
        LockType::Exclusive => String::from_str("exclusive"),
    }
}

/// The event announcing a lock to the drive's peers at `now`.
pub fn lock_acquired_event(lock: &FileLock, now: i64) -> (e: DriveEvent)
    ensures
        e matches DriveEvent::FileLockAcquired { path, holder, lock_type, expires_at, timestamp }
            && path@ == lock.path@ && holder == lock.holder && lock_type@ == lock_type_name(
            lock.lock_type,
        ) && expires_at == lock.expires_at && timestamp == now,
{
    DriveEvent::FileLockAcquired {
        path: lock.path.clone(),
        holder: lock.holder,
        lock_type: lock_type_text(lock.lock_type),
        expires_at: lock.expires_at,
        timestamp: now,
    }
}

/// The event announcing the release of a lock to the drive's peers at `now`.
pub fn lock_released_event(lock: &FileLock, now: i64) -> (e: DriveEvent)
    ensures
        e matches DriveEvent::FileLockReleased { path, holder, timestamp } && path@ == lock.path@
            && holder == lock.holder && timestamp == now,
{
    DriveEvent::FileLockReleased { path: lock.path.clone(), holder: lock.holder, timestamp: now }
}

} // verus!
