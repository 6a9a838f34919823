//! Periodic maintenance: the intervals and ages it runs with, and one round
//! of it (expired locks, old activities, idle users, old resolved conflicts,
//! expired access rules), with the count of what each part removed.
use vstd::prelude::*;
use crate::assoc::{saturated, sum_over};
use crate::conflict::{ConflictManager, FileConflict};
use crate::locking::{live_locks, LockManager};
use crate::presence::{feed_removed, idle_applied, not_online, ActivityEntry, PresenceManager};
use crate::store::{cleaned, SecurityStore};

verus! {

/// Milliseconds in an hour.
pub const MS_PER_HOUR: i64 = 3600000;

/// Milliseconds in a day.
pub const MS_PER_DAY: i64 = 86400000;

/// How often maintenance runs and how old things may get.
#[derive(Clone, Copy, Debug, PartialEq, Eq, Structural)]
pub struct CleanupConfig {
    /// How often to run (seconds).
    pub interval_secs: u64,
    /// Age after which activities are dropped (hours).
    pub max_activity_age_hours: i64,
    /// Age after which resolved conflicts are dropped (days).
    pub max_resolved_conflict_age_days: i64,
    /// Idle time after which users count as away (minutes).
    pub presence_idle_threshold_mins: i64,
}

impl Default for CleanupConfig {
    /// Every 5 minutes; activities kept a week, resolved conflicts 30 days;
    /// users away after 15 idle minutes.
    fn default() -> (c: CleanupConfig)
        ensures
            c.interval_secs == 300,
            c.max_activity_age_hours == 168,
            c.max_resolved_conflict_age_days == 30,
            c.presence_idle_threshold_mins == 15,
    {
        CleanupConfig {
            interval_secs: 300,
            max_activity_age_hours: 168,
            max_resolved_conflict_age_days: 30,
            presence_idle_threshold_mins: 15,
        }
    }
}

/// What one round of maintenance removed.
#[derive(Clone, Copy, Debug, Default, PartialEq, Eq, Structural)]
pub struct CleanupStats {
    /// Expired locks dropped.
    pub locks: usize,
    /// Old activities dropped.
    pub activities: usize,
    /// Users not online after the idle check.
    pub presence: usize,
    /// Old resolved conflicts dropped.
    pub conflicts: usize,
    /// Expired access rules dropped.
    pub acl_rules: usize,
}

impl CleanupStats {
    /// The sum of the counts.
    pub open spec fn spec_total(&self) -> int {
        self.locks + self.activities + self.presence + self.conflicts + self.acl_rules
    }

    /// The sum of the counts.
    pub fn total(&self) -> (n: usize)
        requires
            self.spec_total() <= usize::MAX,
        ensures
            n == self.spec_total(),
    {
        self.locks + self.activities + self.presence + self.conflicts + self.acl_rules
    }
}

/// Runs maintenance with a configuration.
#[derive(Debug)]
pub struct CleanupManager {
    config: CleanupConfig,
}

impl CleanupManager {
    /// The configuration.
    pub closed spec fn config_view(&self) -> CleanupConfig {
        self.config
    }

    /// With the default configuration.
    pub fn new() -> (m: CleanupManager)
        ensures
            m.config_view().interval_secs == 300,
            m.config_view().max_activity_age_hours == 168,
            m.config_view().max_resolved_conflict_age_days == 30,
            m.config_view().presence_idle_threshold_mins == 15,
    {
        CleanupManager { config: CleanupConfig::default() }
    }

    /// With a given configuration.
    pub fn with_config(config: CleanupConfig) -> (m: CleanupManager)
        ensures
            m.config_view() == config,
    {
        CleanupManager { config }
    }

    /// The configuration.
    pub fn config(&self) -> (c: CleanupConfig)
        ensures
            c == self.config_view(),
    {
        self.config
    }

    /// The instant before which activities are old, at `now`.
    pub open spec fn spec_activity_cutoff(&self, now: i64) -> int {
        now - self.config_view().max_activity_age_hours * MS_PER_HOUR
    }

    /// The instant before which resolved conflicts are old, at `now`.
    pub open spec fn spec_conflict_cutoff(&self, now: i64) -> int {
        now - self.config_view().max_resolved_conflict_age_days * MS_PER_DAY
    }

    /// Whether the ages of the configuration, taken from `now`, are
    /// instants.
    pub open spec fn cutoffs_in_range(&self, now: i64) -> bool {
        &&& i64::MIN <= self.config_view().max_activity_age_hours * MS_PER_HOUR <= i64::MAX
        &&& i64::MIN <= self.spec_activity_cutoff(now) <= i64::MAX
        &&& i64::MIN <= self.config_view().max_resolved_conflict_age_days * MS_PER_DAY
            <= i64::MAX
        &&& i64::MIN <= self.spec_conflict_cutoff(now) <= i64::MAX
    }

    /// The instant before which activities are old, at `now`.
    pub fn activity_cutoff(&self, now: i64) -> (t: i64)
        requires
            self.cutoffs_in_range(now),
        ensures
            t == self.spec_activity_cutoff(now),
    {
        let age = self.config.max_activity_age_hours * MS_PER_HOUR;
        now - age
    }

    /// The instant before which resolved conflicts are old, at `now`.
    pub fn conflict_cutoff(&self, now: i64) -> (t: i64)
        requires
            self.cutoffs_in_range(now),
        ensures
            t == self.spec_conflict_cutoff(now),
    {
        let age = self.config.max_resolved_conflict_age_days * MS_PER_DAY;
        now - age
    }

    /// One round of maintenance at `now`: drop expired locks, activities
    /// older than the activity age, mark idle users away, drop resolved
    /// conflicts older than the conflict age, and drop expired access rules.
    /// Each count is what that part removed (capped at `usize::MAX`; for the
    /// users, how many are not online afterwards).
    pub fn run_at(
        &self,
        now: i64,
        locks: &mut LockManager,
        presence: &mut PresenceManager,
        conflicts: &mut ConflictManager,
        store: &mut SecurityStore,
    ) -> (stats: CleanupStats)
        requires
            old(locks).wf(),
            old(presence).wf(),
            old(conflicts).wf(),
            old(store).wf(),
            self.cutoffs_in_range(now),
        ensures
            final(locks).wf(),
            final(presence).wf(),
            final(conflicts).wf(),
            final(store).wf(),
            forall|d: Seq<char>| #[trigger]
                final(locks).locks_of(d) == live_locks(old(locks).locks_of(d), now),
            exists|keys: Seq<Seq<char>>|
                keys.no_duplicates() && (forall|d: Seq<char>|
                    keys.contains(d) <==> old(locks).drive_ids().contains(d)) && stats.locks
                    == saturated(
                    sum_over(
                        keys,
                        |d: Seq<char>|
                            (old(locks).locks_of(d).len() - live_locks(old(locks).locks_of(d), now).len()) as nat,
                    ),
                ),
            forall|d: Seq<char>|
                #[trigger] final(presence).feed_of(d) == old(presence).feed_of(d).filter(
                    |e: ActivityEntry| e.timestamp > self.spec_activity_cutoff(now),
                ),
            exists|keys: Seq<Seq<char>>|
                keys.no_duplicates() && (forall|d: Seq<char>|
                    keys.contains(d) <==> old(presence).drive_ids().contains(d)) && stats.activities
                    == saturated(
                    sum_over(
                        keys,
                        |d: Seq<char>|
                            feed_removed(old(presence).feed_of(d), self.spec_activity_cutoff(now) as i64),
                    ),
                ),
            idle_applied(*old(presence), *final(presence), now),
            exists|keys: Seq<Seq<char>>|
                keys.no_duplicates() && (forall|d: Seq<char>|
                    keys.contains(d) <==> old(presence).drive_ids().contains(d)) && stats.presence
                    == saturated(sum_over(keys, |d: Seq<char>| not_online(final(presence).users_of(d)))),
            forall|d: Seq<char>| #[trigger] final(conflicts).conflicts_of(d) == old(conflicts).conflicts_of(d),
            forall|d: Seq<char>|
                #[trigger] final(conflicts).resolved_of(d) == old(conflicts).resolved_of(d).filter(
                    |c: FileConflict| c.detected_at > self.spec_conflict_cutoff(now),
                ),
            exists|keys: Seq<Seq<char>>|
                keys.no_duplicates() && (forall|d: Seq<char>|
                    keys.contains(d) <==> old(conflicts).drives_view().dom().contains(d))
                    && stats.conflicts == saturated(
                    sum_over(
                        keys,
                        |d: Seq<char>|
                            (old(conflicts).resolved_of(d).len() - old(conflicts).resolved_of(d).filter(
                                |c: FileConflict| c.detected_at > self.spec_conflict_cutoff(now),
                            ).len()) as nat,
                    ),
                ),
            final(store).acls_view().dom() == old(store).acls_view().dom(),
            forall|d: Seq<char>| #[trigger]
                final(store).acls_view().dom().contains(d) ==> cleaned(
                    old(store).acls_view()[d],
                    final(store).acls_view()[d],
                    now,
                ),
            final(store).rule_count() <= old(store).rule_count(),
            stats.acl_rules == saturated((old(store).rule_count() - final(store).rule_count()) as nat),
    {
        let lock_count = locks.cleanup_expired_at(now);
        let activity_cutoff = self.activity_cutoff(now);
        let activity_count = presence.cleanup_old_activities(activity_cutoff);
        let ghost mid = *presence;
        let presence_count = presence.update_idle_status_at(now);
        proof {
            assert forall|d: Seq<char>|
                #![trigger presence.users_of(d)]
                crate::presence::all_idle_checked(old(presence).users_of(d), presence.users_of(d), now) by {
                assert(mid.users_of(d) == old(presence).users_of(d));
            }
        }
        let conflict_cutoff = self.conflict_cutoff(now);
        let conflict_count = conflicts.cleanup_old_resolved(conflict_cutoff);
        let (acl_count, _) = store.cleanup_expired_at(now);
        CleanupStats {
            locks: lock_count,
            activities: activity_count,
            presence: presence_count,
            conflicts: conflict_count,
            acl_rules: acl_count,
        }
    }
}

} // verus!
