//! The in-memory security state of all drives: their access control
//! lists, the single-use tokens that were used, and the revoked tokens,
//! each keyed by drive id (hex); and the permission decisions the commands
//! make on it.
//!
//! Persisting the state is the caller's part: after a change it stores the
//! entries of the drive that changed.
use vstd::prelude::*;
use crate::access::{
    level, rule_expired_at, AccessControlList, AccessRule, PathRule, Permission,
};
use crate::assoc::{
    assoc_find, assoc_insert, assoc_key_list, assoc_keys, assoc_map, assoc_remove, assoc_wf,
    lemma_assoc_at, lemma_assoc_dom, lemma_assoc_index,
};
use crate::invite::{strings_view, InviteToken, TokenTracker};
use crate::primitives::opt_chars;
use crate::security::{
    acceptance_check, acceptance_outcome, acceptance_success, invite_problem, invite_verification,
    level_of, permission_of, rfc3339_or_empty, rfc3339_text, to_level, to_permission,
    AcceptInviteResult, InviteVerification, PermissionLevel, UserPermission,
};
use crate::access::{permits_with, user_permission_with};
use crate::primitives::rfc3339_of_millis;

verus! {

proof fn lemma_acls_wf_sub(old: Seq<(String, AccessControlList)>, new: Seq<(String, AccessControlList)>)
    requires
        acls_wf(old),
        forall|j: int| 0 <= j < new.len() ==> old.contains(#[trigger] new[j]),
    ensures
        acls_wf(new),
{
    assert forall|j: int| 0 <= j < new.len() implies (#[trigger] new[j]).1.wf() by {
        assert(old.contains(new[j]));
        let m = choose|m: int| 0 <= m < old.len() && old[m] == new[j];
        assert(old[m].1.wf());
    }
}

proof fn lemma_acls_wf_insert(
    old: Seq<(String, AccessControlList)>,
    new: Seq<(String, AccessControlList)>,
    acl: AccessControlList,
)
    requires
        acls_wf(old),
        acl.wf(),
        forall|j: int| 0 <= j < new.len() ==> old.contains(#[trigger] new[j]) || new[j].1 == acl,
    ensures
        acls_wf(new),
{
    assert forall|j: int| 0 <= j < new.len() implies (#[trigger] new[j]).1.wf() by {
        if old.contains(new[j]) {
            let m = choose|m: int| 0 <= m < old.len() && old[m] == new[j];
            assert(old[m].1.wf());
        }
    }
}

proof fn lemma_trackers_wf_sub(old: Seq<(String, TokenTracker)>, new: Seq<(String, TokenTracker)>)
    requires
        trackers_wf(old),
        forall|j: int| 0 <= j < new.len() ==> old.contains(#[trigger] new[j]),
    ensures
        trackers_wf(new),
{
    assert forall|j: int| 0 <= j < new.len() implies (#[trigger] new[j]).1.wf() by {
        assert(old.contains(new[j]));
        let m = choose|m: int| 0 <= m < old.len() && old[m] == new[j];
        assert(old[m].1.wf());
    }
}

proof fn lemma_trackers_wf_insert(
    old: Seq<(String, TokenTracker)>,
    new: Seq<(String, TokenTracker)>,
    t: TokenTracker,
)
    requires
        trackers_wf(old),
        t.wf(),
        forall|j: int| 0 <= j < new.len() ==> old.contains(#[trigger] new[j]) || new[j].1 == t,
    ensures
        trackers_wf(new),
{
    assert forall|j: int| 0 <= j < new.len() implies (#[trigger] new[j]).1.wf() by {
        if old.contains(new[j]) {
            let m = choose|m: int| 0 <= m < old.len() && old[m] == new[j];
            assert(old[m].1.wf());
        }
    }
}

/// The in-memory security state of all drives: ACLs, used single-use
/// tokens and revoked tokens, each keyed by drive id (hex).
#[derive(Debug)]
pub struct SecurityStore {
    acls: Vec<(String, AccessControlList)>,
    token_trackers: Vec<(String, TokenTracker)>,
    revoked_tokens: Vec<(String, TokenTracker)>,
}

/// Every ACL of a list is well formed.
pub open spec fn acls_wf(s: Seq<(String, AccessControlList)>) -> bool {
    forall|i: int| 0 <= i < s.len() ==> (#[trigger] s[i]).1.wf()
}

/// Every tracker of a list is well formed.
pub open spec fn trackers_wf(s: Seq<(String, TokenTracker)>) -> bool {
    forall|i: int| 0 <= i < s.len() ==> (#[trigger] s[i]).1.wf()
}

/// The total number of user rules over a list of ACLs.
pub open spec fn rules_total(s: Seq<(String, AccessControlList)>) -> int
    decreases s.len(),
{
    if s.len() == 0 {
        0
    } else {
        rules_total(s.drop_last()) + s.last().1.rules().len()
    }
}

proof fn lemma_map_wf_acl(s: Seq<(String, AccessControlList)>, k: Seq<char>)
    requires
        assoc_wf(s),
        acls_wf(s),
        assoc_map(s).dom().contains(k),
    ensures
        assoc_map(s)[k].wf(),
{
    lemma_assoc_dom(s);
    let i = choose|i: int| 0 <= i < assoc_keys(s).len() && assoc_keys(s)[i] == k;
    lemma_assoc_at(s, i);
    assert(s[i].0@ == k);
}

proof fn lemma_map_wf_tracker(s: Seq<(String, TokenTracker)>, k: Seq<char>)
    requires
        assoc_wf(s),
        trackers_wf(s),
        assoc_map(s).dom().contains(k),
    ensures
        assoc_map(s)[k].wf(),
{
    lemma_assoc_dom(s);
    let i = choose|i: int| 0 <= i < assoc_keys(s).len() && assoc_keys(s)[i] == k;
    lemma_assoc_at(s, i);
    assert(s[i].0@ == k);
}

impl SecurityStore {
    /// The store is well formed: one entry per drive, each entry well formed.
    pub closed spec fn wf(&self) -> bool {
        &&& assoc_wf(self.acls@)
        &&& acls_wf(self.acls@)
        &&& assoc_wf(self.token_trackers@)
        &&& trackers_wf(self.token_trackers@)
        &&& assoc_wf(self.revoked_tokens@)
        &&& trackers_wf(self.revoked_tokens@)
    }

    /// The ACLs by drive.
    pub closed spec fn acls_view(&self) -> Map<Seq<char>, AccessControlList> {
        assoc_map(self.acls@)
    }

    /// The used single-use tokens, by drive.
    pub closed spec fn used_view(&self) -> Map<Seq<char>, TokenTracker> {
        assoc_map(self.token_trackers@)
    }

    /// The revoked tokens, by drive.
    pub closed spec fn revoked_view(&self) -> Map<Seq<char>, TokenTracker> {
        assoc_map(self.revoked_tokens@)
    }

    /// Whether a token of a drive is revoked.
    pub open spec fn revoked_at(&self, drive_id: Seq<char>, token_id: Seq<char>) -> bool {
        self.revoked_view().dom().contains(drive_id) && self.revoked_view()[drive_id].used_view().contains(token_id)
    }

    /// Whether a single-use token of a drive was used.
    pub open spec fn used_at(&self, drive_id: Seq<char>, token_id: Seq<char>) -> bool {
        self.used_view().dom().contains(drive_id) && self.used_view()[drive_id].used_view().contains(token_id)
    }

    /// The owner, rules and path rules of a drive's ACL, or those of a new
    /// ACL of `owner` if the drive has none.
    pub open spec fn acl_or_new(&self, drive_id: Seq<char>, owner: Seq<char>) -> (Seq<char>, Map<
        Seq<char>,
        AccessRule,
    >, Seq<PathRule>) {
        if self.acls_view().dom().contains(drive_id) {
            (
                self.acls_view()[drive_id].owner_view(),
                self.acls_view()[drive_id].rules(),
                self.acls_view()[drive_id].path_rules_view(),
            )
        } else {
            (owner, Map::empty(), Seq::empty())
        }
    }

    /// The used single-use tokens of a drive (none if it has no tracker).
    pub open spec fn used_of(&self, drive_id: Seq<char>) -> Set<Seq<char>> {
        if self.used_view().dom().contains(drive_id) {
            self.used_view()[drive_id].used_view()
        } else {
            Set::empty()
        }
    }

    /// An empty store.
    pub fn new() -> (s: SecurityStore)
        ensures
            s.wf(),
            s.acls_view() == Map::<Seq<char>, AccessControlList>::empty(),
            s.used_view() == Map::<Seq<char>, TokenTracker>::empty(),
            s.revoked_view() == Map::<Seq<char>, TokenTracker>::empty(),
    {
        SecurityStore { acls: Vec::new(), token_trackers: Vec::new(), revoked_tokens: Vec::new() }
    }

    /// Take a drive's ACL out of the store (a new one of `owner` if it has none).
    fn take_acl(&mut self, drive_id: &str, owner: &str) -> (acl: AccessControlList)
        requires
            old(self).wf(),
        ensures
            final(self).wf(),
            acl.wf(),
            final(self).acls_view() == old(self).acls_view().remove(drive_id@),
            final(self).used_view() == old(self).used_view(),
            final(self).revoked_view() == old(self).revoked_view(),
            old(self).acls_view().dom().contains(drive_id@) ==> acl == old(self).acls_view()[drive_id@],
            !old(self).acls_view().dom().contains(drive_id@) ==> acl.owner_view() == owner@
                && acl.rules() == Map::<Seq<char>, AccessRule>::empty() && acl.path_rules_view()
                == Seq::<crate::access::PathRule>::empty(),
    {
        proof {
            if self.acls_view().dom().contains(drive_id@) {
                lemma_map_wf_acl(self.acls@, drive_id@);
            }
        }
        let ghost before = self.acls@;
        let r = assoc_remove(&mut self.acls, drive_id);
        proof {
            lemma_acls_wf_sub(before, self.acls@);
        }
        match r {
            Some(acl) => acl,
            None => AccessControlList::new(owner),
        }
    }

    /// Put a drive's ACL into the store.
    fn put_acl(&mut self, drive_id: &str, acl: AccessControlList)
        requires
            old(self).wf(),
            acl.wf(),
        ensures
            final(self).wf(),
            final(self).acls_view() == old(self).acls_view().insert(drive_id@, acl),
            final(self).used_view() == old(self).used_view(),
            final(self).revoked_view() == old(self).revoked_view(),
    {
        let ghost before = self.acls@;
        let ghost a = acl;
        assoc_insert(&mut self.acls, drive_id, acl);
        proof {
            lemma_acls_wf_insert(before, self.acls@, a);
        }
    }

    /// A copy of a drive's ACL, creating (and keeping) a new one of `owner`
    /// if the drive has none.
    pub fn get_or_create_acl(&mut self, drive_id: &str, owner: &str) -> (acl: AccessControlList)
        requires
            old(self).wf(),
        ensures
            final(self).wf(),
            acl.wf(),
            final(self).acls_view().dom() == old(self).acls_view().dom().insert(drive_id@),
            final(self).acls_view()[drive_id@].owner_view() == acl.owner_view(),
            final(self).acls_view()[drive_id@].rules() == acl.rules(),
            final(self).acls_view()[drive_id@].path_rules_view() == acl.path_rules_view(),
            (acl.owner_view(), acl.rules(), acl.path_rules_view()) == old(self).acl_or_new(
                drive_id@,
                owner@,
            ),
            forall|d: Seq<char>|
                d != drive_id@ && old(self).acls_view().dom().contains(d) ==> #[trigger] final(self).acls_view()[d] == old(self).acls_view()[d],
            final(self).used_view() == old(self).used_view(),
            final(self).revoked_view() == old(self).revoked_view(),
    {
        let acl = self.take_acl(drive_id, owner);
        let copy = acl.duplicate();
        self.put_acl(drive_id, acl);
        copy
    }

    /// Whether the sender of a gossip message may speak on a drive at `now`:
    /// read permission at the drive root under its access list (a drive with
    /// none gets an empty one, with no owner, which allows no sender).
    pub fn gossip_sender_allowed_at(&mut self, drive_id: &str, sender: &str, now: i64) -> (r: bool)
        requires
            old(self).wf(),
        ensures
            final(self).wf(),
            final(self).acls_view().dom() == old(self).acls_view().dom().insert(drive_id@),
            forall|d: Seq<char>|
                d != drive_id@ && old(self).acls_view().dom().contains(d) ==> #[trigger] final(self).acls_view()[d] == old(self).acls_view()[d],
            final(self).used_view() == old(self).used_view(),
            final(self).revoked_view() == old(self).revoked_view(),
            ({
                let (owner, rules, path_rules) = old(self).acl_or_new(drive_id@, Seq::empty());
                r == crate::access::permits_with(
                    owner,
                    rules,
                    path_rules,
                    sender@,
                    "/"@,
                    Permission::Read,
                    now,
                )
            }),
    {
        proof {
            reveal_strlit("");
            assert(""@ =~= Seq::<char>::empty());
        }
        let acl = self.get_or_create_acl(drive_id, "");
        acl.check_permission_at(sender, "/", Permission::Read, now)
    }

    /// Store the ACL of a drive.
    pub fn update_acl(&mut self, drive_id: &str, acl: AccessControlList)
        requires
            old(self).wf(),
            acl.wf(),
        ensures
            final(self).wf(),
            final(self).acls_view() == old(self).acls_view().insert(drive_id@, acl),
            final(self).used_view() == old(self).used_view(),
            final(self).revoked_view() == old(self).revoked_view(),
    {
        self.put_acl(drive_id, acl);
    }

    /// The ACL of a drive, if it has one.
    pub fn acl(&self, drive_id: &str) -> (r: Option<&AccessControlList>)
        requires
            self.wf(),
        ensures
            self.acls_view().dom().contains(drive_id@) ==> r == Some(&self.acls_view()[drive_id@]),
            !self.acls_view().dom().contains(drive_id@) ==> r is None,
            r matches Some(a) ==> a.wf(),
    {
        proof {
            if self.acls_view().dom().contains(drive_id@) {
                lemma_map_wf_acl(self.acls@, drive_id@);
            }
        }
        match assoc_find(&self.acls, drive_id) {
            Some(i) => Some(&self.acls[i].1),
            None => None,
        }
    }

    /// Remove the ACL of a drive (when the drive is deleted).
    pub fn delete_acl(&mut self, drive_id: &str)
        requires
            old(self).wf(),
        ensures
            final(self).wf(),
            final(self).acls_view() == old(self).acls_view().remove(drive_id@),
            final(self).used_view() == old(self).used_view(),
            final(self).revoked_view() == old(self).revoked_view(),
    {
        let ghost before = self.acls@;
        let _ = assoc_remove(&mut self.acls, drive_id);
        proof {
            lemma_acls_wf_sub(before, self.acls@);
        }
    }

    /// A copy of the tracker of used single-use tokens of a drive (empty if
    /// it has none).
    pub fn get_token_tracker(&self, drive_id: &str) -> (t: TokenTracker)
        requires
            self.wf(),
        ensures
            t.wf(),
            self.used_view().dom().contains(drive_id@) ==> t.used_view() == self.used_view()[drive_id@].used_view(),
            !self.used_view().dom().contains(drive_id@) ==> t.used_view() == Set::<Seq<char>>::empty(),
    {
        match assoc_find(&self.token_trackers, drive_id) {
            Some(i) => {
                proof {
                    lemma_map_wf_tracker(self.token_trackers@, drive_id@);
                }
                let ids = self.token_trackers[i].1.ids();
                TokenTracker::from_ids(ids.as_slice())
            },
            None => TokenTracker::new(),
        }
    }

    /// The tracker of used single-use tokens of a drive, if it has one.
    pub fn token_tracker(&self, drive_id: &str) -> (r: Option<&TokenTracker>)
        requires
            self.wf(),
        ensures
            self.used_view().dom().contains(drive_id@) ==> r == Some(&self.used_view()[drive_id@]),
            !self.used_view().dom().contains(drive_id@) ==> r is None,
    {
        match assoc_find(&self.token_trackers, drive_id) {
            Some(i) => Some(&self.token_trackers[i].1),
            None => None,
        }
    }

    /// Store the tracker of used single-use tokens of a drive.
    pub fn update_token_tracker(&mut self, drive_id: &str, tracker: TokenTracker)
        requires
            old(self).wf(),
            tracker.wf(),
        ensures
            final(self).wf(),
            final(self).used_view() == old(self).used_view().insert(drive_id@, tracker),
            final(self).acls_view() == old(self).acls_view(),
            final(self).revoked_view() == old(self).revoked_view(),
    {
        let ghost before = self.token_trackers@;
        let ghost t = tracker;
        assoc_insert(&mut self.token_trackers, drive_id, tracker);
        proof {
            lemma_trackers_wf_insert(before, self.token_trackers@, t);
        }
    }

    /// Whether a token of a drive is revoked.
    pub fn is_token_revoked(&self, drive_id: &str, token_id: &str) -> (r: bool)
        requires
            self.wf(),
        ensures
            r == self.revoked_at(drive_id@, token_id@),
    {
        match assoc_find(&self.revoked_tokens, drive_id) {
            Some(i) => self.revoked_tokens[i].1.is_used(token_id),
            None => false,
        }
    }

    /// Revoke a token of a drive.
    pub fn revoke_token(&mut self, drive_id: &str, token_id: &str)
        requires
            old(self).wf(),
        ensures
            final(self).wf(),
            final(self).revoked_view().dom() == old(self).revoked_view().dom().insert(drive_id@),
            final(self).revoked_view()[drive_id@].used_view() == (if old(self).revoked_view().dom().contains(drive_id@) {
                old(self).revoked_view()[drive_id@].used_view()
            } else {
                Set::<Seq<char>>::empty()
            }).insert(token_id@),
            forall|d: Seq<char>|
                d != drive_id@ ==> #[trigger] final(self).revoked_view().dom().contains(d) ==> final(self).revoked_view()[d] == old(self).revoked_view()[d],
            final(self).acls_view() == old(self).acls_view(),
            final(self).used_view() == old(self).used_view(),
    {
        let ghost before = self.revoked_tokens@;
        proof {
            if self.revoked_view().dom().contains(drive_id@) {
                lemma_map_wf_tracker(self.revoked_tokens@, drive_id@);
            }
        }
        let mut tracker = match assoc_remove(&mut self.revoked_tokens, drive_id) {
            Some(t) => t,
            None => TokenTracker::new(),
        };
        proof {
            lemma_trackers_wf_sub(before, self.revoked_tokens@);
        }
        tracker.mark_used(token_id);
        let ghost mid = self.revoked_tokens@;
        let ghost t = tracker;
        assoc_insert(&mut self.revoked_tokens, drive_id, tracker);
        proof {
            lemma_trackers_wf_insert(mid, self.revoked_tokens@, t);
        }
    }

    /// The revoked token ids of a drive (each once).
    pub fn get_revoked_tokens(&self, drive_id: &str) -> (v: Vec<String>)
        requires
            self.wf(),
        ensures
            strings_view(v@).no_duplicates(),
            self.revoked_view().dom().contains(drive_id@) ==> strings_view(v@).to_set()
                == self.revoked_view()[drive_id@].used_view(),
            !self.revoked_view().dom().contains(drive_id@) ==> v@.len() == 0,
    {
        match assoc_find(&self.revoked_tokens, drive_id) {
            Some(i) => {
                proof {
                    lemma_map_wf_tracker(self.revoked_tokens@, drive_id@);
                }
                self.revoked_tokens[i].1.ids()
            },
            None => Vec::new(),
        }
    }

    /// The drives that have revoked tokens.
    pub fn revoked_drives(&self) -> (v: Vec<String>)
        requires
            self.wf(),
        ensures
            forall|k: Seq<char>|
                v@.map_values(|x: String| x@).contains(k) <==> self.revoked_view().dom().contains(k),
            v@.map_values(|x: String| x@).no_duplicates(),
    {
        assoc_key_list(&self.revoked_tokens)
    }

    /// The drives that have ACLs.
    pub fn acl_drives(&self) -> (v: Vec<String>)
        requires
            self.wf(),
        ensures
            forall|k: Seq<char>|
                v@.map_values(|x: String| x@).contains(k) <==> self.acls_view().dom().contains(k),
            v@.map_values(|x: String| x@).no_duplicates(),
    {
        assoc_key_list(&self.acls)
    }

    /// The drives that have used single-use tokens.
    pub fn tracker_drives(&self) -> (v: Vec<String>)
        requires
            self.wf(),
        ensures
            forall|k: Seq<char>|
                v@.map_values(|x: String| x@).contains(k) <==> self.used_view().dom().contains(k),
            v@.map_values(|x: String| x@).no_duplicates(),
    {
        assoc_key_list(&self.token_trackers)
    }


    /// Verify a parsed invite at time `now` against the store's revocations.
    pub fn verify_invite_at(&self, token: &InviteToken, payload_bytes: &[u8], now: i64) -> (v:
        InviteVerification)
        requires
            self.wf(),
        ensures
            v.valid == (invite_problem(
                *token,
                payload_bytes@,
                now,
                self.revoked_at(token.payload.drive_id@, token.payload.token_id@),
            ) is None),
            opt_chars(v.error) == invite_problem(
                *token,
                payload_bytes@,
                now,
                self.revoked_at(token.payload.drive_id@, token.payload.token_id@),
            ),
            v.drive_id matches Some(d) && d@ == token.payload.drive_id@,
            v.drive_name matches Some(d) && d@ == token.payload.drive_name@,
            v.permission == Some(level_of(token.payload.permission)),
            v.inviter matches Some(i) && i@ == token.payload.inviter@,
            opt_chars(v.expires_at) == rfc3339_of_millis(token.payload.expires_at),
    {
        let revoked = self.is_token_revoked(token.payload.drive_id.as_str(), token.token_id());
        invite_verification(token, payload_bytes, now, revoked)
    }

    /// Check whether `caller` may accept a parsed invite at time `now`,
    /// against the store's revocations and used single-use tokens.
    pub fn check_invite_acceptance(
        &self,
        token: &InviteToken,
        payload_bytes: &[u8],
        caller: &str,
        now: i64,
    ) -> (r: Result<[u8; 32], AcceptInviteResult>)
        requires
            self.wf(),
        ensures
            acceptance_outcome(
                r,
                *token,
                payload_bytes@,
                now,
                self.revoked_at(token.payload.drive_id@, token.payload.token_id@),
                caller@,
                self.used_of(token.payload.drive_id@).contains(token.payload.token_id@),
            ),
    {
        let revoked = self.is_token_revoked(token.payload.drive_id.as_str(), token.token_id());
        let tracker = self.get_token_tracker(token.payload.drive_id.as_str());
        let used = tracker.is_used(token.token_id());
        acceptance_check(token, payload_bytes, now, revoked, caller, used)
    }

    /// Complete the acceptance of an invite that passed its checks: the
    /// caller is granted the token's permission (by the inviter, at `now`,
    /// without expiry) unless it already has a rule, and a single-use token
    /// is then marked used.
    pub fn complete_invite_acceptance(&mut self, token: &InviteToken, caller: &str, now: i64) -> (r:
        AcceptInviteResult)
        requires
            old(self).wf(),
        ensures
            final(self).wf(),
            r.success,
            r.error is None,
            r.drive_id@ == token.payload.drive_id@,
            r.drive_name@ == token.payload.drive_name@,
            r.permission == level_of(token.payload.permission),
            ({
                let d = token.payload.drive_id@;
                let (o, rules, prs) = old(self).acl_or_new(d, token.payload.inviter@);
                let after = final(self).acls_view()[d];
                &&& final(self).acls_view().dom() == old(self).acls_view().dom().insert(d)
                &&& after.owner_view() == o
                &&& after.path_rules_view() == prs
                &&& rules.dom().contains(caller@) ==> after.rules() == rules && final(self).used_view()
                    == old(self).used_view()
                &&& !rules.dom().contains(caller@) ==> granted(
                    rules,
                    after.rules(),
                    caller@,
                    token.payload.permission,
                    token.payload.inviter@,
                    now,
                    None,
                )
                &&& !rules.dom().contains(caller@) && token.payload.single_use ==> final(self).used_of(d) == old(self).used_of(d).insert(token.payload.token_id@)
                &&& !token.payload.single_use ==> final(self).used_view() == old(self).used_view()
                &&& forall|x: Seq<char>|
                    x != d && old(self).acls_view().dom().contains(x) ==> #[trigger] final(self).acls_view()[x] == old(self).acls_view()[x]
                &&& forall|x: Seq<char>|
                    x != d ==> #[trigger] final(self).used_of(x) == old(self).used_of(x)
            }),
            final(self).revoked_view() == old(self).revoked_view(),
    {
        let drive_id = token.payload.drive_id.as_str();
        let mut acl = self.take_acl(drive_id, token.payload.inviter.as_str());
        if acl.get_rule(caller).is_some() {
            self.put_acl(drive_id, acl);
            return acceptance_success(token);
        }
        let rule = AccessRule::new_at(token.payload.permission, token.payload.inviter.as_str(), now);
        acl.grant(caller, rule);
        self.put_acl(drive_id, acl);
        if token.payload.single_use {
            let mut tracker = self.get_token_tracker(drive_id);
            tracker.mark_used(token.token_id());
            self.update_token_tracker(drive_id, tracker);
        }
        acceptance_success(token)
    }

    /// Grant `target` a permission on a drive, by `caller` at time `now`,
    /// optionally expiring after some days: refused unless the caller may
    /// manage the drive.
    pub fn grant_permission_at(
        &mut self,
        drive_id: &str,
        owner: &str,
        caller: &str,
        target: &str,
        permission: PermissionLevel,
        expires_in_days: Option<u32>,
        now: i64,
    ) -> (r: Result<(), String>)
        requires
            old(self).wf(),
            expires_in_days matches Some(days) ==> now + 86400000 * days <= i64::MAX,
        ensures
            final(self).wf(),
            ({
                let d = drive_id@;
                let (o, rules, prs) = old(self).acl_or_new(d, owner@);
                let after = final(self).acls_view()[d];
                let allowed = permits_with(o, rules, prs, caller@, "/"@, Permission::Manage, now);
                &&& final(self).acls_view().dom() == old(self).acls_view().dom().insert(d)
                &&& after.owner_view() == o
                &&& after.path_rules_view() == prs
                &&& allowed ==> r is Ok && granted(
                    rules,
                    after.rules(),
                    target@,
                    permission_of(permission),
                    caller@,
                    now,
                    match expires_in_days {
                        Some(days) => Some((now + 86400000 * days) as i64),
                        None => None,
                    },
                )
                &&& !allowed ==> (r matches Err(m) && m@ == "Insufficient permission to grant access"@)
                    && after.rules() == rules
                &&& forall|x: Seq<char>|
                    x != d && old(self).acls_view().dom().contains(x) ==> #[trigger] final(self).acls_view()[x] == old(self).acls_view()[x]
            }),
            final(self).used_view() == old(self).used_view(),
            final(self).revoked_view() == old(self).revoked_view(),
    {
        let mut acl = self.take_acl(drive_id, owner);
        if !acl.check_permission_at(caller, "/", Permission::Manage, now) {
            self.put_acl(drive_id, acl);
            return Err(String::from_str("Insufficient permission to grant access"));
        }
        let mut rule = AccessRule::new_at(to_permission(permission), caller, now);
        match expires_in_days {
            Some(days) => {
                rule = rule.with_expiry(now + 86400000 * (days as i64));
            },
            None => {},
        }
        acl.grant(target, rule);
        self.put_acl(drive_id, acl);
        Ok(())
    }

    /// Revoke `target`'s access to a drive, by `caller` at time `now`: the
    /// owner's access cannot be revoked, and the caller must be able to
    /// manage the drive.
    pub fn revoke_permission_at(
        &mut self,
        drive_id: &str,
        owner: &str,
        caller: &str,
        target: &str,
        now: i64,
    ) -> (r: Result<(), String>)
        requires
            old(self).wf(),
        ensures
            final(self).wf(),
            target@ == owner@ ==> (r matches Err(m) && m@ == "Cannot revoke owner's access"@) && final(self).acls_view() == old(self).acls_view(),
            target@ != owner@ ==> ({
                let d = drive_id@;
                let (o, rules, prs) = old(self).acl_or_new(d, owner@);
                let after = final(self).acls_view()[d];
                let allowed = permits_with(o, rules, prs, caller@, "/"@, Permission::Manage, now);
                &&& final(self).acls_view().dom() == old(self).acls_view().dom().insert(d)
                &&& after.owner_view() == o
                &&& after.path_rules_view() == prs
                &&& allowed ==> r is Ok && after.rules() == rules.remove(target@)
                &&& !allowed ==> (r matches Err(m) && m@ == "Insufficient permission to revoke access"@)
                    && after.rules() == rules
                &&& forall|x: Seq<char>|
                    x != d && old(self).acls_view().dom().contains(x) ==> #[trigger] final(self).acls_view()[x] == old(self).acls_view()[x]
            }),
            final(self).used_view() == old(self).used_view(),
            final(self).revoked_view() == old(self).revoked_view(),
    {
        let t = crate::text::chars_of(target);
        let o = crate::text::chars_of(owner);
        if crate::text::chars_eq(t.as_slice(), o.as_slice()) {
            return Err(String::from_str("Cannot revoke owner's access"));
        }
        let mut acl = self.take_acl(drive_id, owner);
        if !acl.check_permission_at(caller, "/", Permission::Manage, now) {
            self.put_acl(drive_id, acl);
            return Err(String::from_str("Insufficient permission to revoke access"));
        }
        let _ = acl.revoke(target);
        self.put_acl(drive_id, acl);
        Ok(())
    }

    /// Whether `node_id` has `required` on `path` of a drive at time `now`
    /// (a new ACL of `owner` is kept for a drive that had none).
    pub fn check_permission_at(
        &mut self,
        drive_id: &str,
        owner: &str,
        node_id: &str,
        path: &str,
        required: PermissionLevel,
        now: i64,
    ) -> (r: bool)
        requires
            old(self).wf(),
        ensures
            final(self).wf(),
            ({
                let (o, rules, prs) = old(self).acl_or_new(drive_id@, owner@);
                r == permits_with(o, rules, prs, node_id@, path@, permission_of(required), now)
            }),
            final(self).acls_view().dom() == old(self).acls_view().dom().insert(drive_id@),
            final(self).acl_or_new(drive_id@, owner@) == old(self).acl_or_new(drive_id@, owner@),
            final(self).used_view() == old(self).used_view(),
            final(self).revoked_view() == old(self).revoked_view(),
    {
        let acl = self.take_acl(drive_id, owner);
        let r = acl.check_permission_at(node_id, path, to_permission(required), now);
        self.put_acl(drive_id, acl);
        r
    }

    /// Revoke an invite token of a drive, by `caller` at time `now`: the
    /// caller must be able to manage the drive. Revocation is permanent.
    pub fn revoke_invite_at(
        &mut self,
        drive_id: &str,
        owner: &str,
        caller: &str,
        token_id: &str,
        now: i64,
    ) -> (r: Result<(), String>)
        requires
            old(self).wf(),
        ensures
            final(self).wf(),
            ({
                let (o, rules, prs) = old(self).acl_or_new(drive_id@, owner@);
                let allowed = permits_with(o, rules, prs, caller@, "/"@, Permission::Manage, now);
                &&& allowed ==> r is Ok && final(self).revoked_at(drive_id@, token_id@)
                &&& allowed ==> forall|t: Seq<char>|
                    old(self).revoked_at(drive_id@, t) ==> #[trigger] final(self).revoked_at(
                        drive_id@,
                        t,
                    )
                &&& !allowed ==> (r matches Err(m) && m@ == "Insufficient permission to revoke invites"@)
                    && final(self).revoked_view() == old(self).revoked_view()
            }),
            final(self).acls_view().dom() == old(self).acls_view().dom().insert(drive_id@),
            final(self).acl_or_new(drive_id@, owner@) == old(self).acl_or_new(drive_id@, owner@),
            final(self).used_view() == old(self).used_view(),
    {
        let acl = self.take_acl(drive_id, owner);
        let allowed = acl.check_permission_at(caller, "/", Permission::Manage, now);
        self.put_acl(drive_id, acl);
        if !allowed {
            return Err(String::from_str("Insufficient permission to revoke invites"));
        }
        self.revoke_token(drive_id, token_id);
        Ok(())
    }

    /// The total number of user rules over all drives.
    pub closed spec fn rule_count(&self) -> int {
        rules_total(self.acls@)
    }

    /// Remove the rules expired at time `now` from every drive's ACL. Returns
    /// how many rules were removed, and the drives whose ACL lost rules.
    pub fn cleanup_expired_at(&mut self, now: i64) -> (r: (usize, Vec<String>))
        requires
            old(self).wf(),
        ensures
            final(self).wf(),
            final(self).acls_view().dom() == old(self).acls_view().dom(),
            forall|d: Seq<char>| #[trigger]
                final(self).acls_view().dom().contains(d) ==> cleaned(
                    old(self).acls_view()[d],
                    final(self).acls_view()[d],
                    now,
                ),
            final(self).rule_count() <= old(self).rule_count(),
            r.0 == crate::assoc::saturated((old(self).rule_count() - final(self).rule_count()) as nat),
            forall|d: Seq<char>|
                strings_view(r.1@).contains(d) <==> (old(self).acls_view().dom().contains(d) && #[trigger] final(self).acls_view()[d].rules().len()
                    < old(self).acls_view()[d].rules().len()),
            final(self).used_view() == old(self).used_view(),
            final(self).revoked_view() == old(self).revoked_view(),
    {
        let ghost old_acls = self.acls@;
        let mut done: Vec<(String, AccessControlList)> = Vec::new();
        let mut modified: Vec<String> = Vec::new();
        let mut total: usize = 0;
        let mut i: usize = 0;
        proof {
            lemma_rules_total_nonneg(old_acls);
        }
        while i < self.acls.len()
            invariant
                self.acls@ == old_acls,
                assoc_wf(old_acls),
                acls_wf(old_acls),
                i <= old_acls.len(),
                done@.len() == i,
                acls_wf(done@),
                forall|j: int|
                    0 <= j < i ==> (#[trigger] done@[j]).0@ == old_acls[j].0@ && cleaned(
                        old_acls[j].1,
                        done@[j].1,
                        now,
                    ),
                rules_total(done@) <= rules_total(old_acls.subrange(0, i as int)),
                total == crate::assoc::saturated(
                    (rules_total(old_acls.subrange(0, i as int)) - rules_total(done@)) as nat,
                ),
                forall|d: Seq<char>|
                    #[trigger] strings_view(modified@).contains(d) <==> exists|j: int|
                        0 <= j < i && old_acls[j].0@ == d && (#[trigger] done@[j]).1.rules().len()
                            < old_acls[j].1.rules().len(),
            decreases old_acls.len() - i,
        {
            let ghost done_before = done@;
            let ghost mod_before = strings_view(modified@);
            let k = self.acls[i].0.clone();
            assert(old_acls[i as int].1.wf());
            let mut acl = self.acls[i].1.duplicate();
            let n = acl.cleanup_expired_at(now);
            proof {
                lemma_rules_total_prefix(old_acls, i as int);
                lemma_rules_total_nonneg(done@);
                lemma_rule_len_after_cleanup(acl.rules());
            }
            total = total.saturating_add(n);
            if n > 0 {
                let kc = k.clone();
                modified.push(kc);
                assert(strings_view(modified@) =~= mod_before.push(k@));
            }
            let ghost kv = k@;
            let ghost shrunk = acl.rules().len() < old_acls[i as int].1.rules().len();
            assert(shrunk <==> n > 0);
            done.push((k, acl));
            assert(done@[i as int].0@ == kv);
            assert(done@[i as int].1.rules().len() < old_acls[i as int].1.rules().len() <==> n > 0);
            assert(done@.drop_last() =~= done_before);
            assert(old_acls.subrange(0, i + 1).drop_last() =~= old_acls.subrange(0, i as int));
            proof {
                assert forall|d: Seq<char>|
                    #[trigger] strings_view(modified@).contains(d) <==> exists|j: int|
                        0 <= j < i + 1 && old_acls[j].0@ == d && (#[trigger] done@[j]).1.rules().len()
                            < old_acls[j].1.rules().len() by {
                    if n > 0 {
                        crate::assoc::lemma_seq_push_contains(mod_before, kv, d);
                    } else {
                        assert(strings_view(modified@) == mod_before);
                    }
                    assert(mod_before.contains(d) <==> exists|j: int|
                        0 <= j < i && old_acls[j].0@ == d && (#[trigger] done_before[j]).1.rules().len()
                            < old_acls[j].1.rules().len());
                    if exists|j: int|
                        0 <= j < i + 1 && old_acls[j].0@ == d && (#[trigger] done@[j]).1.rules().len()
                            < old_acls[j].1.rules().len() {
                        let j = choose|j: int|
                            0 <= j < i + 1 && old_acls[j].0@ == d && (#[trigger] done@[j]).1.rules().len()
                                < old_acls[j].1.rules().len();
                        if j < i {
                            assert(done_before[j] == done@[j]);
                        }
                    }
                    if exists|j: int|
                        0 <= j < i && old_acls[j].0@ == d && (#[trigger] done_before[j]).1.rules().len()
                            < old_acls[j].1.rules().len() {
                        let j = choose|j: int|
                            0 <= j < i && old_acls[j].0@ == d && (#[trigger] done_before[j]).1.rules().len()
                                < old_acls[j].1.rules().len();
                        assert(done_before[j] == done@[j]);
                    }
                }
                assert forall|j: int| 0 <= j < i + 1 implies (#[trigger] done@[j]).0@ == old_acls[j].0@
                    && cleaned(old_acls[j].1, done@[j].1, now) by {
                    if j < i {
                        assert(done_before[j] == done@[j]);
                    }
                }
                assert forall|j: int| 0 <= j < done@.len() implies (#[trigger] done@[j]).1.wf() by {
                    if j < i {
                        assert(done_before[j] == done@[j]);
                    }
                }
            }
            i = i + 1;
        }
        assert(old_acls.subrange(0, old_acls.len() as int) =~= old_acls);
        proof {
            assert(assoc_keys(done@) =~= assoc_keys(old_acls));
            lemma_assoc_dom(done@);
            lemma_assoc_dom(old_acls);
            assert forall|d: Seq<char>| #[trigger]
                assoc_map(done@).dom().contains(d) implies cleaned(
                    assoc_map(old_acls)[d],
                    assoc_map(done@)[d],
                    now,
                ) && (strings_view(modified@).contains(d) <==> assoc_map(
                    done@,
                )[d].rules().len() < assoc_map(old_acls)[d].rules().len()) by {
                let j = lemma_assoc_index(old_acls, d);
                assert(assoc_keys(done@)[j] == d);
                lemma_assoc_at(done@, j);
                if strings_view(modified@).contains(d) {
                    let m = choose|m: int|
                        0 <= m < old_acls.len() && old_acls[m].0@ == d && (#[trigger] done@[m]).1.rules().len()
                            < old_acls[m].1.rules().len();
                }
            }
            assert(assoc_map(done@).dom() =~= assoc_map(old_acls).dom());
            assert forall|d: Seq<char>|
                strings_view(modified@).contains(d) implies assoc_map(old_acls).dom().contains(d) by {
                let m = choose|m: int|
                    0 <= m < old_acls.len() && old_acls[m].0@ == d && (#[trigger] done@[m]).1.rules().len()
                        < old_acls[m].1.rules().len();
                assert(assoc_keys(old_acls)[m] == d);
            }
        }
        self.acls = done;
        (total, modified)
    }

    /// The permissions of a drive as the frontend is shown them at time
    /// `now`: the owner first (as Admin, granted at the drive's creation),
    /// then every user with an unexpired rule.
    pub fn list_permissions_at(&mut self, drive_id: &str, owner: &str, created_at: i64, now: i64) -> (v:
        Vec<UserPermission>)
        requires
            old(self).wf(),
        ensures
            final(self).wf(),
            final(self).acls_view().dom() == old(self).acls_view().dom().insert(drive_id@),
            final(self).acl_or_new(drive_id@, owner@) == old(self).acl_or_new(drive_id@, owner@),
            final(self).used_view() == old(self).used_view(),
            final(self).revoked_view() == old(self).revoked_view(),
            v@.len() >= 1,
            v@[0].node_id@ == owner@,
            v@[0].permission == PermissionLevel::Admin,
            v@[0].granted_by@ == owner@,
            v@[0].granted_at@ == rfc3339_text(created_at),
            v@[0].expires_at is None,
            v@[0].is_owner,
            ({
                let (o, rules, prs) = old(self).acl_or_new(drive_id@, owner@);
                &&& forall|i: int|
                    1 <= i < v@.len() ==> listed(rules, #[trigger] v@[i], now)
                &&& forall|k: Seq<char>|
                    rules.dom().contains(k) && !rule_expired_at(rules[k], now) ==> exists|i: int|
                        1 <= i < v@.len() && (#[trigger] v@[i]).node_id@ == k
            }),
    {
        let acl = self.take_acl(drive_id, owner);
        let mut out: Vec<UserPermission> = Vec::new();
        out.push(
            UserPermission {
                node_id: String::from_str(owner),
                permission: PermissionLevel::Admin,
                granted_by: String::from_str(owner),
                granted_at: rfc3339_or_empty(created_at),
                expires_at: None,
                is_owner: true,
            },
        );
        let users = acl.users();
        let ghost names = users@.map_values(|x: String| x@);
        let mut i: usize = 0;
        while i < users.len()
            invariant
                acl.wf(),
                names == users@.map_values(|x: String| x@),
                forall|k: Seq<char>|
                    names.contains(k) <==> (acl.rules().dom().contains(k) || k == acl.owner_view()),
                i <= users@.len(),
                out@.len() >= 1,
                out@[0].node_id@ == owner@,
                out@[0].permission == PermissionLevel::Admin,
                out@[0].granted_by@ == owner@,
                out@[0].granted_at@ == rfc3339_text(created_at),
                out@[0].expires_at is None,
                out@[0].is_owner,
                forall|j: int| 1 <= j < out@.len() ==> listed(acl.rules(), #[trigger] out@[j], now),
                forall|j: int|
                    0 <= j < i && acl.rules().dom().contains(names[j]) && !rule_expired_at(
                        acl.rules()[names[j]],
                        now,
                    ) ==> exists|m: int| 1 <= m < out@.len() && (#[trigger] out@[m]).node_id@ == names[j],
            decreases users@.len() - i,
        {
            let ghost out_before = out@;
            let name = users[i].as_str();
            assert(name@ == names[i as int]);
            match acl.get_rule(name) {
                Some(rule) => {
                    if !rule.is_expired_at(now) {
                        let expires = match rule.expires_at {
                            Some(t) => Some(rfc3339_or_empty(t)),
                            None => None,
                        };
                        out.push(
                            UserPermission {
                                node_id: String::from_str(name),
                                permission: to_level(rule.permission),
                                granted_by: rule.granted_by.clone(),
                                granted_at: rfc3339_or_empty(rule.granted_at),
                                expires_at: expires,
                                is_owner: false,
                            },
                        );
                        assert(out@[out@.len() - 1].node_id@ == names[i as int]);
                    }
                },
                None => {},
            }
            proof {
                assert forall|j: int| 1 <= j < out@.len() implies listed(acl.rules(), #[trigger] out@[j], now) by {
                    if j < out_before.len() {
                        assert(out_before[j] == out@[j]);
                    }
                }
                assert forall|j: int|
                    0 <= j < i + 1 && acl.rules().dom().contains(names[j]) && !rule_expired_at(
                        acl.rules()[names[j]],
                        now,
                    ) implies exists|m: int| 1 <= m < out@.len() && (#[trigger] out@[m]).node_id@ == names[j] by {
                    if j < i {
                        let m = choose|m: int|
                            1 <= m < out_before.len() && (#[trigger] out_before[m]).node_id@ == names[j];
                        assert(out@[m] == out_before[m]);
                    } else {
                        assert(out@[out@.len() - 1].node_id@ == names[i as int]);
                    }
                }
            }
            i = i + 1;
        }
        proof {
            assert forall|k: Seq<char>|
                acl.rules().dom().contains(k) && !rule_expired_at(acl.rules()[k], now) implies exists|i: int|
                    1 <= i < out@.len() && (#[trigger] out@[i]).node_id@ == k by {
                assert(names.contains(k));
                let j = choose|j: int| 0 <= j < names.len() && names[j] == k;
            }
        }
        self.put_acl(drive_id, acl);
        out
    }
}


/// `after` is `before` with `target`'s rule replaced by a new one of the
/// given permission, grantor, time and expiry (and no note).
pub open spec fn granted(
    before: Map<Seq<char>, AccessRule>,
    after: Map<Seq<char>, AccessRule>,
    target: Seq<char>,
    permission: Permission,
    by: Seq<char>,
    at: i64,
    expires_at: Option<i64>,
) -> bool {
    &&& after.dom() == before.dom().insert(target)
    &&& after[target].permission == permission
    &&& after[target].granted_by@ == by
    &&& after[target].granted_at == at
    &&& after[target].expires_at == expires_at
    &&& after[target].note is None
    &&& forall|k: Seq<char>| k != target && #[trigger] before.dom().contains(k) ==> after[k] == before[k]
}


/// The rules of `after` are those of `before` that are unexpired at `now`,
/// the owner and path rules unchanged.
pub open spec fn cleaned(before: AccessControlList, after: AccessControlList, now: i64) -> bool {
    &&& after.owner_view() == before.owner_view()
    &&& after.path_rules_view() == before.path_rules_view()
    &&& forall|k: Seq<char>|
        #![trigger after.rules().dom().contains(k)]
        after.rules().dom().contains(k) <==> (before.rules().dom().contains(k) && !rule_expired_at(
            before.rules()[k],
            now,
        ))
    &&& forall|k: Seq<char>| #[trigger]
        after.rules().dom().contains(k) ==> after.rules()[k] == before.rules()[k]
    &&& after.rules().len() <= before.rules().len()
}

/// A listed user permission is that of an unexpired rule of its user.
pub open spec fn listed(rules: Map<Seq<char>, AccessRule>, u: UserPermission, now: i64) -> bool {
    &&& rules.dom().contains(u.node_id@)
    &&& !rule_expired_at(rules[u.node_id@], now)
    &&& u.permission == level_of(rules[u.node_id@].permission)
    &&& u.granted_by@ == rules[u.node_id@].granted_by@
    &&& u.granted_at@ == rfc3339_text(rules[u.node_id@].granted_at)
    &&& opt_chars(u.expires_at) == match rules[u.node_id@].expires_at {
        Some(t) => Some(rfc3339_text(t)),
        None => None,
    }
    &&& !u.is_owner
}

proof fn lemma_rules_total_nonneg(s: Seq<(String, AccessControlList)>)
    ensures
        rules_total(s) >= 0,
    decreases s.len(),
{
    if s.len() > 0 {
        lemma_rules_total_nonneg(s.drop_last());
    }
}

proof fn lemma_rules_total_prefix(s: Seq<(String, AccessControlList)>, i: int)
    requires
        0 <= i < s.len(),
    ensures
        rules_total(s.subrange(0, i + 1)) == rules_total(s.subrange(0, i)) + s[i].1.rules().len(),
        rules_total(s.subrange(0, i + 1)) <= rules_total(s),
    decreases s.len(),
{
    assert(s.subrange(0, i + 1).drop_last() =~= s.subrange(0, i));
    if i + 1 < s.len() {
        lemma_rules_total_prefix(s.drop_last(), i);
        assert(s.drop_last().subrange(0, i + 1) =~= s.subrange(0, i + 1));
        lemma_rules_total_nonneg(s.drop_last());
    } else {
        assert(s.subrange(0, i + 1) =~= s);
    }
}

proof fn lemma_rule_len_after_cleanup(m: Map<Seq<char>, AccessRule>)
    ensures
        m.len() >= 0,
{
}


/// Whoever accepted an invite (other than the owner) holds the invite's
/// permission from then on: the rule it is granted does not expire.
pub proof fn law_acceptance_grants_permission(
    before: Map<Seq<char>, AccessRule>,
    after: Map<Seq<char>, AccessRule>,
    owner: Seq<char>,
    caller: Seq<char>,
    permission: Permission,
    inviter: Seq<char>,
    at: i64,
    later: i64,
)
    requires
        granted(before, after, caller, permission, inviter, at, None),
        caller != owner,
    ensures
        user_permission_with(owner, after, caller, later) == Some(permission),
{
}

/// A grant with an expiry gives the permission until the expiry and nothing
/// after it.
pub proof fn law_granted_until_expiry(
    before: Map<Seq<char>, AccessRule>,
    after: Map<Seq<char>, AccessRule>,
    owner: Seq<char>,
    target: Seq<char>,
    permission: Permission,
    by: Seq<char>,
    at: i64,
    expires_at: i64,
    t: i64,
)
    requires
        granted(before, after, target, permission, by, at, Some(expires_at)),
        target != owner,
    ensures
        t <= expires_at ==> user_permission_with(owner, after, target, t) == Some(permission),
        t > expires_at ==> user_permission_with(owner, after, target, t) is None,
{
}

} // verus!
