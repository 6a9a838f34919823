//! Access control for shared drives: permission levels, per-user rules with
//! optional expiry, and path rules that restrict or deny access.
//!
//! Times are Unix milliseconds.
use vstd::prelude::*;
use crate::clock::{now_millis, INSTANT_BOUND};
use crate::text::{
    chars_eq, chars_of, contains_char, contains_seq, ends_with, find_sub, has_prefix, has_suffix,
    occurs_at, slice_chars, split_char, split_on, starts_with, string_from_chars, trim_end_char,
    trim_end_matches, trim_start_char, trim_start_matches,
};

verus! {

/// Permission levels for drive access, from weakest to strongest.
#[derive(Clone, Copy, Debug, PartialEq, Eq, Structural, PartialOrd, Ord, Hash)]
pub enum Permission {
    /// Can view files and download.
    Read,
    /// Can read + upload, modify, delete files.
    Write,
    /// Can write + manage other users (invite, change permissions).
    Manage,
    /// Full control including key rotation, drive deletion.
    Admin,
}

/// The rank of a permission level.
pub open spec fn level(p: Permission) -> nat {
    match p {
        Permission::Read => 0,
        Permission::Write => 1,
        Permission::Manage => 2,
        Permission::Admin => 3,
    }
}

/// The weaker of two permissions.
pub open spec fn min_permission(a: Permission, b: Permission) -> Permission {
    if level(b) < level(a) {
        b
    } else {
        a
    }
}

impl Default for Permission {
    fn default() -> (p: Permission)
        ensures
            p == Permission::Read,
    {
        Permission::Read
    }
}

impl Permission {
    /// The rank of this permission level.
    pub fn rank(&self) -> (r: u8)
        ensures
            r as nat == level(*self),
    {
        match self {
            Permission::Read => 0,
            Permission::Write => 1,
            Permission::Manage => 2,
            Permission::Admin => 3,
        }
    }

    /// Check if this permission grants at least the required level.
    pub fn satisfies(&self, required: Permission) -> (r: bool)
        ensures
            r == (level(*self) >= level(required)),
    {
        self.rank() >= required.rank()
    }

    /// The display name of a permission.
    pub open spec fn spec_display_name(&self) -> Seq<char> {
        match self {
            Permission::Read => "Read"@,
            Permission::Write => "Read & Write"@,
            Permission::Manage => "Manager"@,
            Permission::Admin => "Admin"@,
        }
    }

    /// Get the display name for this permission.
    pub fn display_name(&self) -> (s: &'static str)
        ensures
            s@ == self.spec_display_name(),
    {
        match self {
            Permission::Read => "Read",
            Permission::Write => "Read & Write",
            Permission::Manage => "Manager",
            Permission::Admin => "Admin",
        }
    }
}

/// An access rule for a specific user.
#[derive(Debug)]
pub struct AccessRule {
    /// The permission level granted.
    pub permission: Permission,
    /// When the access was granted (Unix ms).
    pub granted_at: i64,
    /// Who granted this access (NodeId hex).
    pub granted_by: String,
    /// Optional expiration time (Unix ms).
    pub expires_at: Option<i64>,
    /// Optional note about the access.
    pub note: Option<String>,
}

/// A copy of an optional string.
pub fn clone_opt_string(s: &Option<String>) -> (r: Option<String>)
    ensures
        r == *s,
{
    match s {
        Some(x) => Some(x.clone()),
        None => None,
    }
}

impl Clone for AccessRule {
    fn clone(&self) -> (r: AccessRule)
        ensures
            r == *self,
    {
        AccessRule {
            permission: self.permission,
            granted_at: self.granted_at,
            granted_by: self.granted_by.clone(),
            expires_at: self.expires_at,
            note: clone_opt_string(&self.note),
        }
    }
}

/// The rule has expired at time `now`.
pub open spec fn rule_expired_at(r: AccessRule, now: i64) -> bool {
    match r.expires_at {
        Some(exp) => exp < now,
        None => false,
    }
}

impl AccessRule {
    /// Create a new access rule granted at `granted_at`.
    pub fn new_at(permission: Permission, granted_by: &str, granted_at: i64) -> (r: AccessRule)
        ensures
            r.permission == permission,
            r.granted_by@ == granted_by@,
            r.granted_at == granted_at,
            r.expires_at is None,
            r.note is None,
    {
        AccessRule {
            permission,
            granted_at,
            granted_by: String::from_str(granted_by),
            expires_at: None,
            note: None,
        }
    }

    /// Create a new access rule granted now.
    pub fn new(permission: Permission, granted_by: &str) -> (r: AccessRule)
        ensures
            r.permission == permission,
            r.granted_by@ == granted_by@,
            r.expires_at is None,
            r.note is None,
            -INSTANT_BOUND < r.granted_at < INSTANT_BOUND,
    {
        Self::new_at(permission, granted_by, now_millis())
    }

    /// Set expiration time.
    pub fn with_expiry(self, expires_at: i64) -> (r: AccessRule)
        ensures
            r == (AccessRule { expires_at: Some(expires_at), ..self }),
    {
        AccessRule { expires_at: Some(expires_at), ..self }
    }

    /// Set a note.
    pub fn with_note(self, note: &str) -> (r: AccessRule)
        ensures
            r.note matches Some(n) && n@ == note@,
            r.permission == self.permission,
            r.granted_at == self.granted_at,
            r.granted_by == self.granted_by,
            r.expires_at == self.expires_at,
    {
        AccessRule { note: Some(String::from_str(note)), ..self }
    }

    /// Whether the rule has expired at time `now`.
    pub fn is_expired_at(&self, now: i64) -> (r: bool)
        ensures
            r == rule_expired_at(*self, now),
    {
        match self.expires_at {
            Some(exp) => exp < now,
            None => false,
        }
    }

    /// Check if the rule has expired (against the wall clock).
    pub fn is_expired(&self) -> (r: bool)
        ensures
            self.expires_at is None ==> !r,
            exists|now: i64| -INSTANT_BOUND < now < INSTANT_BOUND && r == rule_expired_at(*self, now),
    {
        let now = now_millis();
        let r = self.is_expired_at(now);
        assert(r == rule_expired_at(*self, now));
        r
    }

    /// Check if the rule is still valid (against the wall clock).
    pub fn is_valid(&self) -> (r: bool)
        ensures
            self.expires_at is None ==> r,
            exists|now: i64| -INSTANT_BOUND < now < INSTANT_BOUND && r == !rule_expired_at(*self, now),
    {
        let now = now_millis();
        let r = !self.is_expired_at(now);
        assert(r == !rule_expired_at(*self, now));
        r
    }
}

// ---------------------------------------------------------------------------
// Path rules
// ---------------------------------------------------------------------------

/// The leftmost occurrence of `p` in `s`.
pub open spec fn first_occurrence(s: Seq<char>, p: Seq<char>) -> int {
    choose|i: int| occurs_at(s, p, i) && forall|j: int| 0 <= j < i ==> !occurs_at(s, p, j)
}

/// `pattern` splits on `**` into exactly two pieces.
pub open spec fn has_single_double_star(pattern: Seq<char>) -> bool {
    contains_seq(pattern, seq!['*', '*']) && !contains_seq(
        pattern.subrange(first_occurrence(pattern, seq!['*', '*']) + 2, pattern.len() as int),
        seq!['*', '*'],
    )
}

/// A segment pattern (`*` matches characters within one segment) matches a segment.
///
/// A pattern with exactly one `*` matches segments that start with the part
/// before it and end with the part after it, the two parts not overlapping;
/// a pattern with several `*` matches only itself.
pub open spec fn segment_pattern_matches(pattern: Seq<char>, segment: Seq<char>) -> bool {
    if pattern == seq!['*'] {
        true
    } else if !pattern.contains('*') {
        pattern == segment
    } else if split_char(pattern, '*').len() == 2 {
        let prefix = split_char(pattern, '*')[0];
        let suffix = split_char(pattern, '*')[1];
        starts_with(segment, prefix) && ends_with(segment, suffix) && segment.len() >= prefix.len()
            + suffix.len()
    } else {
        pattern == segment
    }
}

/// A segment pattern with one `*`, `prefix*suffix`, matches exactly the
/// segments that start with `prefix` and end with `suffix`, the two not
/// overlapping: `*.txt` never matches a name that does not end in `.txt`.
pub proof fn law_star_segment_needs_prefix_and_suffix(
    prefix: Seq<char>,
    suffix: Seq<char>,
    segment: Seq<char>,
)
    requires
        !prefix.contains('*'),
        !suffix.contains('*'),
    ensures
        segment_pattern_matches(prefix + seq!['*'] + suffix, segment) <==> (prefix.len()
            + suffix.len() <= segment.len() && segment.subrange(0, prefix.len() as int) == prefix
            && segment.subrange(segment.len() - suffix.len(), segment.len() as int) == suffix),
{
    let pat = prefix + seq!['*'] + suffix;
    assert(pat[prefix.len() as int] == '*');
    assert(pat.contains('*'));
    crate::validation::lemma_split_concat(prefix, suffix, '*');
    crate::text::lemma_split_no_sep(prefix, '*');
    crate::text::lemma_split_no_sep(suffix, '*');
    assert(split_char(pat, '*') =~= seq![prefix, suffix]);
    if pat == seq!['*'] {
        assert(prefix.len() == 0 && suffix.len() == 0);
        assert(segment.subrange(0, 0) =~= prefix);
        assert(segment.subrange(segment.len() as int, segment.len() as int) =~= suffix);
    }
}

/// A segment pattern without `*` matches only the identical segment.
pub proof fn law_plain_segment_matches_itself(pattern: Seq<char>, segment: Seq<char>)
    requires
        !pattern.contains('*'),
    ensures
        segment_pattern_matches(pattern, segment) <==> pattern == segment,
{
    if pattern == seq!['*'] {
        assert(pattern[0] == '*');
    }
}

/// Every segment of a path matches the segment pattern at the same position.
pub open spec fn segments_match(pp: Seq<Seq<char>>, sp: Seq<Seq<char>>) -> bool {
    pp.len() == sp.len() && forall|i: int|
        0 <= i < pp.len() ==> segment_pattern_matches(#[trigger] pp[i], sp[i])
}

/// A path pattern matches a path (leading slashes ignored on both).
///
/// `**` matches everything; `prefix/**/suffix` matches paths that start with
/// `prefix` and end with `suffix`; `*` matches characters within one segment;
/// anything else matches only the identical path.
pub open spec fn path_pattern_matches(pattern0: Seq<char>, path0: Seq<char>) -> bool {
    let pattern = trim_start_char(pattern0, '/');
    let path = trim_start_char(path0, '/');
    if pattern == seq!['*', '*'] {
        true
    } else if has_single_double_star(pattern) {
        let i = first_occurrence(pattern, seq!['*', '*']);
        let prefix = trim_end_char(pattern.subrange(0, i), '/');
        let suffix = trim_start_char(pattern.subrange(i + 2, pattern.len() as int), '/');
        (prefix.len() == 0 || starts_with(path, prefix)) && (suffix.len() == 0 || ends_with(
            path,
            suffix,
        ))
    } else if pattern.contains('*') && !contains_seq(pattern, seq!['*', '*']) {
        segments_match(split_char(pattern, '/'), split_char(path, '/'))
    } else {
        pattern == path
    }
}

/// A path-based access rule for fine-grained control.
#[derive(Debug)]
pub struct PathRule {
    /// Path pattern (supports glob-like matching).
    pub pattern: String,
    /// The permission level for this path.
    pub permission: Permission,
    /// Whether to deny instead of allow.
    pub deny: bool,
}

impl Clone for PathRule {
    fn clone(&self) -> (r: PathRule)
        ensures
            r == *self,
    {
        PathRule { pattern: self.pattern.clone(), permission: self.permission, deny: self.deny }
    }
}

/// Match a single path segment against a pattern with potential wildcards.
pub fn segment_matches(pattern: &[char], segment: &[char]) -> (r: bool)
    ensures
        r == segment_pattern_matches(pattern@, segment@),
{
    let star: Vec<char> = vec!['*'];
    assert(star@ =~= seq!['*']);
    if chars_eq(pattern, star.as_slice()) {
        return true;
    }
    if !contains_char(pattern, '*') {
        return chars_eq(pattern, segment);
    }
    let parts = split_on(pattern, '*');
    let ghost pv = parts@.map_values(|v: Vec<char>| v@);
    if parts.len() == 2 {
        assert(pv[0] == parts@[0]@ && pv[1] == parts@[1]@);
        let prefix = &parts[0];
        let suffix = &parts[1];
        return has_prefix(segment, prefix.as_slice()) && has_suffix(segment, suffix.as_slice())
            && segment.len() >= prefix.len() && segment.len() - prefix.len() >= suffix.len();
    }
    chars_eq(pattern, segment)
}

impl PathRule {
    /// Create a new allow rule.
    pub fn allow(pattern: &str, permission: Permission) -> (r: PathRule)
        ensures
            r.pattern@ == pattern@,
            r.permission == permission,
            !r.deny,
    {
        PathRule { pattern: String::from_str(pattern), permission, deny: false }
    }

    /// Create a new deny rule.
    pub fn deny(pattern: &str) -> (r: PathRule)
        ensures
            r.pattern@ == pattern@,
            r.permission == Permission::Admin,
            r.deny,
    {
        PathRule { pattern: String::from_str(pattern), permission: Permission::Admin, deny: true }
    }

    /// Check if the path matches this rule.
    #[verifier::loop_isolation(false)]
    pub fn matches(&self, path: &str) -> (r: bool)
        ensures
            r == path_pattern_matches(self.pattern@, path@),
    {
        let pattern0 = chars_of(self.pattern.as_str());
        let path0 = chars_of(path);
        let pattern = trim_start_matches(pattern0.as_slice(), '/');
        let path = trim_start_matches(path0.as_slice(), '/');
        let dstar: Vec<char> = vec!['*', '*'];
        assert(dstar@ =~= seq!['*', '*']);
        assert(dstar@.len() == 2);
        if chars_eq(pattern.as_slice(), dstar.as_slice()) {
            return true;
        }
        let first = find_sub(pattern.as_slice(), dstar.as_slice());
        match first {
            Some(i) => {
                assert(i + 2 <= pattern@.len());
                assert(first_occurrence(pattern@, seq!['*', '*']) == i as int) by {
                    let c = first_occurrence(pattern@, seq!['*', '*']);
                    assert(occurs_at(pattern@, seq!['*', '*'], i as int));
                    if c < i {
                    } else if c > i {
                    }
                }
                let n = pattern.len();
                assert(i + 2 <= n);
                let rest = slice_chars(pattern.as_slice(), i + 2, n);
                if find_sub(rest.as_slice(), dstar.as_slice()).is_none() {
                    let head = slice_chars(pattern.as_slice(), 0, i);
                    let prefix = trim_end_matches(head.as_slice(), '/');
                    let suffix = trim_start_matches(rest.as_slice(), '/');
                    if prefix.len() != 0 && !has_prefix(path.as_slice(), prefix.as_slice()) {
                        return false;
                    }
                    if suffix.len() != 0 && !has_suffix(path.as_slice(), suffix.as_slice()) {
                        return false;
                    }
                    return true;
                }
                assert(contains_seq(pattern@, seq!['*', '*']));
                chars_eq(pattern.as_slice(), path.as_slice())
            },
            None => {
                if contains_char(pattern.as_slice(), '*') {
                    let pattern_parts = split_on(pattern.as_slice(), '/');
                    let path_parts = split_on(path.as_slice(), '/');
                    let ghost ppv = pattern_parts@.map_values(|v: Vec<char>| v@);
                    let ghost spv = path_parts@.map_values(|v: Vec<char>| v@);
                    if pattern_parts.len() != path_parts.len() {
                        return false;
                    }
                    let mut k: usize = 0;
                    while k < pattern_parts.len()
                        invariant
                            ppv == pattern_parts@.map_values(|v: Vec<char>| v@),
                            spv == path_parts@.map_values(|v: Vec<char>| v@),
                            pattern_parts@.len() == path_parts@.len(),
                            k <= pattern_parts@.len(),
                            forall|j: int|
                                0 <= j < k ==> segment_pattern_matches(#[trigger] ppv[j], spv[j]),
                        decreases pattern_parts@.len() - k,
                    {
                        if !segment_matches(pattern_parts[k].as_slice(), path_parts[k].as_slice()) {
                            assert(!segment_pattern_matches(ppv[k as int], spv[k as int]));
                            return false;
                        }
                        k = k + 1;
                    }
                    return true;
                }
                chars_eq(pattern.as_slice(), path.as_slice())
            },
        }
    }
}

// ---------------------------------------------------------------------------
// Access control lists
// ---------------------------------------------------------------------------

/// Membership in a sequence extended by one element.
pub proof fn lemma_push_contains<A>(s: Seq<A>, x: A, y: A)
    ensures
        s.push(x).contains(y) <==> (s.contains(y) || x == y),
{
    assert(s.push(x)[s.len() as int] == x);
    if s.push(x).contains(y) {
        let j = choose|j: int| 0 <= j < s.push(x).len() && s.push(x)[j] == y;
        if j < s.len() {
            assert(s[j] == y);
        }
    }
    if s.contains(y) {
        let j = choose|j: int| 0 <= j < s.len() && s[j] == y;
        assert(s.push(x)[j] == y);
    }
}

/// Extending a duplicate-free sequence by a new element keeps it duplicate-free.
pub proof fn lemma_push_no_duplicates<A>(s: Seq<A>, x: A)
    requires
        s.no_duplicates(),
        !s.contains(x),
    ensures
        s.push(x).no_duplicates(),
{
    assert forall|i: int, j: int|
        0 <= i < s.push(x).len() && 0 <= j < s.push(x).len() && i != j implies s.push(x)[i]
        != s.push(x)[j] by {
        if i < s.len() && j < s.len() {
        } else if i < s.len() {
            assert(s[i] == s.push(x)[i]);
        } else if j < s.len() {
            assert(s[j] == s.push(x)[j]);
        }
    }
}

/// The keys of a rule list.
pub open spec fn rule_keys(rules: Seq<(String, AccessRule)>) -> Seq<Seq<char>> {
    rules.map_values(|e: (String, AccessRule)| e.0@)
}

/// The rule list read as a map from user to rule.
pub open spec fn rule_map(rules: Seq<(String, AccessRule)>) -> Map<Seq<char>, AccessRule>
    decreases rules.len(),
{
    if rules.len() == 0 {
        Map::empty()
    } else {
        rule_map(rules.drop_last()).insert(rules.last().0@, rules.last().1)
    }
}

/// What the path rules make of a base permission: the effective permission,
/// and whether the path is denied. Rules are applied in order; a matching
/// allow rule lowers the permission to its own level and lifts a denial, a
/// matching deny rule denies.
pub open spec fn apply_path_rules(rules: Seq<PathRule>, path: Seq<char>, base: Permission) -> (
    Permission,
    bool,
)
    decreases rules.len(),
{
    if rules.len() == 0 {
        (base, false)
    } else {
        let (e, d) = apply_path_rules(rules.drop_last(), path, base);
        let r = rules.last();
        if path_pattern_matches(r.pattern@, path) {
            if r.deny {
                (e, true)
            } else {
                (min_permission(e, r.permission), false)
            }
        } else {
            (e, d)
        }
    }
}

/// Path rules never raise a permission.
pub proof fn lemma_path_rules_restrict(rules: Seq<PathRule>, path: Seq<char>, base: Permission)
    ensures
        level(apply_path_rules(rules, path, base).0) <= level(base),
    decreases rules.len(),
{
    if rules.len() > 0 {
        lemma_path_rules_restrict(rules.drop_last(), path, base);
    }
}

/// A user's base permission at time `now` under an owner and rules: the
/// owner is always Admin; another user has the permission of an unexpired
/// rule.
pub open spec fn user_permission_with(
    owner: Seq<char>,
    rules: Map<Seq<char>, AccessRule>,
    node_id: Seq<char>,
    now: i64,
) -> Option<Permission> {
    if node_id == owner {
        Some(Permission::Admin)
    } else if rules.dom().contains(node_id) && !rule_expired_at(rules[node_id], now) {
        Some(rules[node_id].permission)
    } else {
        None
    }
}

/// Whether a user has at least `required` on `path` at time `now`, under an
/// owner, rules and path rules.
pub open spec fn permits_with(
    owner: Seq<char>,
    rules: Map<Seq<char>, AccessRule>,
    path_rules: Seq<PathRule>,
    node_id: Seq<char>,
    path: Seq<char>,
    required: Permission,
    now: i64,
) -> bool {
    if node_id == owner {
        true
    } else {
        match user_permission_with(owner, rules, node_id, now) {
            None => false,
            Some(base) => {
                let (e, denied) = apply_path_rules(path_rules, path, base);
                !denied && level(e) >= level(required)
            },
        }
    }
}

/// Access Control List for a shared drive.
#[derive(Debug)]
pub struct AccessControlList {
    /// The drive owner's NodeId (hex) - always has Admin access.
    owner: String,
    /// Per-user access rules (NodeId hex, rule), one entry per user.
    user_rules: Vec<(String, AccessRule)>,
    /// Path-based rules (evaluated in order).
    path_rules: Vec<PathRule>,
}

/// Path rules without those of the given pattern.
pub open spec fn without_pattern(rules: Seq<PathRule>, pattern: Seq<char>) -> Seq<PathRule>
    decreases rules.len(),
{
    if rules.len() == 0 {
        Seq::empty()
    } else {
        let r = without_pattern(rules.drop_last(), pattern);
        if rules.last().pattern@ == pattern {
            r
        } else {
            r.push(rules.last())
        }
    }
}

/// Rules of a map that are still valid at time `now`.
pub open spec fn valid_rules(m: Map<Seq<char>, AccessRule>, now: i64) -> Map<
    Seq<char>,
    AccessRule,
> {
    m.restrict(m.dom().filter(|k: Seq<char>| !rule_expired_at(m[k], now)))
}

proof fn lemma_rule_map_keys(rules: Seq<(String, AccessRule)>)
    ensures
        forall|k: Seq<char>| #[trigger]
            rule_map(rules).dom().contains(k) <==> rule_keys(rules).contains(k),
    decreases rules.len(),
{
    if rules.len() > 0 {
        lemma_rule_map_keys(rules.drop_last());
        assert(rule_keys(rules) =~= rule_keys(rules.drop_last()).push(rules.last().0@));
        assert(rule_map(rules) == rule_map(rules.drop_last()).insert(
            rules.last().0@,
            rules.last().1,
        ));
        assert forall|k: Seq<char>|
            #[trigger] rule_map(rules).dom().contains(k) <==> rule_keys(rules).contains(k) by {
            lemma_push_contains(rule_keys(rules.drop_last()), rules.last().0@, k);
        }
    }
}

proof fn lemma_rule_map_at(rules: Seq<(String, AccessRule)>, i: int)
    requires
        0 <= i < rules.len(),
        rule_keys(rules).no_duplicates(),
    ensures
        rule_map(rules).dom().contains(rules[i].0@),
        rule_map(rules)[rules[i].0@] == rules[i].1,
    decreases rules.len(),
{
    let d = rules.drop_last();
    assert(rule_keys(d) =~= rule_keys(rules).drop_last());
    if i < rules.len() - 1 {
        assert(rule_keys(rules)[i] == rules[i].0@);
        assert(rule_keys(rules)[rules.len() - 1] == rules.last().0@);
        lemma_rule_map_at(d, i);
    }
}

proof fn lemma_rule_map_remove(rules: Seq<(String, AccessRule)>, i: int)
    requires
        0 <= i < rules.len(),
        rule_keys(rules).no_duplicates(),
    ensures
        rule_map(rules.remove(i)) == rule_map(rules).remove(rules[i].0@),
        rule_keys(rules.remove(i)).no_duplicates(),
    decreases rules.len(),
{
    let d = rules.drop_last();
    assert(rule_keys(d) =~= rule_keys(rules).drop_last());
    assert(rule_keys(rules.remove(i)) =~= rule_keys(rules).remove(i));
    if i == rules.len() - 1 {
        assert(rules.remove(i) =~= d);
        lemma_rule_map_keys(d);
        assert(!rule_keys(d).contains(rules[i].0@)) by {
            if rule_keys(d).contains(rules[i].0@) {
                let j = choose|j: int| 0 <= j < rule_keys(d).len() && rule_keys(d)[j] == rules[i].0@;
                assert(rule_keys(rules)[j] == rule_keys(rules)[rules.len() - 1]);
            }
        }
        assert(rule_map(rules.remove(i)) =~= rule_map(rules).remove(rules[i].0@));
    } else {
        lemma_rule_map_remove(d, i);
        assert(rules.remove(i) =~= d.remove(i).push(rules.last()));
        assert(rules.remove(i).drop_last() =~= d.remove(i));
        assert(rule_keys(rules)[i] != rule_keys(rules)[rules.len() - 1]);
        assert(rule_map(rules.remove(i)) =~= rule_map(rules).remove(rules[i].0@));
    }
}

impl AccessControlList {
    /// One rule per user.
    pub closed spec fn wf(&self) -> bool {
        rule_keys(self.user_rules@).no_duplicates()
    }

    /// The owner's NodeId.
    pub closed spec fn owner_view(&self) -> Seq<char> {
        self.owner@
    }

    /// The per-user rules, by user.
    pub closed spec fn rules(&self) -> Map<Seq<char>, AccessRule> {
        rule_map(self.user_rules@)
    }

    /// The path rules, in evaluation order.
    pub closed spec fn path_rules_view(&self) -> Seq<PathRule> {
        self.path_rules@
    }

    /// A user's base permission at time `now`: the owner is always Admin;
    /// another user has the permission of an unexpired rule.
    pub open spec fn user_permission_at(&self, node_id: Seq<char>, now: i64) -> Option<
        Permission,
    > {
        user_permission_with(self.owner_view(), self.rules(), node_id, now)
    }

    /// Whether a user has at least `required` on `path` at time `now`.
    pub open spec fn permits_at(
        &self,
        node_id: Seq<char>,
        path: Seq<char>,
        required: Permission,
        now: i64,
    ) -> bool {
        permits_with(self.owner_view(), self.rules(), self.path_rules_view(), node_id, path, required, now)
    }

    /// Create a new ACL with the specified owner.
    pub fn new(owner_node_id: &str) -> (acl: AccessControlList)
        ensures
            acl.wf(),
            acl.owner_view() == owner_node_id@,
            acl.rules() == Map::<Seq<char>, AccessRule>::empty(),
            acl.path_rules_view() == Seq::<PathRule>::empty(),
    {
        AccessControlList {
            owner: String::from_str(owner_node_id),
            user_rules: Vec::new(),
            path_rules: Vec::new(),
        }
    }

    /// A copy of the list.
    pub fn duplicate(&self) -> (c: AccessControlList)
        requires
            self.wf(),
        ensures
            c.wf(),
            c.owner_view() == self.owner_view(),
            c.rules() == self.rules(),
            c.path_rules_view() == self.path_rules_view(),
    {
        let mut rules: Vec<(String, AccessRule)> = Vec::new();
        let mut i: usize = 0;
        while i < self.user_rules.len()
            invariant
                i <= self.user_rules@.len(),
                rules@ == self.user_rules@.subrange(0, i as int),
            decreases self.user_rules@.len() - i,
        {
            let k = self.user_rules[i].0.clone();
            let r = self.user_rules[i].1.clone();
            assert(k == self.user_rules@[i as int].0) by {
                assert(k@ == self.user_rules@[i as int].0@);
            }
            rules.push((k, r));
            i = i + 1;
            assert(rules@ =~= self.user_rules@.subrange(0, i as int));
        }
        let mut paths: Vec<PathRule> = Vec::new();
        let mut j: usize = 0;
        while j < self.path_rules.len()
            invariant
                j <= self.path_rules@.len(),
                paths@ == self.path_rules@.subrange(0, j as int),
            decreases self.path_rules@.len() - j,
        {
            paths.push(self.path_rules[j].clone());
            j = j + 1;
            assert(paths@ =~= self.path_rules@.subrange(0, j as int));
        }
        assert(rules@ =~= self.user_rules@);
        assert(paths@ =~= self.path_rules@);
        AccessControlList { owner: self.owner.clone(), user_rules: rules, path_rules: paths }
    }

    /// Get the drive owner's NodeId.
    pub fn owner(&self) -> (s: &str)
        ensures
            s@ == self.owner_view(),
    {
        self.owner.as_str()
    }

    /// Check if a user is the owner.
    pub fn is_owner(&self, node_id: &str) -> (r: bool)
        ensures
            r == (node_id@ == self.owner_view()),
    {
        let a = chars_of(self.owner.as_str());
        let b = chars_of(node_id);
        chars_eq(a.as_slice(), b.as_slice())
    }

    /// Index of the rule for `node_id`, if any.
    fn find_rule(&self, node_id: &str) -> (r: Option<usize>)
        requires
            self.wf(),
        ensures
            r matches Some(i) ==> i < self.user_rules@.len() && self.user_rules@[i as int].0@
                == node_id@ && self.rules().dom().contains(node_id@) && self.rules()[node_id@]
                == self.user_rules@[i as int].1,
            r is None ==> !self.rules().dom().contains(node_id@),
    {
        let key = chars_of(node_id);
        let mut i: usize = 0;
        while i < self.user_rules.len()
            invariant
                self.wf(),
                key@ == node_id@,
                i <= self.user_rules@.len(),
                forall|j: int| 0 <= j < i ==> rule_keys(self.user_rules@)[j] != node_id@,
            decreases self.user_rules@.len() - i,
        {
            let k = chars_of(self.user_rules[i].0.as_str());
            if chars_eq(k.as_slice(), key.as_slice()) {
                proof {
                    lemma_rule_map_at(self.user_rules@, i as int);
                }
                return Some(i);
            }
            assert(rule_keys(self.user_rules@)[i as int] == self.user_rules@[i as int].0@);
            i = i + 1;
        }
        proof {
            lemma_rule_map_keys(self.user_rules@);
        }
        None
    }

    /// Grant access to a user (replacing any rule it had).
    pub fn grant(&mut self, node_id: &str, rule: AccessRule)
        requires
            old(self).wf(),
        ensures
            final(self).wf(),
            final(self).rules() == old(self).rules().insert(node_id@, rule),
            final(self).owner_view() == old(self).owner_view(),
            final(self).path_rules_view() == old(self).path_rules_view(),
    {
        match self.find_rule(node_id) {
            Some(i) => {
                let ghost before = self.user_rules@;
                proof {
                    lemma_rule_map_remove(before, i as int);
                }
                self.user_rules.remove(i);
                assert(self.user_rules@ == before.remove(i as int));
                assert(!rule_map(self.user_rules@).dom().contains(node_id@));
            },
            None => {
                assert(!rule_map(self.user_rules@).dom().contains(node_id@));
            },
        }
        let ghost mid = self.user_rules@;
        proof {
            lemma_rule_map_keys(mid);
        }
        assert(!rule_keys(mid).contains(node_id@));
        self.user_rules.push((String::from_str(node_id), rule));
        assert(self.user_rules@.drop_last() =~= mid);
        assert(rule_keys(self.user_rules@) =~= rule_keys(mid).push(node_id@));
        assert(self.rules() =~= old(self).rules().insert(node_id@, rule));
    }

    /// Revoke a user's access, returning the rule it had.
    pub fn revoke(&mut self, node_id: &str) -> (r: Option<AccessRule>)
        requires
            old(self).wf(),
        ensures
            final(self).wf(),
            final(self).rules() == old(self).rules().remove(node_id@),
            old(self).rules().dom().contains(node_id@) ==> r == Some(
                old(self).rules()[node_id@],
            ),
            !old(self).rules().dom().contains(node_id@) ==> r is None,
            final(self).owner_view() == old(self).owner_view(),
            final(self).path_rules_view() == old(self).path_rules_view(),
    {
        match self.find_rule(node_id) {
            Some(i) => {
                let ghost before = self.user_rules@;
                proof {
                    lemma_rule_map_remove(before, i as int);
                }
                let (_, rule) = self.user_rules.remove(i);
                Some(rule)
            },
            None => {
                assert(self.rules() =~= old(self).rules().remove(node_id@));
                None
            },
        }
    }

    /// Add a path rule (evaluated after the existing ones).
    pub fn add_path_rule(&mut self, rule: PathRule)
        ensures
            final(self).path_rules_view() == old(self).path_rules_view().push(rule),
            final(self).rules() == old(self).rules(),
            final(self).wf() == old(self).wf(),
            final(self).owner_view() == old(self).owner_view(),
    {
        self.path_rules.push(rule);
    }

    /// Remove every path rule of the given pattern.
    pub fn remove_path_rule(&mut self, pattern: &str)
        ensures
            final(self).path_rules_view() == without_pattern(
                old(self).path_rules_view(),
                pattern@,
            ),
            final(self).rules() == old(self).rules(),
            final(self).wf() == old(self).wf(),
            final(self).owner_view() == old(self).owner_view(),
    {
        let p = chars_of(pattern);
        let mut kept: Vec<PathRule> = Vec::new();
        let mut i: usize = 0;
        while i < self.path_rules.len()
            invariant
                p@ == pattern@,
                i <= self.path_rules@.len(),
                kept@ == without_pattern(self.path_rules@.subrange(0, i as int), pattern@),
            decreases self.path_rules@.len() - i,
        {
            assert(self.path_rules@.subrange(0, i + 1).drop_last() =~= self.path_rules@.subrange(
                0,
                i as int,
            ));
            let rp = chars_of(self.path_rules[i].pattern.as_str());
            if !chars_eq(rp.as_slice(), p.as_slice()) {
                kept.push(self.path_rules[i].clone());
            }
            i = i + 1;
        }
        assert(self.path_rules@.subrange(0, self.path_rules@.len() as int) =~= self.path_rules@);
        self.path_rules = kept;
    }

    /// A user's base permission at time `now` (ignoring path rules).
    pub fn get_user_permission_at(&self, node_id: &str, now: i64) -> (r: Option<Permission>)
        requires
            self.wf(),
        ensures
            r == self.user_permission_at(node_id@, now),
    {
        if self.is_owner(node_id) {
            return Some(Permission::Admin);
        }
        match self.find_rule(node_id) {
            Some(i) => {
                let rule = &self.user_rules[i].1;
                if rule.is_expired_at(now) {
                    None
                } else {
                    Some(rule.permission)
                }
            },
            None => None,
        }
    }

    /// Get a user's base permission now (ignoring path rules).
    pub fn get_user_permission(&self, node_id: &str) -> (r: Option<Permission>)
        requires
            self.wf(),
        ensures
            node_id@ == self.owner_view() ==> r == Some(Permission::Admin),
            node_id@ != self.owner_view() && !self.rules().dom().contains(node_id@) ==> r is None,
            node_id@ != self.owner_view() ==> (r matches Some(p) ==> p
                == self.rules()[node_id@].permission),
            exists|t: i64| -INSTANT_BOUND < t < INSTANT_BOUND && r == self.user_permission_at(node_id@, t),
    {
        let now = now_millis();
        let r = self.get_user_permission_at(node_id, now);
        assert(r == self.user_permission_at(node_id@, now));
        r
    }

    /// Check if a user has at least the required permission for a path at time `now`.
    ///
    /// The owner always passes. Another user needs an unexpired rule; the path
    /// rules that match the path are then applied in order (allow rules can only
    /// lower the permission, deny rules deny), and the result must satisfy
    /// `required`.
    pub fn check_permission_at(&self, node_id: &str, path: &str, required: Permission, now: i64) -> (r:
        bool)
        requires
            self.wf(),
        ensures
            r == self.permits_at(node_id@, path@, required, now),
    {
        if self.is_owner(node_id) {
            return true;
        }
        let base = match self.get_user_permission_at(node_id, now) {
            Some(p) => p,
            None => return false,
        };
        let mut effective = base;
        let mut denied = false;
        let mut i: usize = 0;
        while i < self.path_rules.len()
            invariant
                i <= self.path_rules@.len(),
                (effective, denied) == apply_path_rules(
                    self.path_rules@.subrange(0, i as int),
                    path@,
                    base,
                ),
            decreases self.path_rules@.len() - i,
        {
            assert(self.path_rules@.subrange(0, i + 1).drop_last() =~= self.path_rules@.subrange(
                0,
                i as int,
            ));
            let rule = &self.path_rules[i];
            if rule.matches(path) {
                if rule.deny {
                    denied = true;
                } else {
                    denied = false;
                    if rule.permission.rank() < effective.rank() {
                        effective = rule.permission;
                    }
                }
            }
            i = i + 1;
        }
        assert(self.path_rules@.subrange(0, self.path_rules@.len() as int) =~= self.path_rules@);
        if denied {
            return false;
        }
        effective.satisfies(required)
    }

    /// Check if a user has at least the required permission for a path now.
    pub fn check_permission(&self, node_id: &str, path: &str, required: Permission) -> (r: bool)
        requires
            self.wf(),
        ensures
            node_id@ == self.owner_view() ==> r,
            node_id@ != self.owner_view() && !self.rules().dom().contains(node_id@) ==> !r,
            exists|t: i64| -INSTANT_BOUND < t < INSTANT_BOUND && r == self.permits_at(node_id@, path@, required, t),
    {
        let now = now_millis();
        let r = self.check_permission_at(node_id, path, required, now);
        assert(r == self.permits_at(node_id@, path@, required, now));
        r
    }

    /// All users with access: every user with a rule, and the owner.
    pub fn users(&self) -> (v: Vec<String>)
        requires
            self.wf(),
        ensures
            forall|k: Seq<char>|
                v@.map_values(|s: String| s@).contains(k) <==> (self.rules().dom().contains(k)
                    || k == self.owner_view()),
            v@.map_values(|s: String| s@).no_duplicates(),
    {
        let ghost keys = rule_keys(self.user_rules@);
        let mut v: Vec<String> = Vec::new();
        let mut i: usize = 0;
        let mut has_owner = false;
        let owner = chars_of(self.owner.as_str());
        while i < self.user_rules.len()
            invariant
                self.wf(),
                keys == rule_keys(self.user_rules@),
                owner@ == self.owner@,
                i <= self.user_rules@.len(),
                v@.map_values(|s: String| s@) == keys.subrange(0, i as int),
                has_owner == keys.subrange(0, i as int).contains(self.owner@),
            decreases self.user_rules@.len() - i,
        {
            let ghost before = v@.map_values(|s: String| s@);
            let k = self.user_rules[i].0.clone();
            assert(k@ == keys[i as int]);
            assert(keys.subrange(0, i + 1) =~= keys.subrange(0, i as int).push(keys[i as int]));
            proof {
                lemma_push_contains(keys.subrange(0, i as int), keys[i as int], self.owner@);
            }
            let kc = chars_of(k.as_str());
            if chars_eq(kc.as_slice(), owner.as_slice()) {
                has_owner = true;
            }
            v.push(k);
            assert(v@.map_values(|s: String| s@) =~= before.push(keys[i as int]));
            i = i + 1;
        }
        assert(keys.subrange(0, self.user_rules@.len() as int) =~= keys);
        assert(has_owner == keys.contains(self.owner@));
        assert(v@.map_values(|s: String| s@) == keys);
        proof {
            lemma_rule_map_keys(self.user_rules@);
        }
        assert(forall|k: Seq<char>| #[trigger] self.rules().dom().contains(k) <==> keys.contains(k));
        if !has_owner {
            let ghost before = v@.map_values(|s: String| s@);
            v.push(String::from_str(self.owner.as_str()));
            assert(v@.map_values(|s: String| s@) =~= before.push(self.owner@));
            proof {
                lemma_push_no_duplicates(before, self.owner@);
                assert forall|k: Seq<char>|
                    v@.map_values(|s: String| s@).contains(k) <==> (self.rules().dom().contains(k)
                        || k == self.owner_view()) by {
                    lemma_push_contains(before, self.owner@, k);
                }
            }
        } else {
            assert forall|k: Seq<char>|
                v@.map_values(|s: String| s@).contains(k) <==> (self.rules().dom().contains(k)
                    || k == self.owner_view()) by {
                assert(v@.map_values(|s: String| s@) == keys);
                if k == self.owner_view() {
                    assert(keys.contains(k));
                }
            }
        }
        v
    }

    /// Get the access rule for a specific user.
    pub fn get_rule(&self, node_id: &str) -> (r: Option<&AccessRule>)
        requires
            self.wf(),
        ensures
            self.rules().dom().contains(node_id@) ==> r == Some(&self.rules()[node_id@]),
            !self.rules().dom().contains(node_id@) ==> r is None,
    {
        match self.find_rule(node_id) {
            Some(i) => Some(&self.user_rules[i].1),
            None => None,
        }
    }

    /// Get all path rules.
    pub fn path_rules(&self) -> (r: &[PathRule])
        ensures
            r@ == self.path_rules_view(),
    {
        self.path_rules.as_slice()
    }

    /// Remove the rules that have expired at time `now`; return how many were removed.
    pub fn cleanup_expired_at(&mut self, now: i64) -> (n: usize)
        requires
            old(self).wf(),
        ensures
            final(self).wf(),
            forall|k: Seq<char>|
                #![trigger final(self).rules().dom().contains(k)]
                final(self).rules().dom().contains(k) <==> (old(self).rules().dom().contains(k)
                    && !rule_expired_at(old(self).rules()[k], now)),
            forall|k: Seq<char>| #[trigger]
                final(self).rules().dom().contains(k) ==> final(self).rules()[k] == old(self).rules()[k],
            final(self).owner_view() == old(self).owner_view(),
            final(self).path_rules_view() == old(self).path_rules_view(),
            n == old(self).rules().len() - final(self).rules().len(),
    {
        let ghost old_rules = self.user_rules@;
        let mut kept: Vec<(String, AccessRule)> = Vec::new();
        let mut i: usize = 0;
        while i < self.user_rules.len()
            invariant
                old_rules == self.user_rules@,
                i <= old_rules.len(),
                kept@ == keep_valid(old_rules.subrange(0, i as int), now),
            decreases old_rules.len() - i,
        {
            assert(old_rules.subrange(0, i + 1).drop_last() =~= old_rules.subrange(0, i as int));
            if !self.user_rules[i].1.is_expired_at(now) {
                let entry = (self.user_rules[i].0.clone(), self.user_rules[i].1.clone());
                kept.push(entry);
            }
            i = i + 1;
        }
        assert(old_rules.subrange(0, old_rules.len() as int) =~= old_rules);
        proof {
            lemma_keep_valid(old_rules, now);
            lemma_rule_map_len(old_rules);
            lemma_rule_map_len(kept@);
            lemma_keep_valid_len(old_rules, now);
        }
        let n = self.user_rules.len() - kept.len();
        self.user_rules = kept;
        n
    }

    /// Remove the rules that have expired now; return how many were removed.
    pub fn cleanup_expired(&mut self) -> (n: usize)
        requires
            old(self).wf(),
        ensures
            final(self).wf(),
            final(self).owner_view() == old(self).owner_view(),
            final(self).path_rules_view() == old(self).path_rules_view(),
            forall|k: Seq<char>| #[trigger]
                final(self).rules().dom().contains(k) ==> final(self).rules()[k] == old(self).rules()[k],
            forall|k: Seq<char>|
                #![trigger old(self).rules().dom().contains(k)]
                old(self).rules().dom().contains(k) && old(self).rules()[k].expires_at is None
                    ==> final(self).rules().dom().contains(k),
            n == old(self).rules().len() - final(self).rules().len(),
            exists|now: i64|
                -INSTANT_BOUND < now < INSTANT_BOUND && #[trigger] unexpired_kept(
                    *old(self),
                    *final(self),
                    now,
                ),
    {
        let now = now_millis();
        let n = self.cleanup_expired_at(now);
        assert(unexpired_kept(*old(self), *self, now));
        n
    }
}

/// `b` holds exactly the user rules of `a` that have not expired at `now`.
pub open spec fn unexpired_kept(a: AccessControlList, b: AccessControlList, now: i64) -> bool {
    forall|k: Seq<char>|
        #![trigger b.rules().dom().contains(k)]
        b.rules().dom().contains(k) <==> (a.rules().dom().contains(k) && !rule_expired_at(
            a.rules()[k],
            now,
        ))
}

/// The entries of a rule list that are still valid at time `now`, in order.
pub open spec fn keep_valid(rules: Seq<(String, AccessRule)>, now: i64) -> Seq<(String, AccessRule)>
    decreases rules.len(),
{
    if rules.len() == 0 {
        Seq::empty()
    } else {
        let r = keep_valid(rules.drop_last(), now);
        if rule_expired_at(rules.last().1, now) {
            r
        } else {
            r.push(rules.last())
        }
    }
}

proof fn lemma_keep_valid(rules: Seq<(String, AccessRule)>, now: i64)
    requires
        rule_keys(rules).no_duplicates(),
    ensures
        rule_keys(keep_valid(rules, now)).no_duplicates(),
        forall|k: Seq<char>| #[trigger]
            rule_keys(keep_valid(rules, now)).contains(k) ==> rule_keys(rules).contains(k),
        forall|k: Seq<char>|
            #![trigger rule_map(keep_valid(rules, now)).dom().contains(k)]
            rule_map(keep_valid(rules, now)).dom().contains(k) <==> (rule_map(rules).dom().contains(
                k,
            ) && !rule_expired_at(rule_map(rules)[k], now)),
        forall|k: Seq<char>| #[trigger]
            rule_map(keep_valid(rules, now)).dom().contains(k) ==> rule_map(keep_valid(rules, now))[k]
                == rule_map(rules)[k],
    decreases rules.len(),
{
    if rules.len() > 0 {
        let d = rules.drop_last();
        let e = rules.last();
        assert(rule_keys(d) =~= rule_keys(rules).drop_last());
        lemma_keep_valid(d, now);
        lemma_rule_map_keys(d);
        assert(!rule_keys(d).contains(e.0@)) by {
            if rule_keys(d).contains(e.0@) {
                let j = choose|j: int| 0 <= j < rule_keys(d).len() && rule_keys(d)[j] == e.0@;
                assert(rule_keys(rules)[j] == rule_keys(rules)[rules.len() - 1]);
            }
        }
        let kd = keep_valid(d, now);
        lemma_rule_map_keys(kd);
        assert(rule_keys(rules) =~= rule_keys(d).push(e.0@));
        assert(rule_map(rules) == rule_map(d).insert(e.0@, e.1));
        if !rule_expired_at(e.1, now) {
            assert(keep_valid(rules, now) == kd.push(e));
            assert(kd.push(e).drop_last() =~= kd);
            assert(rule_map(keep_valid(rules, now)) == rule_map(kd).insert(e.0@, e.1));
        } else {
            assert(keep_valid(rules, now) == kd);
            assert(!rule_map(kd).dom().contains(e.0@));
        }
        if !rule_expired_at(e.1, now) {
            assert(rule_keys(keep_valid(rules, now)) =~= rule_keys(kd).push(e.0@));
            assert(keep_valid(rules, now).drop_last() =~= kd);
            assert(!rule_keys(kd).contains(e.0@));
            lemma_push_no_duplicates(rule_keys(kd), e.0@);
            assert forall|k: Seq<char>| #[trigger]
                rule_keys(keep_valid(rules, now)).contains(k) implies rule_keys(rules).contains(
                k,
            ) by {
                lemma_push_contains(rule_keys(kd), e.0@, k);
                lemma_push_contains(rule_keys(d), e.0@, k);
            }
        } else {
            assert forall|k: Seq<char>| #[trigger]
                rule_keys(keep_valid(rules, now)).contains(k) implies rule_keys(rules).contains(
                k,
            ) by {
                lemma_push_contains(rule_keys(d), e.0@, k);
            }
        }
    }
}

proof fn lemma_keep_valid_len(rules: Seq<(String, AccessRule)>, now: i64)
    ensures
        keep_valid(rules, now).len() <= rules.len(),
    decreases rules.len(),
{
    if rules.len() > 0 {
        lemma_keep_valid_len(rules.drop_last(), now);
    }
}

proof fn lemma_rule_map_len(rules: Seq<(String, AccessRule)>)
    requires
        rule_keys(rules).no_duplicates(),
    ensures
        rule_map(rules).dom().finite(),
        rule_map(rules).len() == rules.len(),
    decreases rules.len(),
{
    if rules.len() > 0 {
        let d = rules.drop_last();
        assert(rule_keys(d) =~= rule_keys(rules).drop_last());
        lemma_rule_map_len(d);
        lemma_rule_map_keys(d);
        assert(!rule_keys(d).contains(rules.last().0@)) by {
            if rule_keys(d).contains(rules.last().0@) {
                let j = choose|j: int|
                    0 <= j < rule_keys(d).len() && rule_keys(d)[j] == rules.last().0@;
                assert(rule_keys(rules)[j] == rule_keys(rules)[rules.len() - 1]);
            }
        }
    }
}

/// Result of a permission check.
#[derive(Debug, Clone)]
pub struct PermissionCheckResult {
    pub allowed: bool,
    pub user_permission: Option<Permission>,
    pub effective_permission: Option<Permission>,
    pub reason: String,
}

impl PermissionCheckResult {
    /// A granted check at the given permission.
    pub fn allowed(permission: Permission) -> (r: PermissionCheckResult)
        ensures
            r.allowed,
            r.user_permission == Some(permission),
            r.effective_permission == Some(permission),
            r.reason@ == "Access granted"@,
    {
        PermissionCheckResult {
            allowed: true,
            user_permission: Some(permission),
            effective_permission: Some(permission),
            reason: String::from_str("Access granted"),
        }
    }

    /// A refused check with its reason.
    pub fn denied(reason: &str) -> (r: PermissionCheckResult)
        ensures
            !r.allowed,
            r.user_permission is None,
            r.effective_permission is None,
            r.reason@ == reason@,
    {
        PermissionCheckResult {
            allowed: false,
            user_permission: None,
            effective_permission: None,
            reason: String::from_str(reason),
        }
    }
}


// ---------------------------------------------------------------------------
// Laws of the access control list
// ---------------------------------------------------------------------------

/// The owner is allowed everything, on every path, at every time, whatever
/// the rules say.
pub proof fn law_owner_always_allowed(
    acl: AccessControlList,
    path: Seq<char>,
    required: Permission,
    now: i64,
)
    ensures
        acl.permits_at(acl.owner_view(), path, required, now),
        acl.user_permission_at(acl.owner_view(), now) == Some(Permission::Admin),
{
}

/// Path rules only restrict: whoever (other than the owner) is allowed
/// `required` on some path holds an unexpired rule whose permission already
/// satisfies `required`.
pub proof fn law_path_rules_only_restrict(
    acl: AccessControlList,
    node_id: Seq<char>,
    path: Seq<char>,
    required: Permission,
    now: i64,
)
    requires
        node_id != acl.owner_view(),
        acl.permits_at(node_id, path, required, now),
    ensures
        acl.rules().dom().contains(node_id),
        !rule_expired_at(acl.rules()[node_id], now),
        level(acl.rules()[node_id].permission) >= level(required),
{
    let base = acl.rules()[node_id].permission;
    lemma_path_rules_restrict(acl.path_rules_view(), path, base);
}

/// An expired rule grants nothing: its user (other than the owner) has no
/// permission and is refused on every path.
pub proof fn law_expired_rule_grants_nothing(
    acl: AccessControlList,
    node_id: Seq<char>,
    path: Seq<char>,
    required: Permission,
    now: i64,
)
    requires
        node_id != acl.owner_view(),
        acl.rules().dom().contains(node_id),
        rule_expired_at(acl.rules()[node_id], now),
    ensures
        acl.user_permission_at(node_id, now) is None,
        !acl.permits_at(node_id, path, required, now),
{
}

/// A user without a rule (other than the owner) has no permission and is
/// refused on every path.
pub proof fn law_unknown_user_refused(
    acl: AccessControlList,
    node_id: Seq<char>,
    path: Seq<char>,
    required: Permission,
    now: i64,
)
    requires
        node_id != acl.owner_view(),
        !acl.rules().dom().contains(node_id),
    ensures
        acl.user_permission_at(node_id, now) is None,
        !acl.permits_at(node_id, path, required, now),
{
}

/// After a grant, the user's permission is the granted one while the rule is
/// unexpired (and the owner keeps Admin).
pub proof fn law_grant_then_permission(
    before: AccessControlList,
    after: AccessControlList,
    node_id: Seq<char>,
    rule: AccessRule,
    now: i64,
)
    requires
        after.rules() == before.rules().insert(node_id, rule),
        after.owner_view() == before.owner_view(),
        node_id != before.owner_view(),
        !rule_expired_at(rule, now),
    ensures
        after.user_permission_at(node_id, now) == Some(rule.permission),
{
}

/// After a revoke, the user (other than the owner) has no permission and is
/// refused on every path.
pub proof fn law_revoke_removes_access(
    before: AccessControlList,
    after: AccessControlList,
    node_id: Seq<char>,
    path: Seq<char>,
    required: Permission,
    now: i64,
)
    requires
        after.rules() == before.rules().remove(node_id),
        after.owner_view() == before.owner_view(),
        node_id != before.owner_view(),
    ensures
        after.user_permission_at(node_id, now) is None,
        !after.permits_at(node_id, path, required, now),
{
}

/// A deny rule that is the last rule and matches the path refuses everyone
/// but the owner on that path.
pub proof fn law_last_matching_deny_refuses(
    acl: AccessControlList,
    node_id: Seq<char>,
    path: Seq<char>,
    required: Permission,
    now: i64,
)
    requires
        node_id != acl.owner_view(),
        acl.path_rules_view().len() > 0,
        acl.path_rules_view().last().deny,
        path_pattern_matches(acl.path_rules_view().last().pattern@, path),
    ensures
        !acl.permits_at(node_id, path, required, now),
{
}

/// Granting and then revoking a user's rule leaves no rule for that user.
pub proof fn law_grant_revoke_leaves_no_rule(
    m: Map<Seq<char>, AccessRule>,
    node_id: Seq<char>,
    rule: AccessRule,
)
    ensures
        !m.insert(node_id, rule).remove(node_id).dom().contains(node_id),
        m.insert(node_id, rule).remove(node_id) == m.remove(node_id),
{
    assert(m.insert(node_id, rule).remove(node_id) =~= m.remove(node_id));
}

} // verus!
