//! Rate limiting for abuse prevention: a token bucket per identity and
//! operation.
//!
//! Rates are thousandths of a token per minute (a rate of 0.75 tokens a
//! minute is 750) and amounts are kept exactly: a bucket holds
//! `UNITS_PER_TOKEN` units per token, and a rate of `r` thousandths of a
//! token per minute adds `r` units per elapsed millisecond. Times are
//! milliseconds of a monotonic clock.
use vstd::prelude::*;
use crate::text::{chars_eq, chars_of};
use crate::bytes::bytes_eq;
use crate::clock::{now_millis, INSTANT_BOUND};

verus! {

/// The views of a list of identities.
pub open spec fn id_views(s: Seq<[u8; 32]>) -> Seq<Seq<u8>> {
    s.map_values(|a: [u8; 32]| a@)
}

/// The most identities whose buckets are kept before all are forgotten.
pub const MAX_TRACKED_IDENTITIES: usize = 10000;

/// Units per token: a minute in milliseconds, times a thousand.
pub const UNITS_PER_TOKEN: u64 = 60000000;

/// Wait reported when a bucket never refills: one hour, in milliseconds.
pub const NO_REFILL_WAIT_MS: u64 = 3600000;

/// Configuration of a bucket.
#[derive(Clone, Copy, Debug, PartialEq, Eq, Structural)]
pub struct RateLimitConfig {
    /// Largest number of tokens in the bucket.
    pub max_tokens: u32,
    /// Thousandths of a token added per minute.
    pub refill_thousandths_per_minute: u32,
    /// Tokens at the start (the maximum if none).
    pub initial_tokens: Option<u32>,
}

impl RateLimitConfig {
    /// A configuration of `max_tokens`, refilled by `refill_thousandths_per_minute`
    /// thousandths of a token a minute.
    pub fn new(max_tokens: u32, refill_thousandths_per_minute: u32) -> (c: RateLimitConfig)
        ensures
            c == (RateLimitConfig { max_tokens, refill_thousandths_per_minute, initial_tokens: None }),
    {
        RateLimitConfig { max_tokens, refill_thousandths_per_minute, initial_tokens: None }
    }

    /// Invite generation: 10 per minute.
    pub fn invite_generation() -> (c: RateLimitConfig)
        ensures
            c == (RateLimitConfig { max_tokens: 10, refill_thousandths_per_minute: 10000, initial_tokens: None }),
    {
        Self::new(10, 10000)
    }

    /// File uploads: 100 per minute.
    pub fn file_upload() -> (c: RateLimitConfig)
        ensures
            c == (RateLimitConfig { max_tokens: 100, refill_thousandths_per_minute: 100000, initial_tokens: None }),
    {
        Self::new(100, 100000)
    }

    /// File downloads: 200 per minute.
    pub fn file_download() -> (c: RateLimitConfig)
        ensures
            c == (RateLimitConfig { max_tokens: 200, refill_thousandths_per_minute: 200000, initial_tokens: None }),
    {
        Self::new(200, 200000)
    }

    /// API calls: 1000 per minute.
    pub fn general_api() -> (c: RateLimitConfig)
        ensures
            c == (RateLimitConfig { max_tokens: 1000, refill_thousandths_per_minute: 1000000, initial_tokens: None }),
    {
        Self::new(1000, 1000000)
    }

    /// Drive creation: 5 per minute.
    pub fn drive_creation() -> (c: RateLimitConfig)
        ensures
            c == (RateLimitConfig { max_tokens: 5, refill_thousandths_per_minute: 5000, initial_tokens: None }),
    {
        Self::new(5, 5000)
    }
}

impl Default for RateLimitConfig {
    fn default() -> (c: RateLimitConfig)
        ensures
            c == (RateLimitConfig { max_tokens: 1000, refill_thousandths_per_minute: 1000000, initial_tokens: None }),
    {
        Self::general_api()
    }
}

/// A token bucket: units held, its limit and rate, and when it was last
/// refilled.
#[derive(Clone, Copy, Debug, PartialEq, Eq, Structural)]
pub struct TokenBucket {
    pub units: u64,
    pub max_tokens: u32,
    pub refill_thousandths_per_minute: u32,
    pub last_refill: i64,
}

/// A bucket holds at most its limit.
pub open spec fn bucket_ok(b: TokenBucket) -> bool {
    b.units <= b.max_tokens * UNITS_PER_TOKEN
}

/// A fresh bucket of a configuration at `now`.
pub open spec fn fresh_bucket(c: RateLimitConfig, now: i64) -> TokenBucket {
    let start = match c.initial_tokens {
        Some(t) => if t <= c.max_tokens {
            t
        } else {
            c.max_tokens
        },
        None => c.max_tokens,
    };
    TokenBucket {
        units: (start * UNITS_PER_TOKEN) as u64,
        max_tokens: c.max_tokens,
        refill_thousandths_per_minute: c.refill_thousandths_per_minute,
        last_refill: now,
    }
}

/// A bucket refilled at `now`: the elapsed milliseconds (none if the clock
/// went back) times the rate, up to the limit.
pub open spec fn refilled(b: TokenBucket, now: i64) -> TokenBucket {
    let elapsed: int = if now > b.last_refill {
        now - b.last_refill
    } else {
        0
    };
    let cap: int = b.max_tokens * UNITS_PER_TOKEN;
    let total: int = b.units + elapsed * b.refill_thousandths_per_minute;
    TokenBucket {
        units: (if total > cap {
            cap
        } else {
            total
        }) as u64,
        last_refill: now,
        ..b
    }
}

/// Milliseconds until `tokens` are available in a refilled bucket: none if
/// they are, an hour if it never refills, else the missing units divided by
/// the rate, rounded up.
pub open spec fn wait_ms(b: TokenBucket, tokens: u32) -> u64 {
    let need: int = tokens * UNITS_PER_TOKEN;
    if b.units >= need {
        0
    } else if b.refill_thousandths_per_minute == 0 {
        NO_REFILL_WAIT_MS
    } else {
        ((need - b.units + b.refill_thousandths_per_minute - 1) / (b.refill_thousandths_per_minute as int)) as u64
    }
}

impl TokenBucket {
    /// A fresh bucket of a configuration at `now` (an initial count above the
    /// limit is cut to the limit).
    pub fn new_at(c: &RateLimitConfig, now: i64) -> (b: TokenBucket)
        ensures
            b == fresh_bucket(*c, now),
            bucket_ok(b),
    {
        let start = match c.initial_tokens {
            Some(t) => if t <= c.max_tokens {
                t
            } else {
                c.max_tokens
            },
            None => c.max_tokens,
        };
        TokenBucket {
            units: (start as u64) * UNITS_PER_TOKEN,
            max_tokens: c.max_tokens,
            refill_thousandths_per_minute: c.refill_thousandths_per_minute,
            last_refill: now,
        }
    }

    /// Refill at `now`.
    pub fn refill_at(&mut self, now: i64)
        requires
            bucket_ok(*old(self)),
        ensures
            *final(self) == refilled(*old(self), now),
            bucket_ok(*final(self)),
    {
        let cap: u64 = (self.max_tokens as u64) * UNITS_PER_TOKEN;
        let elapsed: u64 = if now > self.last_refill {
            let d: i128 = (now as i128) - (self.last_refill as i128);
            d as u64
        } else {
            0
        };
        assert((elapsed as u128) * (self.refill_thousandths_per_minute as u128) < 0x1_0000_0000_0000_0000_0000_0000)
            by (nonlinear_arith)
            requires
                elapsed < 0x1_0000_0000_0000_0000,
                self.refill_thousandths_per_minute < 0x1_0000_0000,
        ;
        let add: u128 = (elapsed as u128) * (self.refill_thousandths_per_minute as u128);
        let total: u128 = (self.units as u128) + add;
        self.units = if total > cap as u128 {
            cap
        } else {
            total as u64
        };
        self.last_refill = now;
    }

    /// Take `tokens` at `now` if the refilled bucket has them.
    pub fn try_consume_at(&mut self, tokens: u32, now: i64) -> (r: bool)
        requires
            bucket_ok(*old(self)),
        ensures
            bucket_ok(*final(self)),
            r == (refilled(*old(self), now).units >= tokens * UNITS_PER_TOKEN),
            r ==> *final(self) == (TokenBucket {
                units: (refilled(*old(self), now).units - tokens * UNITS_PER_TOKEN) as u64,
                ..refilled(*old(self), now)
            }),
            !r ==> *final(self) == refilled(*old(self), now),
    {
        self.refill_at(now);
        let need: u64 = (tokens as u64) * UNITS_PER_TOKEN;
        if self.units >= need {
            self.units = self.units - need;
            true
        } else {
            false
        }
    }

    /// Milliseconds until `tokens` are available, refilling at `now`.
    pub fn time_until_available_at(&mut self, tokens: u32, now: i64) -> (w: u64)
        requires
            bucket_ok(*old(self)),
        ensures
            *final(self) == refilled(*old(self), now),
            bucket_ok(*final(self)),
            w == wait_ms(refilled(*old(self), now), tokens),
    {
        self.refill_at(now);
        let need: u64 = (tokens as u64) * UNITS_PER_TOKEN;
        if self.units >= need {
            0
        } else if self.refill_thousandths_per_minute == 0 {
            NO_REFILL_WAIT_MS
        } else {
            let missing: u64 = need - self.units;
            let rate: u64 = self.refill_thousandths_per_minute as u64;
            (missing + rate - 1) / rate
        }
    }

    /// Whole tokens available, refilling at `now`.
    pub fn available_tokens_at(&mut self, now: i64) -> (n: u32)
        requires
            bucket_ok(*old(self)),
        ensures
            *final(self) == refilled(*old(self), now),
            bucket_ok(*final(self)),
            n == refilled(*old(self), now).units / UNITS_PER_TOKEN,
    {
        self.refill_at(now);
        proof {
            assert(self.units / UNITS_PER_TOKEN <= self.max_tokens) by (nonlinear_arith)
                requires
                    self.units <= self.max_tokens * UNITS_PER_TOKEN,
            ;
        }
        (self.units / UNITS_PER_TOKEN) as u32
    }
}

/// The outcome of a rate-limit check.
#[derive(Clone, Copy, Debug, PartialEq, Eq, Structural)]
pub enum RateLimitResult {
    /// Allowed; whole tokens left.
    Allowed { remaining: u32 },
    /// Refused; milliseconds to wait.
    Denied { retry_after_ms: u64 },
}

impl RateLimitResult {
    /// Whether the request is allowed.
    pub fn is_allowed(&self) -> (r: bool)
        ensures
            r == (*self is Allowed),
    {
        match self {
            RateLimitResult::Allowed { .. } => true,
            RateLimitResult::Denied { .. } => false,
        }
    }

    /// Whole seconds to wait (0 for an allowed request).
    pub fn retry_after_secs(&self) -> (s: u64)
        ensures
            s == match *self {
                RateLimitResult::Allowed { .. } => 0,
                RateLimitResult::Denied { retry_after_ms } => retry_after_ms / 1000,
            },
    {
        match self {
            RateLimitResult::Allowed { .. } => 0,
            RateLimitResult::Denied { retry_after_ms } => *retry_after_ms / 1000,
        }
    }
}

/// Operations that are rate limited.
#[derive(Clone, Debug, PartialEq, Eq, Hash)]
pub enum RateLimitOperation {
    InviteGeneration,
    FileUpload,
    FileDownload,
    DriveCreation,
    GeneralApi,
    Custom(String),
}

/// The key an operation is told apart by: a tag, and a custom name.
pub open spec fn op_key(op: RateLimitOperation) -> (u8, Seq<char>) {
    match op {
        RateLimitOperation::InviteGeneration => (0, Seq::empty()),
        RateLimitOperation::FileUpload => (1, Seq::empty()),
        RateLimitOperation::FileDownload => (2, Seq::empty()),
        RateLimitOperation::DriveCreation => (3, Seq::empty()),
        RateLimitOperation::GeneralApi => (4, Seq::empty()),
        RateLimitOperation::Custom(s) => (5, s@),
    }
}

/// The default configuration of an operation.
pub open spec fn default_config(op: RateLimitOperation) -> RateLimitConfig {
    match op {
        RateLimitOperation::InviteGeneration => RateLimitConfig {
            max_tokens: 10,
            refill_thousandths_per_minute: 10000,
            initial_tokens: None,
        },
        RateLimitOperation::FileUpload => RateLimitConfig {
            max_tokens: 100,
            refill_thousandths_per_minute: 100000,
            initial_tokens: None,
        },
        RateLimitOperation::FileDownload => RateLimitConfig {
            max_tokens: 200,
            refill_thousandths_per_minute: 200000,
            initial_tokens: None,
        },
        RateLimitOperation::DriveCreation => RateLimitConfig {
            max_tokens: 5,
            refill_thousandths_per_minute: 5000,
            initial_tokens: None,
        },
        _ => RateLimitConfig { max_tokens: 1000, refill_thousandths_per_minute: 1000000, initial_tokens: None },
    }
}

impl RateLimitOperation {
    /// The default configuration of the operation.
    pub fn default_config(&self) -> (c: RateLimitConfig)
        ensures
            c == default_config(*self),
    {
        match self {
            RateLimitOperation::InviteGeneration => RateLimitConfig::invite_generation(),
            RateLimitOperation::FileUpload => RateLimitConfig::file_upload(),
            RateLimitOperation::FileDownload => RateLimitConfig::file_download(),
            RateLimitOperation::DriveCreation => RateLimitConfig::drive_creation(),
            RateLimitOperation::GeneralApi => RateLimitConfig::general_api(),
            RateLimitOperation::Custom(_) => RateLimitConfig::general_api(),
        }
    }

    /// A copy of the operation.
    pub fn copy_op(&self) -> (o: RateLimitOperation)
        ensures
            op_key(o) == op_key(*self),
            default_config(o) == default_config(*self),
    {
        match self {
            RateLimitOperation::InviteGeneration => RateLimitOperation::InviteGeneration,
            RateLimitOperation::FileUpload => RateLimitOperation::FileUpload,
            RateLimitOperation::FileDownload => RateLimitOperation::FileDownload,
            RateLimitOperation::DriveCreation => RateLimitOperation::DriveCreation,
            RateLimitOperation::GeneralApi => RateLimitOperation::GeneralApi,
            RateLimitOperation::Custom(s) => RateLimitOperation::Custom(s.clone()),
        }
    }
}

/// Whether two operations are the same.
pub fn same_op(a: &RateLimitOperation, b: &RateLimitOperation) -> (r: bool)
    ensures
        r == (op_key(*a) == op_key(*b)),
{
    match (a, b) {
        (RateLimitOperation::InviteGeneration, RateLimitOperation::InviteGeneration) => true,
        (RateLimitOperation::FileUpload, RateLimitOperation::FileUpload) => true,
        (RateLimitOperation::FileDownload, RateLimitOperation::FileDownload) => true,
        (RateLimitOperation::DriveCreation, RateLimitOperation::DriveCreation) => true,
        (RateLimitOperation::GeneralApi, RateLimitOperation::GeneralApi) => true,
        (RateLimitOperation::Custom(x), RateLimitOperation::Custom(y)) => {
            let cx = chars_of(x.as_str());
            let cy = chars_of(y.as_str());
            chars_eq(cx.as_slice(), cy.as_slice())
        },
        _ => false,
    }
}

/// The key of a bucket: identity bytes and operation key.
pub open spec fn bucket_key(e: ([u8; 32], RateLimitOperation, TokenBucket)) -> (Seq<u8>, (u8, Seq<char>)) {
    (e.0@, op_key(e.1))
}

/// The first index at or after `i` whose key is `k`, or -1.
pub open spec fn find_bucket_from(
    s: Seq<([u8; 32], RateLimitOperation, TokenBucket)>,
    k: (Seq<u8>, (u8, Seq<char>)),
    i: int,
) -> int
    decreases s.len() - i,
{
    if i < 0 || i >= s.len() {
        -1
    } else if bucket_key(s[i]) == k {
        i
    } else {
        find_bucket_from(s, k, i + 1)
    }
}

/// The bucket of a key: the first entry with that key.
pub open spec fn lookup_bucket(s: Seq<([u8; 32], RateLimitOperation, TokenBucket)>, k: (
    Seq<u8>,
    (u8, Seq<char>),
)) -> Option<TokenBucket> {
    let i = find_bucket_from(s, k, 0);
    if i >= 0 {
        Some(s[i].2)
    } else {
        None
    }
}

proof fn lemma_find_bucket(s: Seq<([u8; 32], RateLimitOperation, TokenBucket)>, k: (
    Seq<u8>,
    (u8, Seq<char>),
), i: int)
    requires
        0 <= i <= s.len(),
    ensures
        find_bucket_from(s, k, i) == -1 || (i <= find_bucket_from(s, k, i) < s.len() && bucket_key(
            s[find_bucket_from(s, k, i)],
        ) == k && forall|j: int| i <= j < find_bucket_from(s, k, i) ==> bucket_key(s[j]) != k),
        find_bucket_from(s, k, i) == -1 ==> forall|j: int| i <= j < s.len() ==> bucket_key(s[j]) != k,
    decreases s.len() - i,
{
    if i < s.len() && bucket_key(s[i]) != k {
        lemma_find_bucket(s, k, i + 1);
    }
}

/// The first index of key `k` is `i`: the entry there has it, none before.
proof fn lemma_find_bucket_at(s: Seq<([u8; 32], RateLimitOperation, TokenBucket)>, k: (
    Seq<u8>,
    (u8, Seq<char>),
), i: int, from: int)
    requires
        0 <= from <= i < s.len(),
        bucket_key(s[i]) == k,
        forall|j: int| from <= j < i ==> bucket_key(s[j]) != k,
    ensures
        find_bucket_from(s, k, from) == i,
    decreases i - from,
{
    if from < i {
        lemma_find_bucket_at(s, k, i, from + 1);
    }
}

proof fn lemma_find_bucket_none(s: Seq<([u8; 32], RateLimitOperation, TokenBucket)>, k: (
    Seq<u8>,
    (u8, Seq<char>),
), from: int)
    requires
        0 <= from <= s.len(),
        forall|j: int| from <= j < s.len() ==> bucket_key(s[j]) != k,
    ensures
        find_bucket_from(s, k, from) == -1,
    decreases s.len() - from,
{
    if from < s.len() {
        lemma_find_bucket_none(s, k, from + 1);
    }
}

/// Rate limiter for all identities and operations.
#[derive(Debug)]
pub struct RateLimiter {
    buckets: Vec<([u8; 32], RateLimitOperation, TokenBucket)>,
    configs: Vec<(RateLimitOperation, RateLimitConfig)>,
    enabled: bool,
}

/// The custom configuration of an operation: the first one set for it.
pub open spec fn find_config(s: Seq<(RateLimitOperation, RateLimitConfig)>, k: (u8, Seq<char>)) -> Option<
    RateLimitConfig,
>
    decreases s.len(),
{
    if s.len() == 0 {
        None
    } else if op_key(s[0].0) == k {
        Some(s[0].1)
    } else {
        find_config(s.drop_first(), k)
    }
}

impl RateLimiter {
    /// Every bucket holds at most its limit.
    pub closed spec fn wf(&self) -> bool {
        forall|j: int| 0 <= j < self.buckets@.len() ==> bucket_ok(#[trigger] self.buckets@[j].2)
    }

    /// Whether limiting is on.
    pub closed spec fn enabled_view(&self) -> bool {
        self.enabled
    }

    /// The bucket of an identity and operation, if it was made.
    pub closed spec fn bucket(&self, identity: Seq<u8>, op: (u8, Seq<char>)) -> Option<TokenBucket> {
        lookup_bucket(self.buckets@, (identity, op))
    }

    /// The configuration an operation's new buckets get: the custom one set
    /// for it, else its default.
    pub closed spec fn config_for(&self, op: RateLimitOperation) -> RateLimitConfig {
        match find_config(self.configs@, op_key(op)) {
            Some(c) => c,
            None => default_config(op),
        }
    }

    /// An enabled limiter without buckets or custom configurations.
    pub fn new() -> (r: RateLimiter)
        ensures
            r.wf(),
            r.enabled_view(),
            forall|i: Seq<u8>, o: (u8, Seq<char>)| #[trigger] r.bucket(i, o) is None,
            forall|op: RateLimitOperation| #[trigger] r.config_for(op) == default_config(op),
    {
        RateLimiter { buckets: Vec::new(), configs: Vec::new(), enabled: true }
    }

    /// A limiter that allows everything.
    pub fn disabled() -> (r: RateLimiter)
        ensures
            r.wf(),
            !r.enabled_view(),
            forall|i: Seq<u8>, o: (u8, Seq<char>)| #[trigger] r.bucket(i, o) is None,
    {
        RateLimiter { buckets: Vec::new(), configs: Vec::new(), enabled: false }
    }

    /// Set a custom configuration for an operation; every bucket is dropped,
    /// so that new ones get the new configurations.
    pub fn set_config(&mut self, operation: RateLimitOperation, config: RateLimitConfig)
        requires
            old(self).wf(),
        ensures
            final(self).wf(),
            final(self).enabled_view() == old(self).enabled_view(),
            forall|i: Seq<u8>, o: (u8, Seq<char>)| #[trigger] final(self).bucket(i, o) is None,
            final(self).config_for(operation) == config,
            forall|op: RateLimitOperation|
                op_key(op) != op_key(operation) ==> #[trigger] final(self).config_for(op) == old(self).config_for(op),
    {
        self.buckets = Vec::new();
        let ghost old_c = self.configs@;
        let mut kept: Vec<(RateLimitOperation, RateLimitConfig)> = Vec::new();
        kept.push((operation.copy_op(), config));
        assert(kept@.drop_first() =~= Seq::<(RateLimitOperation, RateLimitConfig)>::empty());
        assert(old_c.subrange(0, 0) =~= Seq::<(RateLimitOperation, RateLimitConfig)>::empty());
        let mut i: usize = 0;
        while i < self.configs.len()
            invariant
                old_c == self.configs@,
                i <= old_c.len(),
                kept@.len() >= 1,
                op_key(kept@[0].0) == op_key(operation),
                kept@[0].1 == config,
                forall|k: (u8, Seq<char>)|
                    k != op_key(operation) ==> #[trigger] find_config(kept@, k) == find_config(
                        old_c.subrange(0, i as int),
                        k,
                    ),
            decreases old_c.len() - i,
        {
            let ghost before = kept@;
            let op = self.configs[i].0.copy_op();
            let c = self.configs[i].1;
            kept.push((op, c));
            proof {
                assert forall|k: (u8, Seq<char>)|
                    k != op_key(operation) implies #[trigger] find_config(kept@, k) == find_config(
                    old_c.subrange(0, i + 1),
                    k,
                ) by {
                    lemma_find_config_push(before, (op, c), k);
                    lemma_find_config_push(old_c.subrange(0, i as int), old_c[i as int], k);
                    assert(old_c.subrange(0, i + 1) =~= old_c.subrange(0, i as int).push(old_c[i as int]));
                }
            }
            i = i + 1;
        }
        assert(old_c.subrange(0, old_c.len() as int) =~= old_c);
        self.configs = kept;
        assert forall|i: Seq<u8>, o: (u8, Seq<char>)| #[trigger] self.bucket(i, o) is None by {
            assert(find_bucket_from(self.buckets@, (i, o), 0) == -1);
        }
    }

    /// The custom configuration of an operation, if one was set.
    fn custom_config(&self, op: &RateLimitOperation) -> (r: Option<RateLimitConfig>)
        ensures
            r == find_config(self.configs@, op_key(*op)),
    {
        let mut i: usize = 0;
        assert(self.configs@.subrange(0, self.configs@.len() as int) =~= self.configs@);
        while i < self.configs.len()
            invariant
                i <= self.configs@.len(),
                find_config(self.configs@, op_key(*op)) == find_config(
                    self.configs@.subrange(i as int, self.configs@.len() as int),
                    op_key(*op),
                ),
            decreases self.configs@.len() - i,
        {
            let ghost rest = self.configs@.subrange(i as int, self.configs@.len() as int);
            assert(rest.drop_first() =~= self.configs@.subrange(i + 1, self.configs@.len() as int));
            if same_op(&self.configs[i].0, op) {
                return Some(self.configs[i].1);
            }
            i = i + 1;
        }
        None
    }

    /// The index of the bucket of an identity and operation, if made.
    fn bucket_index(&self, identity: &[u8; 32], op: &RateLimitOperation) -> (r: Option<usize>)
        ensures
            r matches Some(i) ==> i as int == find_bucket_from(self.buckets@, (identity@, op_key(*op)), 0),
            r is None ==> find_bucket_from(self.buckets@, (identity@, op_key(*op)), 0) == -1,
    {
        let ghost k = (identity@, op_key(*op));
        let mut i: usize = 0;
        while i < self.buckets.len()
            invariant
                k == (identity@, op_key(*op)),
                i <= self.buckets@.len(),
                forall|j: int| 0 <= j < i ==> bucket_key(self.buckets@[j]) != k,
            decreases self.buckets@.len() - i,
        {
            if bytes_eq(&self.buckets[i].0, identity) && same_op(&self.buckets[i].1, op) {
                proof {
                    lemma_find_bucket_at(self.buckets@, k, i as int, 0);
                }
                return Some(i);
            }
            i = i + 1;
        }
        proof {
            lemma_find_bucket_none(self.buckets@, k, 0);
        }
        None
    }

    /// The bucket a request of an identity and operation finds at `now`:
    /// the one made for them, else a fresh one of the operation's
    /// configuration.
    pub open spec fn bucket_at(&self, identity: Seq<u8>, operation: RateLimitOperation, now: i64) -> TokenBucket {
        match self.bucket(identity, op_key(operation)) {
            Some(b) => b,
            None => fresh_bucket(self.config_for(operation), now),
        }
    }

    /// What a request for `tokens` of an identity and operation at `now`
    /// answers and leaves. A disabled limiter allows everything and keeps
    /// its buckets; otherwise the bucket (see `bucket_at`) is refilled, and
    /// the request is allowed if it holds the tokens (they are taken, and
    /// the whole tokens left reported), else refused with the wait until it
    /// would. Other buckets and the configurations are kept.
    pub open spec fn consume_outcome(
        before: RateLimiter,
        after: RateLimiter,
        identity: Seq<u8>,
        operation: RateLimitOperation,
        tokens: u32,
        now: i64,
        r: RateLimitResult,
    ) -> bool {
        &&& after.enabled_view() == before.enabled_view()
        &&& forall|op: RateLimitOperation| #[trigger] after.config_for(op) == before.config_for(op)
        &&& !before.enabled_view() ==> r == (RateLimitResult::Allowed { remaining: u32::MAX })
            && forall|i: Seq<u8>, o: (u8, Seq<char>)| #[trigger] after.bucket(i, o) == before.bucket(i, o)
        &&& before.enabled_view() ==> {
            let b1 = refilled(before.bucket_at(identity, operation, now), now);
            let need = tokens * UNITS_PER_TOKEN;
            &&& b1.units >= need ==> r == (RateLimitResult::Allowed {
                remaining: ((b1.units - need) / (UNITS_PER_TOKEN as int)) as u32,
            }) && after.bucket(identity, op_key(operation)) == Some(
                TokenBucket { units: (b1.units - need) as u64, ..b1 },
            )
            &&& b1.units < need ==> r == (RateLimitResult::Denied { retry_after_ms: wait_ms(b1, tokens) })
                && after.bucket(identity, op_key(operation)) == Some(b1)
            &&& forall|i: Seq<u8>, o: (u8, Seq<char>)|
                (i, o) != (identity, op_key(operation)) ==> #[trigger] after.bucket(i, o)
                    == before.bucket(i, o)
        }
    }

    /// What asking for the tokens left of an identity and operation at
    /// `now` answers and leaves: all of them for a disabled limiter;
    /// otherwise the bucket (see `bucket_at`) is refilled and kept, and its
    /// whole tokens reported.
    pub open spec fn remaining_outcome(
        before: RateLimiter,
        after: RateLimiter,
        identity: Seq<u8>,
        operation: RateLimitOperation,
        now: i64,
        n: u32,
    ) -> bool {
        &&& after.enabled_view() == before.enabled_view()
        &&& forall|op: RateLimitOperation| #[trigger] after.config_for(op) == before.config_for(op)
        &&& !before.enabled_view() ==> n == u32::MAX && forall|i: Seq<u8>, o: (u8, Seq<char>)|
            #[trigger] after.bucket(i, o) == before.bucket(i, o)
        &&& before.enabled_view() ==> {
            let b1 = refilled(before.bucket_at(identity, operation, now), now);
            &&& n == b1.units / UNITS_PER_TOKEN
            &&& after.bucket(identity, op_key(operation)) == Some(b1)
            &&& forall|i: Seq<u8>, o: (u8, Seq<char>)|
                (i, o) != (identity, op_key(operation)) ==> #[trigger] after.bucket(i, o)
                    == before.bucket(i, o)
        }
    }

    /// The index of the bucket of an identity and operation, made at `now`
    /// from the operation's configuration if new.
    fn ensure_bucket(&mut self, identity: &[u8; 32], operation: &RateLimitOperation, now: i64) -> (idx:
        usize)
        requires
            old(self).wf(),
        ensures
            final(self).wf(),
            final(self).enabled == old(self).enabled,
            final(self).configs@ == old(self).configs@,
            idx < final(self).buckets@.len(),
            find_bucket_from(final(self).buckets@, (identity@, op_key(*operation)), 0) == idx,
            bucket_key(final(self).buckets@[idx as int]) == (identity@, op_key(*operation)),
            final(self).buckets@[idx as int].2 == old(self).bucket_at(identity@, *operation, now),
            forall|i: Seq<u8>, o: (u8, Seq<char>)|
                (i, o) != (identity@, op_key(*operation)) ==> #[trigger] final(self).bucket(i, o)
                    == old(self).bucket(i, o),
    {
        let ghost k = (identity@, op_key(*operation));
        let ghost old_b = self.buckets@;
        proof {
            lemma_find_bucket(old_b, k, 0);
        }
        match self.bucket_index(identity, operation) {
            Some(i) => i,
            None => {
                let config = match self.custom_config(operation) {
                    Some(c) => c,
                    None => operation.default_config(),
                };
                let b = TokenBucket::new_at(&config, now);
                self.buckets.push((*identity, operation.copy_op(), b));
                proof {
                    assert(self.buckets@.drop_last() =~= old_b);
                    assert forall|j: int| 0 <= j < old_b.len() implies bucket_key(self.buckets@[j]) != k by {
                        assert(self.buckets@[j] == old_b[j]);
                    }
                    lemma_find_bucket_at(self.buckets@, k, old_b.len() as int, 0);
                    assert forall|i: Seq<u8>, o: (u8, Seq<char>)|
                        (i, o) != k implies #[trigger] lookup_bucket(self.buckets@, (i, o))
                        == lookup_bucket(old_b, (i, o)) by {
                        lemma_find_push(old_b, self.buckets@[old_b.len() as int], (i, o));
                    }
                    assert forall|j: int| 0 <= j < self.buckets@.len() implies bucket_ok(
                        #[trigger] self.buckets@[j].2,
                    ) by {
                        if j < old_b.len() {
                            assert(self.buckets@[j] == old_b[j]);
                        }
                    }
                }
                self.buckets.len() - 1
            },
        }
    }

    /// Check and take `tokens` for an identity and operation at `now` (see
    /// `consume_outcome`).
    pub fn check_consume_at(
        &mut self,
        identity: &[u8; 32],
        operation: &RateLimitOperation,
        tokens: u32,
        now: i64,
    ) -> (r: RateLimitResult)
        requires
            old(self).wf(),
        ensures
            final(self).wf(),
            Self::consume_outcome(*old(self), *final(self), identity@, *operation, tokens, now, r),
    {
        if !self.enabled {
            return RateLimitResult::Allowed { remaining: u32::MAX };
        }
        let ghost k = (identity@, op_key(*operation));
        let idx = self.ensure_bucket(identity, operation, now);
        let ghost mid = self.buckets@;
        let ghost mid_self = *self;
        let (id, op, mut bucket) = (self.buckets[idx].0, self.buckets[idx].1.copy_op(), self.buckets[idx].2);
        assert(bucket_ok(bucket));
        let allowed = bucket.try_consume_at(tokens, now);
        let result = if allowed {
            let remaining = bucket.available_tokens_at(now);
            RateLimitResult::Allowed { remaining }
        } else {
            let wait = bucket.time_until_available_at(tokens, now);
            RateLimitResult::Denied { retry_after_ms: wait }
        };
        self.buckets.set(idx, (id, op, bucket));
        proof {
            assert forall|j: int| 0 <= j < self.buckets@.len() implies bucket_ok(
                #[trigger] self.buckets@[j].2,
            ) by {
                if j != idx {
                    assert(self.buckets@[j] == mid[j]);
                }
            }
            lemma_find_update(mid, idx as int, self.buckets@[idx as int], k);
            assert forall|i: Seq<u8>, o: (u8, Seq<char>)|
                (i, o) != k implies #[trigger] self.bucket(i, o) == old(self).bucket(i, o) by {
                lemma_find_update(mid, idx as int, self.buckets@[idx as int], (i, o));
                lemma_find_bucket(mid, k, 0);
                lemma_find_bucket(mid, (i, o), 0);
                assert(mid_self.bucket(i, o) == old(self).bucket(i, o));
            }
            let b1 = refilled(mid[idx as int].2, now);
            if allowed {
                assert(refilled(TokenBucket { units: (b1.units - tokens * UNITS_PER_TOKEN) as u64, ..b1 }, now)
                    == TokenBucket { units: (b1.units - tokens * UNITS_PER_TOKEN) as u64, ..b1 });
            } else {
                assert(refilled(b1, now) == b1);
            }
        }
        result
    }

    /// Check and take `tokens` now (see `consume_outcome`; the clock is the
    /// wall clock, and a clock that went back refills nothing).
    pub fn check_consume(&mut self, identity: &[u8; 32], operation: &RateLimitOperation, tokens: u32) -> (r:
        RateLimitResult)
        requires
            old(self).wf(),
        ensures
            final(self).wf(),
            exists|now: i64|
                -INSTANT_BOUND < now < INSTANT_BOUND && #[trigger] Self::consume_outcome(*old(self), *final(self), identity@, *operation, tokens, now, r),
    {
        let now = now_millis();
        self.check_consume_at(identity, operation, tokens, now)
    }

    /// Check and take one token now.
    pub fn check(&mut self, identity: &[u8; 32], operation: &RateLimitOperation) -> (r: RateLimitResult)
        requires
            old(self).wf(),
        ensures
            final(self).wf(),
            exists|now: i64|
                -INSTANT_BOUND < now < INSTANT_BOUND && #[trigger] Self::consume_outcome(*old(self), *final(self), identity@, *operation, 1, now, r),
    {
        self.check_consume(identity, operation, 1)
    }

    /// The whole tokens an identity has for an operation at `now`, taking
    /// none (see `remaining_outcome`).
    pub fn remaining_at(&mut self, identity: &[u8; 32], operation: &RateLimitOperation, now: i64) -> (n: u32)
        requires
            old(self).wf(),
        ensures
            final(self).wf(),
            Self::remaining_outcome(*old(self), *final(self), identity@, *operation, now, n),
    {
        if !self.enabled {
            return u32::MAX;
        }
        let ghost k = (identity@, op_key(*operation));
        let idx = self.ensure_bucket(identity, operation, now);
        let ghost mid = self.buckets@;
        let ghost mid_self = *self;
        let (id, op, mut bucket) = (self.buckets[idx].0, self.buckets[idx].1.copy_op(), self.buckets[idx].2);
        assert(bucket_ok(bucket));
        let n = bucket.available_tokens_at(now);
        self.buckets.set(idx, (id, op, bucket));
        proof {
            assert forall|j: int| 0 <= j < self.buckets@.len() implies bucket_ok(
                #[trigger] self.buckets@[j].2,
            ) by {
                if j != idx {
                    assert(self.buckets@[j] == mid[j]);
                }
            }
            lemma_find_update(mid, idx as int, self.buckets@[idx as int], k);
            assert forall|i: Seq<u8>, o: (u8, Seq<char>)|
                (i, o) != k implies #[trigger] self.bucket(i, o) == old(self).bucket(i, o) by {
                lemma_find_update(mid, idx as int, self.buckets@[idx as int], (i, o));
                lemma_find_bucket(mid, k, 0);
                lemma_find_bucket(mid, (i, o), 0);
                assert(mid_self.bucket(i, o) == old(self).bucket(i, o));
            }
        }
        n
    }

    /// The whole tokens an identity has for an operation now, taking none.
    pub fn remaining(&mut self, identity: &[u8; 32], operation: &RateLimitOperation) -> (n: u32)
        requires
            old(self).wf(),
        ensures
            final(self).wf(),
            exists|now: i64|
                -INSTANT_BOUND < now < INSTANT_BOUND && #[trigger] Self::remaining_outcome(*old(self), *final(self), identity@, *operation, now, n),
    {
        let now = now_millis();
        self.remaining_at(identity, operation, now)
    }

    /// The identities that have buckets.
    pub closed spec fn identities(&self) -> Set<Seq<u8>> {
        Set::new(|id: Seq<u8>| exists|j: int| 0 <= j < self.buckets@.len() && self.buckets@[j].0@ == id)
    }

    /// Forget the buckets once too many identities have them: with more
    /// than `MAX_TRACKED_IDENTITIES`, every bucket is dropped; otherwise
    /// nothing changes. Identities are not timed, so the age is not used.
    pub fn cleanup_stale(&mut self, _max_age_ms: u64)
        requires
            old(self).wf(),
        ensures
            final(self).wf(),
            final(self).enabled_view() == old(self).enabled_view(),
            forall|op: RateLimitOperation| #[trigger] final(self).config_for(op) == old(self).config_for(op),
            old(self).identities().len() > MAX_TRACKED_IDENTITIES ==> forall|i: Seq<u8>, o: (u8, Seq<char>)|
                #[trigger] final(self).bucket(i, o) is None,
            old(self).identities().len() <= MAX_TRACKED_IDENTITIES ==> forall|
                i: Seq<u8>,
                o: (u8, Seq<char>),
            | #[trigger] final(self).bucket(i, o) == old(self).bucket(i, o),
    {
        let mut ids: Vec<[u8; 32]> = Vec::new();
        let mut i: usize = 0;
        while i < self.buckets.len()
            invariant
                i <= self.buckets@.len(),
                id_views(ids@).no_duplicates(),
                forall|id: Seq<u8>|
                    #![trigger id_views(ids@).contains(id)]
                    id_views(ids@).contains(id) <==> exists|j: int|
                        0 <= j < i && self.buckets@[j].0@ == id,
            decreases self.buckets@.len() - i,
        {
            let id = self.buckets[i].0;
            let ghost before = id_views(ids@);
            let mut seen = false;
            let mut m: usize = 0;
            while m < ids.len()
                invariant
                    m <= ids@.len(),
                    seen == exists|q: int| 0 <= q < m && ids@[q]@ == id@,
                decreases ids@.len() - m,
            {
                if bytes_eq(&ids[m], &id) {
                    seen = true;
                }
                m = m + 1;
            }
            if !seen {
                ids.push(id);
                proof {
                    assert(id_views(ids@) =~= before.push(id@));
                    assert(!before.contains(id@)) by {
                        if before.contains(id@) {
                            let q = choose|q: int| 0 <= q < before.len() && before[q] == id@;
                            assert(ids@[q]@ == id@);
                        }
                    }
                }
            } else {
                proof {
                    let q = choose|q: int| 0 <= q < m && ids@[q]@ == id@;
                    assert(before[q] == id@);
                }
            }
            proof {
                let now_ids = id_views(ids@);
                assert forall|x: Seq<u8>| now_ids.contains(x) <==> exists|j: int|
                    0 <= j < i + 1 && self.buckets@[j].0@ == x by {
                    if now_ids.contains(x) {
                        let q = choose|q: int| 0 <= q < now_ids.len() && now_ids[q] == x;
                        if x != id@ {
                            assert(before.contains(x)) by {
                                if !seen {
                                    assert(q < before.len());
                                    assert(before[q] == x);
                                } else {
                                    assert(before[q] == x);
                                }
                            }
                        } else {
                            assert(self.buckets@[i as int].0@ == x);
                        }
                    }
                    if exists|j: int| 0 <= j < i + 1 && self.buckets@[j].0@ == x {
                        let j = choose|j: int| 0 <= j < i + 1 && self.buckets@[j].0@ == x;
                        if j < i {
                            assert(before.contains(x));
                            let q = choose|q: int| 0 <= q < before.len() && before[q] == x;
                            assert(now_ids[q] == x);
                        } else if !seen {
                            assert(now_ids[now_ids.len() - 1] == x);
                        } else {
                            let q = choose|q: int| 0 <= q < m && ids@[q]@ == id@;
                            assert(now_ids[q] == x);
                        }
                    }
                }
            }
            i = i + 1;
        }
        proof {
            let v = id_views(ids@);
            assert(v.to_set() =~= self.identities()) by {
                assert forall|x: Seq<u8>| v.to_set().contains(x) <==> self.identities().contains(x) by {
                    if v.contains(x) {
                        assert(v.to_set().contains(x));
                    }
                }
            }
            v.unique_seq_to_set();
        }
        if ids.len() > MAX_TRACKED_IDENTITIES {
            self.buckets = Vec::new();
            assert forall|i: Seq<u8>, o: (u8, Seq<char>)| #[trigger] self.bucket(i, o) is None by {
                assert(find_bucket_from(self.buckets@, (i, o), 0) == -1);
            }
        }
    }

    /// Check and take one token.
    pub fn check_at(&mut self, identity: &[u8; 32], operation: &RateLimitOperation, now: i64) -> (r:
        RateLimitResult)
        requires
            old(self).wf(),
        ensures
            final(self).wf(),
            Self::consume_outcome(*old(self), *final(self), identity@, *operation, 1, now, r),
            final(self).enabled_view() == old(self).enabled_view(),
            !old(self).enabled_view() ==> r == (RateLimitResult::Allowed { remaining: u32::MAX }),
            old(self).enabled_view() ==> {
                let b0 = match old(self).bucket(identity@, op_key(*operation)) {
                    Some(b) => b,
                    None => fresh_bucket(old(self).config_for(*operation), now),
                };
                (r is Allowed) == (refilled(b0, now).units >= UNITS_PER_TOKEN)
            },
    {
        self.check_consume_at(identity, operation, 1, now)
    }
}

proof fn lemma_find_config_push(s: Seq<(RateLimitOperation, RateLimitConfig)>, e: (
    RateLimitOperation,
    RateLimitConfig,
), k: (u8, Seq<char>))
    ensures
        find_config(s.push(e), k) == match find_config(s, k) {
            Some(c) => Some(c),
            None => if op_key(e.0) == k {
                Some(e.1)
            } else {
                None
            },
        },
    decreases s.len(),
{
    if s.len() > 0 {
        assert(s.push(e)[0] == s[0]);
        assert(s.push(e).drop_first() =~= s.drop_first().push(e));
        lemma_find_config_push(s.drop_first(), e, k);
    } else {
        assert(s.push(e)[0] == e);
        assert(s.push(e).drop_first() =~= Seq::<(RateLimitOperation, RateLimitConfig)>::empty());
        assert(find_config(Seq::<(RateLimitOperation, RateLimitConfig)>::empty(), k) is None);
    }
}

proof fn lemma_find_push(s: Seq<([u8; 32], RateLimitOperation, TokenBucket)>, e: (
    [u8; 32],
    RateLimitOperation,
    TokenBucket,
), k: (Seq<u8>, (u8, Seq<char>)))
    requires
        bucket_key(e) != k,
    ensures
        lookup_bucket(s.push(e), k) == lookup_bucket(s, k),
{
    let t = s.push(e);
    lemma_find_bucket(s, k, 0);
    let i = find_bucket_from(s, k, 0);
    if i == -1 {
        lemma_find_bucket_none(t, k, 0);
    } else {
        assert(t[i] == s[i]);
        lemma_find_bucket_at(t, k, i, 0);
    }
}

proof fn lemma_find_update(s: Seq<([u8; 32], RateLimitOperation, TokenBucket)>, idx: int, e: (
    [u8; 32],
    RateLimitOperation,
    TokenBucket,
), k: (Seq<u8>, (u8, Seq<char>)))
    requires
        0 <= idx < s.len(),
        bucket_key(e) == bucket_key(s[idx]),
    ensures
        find_bucket_from(s.update(idx, e), k, 0) == find_bucket_from(s, k, 0),
        find_bucket_from(s, k, 0) == idx ==> lookup_bucket(s.update(idx, e), k) == Some(e.2),
        find_bucket_from(s, k, 0) != idx ==> lookup_bucket(s.update(idx, e), k) == lookup_bucket(s, k),
{
    let t = s.update(idx, e);
    lemma_find_bucket(s, k, 0);
    let i = find_bucket_from(s, k, 0);
    assert forall|j: int| 0 <= j < s.len() implies bucket_key(t[j]) == bucket_key(s[j]) by {}
    if i == -1 {
        lemma_find_bucket_none(t, k, 0);
    } else {
        lemma_find_bucket_at(t, k, i, 0);
    }
}

/// A disabled limiter allows every request.
pub proof fn law_disabled_allows(r: RateLimitResult)
    requires
        r == (RateLimitResult::Allowed { remaining: u32::MAX }),
    ensures
        r is Allowed,
{
}

/// A bucket that never refills allows exactly as many single-token requests
/// as it holds tokens: with `n` tokens left, a request is allowed iff `n > 0`,
/// and leaves `n - 1`.
pub proof fn law_no_refill_counts_down(b: TokenBucket, now: i64)
    requires
        b.refill_thousandths_per_minute == 0,
        bucket_ok(b),
        b.units % UNITS_PER_TOKEN == 0,
    ensures
        refilled(b, now).units == b.units,
        (refilled(b, now).units >= UNITS_PER_TOKEN) == (b.units / UNITS_PER_TOKEN > 0),
{
}

/// Refilling never exceeds the bucket's limit, and never loses units.
pub proof fn law_refill_bounded(b: TokenBucket, now: i64)
    requires
        bucket_ok(b),
    ensures
        bucket_ok(refilled(b, now)),
        refilled(b, now).units >= b.units,
{
}

} // verus!
