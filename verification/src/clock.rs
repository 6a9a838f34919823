//! The wall clock, read from the system clock.
use vstd::prelude::*;

verus! {

/// Bound on the magnitude of any instant `chrono` represents, in Unix
/// milliseconds: its dates span years -262143 to 262142, well inside 2^53
/// milliseconds of the epoch.
pub const INSTANT_BOUND: i64 = 9007199254740992;

/// The system clock's distance from the Unix epoch in nanoseconds
/// (`SystemTime::now().duration_since(UNIX_EPOCH)`), and whether it reads
/// at or after the epoch (`Ok`) or before it (`Err`, whose duration is the
/// distance back).
///
/// The value is whatever the system clock reads: nothing is stated of it.
#[verifier::external_body]
pub(crate) fn system_clock_nanos() -> (bool, u128) {
    match std::time::SystemTime::now().duration_since(std::time::UNIX_EPOCH) {
        Ok(d) => (true, d.as_nanos()),
        Err(e) => (false, e.duration().as_nanos()),
    }
}

/// The Unix milliseconds of a clock reading `nanos` nanoseconds after (or,
/// with `after` false, before) the epoch, rounded down.
pub open spec fn reading_millis(after: bool, nanos: u128) -> int {
    if after {
        nanos as int / 1_000_000
    } else {
        -((nanos as int + 999_999) / 1_000_000)
    }
}

/// An instant in milliseconds, held inside the range of instants.
pub open spec fn within_instants(m: int) -> i64 {
    if m >= INSTANT_BOUND {
        (INSTANT_BOUND - 1) as i64
    } else if m <= -INSTANT_BOUND {
        (1 - INSTANT_BOUND) as i64
    } else {
        m as i64
    }
}

/// The Unix milliseconds of a clock reading (see `reading_millis`), held
/// inside the range of instants.
pub fn millis_of_reading(after: bool, nanos: u128) -> (r: i64)
    ensures
        r == within_instants(reading_millis(after, nanos)),
        -INSTANT_BOUND < r < INSTANT_BOUND,
{
    let bound: u128 = 9007199254740992;
    if after {
        let ms = nanos / 1_000_000;
        if ms >= bound {
            9007199254740991
        } else {
            ms as i64
        }
    } else {
        let ms = nanos / 1_000_000 + if nanos % 1_000_000 == 0 {
            0
        } else {
            1
        };
        assert(ms == (nanos as int + 999_999) / 1_000_000) by (nonlinear_arith)
            requires
                ms == nanos as int / 1_000_000 + if nanos as int % 1_000_000 == 0 {
                    0int
                } else {
                    1int
                },
                nanos >= 0,
        ;
        if ms >= bound {
            -9007199254740991
        } else {
            -(ms as i64)
        }
    }
}

/// The signed nanoseconds of a clock reading, `None` outside `i64`.
pub open spec fn reading_nanos(after: bool, nanos: u128) -> Option<i64> {
    let n: int = if after {
        nanos as int
    } else {
        -(nanos as int)
    };
    if i64::MIN <= n <= i64::MAX {
        Some(n as i64)
    } else {
        None
    }
}

/// The signed nanoseconds of a clock reading (see `reading_nanos`).
pub fn nanos_of_reading(after: bool, nanos: u128) -> (r: Option<i64>)
    ensures
        r == reading_nanos(after, nanos),
{
    if after {
        if nanos <= 9223372036854775807 {
            Some(nanos as i64)
        } else {
            None
        }
    } else {
        if nanos <= 9223372036854775808 {
            if nanos == 9223372036854775808 {
                Some(i64::MIN)
            } else {
                Some(-(nanos as i64))
            }
        } else {
            None
        }
    }
}

/// Current time as Unix milliseconds, rounded down (a clock before the
/// epoch gives a negative time), held inside the range of instants.
pub(crate) fn now_millis() -> (r: i64)
    ensures
        exists|after: bool, nanos: u128| r == within_instants(reading_millis(after, nanos)),
        -INSTANT_BOUND < r < INSTANT_BOUND,
{
    let (after, nanos) = system_clock_nanos();
    let r = millis_of_reading(after, nanos);
    assert(r == within_instants(reading_millis(after, nanos)));
    r
}

/// Current time as signed Unix nanoseconds, `None` outside `i64`.
pub(crate) fn now_nanos() -> (r: Option<i64>)
    ensures
        exists|after: bool, nanos: u128| r == reading_nanos(after, nanos),
{
    let (after, nanos) = system_clock_nanos();
    let r = nanos_of_reading(after, nanos);
    assert(r == reading_nanos(after, nanos));
    r
}

} // verus!
