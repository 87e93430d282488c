//! The cached field map, and the clock as the catalog session reads it.

use std::time::SystemTime;

use vstd::prelude::*;
use vstd::string::*;

use crate::entitlement::GovernedField;
use crate::text;
use crate::text::decimal_of;

verus! {

/// The per-field sensitivity map of one asset, with the governed identity of the asset.
#[derive(Debug, Clone)]
pub struct CachedFieldMap {
    pub fields: Vec<GovernedField>,
    pub name: Option<String>,
    pub external_id: Option<String>,
    /// Unix seconds at which the map was fetched.
    pub timestamp: i64,
}

impl Default for CachedFieldMap {
    fn default() -> (r: CachedFieldMap)
        ensures
            r.fields@.len() == 0,
            r.name is None,
            r.external_id is None,
            r.timestamp == 0,
    {
        CachedFieldMap { fields: Vec::new(), name: None, external_id: None, timestamp: 0 }
    }
}

/// What is stored while one worker refreshes a field map.
#[derive(Debug, Clone)]
pub struct RefreshLock {
    pub acquired_at: i64,
}

// ---------------------------------------------------------------------------------------------
// Time
// ---------------------------------------------------------------------------------------------
/// Declares `std::time::SystemTime`, a point in time.
#[verifier::external_type_specification]
#[verifier::external_body]
pub struct ExSystemTime(SystemTime);

/// The nanoseconds from the Unix epoch to a point in time; none if it lies before the epoch.
pub uninterp spec fn epoch_nanos(now: SystemTime) -> Option<u128>;

/// The nanoseconds from one point in time to a later one; none if the second is the earlier.
pub uninterp spec fn nanos_between(start: SystemTime, now: SystemTime) -> Option<u128>;

/// Calls `SystemTime::duration_since` with the Unix epoch, and takes the duration in nanoseconds.
/// What comes out depends on the point in time alone.
#[verifier::external_body]
fn since_epoch(now: SystemTime) -> (r: Option<u128>)
    ensures
        r == epoch_nanos(now),
{
    now.duration_since(SystemTime::UNIX_EPOCH).ok().map(|d| d.as_nanos())
}

/// The nanoseconds from one number of nanoseconds since the epoch to another; none if the second
/// is the smaller.
pub open spec fn nanos_from(start: u128, now: u128) -> Option<u128> {
    if start <= now {
        Some((now - start) as u128)
    } else {
        None
    }
}

/// Calls `SystemTime::duration_since`, and takes the duration in nanoseconds. What comes out
/// depends on the two points in time alone. Of two points that do not lie before the epoch, it is
/// the difference of their distances from the epoch, if the second is not the earlier.
#[verifier::external_body]
fn since(start: SystemTime, now: SystemTime) -> (r: Option<u128>)
    ensures
        r == nanos_between(start, now),
        epoch_nanos(start) is Some && epoch_nanos(now) is Some ==> r == nanos_from(
            epoch_nanos(start)->0,
            epoch_nanos(now)->0,
        ),
{
    now.duration_since(start).ok().map(|d| d.as_nanos())
}

/// The nonce of a point in time: its nanoseconds in decimal, and zero before the epoch.
pub open spec fn nonce(nanos: Option<u128>) -> Seq<char> {
    match nanos {
        Some(n) => text::decimal(n as nat),
        None => text::decimal(0),
    }
}

/// The nonce for a number of nanoseconds since the epoch.
pub fn nonce_of(nanos: Option<u128>) -> (r: String)
    ensures
        r@ == nonce(nanos),
{
    match nanos {
        Some(n) => decimal_of(n),
        None => decimal_of(0),
    }
}

/// The per-request nonce: nanoseconds since the Unix epoch in decimal.
pub fn nonce_from_time(now: SystemTime) -> (r: String)
    ensures
        r@ == nonce(epoch_nanos(now)),
{
    nonce_of(since_epoch(now))
}

/// Whole units of time in a number of nanoseconds, as a signed number; zero where there is none.
pub open spec fn whole_units(nanos: Option<u128>, unit: u128) -> i64 {
    match nanos {
        Some(n) => (n / unit) as i64,
        None => 0,
    }
}

/// Whole units of time in a number of nanoseconds, as a signed number; zero where there is none.
/// A count that a signed number cannot hold loses its upper bits.
pub fn units_of(nanos: Option<u128>, unit: u128) -> (r: i64)
    requires
        unit > 0,
    ensures
        r == whole_units(nanos, unit),
{
    match nanos {
        Some(n) => #[verifier::truncate] ((n / unit) as i64),
        None => 0,
    }
}

/// The nanoseconds of a second.
pub const SECOND: u128 = 1_000_000_000;

/// The nanoseconds of a millisecond.
pub const MILLISECOND: u128 = 1_000_000;

/// The whole seconds from the Unix epoch to a point in time; zero before the epoch.
pub fn now_secs(now: SystemTime) -> (r: i64)
    ensures
        r == whole_units(epoch_nanos(now), SECOND),
{
    units_of(since_epoch(now), SECOND)
}

/// The whole milliseconds from one point in time to another; zero if the second is the earlier.
pub fn elapsed_ms(start: SystemTime, now: SystemTime) -> (r: i64)
    ensures
        r == whole_units(nanos_between(start, now), MILLISECOND),
        epoch_nanos(start) is Some && epoch_nanos(now) is Some ==> r == whole_units(
            nanos_from(epoch_nanos(start)->0, epoch_nanos(now)->0),
            MILLISECOND,
        ),
{
    units_of(since(start, now), MILLISECOND)
}

/// The milliseconds that one refresh may take in all: six calls, one after another.
pub const REFRESH_BUDGET_MS: i64 = 15_000;

/// How long the next call may take: the time per call, but no more than what is left of the
/// budget and no less than a millisecond. None when nothing is left.
pub open spec fn call_timeout(per_call_ms: int, elapsed: int) -> Option<int> {
    let remaining = REFRESH_BUDGET_MS - elapsed;
    if remaining <= 0 {
        None
    } else {
        let limit = if per_call_ms < remaining {
            per_call_ms
        } else {
            remaining
        };
        Some(
            if limit < 1 {
                1
            } else {
                limit
            },
        )
    }
}

/// How long the next call may take, in milliseconds.
pub fn next_call_timeout(per_call_ms: i64, elapsed: i64) -> (r: Option<u64>)
    requires
        REFRESH_BUDGET_MS - elapsed <= i64::MAX,
    ensures
        match r {
            Some(t) => call_timeout(per_call_ms as int, elapsed as int) == Some(t as int),
            None => call_timeout(per_call_ms as int, elapsed as int) is None,
        },
{
    let remaining: i64 = REFRESH_BUDGET_MS - elapsed;
    if remaining <= 0 {
        return None;
    }
    let limit: i64 = if per_call_ms < remaining {
        per_call_ms
    } else {
        remaining
    };
    Some(
        if limit < 1 {
            1
        } else {
            limit as u64
        },
    )
}

} // verus!
