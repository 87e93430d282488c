//! The cache of field maps: when a map is fresh, who refreshes it, and how it is stored.

use vstd::prelude::*;
use vstd::string::*;

use crate::cdgc::CachedFieldMap;
use crate::entitlement::GovernedField;
use crate::refresh::Asset;
use crate::text::join;

verus! {

/// The namespace of the field maps in a store.
pub const FIELD_CACHE_NAMESPACE: &'static str = "fef-fieldmap";

/// The namespace of the refresh locks in a store.
pub const REFRESH_LOCK_NAMESPACE: &'static str = "fef-refresh-lock";

pub const FIELD_CACHE_KEY_PREFIX: &'static str = "fef-fieldmap-";

pub const REFRESH_LOCK_KEY_PREFIX: &'static str = "fef-lock-";

/// The seconds after which a refresh lock may be taken over.
pub const REFRESH_LOCK_TTL_SECONDS: i64 = 30;

/// The milliseconds for which a store keeps a refresh lock.
pub const REFRESH_LOCK_TTL_MS: u32 = 30_000;

/// How often storing a field map is tried.
pub const CAS_MAX_RETRIES: u32 = 3;

/// The key under which the field map of an asset is stored.
pub fn cache_key(asset_id: &str) -> (r: String)
    ensures
        r@ == FIELD_CACHE_KEY_PREFIX@ + asset_id@,
{
    join(FIELD_CACHE_KEY_PREFIX, asset_id)
}

/// The key under which the refresh lock of an asset is stored.
pub fn lock_key(asset_id: &str) -> (r: String)
    ensures
        r@ == REFRESH_LOCK_KEY_PREFIX@ + asset_id@,
{
    join(REFRESH_LOCK_KEY_PREFIX, asset_id)
}

/// Whether the difference of two times can be held.
pub open spec fn comparable(now: i64, then: i64) -> bool {
    i64::MIN <= now - then <= i64::MAX
}

// ---------------------------------------------------------------------------------------------
// Looking a field map up
// ---------------------------------------------------------------------------------------------
/// What came of reading a field map.
#[derive(Debug)]
pub enum ReadOutcome {
    Found(CachedFieldMap),
    Missing,
    Failed,
}

/// What came of fetching a field map.
#[derive(Debug)]
pub enum FetchOutcome {
    Fetched { fields: Vec<GovernedField>, asset: Asset },
    Failed,
}

/// What a lookup does next.
#[derive(Debug)]
pub enum LookupStep {
    /// Try to take the refresh lock.
    TakeLock { cached: Option<CachedFieldMap> },
    /// Fetch the field map from the catalog.
    Fetch { cached: Option<CachedFieldMap> },
    /// Store a field map, and serve it.
    Store(CachedFieldMap),
    /// Serve what there is.
    Serve(Option<CachedFieldMap>),
}

/// The field map that was read, if one was.
pub open spec fn read_map(read: ReadOutcome) -> Option<CachedFieldMap> {
    match read {
        ReadOutcome::Found(map) => Some(map),
        _ => None,
    }
}

/// Whether a field map is fresh.
pub open spec fn is_fresh(map: CachedFieldMap, now: i64, ttl: i64) -> bool {
    now - map.timestamp < ttl
}

/// What follows the reading of the cache: a fresh map is served, and otherwise the lock is tried.
pub open spec fn after_read(read: ReadOutcome, now: i64, ttl: i64) -> LookupStep {
    let cached = read_map(read);
    if cached is Some && is_fresh(cached->0, now, ttl) {
        LookupStep::Serve(cached)
    } else {
        LookupStep::TakeLock { cached }
    }
}

/// What follows the reading of the cache.
pub fn on_read(read: ReadOutcome, now: i64, ttl: i64) -> (r: LookupStep)
    requires
        read is Found ==> comparable(now, read->0.timestamp),
    ensures
        r == after_read(read, now, ttl),
{
    match read {
        ReadOutcome::Found(map) => if now - map.timestamp < ttl {
            LookupStep::Serve(Some(map))
        } else {
            LookupStep::TakeLock { cached: Some(map) }
        },
        ReadOutcome::Missing => LookupStep::TakeLock { cached: None },
        ReadOutcome::Failed => LookupStep::TakeLock { cached: None },
    }
}

/// What follows the attempt at the lock, which comes to nothing where the store fails: whoever
/// has the lock fetches, as does everyone where the store fails, and others serve what there is.
pub open spec fn after_lock(
    cached: Option<CachedFieldMap>,
    acquired: Option<bool>,
) -> LookupStep {
    if acquired == Some(false) {
        LookupStep::Serve(cached)
    } else {
        LookupStep::Fetch { cached }
    }
}

/// What follows the attempt at the lock.
pub fn on_lock(cached: Option<CachedFieldMap>, acquired: Option<bool>) -> (r: LookupStep)
    ensures
        r == after_lock(cached, acquired),
{
    match acquired {
        Some(false) => LookupStep::Serve(cached),
        _ => LookupStep::Fetch { cached },
    }
}

/// What follows the fetch: a map that was fetched is stored and served; if the fetch failed, the
/// last known map is served, provided that the policy fails open.
pub open spec fn after_fetch(
    cached: Option<CachedFieldMap>,
    fetched: FetchOutcome,
    now: i64,
    fails_open: bool,
) -> LookupStep {
    match fetched {
        FetchOutcome::Fetched { fields, asset } => LookupStep::Store(
            CachedFieldMap {
                fields,
                name: asset.name,
                external_id: asset.external_id,
                timestamp: now,
            },
        ),
        FetchOutcome::Failed => LookupStep::Serve(
            if fails_open {
                cached
            } else {
                None
            },
        ),
    }
}

/// What follows the fetch.
pub fn on_fetch(
    cached: Option<CachedFieldMap>,
    fetched: FetchOutcome,
    now: i64,
    fails_open: bool,
) -> (r: LookupStep)
    ensures
        r == after_fetch(cached, fetched, now, fails_open),
{
    match fetched {
        FetchOutcome::Fetched { fields, asset } => LookupStep::Store(
            CachedFieldMap {
                fields,
                name: asset.name,
                external_id: asset.external_id,
                timestamp: now,
            },
        ),
        FetchOutcome::Failed => if fails_open {
            LookupStep::Serve(cached)
        } else {
            LookupStep::Serve(None)
        },
    }
}

// ---------------------------------------------------------------------------------------------
// The refresh lock
// ---------------------------------------------------------------------------------------------
/// What an attempt at the refresh lock does next, or how it ends.
#[derive(Debug, Clone, Copy, PartialEq, Eq, Structural)]
pub enum LockStep {
    /// Store the lock if there is none.
    Claim,
    /// Read the lock that is there.
    Read,
    /// Store the lock in place of the one that was read.
    TakeOver,
    /// Store the lock if there is none, now that the one in the way is gone.
    Reclaim,
    /// The end: whether the lock was acquired.
    Ended(bool),
    /// The end: the store failed.
    Failed,
}

/// How an attempt at the refresh lock begins.
pub fn first_lock_step() -> (r: LockStep)
    ensures
        r == LockStep::Claim,
{
    LockStep::Claim
}

/// What came of a step.
#[derive(Debug, Clone, Copy, PartialEq, Eq, Structural)]
pub enum LockEvent {
    Stored,
    /// The store holds something else than expected.
    Conflict,
    /// There is a lock, acquired at this time.
    Held(i64),
    /// There is no lock.
    Free,
    Failed,
}

/// What follows a step of an attempt at the refresh lock.
pub open spec fn after_lock_step(step: LockStep, event: LockEvent, now: i64) -> LockStep {
    match (step, event) {
        (LockStep::Claim, LockEvent::Stored) => LockStep::Ended(true),
        (LockStep::Claim, LockEvent::Conflict) => LockStep::Read,
        (LockStep::Read, LockEvent::Held(at)) => if now - at < REFRESH_LOCK_TTL_SECONDS {
            LockStep::Ended(false)
        } else {
            LockStep::TakeOver
        },
        (LockStep::Read, LockEvent::Free) => LockStep::Reclaim,
        (LockStep::TakeOver, LockEvent::Stored) => LockStep::Ended(true),
        (LockStep::TakeOver, LockEvent::Conflict) => LockStep::Ended(false),
        (LockStep::Reclaim, LockEvent::Stored) => LockStep::Ended(true),
        (LockStep::Reclaim, LockEvent::Conflict) => LockStep::Ended(false),
        (LockStep::Ended(acquired), _) => LockStep::Ended(acquired),
        _ => LockStep::Failed,
    }
}

/// What follows a step of an attempt at the refresh lock.
pub fn on_lock_step(step: LockStep, event: LockEvent, now: i64) -> (r: LockStep)
    requires
        event is Held ==> comparable(now, event->0),
    ensures
        r == after_lock_step(step, event, now),
{
    match (step, event) {
        (LockStep::Claim, LockEvent::Stored) => LockStep::Ended(true),
        (LockStep::Claim, LockEvent::Conflict) => LockStep::Read,
        (LockStep::Read, LockEvent::Held(at)) => if now - at < REFRESH_LOCK_TTL_SECONDS {
            LockStep::Ended(false)
        } else {
            LockStep::TakeOver
        },
        (LockStep::Read, LockEvent::Free) => LockStep::Reclaim,
        (LockStep::TakeOver, LockEvent::Stored) => LockStep::Ended(true),
        (LockStep::TakeOver, LockEvent::Conflict) => LockStep::Ended(false),
        (LockStep::Reclaim, LockEvent::Stored) => LockStep::Ended(true),
        (LockStep::Reclaim, LockEvent::Conflict) => LockStep::Ended(false),
        (LockStep::Ended(acquired), _) => LockStep::Ended(acquired),
        _ => LockStep::Failed,
    }
}

// ---------------------------------------------------------------------------------------------
// Storing a field map
// ---------------------------------------------------------------------------------------------
/// What storing a field map does next. It counts the attempts that are left, this one included.
#[derive(Debug, Clone, Copy, PartialEq, Eq, Structural)]
pub enum WriteStep {
    /// Read what is stored.
    Read(u32),
    /// Store the map in place of the one that was read.
    Replace(u32),
    /// Store the map if there is none.
    Create(u32),
    /// The end.
    Ended,
}

/// What came of a step.
#[derive(Debug, Clone, Copy, PartialEq, Eq, Structural)]
pub enum WriteEvent {
    Found,
    Missing,
    Stored,
    /// The store holds something else than expected.
    Conflict,
    Failed,
}

/// How storing a field map begins.
pub fn first_write_step() -> (r: WriteStep)
    ensures
        r == WriteStep::Read(CAS_MAX_RETRIES),
{
    WriteStep::Read(CAS_MAX_RETRIES)
}

/// The next attempt, if one is left.
pub open spec fn retried(left: u32) -> WriteStep {
    if left > 1 {
        WriteStep::Read((left - 1) as u32)
    } else {
        WriteStep::Ended
    }
}

/// What follows a step of storing a field map: after a conflict it is tried again, as often as
/// there are attempts left.
pub open spec fn after_write_step(step: WriteStep, event: WriteEvent) -> WriteStep {
    match (step, event) {
        (WriteStep::Read(left), WriteEvent::Found) => WriteStep::Replace(left),
        (WriteStep::Read(left), WriteEvent::Missing) => WriteStep::Create(left),
        (WriteStep::Replace(left), WriteEvent::Conflict) => retried(left),
        (WriteStep::Create(left), WriteEvent::Conflict) => retried(left),
        _ => WriteStep::Ended,
    }
}

/// What follows a step of storing a field map.
pub fn on_write_step(step: WriteStep, event: WriteEvent) -> (r: WriteStep)
    ensures
        r == after_write_step(step, event),
{
    match (step, event) {
        (WriteStep::Read(left), WriteEvent::Found) => WriteStep::Replace(left),
        (WriteStep::Read(left), WriteEvent::Missing) => WriteStep::Create(left),
        (WriteStep::Replace(left), WriteEvent::Conflict) => retry(left),
        (WriteStep::Create(left), WriteEvent::Conflict) => retry(left),
        _ => WriteStep::Ended,
    }
}

fn retry(left: u32) -> (r: WriteStep)
    ensures
        r == retried(left),
{
    if left > 1 {
        WriteStep::Read(left - 1)
    } else {
        WriteStep::Ended
    }
}

} // verus!
