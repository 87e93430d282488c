use std::time::{Duration, SystemTime};

use field_level_entitlement_filter::cdgc::{
    elapsed_ms, next_call_timeout, nonce_from_time, nonce_of, now_secs, units_of, CachedFieldMap,
    RefreshLock, MILLISECOND, REFRESH_BUDGET_MS, SECOND,
};

#[test]
fn nonce_is_decimal() {
    let n = nonce_from_time(SystemTime::UNIX_EPOCH + std::time::Duration::from_secs(1));
    assert_eq!(n, "1000000000");
}

#[test]
fn before_the_epoch_everything_is_zero() {
    let early = SystemTime::UNIX_EPOCH - Duration::from_secs(1);
    assert_eq!(nonce_from_time(early), "0");
    assert_eq!(now_secs(early), 0);
    assert_eq!(nonce_of(None), "0");
    assert_eq!(nonce_of(Some(12)), "12");
}

#[test]
fn seconds_and_milliseconds_are_whole() {
    let start = SystemTime::UNIX_EPOCH + Duration::from_millis(5_999);
    let now = start + Duration::from_micros(2_500);
    assert_eq!(now_secs(start), 5);
    assert_eq!(elapsed_ms(start, now), 2);
    assert_eq!(elapsed_ms(now, start), 0);
}

#[test]
fn counts_beyond_a_signed_number_wrap() {
    let seconds = i64::MAX as u128 + 1;
    assert_eq!(units_of(Some(seconds * SECOND), SECOND), i64::MIN);
    assert_eq!(units_of(Some(seconds * MILLISECOND - 1), MILLISECOND), i64::MAX);
    assert_eq!(units_of(None, SECOND), 0);
}

#[test]
fn timeouts_stay_within_the_budget() {
    assert_eq!(next_call_timeout(5_000, 0), Some(5_000));
    assert_eq!(next_call_timeout(5_000, 12_000), Some(3_000));
    assert_eq!(next_call_timeout(5_000, 14_999), Some(1));
    assert_eq!(next_call_timeout(5_000, 15_000), None);
    assert_eq!(next_call_timeout(5_000, i64::MAX), None);
    assert_eq!(next_call_timeout(0, 0), Some(1));
    assert_eq!(next_call_timeout(-7, 100), Some(1));
    assert_eq!(next_call_timeout(i64::MAX, -1_000), Some(16_000));
    assert_eq!(REFRESH_BUDGET_MS, 15_000);
}

#[test]
fn a_default_map_is_empty() {
    let map = CachedFieldMap::default();
    assert!(map.fields.is_empty());
    assert_eq!(map.name, None);
    assert_eq!(map.external_id, None);
    assert_eq!(map.timestamp, 0);
    assert_eq!(RefreshLock { acquired_at: 3 }.acquired_at, 3);
}
