use field_level_entitlement_filter::cache::{
    cache_key, first_lock_step, first_write_step, lock_key, on_fetch, on_lock, on_lock_step, on_read, on_write_step,
    FetchOutcome, LockEvent, LockStep, LookupStep, ReadOutcome, WriteEvent, WriteStep,
    CAS_MAX_RETRIES, FIELD_CACHE_NAMESPACE, REFRESH_LOCK_NAMESPACE, REFRESH_LOCK_TTL_MS,
    REFRESH_LOCK_TTL_SECONDS,
};
use field_level_entitlement_filter::cdgc::CachedFieldMap;
use field_level_entitlement_filter::entitlement::GovernedField;
use field_level_entitlement_filter::refresh::Asset;

fn map_at(timestamp: i64) -> CachedFieldMap {
    CachedFieldMap { fields: Vec::new(), name: Some("n".into()), external_id: None, timestamp }
}

#[test]
fn keys_carry_the_asset() {
    assert_eq!(cache_key("a1"), "fef-fieldmap-a1");
    assert_eq!(lock_key("a1"), "fef-lock-a1");
    assert_eq!(FIELD_CACHE_NAMESPACE, "fef-fieldmap");
    assert_eq!(REFRESH_LOCK_NAMESPACE, "fef-refresh-lock");
    assert_eq!(REFRESH_LOCK_TTL_MS as i64, REFRESH_LOCK_TTL_SECONDS * 1000);
}

#[test]
fn fresh_maps_are_served() {
    assert!(matches!(on_read(ReadOutcome::Found(map_at(100)), 199, 100), LookupStep::Serve(Some(m)) if m.timestamp == 100));
    assert!(matches!(on_read(ReadOutcome::Found(map_at(100)), 200, 100), LookupStep::TakeLock { cached: Some(_) }));
    assert!(matches!(on_read(ReadOutcome::Found(map_at(100)), 100, 0), LookupStep::TakeLock { cached: Some(_) }));
    assert!(matches!(on_read(ReadOutcome::Missing, 100, 100), LookupStep::TakeLock { cached: None }));
    assert!(matches!(on_read(ReadOutcome::Failed, 100, 100), LookupStep::TakeLock { cached: None }));
}

#[test]
fn only_the_holder_of_the_lock_fetches() {
    assert!(matches!(on_lock(Some(map_at(1)), Some(false)), LookupStep::Serve(Some(_))));
    assert!(matches!(on_lock(None, Some(false)), LookupStep::Serve(None)));
    assert!(matches!(on_lock(Some(map_at(1)), Some(true)), LookupStep::Fetch { cached: Some(_) }));
    assert!(matches!(on_lock(None, None), LookupStep::Fetch { cached: None }));
}

#[test]
fn fetched_maps_are_stored_with_their_time() {
    let fetched = FetchOutcome::Fetched {
        fields: vec![GovernedField { name: "a".into(), sensitive: true, term: None }],
        asset: Asset { name: Some("file".into()), external_id: Some("x".into()) },
    };
    match on_fetch(None, fetched, 77, false) {
        LookupStep::Store(m) => {
            assert_eq!(m.timestamp, 77);
            assert_eq!(m.fields.len(), 1);
            assert_eq!(m.name.as_deref(), Some("file"));
            assert_eq!(m.external_id.as_deref(), Some("x"));
            assert!(matches!(on_read(ReadOutcome::Found(m), 78, 2), LookupStep::Serve(Some(_))));
        }
        other => panic!("{other:?}"),
    }
}

#[test]
fn a_failed_fetch_serves_the_last_known_map_only_if_the_policy_fails_open() {
    assert!(matches!(on_fetch(Some(map_at(1)), FetchOutcome::Failed, 5, true), LookupStep::Serve(Some(m)) if m.timestamp == 1));
    assert!(matches!(on_fetch(Some(map_at(1)), FetchOutcome::Failed, 5, false), LookupStep::Serve(None)));
    assert!(matches!(on_fetch(None, FetchOutcome::Failed, 5, true), LookupStep::Serve(None)));
}

#[test]
fn a_free_lock_is_claimed() {
    assert_eq!(first_lock_step(), LockStep::Claim);
    assert_eq!(on_lock_step(LockStep::Claim, LockEvent::Stored, 100), LockStep::Ended(true));
    assert_eq!(on_lock_step(LockStep::Claim, LockEvent::Conflict, 100), LockStep::Read);
    assert_eq!(on_lock_step(LockStep::Claim, LockEvent::Failed, 100), LockStep::Failed);
}

#[test]
fn a_young_lock_is_left_and_an_old_one_taken_over() {
    assert_eq!(on_lock_step(LockStep::Read, LockEvent::Held(71), 100), LockStep::Ended(false));
    assert_eq!(on_lock_step(LockStep::Read, LockEvent::Held(70), 100), LockStep::TakeOver);
    assert_eq!(on_lock_step(LockStep::Read, LockEvent::Free, 100), LockStep::Reclaim);
    assert_eq!(on_lock_step(LockStep::Read, LockEvent::Failed, 100), LockStep::Failed);
    for step in [LockStep::TakeOver, LockStep::Reclaim] {
        assert_eq!(on_lock_step(step, LockEvent::Stored, 100), LockStep::Ended(true));
        assert_eq!(on_lock_step(step, LockEvent::Conflict, 100), LockStep::Ended(false));
        assert_eq!(on_lock_step(step, LockEvent::Failed, 100), LockStep::Failed);
    }
    assert_eq!(on_lock_step(LockStep::Ended(false), LockEvent::Stored, 100), LockStep::Ended(false));
}

/// Runs an attempt against a store that nobody else writes to.
fn attempt(held: &mut Option<i64>, now: i64) -> LockStep {
    let mut step = LockStep::Claim;
    for _ in 0..3 {
        let event = match step {
            LockStep::Claim | LockStep::Reclaim if held.is_none() => {
                *held = Some(now);
                LockEvent::Stored
            }
            LockStep::Claim | LockStep::Reclaim => LockEvent::Conflict,
            LockStep::Read => match *held {
                Some(at) => LockEvent::Held(at),
                None => LockEvent::Free,
            },
            LockStep::TakeOver => {
                *held = Some(now);
                LockEvent::Stored
            }
            _ => break,
        };
        step = on_lock_step(step, event, now);
    }
    step
}

#[test]
fn of_two_attempts_in_a_row_one_succeeds() {
    let mut held = None;
    assert_eq!(attempt(&mut held, 100), LockStep::Ended(true));
    assert_eq!(attempt(&mut held, 129), LockStep::Ended(false));
    assert_eq!(held, Some(100));
    assert_eq!(attempt(&mut held, 130), LockStep::Ended(true));
    assert_eq!(held, Some(130));
}

/// Runs interleaved attempts against a store that counts versions; each turn names who takes it.
fn race(held: Option<i64>, times: &[i64], turns: &[usize]) -> Vec<LockStep> {
    let mut held = held;
    let mut version = 0;
    let mut steps = vec![LockStep::Claim; times.len()];
    let mut seen = vec![0; times.len()];
    for &who in turns {
        let event = match steps[who] {
            LockStep::Claim | LockStep::Reclaim if held.is_none() => LockEvent::Stored,
            LockStep::Claim | LockStep::Reclaim => LockEvent::Conflict,
            LockStep::Read => {
                seen[who] = version;
                held.map_or(LockEvent::Free, LockEvent::Held)
            }
            LockStep::TakeOver if held.is_some() && seen[who] == version => LockEvent::Stored,
            LockStep::TakeOver => LockEvent::Conflict,
            _ => continue,
        };
        if event == LockEvent::Stored {
            held = Some(times[who]);
            version += 1;
        }
        steps[who] = on_lock_step(steps[who], event, times[who]);
    }
    steps
}

#[test]
fn of_interleaved_attempts_one_succeeds() {
    let won = |steps: Vec<LockStep>| steps.iter().filter(|s| **s == LockStep::Ended(true)).count();
    for held in [None, Some(60)] {
        for code in 0..729 {
            let turns: Vec<usize> = (0..6).map(|i| code / 3usize.pow(i) % 3).chain([0, 0, 0, 1, 1, 1, 2, 2, 2]).collect();
            assert_eq!(won(race(held, &[100, 129, 110], &turns)), 1, "{turns:?}");
        }
    }
    assert_eq!(won(race(Some(80), &[100, 109], &[0, 1, 0, 1, 0, 1])), 0);
    assert_eq!(race(None, &[100, 130], &[0, 1, 1, 1]), vec![LockStep::Ended(true), LockStep::Ended(true)]);
}

#[test]
fn storing_is_tried_three_times() {
    assert_eq!(first_write_step(), WriteStep::Read(3));
    let mut step = first_write_step();
    let mut operations = 0;
    while step != WriteStep::Ended {
        let event = match step {
            WriteStep::Read(n) if n % 2 == 0 => WriteEvent::Missing,
            WriteStep::Read(_) => WriteEvent::Found,
            _ => WriteEvent::Conflict,
        };
        step = on_write_step(step, event);
        operations += 1;
    }
    assert_eq!(operations, 2 * CAS_MAX_RETRIES);
}

#[test]
fn an_undisturbed_store_takes_the_map_at_once() {
    for present in [true, false] {
        let read = if present { WriteEvent::Found } else { WriteEvent::Missing };
        let step = on_write_step(first_write_step(), read);
        assert_eq!(step, if present { WriteStep::Replace(3) } else { WriteStep::Create(3) });
        assert_eq!(on_write_step(step, WriteEvent::Stored), WriteStep::Ended);
    }
}

#[test]
fn storing_stops_on_success_and_on_failure() {
    assert_eq!(on_write_step(WriteStep::Read(2), WriteEvent::Found), WriteStep::Replace(2));
    assert_eq!(on_write_step(WriteStep::Read(2), WriteEvent::Missing), WriteStep::Create(2));
    assert_eq!(on_write_step(WriteStep::Read(2), WriteEvent::Failed), WriteStep::Ended);
    for step in [WriteStep::Replace(2), WriteStep::Create(2)] {
        assert_eq!(on_write_step(step, WriteEvent::Stored), WriteStep::Ended);
        assert_eq!(on_write_step(step, WriteEvent::Failed), WriteStep::Ended);
        assert_eq!(on_write_step(step, WriteEvent::Conflict), WriteStep::Read(1));
    }
    assert_eq!(on_write_step(WriteStep::Create(1), WriteEvent::Conflict), WriteStep::Ended);
}
