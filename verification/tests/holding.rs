use dione::clock::{Duration, Instant, Timestamp};
use dione::no_rly::judge::{ReasonEntry, RejectReason};
use dione::no_rly::queue::{ClaimError, HoldHandle, HoldQueue};

fn ttl() -> Duration {
    Duration::from_secs(180)
}

fn start() -> Instant {
    Instant {
        nanos: 1_000_000_000_000,
    }
}

fn later(now: Instant, by: Duration) -> Instant {
    now.checked_add(by).unwrap()
}

fn reason() -> RejectReason {
    RejectReason {
        matches: vec![ReasonEntry {
            pattern: "straightforward".into(),
            reason: None,
        }],
    }
}

#[test]
fn hold_then_claim_returns_payload() {
    let mut q: HoldQueue<String> = HoldQueue::new();
    let now = start();
    let handle = q.hold("held text".into(), reason(), None, ttl(), now);
    let entry = q.claim(&handle, now).expect("live entry");
    assert_eq!(entry.payload, "held text");
    assert_eq!(entry.parent, None);
}

#[test]
fn claim_does_not_consume_settle_does() {
    let mut q: HoldQueue<String> = HoldQueue::new();
    let now = start();
    let handle = q.hold("msg".into(), reason(), None, ttl(), now);
    assert!(q.claim(&handle, now).is_ok());
    assert!(q.claim(&handle, now).is_ok(), "claim is not consumption");
    assert!(q.settle(&handle).is_some());
    assert!(
        matches!(q.claim(&handle, now), Err(ClaimError::Unknown)),
        "settled handle must be dead"
    );
    assert!(q.settle(&handle).is_none(), "double settle yields nothing");
}

#[test]
fn update_payload_replaces_in_place_and_keeps_the_handle_live() {
    let mut q: HoldQueue<String> = HoldQueue::new();
    let now = start();
    let handle = q.hold("original".into(), reason(), None, ttl(), now);
    assert!(q.update_payload(&handle, "replacement".into()));
    let entry = q.claim(&handle, now).expect("handle stays live");
    assert_eq!(entry.payload, "replacement");
    assert_eq!(entry.expires_in(now), ttl(), "deadline is untouched");
    assert!(
        !q.update_payload(&HoldHandle::new("nr-0000-9"), "x".into()),
        "a dead handle takes no payload"
    );
}

#[test]
fn unknown_handle_is_unknown() {
    let mut q: HoldQueue<String> = HoldQueue::new();
    let bogus = HoldHandle::new("nr-0000-999");
    assert!(matches!(
        q.claim(&bogus, start()),
        Err(ClaimError::Unknown)
    ));
}

#[test]
fn claim_past_deadline_expires_even_without_sweep() {
    let mut q: HoldQueue<String> = HoldQueue::new();
    let now = start();
    let handle = q.hold("msg".into(), reason(), None, ttl(), now);
    let after = later(later(now, ttl()), Duration::from_secs(1));
    match q.claim(&handle, after) {
        Err(ClaimError::Expired(entry)) => assert_eq!(entry.payload, "msg"),
        other => panic!("expected Expired, got {other:?}"),
    }
    assert!(
        matches!(q.claim(&handle, after), Err(ClaimError::Unknown)),
        "expired entry must be removed by the failed claim"
    );
}

#[test]
fn claim_at_exact_deadline_is_expired() {
    let mut q: HoldQueue<String> = HoldQueue::new();
    let now = start();
    let handle = q.hold("msg".into(), reason(), None, ttl(), now);
    assert!(matches!(
        q.claim(&handle, later(now, ttl())),
        Err(ClaimError::Expired(_))
    ));
}

#[test]
fn sweep_removes_only_expired() {
    let mut q: HoldQueue<String> = HoldQueue::new();
    let now = start();
    let old = q.hold("old".into(), reason(), None, Duration::from_secs(10), now);
    let fresh = q.hold("fresh".into(), reason(), None, ttl(), now);

    let swept = q.sweep_expired(later(now, Duration::from_secs(11)));
    assert_eq!(swept.len(), 1);
    assert_eq!(swept[0].0, old);
    assert_eq!(q.len(), 1);
    assert!(q.claim(&fresh, later(now, Duration::from_secs(11))).is_ok());
}

#[test]
fn evict_next_expiring_takes_earliest_deadline() {
    let mut q: HoldQueue<String> = HoldQueue::new();
    let now = start();
    q.hold("late".into(), reason(), None, ttl(), now);
    let soonest = q.hold("soon".into(), reason(), None, Duration::from_secs(5), now);
    q.hold("later".into(), reason(), None, ttl(), now);

    let (handle, entry) = q.evict_next_expiring().expect("non-empty queue evicts");
    assert_eq!(handle, soonest);
    assert_eq!(entry.payload, "soon");
    assert_eq!(q.len(), 2);

    let mut empty: HoldQueue<String> = HoldQueue::new();
    assert!(empty.evict_next_expiring().is_none());
}

#[test]
fn drain_empties_everything() {
    let mut q: HoldQueue<String> = HoldQueue::new();
    let now = start();
    q.hold("a".into(), reason(), None, ttl(), now);
    q.hold("b".into(), reason(), None, ttl(), now);
    assert_eq!(q.drain().len(), 2);
    assert!(q.is_empty());
}

#[test]
fn chained_hold_records_parent() {
    let mut q: HoldQueue<String> = HoldQueue::new();
    let now = start();
    let first = q.hold("first".into(), reason(), None, ttl(), now);
    let second = q.hold("second".into(), reason(), Some(first.clone()), ttl(), now);
    let entry = q.claim(&second, now).unwrap();
    assert_eq!(entry.parent, Some(first));
}

#[test]
fn expires_in_counts_down_and_saturates() {
    let mut q: HoldQueue<String> = HoldQueue::new();
    let now = start();
    let handle = q.hold("msg".into(), reason(), None, ttl(), now);
    let entry = q.claim(&handle, now).unwrap();
    assert_eq!(entry.expires_in(now), ttl());
    assert_eq!(
        entry.expires_in(later(now, Duration::from_secs(60))),
        Duration::from_secs(120)
    );
    assert_eq!(
        entry.expires_in(later(later(now, ttl()), Duration::from_secs(5))),
        Duration::from_secs(0)
    );
}

#[test]
fn handles_carry_the_nonce_and_a_number() {
    let mut q: HoldQueue<String> = HoldQueue::with_nonce(0xabcd);
    let at = Timestamp::at(1_750_000_000, 0).unwrap();
    let first = q.hold_at("a".into(), reason(), None, at, ttl(), start());
    let second = q.hold_at("b".into(), reason(), None, at, ttl(), start());
    assert_eq!(first.as_str(), "nr-abcd-1");
    assert_eq!(second.as_str(), "nr-abcd-2");
}

#[test]
fn a_new_queue_draws_four_hexadecimal_digits() {
    let mut q: HoldQueue<u32> = HoldQueue::new();
    let handle = q.hold(1, reason(), None, ttl(), start());
    let text = handle.as_str();
    assert!(text.starts_with("nr-"));
    assert!(text.ends_with("-1"));
    assert_eq!(text.len(), "nr-abcd-1".len());
    assert!(text[3..7].chars().all(|c| c.is_ascii_hexdigit()));
}

#[test]
fn a_reserved_entry_survives_sweeps_until_it_is_given_back() {
    let mut q: HoldQueue<u32> = HoldQueue::with_nonce(1);
    let now = start();
    let handle = q.hold(7, reason(), None, ttl(), now);
    assert!(q.reserve(&handle, now).is_ok());
    assert!(matches!(q.reserve(&handle, now), Err(ClaimError::Unknown)));
    assert!(matches!(q.claim(&handle, now), Err(ClaimError::Unknown)));
    let past = later(now, Duration::from_secs(181));
    assert!(matches!(q.claim(&handle, past), Err(ClaimError::Unknown)));
    assert_eq!(q.sweep_expired(past).len(), 0);
    assert_eq!(q.drain().len(), 0);
    q.release_reservation(&handle);
    assert_eq!(q.sweep_expired(past).len(), 1);
}

/// A long run of holds, releases, updates, evictions, sweeps and steps of the clock.
#[test]
fn queue_keeps_its_promises_over_a_long_run() {
    let mut seed: u64 = 0x9e37_79b9_7f4a_7c15;
    let mut draw = |n: u64| {
        seed = seed
            .wrapping_mul(6_364_136_223_846_793_005)
            .wrapping_add(1_442_695_040_888_963_407);
        (seed >> 33) % n
    };
    let mut now = start();
    let mut q: HoldQueue<u32> = HoldQueue::new();
    let mut minted: Vec<(HoldHandle, Instant)> = Vec::new();
    let mut released: Vec<bool> = Vec::new();
    let mut gone: Vec<bool> = Vec::new();
    let mut payload: Vec<u32> = Vec::new();
    for _ in 0..2000 {
        match draw(15) {
            0..=2 => {
                let val = minted.len() as u32;
                let handle = q.hold(val, reason(), None, ttl(), now);
                assert!(!minted.iter().any(|(h, _)| *h == handle));
                minted.push((handle, later(now, ttl())));
                released.push(false);
                gone.push(false);
                payload.push(val);
            }
            op @ 3..=7 if !minted.is_empty() => {
                let i = draw(minted.len() as u64) as usize;
                let (handle, deadline) = (minted[i].0.clone(), minted[i].1);
                match q.claim(&handle, now) {
                    Ok(entry) => {
                        assert!(now < deadline);
                        assert!(!released[i]);
                        assert_eq!(entry.payload, payload[i]);
                        if op < 6 {
                            assert!(q.settle(&handle).is_some());
                            released[i] = true;
                            gone[i] = true;
                        }
                    }
                    Err(ClaimError::Expired(_)) => {
                        assert!(now >= deadline);
                        assert!(!released[i]);
                        gone[i] = true;
                    }
                    Err(ClaimError::Unknown) => assert!(gone[i] || now >= deadline),
                }
            }
            8..=9 if !minted.is_empty() => {
                let i = draw(minted.len() as u64) as usize;
                let val = 1000 + i as u32;
                let updated = q.update_payload(&minted[i].0, val);
                assert_eq!(updated, !gone[i]);
                if updated {
                    payload[i] = val;
                }
            }
            10 => {
                if let Some((handle, _)) = q.evict_next_expiring() {
                    let i = minted.iter().position(|(h, _)| *h == handle).unwrap();
                    assert!(!released[i] && !gone[i]);
                    gone[i] = true;
                }
            }
            11 => {
                for (handle, entry) in q.sweep_expired(now) {
                    assert!(entry.is_expired(now));
                    let i = minted.iter().position(|(h, _)| *h == handle).unwrap();
                    assert!(!released[i]);
                    gone[i] = true;
                }
            }
            _ => now = later(now, Duration::from_secs(1 + draw(40))),
        }
    }
    assert_eq!(q.len(), gone.iter().filter(|g| !**g).count());
}
