use admission_control::cell::RateCell;
use admission_control::gate::{create_rate_limiter, AdmissionGate};
use admission_control::identity::ClientKey;
use admission_control::policy::Policy;

fn gate(capacity: u32, period: u64, retention: u64, max_keys: usize) -> AdmissionGate {
    let policy = Policy::new(capacity, period).unwrap();
    AdmissionGate::new(policy, retention, max_keys)
}

fn key(s: &str) -> ClientKey {
    ClientKey::new(s).unwrap()
}

#[test]
fn concrete_scenario_five_per_minute() {
    // policy {capacity: 5, period: 60s}, times in seconds
    let mut g = gate(5, 60, 600, 16);
    let a = key("A");
    for _ in 0..5 {
        let d = g.decide(&a, 0);
        assert!(d.allowed);
        assert_eq!(d.retry_after, None);
    }
    let d6 = g.decide(&a, 0);
    assert!(!d6.allowed);
    assert_eq!(d6.retry_after, Some(12));
    let d7 = g.decide(&a, 12);
    assert!(d7.allowed);
}

#[test]
fn burst_admission_exactly_capacity() {
    let mut g = gate(3, 1000, 100_000, 16);
    let k = key("10.0.0.1");
    for _ in 0..3 {
        assert!(g.decide(&k, 7).allowed);
    }
    assert!(!g.decide(&k, 7).allowed);
}

#[test]
fn refill_boundary_exact_wait_admits_shorter_does_not() {
    let mut g = gate(4, 100, 100_000, 16);
    let k = key("client");
    for _ in 0..4 {
        assert!(g.decide(&k, 50).allowed);
    }
    let d = g.decide(&k, 50);
    assert!(!d.allowed);
    let wait = d.retry_after.unwrap();
    assert_eq!(wait, 25); // deficit of one token at 4 tokens per 100 ticks
    // one tick short of the advised wait: denied again
    assert!(!g.decide(&k, 50 + wait - 1).allowed);
    // exactly the advised wait: admitted
    assert!(g.decide(&k, 50 + wait).allowed);
}

#[test]
fn per_key_isolation_two_clients() {
    let mut g = gate(2, 60, 100_000, 16);
    let a = key("1.1.1.1");
    let b = key("2.2.2.2");
    assert!(g.decide(&a, 0).allowed);
    assert!(g.decide(&a, 0).allowed);
    assert!(!g.decide(&a, 0).allowed); // A exhausted
    assert!(g.decide(&b, 0).allowed); // B unaffected
    assert!(g.decide(&b, 0).allowed);
    assert!(!g.decide(&b, 0).allowed);
    assert!(!g.decide(&a, 0).allowed); // and A still exhausted
}

#[test]
fn single_admission_with_one_token() {
    // capacity 3, period 60: two admissions leave exactly one token
    let mut g = gate(3, 60, 100_000, 16);
    let k = key("one-token");
    assert!(g.decide(&k, 0).allowed);
    assert!(g.decide(&k, 0).allowed);
    let mut admitted: u32 = 0;
    for _ in 0..5 {
        if g.decide(&k, 0).allowed {
            admitted += 1;
        }
    }
    assert_eq!(admitted, 1);
}

#[test]
fn eviction_reset_idle_key_gets_full_bucket() {
    // retention 50 ticks; A exhausts its bucket at t=0
    let mut g = gate(2, 100, 50, 16);
    let a = key("A");
    assert!(g.decide(&a, 0).allowed);
    assert!(g.decide(&a, 0).allowed);
    assert!(!g.decide(&a, 0).allowed);
    // reappearing at t=200, idle past retention: like a brand-new key
    let mut h = gate(2, 100, 50, 16);
    let fresh = key("A");
    let d_old = g.decide(&a, 200);
    let d_new = h.decide(&fresh, 200);
    assert_eq!(d_old, d_new);
    assert!(d_old.allowed);
}

#[test]
fn sweep_removes_only_idle_entries() {
    let mut g = gate(2, 100, 50, 16);
    let a = key("A");
    let b = key("B");
    assert!(g.decide(&a, 0).allowed);
    assert!(g.decide(&b, 0).allowed);
    assert!(g.decide(&a, 60).allowed); // touch A at t=60
    assert_eq!(g.store.entries.len(), 2);
    g.sweep(100); // B idle since 0, past retention 50; A touched at 60
    assert_eq!(g.store.entries.len(), 1);
    assert_eq!(g.store.entries[0].key.as_str(), "A");
    g.sweep(200); // now A is idle past retention too
    assert_eq!(g.store.entries.len(), 0);
}

#[test]
fn fail_closed_at_key_ceiling() {
    let mut g = gate(5, 60, 600, 1);
    let a = key("A");
    let b = key("B");
    assert!(g.decide(&a, 0).allowed); // A takes the only slot
    let d = g.decide(&b, 0);
    assert!(!d.allowed); // B denied fail-closed
    assert_eq!(d.retry_after, None); // no retry hint on a fail-closed denial
    assert_eq!(g.store.entries.len(), 1); // no entry was created for B
    assert!(g.decide(&a, 0).allowed); // A unaffected
}

#[test]
fn clock_regression_counts_as_zero_elapsed() {
    let p = Policy::new(1, 10).unwrap();
    let mut c = RateCell::full(&p, 100);
    // a check observed before the last refill: no negative refill
    let d1 = c.check(&p, 50);
    assert!(d1.allowed);
    let d2 = c.check(&p, 50);
    assert!(!d2.allowed);
    assert_eq!(d2.retry_after, Some(10));
}

#[test]
fn cell_level_bounds_hold_across_checks() {
    let p = Policy::new(3, 60).unwrap();
    let scaled_full = 3u64 * 60u64;
    let mut c = RateCell::full(&p, 0);
    assert_eq!(c.available, scaled_full);
    let times = [0u64, 5, 5, 3, 100, 100, 100, 100, 2000, 2000];
    for t in times {
        c.check(&p, t);
        assert!(c.available <= scaled_full);
    }
    // a long idle stretch refills to exactly full, never beyond
    c.check(&p, 1_000_000);
    assert!(c.available <= scaled_full);
}

#[test]
fn policy_rejects_degenerate_configurations() {
    assert!(Policy::new(0, 60).is_none());
    assert!(Policy::new(5, 0).is_none());
    assert!(Policy::new(2, u64::MAX).is_none()); // scaled bucket overflows
    assert!(Policy::new(1, u64::MAX).is_some());
    let p = Policy::new(5, 60).unwrap();
    assert_eq!(p.capacity, 5);
    assert_eq!(p.period, 60);
}

#[test]
fn stock_limiter_configuration() {
    let mut g = create_rate_limiter();
    assert_eq!(g.policy.capacity, 1000);
    assert_eq!(g.policy.period, 900_000_000_000);
    assert_eq!(g.store.retention, 3_600_000_000_000);
    assert_eq!(g.store.max_keys, 100_000);
    let k = key("198.51.100.7");
    assert!(g.decide(&k, 0).allowed);
}

#[test]
fn decide_request_uses_extracted_identity() {
    let mut g = gate(1, 60, 600, 16);
    // both header values present and valid: the forwarded one wins
    assert!(g.decide_request(Some("203.0.113.9"), Some("198.51.100.1"), 0).allowed);
    // same forwarded client again: bucket exhausted
    assert!(!g.decide_request(Some("203.0.113.9"), Some("10.0.0.1"), 0).allowed);
    // a different peer with no forwarded value is its own client
    assert!(g.decide_request(None, Some("198.51.100.1"), 0).allowed);
    // malformed metadata falls back to the shared sentinel bucket
    assert!(g.decide_request(Some("bad value"), None, 0).allowed);
    assert!(!g.decide_request(None, None, 0).allowed); // sentinel bucket now empty
}
