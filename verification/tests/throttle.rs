use phone_mic::server::{
    ClientIp, PairingThrottle, FAILURE_DECAY, LOCKOUT_DURATION, MAX_FAILED_ATTEMPTS,
    NANOS_PER_SECOND,
};

const NOW: u64 = 1_000 * NANOS_PER_SECOND;

fn v4(octets: [u8; 4]) -> ClientIp {
    ClientIp::V4(u32::from_be_bytes(octets))
}

fn lock_out(throttle: &mut PairingThrottle, ip: ClientIp, now: u64) {
    for n in 1..MAX_FAILED_ATTEMPTS {
        assert_eq!(throttle.register_failure(ip, now), (n, false));
    }
    assert_eq!(throttle.register_failure(ip, now), (MAX_FAILED_ATTEMPTS, true));
}

#[test]
fn throttle_locks_out_per_ip_independently() {
    let mut throttle = PairingThrottle::default();
    let attacker = v4([192, 168, 1, 50]);
    let victim = v4([192, 168, 1, 51]);
    let now = NOW;

    // The attacker burns through the failure budget and gets locked out.
    for _ in 0..MAX_FAILED_ATTEMPTS - 1 {
        assert!(!throttle.register_failure(attacker, now).1);
    }
    assert!(
        throttle.register_failure(attacker, now).1,
        "5th failure locks"
    );
    assert!(throttle.locked_remaining(attacker, now).is_some());

    // A different IP is unaffected.
    assert!(throttle.locked_remaining(victim, now).is_none());

    // A successful pair clears the attacker's state.
    throttle.clear(attacker);
    assert!(throttle.locked_remaining(attacker, now).is_none());
}

#[test]
fn throttle_prunes_idle_entries() {
    let mut throttle = PairingThrottle::default();
    let ip = v4([10, 0, 0, 1]);
    let t0 = NOW;

    // One failure, then no activity for longer than the decay window.
    throttle.register_failure(ip, t0);
    let later = t0 + FAILURE_DECAY + NANOS_PER_SECOND;

    // The stale entry is pruned, so the counter has effectively reset.
    assert!(throttle.locked_remaining(ip, later).is_none());
    assert_eq!(
        throttle.register_failure(ip, later).0,
        1,
        "decayed entry must restart the count at 1"
    );
}

#[test]
fn the_rules_are_five_failures_thirty_seconds_one_minute() {
    assert_eq!(MAX_FAILED_ATTEMPTS, 5);
    assert_eq!(LOCKOUT_DURATION, 30 * NANOS_PER_SECOND);
    assert_eq!(FAILURE_DECAY, 60 * NANOS_PER_SECOND);
}

#[test]
fn a_lockout_counts_down_in_whole_seconds_and_ends() {
    let mut throttle = PairingThrottle::default();
    let ip = v4([10, 0, 0, 2]);
    lock_out(&mut throttle, ip, NOW);
    assert_eq!(throttle.locked_remaining(ip, NOW), Some(30));
    assert_eq!(throttle.locked_remaining(ip, NOW + 1), Some(29));
    assert_eq!(throttle.locked_remaining(ip, NOW + 10 * NANOS_PER_SECOND), Some(20));
    assert_eq!(throttle.locked_remaining(ip, NOW + LOCKOUT_DURATION - 1), Some(0));
    assert_eq!(throttle.locked_remaining(ip, NOW + LOCKOUT_DURATION), None);
    // The expired lockout is gone for good.
    assert_eq!(throttle.locked_remaining(ip, NOW), None);
}

#[test]
fn the_count_starts_again_after_a_lockout() {
    let mut throttle = PairingThrottle::default();
    let ip = v4([10, 0, 0, 3]);
    lock_out(&mut throttle, ip, NOW);
    let later = NOW + LOCKOUT_DURATION;
    assert_eq!(throttle.locked_remaining(ip, later), None);
    lock_out(&mut throttle, ip, later);
    assert_eq!(throttle.locked_remaining(ip, later), Some(30));
}

#[test]
fn failures_during_a_lockout_keep_its_deadline() {
    let mut throttle = PairingThrottle::default();
    let ip = v4([10, 0, 0, 4]);
    lock_out(&mut throttle, ip, NOW);
    assert_eq!(throttle.register_failure(ip, NOW + NANOS_PER_SECOND), (1, false));
    assert_eq!(throttle.locked_remaining(ip, NOW + NANOS_PER_SECOND), Some(29));
}

#[test]
fn failures_decay_at_the_window_and_not_before() {
    let ip = v4([10, 0, 0, 5]);
    let mut throttle = PairingThrottle::default();
    throttle.register_failure(ip, NOW);
    assert_eq!(throttle.locked_remaining(ip, NOW + FAILURE_DECAY - 1), None);
    assert_eq!(throttle.register_failure(ip, NOW + FAILURE_DECAY - 1).0, 2);

    let mut other = PairingThrottle::default();
    other.register_failure(ip, NOW);
    // Pruning is done whoever is checked.
    assert_eq!(other.locked_remaining(v4([10, 0, 0, 6]), NOW + FAILURE_DECAY), None);
    assert_eq!(other.register_failure(ip, NOW + FAILURE_DECAY).0, 1);
}

#[test]
fn an_idle_count_is_forgotten_without_a_check() {
    let ip = v4([10, 0, 0, 1]);
    let mut throttle = PairingThrottle::default();
    assert_eq!(throttle.register_failure(ip, NOW), (1, false));
    assert_eq!(
        throttle.register_failure(ip, NOW + 61 * NANOS_PER_SECOND),
        (1, false)
    );
    // Just within the window the count goes on; at its end it is forgotten.
    let mut edge = PairingThrottle::default();
    edge.register_failure(ip, NOW);
    assert_eq!(edge.register_failure(ip, NOW + FAILURE_DECAY - 1), (2, false));
    assert_eq!(edge.register_failure(ip, NOW + 2 * FAILURE_DECAY - 1), (1, false));
}

#[test]
fn a_mistyping_user_who_waits_is_never_locked_out() {
    let ip = v4([10, 0, 0, 7]);
    let mut throttle = PairingThrottle::default();
    for n in 0..20 {
        assert!(!throttle.would_lock(ip, NOW + n * FAILURE_DECAY));
        assert_eq!(throttle.register_failure(ip, NOW + n * FAILURE_DECAY), (1, false));
    }
}

#[test]
fn a_paced_guesser_is_locked_out() {
    let ip = v4([10, 0, 0, 12]);
    let other = v4([10, 0, 0, 13]);
    let mut throttle = PairingThrottle::default();
    // Ten failures, 59 s apart, with checks and another client's failures in between.
    for n in 1..11 {
        let at = NOW + (n as u64) * 59 * NANOS_PER_SECOND;
        assert_eq!(throttle.locked_remaining(ip, at), None);
        throttle.register_failure(other, at);
        assert_eq!(throttle.would_lock(ip, at), n % 5 == 0);
        assert_eq!(throttle.register_failure(ip, at), ((n - 1) % 5 + 1, n % 5 == 0));
    }
    assert_eq!(
        throttle.locked_remaining(ip, NOW + 590 * NANOS_PER_SECOND),
        Some(30)
    );
}

#[test]
fn an_earlier_check_makes_no_difference_to_a_later_one() {
    let ip = v4([10, 0, 0, 14]);
    let stale = v4([10, 0, 0, 15]);
    let asked = v4([10, 0, 0, 16]);
    let later = NOW + FAILURE_DECAY + NANOS_PER_SECOND;
    for earlier in [false, true] {
        let mut throttle = PairingThrottle::default();
        throttle.register_failure(stale, NOW);
        throttle.register_failure(ip, NOW + 2 * NANOS_PER_SECOND);
        if earlier {
            assert_eq!(throttle.locked_remaining(asked, NOW + FAILURE_DECAY), None);
        }
        assert_eq!(throttle.locked_remaining(asked, later), None);
        assert_eq!(throttle.register_failure(stale, later).0, 1);
        assert_eq!(throttle.register_failure(ip, later).0, 2);
    }
}

#[test]
fn an_earlier_instant_prunes_nothing() {
    let ip = v4([10, 0, 0, 8]);
    let mut throttle = PairingThrottle::default();
    throttle.register_failure(ip, NOW);
    assert_eq!(throttle.locked_remaining(ip, 0), None);
    assert_eq!(throttle.register_failure(ip, NOW).0, 2);
}

#[test]
fn address_families_do_not_mix() {
    let mut throttle = PairingThrottle::default();
    let four = ClientIp::V4(7);
    let six = ClientIp::V6(7);
    lock_out(&mut throttle, six, NOW);
    assert_eq!(throttle.locked_remaining(six, NOW), Some(30));
    assert_eq!(throttle.locked_remaining(four, NOW), None);
    assert_eq!(throttle.register_failure(four, NOW), (1, false));
    throttle.clear(four);
    assert_eq!(throttle.locked_remaining(six, NOW), Some(30));
    throttle.clear(six);
    assert_eq!(throttle.locked_remaining(six, NOW), None);
}

#[test]
fn a_clear_resets_the_count() {
    let mut throttle = PairingThrottle::default();
    let ip = v4([10, 0, 0, 9]);
    for _ in 0..4 {
        throttle.register_failure(ip, NOW);
    }
    throttle.clear(ip);
    assert_eq!(throttle.register_failure(ip, NOW), (1, false));
}

#[test]
fn checks_between_failures_change_no_count() {
    let mut throttle = PairingThrottle::default();
    let ip = v4([10, 0, 0, 10]);
    let other = v4([10, 0, 0, 11]);
    for n in 1..5 {
        assert_eq!(throttle.register_failure(ip, NOW), (n, false));
        assert_eq!(throttle.locked_remaining(ip, NOW), None);
        assert_eq!(throttle.locked_remaining(other, NOW), None);
        throttle.clear(other);
    }
    assert_eq!(throttle.register_failure(ip, NOW), (5, true));
}
