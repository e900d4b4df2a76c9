//! What the throttle answers, told from the history of calls alone: no table, no counters.
use super::throttle::{
    ClientIp, FAILURE_DECAY, LOCKOUT_DURATION, MAX_FAILED_ATTEMPTS, NANOS_PER_SECOND,
};
use super::throttle_laws::ThrottleCall;
use vstd::prelude::*;

verus! {

/// How many consecutive failures `ip` has behind it at `now`: counted back from `now` to its
/// latest clear, or to the first pause of `FAILURE_DECAY` or more without a failure of `ip`.
pub open spec fn run_of(calls: Seq<ThrottleCall>, ip: ClientIp, now: u64) -> nat
    decreases calls.len(),
{
    if calls.len() == 0 {
        0
    } else {
        match calls.last() {
            ThrottleCall::Failure { ip: other, now: at } if other == ip => if now - at
                >= FAILURE_DECAY {
                0
            } else {
                run_of(calls.drop_last(), ip, at) + 1
            },
            ThrottleCall::Clear { ip: other } if other == ip => 0,
            _ => run_of(calls.drop_last(), ip, now),
        }
    }
}

/// When `ip` last made the failure that completes `MAX_FAILED_ATTEMPTS` consecutive ones, if it
/// did since its latest clear.
pub open spec fn last_trip(calls: Seq<ThrottleCall>, ip: ClientIp) -> Option<u64>
    decreases calls.len(),
{
    if calls.len() == 0 {
        None
    } else {
        match calls.last() {
            ThrottleCall::Failure { ip: other, now: at } if other == ip && (run_of(
                calls.drop_last(),
                ip,
                at,
            ) + 1) % (MAX_FAILED_ATTEMPTS as nat) == 0 => Some(at),
            ThrottleCall::Clear { ip: other } if other == ip => None,
            _ => last_trip(calls.drop_last(), ip),
        }
    }
}

/// Whatever calls were made before, in the order of their instants, the failures that count
/// against a client are its consecutive ones up to now, and each `MAX_FAILED_ATTEMPTS`-th of them
/// trips the lockout and starts the count again. Checks, and calls for other clients, make no
/// difference.
pub proof fn the_count_is_the_run_of_failures(
    calls: Seq<ThrottleCall>,
    ip: ClientIp,
    now: u64,
)
    requires
        super::throttle_laws::in_order(calls, now),
    ensures
        ({
            let entries = super::throttle_laws::after_calls(Map::empty(), calls);
            &&& super::throttle::live_count(entries, ip, now) == run_of(calls, ip, now) % (
            MAX_FAILED_ATTEMPTS as nat)
            &&& super::throttle::next_failure_locks(entries, ip, now) <==> (run_of(calls, ip, now)
                + 1) % (MAX_FAILED_ATTEMPTS as nat) == 0
        }),
    decreases calls.len(),
{
    if calls.len() > 0 {
        let earlier = calls.drop_last();
        let entries = super::throttle_laws::after_calls(Map::empty(), earlier);
        match calls.last() {
            ThrottleCall::Failure { ip: other, now: at } => {
                if other == ip {
                    the_count_is_the_run_of_failures(earlier, ip, at);
                    super::throttle_laws::a_failure_is_its_clients_latest(entries, ip, at, now);
                } else {
                    super::throttle_laws::order_holds_later(earlier, at, now);
                    the_count_is_the_run_of_failures(earlier, ip, now);
                }
            },
            ThrottleCall::Check { ip: checked, now: at } => {
                super::throttle_laws::order_holds_later(earlier, at, now);
                the_count_is_the_run_of_failures(earlier, ip, now);
                super::throttle_laws::a_check_keeps_counts(entries, checked, ip, at, now);
            },
            ThrottleCall::Clear { ip: _ } => {
                the_count_is_the_run_of_failures(earlier, ip, now);
            },
        }
    }
}

/// Whatever calls were made before, in the order of their instants, a client is locked out for
/// `LOCKOUT_DURATION` from the latest failure that tripped the lockout, unless it was cleared
/// since, and at no other time; it is told the whole seconds that are left.
pub proof fn a_client_is_locked_out_after_a_trip_and_only_then(
    calls: Seq<ThrottleCall>,
    ip: ClientIp,
    now: u64,
)
    requires
        super::throttle_laws::in_order(calls, now),
        now + LOCKOUT_DURATION <= u64::MAX,
    ensures
        ({
            let left = super::throttle::lockout_left(
                super::throttle_laws::after_calls(Map::empty(), calls),
                ip,
                now,
            );
            &&& left is Some <==> last_trip(calls, ip) is Some && now < last_trip(calls, ip)->0
                + LOCKOUT_DURATION
            &&& left is Some ==> left->0 * NANOS_PER_SECOND <= last_trip(calls, ip)->0
                + LOCKOUT_DURATION - now < (left->0 + 1) * NANOS_PER_SECOND
        }),
    decreases calls.len(),
{
    if calls.len() > 0 {
        let earlier = calls.drop_last();
        let entries = super::throttle_laws::after_calls(Map::empty(), earlier);
        match calls.last() {
            ThrottleCall::Failure { ip: other, now: at } => {
                super::throttle_laws::order_holds_later(earlier, at, now);
                a_client_is_locked_out_after_a_trip_and_only_then(earlier, ip, now);
                if other == ip {
                    the_count_is_the_run_of_failures(earlier, ip, at);
                    if super::throttle::next_failure_locks(entries, ip, at) {
                        super::throttle_laws::a_lockout_lasts_its_duration(entries, ip, at, now);
                    } else {
                        super::throttle_laws::an_early_failure_locks_nobody(entries, ip, at, now);
                    }
                }
            },
            ThrottleCall::Check { ip: checked, now: at } => {
                super::throttle_laws::order_holds_later(earlier, at, now);
                a_client_is_locked_out_after_a_trip_and_only_then(earlier, ip, now);
                super::throttle_laws::a_check_keeps_lockouts(entries, checked, ip, at, now);
            },
            ThrottleCall::Clear { ip: _ } => {
                a_client_is_locked_out_after_a_trip_and_only_then(earlier, ip, now);
            },
        }
    }
}

} // verus!
