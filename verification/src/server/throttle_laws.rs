//! What holds of the pairing throttle as a whole, over any history of calls.
use super::throttle::{
    ClientIp, ThrottleEntry, FAILURE_DECAY, LOCKOUT_DURATION, MAX_FAILED_ATTEMPTS,
    NANOS_PER_SECOND,
};
use vstd::prelude::*;

verus! {

/// A call of one of the throttle's operations.
pub enum ThrottleCall {
    Check { ip: ClientIp, now: u64 },
    Failure { ip: ClientIp, now: u64 },
    Clear { ip: ClientIp },
}

/// The entries after one call.
pub open spec fn after_call(
    entries: Map<ClientIp, ThrottleEntry>,
    call: ThrottleCall,
) -> Map<ClientIp, ThrottleEntry> {
    match call {
        ThrottleCall::Check { ip, now } => super::throttle::after_check(entries, ip, now),
        ThrottleCall::Failure { ip, now } => super::throttle::after_failure(entries, ip, now),
        ThrottleCall::Clear { ip } => entries.remove(ip),
    }
}

/// The entries after the calls, in order.
pub open spec fn after_calls(
    entries: Map<ClientIp, ThrottleEntry>,
    calls: Seq<ThrottleCall>,
) -> Map<ClientIp, ThrottleEntry>
    decreases calls.len(),
{
    if calls.len() == 0 {
        entries
    } else {
        after_call(after_calls(entries, calls.drop_last()), calls.last())
    }
}

/// The call records a failure of `ip`.
pub open spec fn is_failure_of(call: ThrottleCall, ip: ClientIp) -> bool {
    call matches ThrottleCall::Failure { ip: other, now: _ } && other == ip
}

/// The call clears `ip`.
pub open spec fn is_clear_of(call: ThrottleCall, ip: ClientIp) -> bool {
    call matches ThrottleCall::Clear { ip: other } && other == ip
}

/// The call, if it carries an instant, is made no earlier than `from` and no later than `to`.
pub open spec fn is_within(call: ThrottleCall, from: int, to: int) -> bool {
    match call {
        ThrottleCall::Check { ip: _, now } => from <= now <= to,
        ThrottleCall::Failure { ip: _, now } => from <= now <= to,
        ThrottleCall::Clear { ip: _ } => true,
    }
}

/// How many of the calls record a failure of `ip`.
pub open spec fn failures_of(calls: Seq<ThrottleCall>, ip: ClientIp) -> nat
    decreases calls.len(),
{
    if calls.len() == 0 {
        0
    } else if is_failure_of(calls.last(), ip) {
        failures_of(calls.drop_last(), ip) + 1
    } else {
        failures_of(calls.drop_last(), ip)
    }
}

/// What counts against a client at `now`: its failures, if the latest of them is less than
/// `FAILURE_DECAY` ago, and nothing otherwise. The failure that makes it `MAX_FAILED_ATTEMPTS`
/// trips the lockout.
pub proof fn recent_failures_count_in_full(
    entries: Map<ClientIp, ThrottleEntry>,
    ip: ClientIp,
    now: u64,
)
    ensures
        entries.contains_key(ip) && now < entries[ip].last_seen + FAILURE_DECAY
            ==> super::throttle::live_count(entries, ip, now) == entries[ip].failed_attempts,
        entries.contains_key(ip) && now >= entries[ip].last_seen + FAILURE_DECAY
            ==> super::throttle::live_count(entries, ip, now) == 0,
        !entries.contains_key(ip) ==> super::throttle::live_count(entries, ip, now) == 0,
        super::throttle::next_failure_locks(entries, ip, now) <==> MAX_FAILED_ATTEMPTS
            <= super::throttle::live_count(entries, ip, now) + 1,
{
}

/// Whatever state a client has, also a decayed one, a failure is its latest: if it does not trip
/// the lockout, the attempts that it makes count against the client for `FAILURE_DECAY` from then
/// on and no longer; if it does, none count.
pub proof fn a_failure_is_its_clients_latest(
    entries: Map<ClientIp, ThrottleEntry>,
    ip: ClientIp,
    now: u64,
    later: u64,
)
    ensures
        ({
            let after = super::throttle::after_failure(entries, ip, now);
            &&& after.dom() == entries.dom().insert(ip)
            &&& after[ip].last_seen == now
            &&& !super::throttle::next_failure_locks(entries, ip, now) && later < now
                + FAILURE_DECAY ==> super::throttle::live_count(after, ip, later)
                == super::throttle::live_count(entries, ip, now) + 1
            &&& !super::throttle::next_failure_locks(entries, ip, now)
                ==> after[ip].failed_attempts == super::throttle::live_count(entries, ip, now) + 1
            &&& super::throttle::next_failure_locks(entries, ip, now) ==> after[ip].failed_attempts
                == 0
            &&& later >= now + FAILURE_DECAY ==> super::throttle::live_count(after, ip, later) == 0
        }),
{
    assert(super::throttle::after_failure(entries, ip, now).dom() =~= entries.dom().insert(ip));
}

/// A failure sets its client's deadline only if it trips the lockout, and then to
/// `LOCKOUT_DURATION` from now; otherwise the deadline, if there is one, stays.
pub proof fn a_failure_moves_the_deadline_only_if_it_locks(
    entries: Map<ClientIp, ThrottleEntry>,
    ip: ClientIp,
    now: u64,
)
    requires
        now + LOCKOUT_DURATION <= u64::MAX,
    ensures
        ({
            let deadline = super::throttle::after_failure(entries, ip, now)[ip].locked_until;
            &&& super::throttle::next_failure_locks(entries, ip, now) ==> deadline is Some
                && deadline->0 == now + LOCKOUT_DURATION
            &&& !super::throttle::next_failure_locks(entries, ip, now) && entries.contains_key(ip)
                ==> deadline == entries[ip].locked_until
            &&& !super::throttle::next_failure_locks(entries, ip, now) && !entries.contains_key(ip)
                ==> deadline is None
        }),
{
}

/// A client is locked out exactly until its deadline, and is told the whole seconds that are left
/// until then.
pub proof fn a_lockout_ends_at_its_deadline(
    entries: Map<ClientIp, ThrottleEntry>,
    ip: ClientIp,
    now: u64,
)
    ensures
        super::throttle::lockout_left(entries, ip, now) is Some <==> entries.contains_key(ip)
            && entries[ip].locked_until is Some && now < entries[ip].locked_until->0,
        super::throttle::lockout_left(entries, ip, now) matches Some(left) ==> left
            * NANOS_PER_SECOND <= entries[ip].locked_until->0 - now < (left + 1)
            * NANOS_PER_SECOND,
{
}

/// What a check does to each client, whoever is checked: one whose deadline lies ahead or whose
/// latest failure is less than `FAILURE_DECAY` ago stays, with its count and its latest failure,
/// and any other is dropped. Only the checked client can lose its deadline, and only one that has
/// passed.
pub proof fn a_check_drops_only_what_is_over(
    entries: Map<ClientIp, ThrottleEntry>,
    checked: ClientIp,
    ip: ClientIp,
    now: u64,
)
    ensures
        ({
            let after = super::throttle::after_check(entries, checked, now);
            let locked = entries[ip].locked_until is Some && now < entries[ip].locked_until->0;
            &&& after.contains_key(ip) <==> entries.contains_key(ip) && (locked || now
                < entries[ip].last_seen + FAILURE_DECAY)
            &&& after.contains_key(ip) ==> after[ip].failed_attempts == entries[ip].failed_attempts
            &&& after.contains_key(ip) ==> after[ip].last_seen == entries[ip].last_seen
            &&& after.contains_key(ip) && (locked || ip != checked) ==> after[ip].locked_until
                == entries[ip].locked_until
            &&& after.contains_key(ip) && !locked && ip == checked ==> after[ip].locked_until
                is None
        }),
{
}

/// Pruning keeps an entry, unchanged, exactly if its deadline lies ahead or its latest failure is
/// less than `FAILURE_DECAY` ago.
pub proof fn pruning_keeps_what_is_not_over(
    entries: Map<ClientIp, ThrottleEntry>,
    ip: ClientIp,
    now: u64,
)
    ensures
        super::throttle::pruned(entries, now).get(ip) == (if entries.contains_key(ip) && ((
        entries[ip].locked_until is Some && now < entries[ip].locked_until->0) || now
            < entries[ip].last_seen + FAILURE_DECAY) {
            entries.get(ip)
        } else {
            None
        }),
{
}

/// Failures and clears of one client leave the state of every other client as it is.
pub proof fn a_client_cannot_touch_another(
    entries: Map<ClientIp, ThrottleEntry>,
    ip: ClientIp,
    other: ClientIp,
    now: u64,
)
    requires
        ip != other,
    ensures
        super::throttle::after_failure(entries, ip, now).get(other) == entries.get(other),
        entries.remove(ip).get(other) == entries.get(other),
{
}

/// A check changes nobody's lockout, at the instant of the check or later.
pub proof fn a_check_keeps_lockouts(
    entries: Map<ClientIp, ThrottleEntry>,
    checked: ClientIp,
    ip: ClientIp,
    now: u64,
    later: u64,
)
    requires
        now <= later,
    ensures
        super::throttle::lockout_left(
            super::throttle::after_check(entries, checked, now),
            ip,
            later,
        ) == super::throttle::lockout_left(entries, ip, later),
{
}

/// Whatever calls are made, as long as none of them is a failure or a clear of `ip`, the lockout
/// of `ip` stays what it was.
pub proof fn others_cannot_change_a_lockout(
    entries: Map<ClientIp, ThrottleEntry>,
    calls: Seq<ThrottleCall>,
    ip: ClientIp,
    later: u64,
)
    requires
        forall|i: int|
            0 <= i < calls.len() ==> !is_failure_of(#[trigger] calls[i], ip) && !is_clear_of(
                calls[i],
                ip,
            ) && is_within(calls[i], 0, later as int),
    ensures
        super::throttle::lockout_left(after_calls(entries, calls), ip, later)
            == super::throttle::lockout_left(entries, ip, later),
    decreases calls.len(),
{
    if calls.len() > 0 {
        let earlier = calls.drop_last();
        assert forall|i: int| 0 <= i < earlier.len() implies !is_failure_of(
            #[trigger] earlier[i],
            ip,
        ) && !is_clear_of(earlier[i], ip) && is_within(earlier[i], 0, later as int) by {
            assert(earlier[i] == calls[i]);
        }
        others_cannot_change_a_lockout(entries, earlier, ip, later);
        assert(calls[calls.len() - 1] == calls.last());
    }
}

/// A check changes nobody's failure count, at the instant of the check or later.
pub proof fn a_check_keeps_counts(
    entries: Map<ClientIp, ThrottleEntry>,
    checked: ClientIp,
    ip: ClientIp,
    now: u64,
    later: u64,
)
    requires
        now <= later,
    ensures
        super::throttle::live_count(
            super::throttle::after_check(entries, checked, now),
            ip,
            later,
        ) == super::throttle::live_count(entries, ip, later),
{
}

/// From a fresh throttle, a client is known only after a failure of its own, and locked out only
/// after at least `MAX_FAILED_ATTEMPTS` of them; its counter never exceeds its own failures.
pub proof fn only_own_failures_count(calls: Seq<ThrottleCall>, ip: ClientIp)
    ensures
        ({
            let entries = after_calls(Map::empty(), calls);
            &&& entries.contains_key(ip) ==> failures_of(calls, ip) > 0
            &&& entries.contains_key(ip) ==> entries[ip].failed_attempts <= failures_of(calls, ip)
            &&& entries.contains_key(ip) && entries[ip].locked_until is Some ==> failures_of(
                calls,
                ip,
            ) >= MAX_FAILED_ATTEMPTS
        }),
    decreases calls.len(),
{
    if calls.len() > 0 {
        only_own_failures_count(calls.drop_last(), ip);
    }
}

/// After any calls on a fresh throttle, no counter has reached the threshold.
pub proof fn counters_stay_below_the_threshold(calls: Seq<ThrottleCall>)
    ensures
        super::throttle::counts_in_range(after_calls(Map::empty(), calls)),
    decreases calls.len(),
{
    if calls.len() > 0 {
        counters_stay_below_the_threshold(calls.drop_last());
    }
}

/// The instants of the calls do not decrease, and none is later than `now`.
pub open spec fn in_order(calls: Seq<ThrottleCall>, now: u64) -> bool
    decreases calls.len(),
{
    calls.len() > 0 ==> match calls.last() {
        ThrottleCall::Check { ip: _, now: at } => at <= now && in_order(calls.drop_last(), at),
        ThrottleCall::Failure { ip: _, now: at } => at <= now && in_order(calls.drop_last(), at),
        ThrottleCall::Clear { ip: _ } => in_order(calls.drop_last(), now),
    }
}

/// Each failure of `ip` comes less than `FAILURE_DECAY` before the next one, and the last less
/// than that before `now`.
pub open spec fn follow_closely(calls: Seq<ThrottleCall>, ip: ClientIp, now: u64) -> bool
    decreases calls.len(),
{
    calls.len() > 0 ==> match calls.last() {
        ThrottleCall::Failure { ip: other, now: at } if other == ip => now - at < FAILURE_DECAY
            && follow_closely(calls.drop_last(), ip, at),
        _ => follow_closely(calls.drop_last(), ip, now),
    }
}

/// Failures that follow one another closely all count, however long they go on: whatever checks
/// and whatever calls for other clients are made in between, a client that had no state and is
/// not cleared has its failures counted one by one, each `MAX_FAILED_ATTEMPTS`-th tripping the
/// lockout and starting the count again.
pub proof fn failures_close_together_add_up(
    entries: Map<ClientIp, ThrottleEntry>,
    calls: Seq<ThrottleCall>,
    ip: ClientIp,
    now: u64,
)
    requires
        !entries.contains_key(ip),
        in_order(calls, now),
        follow_closely(calls, ip, now),
        forall|i: int| 0 <= i < calls.len() ==> !is_clear_of(#[trigger] calls[i], ip),
    ensures
        super::throttle::live_count(after_calls(entries, calls), ip, now) == failures_of(
            calls,
            ip,
        ) % (MAX_FAILED_ATTEMPTS as nat),
        super::throttle::next_failure_locks(after_calls(entries, calls), ip, now) <==> (
        failures_of(calls, ip) + 1) % (MAX_FAILED_ATTEMPTS as nat) == 0,
    decreases calls.len(),
{
    if calls.len() > 0 {
        let earlier = calls.drop_last();
        assert forall|i: int| 0 <= i < earlier.len() implies !is_clear_of(
            #[trigger] earlier[i],
            ip,
        ) by {
            assert(earlier[i] == calls[i]);
        }
        assert(calls[calls.len() - 1] == calls.last());
        match calls.last() {
            ThrottleCall::Failure { ip: other, now: at } => {
                if other == ip {
                    failures_close_together_add_up(entries, earlier, ip, at);
                } else {
                    order_holds_later(earlier, at, now);
                    failures_close_together_add_up(entries, earlier, ip, now);
                }
            },
            ThrottleCall::Check { ip: checked, now: at } => {
                order_holds_later(earlier, at, now);
                failures_close_together_add_up(entries, earlier, ip, now);
                a_check_keeps_counts(after_calls(entries, earlier), checked, ip, at, now);
            },
            ThrottleCall::Clear { ip: _ } => {
                failures_close_together_add_up(entries, earlier, ip, now);
            },
        }
    }
}

/// Calls in order up to an instant are in order up to a later one.
pub proof fn order_holds_later(calls: Seq<ThrottleCall>, now: u64, later: u64)
    requires
        in_order(calls, now),
        now <= later,
    ensures
        in_order(calls, later),
    decreases calls.len(),
{
    if calls.len() > 0 && calls.last() is Clear {
        order_holds_later(calls.drop_last(), now, later);
    }
}

/// Within a window shorter than `FAILURE_DECAY` no failure is forgotten, even where the instants
/// of the calls are not in order.
pub proof fn failures_in_a_window_add_up(
    entries: Map<ClientIp, ThrottleEntry>,
    calls: Seq<ThrottleCall>,
    ip: ClientIp,
    from: u64,
    to: u64,
    now: u64,
)
    requires
        !entries.contains_key(ip),
        to - from < FAILURE_DECAY,
        from <= now <= to,
        forall|i: int|
            0 <= i < calls.len() ==> !is_clear_of(#[trigger] calls[i], ip) && is_within(
                calls[i],
                from as int,
                to as int,
            ),
    ensures
        super::throttle::live_count(after_calls(entries, calls), ip, now) == failures_of(
            calls,
            ip,
        ) % (MAX_FAILED_ATTEMPTS as nat),
        super::throttle::next_failure_locks(after_calls(entries, calls), ip, now) <==> (
        failures_of(calls, ip) + 1) % (MAX_FAILED_ATTEMPTS as nat) == 0,
        after_calls(entries, calls).contains_key(ip) ==> from <= after_calls(
            entries,
            calls,
        )[ip].last_seen <= to,
    decreases calls.len(),
{
    if calls.len() > 0 {
        let earlier = calls.drop_last();
        assert forall|i: int| 0 <= i < earlier.len() implies !is_clear_of(
            #[trigger] earlier[i],
            ip,
        ) && is_within(earlier[i], from as int, to as int) by {
            assert(earlier[i] == calls[i]);
        }
        assert(calls[calls.len() - 1] == calls.last());
        let at = match calls.last() {
            ThrottleCall::Failure { ip: _, now: at } => at,
            _ => now,
        };
        failures_in_a_window_add_up(entries, earlier, ip, from, to, now);
        failures_in_a_window_add_up(entries, earlier, ip, from, to, at);
    }
}

/// The failure that trips the lockout locks its client out for exactly `LOCKOUT_DURATION`, counts
/// the seconds down, and starts the failure count again.
pub proof fn a_lockout_lasts_its_duration(
    entries: Map<ClientIp, ThrottleEntry>,
    ip: ClientIp,
    now: u64,
    later: u64,
)
    requires
        super::throttle::next_failure_locks(entries, ip, now),
        now + LOCKOUT_DURATION <= u64::MAX,
    ensures
        ({
            let after = super::throttle::after_failure(entries, ip, now);
            &&& super::throttle::live_count(after, ip, later) == 0
            &&& super::throttle::lockout_left(after, ip, later) is Some <==> later < now
                + LOCKOUT_DURATION
            &&& super::throttle::lockout_left(after, ip, later) matches Some(left) ==> left == (now
                + LOCKOUT_DURATION - later) / (NANOS_PER_SECOND as int)
        }),
{
}

/// A failure that does not trip the lockout leaves its client's lockout as it was.
pub proof fn an_early_failure_locks_nobody(
    entries: Map<ClientIp, ThrottleEntry>,
    ip: ClientIp,
    now: u64,
    later: u64,
)
    requires
        !super::throttle::next_failure_locks(entries, ip, now),
    ensures
        super::throttle::lockout_left(super::throttle::after_failure(entries, ip, now), ip, later)
            == super::throttle::lockout_left(entries, ip, later),
{
}

/// A successful pairing forgives everything: the client is not locked out, and its next failure
/// counts as its first.
pub proof fn a_clear_forgives(entries: Map<ClientIp, ThrottleEntry>, ip: ClientIp, later: u64)
    ensures
        super::throttle::lockout_left(entries.remove(ip), ip, later) is None,
        super::throttle::live_count(entries.remove(ip), ip, later) == 0,
{
}

/// The failures of a client that has had no new one for `FAILURE_DECAY` are forgotten: the next
/// one is its first and locks nobody out, whether or not a check came in between.
pub proof fn idle_failures_decay(
    entries: Map<ClientIp, ThrottleEntry>,
    ip: ClientIp,
    now: u64,
)
    requires
        entries.contains_key(ip),
        entries[ip].last_seen + FAILURE_DECAY <= now,
    ensures
        super::throttle::live_count(entries, ip, now) == 0,
        !super::throttle::next_failure_locks(entries, ip, now),
        super::throttle::after_failure(entries, ip, now)[ip].failed_attempts == 1,
{
}

/// The next check, whoever is checked, drops a client that is not locked out and has had no new
/// failure for `FAILURE_DECAY`.
pub proof fn a_check_drops_idle_clients(
    entries: Map<ClientIp, ThrottleEntry>,
    checked: ClientIp,
    ip: ClientIp,
    now: u64,
)
    requires
        entries.contains_key(ip),
        !super::throttle::is_locked(entries[ip], now),
        entries[ip].last_seen + FAILURE_DECAY <= now,
    ensures
        !super::throttle::after_check(entries, checked, now).contains_key(ip),
{
}

/// Pruning at one instant and again at a later one leaves what pruning at the later one alone
/// leaves: an entry that is kept then would have been kept before. In particular a second pruning
/// at the same instant changes nothing.
pub proof fn an_earlier_pruning_makes_no_difference(
    entries: Map<ClientIp, ThrottleEntry>,
    now: u64,
    later: u64,
)
    requires
        now <= later,
    ensures
        super::throttle::pruned(super::throttle::pruned(entries, now), later)
            == super::throttle::pruned(entries, later),
{
}

/// After a check the throttle holds no client but those with live state, and those that had it
/// before: it stays bounded.
pub proof fn a_check_leaves_only_live_entries(
    entries: Map<ClientIp, ThrottleEntry>,
    checked: ClientIp,
    ip: ClientIp,
    now: u64,
)
    ensures
        ({
            let after = super::throttle::after_check(entries, checked, now);
            &&& after.contains_key(ip) <==> entries.contains_key(ip) && super::throttle::is_live(
                entries[ip],
                now,
            )
            &&& after.contains_key(ip) ==> super::throttle::is_live(after[ip], now)
        }),
{
}

/// A second check at the same instant changes nothing more.
pub proof fn a_check_is_idempotent(
    entries: Map<ClientIp, ThrottleEntry>,
    ip: ClientIp,
    now: u64,
)
    ensures
        super::throttle::after_check(super::throttle::after_check(entries, ip, now), ip, now)
            == super::throttle::after_check(entries, ip, now),
{
    let once = super::throttle::after_check(entries, ip, now);
    assert(super::throttle::after_check(once, ip, now) =~= once);
}

} // verus!
