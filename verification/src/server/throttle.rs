//! Brute-force protection of the pairing endpoint.
use std::collections::HashMap;
use std::hash::Hash;
use vstd::prelude::*;

verus! {

broadcast use vstd::std_specs::hash::group_hash_axioms;

/// Nanoseconds in a second. Instants and durations are counted in nanoseconds.
pub const NANOS_PER_SECOND: u64 = 1_000_000_000;

/// Consecutive failed PIN attempts (per client IP) before a lockout kicks in.
pub const MAX_FAILED_ATTEMPTS: u32 = 5;

/// How long a client IP stays locked out after hitting the failure threshold.
pub const LOCKOUT_DURATION: u64 = 30_000_000_000;

/// A client IP's failure count is forgotten after this long with no new failed attempt. This both
/// decays the counter of a legitimate user who simply mistyped and bounds the tables' memory: a
/// check drops idle entries.
pub const FAILURE_DECAY: u64 = 60_000_000_000;

/// Address of a client, as the number that its bits spell in network order. An IPv4 address and
/// the IPv6 address that embeds it are different clients.
#[derive(Clone, Copy, PartialEq, Eq, Structural, Debug)]
pub enum ClientIp {
    V4(u32),
    V6(u128),
}

/// Per-IP brute-force counter. The instants are nanoseconds on the caller's monotonic clock.
#[derive(Clone, Copy, Debug)]
pub struct ThrottleEntry {
    pub failed_attempts: u32,
    pub locked_until: Option<u64>,
    pub last_seen: u64,
}

/// The entry keeps its client locked out at `now`.
pub open spec fn is_locked(entry: ThrottleEntry, now: u64) -> bool {
    entry.locked_until matches Some(until) && until > now
}

/// The entry's last failure is recent at `now`, so that its count still stands.
pub open spec fn is_recent(entry: ThrottleEntry, now: u64) -> bool {
    now - entry.last_seen < FAILURE_DECAY
}

/// The entry still matters at `now`: it locks its client out, or its last failure is recent.
pub open spec fn is_live(entry: ThrottleEntry, now: u64) -> bool {
    is_locked(entry, now) || is_recent(entry, now)
}

/// The entries that are live at `now`.
pub open spec fn pruned<K>(entries: Map<K, ThrottleEntry>, now: u64) -> Map<K, ThrottleEntry> {
    Map::new(|k: K| entries.contains_key(k) && is_live(entries[k], now), |k: K| entries[k])
}

/// Whole seconds of lockout that `key` has left at `now`, if it is locked out then.
pub open spec fn lockout_left<K>(
    entries: Map<K, ThrottleEntry>,
    key: K,
    now: u64,
) -> Option<u64> {
    if entries.contains_key(key) && is_locked(entries[key], now) {
        Some(((entries[key].locked_until->0 - now) / NANOS_PER_SECOND as int) as u64)
    } else {
        None
    }
}

/// The entries without the lockout of `key`, if it has run out at `now`.
pub open spec fn expired_lockout_cleared<K>(
    entries: Map<K, ThrottleEntry>,
    key: K,
    now: u64,
) -> Map<K, ThrottleEntry> {
    if entries.contains_key(key) && !is_locked(entries[key], now) {
        entries.insert(key, ThrottleEntry { locked_until: None, ..entries[key] })
    } else {
        entries
    }
}

/// The entries after a check of `key` at `now`: stale entries are gone, and a lockout of `key`
/// that has run out is cleared.
pub open spec fn after_check<K>(
    entries: Map<K, ThrottleEntry>,
    key: K,
    now: u64,
) -> Map<K, ThrottleEntry> {
    expired_lockout_cleared(pruned(entries, now), key, now)
}

/// The failures that count against `key` at `now`: those of an entry that is still recent.
pub open spec fn live_count<K>(entries: Map<K, ThrottleEntry>, key: K, now: u64) -> int {
    if entries.contains_key(key) && is_recent(entries[key], now) {
        entries[key].failed_attempts as int
    } else {
        0
    }
}

/// A failure of `key` at `now` is one too many.
pub open spec fn next_failure_locks<K>(
    entries: Map<K, ThrottleEntry>,
    key: K,
    now: u64,
) -> bool {
    live_count(entries, key, now) + 1 >= MAX_FAILED_ATTEMPTS
}

/// The entries after a failed attempt of `key` at `now`.
pub open spec fn after_failure<K>(
    entries: Map<K, ThrottleEntry>,
    key: K,
    now: u64,
) -> Map<K, ThrottleEntry> {
    let entry = if next_failure_locks(entries, key, now) {
        ThrottleEntry {
            failed_attempts: 0,
            locked_until: Some((now + LOCKOUT_DURATION) as u64),
            last_seen: now,
        }
    } else {
        ThrottleEntry {
            failed_attempts: (live_count(entries, key, now) + 1) as u32,
            locked_until: if entries.contains_key(key) {
                entries[key].locked_until
            } else {
                None
            },
            last_seen: now,
        }
    };
    entries.insert(key, entry)
}

/// No counter has reached the threshold: the attempt that does resets it.
pub open spec fn counts_in_range<K>(entries: Map<K, ThrottleEntry>) -> bool {
    forall|k: K| #[trigger]
        entries.contains_key(k) ==> entries[k].failed_attempts < MAX_FAILED_ATTEMPTS
}

/// Whether the entry's count still stands at `now`.
fn entry_is_recent(entry: &ThrottleEntry, now: u64) -> (recent: bool)
    ensures
        recent == is_recent(*entry, now),
{
    now < entry.last_seen || now - entry.last_seen < FAILURE_DECAY
}

/// Whether an entry is live at `now`.
fn entry_is_live(entry: &ThrottleEntry, now: u64) -> (live: bool)
    ensures
        live == is_live(*entry, now),
{
    let locked: bool = match entry.locked_until {
        Some(until) => until > now,
        None => false,
    };
    locked || entry_is_recent(entry, now)
}

/// Drops the entries that are neither actively locked out nor recently active.
fn prune_entries<K: Copy + Eq + Hash>(entries: &mut HashMap<K, ThrottleEntry>, now: u64)
    requires
        vstd::std_specs::hash::obeys_key_model::<K>(),
    ensures
        final(entries)@ == pruned(old(entries)@, now),
{
    let ghost before = entries@;
    let mut stale: Vec<K> = Vec::new();
    for pair in walk: entries.iter()
        invariant
            vstd::std_specs::hash::obeys_key_model::<K>(),
            entries@ == before,
            walk.seq() == vstd::std_specs::iter::IteratorSpec::remaining(&entries.iter()),
            forall|k: K| #[trigger]
                stale@.contains(k) ==> before.contains_key(k) && !is_live(before[k], now),
            forall|j: int|
                0 <= j < walk.index() && !is_live(*(#[trigger] walk.seq()[j]).1, now)
                    ==> stale@.contains(*walk.seq()[j].0),
    {
        assert(before.contains_key(*walk.seq()[walk.index() as int].0));
        if !entry_is_live(pair.1, now) {
            let ghost stale_before = stale@;
            stale.push(*pair.0);
            proof {
                broadcast use vstd::seq_lib::group_seq_properties;

                assert forall|k: K| #[trigger] stale@.contains(k) implies before.contains_key(k)
                    && !is_live(before[k], now) by {
                    assert(stale_before.contains(k) || k == *pair.0);
                }
            }
        }
    }
    assert forall|k: K| before.contains_key(k) && !is_live(before[k], now) implies
        #[trigger] stale@.contains(k) by {
        let walked = vstd::std_specs::iter::IteratorSpec::remaining(&entries.iter());
        assert(walked.contains((&k, &before[k])));
    }
    let mut i: usize = 0;
    while i < stale.len()
        invariant
            i <= stale@.len(),
            vstd::std_specs::hash::obeys_key_model::<K>(),
            entries@ =~= before.remove_keys(stale@.take(i as int).to_set()),
        decreases stale@.len() - i,
    {
        entries.remove(&stale[i]);
        assert(stale@.take(i + 1) =~= stale@.take(i as int).push(stale@[i as int]));
        proof {
            broadcast use vstd::seq_lib::group_seq_properties;

        }
        i = i + 1;
    }
    assert(stale@.take(i as int) =~= stale@);
    assert(entries@ =~= pruned(before, now));
}

/// Reads the lockout that `key` has left at `now`, and clears it if it has run out.
fn read_lockout<K: Copy + Eq + Hash>(
    entries: &mut HashMap<K, ThrottleEntry>,
    key: K,
    now: u64,
) -> (left: Option<u64>)
    requires
        vstd::std_specs::hash::obeys_key_model::<K>(),
    ensures
        left == lockout_left(old(entries)@, key, now),
        final(entries)@ == expired_lockout_cleared(old(entries)@, key, now),
{
    let entry: ThrottleEntry = match entries.get(&key) {
        Some(found) => *found,
        None => {
            return None;
        },
    };
    match entry.locked_until {
        Some(until) if until > now => Some((until - now) / NANOS_PER_SECOND),
        _ => {
            entries.insert(key, ThrottleEntry { locked_until: None, ..entry });
            None
        },
    }
}

/// Counts a failure of `key` at `now`; see `after_failure`.
fn count_failure<K: Copy + Eq + Hash>(
    entries: &mut HashMap<K, ThrottleEntry>,
    key: K,
    now: u64,
) -> (outcome: (u32, bool))
    requires
        vstd::std_specs::hash::obeys_key_model::<K>(),
        counts_in_range(old(entries)@),
        next_failure_locks(old(entries)@, key, now) ==> now + LOCKOUT_DURATION <= u64::MAX,
    ensures
        outcome.0 == live_count(old(entries)@, key, now) + 1,
        outcome.1 == next_failure_locks(old(entries)@, key, now),
        final(entries)@ == after_failure(old(entries)@, key, now),
{
    let entry = entries.entry(key).or_insert(
        ThrottleEntry { failed_attempts: 0, locked_until: None, last_seen: now },
    );
    if !entry_is_recent(entry, now) {
        entry.failed_attempts = 0;
    }
    entry.last_seen = now;
    entry.failed_attempts = entry.failed_attempts + 1;
    let attempts: u32 = entry.failed_attempts;
    let locked: bool = attempts >= MAX_FAILED_ATTEMPTS;
    if locked {
        entry.locked_until = Some(now + LOCKOUT_DURATION);
        entry.failed_attempts = 0;
    }
    (attempts, locked)
}

/// Reads the failures that count against `key` at `now`.
fn read_count<K: Copy + Eq + Hash>(
    entries: &HashMap<K, ThrottleEntry>,
    key: K,
    now: u64,
) -> (count: u32)
    requires
        vstd::std_specs::hash::obeys_key_model::<K>(),
    ensures
        count == live_count(entries@, key, now),
{
    match entries.get(&key) {
        Some(entry) => if entry_is_recent(entry, now) {
            entry.failed_attempts
        } else {
            0
        },
        None => 0,
    }
}

/// Brute-force protection state of the pairing endpoint, keyed by client IP, so that one
/// misbehaving host cannot lock everyone else out. Each address family has a table of its own.
pub struct PairingThrottle {
    v4: HashMap<u32, ThrottleEntry>,
    v6: HashMap<u128, ThrottleEntry>,
}

impl View for PairingThrottle {
    type V = Map<ClientIp, ThrottleEntry>;

    /// The clients with brute-force state, and that state.
    closed spec fn view(&self) -> Map<ClientIp, ThrottleEntry> {
        Map::new(
            |ip: ClientIp|
                match ip {
                    ClientIp::V4(bits) => self.v4@.contains_key(bits),
                    ClientIp::V6(bits) => self.v6@.contains_key(bits),
                },
            |ip: ClientIp|
                match ip {
                    ClientIp::V4(bits) => self.v4@[bits],
                    ClientIp::V6(bits) => self.v6@[bits],
                },
        )
    }
}

impl Default for PairingThrottle {
    /// A throttle that knows of no client.
    fn default() -> (throttle: PairingThrottle)
        ensures
            throttle.wf(),
            throttle@ == Map::<ClientIp, ThrottleEntry>::empty(),
    {
        let throttle = PairingThrottle { v4: HashMap::new(), v6: HashMap::new() };
        assert(throttle@ =~= Map::<ClientIp, ThrottleEntry>::empty());
        throttle
    }
}

impl PairingThrottle {
    /// What every operation keeps: no counter has reached the threshold.
    pub open spec fn wf(&self) -> bool {
        counts_in_range(self@)
    }

    /// Remaining lockout seconds for `ip` if it is currently locked out. Clears an expired
    /// lockout and prunes stale entries as a side effect.
    pub fn locked_remaining(&mut self, ip: ClientIp, now: u64) -> (left: Option<u64>)
        requires
            old(self).wf(),
        ensures
            final(self).wf(),
            left == lockout_left(old(self)@, ip, now),
            final(self)@ == after_check(old(self)@, ip, now),
    {
        self.prune(now);
        let ghost kept = self@;
        let left: Option<u64> = match ip {
            ClientIp::V4(bits) => read_lockout(&mut self.v4, bits, now),
            ClientIp::V6(bits) => read_lockout(&mut self.v6, bits, now),
        };
        assert(self@ =~= expired_lockout_cleared(kept, ip, now));
        left
    }

    /// Whether a failed attempt of `ip` at `now` would trip the lockout. The lockout's deadline
    /// then has to be representable.
    pub fn would_lock(&self, ip: ClientIp, now: u64) -> (locks: bool)
        requires
            self.wf(),
        ensures
            locks == next_failure_locks(self@, ip, now),
    {
        let count: u32 = match ip {
            ClientIp::V4(bits) => read_count(&self.v4, bits, now),
            ClientIp::V6(bits) => read_count(&self.v6, bits, now),
        };
        assert(count == live_count(self@, ip, now));
        count >= MAX_FAILED_ATTEMPTS - 1
    }

    /// Records a failed attempt of `ip`. Returns `(attempts, locked)`: the running failure count,
    /// and whether this attempt tripped the lockout (after which the count starts again).
    /// Failures that have decayed are not counted.
    pub fn register_failure(&mut self, ip: ClientIp, now: u64) -> (outcome: (u32, bool))
        requires
            old(self).wf(),
            next_failure_locks(old(self)@, ip, now) ==> now + LOCKOUT_DURATION <= u64::MAX,
        ensures
            final(self).wf(),
            outcome.0 == live_count(old(self)@, ip, now) + 1,
            outcome.1 == next_failure_locks(old(self)@, ip, now),
            final(self)@ == after_failure(old(self)@, ip, now),
    {
        let ghost before = self@;
        proof {
            assert forall|bits: u32| #[trigger] self.v4@.contains_key(bits) implies
                self.v4@[bits].failed_attempts < MAX_FAILED_ATTEMPTS by {
                assert(before.contains_key(ClientIp::V4(bits)));
            }
            assert forall|bits: u128| #[trigger] self.v6@.contains_key(bits) implies
                self.v6@[bits].failed_attempts < MAX_FAILED_ATTEMPTS by {
                assert(before.contains_key(ClientIp::V6(bits)));
            }
        }
        let outcome: (u32, bool) = match ip {
            ClientIp::V4(bits) => count_failure(&mut self.v4, bits, now),
            ClientIp::V6(bits) => count_failure(&mut self.v6, bits, now),
        };
        assert(self@ =~= after_failure(before, ip, now));
        outcome
    }

    /// Clears all failure state of `ip` after a successful pairing.
    pub fn clear(&mut self, ip: ClientIp)
        requires
            old(self).wf(),
        ensures
            final(self).wf(),
            final(self)@ == old(self)@.remove(ip),
    {
        let ghost before = self@;
        match ip {
            ClientIp::V4(bits) => {
                self.v4.remove(&bits);
            },
            ClientIp::V6(bits) => {
                self.v6.remove(&bits);
            },
        }
        assert(self@ =~= before.remove(ip));
    }

    /// Drops the entries that are neither actively locked out nor recently active, so that only
    /// clients with live brute-force state are held.
    fn prune(&mut self, now: u64)
        requires
            old(self).wf(),
        ensures
            final(self).wf(),
            final(self)@ == pruned(old(self)@, now),
    {
        let ghost before = self@;
        prune_entries(&mut self.v4, now);
        prune_entries(&mut self.v6, now);
        assert(self@ =~= pruned(before, now));
    }
}

} // verus!
