//! The single-connection slot: who holds it, how it is claimed, what releasing it leaves.
use vstd::prelude::*;

verus! {

/// How often a claim is tried before it is given up.
pub const MAX_CLAIM_ATTEMPTS: u32 = 10;

/// Pause after a lost claim, in milliseconds.
pub const CLAIM_RETRY_MILLIS: u64 = 20;

/// The slot that one phone session at a time holds, and the name of the transport that carries
/// the session ("WebTransport" or "WebSocket"; empty when disconnected).
pub struct ConnectionSlot {
    pub is_connected: bool,
    pub transport: String,
}

/// A call on the slot.
pub enum SlotCall {
    Claim,
    Release,
}

/// A claim wins exactly if nobody holds the slot.
pub open spec fn claim_wins(held: bool) -> bool {
    !held
}

/// Whether the slot is held after the call.
pub open spec fn held_after(held: bool, call: SlotCall) -> bool {
    match call {
        SlotCall::Claim => true,
        SlotCall::Release => false,
    }
}

impl ConnectionSlot {
    /// What every operation keeps: a free slot names no transport.
    pub open spec fn wf(&self) -> bool {
        !self.is_connected ==> self.transport@ == Seq::<char>::empty()
    }

    /// A free slot.
    pub fn new() -> (slot: ConnectionSlot)
        ensures
            slot.wf(),
            !slot.is_connected,
            slot.transport@ == Seq::<char>::empty(),
    {
        ConnectionSlot { is_connected: false, transport: String::new() }
    }

    /// Claims the slot if it is free. Returns whether the caller now holds it.
    pub fn try_claim(&mut self) -> (won: bool)
        ensures
            won == claim_wins(old(self).is_connected),
            won == !old(self).is_connected,
            final(self).is_connected,
            final(self).is_connected == held_after(old(self).is_connected, SlotCall::Claim),
            final(self).transport == old(self).transport,
            final(self).wf(),
    {
        let won: bool = !self.is_connected;
        self.is_connected = true;
        won
    }

    /// Frees the slot at the end of a session, however it ended, and forgets the transport name,
    /// so that the status monitor goes back to idle.
    pub fn release(&mut self)
        ensures
            final(self).is_connected == held_after(old(self).is_connected, SlotCall::Release),
            !final(self).is_connected,
            final(self).transport@ == Seq::<char>::empty(),
            final(self).wf(),
    {
        self.is_connected = false;
        self.transport = String::new();
    }
}

/// What a session that wants the slot does next. The retries absorb a fast page reload, where the
/// old session is about to let go.
#[derive(Clone, Copy, PartialEq, Eq, Structural, Debug)]
pub enum SlotAcquisition {
    /// Try to claim the slot; `failed` claims were lost so far.
    Claim { failed: u32 },
    /// Wait `CLAIM_RETRY_MILLIS`; `failed` claims were lost so far.
    Pause { failed: u32 },
    /// Stop; `acquired` says whether the slot was won.
    Done { acquired: bool },
}

/// What comes after a claim that was or was not won.
pub open spec fn after_claim(step: SlotAcquisition, won: bool) -> SlotAcquisition {
    match step {
        SlotAcquisition::Claim { failed } => if won {
            SlotAcquisition::Done { acquired: true }
        } else {
            SlotAcquisition::Pause { failed: (failed + 1) as u32 }
        },
        _ => step,
    }
}

/// What comes after a pause.
pub open spec fn after_pause(step: SlotAcquisition) -> SlotAcquisition {
    match step {
        SlotAcquisition::Pause { failed } => if failed < MAX_CLAIM_ATTEMPTS {
            SlotAcquisition::Claim { failed }
        } else {
            SlotAcquisition::Done { acquired: false }
        },
        _ => step,
    }
}

impl SlotAcquisition {
    /// What every step keeps: a claim is due only while attempts are left.
    pub open spec fn wf(self) -> bool {
        match self {
            SlotAcquisition::Claim { failed } => failed < MAX_CLAIM_ATTEMPTS,
            SlotAcquisition::Pause { failed } => 0 < failed <= MAX_CLAIM_ATTEMPTS,
            SlotAcquisition::Done { acquired: _ } => true,
        }
    }

    /// How many claims and pauses can still come, at most.
    pub open spec fn steps_left(self) -> int {
        match self {
            SlotAcquisition::Claim { failed } => 2 * (MAX_CLAIM_ATTEMPTS - failed),
            SlotAcquisition::Pause { failed } => 2 * (MAX_CLAIM_ATTEMPTS - failed) + 1,
            SlotAcquisition::Done { acquired: _ } => 0,
        }
    }

    /// The first step: try to claim.
    pub fn start() -> (step: SlotAcquisition)
        ensures
            step.wf(),
            step == (SlotAcquisition::Claim { failed: 0 }),
    {
        SlotAcquisition::Claim { failed: 0 }
    }

    /// Tries to claim the slot, if that is what is due, and returns the next step. A slot that
    /// another session holds stays as it is.
    pub fn claim(self, slot: &mut ConnectionSlot) -> (next: SlotAcquisition)
        requires
            self.wf(),
        ensures
            next.wf(),
            next == after_claim(self, claim_wins(old(slot).is_connected)),
            self is Claim ==> next.steps_left() < self.steps_left(),
            final(slot).is_connected == (self is Claim || old(slot).is_connected),
            final(slot).transport == old(slot).transport,
            old(slot).wf() ==> final(slot).wf(),
    {
        match self {
            SlotAcquisition::Claim { failed } => if slot.try_claim() {
                SlotAcquisition::Done { acquired: true }
            } else {
                SlotAcquisition::Pause { failed: failed + 1 }
            },
            _ => self,
        }
    }

    /// The next step once the pause is over, if a pause was due.
    pub fn resume(self) -> (next: SlotAcquisition)
        requires
            self.wf(),
        ensures
            next.wf(),
            next == after_pause(self),
            self is Pause ==> next.steps_left() < self.steps_left(),
    {
        match self {
            SlotAcquisition::Pause { failed } => if failed < MAX_CLAIM_ATTEMPTS {
                SlotAcquisition::Claim { failed }
            } else {
                SlotAcquisition::Done { acquired: false }
            },
            _ => self,
        }
    }
}

/// One round of an acquisition: a claim and, if it was lost, the pause after it.
pub open spec fn after_round(step: SlotAcquisition, slot_free: bool) -> SlotAcquisition {
    after_pause(after_claim(step, slot_free))
}

/// The acquisition after rounds that found the slot free or taken as `frees` says.
pub open spec fn after_rounds(step: SlotAcquisition, frees: Seq<bool>) -> SlotAcquisition
    decreases frees.len(),
{
    if frees.len() == 0 {
        step
    } else {
        after_round(after_rounds(step, frees.drop_last()), frees.last())
    }
}

/// While the slot stays taken, each round costs one attempt and one pause, until the attempts are
/// used up and the acquisition gives up.
pub proof fn a_taken_slot_is_given_up_after_the_last_attempt(frees: Seq<bool>)
    requires
        forall|i: int| 0 <= i < frees.len() ==> !frees[i],
    ensures
        after_rounds(SlotAcquisition::Claim { failed: 0 }, frees) == (if frees.len()
            < MAX_CLAIM_ATTEMPTS {
            SlotAcquisition::Claim { failed: frees.len() as u32 }
        } else {
            SlotAcquisition::Done { acquired: false }
        }),
    decreases frees.len(),
{
    if frees.len() > 0 {
        let earlier = frees.drop_last();
        assert forall|i: int| 0 <= i < earlier.len() implies !earlier[i] by {
            assert(earlier[i] == frees[i]);
        }
        a_taken_slot_is_given_up_after_the_last_attempt(earlier);
        assert(!frees[frees.len() - 1]);
    }
}

/// The first attempt that finds the slot free wins it, and nothing is tried after that.
pub proof fn the_first_free_slot_is_won(frees: Seq<bool>, first: int)
    requires
        0 <= first < frees.len(),
        first < MAX_CLAIM_ATTEMPTS,
        frees[first],
        forall|i: int| 0 <= i < first ==> !frees[i],
    ensures
        after_rounds(SlotAcquisition::Claim { failed: 0 }, frees) == (SlotAcquisition::Done {
            acquired: true,
        }),
    decreases frees.len(),
{
    let earlier = frees.drop_last();
    if first == frees.len() - 1 {
        assert forall|i: int| 0 <= i < earlier.len() implies !earlier[i] by {
            assert(earlier[i] == frees[i]);
        }
        a_taken_slot_is_given_up_after_the_last_attempt(earlier);
    } else {
        assert forall|i: int| 0 <= i < first implies !earlier[i] by {
            assert(earlier[i] == frees[i]);
        }
        assert(earlier[first] == frees[first]);
        the_first_free_slot_is_won(earlier, first);
    }
}

/// An acquisition always ends within `MAX_CLAIM_ATTEMPTS` rounds, and wins exactly if one of
/// those rounds finds the slot free.
pub proof fn an_acquisition_wins_iff_the_slot_is_free_in_time(frees: Seq<bool>)
    requires
        frees.len() == MAX_CLAIM_ATTEMPTS,
    ensures
        after_rounds(SlotAcquisition::Claim { failed: 0 }, frees) == (SlotAcquisition::Done {
            acquired: frees.contains(true),
        }),
{
    if frees.contains(true) {
        let first = first_true(frees, 0);
        the_first_free_slot_is_won(frees, first);
    } else {
        assert forall|i: int| 0 <= i < frees.len() implies !frees[i] by {
            if frees[i] {
                assert(frees.contains(true));
            }
        }
        a_taken_slot_is_given_up_after_the_last_attempt(frees);
    }
}

/// Only a claim that wins acquires the slot, and it ends the acquisition at once; a lost claim
/// costs one attempt and is always followed by a pause, also the last one.
pub proof fn a_claim_is_won_or_paid_for(step: SlotAcquisition, won: bool)
    requires
        step.wf(),
    ensures
        after_claim(step, won) == (SlotAcquisition::Done { acquired: true }) <==> step == (
        SlotAcquisition::Done { acquired: true }) || (step is Claim && won),
        step is Claim && !won ==> after_claim(step, won) is Pause && after_claim(
            step,
            won,
        )->Pause_failed == step->Claim_failed + 1,
        step !is Claim ==> after_claim(step, won) == step,
{
}

/// A pause neither wins nor costs an attempt: the next claim follows while attempts are left, and
/// after the last one the acquisition gives up.
pub proof fn a_pause_leads_to_a_claim_while_attempts_are_left(step: SlotAcquisition)
    requires
        step.wf(),
    ensures
        step is Pause && step->Pause_failed < MAX_CLAIM_ATTEMPTS ==> after_pause(step) is Claim
            && after_pause(step)->Claim_failed == step->Pause_failed,
        step is Pause && step->Pause_failed == MAX_CLAIM_ATTEMPTS ==> after_pause(step) == (
        SlotAcquisition::Done { acquired: false }),
        step !is Pause ==> after_pause(step) == step,
{
}

/// The first `true` of `flags`, none of which stands before `from`.
proof fn first_true(flags: Seq<bool>, from: int) -> (first: int)
    requires
        0 <= from <= flags.len(),
        flags.contains(true),
        forall|i: int| 0 <= i < from ==> !flags[i],
    ensures
        0 <= first < flags.len(),
        flags[first],
        forall|i: int| 0 <= i < first ==> !flags[i],
    decreases flags.len() - from,
{
    let witness = choose|i: int| 0 <= i < flags.len() && flags[i] == true;
    assert(from <= witness);
    if flags[from] {
        from
    } else {
        first_true(flags, from + 1)
    }
}

/// Whether the slot is held after the calls, in order, on a free slot.
pub open spec fn held_after_calls(calls: Seq<SlotCall>) -> bool
    decreases calls.len(),
{
    if calls.len() == 0 {
        false
    } else {
        held_after(held_after_calls(calls.drop_last()), calls.last())
    }
}

/// The call number `i` is a claim that wins the slot.
pub open spec fn wins_at(calls: Seq<SlotCall>, i: int) -> bool {
    0 <= i < calls.len() && calls[i] is Claim && claim_wins(held_after_calls(calls.take(i)))
}

/// At most one session holds the slot: between two claims that win, whoever makes them, the slot
/// is released.
pub proof fn a_release_stands_between_two_wins(calls: Seq<SlotCall>, i: int, j: int)
    requires
        wins_at(calls, i),
        wins_at(calls, j),
        i < j,
    ensures
        exists|k: int| i < k < j && #[trigger] calls[k] is Release,
{
    if forall|k: int| i < k < j ==> !(#[trigger] calls[k] is Release) {
        held_without_release(calls, i, j);
    }
}

/// Who made the latest call decides: the slot is held exactly if that was a claim, won or lost.
pub proof fn the_latest_call_decides(calls: Seq<SlotCall>)
    ensures
        held_after_calls(calls) <==> calls.len() > 0 && calls.last() is Claim,
{
}

/// A claim wins exactly if it is the first call or comes right after a release.
pub proof fn a_claim_wins_iff_the_slot_was_let_go(calls: Seq<SlotCall>, i: int)
    requires
        0 <= i < calls.len(),
        calls[i] is Claim,
    ensures
        wins_at(calls, i) <==> i == 0 || calls[i - 1] is Release,
{
    the_latest_call_decides(calls.take(i));
    if i > 0 {
        assert(calls.take(i).last() == calls[i - 1]);
    }
}

/// From a claim on, the slot is held for as long as nobody releases it.
proof fn held_without_release(calls: Seq<SlotCall>, i: int, j: int)
    requires
        0 <= i < j <= calls.len(),
        calls[i] is Claim,
        forall|k: int| i < k < j ==> !(#[trigger] calls[k] is Release),
    ensures
        held_after_calls(calls.take(j)),
    decreases j,
{
    let prefix = calls.take(j);
    assert(prefix.drop_last() =~= calls.take(j - 1));
    assert(prefix.last() == calls[j - 1]);
    if i < j - 1 {
        held_without_release(calls, i, j - 1);
    }
}

} // verus!
