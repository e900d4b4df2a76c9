use phone_mic::server::{
    ConnectionSlot, MicRenameMode, SlotAcquisition, CLAIM_RETRY_MILLIS, MAX_CLAIM_ATTEMPTS,
};

/// Runs an acquisition; `freed_after` is the pause after which the holder lets go, if it does.
/// Returns the outcome and how many pauses were made.
fn acquire(slot: &mut ConnectionSlot, freed_after: Option<u32>) -> (bool, u32) {
    let mut pauses = 0;
    let mut step = SlotAcquisition::start();
    loop {
        match step {
            SlotAcquisition::Claim { .. } => step = step.claim(slot),
            SlotAcquisition::Pause { .. } => {
                pauses += 1;
                if freed_after == Some(pauses) {
                    slot.release();
                }
                step = step.resume();
            }
            SlotAcquisition::Done { acquired } => return (acquired, pauses),
        }
    }
}

#[test]
fn slot_acquires_and_guard_releases() {
    let mut slot = ConnectionSlot::new();
    assert!(!slot.is_connected);
    assert!(slot.transport.is_empty());
    assert!(acquire(&mut slot, None).0);
    assert!(slot.is_connected);
    slot.transport.push_str("WebTransport");
    assert!(slot.is_connected);
    slot.release();
    assert!(
        !slot.is_connected,
        "dropping the guard must release the slot"
    );
    assert!(
        slot.transport.is_empty(),
        "dropping the guard must clear the transport name"
    );
}

#[test]
fn slot_acquisition_fails_when_already_taken() {
    let mut slot = ConnectionSlot::new();
    assert!(slot.try_claim());
    assert!(!acquire(&mut slot, None).0);
}

#[test]
fn a_taken_slot_costs_ten_attempts_and_ten_pauses() {
    assert_eq!(MAX_CLAIM_ATTEMPTS, 10);
    assert_eq!(CLAIM_RETRY_MILLIS, 20);
    let mut slot = ConnectionSlot::new();
    assert!(slot.try_claim());
    slot.transport.push_str("WebSocket");
    assert_eq!(acquire(&mut slot, None), (false, 10));
    assert!(slot.is_connected);
    assert_eq!(slot.transport, "WebSocket");
}

#[test]
fn a_free_slot_is_won_without_a_pause() {
    let mut slot = ConnectionSlot::new();
    assert_eq!(acquire(&mut slot, None), (true, 0));
}

#[test]
fn a_slot_freed_in_time_is_won() {
    let mut slot = ConnectionSlot::new();
    assert!(slot.try_claim());
    assert_eq!(acquire(&mut slot, Some(3)), (true, 3));
    assert!(slot.is_connected);
    let mut late = ConnectionSlot::new();
    assert!(late.try_claim());
    assert_eq!(acquire(&mut late, Some(9)), (true, 9));
}

#[test]
fn a_slot_freed_after_the_last_attempt_is_not_won() {
    let mut slot = ConnectionSlot::new();
    assert!(slot.try_claim());
    assert_eq!(acquire(&mut slot, Some(10)), (false, 10));
    assert!(!slot.is_connected);
}

#[test]
fn two_claims_do_not_both_win() {
    let mut slot = ConnectionSlot::new();
    assert!(slot.try_claim());
    assert!(!slot.try_claim());
    slot.release();
    assert!(slot.try_claim());
}

#[test]
fn steps_that_are_not_due_change_nothing() {
    let mut slot = ConnectionSlot::new();
    let pause = SlotAcquisition::Pause { failed: 1 };
    assert_eq!(pause.claim(&mut slot), pause);
    assert!(!slot.is_connected);
    let done = SlotAcquisition::Done { acquired: true };
    assert_eq!(done.claim(&mut slot), done);
    assert_eq!(done.resume(), done);
    assert_eq!(SlotAcquisition::start().resume(), SlotAcquisition::start());
}

#[test]
fn a_static_name_is_kept_by_a_clone() {
    let mode = MicRenameMode::Static(String::from("Studio"));
    assert!(matches!(mode.clone(), MicRenameMode::Static(name) if name == "Studio"));
}
