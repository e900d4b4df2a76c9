pub mod connection;
pub mod state;
pub mod throttle;
pub mod throttle_history;
pub mod throttle_laws;

pub use connection::{ConnectionSlot, SlotAcquisition, CLAIM_RETRY_MILLIS, MAX_CLAIM_ATTEMPTS};
pub use state::MicRenameMode;
pub use throttle::{
    ClientIp, PairingThrottle, ThrottleEntry, FAILURE_DECAY, LOCKOUT_DURATION, MAX_FAILED_ATTEMPTS,
    NANOS_PER_SECOND,
};
