pub mod processor;
pub mod ring_buffer;

pub use processor::{decode_into_rings, MAX_SAMPLES_PER_PACKET};
pub use ring_buffer::RingBuffer;
