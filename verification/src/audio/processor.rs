//! Incoming-packet decoding: little-endian 16-bit PCM, pushed to the rings of the output stage.
use super::ring_buffer::RingBuffer;
use vstd::prelude::*;

verus! {

/// Maximum samples per packet (480 = 10 ms at 48 kHz).
pub const MAX_SAMPLES_PER_PACKET: usize = 480;

/// The sample whose little-endian two's complement bytes are `low` and `high`.
pub open spec fn le_sample(low: u8, high: u8) -> int {
    if high < 0x80 {
        high * 0x100 + low
    } else {
        high * 0x100 + low - 0x10000
    }
}

/// How many samples a packet of `len` bytes contributes: one for each pair of bytes, up to the
/// cap.
pub open spec fn sample_count(len: nat) -> nat {
    super::ring_buffer::min_nat(len / 2, MAX_SAMPLES_PER_PACKET as nat)
}

/// The samples that a packet contributes.
pub open spec fn decoded(bytes: Seq<u8>) -> Seq<i16> {
    Seq::new(
        sample_count(bytes.len()),
        |i: int| le_sample(bytes[2 * i], bytes[2 * i + 1]) as i16,
    )
}

/// The sample of a pair of bytes, low byte first.
fn sample_from_le_bytes(low: u8, high: u8) -> (sample: i16)
    ensures
        sample == le_sample(low, high),
{
    let bits: u16 = (high as u16) * 0x100 + (low as u16);
    if high < 0x80 {
        bits as i16
    } else {
        let magnitude: u16 = 0xffff - bits;
        -(magnitude as i16) - 1
    }
}

/// Decodes little-endian 16-bit PCM from `pcm_bytes` and pushes it into `ring`, and into
/// `monitor_ring` when a hear-yourself monitor stream is active.
///
/// The packet is decoded once, into a stack buffer, and the same samples go to both rings. At
/// most `MAX_SAMPLES_PER_PACKET` samples are taken from one packet, and a trailing odd byte is
/// ignored.
pub fn decode_into_rings(
    pcm_bytes: &[u8],
    ring: &mut RingBuffer,
    monitor_ring: Option<&mut RingBuffer>,
)
    requires
        old(ring).wf(),
        monitor_ring matches Some(monitor) ==> monitor.wf(),
    ensures
        final(ring).wf(),
        final(ring).capacity() == old(ring).capacity(),
        final(ring)@ == super::ring_buffer::pushed(
            old(ring)@,
            old(ring).capacity(),
            decoded(pcm_bytes@),
        ),
        monitor_ring matches Some(monitor) ==> {
            &&& final(monitor).wf()
            &&& final(monitor).capacity() == monitor.capacity()
            &&& final(monitor)@ == super::ring_buffer::pushed(
                monitor@,
                monitor.capacity(),
                decoded(pcm_bytes@),
            )
        },
{
    let mut samples: [i16; MAX_SAMPLES_PER_PACKET] = [0i16; MAX_SAMPLES_PER_PACKET];
    let pairs: usize = pcm_bytes.len() / 2;
    let mut count: usize = 0;
    while count < pairs && count < MAX_SAMPLES_PER_PACKET
        invariant
            pairs == pcm_bytes@.len() / 2,
            count <= sample_count(pcm_bytes@.len()),
            samples@.take(count as int) =~= decoded(pcm_bytes@).take(count as int),
        decreases pairs - count,
    {
        samples[count] = sample_from_le_bytes(pcm_bytes[2 * count], pcm_bytes[2 * count + 1]);
        count = count + 1;
    }
    assert(decoded(pcm_bytes@).take(count as int) =~= decoded(pcm_bytes@));
    if count > 0 {
        let packet: &[i16] = &samples[0..count];
        ring.push(packet);
        if let Some(monitor) = monitor_ring {
            monitor.push(packet);
        }
    }
}

/// A malformed or oversize frame can never write more than one packet's worth.
pub proof fn a_packet_is_capped(bytes: Seq<u8>, queued: Seq<i16>, capacity: nat)
    requires
        queued.len() <= capacity,
    ensures
        decoded(bytes).len() <= MAX_SAMPLES_PER_PACKET,
        super::ring_buffer::pushed(queued, capacity, decoded(bytes)).len() <= queued.len()
            + MAX_SAMPLES_PER_PACKET,
{
}

/// A frame within the cap is decoded whole.
pub proof fn a_frame_within_the_cap_is_decoded_whole(bytes: Seq<u8>)
    requires
        bytes.len() <= 2 * MAX_SAMPLES_PER_PACKET + 1,
    ensures
        decoded(bytes).len() == bytes.len() / 2,
{
}

/// A trailing odd byte is ignored.
pub proof fn a_trailing_odd_byte_is_ignored(bytes: Seq<u8>)
    requires
        bytes.len() % 2 == 1,
    ensures
        decoded(bytes) == decoded(bytes.drop_last()),
{
    assert(decoded(bytes) =~= decoded(bytes.drop_last()));
}

/// What lies beyond the cap is ignored.
pub proof fn bytes_beyond_the_cap_are_ignored(bytes: Seq<u8>)
    requires
        bytes.len() >= 2 * MAX_SAMPLES_PER_PACKET,
    ensures
        decoded(bytes) == decoded(bytes.take(2 * MAX_SAMPLES_PER_PACKET)),
{
    assert(decoded(bytes) =~= decoded(bytes.take(2 * MAX_SAMPLES_PER_PACKET)));
}

/// Two frames of whole samples that together stay within the cap decode to the same samples one
/// after the other as in one frame.
pub proof fn decoding_splits_at_samples(first: Seq<u8>, second: Seq<u8>)
    requires
        first.len() % 2 == 0,
        first.len() + second.len() <= 2 * MAX_SAMPLES_PER_PACKET,
    ensures
        decoded(first + second) == decoded(first) + decoded(second),
{
    assert(decoded(first + second) =~= decoded(first) + decoded(second));
}

/// Each pair of bytes up to the cap becomes the one sample whose two's complement it spells, low
/// byte first; the samples stand in the order of the pairs.
pub proof fn a_sample_spells_its_pair_of_bytes(bytes: Seq<u8>, i: int)
    requires
        0 <= i < MAX_SAMPLES_PER_PACKET,
        2 * i + 1 < bytes.len(),
    ensures
        i < decoded(bytes).len(),
        decoded(bytes)[i] as int % 0x100 == bytes[2 * i],
        (decoded(bytes)[i] as int / 0x100) % 0x100 == bytes[2 * i + 1],
{
}

/// What a packet leaves in a ring: what was queued, in place, and then, as far as there is room,
/// one sample for each pair of bytes up to the cap, each spelt by its own pair.
pub proof fn a_packet_queues_its_own_samples(
    bytes: Seq<u8>,
    queued: Seq<i16>,
    capacity: nat,
    i: int,
)
    requires
        queued.len() <= capacity,
    ensures
        ({
            let after = super::ring_buffer::pushed(queued, capacity, decoded(bytes));
            let pairs = bytes.len() as int / 2;
            let k = i - queued.len();
            &&& 0 <= i < queued.len() ==> i < after.len() && after[i] == queued[i]
            &&& queued.len() <= i ==> (i < after.len() <==> i < capacity && k < pairs && k
                < MAX_SAMPLES_PER_PACKET)
            &&& queued.len() <= i < after.len() ==> after[i] as int % 0x100 == bytes[2 * k]
            &&& queued.len() <= i < after.len() ==> (after[i] as int / 0x100) % 0x100 == bytes[2 * k
                + 1]
        }),
{
    let k = i - queued.len();
    if 0 <= k < MAX_SAMPLES_PER_PACKET && 2 * k + 1 < bytes.len() {
        a_sample_spells_its_pair_of_bytes(bytes, k);
    }
}

/// Every sample has a frame: the value of its low and high bytes is the sample again.
pub proof fn every_sample_is_decoded_from_its_bytes(sample: i16)
    ensures
        le_sample((sample as int % 0x100) as u8, ((sample as int / 0x100) % 0x100) as u8)
            == sample,
{
}

} // verus!
