use phone_mic::audio::{decode_into_rings, RingBuffer, MAX_SAMPLES_PER_PACKET};

fn drain(ring: &mut RingBuffer) -> Vec<i16> {
    let mut out = vec![0i16; ring.len()];
    let n = ring.pop(&mut out);
    assert_eq!(n, out.len());
    out
}

#[test]
fn decodes_le_i16_into_ring() {
    let mut ring = RingBuffer::new(64);
    // Two little-endian i16 samples: 1 and -1.
    let bytes = [0x01, 0x00, 0xff, 0xff];
    decode_into_rings(&bytes, &mut ring, None);
    assert_eq!(ring.len(), 2);
    let mut out = [0i16; 2];
    ring.pop(&mut out);
    assert_eq!(out, [1, -1]);
}

#[test]
fn caps_at_max_samples_per_packet() {
    let mut ring = RingBuffer::new(4096);
    let bytes = vec![0u8; (MAX_SAMPLES_PER_PACKET + 50) * 2];
    decode_into_rings(&bytes, &mut ring, None);
    assert_eq!(ring.len(), MAX_SAMPLES_PER_PACKET);
}

#[test]
fn dual_decode_pushes_identical_samples_to_both_rings() {
    let mut ring = RingBuffer::new(4096);
    let mut monitor = RingBuffer::new(4096);
    // Two little-endian i16 samples: 1 and -1.
    let bytes = [0x01, 0x00, 0xff, 0xff];
    decode_into_rings(&bytes, &mut ring, Some(&mut monitor));
    assert_eq!(ring.len(), 2);
    assert_eq!(monitor.len(), 2);
    let mut out = [0i16; 2];
    ring.pop(&mut out);
    assert_eq!(out, [1, -1]);
    monitor.pop(&mut out);
    assert_eq!(out, [1, -1]);
}

#[test]
fn dual_decode_without_monitor_matches_single_decode() {
    let mut ring = RingBuffer::new(4096);
    let bytes = [0x01, 0x00, 0xff, 0xff];
    decode_into_rings(&bytes, &mut ring, None);
    assert_eq!(ring.len(), 2);
}

#[test]
fn every_sample_survives_its_bytes() {
    let mut ring = RingBuffer::new(1);
    for sample in i16::MIN..=i16::MAX {
        decode_into_rings(&sample.to_le_bytes(), &mut ring, None);
        assert_eq!(drain(&mut ring), vec![sample]);
    }
}

#[test]
fn an_odd_trailing_byte_is_ignored() {
    let mut ring = RingBuffer::new(8);
    decode_into_rings(&[0x34, 0x12, 0x7f], &mut ring, None);
    assert_eq!(drain(&mut ring), vec![0x1234]);
    decode_into_rings(&[0x7f], &mut ring, None);
    decode_into_rings(&[], &mut ring, None);
    assert_eq!(ring.len(), 0);
}

#[test]
fn a_packet_at_the_cap_is_decoded_whole_and_the_rest_ignored() {
    let mut bytes = Vec::new();
    for i in 0..(MAX_SAMPLES_PER_PACKET + 1) {
        bytes.extend_from_slice(&(i as i16).to_le_bytes());
    }
    let mut ring = RingBuffer::new(4096);
    decode_into_rings(&bytes, &mut ring, None);
    let expected: Vec<i16> = (0..480).collect();
    assert_eq!(drain(&mut ring), expected);
    decode_into_rings(&bytes[..2 * MAX_SAMPLES_PER_PACKET], &mut ring, None);
    assert_eq!(drain(&mut ring), expected);
}

#[test]
fn frames_decode_alike_split_or_whole() {
    let bytes = [1, 2, 3, 4, 5, 6];
    let mut whole = RingBuffer::new(8);
    let mut split = RingBuffer::new(8);
    decode_into_rings(&bytes, &mut whole, None);
    decode_into_rings(&bytes[..2], &mut split, None);
    decode_into_rings(&bytes[2..], &mut split, None);
    assert_eq!(drain(&mut whole), vec![0x0201, 0x0403, 0x0605]);
    assert_eq!(drain(&mut split), vec![0x0201, 0x0403, 0x0605]);
}

#[test]
fn a_full_monitor_does_not_hold_back_the_main_ring() {
    let mut ring = RingBuffer::new(4);
    let mut monitor = RingBuffer::new(1);
    decode_into_rings(&[1, 0, 2, 0], &mut ring, Some(&mut monitor));
    assert_eq!(drain(&mut ring), vec![1, 2]);
    assert_eq!(drain(&mut monitor), vec![1]);
}

#[test]
fn a_ring_wraps_in_order_and_drops_what_does_not_fit() {
    let mut ring = RingBuffer::new(3);
    ring.push(&[1, 2]);
    let mut one = [0i16; 1];
    assert_eq!(ring.pop(&mut one), 1);
    assert_eq!(one, [1]);
    ring.push(&[3, 4, 5]);
    assert_eq!(ring.len(), 3);
    let mut out = [9i16; 5];
    assert_eq!(ring.pop(&mut out), 3);
    assert_eq!(out, [2, 3, 4, 9, 9]);
    assert_eq!(ring.pop(&mut out), 0);
    assert_eq!(out, [2, 3, 4, 9, 9]);
}

#[test]
fn a_ring_without_room_stays_empty() {
    let mut ring = RingBuffer::new(0);
    ring.push(&[1]);
    assert_eq!(ring.len(), 0);
    let mut out = [7i16; 1];
    assert_eq!(ring.pop(&mut out), 0);
    assert_eq!(out, [7]);
}
