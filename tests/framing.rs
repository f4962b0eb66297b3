use std::collections::VecDeque;
use walkietalkie::framing::{
    accept_datagram, drain_frames, frame, push_opus_packet, try_extract_one, MAX_PAYLOAD,
};

fn queue_of(bytes: &[u8]) -> VecDeque<u8> {
    bytes.iter().copied().collect()
}

#[test]
fn frame_prefixes_little_endian_length() {
    let payload: Vec<u8> = (0..300u32).map(|i| (i % 251) as u8).collect();
    let framed = frame(&payload);
    assert_eq!(framed.len(), 302);
    assert_eq!(framed[0], 0x2c);
    assert_eq!(framed[1], 0x01);
    assert_eq!(&framed[2..], &payload[..]);
}

#[test]
fn frame_round_trip_empties_queue() {
    let payload = vec![7u8, 1, 2, 3, 250];
    let mut q = queue_of(&frame(&payload));
    assert_eq!(try_extract_one(&mut q), Some(payload));
    assert!(q.is_empty());
}

#[test]
fn frame_round_trip_largest_payload() {
    let payload: Vec<u8> = (0..MAX_PAYLOAD).map(|i| (i % 256) as u8).collect();
    let framed = frame(&payload);
    assert_eq!(framed[0], 0xff);
    assert_eq!(framed[1], 0xff);
    let mut q = queue_of(&framed);
    assert_eq!(try_extract_one(&mut q), Some(payload));
    assert!(q.is_empty());
}

#[test]
fn partial_frame_is_left_untouched() {
    let payload = vec![9u8, 8, 7, 6];
    let framed = frame(&payload);
    for k in 0..framed.len() {
        let mut q = queue_of(&framed[..k]);
        let before = q.clone();
        assert_eq!(try_extract_one(&mut q), None);
        assert_eq!(q, before);
    }
}

#[test]
fn frames_come_out_in_order() {
    let p1 = vec![1u8];
    let p2 = vec![2u8, 2];
    let p3 = vec![3u8, 3, 3];
    let mut bytes = frame(&p1);
    bytes.extend(frame(&p2));
    bytes.extend(frame(&p3));
    let mut q = queue_of(&bytes);
    assert_eq!(try_extract_one(&mut q), Some(p1));
    assert_eq!(try_extract_one(&mut q), Some(p2));
    assert_eq!(try_extract_one(&mut q), Some(p3));
    assert_eq!(try_extract_one(&mut q), None);
    assert!(q.is_empty());
}

#[test]
fn push_appends_framed_unit() {
    let mut q = queue_of(&[0xaa]);
    push_opus_packet(&mut q, &[5, 6, 7]);
    assert_eq!(q, queue_of(&[0xaa, 3, 0, 5, 6, 7]));
}

#[test]
fn drain_takes_whole_units_and_keeps_tail() {
    let mut q = VecDeque::new();
    push_opus_packet(&mut q, &[1, 2]);
    push_opus_packet(&mut q, &[3]);
    q.extend([4u8, 0, 9, 9]);
    let frames = drain_frames(&mut q);
    assert_eq!(frames, vec![vec![1u8, 2], vec![3u8]]);
    assert_eq!(q, queue_of(&[4, 0, 9, 9]));
}

#[test]
fn drain_on_empty_queue_yields_nothing() {
    let mut q = VecDeque::new();
    assert!(drain_frames(&mut q).is_empty());
    assert!(q.is_empty());
}

#[test]
fn empty_datagram_is_skipped() {
    let mut q = queue_of(&[1]);
    assert!(!accept_datagram(&mut q, &[]));
    assert_eq!(q, queue_of(&[1]));
}

#[test]
fn datagram_is_queued_framed() {
    let mut q = VecDeque::new();
    assert!(accept_datagram(&mut q, &[0x10, 0x20]));
    assert_eq!(q, queue_of(&[2, 0, 0x10, 0x20]));
}

#[test]
fn zero_length_unit_extracts_empty_payload() {
    let mut q = queue_of(&[0, 0, 5]);
    assert_eq!(try_extract_one(&mut q), Some(vec![]));
    assert_eq!(q, queue_of(&[5]));
}
