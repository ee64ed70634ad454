use hackdose::framer::{find_frame, FrameBuffer};
use hackdose::sml::{parse_message, SmlMessageEnvelope};

const CLOSE_FRAME: [u8; 32] = [
    0x1b, 0x1b, 0x1b, 0x1b, 0x01, 0x01, 0x01, 0x01, 0x76, 0x05, 0x03, 0x2b, 0x18, 0x11, 0x62, 0x00,
    0x62, 0x00, 0x72, 0x63, 0x02, 0x01, 0x71, 0x01, 0x63, 0xfa, 0x36, 0x00, 0x1b, 0x1b, 0x1b, 0x1b,
];
const TRAILER: [u8; 4] = [0x1a, 0x00, 0x70, 0xb2];

fn frame() -> Vec<u8> {
    let mut f = CLOSE_FRAME.to_vec();
    f.extend_from_slice(&TRAILER);
    f
}

#[test]
fn finds_frame_after_noise() {
    let mut b = vec![0x00, 0x1b, 0x42];
    b.extend(frame());
    b.extend_from_slice(&[0x99, 0x98]);
    assert_eq!(find_frame(&b), Some((3, 3 + 36)));
}

#[test]
fn no_frame_without_end() {
    assert_eq!(find_frame(&CLOSE_FRAME), None);
    assert_eq!(find_frame(&[]), None);
}

#[test]
fn yields_frame_and_keeps_the_rest() {
    let mut fb = FrameBuffer::new();
    fb.push(&[0x07, 0x08]);
    fb.push(&CLOSE_FRAME);
    assert_eq!(fb.next_frame(), None);
    assert_eq!(fb.len(), 34);
    let mut tail = TRAILER.to_vec();
    tail.extend_from_slice(&[0x1b, 0x1b]);
    fb.push(&tail);
    let f = fb.next_frame().unwrap();
    assert_eq!(f, frame());
    assert_eq!(fb.len(), 2);
    let m = parse_message(&f).unwrap();
    assert_eq!(m.messages, vec![SmlMessageEnvelope::GetCloseResponse]);
}

#[test]
fn drops_older_half_without_start() {
    let mut fb = FrameBuffer::new();
    fb.push(&vec![0u8; 70_000]);
    assert_eq!(fb.next_frame(), None);
    assert_eq!(fb.len(), 35_000);
}

#[test]
fn keeps_large_buffer_with_start() {
    let mut fb = FrameBuffer::new();
    fb.push(&CLOSE_FRAME);
    fb.push(&vec![0u8; 70_000]);
    assert_eq!(fb.next_frame(), None);
    assert_eq!(fb.len(), 70_032);
}

#[test]
fn end_sequence_before_start_is_skipped() {
    let mut b = vec![0x1b, 0x1b, 0x1b, 0x1b, 0x1a, 0x00, 0x00, 0x00];
    b.extend(frame());
    assert_eq!(find_frame(&b), Some((8, 44)));
}

#[test]
fn takes_two_frames_in_turn() {
    let mut fb = FrameBuffer::new();
    let mut both = frame();
    both.extend(frame());
    fb.push(&both);
    assert_eq!(fb.next_frame(), Some(frame()));
    assert_eq!(fb.next_frame(), Some(frame()));
    assert_eq!(fb.next_frame(), None);
    assert_eq!(fb.len(), 0);
}
