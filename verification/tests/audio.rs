use termgba::audio::{audio_choice, RING_CAPACITY};
use termgba::{MockAudioOut, RingBuffer};

/// The samples as a device plays them.
fn read_f32(rb: &mut RingBuffer, out: &mut [f32]) {
    let mut samples = vec![-1i16; out.len()];
    rb.read_i16(&mut samples);
    for (value, sample) in out.iter_mut().zip(samples) {
        *value = sample as f32 / i16::MAX as f32;
    }
}

fn read(rb: &mut RingBuffer, n: usize) -> Vec<i16> {
    let mut out = vec![-1i16; n];
    rb.read_i16(&mut out);
    out
}

#[test]
fn ring_buffer_push_pop() {
    let mut rb = RingBuffer::new(32);
    rb.write_i16(&[1, 2, 3, 4]);
    let mut out = [0.0f32; 4];
    read_f32(&mut rb, &mut out);
    assert_eq!(out[0], 1.0 / i16::MAX as f32);
    assert_eq!(out[3], 4.0 / i16::MAX as f32);
}

#[test]
fn ring_buffer_overwrite_drops_oldest() {
    let mut rb = RingBuffer::new(8);
    // Write more than capacity-1 (7) to trigger overwrite
    rb.write_i16(&[1, 2, 3, 4, 5, 6, 7, 8, 9, 10]); // 10 samples, cap 8
    let mut out = [0.0f32; 10];
    read_f32(&mut rb, &mut out);
    // Should read last 7 samples (4-10), rest silence
    assert_eq!(out[0], 4.0 / i16::MAX as f32);
    assert_eq!(out[6], 10.0 / i16::MAX as f32);
    assert_eq!(out[7], 0.0);
}

#[test]
fn mock_audio_out_accumulates() {
    let mut mock = MockAudioOut::new();
    mock.push(&[1, 2, 3, 4]);
    mock.push(&[5, 6]);
    assert_eq!(mock.buffer, vec![1, 2, 3, 4, 5, 6]);
}

#[test]
fn mock_audio_out_has_a_stereo_format_and_gives_its_buffer() {
    let mut mock = MockAudioOut::new();
    assert_eq!(mock.sample_rate, 44100);
    assert_eq!(mock.channels, 2);
    mock.push(&[7, -7]);
    assert_eq!(mock.into_buffer(), vec![7, -7]);
}

#[test]
fn ring_buffer_wraps_around() {
    let mut rb = RingBuffer::new(5);
    for round in 0..20i16 {
        rb.write_i16(&[round, round + 100, round + 200]);
        assert_eq!(read(&mut rb, 3), vec![round, round + 100, round + 200]);
    }
    assert_eq!(read(&mut rb, 2), vec![0, 0]);
}

#[test]
fn ring_buffer_keeps_one_slot_free() {
    let mut rb = RingBuffer::new(4);
    rb.write_i16(&[1, 2, 3]);
    rb.write_i16(&[4]);
    assert_eq!(read(&mut rb, 4), vec![2, 3, 4, 0]);
}

#[test]
fn ring_buffer_writes_add_up() {
    let mut at_once = RingBuffer::new(6);
    let mut in_pieces = RingBuffer::new(6);
    at_once.write_i16(&[1, 2, 3, 4, 5, 6, 7, 8]);
    in_pieces.write_i16(&[1, 2, 3]);
    in_pieces.write_i16(&[4, 5, 6, 7]);
    in_pieces.write_i16(&[8]);
    assert_eq!(read(&mut at_once, 6), vec![4, 5, 6, 7, 8, 0]);
    assert_eq!(read(&mut in_pieces, 6), vec![4, 5, 6, 7, 8, 0]);
}

#[test]
fn ring_buffer_reads_add_up() {
    let mut rb = RingBuffer::new(RING_CAPACITY);
    rb.write_i16(&[9, 8, 7, 6, 5]);
    assert_eq!(read(&mut rb, 2), vec![9, 8]);
    assert_eq!(read(&mut rb, 2), vec![7, 6]);
    assert_eq!(read(&mut rb, 2), vec![5, 0]);
}

#[test]
fn tiny_ring_buffers_hold_nothing() {
    let mut none = RingBuffer::new(0);
    assert_eq!(read(&mut none, 2), vec![0, 0]);
    let mut one = RingBuffer::new(1);
    one.write_i16(&[1, 2, 3]);
    assert_eq!(read(&mut one, 2), vec![0, 0]);
}

#[test]
fn silence_is_the_fallback() {
    assert!(audio_choice(false, true));
    assert!(!audio_choice(false, false));
    assert!(!audio_choice(true, true));
    assert!(!audio_choice(true, false));
}
