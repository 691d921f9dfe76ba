use recordplayer::buffer::{AudioRingBuffer, ScratchBuffer};

#[test]
fn ring_buffer_keeps_one_slot_free() {
    let mut b: AudioRingBuffer<f32> = AudioRingBuffer::new(4, 0.0);
    assert_eq!(b.available(), 0);
    assert_eq!(b.space(), 3);
    let written = b.write(&[1.0, 2.0, 3.0, 4.0, 5.0]);
    assert_eq!(written, 3);
    assert_eq!(b.available(), 3);
    assert_eq!(b.space(), 0);
}

#[test]
fn ring_buffer_is_first_in_first_out_across_wrap() {
    let mut b: AudioRingBuffer<f32> = AudioRingBuffer::new(4, 0.0);
    assert_eq!(b.write(&[1.0, 2.0, 3.0]), 3);
    let mut out = [9.0f32; 2];
    assert_eq!(b.read(&mut out), 2);
    assert_eq!(out, [1.0, 2.0]);
    assert_eq!(b.write(&[4.0, 5.0]), 2);
    let mut rest = [0.0f32; 5];
    assert_eq!(b.read(&mut rest), 3);
    assert_eq!(rest, [3.0, 4.0, 5.0, 0.0, 0.0]);
    assert_eq!(b.available(), 0);
}

#[test]
fn ring_buffer_clear_and_empty_read() {
    let mut b: AudioRingBuffer<i16> = AudioRingBuffer::new(8, 0);
    b.write(&[1, 2, 3]);
    b.clear();
    assert_eq!(b.available(), 0);
    let mut out = [7i16; 2];
    assert_eq!(b.read(&mut out), 0);
    assert_eq!(out, [7, 7]);
    let mut zero: AudioRingBuffer<i16> = AudioRingBuffer::new(0, 0);
    assert_eq!(zero.read(&mut out), 0);
}

#[test]
fn scratch_buffer_holds_frames_times_channels() {
    let mut s: ScratchBuffer<f32> = ScratchBuffer::new(4, 2, 0.0);
    assert_eq!(s.as_slice().len(), 8);
    s.as_mut_slice()[3] = 0.5;
    assert_eq!(s.as_slice()[3], 0.5);
    s.clear();
    assert!(s.as_slice().iter().all(|&x| x == 0.0));
}
