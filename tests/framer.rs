use stream_gears::framer::FrameBuffer;

#[test]
fn take_frame_waits_for_enough_bytes() {
    let mut fb = FrameBuffer::new();
    fb.push(b"hello");
    assert_eq!(fb.take_frame(11), None);
    assert_eq!(fb.len(), 5);
    fb.push(b" world!");
    assert_eq!(fb.take_frame(11), Some(b"hello world".to_vec()));
    assert_eq!(fb.len(), 1);
    assert_eq!(fb.take_frame(1), Some(b"!".to_vec()));
    assert_eq!(fb.len(), 0);
}

#[test]
fn drain_returns_residue() {
    let mut fb = FrameBuffer::new();
    fb.push(&[1, 2, 3, 4, 5]);
    assert_eq!(fb.take_frame(2), Some(vec![1, 2]));
    assert_eq!(fb.drain(), vec![3, 4, 5]);
    assert_eq!(fb.len(), 0);
    assert_eq!(fb.drain(), Vec::<u8>::new());
}

#[test]
fn zero_length_frame() {
    let mut fb = FrameBuffer::new();
    assert_eq!(fb.take_frame(0), Some(Vec::new()));
}
