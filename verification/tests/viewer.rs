use momostyle::buffer::RgbBuffer;
use momostyle::viewer::{fill_frame, pan, try_pan, PanKeys, CAPTURE_ORIGIN, PAN_STEP};

fn keys(right: bool, left: bool, up: bool, down: bool, reset: bool) -> PanKeys {
    PanKeys { right, left, up, down, reset }
}

#[test]
fn pan_moves_by_arrow_keys() {
    assert_eq!(pan(100, 100, &keys(true, false, false, false, false)), (110, 100));
    assert_eq!(pan(100, 100, &keys(false, true, false, false, false)), (90, 100));
    assert_eq!(pan(100, 100, &keys(false, false, true, false, false)), (100, 90));
    assert_eq!(pan(100, 100, &keys(false, false, false, true, false)), (100, 110));
    assert_eq!(pan(-3, 7, &keys(true, false, false, true, false)), (7, 17));
    assert_eq!(PAN_STEP, 10);
}

#[test]
fn pan_opposite_keys_cancel() {
    assert_eq!(pan(42, -8, &keys(true, true, true, true, false)), (42, -8));
    assert_eq!(pan(42, -8, &keys(false, false, false, false, false)), (42, -8));
}

#[test]
fn pan_reset_returns_to_origin() {
    assert_eq!(pan(5000, -70, &keys(false, false, false, false, true)), (100, 100));
    assert_eq!(pan(1, 2, &keys(true, false, true, false, true)), (CAPTURE_ORIGIN, CAPTURE_ORIGIN));
}

#[test]
fn pan_reversed_keys_undo() {
    let (x, y) = pan(-30, 250, &keys(true, false, true, false, false));
    assert_eq!(pan(x, y, &keys(false, true, false, true, false)), (-30, 250));
}

#[test]
fn pan_at_edge_of_range() {
    assert_eq!(pan(isize::MAX - 10, isize::MIN + 10, &keys(true, false, true, false, false)), (isize::MAX, isize::MIN));
}

#[test]
fn fill_frame_writes_opaque_pixels() {
    let img = RgbBuffer::from_raw(2, 1, vec![1, 2, 3, 255, 128, 0]).unwrap();
    let mut buffer = vec![7u32; 3];
    fill_frame(&mut buffer, &img);
    assert_eq!(buffer, vec![0xFF01_0203, 0xFFFF_8000, 7]);
}

#[test]
fn fill_frame_stops_at_buffer_end() {
    let img = RgbBuffer::from_raw(2, 2, vec![0; 12]).unwrap();
    let mut buffer = vec![1u32; 3];
    fill_frame(&mut buffer, &img);
    assert_eq!(buffer, vec![0xFF00_0000; 3]);
    let mut empty: Vec<u32> = Vec::new();
    fill_frame(&mut empty, &img);
    assert!(empty.is_empty());
}

#[test]
fn try_pan_refuses_overflow() {
    assert_eq!(try_pan(isize::MAX - 9, 0, &keys(true, false, false, false, false)), None);
    assert_eq!(try_pan(isize::MAX - 9, 0, &keys(true, true, false, false, false)), None);
    assert_eq!(try_pan(isize::MIN + 9, 0, &keys(false, true, false, false, false)), None);
    assert_eq!(try_pan(0, isize::MIN + 9, &keys(false, false, true, true, true)), None);
    assert_eq!(try_pan(0, isize::MAX - 9, &keys(false, false, false, true, false)), None);
    assert_eq!(try_pan(0, isize::MAX - 9, &keys(false, false, true, true, false)), Some((0, isize::MAX - 9)));
    assert_eq!(try_pan(isize::MAX - 10, 3, &keys(true, false, false, false, false)), Some((isize::MAX, 3)));
    assert_eq!(try_pan(7, 8, &keys(false, false, false, false, true)), Some((100, 100)));
}
