use fracantor::encoder::{AnimationEncoder, EncodeError};
use fracantor::palette::two_tone;
use fracantor::raster::FrameBuffer;

fn indexed_frame(width: usize, height: usize, value: u8) -> FrameBuffer {
    let mut fb = FrameBuffer::new(width, height, 1);
    for b in fb.data.iter_mut() {
        *b = value;
    }
    fb
}

/// Counts the graphic-control extension blocks of a GIF stream, one per
/// frame, and returns their delays in ticks.
fn frame_delays(bytes: &[u8]) -> Vec<u16> {
    let mut delays = Vec::new();
    let mut i = 0;
    while i + 5 < bytes.len() {
        if bytes[i] == 0x21 && bytes[i + 1] == 0xF9 && bytes[i + 2] == 0x04 {
            let lo = bytes[i + 4] as u16;
            let hi = bytes[i + 5] as u16;
            delays.push(lo | (hi << 8));
            i += 6;
        } else {
            i += 1;
        }
    }
    delays
}

#[test]
fn open_rejects_zero_dimensions() {
    let p = two_tone();
    match AnimationEncoder::open(0, 4, &p) {
        Err(e) => assert_eq!(e, EncodeError::DimensionMismatch),
        Ok(_) => panic!("zero width accepted"),
    }
    match AnimationEncoder::open(4, 0, &p) {
        Err(e) => assert_eq!(e, EncodeError::DimensionMismatch),
        Ok(_) => panic!("zero height accepted"),
    }
}

#[test]
fn append_validates_dimensions_and_indices() {
    let p = two_tone();
    let mut enc = AnimationEncoder::open(4, 4, &p).unwrap();
    let wrong_size = indexed_frame(3, 4, 0);
    assert_eq!(
        enc.append_frame(&wrong_size, 0).unwrap_err(),
        EncodeError::DimensionMismatch
    );
    let rgb = FrameBuffer::new(4, 4, 3);
    assert_eq!(
        enc.append_frame(&rgb, 0).unwrap_err(),
        EncodeError::DimensionMismatch
    );
    let bad_index = indexed_frame(4, 4, 2);
    assert_eq!(
        enc.append_frame(&bad_index, 0).unwrap_err(),
        EncodeError::IndexOutOfRange
    );
    let good = indexed_frame(4, 4, 1);
    assert_eq!(
        enc.append_frame(&good, 700000).unwrap_err(),
        EncodeError::DelayTooLong
    );
    assert!(enc.append_frame(&good, 20).is_ok());
    assert_eq!(enc.frame_count(), 1);
}

#[test]
fn finalize_closes_the_container_for_good() {
    let p = two_tone();
    let mut enc = AnimationEncoder::open(2, 2, &p).unwrap();
    let frame = indexed_frame(2, 2, 1);
    assert!(enc.append_frame(&frame, 0).is_ok());
    let bytes = enc.finalize().unwrap();
    assert_eq!(&bytes[0..6], b"GIF89a");
    assert_eq!(enc.finalize().unwrap_err(), EncodeError::Finalized);
    assert_eq!(enc.append_frame(&frame, 0).unwrap_err(), EncodeError::Finalized);
    assert_eq!(enc.frame_count(), 1);
}

#[test]
fn finalized_stream_holds_every_appended_frame() {
    let p = two_tone();
    let mut enc = AnimationEncoder::open(2, 2, &p).unwrap();
    let frame = indexed_frame(2, 2, 0);
    for _ in 0..5 {
        assert!(enc.append_frame(&frame, 30).is_ok());
    }
    assert_eq!(enc.frame_count(), 5);
    let bytes = enc.finalize().unwrap();
    assert_eq!(frame_delays(&bytes).len(), 5);
    // The stream ends with the trailer byte.
    assert_eq!(*bytes.last().unwrap(), 0x3B);
}

#[test]
fn delay_is_stored_in_ten_millisecond_ticks() {
    let p = two_tone();
    let mut enc = AnimationEncoder::open(2, 2, &p).unwrap();
    let frame = indexed_frame(2, 2, 1);
    // 1234 ms truncates to 123 ticks; 9 ms truncates to zero.
    assert!(enc.append_frame(&frame, 1234).is_ok());
    assert!(enc.append_frame(&frame, 9).is_ok());
    let bytes = enc.finalize().unwrap();
    assert_eq!(frame_delays(&bytes), vec![123, 0]);
}
