use rtmp_vcam::frame_buffer::{
    commit_frame, latest_frame, publish_into, read_header, stage_frame, DecodedFrame, Plane,
    PublishOutcome,
    SharedFrameBuffer, FRAME_HEADER_SIZE, FRAME_SHM_SIZE, MAX_FRAME_SIZE, MAX_HEIGHT, MAX_WIDTH,
};

fn plane(data: &[u8], stride: usize, rows: usize) -> Plane<'_> {
    Plane { data: Some(data), stride, rows }
}

#[test]
fn layout_constants() {
    assert_eq!(FRAME_HEADER_SIZE, 64);
    assert_eq!(MAX_WIDTH, 1920);
    assert_eq!(MAX_HEIGHT, 1080);
    assert_eq!(MAX_FRAME_SIZE, 1920 * 1080 * 3 / 2);
    assert_eq!(FRAME_SHM_SIZE, 64 + 2 * MAX_FRAME_SIZE);
}

#[test]
fn fresh_region_has_no_frame() {
    let buffer = SharedFrameBuffer::create();
    assert_eq!(buffer.as_bytes().len(), FRAME_SHM_SIZE);
    assert_eq!(buffer.write_index(), 0);
    assert!(buffer.latest().is_none());
    assert!(buffer.as_bytes().iter().all(|b| *b == 0));
}

#[test]
fn publish_without_padding_copies_planes_whole() {
    let mut buffer = SharedFrameBuffer::create();
    let luma: Vec<u8> = (1..=16).collect();
    let chroma: Vec<u8> = (101..=108).collect();
    let frame = DecodedFrame { width: 4, height: 4, luma: plane(&luma, 4, 4), chroma: plane(&chroma, 4, 2) };
    assert_eq!(buffer.publish(&frame), PublishOutcome::Published);
    assert_eq!(buffer.write_index(), 1);
    let bytes = buffer.as_bytes();
    assert_eq!(&bytes[0..8], &[1, 0, 0, 0, 0, 0, 0, 0]);
    assert_eq!(&bytes[8..12], &[4, 0, 0, 0]);
    assert_eq!(&bytes[12..16], &[4, 0, 0, 0]);
    assert!(bytes[16..64].iter().all(|b| *b == 0));
    assert_eq!(&bytes[64..80], &luma[..]);
    assert_eq!(&bytes[80..88], &chroma[..]);
    assert!(bytes[88..].iter().all(|b| *b == 0));
    let latest = buffer.latest().unwrap();
    assert_eq!((latest.width, latest.height), (4, 4));
    let mut expected = luma.clone();
    expected.extend_from_slice(&chroma);
    assert_eq!(latest.pixels, &expected[..]);
}

#[test]
fn publish_strips_row_padding() {
    let mut buffer = SharedFrameBuffer::create();
    // width 3, stride 5: two padding bytes per row
    let luma = vec![1, 2, 3, 0xEE, 0xEE, 4, 5, 6, 0xEE, 0xEE];
    let chroma = vec![7, 8, 9, 0xDD, 0xDD, 0xDD, 0xDD];
    let frame = DecodedFrame { width: 3, height: 2, luma: plane(&luma, 5, 2), chroma: plane(&chroma, 7, 1) };
    assert_eq!(buffer.publish(&frame), PublishOutcome::Published);
    let latest = buffer.latest().unwrap();
    assert_eq!((latest.width, latest.height), (3, 2));
    assert_eq!(latest.pixels, &[1, 2, 3, 4, 5, 6, 7, 8, 9]);
}

#[test]
fn last_row_needs_no_padding() {
    let mut buffer = SharedFrameBuffer::create();
    // two rows of stride 4, the second one cut after its two pixels
    let luma = vec![1, 2, 0, 0, 3, 4];
    let chroma = vec![5, 6];
    let frame = DecodedFrame { width: 2, height: 2, luma: plane(&luma, 4, 2), chroma: plane(&chroma, 4, 1) };
    assert_eq!(buffer.publish(&frame), PublishOutcome::Published);
    assert_eq!(buffer.latest().unwrap().pixels, &[1, 2, 3, 4, 5, 6]);
}

#[test]
fn slots_alternate_and_index_counts_publishes() {
    let mut buffer = SharedFrameBuffer::create();
    for k in 1..=7u64 {
        let luma = vec![k as u8; 4];
        let chroma = vec![0x80 + k as u8; 2];
        let frame = DecodedFrame { width: 2, height: 2, luma: plane(&luma, 2, 2), chroma: plane(&chroma, 2, 1) };
        assert_eq!(buffer.publish(&frame), PublishOutcome::Published);
        assert_eq!(buffer.write_index(), k);
        let slot = ((k - 1) % 2) as usize;
        let base = FRAME_HEADER_SIZE + slot * MAX_FRAME_SIZE;
        let bytes = buffer.as_bytes();
        assert_eq!(&bytes[base..base + 4], &luma[..]);
        assert_eq!(&bytes[base + 4..base + 6], &chroma[..]);
        if k > 1 {
            // the other slot still holds the frame before
            let other = FRAME_HEADER_SIZE + (1 - slot) * MAX_FRAME_SIZE;
            assert_eq!(&bytes[other..other + 4], &vec![k as u8 - 1; 4][..]);
        }
        let latest = buffer.latest().unwrap();
        assert_eq!(&latest.pixels[..4], &luma[..]);
    }
}

#[test]
fn resolution_may_change_between_frames() {
    let mut buffer = SharedFrameBuffer::create();
    let luma = vec![9u8; 16];
    let chroma = vec![8u8; 8];
    let big = DecodedFrame { width: 4, height: 4, luma: plane(&luma, 4, 4), chroma: plane(&chroma, 4, 2) };
    let small = DecodedFrame { width: 2, height: 2, luma: plane(&luma, 2, 2), chroma: plane(&chroma, 2, 1) };
    assert_eq!(buffer.publish(&big), PublishOutcome::Published);
    assert_eq!(buffer.latest().unwrap().pixels.len(), 24);
    assert_eq!(buffer.publish(&small), PublishOutcome::Published);
    let latest = buffer.latest().unwrap();
    assert_eq!((latest.width, latest.height), (2, 2));
    assert_eq!(latest.pixels.len(), 6);
}

#[test]
fn oversized_frame_is_dropped() {
    let mut buffer = SharedFrameBuffer::create();
    let data = vec![1u8; 16];
    let wide = DecodedFrame { width: 1921, height: 1, luma: plane(&data, 1921, 0), chroma: plane(&data, 1921, 0) };
    let high = DecodedFrame { width: 1, height: 1081, luma: plane(&data, 1, 0), chroma: plane(&data, 1, 0) };
    assert_eq!(buffer.publish(&wide), PublishOutcome::TooLarge);
    assert_eq!(buffer.publish(&high), PublishOutcome::TooLarge);
    assert_eq!(buffer.write_index(), 0);
    assert!(buffer.as_bytes().iter().all(|b| *b == 0));
}

#[test]
fn planes_that_do_not_fit_are_dropped() {
    let mut buffer = SharedFrameBuffer::create();
    let data = vec![1u8; 8];
    // luma says three rows of four bytes, only eight bytes are there
    let short = DecodedFrame { width: 4, height: 3, luma: plane(&data, 4, 3), chroma: plane(&data, 4, 1) };
    assert_eq!(buffer.publish(&short), PublishOutcome::BadPlanes);
    // rows beyond what a slot holds
    let tall = DecodedFrame { width: 1920, height: 1080, luma: Plane { data: None, stride: 1920, rows: 1080 }, chroma: Plane { data: None, stride: 1920, rows: 541 } };
    assert_eq!(buffer.publish(&tall), PublishOutcome::BadPlanes);
    // stride and rows whose product does not fit a machine word
    let huge = DecodedFrame { width: 4, height: 2, luma: plane(&data, usize::MAX, 2), chroma: plane(&data, 4, 1) };
    assert_eq!(buffer.publish(&huge), PublishOutcome::BadPlanes);
    assert_eq!(buffer.write_index(), 0);
    assert!(buffer.as_bytes().iter().all(|b| *b == 0));
}

#[test]
fn full_resolution_frame_fits() {
    let mut buffer = SharedFrameBuffer::create();
    let luma = vec![0x11u8; 1920 * 1080];
    let chroma = vec![0x22u8; 1920 * 540];
    let frame = DecodedFrame { width: 1920, height: 1080, luma: plane(&luma, 1920, 1080), chroma: plane(&chroma, 1920, 540) };
    assert_eq!(buffer.publish(&frame), PublishOutcome::Published);
    let latest = buffer.latest().unwrap();
    assert_eq!(latest.pixels.len(), MAX_FRAME_SIZE);
    assert!(latest.pixels[..1920 * 1080].iter().all(|b| *b == 0x11));
    assert!(latest.pixels[1920 * 1080..].iter().all(|b| *b == 0x22));
}

#[test]
fn plane_without_data_leaves_its_bytes_alone() {
    let mut buffer = SharedFrameBuffer::create();
    let chroma = vec![5u8, 6];
    let frame = DecodedFrame { width: 2, height: 2, luma: Plane { data: None, stride: 2, rows: 2 }, chroma: plane(&chroma, 2, 1) };
    assert_eq!(buffer.publish(&frame), PublishOutcome::Published);
    let bytes = buffer.as_bytes();
    assert_eq!(&bytes[64..70], &[0, 0, 0, 0, 5, 6]);
}

#[test]
fn region_of_wrong_size_is_refused() {
    let mut region = vec![0u8; 100];
    let data = vec![1u8; 4];
    let frame = DecodedFrame { width: 2, height: 2, luma: plane(&data, 2, 2), chroma: plane(&data, 2, 1) };
    assert_eq!(publish_into(&mut region, &frame), PublishOutcome::BadRegion);
    assert!(region.iter().all(|b| *b == 0));
    assert!(read_header(&region).is_none());
    assert!(latest_frame(&region).is_none());
}

#[test]
fn header_is_little_endian() {
    let mut region = vec![0u8; FRAME_SHM_SIZE];
    region[0..8].copy_from_slice(&[0x08, 0x07, 0x06, 0x05, 0x04, 0x03, 0x02, 0x01]);
    region[8..12].copy_from_slice(&[0x80, 0x07, 0, 0]);
    region[12..16].copy_from_slice(&[0x38, 0x04, 0, 0]);
    let header = read_header(&region).unwrap();
    assert_eq!(header.write_index, 0x0102030405060708);
    assert_eq!(header.width, 1920);
    assert_eq!(header.height, 1080);
}

#[test]
fn write_index_wraps_at_64_bits() {
    let mut region = vec![0u8; FRAME_SHM_SIZE];
    region[0..8].copy_from_slice(&[0xFF; 8]);
    let data = vec![3u8; 4];
    let frame = DecodedFrame { width: 2, height: 2, luma: plane(&data, 2, 2), chroma: plane(&data, 2, 1) };
    assert_eq!(publish_into(&mut region, &frame), PublishOutcome::Published);
    assert_eq!(read_header(&region).unwrap().write_index, 0);
    // the frame went to slot 1, the parity of the index before
    let base = FRAME_HEADER_SIZE + MAX_FRAME_SIZE;
    assert_eq!(&region[base..base + 6], &[3, 3, 3, 3, 3, 3]);
}

#[test]
fn reader_refuses_a_header_out_of_range() {
    let mut region = vec![0u8; FRAME_SHM_SIZE];
    region[0] = 1;
    region[8..12].copy_from_slice(&[0x81, 0x07, 0, 0]);
    region[12..16].copy_from_slice(&[0x38, 0x04, 0, 0]);
    assert!(latest_frame(&region).is_none());
}

#[test]
fn staged_frame_is_not_seen_until_committed() {
    let mut region = vec![0u8; FRAME_SHM_SIZE];
    let first = vec![1u8; 4];
    let second = vec![2u8; 4];
    let one = DecodedFrame { width: 2, height: 2, luma: plane(&first, 2, 2), chroma: plane(&first, 2, 1) };
    let two = DecodedFrame { width: 2, height: 2, luma: plane(&second, 2, 2), chroma: plane(&second, 2, 1) };
    assert_eq!(publish_into(&mut region, &one), PublishOutcome::Published);
    assert_eq!(stage_frame(&mut region, &two), PublishOutcome::Published);
    // the index has not moved and the reader's slot is untouched
    assert_eq!(read_header(&region).unwrap().write_index, 1);
    assert_eq!(latest_frame(&region).unwrap().pixels, &[1, 1, 1, 1, 1, 1]);
    assert!(commit_frame(&mut region));
    assert_eq!(read_header(&region).unwrap().write_index, 2);
    assert_eq!(latest_frame(&region).unwrap().pixels, &[2, 2, 2, 2, 2, 2]);
}

#[test]
fn commit_refuses_a_region_of_wrong_size() {
    let mut region = vec![0u8; 64];
    assert!(!commit_frame(&mut region));
    assert!(region.iter().all(|b| *b == 0));
}

#[test]
fn stage_drops_what_publish_drops() {
    let mut region = vec![0u8; FRAME_SHM_SIZE];
    let data = vec![1u8; 8];
    let wide = DecodedFrame { width: 1921, height: 1, luma: plane(&data, 1921, 0), chroma: plane(&data, 1921, 0) };
    let short = DecodedFrame { width: 4, height: 3, luma: plane(&data, 4, 3), chroma: plane(&data, 4, 1) };
    assert_eq!(stage_frame(&mut region, &wide), PublishOutcome::TooLarge);
    assert_eq!(stage_frame(&mut region, &short), PublishOutcome::BadPlanes);
    assert!(region.iter().all(|b| *b == 0));
}
