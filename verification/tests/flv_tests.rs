use bytes::Bytes;
use rtmp_vcam::flv::{parse_video_data, AvcDecoderConfig, VideoPacket};

fn frame_sets(sets: &[Vec<u8>]) -> Vec<u8> {
    let mut out = Vec::new();
    for set in sets {
        out.push((set.len() / 256) as u8);
        out.push((set.len() % 256) as u8);
        out.extend_from_slice(set);
    }
    out
}

fn sequence_header(size_byte: u8, sps: &[Vec<u8>], pps: &[Vec<u8>]) -> Vec<u8> {
    let mut buf = vec![0x17, 0x00, 0x00, 0x00, 0x00, 0x01, 0x64, 0x00, 0x1F, size_byte];
    buf.push(0xE0 | sps.len() as u8);
    buf.extend_from_slice(&frame_sets(sps));
    buf.push(pps.len() as u8);
    buf.extend_from_slice(&frame_sets(pps));
    buf
}

fn expect_config(packet: VideoPacket) -> AvcDecoderConfig {
    match packet {
        VideoPacket::SequenceHeader(config) => config,
        other => panic!("expected SequenceHeader, got {:?}", other),
    }
}

#[test]
fn test_parse_non_avc() {
    let data = Bytes::from_static(&[0x22, 0x00]); // codec_id = 2 (Sorenson H.263)
    assert!(matches!(parse_video_data(&data, 0), VideoPacket::Unsupported));
}

#[test]
fn test_parse_end_of_sequence() {
    // frame_type=1 (keyframe) | codec_id=7 (AVC), packet_type=2 (end of seq)
    let data = Bytes::from_static(&[0x17, 0x02]);
    assert!(matches!(parse_video_data(&data, 0), VideoPacket::EndOfSequence));
}

#[test]
fn test_parse_sequence_header() {
    // Minimal AVCDecoderConfigurationRecord
    let mut buf = vec![
        0x17, // keyframe + AVC
        0x00, // sequence header
        0x00, 0x00, 0x00, // composition time
        // AVCDecoderConfigurationRecord:
        0x01, // version
        0x64, // profile (High)
        0x00, // profile compat
        0x1F, // level 3.1
        0xFF, // nalu_length_size = 4
        0xE1, // num_sps = 1
    ];
    // SPS: 4 bytes
    buf.extend_from_slice(&[0x00, 0x04]); // sps_length = 4
    buf.extend_from_slice(&[0x67, 0x64, 0x00, 0x1F]); // SPS data
    // PPS
    buf.push(0x01); // num_pps = 1
    buf.extend_from_slice(&[0x00, 0x03]); // pps_length = 3
    buf.extend_from_slice(&[0x68, 0xEB, 0xE3]); // PPS data

    let data = Bytes::from(buf);
    match parse_video_data(&data, 0) {
        VideoPacket::SequenceHeader(config) => {
            assert_eq!(config.sps.len(), 1);
            assert_eq!(config.pps.len(), 1);
            assert_eq!(config.nalu_length_size, 4);
            assert_eq!(config.sps[0], &[0x67, 0x64, 0x00, 0x1F]);
            assert_eq!(config.pps[0], &[0x68, 0xEB, 0xE3]);
        }
        other => panic!("expected SequenceHeader, got {:?}", other),
    }
}

#[test]
fn test_parse_nalu_data() {
    let mut buf = vec![
        0x27, // inter frame + AVC
        0x01, // NALU
        0x00, 0x00, 0x00, // composition time
    ];
    // First NAL unit: 5 bytes
    buf.extend_from_slice(&[0x00, 0x00, 0x00, 0x05]);
    buf.extend_from_slice(&[0x65, 0x88, 0x80, 0x40, 0x00]);
    // Second NAL unit: 3 bytes
    buf.extend_from_slice(&[0x00, 0x00, 0x00, 0x03]);
    buf.extend_from_slice(&[0x06, 0x05, 0x00]);

    let data = Bytes::from(buf);
    match parse_video_data(&data, 100) {
        VideoPacket::NaluData { avcc_payload, timestamp } => {
            assert_eq!(timestamp, 100);
            // AVCC payload should contain both NAL units with length prefixes
            let expected: &[u8] = &[
                0x00, 0x00, 0x00, 0x05, 0x65, 0x88, 0x80, 0x40, 0x00,
                0x00, 0x00, 0x00, 0x03, 0x06, 0x05, 0x00,
            ];
            assert_eq!(&avcc_payload[..], expected);
        }
        other => panic!("expected NaluData, got {:?}", other),
    }
}

#[test]
fn empty_and_one_byte_bodies_are_unsupported() {
    assert!(matches!(parse_video_data(&Bytes::new(), 0), VideoPacket::Unsupported));
    assert!(matches!(parse_video_data(&Bytes::from_static(&[0x17]), 0), VideoPacket::Unsupported));
}

#[test]
fn every_other_codec_nibble_is_unsupported() {
    for nibble in 0u8..16 {
        if nibble == 7 {
            continue;
        }
        for packet_type in 0u8..4 {
            let data = Bytes::from(vec![0x10 | nibble, packet_type, 0, 0, 0, 1, 2, 3]);
            assert!(matches!(parse_video_data(&data, 9), VideoPacket::Unsupported));
        }
    }
}

#[test]
fn end_of_sequence_ignores_trailing_bytes() {
    for extra in [0usize, 1, 3, 4, 64, 1000] {
        let mut buf = vec![0x27, 0x02];
        buf.extend(std::iter::repeat(0xAB).take(extra));
        assert!(matches!(parse_video_data(&Bytes::from(buf), 5), VideoPacket::EndOfSequence));
    }
}

#[test]
fn unknown_packet_type_is_unsupported() {
    for packet_type in [3u8, 4, 0x7F, 0xFF] {
        let data = Bytes::from(vec![0x17, packet_type, 0, 0, 0, 1, 2, 3]);
        assert!(matches!(parse_video_data(&data, 0), VideoPacket::Unsupported));
    }
}

#[test]
fn nalu_payload_is_the_tail_after_five_bytes() {
    for total in [5usize, 6, 7, 21, 300] {
        let buf: Vec<u8> = (0..total).map(|i| if i == 0 { 0x17 } else if i == 1 { 0x01 } else { (i * 7) as u8 }).collect();
        let data = Bytes::from(buf.clone());
        match parse_video_data(&data, 0xFFFF_FFFF) {
            VideoPacket::NaluData { avcc_payload, timestamp } => {
                assert_eq!(timestamp, 0xFFFF_FFFF);
                assert_eq!(avcc_payload.len(), total - 5);
                assert_eq!(&avcc_payload[..], &buf[5..]);
            }
            other => panic!("expected NaluData, got {:?}", other),
        }
    }
}

#[test]
fn nalu_packet_shorter_than_its_prefix_is_unsupported() {
    for total in 2usize..5 {
        let mut buf = vec![0x17, 0x01];
        buf.resize(total, 0);
        assert!(matches!(parse_video_data(&Bytes::from(buf), 0), VideoPacket::Unsupported));
    }
}

#[test]
fn nalu_packet_of_five_bytes_forwards_nothing() {
    let data = Bytes::from_static(&[0x17, 0x01, 0, 0, 0]);
    match parse_video_data(&data, 7) {
        VideoPacket::NaluData { avcc_payload, timestamp } => {
            assert_eq!(avcc_payload.len(), 0);
            assert_eq!(timestamp, 7);
        }
        other => panic!("expected NaluData, got {:?}", other),
    }
}

#[test]
fn sequence_header_without_room_for_its_record_is_unsupported() {
    for total in 2usize..11 {
        let mut buf = vec![0x17, 0x00];
        buf.resize(total, 1);
        assert!(matches!(parse_video_data(&Bytes::from(buf), 0), VideoPacket::Unsupported));
    }
}

#[test]
fn length_size_byte_ff_means_four() {
    let sps = vec![vec![0x67, 0x01]];
    let pps = vec![vec![0x68]];
    let config = expect_config(parse_video_data(&Bytes::from(sequence_header(0xFF, &sps, &pps)), 0));
    assert_eq!(config.nalu_length_size, 4);
}

#[test]
fn length_size_uses_low_two_bits_only() {
    let sps = vec![vec![0x67]];
    let pps = vec![vec![0x68]];
    for (byte, expected) in [(0x00u8, 1u8), (0xFC, 1), (0x01, 2), (0xFD, 2), (0xFE, 3), (0x03, 4), (0x17, 4)] {
        let config = expect_config(parse_video_data(&Bytes::from(sequence_header(byte, &sps, &pps)), 0));
        assert_eq!(config.nalu_length_size, expected);
    }
}

#[test]
fn sequence_header_round_trips_many_sets() {
    let sps: Vec<Vec<u8>> = (0..31).map(|i| (0..(i * 3) as usize).map(|j| (i + j) as u8).collect()).collect();
    let pps: Vec<Vec<u8>> = (0..255).map(|i| vec![i as u8; (i % 5) as usize]).collect();
    let tag = sequence_header(0xFD, &sps, &pps);
    let config = expect_config(parse_video_data(&Bytes::from(tag.clone()), 0));
    assert_eq!(config.sps, sps);
    assert_eq!(config.pps, pps);
    assert_eq!(config.nalu_length_size, 2);
    // framing the parsed sets again gives the bytes they were read from
    let mut body = frame_sets(&config.sps);
    body.push(config.pps.len() as u8);
    body.extend_from_slice(&frame_sets(&config.pps));
    assert_eq!(&tag[11..], &body[..]);
}

#[test]
fn sequence_header_with_long_set() {
    let sps = vec![vec![0x5A; 65535]];
    let pps = vec![vec![0xA5; 256]];
    let config = expect_config(parse_video_data(&Bytes::from(sequence_header(0xFF, &sps, &pps)), 0));
    assert_eq!(config.sps, sps);
    assert_eq!(config.pps, pps);
}

#[test]
fn sequence_header_without_sets() {
    let config = expect_config(parse_video_data(&Bytes::from(sequence_header(0xFF, &[], &[])), 0));
    assert!(config.sps.is_empty());
    assert!(config.pps.is_empty());
}

#[test]
fn sequence_header_ignores_bytes_after_the_last_pps() {
    let sps = vec![vec![1, 2, 3]];
    let pps = vec![vec![4, 5]];
    let mut tag = sequence_header(0xFF, &sps, &pps);
    tag.extend_from_slice(&[9, 9, 9, 9]);
    let config = expect_config(parse_video_data(&Bytes::from(tag), 0));
    assert_eq!(config.sps, sps);
    assert_eq!(config.pps, pps);
}

#[test]
fn every_truncation_of_a_sequence_header_is_unsupported() {
    let sps = vec![vec![0x67, 0x64, 0x00, 0x1F], vec![0x67, 0x42]];
    let pps = vec![vec![0x68, 0xEB, 0xE3], vec![0x68]];
    let tag = sequence_header(0xFF, &sps, &pps);
    for cut in 2..tag.len() {
        let data = Bytes::from(tag[..cut].to_vec());
        assert!(
            matches!(parse_video_data(&data, 0), VideoPacket::Unsupported),
            "cut at {}",
            cut
        );
    }
    assert!(matches!(parse_video_data(&Bytes::from(tag), 0), VideoPacket::SequenceHeader(_)));
}

#[test]
fn length_field_past_the_end_is_unsupported() {
    // SPS length says 0x0400 bytes, only four follow
    let mut tag = vec![0x17, 0x00, 0, 0, 0, 0x01, 0x64, 0x00, 0x1F, 0xFF, 0xE1];
    tag.extend_from_slice(&[0x04, 0x00, 1, 2, 3, 4]);
    assert!(matches!(parse_video_data(&Bytes::from(tag), 0), VideoPacket::Unsupported));
    // PPS length says 3 bytes, two follow
    let mut tag = vec![0x17, 0x00, 0, 0, 0, 0x01, 0x64, 0x00, 0x1F, 0xFF, 0xE1];
    tag.extend_from_slice(&[0x00, 0x01, 0x67, 0x01, 0x00, 0x03, 0x68, 0xEB]);
    assert!(matches!(parse_video_data(&Bytes::from(tag), 0), VideoPacket::Unsupported));
}

#[test]
fn wrong_record_version_is_unsupported() {
    let mut tag = sequence_header(0xFF, &[vec![1]], &[vec![2]]);
    for version in [0u8, 2, 0xFF] {
        tag[5] = version;
        assert!(matches!(parse_video_data(&Bytes::from(tag.clone()), 0), VideoPacket::Unsupported));
    }
}

#[test]
fn sps_count_uses_low_five_bits_only() {
    // count byte 0x22: low five bits say two
    let mut tag = vec![0x17, 0x00, 0, 0, 0, 0x01, 0x64, 0x00, 0x1F, 0xFF, 0x22];
    tag.extend_from_slice(&[0x00, 0x01, 0xAA, 0x00, 0x02, 0xBB, 0xCC, 0x00]);
    let config = expect_config(parse_video_data(&Bytes::from(tag), 0));
    assert_eq!(config.sps, vec![vec![0xAA], vec![0xBB, 0xCC]]);
    assert!(config.pps.is_empty());
}
