use rome::bytes::run_length;
use rome::cobs::{cobs_decode, cobs_encode};
use rome::crc::crc8;
use rome::le::{read_u16, read_u32, u16_bytes, u32_bytes};
use rome::packet::{build_packet, parse_response};
use rome::serial::{FrameBuffer, Poll};

#[test]
fn crc8_empty() {
    assert_eq!(crc8(&[]), 0);
}

#[test]
fn cobs_roundtrip_with_zero() {
    let data = [0x51, 0x01, 0x52, 0x00u8];
    let encoded = cobs_encode(&data);
    assert!(!encoded[..encoded.len() - 1].contains(&0));
    assert_eq!(encoded.last(), Some(&0));
    assert_eq!(cobs_decode(&encoded), data);
}

#[test]
fn cobs_roundtrip_all_nonzero() {
    let data = [1u8, 2, 3, 4, 5];
    assert_eq!(cobs_decode(&cobs_encode(&data)), data);
}

#[test]
fn cobs_roundtrip_leading_zero() {
    let data = [0u8, 1, 2];
    assert_eq!(cobs_decode(&cobs_encode(&data)), data);
}

#[test]
fn packet_parses_back() {
    let pkt = build_packet(0x53, &[0x01, 0x00, 0x00, 0x00], 1);
    let resp = parse_response(&pkt).expect("parse failed");
    assert_eq!(resp.cmd, 0x53);
    assert!(resp.crc_ok);
    assert_eq!(resp.payload, &[0x01, 0x00, 0x00, 0x00]);
}

#[test]
fn crc8_known_values() {
    assert_eq!(crc8(&[0]), 0xEA);
    assert_eq!(crc8(&[1, 2, 3]), 170);
    assert_eq!(crc8(&[0x51, 1, 0x52, 0]), 0xC0);
}

#[test]
fn crc8_shows_one_changed_byte() {
    let data = [9u8, 8, 7, 6, 5];
    for i in 0..data.len() {
        for b in 0..=255u8 {
            let mut changed = data;
            changed[i] = b;
            assert_eq!(crc8(&changed) == crc8(&data), b == data[i]);
        }
    }
}

#[test]
fn cobs_known_frames() {
    assert_eq!(cobs_encode(&[]), [1, 0]);
    assert_eq!(cobs_encode(&[0]), [1, 1, 0]);
    assert_eq!(cobs_encode(&[1, 2, 0, 3]), [3, 1, 2, 2, 3, 0]);
    assert_eq!(cobs_decode(&[3, 1, 2, 2, 3, 0]), [1, 2, 0, 3]);
}

#[test]
fn cobs_decodes_odd_frames() {
    assert_eq!(cobs_decode(&[]), []);
    assert_eq!(cobs_decode(&[9, 1, 2]), [1, 2]);
    assert_eq!(cobs_decode(&[2, 7, 0, 2, 8, 0]), [7, 0]);
}

#[test]
fn cobs_longest_run_that_survives() {
    let fits = vec![5u8; 254];
    assert_eq!(cobs_decode(&cobs_encode(&fits)), fits);
    let too_long = vec![5u8; 255];
    assert_ne!(cobs_decode(&cobs_encode(&too_long)), too_long);
}

#[test]
fn packet_bytes() {
    assert_eq!(build_packet(0x52, &[], 1), [4, 0x51, 1, 0x52, 2, 0xC0, 0]);
    assert_eq!(build_packet(0x46, &[], 2), [4, 0x51, 2, 0x46, 2, 0x41, 0]);
}

#[test]
fn longest_short_packet_parses_back() {
    let payload = vec![0xAAu8; 249];
    let resp = parse_response(&build_packet(0x45, &payload, 255)).expect("parse failed");
    assert_eq!((resp.cmd, resp.crc_ok, resp.payload), (0x45, true, payload));
}

#[test]
fn damaged_packet_shows() {
    let mut pkt = build_packet(0x53, &[1, 2, 3], 4);
    pkt[5] ^= 0x40;
    let resp = parse_response(&pkt).expect("parse failed");
    assert!(!resp.crc_ok);
}

#[test]
fn short_packets_are_no_responses() {
    assert!(parse_response(&[]).is_none());
    assert!(parse_response(&cobs_encode(&[0x51, 1, 0x53, 0])).is_none());
    assert!(parse_response(&cobs_encode(&[0x51, 1, 0x53, 2, 9, 9])).is_none());
}

#[test]
fn runs_of_nonzero_bytes() {
    assert_eq!(run_length(&[]), 0);
    assert_eq!(run_length(&[0, 1]), 0);
    assert_eq!(run_length(&[3, 1, 0, 2]), 2);
    assert_eq!(run_length(&[3, 1]), 2);
}

#[test]
fn integers_read_back() {
    assert_eq!(u16_bytes(0x1234), [0x34, 0x12]);
    assert_eq!(u32_bytes(0x1234_5678), [0x78, 0x56, 0x34, 0x12]);
    assert_eq!(read_u16(&[9, 0x34, 0x12], 1), 0x1234);
    assert_eq!(read_u32(&[9, 0x78, 0x56, 0x34, 0x12], 1), 0x1234_5678);
    assert_eq!(read_u32(&u32_bytes(u32::MAX), 0), u32::MAX);
}

#[test]
fn frames_are_cut_out_in_order() {
    let mut b = FrameBuffer::new();
    b.extend(&[1, 2]);
    assert!(b.take_frame().is_none());
    b.extend(&[0, 3, 0, 4]);
    assert_eq!(b.take_frame(), Some(vec![1, 2, 0]));
    assert_eq!(b.take_frame(), Some(vec![3, 0]));
    assert_eq!(b.take_frame(), None);
    assert_eq!(b.bytes, [4]);
    b.drain();
    assert!(b.bytes.is_empty());
}

#[test]
fn polling_reads_in_slices() {
    let mut b = FrameBuffer::new();
    assert!(matches!(b.poll(0), Poll::TimedOut));
    assert!(matches!(b.poll(7), Poll::Read { timeout_ns: 7 }));
    assert!(matches!(b.poll(3_000_000_000), Poll::Read { timeout_ns: 50_000_000 }));
    b.extend(&[5, 0, 6]);
    match b.poll(0) {
        Poll::Frame(frame) => assert_eq!(frame, [5, 0]),
        other => panic!("{:?}", other),
    }
    assert_eq!(b.bytes, [6]);
}

#[test]
fn encoded_frame_is_cut_out_whole() {
    let frame = cobs_encode(&[1, 0, 0, 2]);
    let mut b = FrameBuffer::new();
    b.extend(&frame);
    b.extend(&[0, 0, 7]);
    assert_eq!(b.take_frame(), Some(frame));
}
