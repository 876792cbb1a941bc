use sbf2rnx::block::{SbfBlockTimestamp, MEAS_EPOCH};
use sbf2rnx::crc::crc16;
use sbf2rnx::cursor::ByteCursor;
use sbf2rnx::decode::{DecodedBlock, MeasEpoch, Measurement};
use sbf2rnx::encode::{encode_block, encode_frame};
use sbf2rnx::frame::{read_header, scan, FramingError, ScanItem};

fn ts(tow: u32, wnc: u16) -> SbfBlockTimestamp {
    SbfBlockTimestamp { tow, wnc }
}

fn end_of_meas(tow: u32, wnc: u16) -> Vec<u8> {
    encode_block(&DecodedBlock::EndOfMeasurement(ts(tow, wnc)))
}

#[test]
fn checksum_of_reference_string() {
    let data = b"123456789";
    assert_eq!(crc16(data, 0, data.len()), 0x31C3);
    assert_eq!(crc16(data, 0, 0), 0);
}

#[test]
fn encoded_block_layout() {
    let bytes = end_of_meas(100, 2200);
    assert_eq!(bytes.len(), 16);
    assert_eq!(&bytes[0..2], b"$@");
    let h = read_header(&bytes, 0).unwrap();
    assert_eq!(h.block_id(), 5922);
    assert_eq!(h.revision(), 0);
    assert_eq!(h.length, 16);
    assert_eq!(h.crc, crc16(&bytes, 4, 16));
    assert_eq!(&bytes[8..12], &100u32.to_le_bytes());
    assert_eq!(&bytes[12..14], &2200u16.to_le_bytes());
}

#[test]
fn empty_input_gives_nothing() {
    assert!(scan(&[]).is_empty());
    assert!(scan(&[0x24]).is_empty());
    assert!(scan(&[1, 2, 3, 4, 5]).is_empty());
}

#[test]
fn one_corrupted_payload_byte_is_a_crc_mismatch() {
    let good = end_of_meas(100, 2200);
    for j in 8..good.len() {
        let mut bad = good.clone();
        bad[j] ^= 0x5a;
        let items = scan(&bad);
        assert_eq!(items[0], ScanItem::Fault(FramingError::CrcMismatch, 0));
        assert!(items.iter().all(|it| !matches!(it, ScanItem::Block(_))));
    }
}

#[test]
fn garbage_between_blocks_is_skipped() {
    let mut stream: Vec<u8> = vec![0x00, 0x24, 0x41, 0x40];
    for k in 0..3u32 {
        stream.extend(end_of_meas(100 + k, 2200));
        stream.extend([0x13, 0x40, 0x24, 0x24, 0xff]);
    }
    let items = scan(&stream);
    assert_eq!(items.len(), 3);
    for (k, it) in items.iter().enumerate() {
        match it {
            ScanItem::Block(b) => {
                assert_eq!(b.id, 5922);
                assert_eq!(&b.payload[0..4], &(100 + k as u32).to_le_bytes());
            }
            other => panic!("unexpected {:?}", other),
        }
    }
}

#[test]
fn truncated_last_block_is_reported() {
    let mut stream = end_of_meas(100, 2200);
    stream.extend(end_of_meas(200, 2200));
    let full = encode_block(&DecodedBlock::Measurement(MeasEpoch {
        timestamp: ts(300, 2200),
        common_flags: 0,
        measurements: vec![Measurement { svid: 5, signal: 0, code: 1, doppler: 2, cn0: 3, lock_time: 4 }],
    }));
    let start = stream.len();
    stream.extend(&full[..full.len() - 7]);
    let items = scan(&stream);
    assert!(matches!(&items[0], ScanItem::Block(b) if b.id == 5922));
    assert!(matches!(&items[1], ScanItem::Block(b) if b.id == 5922));
    assert_eq!(items[2], ScanItem::Fault(FramingError::Truncated, start));
    assert!(items[3..].iter().all(|it| !matches!(it, ScanItem::Block(_))));
    assert_eq!(MEAS_EPOCH, 4027);
}

#[test]
fn short_header_is_truncated() {
    let items = scan(&[0x24, 0x40, 1, 2, 3]);
    assert_eq!(items, vec![ScanItem::Fault(FramingError::Truncated, 0)]);
}

#[test]
fn bad_length_is_invalid() {
    let mut bytes = end_of_meas(100, 2200);
    bytes[6] = 15;
    let items = scan(&bytes);
    assert_eq!(items[0], ScanItem::Fault(FramingError::InvalidLength, 0));
    let mut short = end_of_meas(100, 2200);
    short[6] = 4;
    assert_eq!(scan(&short)[0], ScanItem::Fault(FramingError::InvalidLength, 0));
}

#[test]
fn frame_written_by_hand() {
    let payload = vec![1u8, 2, 3, 4, 5, 6, 7, 8];
    let bytes = encode_frame(9999, &payload);
    let items = scan(&bytes);
    match &items[0] {
        ScanItem::Block(b) => {
            assert_eq!(b.id, 9999 % 8192);
            assert_eq!(b.revision, 1);
            assert_eq!(b.length, 16);
            assert_eq!(b.payload, payload);
        }
        other => panic!("unexpected {:?}", other),
    }
}

#[test]
fn cursor_peeks_and_advances() {
    let data = [1u8, 2, 3, 4, 5];
    let mut c = ByteCursor::new(&data);
    assert_eq!(c.peek(2), Ok(&data[0..2]));
    assert_eq!(c.position(), 0);
    c.advance(3);
    assert_eq!(c.position(), 3);
    assert_eq!(c.remaining(), 2);
    assert_eq!(c.peek(3), Err(FramingError::Truncated));
    assert_eq!(c.peek(2), Ok(&data[3..5]));
}

#[test]
fn unknown_block_then_arbitrary_bytes() {
    use_unknown_then_rest();
}

fn use_unknown_then_rest() {
    let u = encode_block(&sbf2rnx::decode::DecodedBlock::Unknown(sbf2rnx::frame::RawBlock {
        id: 7777,
        revision: 0,
        length: 12,
        payload: vec![1, 2, 3, 4],
    }));
    let rest = vec![0x24, 0x40, 1, 2, 3, 0x24, 0x40, 0xff, 0xff, 0xff, 0xff];
    let mut s = u.clone();
    s.extend(&rest);
    let items = scan(&s);
    let tail = scan(&rest);
    assert!(matches!(&items[0], ScanItem::Block(b) if b.id == 7777));
    assert_eq!(items.len(), tail.len() + 1);
    for (a, b) in items[1..].iter().zip(tail.iter()) {
        match (a, b) {
            (ScanItem::Fault(e1, pos_a), ScanItem::Fault(e2, pos_b)) => {
                assert_eq!(e1, e2);
                assert_eq!(*pos_a, pos_b + u.len());
            }
            other => panic!("unexpected {:?}", other),
        }
    }
}
