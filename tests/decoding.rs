use sbf2rnx::block::{category_of, read_block_head, Category, DecodeError, SbfBlockTimestamp, GPS_NAV};
use sbf2rnx::convert::{decode_frame, Error};
use sbf2rnx::decode::{
    decode_galalm, decode_galion, decode_galnav, decode_galutc, decode_georaw, decode_glonav,
    decode_glorawcanav, decode_gpsalm, decode_gpsion, decode_gpsnav, decode_gpsrawcanav,
    decode_gpsutc, decode_measepoch, decode_sbasnav, decode_sbf, word_count, DecodedBlock,
    MeasEpoch, Measurement, NavKind, NavMessage, PvtRecord, decode_pvt,
};
use sbf2rnx::encode::{encode_block, encode_frame, encode_payload};
use sbf2rnx::frame::{FramingError, RawBlock};

fn ts(tow: u32, wnc: u16) -> SbfBlockTimestamp {
    SbfBlockTimestamp { tow, wnc }
}

fn nav(kind: NavKind, svid: u8) -> NavMessage {
    let n = word_count(kind);
    NavMessage { kind, timestamp: ts(5000, 2201), svid, words: (0..n as u32).map(|i| i * 0x01010101 + 7).collect() }
}

fn all_kinds() -> Vec<NavKind> {
    vec![
        NavKind::GpsNav,
        NavKind::GalNav,
        NavKind::GloNav,
        NavKind::SbasNav,
        NavKind::GpsRawCa,
        NavKind::GeoRaw,
        NavKind::GloRawCa,
        NavKind::GpsIon,
        NavKind::GalIon,
        NavKind::GpsUtc,
        NavKind::GpsAlm,
        NavKind::GalUtc,
        NavKind::GalAlm,
    ]
}

#[test]
fn round_trip_every_category() {
    let mut blocks = vec![
        DecodedBlock::Measurement(MeasEpoch {
            timestamp: ts(100, 2200),
            common_flags: 9,
            measurements: vec![
                Measurement { svid: 5, signal: 0, code: 0xdeadbeef, doppler: 77, cn0: 40, lock_time: 600 },
                Measurement { svid: 12, signal: 31, code: 1, doppler: u32::MAX, cn0: 0, lock_time: 65535 },
            ],
        }),
        DecodedBlock::Measurement(MeasEpoch { timestamp: ts(u32::MAX, u16::MAX), common_flags: 0, measurements: vec![] }),
        DecodedBlock::EndOfMeasurement(ts(100, 2200)),
        DecodedBlock::EndOfPvt(ts(100, 2200)),
        DecodedBlock::Auxiliary { category: Category::ReceiverStatus, id: 4014, timestamp: ts(1, 2) },
        DecodedBlock::Pvt(PvtRecord { id: 4006, timestamp: ts(1, 2), mode: 4, error: 0, words: vec![1, 2, 3, 0xffff_ffff] }),
        DecodedBlock::Pvt(PvtRecord { id: 4007, timestamp: ts(1, 2), mode: 0, error: 3, words: vec![] }),
        DecodedBlock::Auxiliary { category: Category::Measurement, id: 4109, timestamp: ts(1, 2) },
        DecodedBlock::Unknown(RawBlock { id: 7777, revision: 3, length: 20, payload: vec![9; 12] }),
    ];
    for k in all_kinds() {
        blocks.push(DecodedBlock::Navigation(nav(k, 5)));
    }
    for b in blocks {
        let bytes = encode_block(&b);
        assert_eq!(bytes.len() % 4, 0);
        assert_eq!(decode_frame(&bytes), Ok(b));
    }
}

#[test]
fn encoded_payload_is_not_the_block_copied() {
    let m = nav(NavKind::GpsIon, 3);
    let p = encode_payload(&DecodedBlock::Navigation(m));
    assert_eq!(p.len(), 8 + 4 * 8);
    assert_eq!(p[6], 3);
    assert_eq!(&p[8..12], &7u32.to_le_bytes());
}

#[test]
fn each_navigation_decoder_reads_its_words() {
    let decoders: Vec<(NavKind, fn(u8, &[u8]) -> Result<NavMessage, DecodeError>)> = vec![
        (NavKind::GpsNav, decode_gpsnav),
        (NavKind::GalNav, decode_galnav),
        (NavKind::GloNav, decode_glonav),
        (NavKind::SbasNav, decode_sbasnav),
        (NavKind::GpsRawCa, decode_gpsrawcanav),
        (NavKind::GeoRaw, decode_georaw),
        (NavKind::GloRawCa, decode_glorawcanav),
        (NavKind::GpsIon, decode_gpsion),
        (NavKind::GalIon, decode_galion),
        (NavKind::GpsUtc, decode_gpsutc),
        (NavKind::GpsAlm, decode_gpsalm),
        (NavKind::GalUtc, decode_galutc),
        (NavKind::GalAlm, decode_galalm),
    ];
    for (k, f) in decoders {
        let m = nav(k, 17);
        let p = encode_payload(&DecodedBlock::Navigation(m.clone()));
        assert_eq!(f(0, &p), Ok(m));
        assert_eq!(f(0, &p[..p.len() - 1]), Err(DecodeError::TooShort));
        assert_eq!(f(1, &p), Err(DecodeError::UnsupportedRevision));
        assert_eq!(f(7, &p), Err(DecodeError::UnsupportedRevision));
    }
}

#[test]
fn word_counts() {
    assert_eq!(word_count(NavKind::GpsNav), 31);
    assert_eq!(word_count(NavKind::GloRawCa), 3);
    assert_eq!(word_count(NavKind::GeoRaw), 8);
}

#[test]
fn partial_timestamp_is_refused() {
    let mut p = vec![0u8; 8 + 4 * 31];
    p[0..4].copy_from_slice(&u32::MAX.to_le_bytes());
    p[4..6].copy_from_slice(&2200u16.to_le_bytes());
    assert_eq!(decode_gpsnav(0, &p), Err(DecodeError::PartialTimestamp));
    p[4..6].copy_from_slice(&u16::MAX.to_le_bytes());
    assert!(decode_gpsnav(0, &p).is_ok());
}

#[test]
fn short_payload_is_refused() {
    assert_eq!(decode_gpsnav(0, &[1, 2, 3]), Err(DecodeError::TooShort));
    assert_eq!(decode_measepoch(0, &[0, 0, 0, 0, 0, 0, 1]), Err(DecodeError::TooShort));
}

#[test]
fn small_sub_block_length_is_refused() {
    let p = [100u8, 0, 0, 0, 0x98, 0x08, 0, 19, 0, 0, 0, 0];
    assert_eq!(decode_measepoch(0, &p), Err(DecodeError::BadSubBlockLength));
}

#[test]
fn missing_sub_block_is_too_short() {
    let p = [100u8, 0, 0, 0, 0x98, 0x08, 1, 20, 0, 0, 0, 0, 1, 2, 3];
    assert_eq!(decode_measepoch(0, &p), Err(DecodeError::TooShort));
}

#[test]
fn type2_sub_blocks_are_skipped() {
    let mut p = vec![100u8, 0, 0, 0, 0x98, 0x08, 2, 20, 8, 1, 0, 0];
    let mut first = vec![0u8; 20];
    first[1] = 0x21;
    first[2] = 7;
    first[15] = 45;
    first[19] = 2;
    p.extend(&first);
    p.extend(vec![0xee; 16]);
    let mut second = vec![0u8; 20];
    second[2] = 9;
    second[4] = 1;
    p.extend(&second);
    assert_eq!(decode_measepoch(1, &p), Err(DecodeError::UnsupportedRevision));
    let e = decode_measepoch(0, &p).unwrap();
    assert_eq!(e.timestamp, SbfBlockTimestamp { tow: 100, wnc: 2200 });
    assert_eq!(e.common_flags, 1);
    assert_eq!(e.measurements.len(), 2);
    assert_eq!(e.measurements[0].svid, 7);
    assert_eq!(e.measurements[0].signal, 1);
    assert_eq!(e.measurements[0].cn0, 45);
    assert_eq!(e.measurements[1].svid, 9);
    assert_eq!(e.measurements[1].code, 1);
    let truncated = &p[..p.len() - 21];
    assert_eq!(decode_measepoch(0, truncated), Err(DecodeError::TooShort));
}

#[test]
fn unsupported_revision_is_refused() {
    let raw = RawBlock { id: GPS_NAV, revision: 2, length: 16, payload: vec![0; 8] };
    assert_eq!(decode_sbf(&raw), Err(DecodeError::UnsupportedRevision));
    let bytes = encode_frame(GPS_NAV + 8192 * 2, &vec![0; 8]);
    assert_eq!(decode_frame(&bytes), Err(Error::Decode(DecodeError::UnsupportedRevision)));
}

#[test]
fn unknown_identifier_is_kept() {
    assert_eq!(category_of(7777), Category::Unknown);
    assert_eq!(category_of(9999 % 8192), Category::Unknown);
    let raw = RawBlock { id: 7777, revision: 5, length: 12, payload: vec![1, 2, 3, 4] };
    assert_eq!(decode_sbf(&raw), Ok(DecodedBlock::Unknown(raw.clone())));
}

#[test]
fn registry_categories() {
    assert_eq!(category_of(4027), Category::Measurement);
    assert_eq!(category_of(5922), Category::EndOfMeasurement);
    assert_eq!(category_of(5891), Category::NavigationMessage);
    assert_eq!(category_of(4017), Category::RawNavigation);
    assert_eq!(category_of(5924), Category::ExternalEvent);
    assert_eq!(category_of(5921), Category::EndOfPvt);
}

#[test]
fn decode_frame_errors() {
    assert_eq!(decode_frame(&[1, 2, 3]), Err(Error::NoSync));
    assert_eq!(decode_frame(&[]), Err(Error::NoSync));
    assert_eq!(decode_frame(&[0x24, 0x40, 0, 0]), Err(Error::Framing(FramingError::Truncated)));
}

#[test]
fn block_head_and_timestamp_order() {
    use_block_head();
    assert!(ts(100, 2200).before(&ts(50, 2201)));
    assert!(ts(100, 2200).before(&ts(101, 2200)));
    assert!(!ts(100, 2200).before(&ts(100, 2200)));
    assert!(!ts(5, 2201).before(&ts(100, 2200)));
}

fn use_block_head() {
    let bytes = encode_block(&DecodedBlock::EndOfPvt(ts(123456, 2210)));
    let head = read_block_head(&bytes, 0).unwrap();
    assert_eq!(head.header.block_id(), 5921);
    assert_eq!(head.header.length, 16);
    assert_eq!(head.header.sync, [0x24, 0x40]);
    assert_eq!(head.timestamp, ts(123456, 2210));
    assert!(read_block_head(&bytes[..13], 0).is_none());
}

#[test]
fn position_payload_words() {
    let p = [100u8, 0, 0, 0, 0x98, 0x08, 4, 1, 1, 0, 0, 0, 2, 0, 0, 0, 9, 9];
    let r = decode_pvt(4006, 0, &p).unwrap();
    assert_eq!(r.mode, 4);
    assert_eq!(r.error, 1);
    assert_eq!(r.words, vec![1, 2]);
    assert_eq!(decode_pvt(4006, 1, &p), Err(DecodeError::UnsupportedRevision));
    assert_eq!(decode_pvt(4006, 0, &p[..7]), Err(DecodeError::TooShort));
}
