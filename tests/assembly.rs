use sbf2rnx::block::{Category, SbfBlockTimestamp};
use sbf2rnx::convert::{convert, AssemblyError, Error};
use sbf2rnx::decode::{word_count, DecodedBlock, MeasEpoch, Measurement, NavKind, NavMessage, PvtRecord};
use sbf2rnx::encode::{encode_block, encode_frame};
use sbf2rnx::frame::RawBlock;

fn ts(tow: u32, wnc: u16) -> SbfBlockTimestamp {
    SbfBlockTimestamp { tow, wnc }
}

fn meas(svid: u8, signal: u8, code: u32) -> Measurement {
    Measurement { svid, signal, code, doppler: 0, cn0: 40, lock_time: 10 }
}

fn epoch(tow: u32, wnc: u16, ms: Vec<Measurement>) -> Vec<u8> {
    encode_block(&DecodedBlock::Measurement(MeasEpoch { timestamp: ts(tow, wnc), common_flags: 0, measurements: ms }))
}

fn end(tow: u32, wnc: u16) -> Vec<u8> {
    encode_block(&DecodedBlock::EndOfMeasurement(ts(tow, wnc)))
}

fn gps_nav(svid: u8, first_word: u32) -> Vec<u8> {
    let mut words = vec![0u32; word_count(NavKind::GpsNav)];
    words[0] = first_word;
    encode_block(&DecodedBlock::Navigation(NavMessage { kind: NavKind::GpsNav, timestamp: ts(100, 2200), svid, words }))
}

#[test]
fn example_scenario() {
    let mut s = epoch(100, 2200, vec![meas(5, 0, 1)]);
    s.extend(end(100, 2200));
    s.extend(gps_nav(5, 42));
    let (model, diag) = convert(&s);
    let model = model.unwrap();
    assert_eq!(model.epochs.len(), 1);
    assert_eq!(model.epochs[0].timestamp, ts(100, 2200));
    assert_eq!(model.epochs[0].measurements, vec![meas(5, 0, 1)]);
    assert_eq!(model.ephemerides.len(), 1);
    assert_eq!(model.ephemerides[0].svid, 5);
    assert_eq!(model.ephemerides[0].kind, NavKind::GpsNav);
    assert_eq!(diag.frames_scanned, 3);
    assert_eq!(diag.frames_accepted, 3);
    assert_eq!(diag.resyncs, 0);
    assert_eq!(diag.epochs_emitted, 1);
    assert_eq!(diag.decoded_in(Category::Measurement), 1);
    assert_eq!(diag.decoded_in(Category::EndOfMeasurement), 1);
    assert_eq!(diag.decoded_in(Category::NavigationMessage), 1);
}

#[test]
fn three_terminated_epochs_in_order() {
    let mut s = Vec::new();
    for (tow, wnc) in [(100u32, 2200u16), (200, 2200), (50, 2201)] {
        s.extend(epoch(tow, wnc, vec![meas(1, 0, tow)]));
        s.extend(end(tow, wnc));
    }
    let (model, diag) = convert(&s);
    let model = model.unwrap();
    let times: Vec<SbfBlockTimestamp> = model.epochs.iter().map(|e| e.timestamp).collect();
    assert_eq!(times, vec![ts(100, 2200), ts(200, 2200), ts(50, 2201)]);
    assert_eq!(diag.epochs_emitted, 3);
}

#[test]
fn later_measurement_is_retained() {
    let mut s = epoch(100, 2200, vec![meas(5, 1, 111), meas(6, 1, 5)]);
    s.extend(epoch(100, 2200, vec![meas(5, 1, 222)]));
    s.extend(end(100, 2200));
    let (model, _) = convert(&s);
    let model = model.unwrap();
    assert_eq!(model.epochs.len(), 1);
    assert_eq!(model.epochs[0].measurements, vec![meas(5, 1, 222), meas(6, 1, 5)]);
}

#[test]
fn new_timestamp_closes_open_epoch() {
    let mut s = epoch(100, 2200, vec![meas(5, 1, 1)]);
    s.extend(epoch(200, 2200, vec![meas(5, 1, 2)]));
    let (model, _) = convert(&s);
    let model = model.unwrap();
    assert_eq!(model.epochs.len(), 2);
    assert_eq!(model.epochs[1].measurements, vec![meas(5, 1, 2)]);
}

#[test]
fn unknown_block_does_not_stop_the_run() {
    let mut s = encode_block(&DecodedBlock::Unknown(RawBlock { id: 7777, revision: 0, length: 16, payload: vec![0; 8] }));
    s.extend(epoch(100, 2200, vec![meas(5, 0, 1)]));
    s.extend(end(100, 2200));
    let (model, diag) = convert(&s);
    let model = model.unwrap();
    assert_eq!(model.unknown, vec![7777]);
    assert_eq!(diag.unsupported(), 1);
    assert_eq!(model.epochs.len(), 1);
    assert_eq!(diag.frames_scanned, 3);
}

#[test]
fn latest_ephemeris_wins() {
    let mut s = gps_nav(5, 1);
    s.extend(gps_nav(7, 2));
    s.extend(gps_nav(5, 3));
    let (model, _) = convert(&s);
    let model = model.unwrap();
    assert_eq!(model.ephemerides.len(), 2);
    assert_eq!(model.ephemerides[0].svid, 5);
    assert_eq!(model.ephemerides[0].words[0], 3);
    assert_eq!(model.ephemerides[1].svid, 7);
}

#[test]
fn epochs_out_of_order_fail() {
    let mut s = epoch(200, 2200, vec![]);
    s.extend(end(200, 2200));
    s.extend(epoch(100, 2200, vec![]));
    s.extend(end(100, 2200));
    let (model, diag) = convert(&s);
    assert_eq!(model, Err(Error::Assembly(AssemblyError::NonMonotonicEpoch(1))));
    assert_eq!(diag.epochs_emitted, 0);
}

#[test]
fn repeated_timestamp_after_close_fails() {
    let mut s = epoch(100, 2200, vec![]);
    s.extend(end(100, 2200));
    s.extend(epoch(100, 2200, vec![]));
    let (model, _) = convert(&s);
    assert_eq!(model, Err(Error::Assembly(AssemblyError::NonMonotonicEpoch(1))));
}

#[test]
fn decode_errors_are_counted_and_skipped() {
    let mut s = encode_frame(5891, &vec![0; 8]);
    s.extend(epoch(100, 2200, vec![meas(5, 0, 1)]));
    let (model, diag) = convert(&s);
    assert_eq!(diag.decode_errors, 1);
    assert_eq!(diag.frames_scanned, 2);
    assert_eq!(model.unwrap().epochs.len(), 1);
}

#[test]
fn status_blocks_attach_to_the_epoch() {
    let mut s = epoch(100, 2200, vec![]);
    s.extend(encode_block(&DecodedBlock::Auxiliary { category: Category::ReceiverStatus, id: 4014, timestamp: ts(100, 2200) }));
    s.extend(end(100, 2200));
    s.extend(encode_block(&DecodedBlock::Auxiliary { category: Category::ExternalEvent, id: 5924, timestamp: ts(150, 2200) }));
    s.extend(encode_block(&DecodedBlock::EndOfPvt(ts(100, 2200))));
    let (model, diag) = convert(&s);
    let model = model.unwrap();
    assert_eq!(model.epochs[0].aux, vec![4014, 5924]);
    assert_eq!(model.pvt_epochs.len(), 1);
    assert_eq!(model.pvt_epochs[0].timestamp, ts(100, 2200));
    assert!(model.pvt_epochs[0].records.is_empty());
    assert_eq!(diag.decoded_in(Category::ReceiverStatus), 1);
}

#[test]
fn lone_sync_marker_is_scanned_once() {
    let (model, diag) = convert(&[0x24, 0x40]);
    assert_eq!(diag.frames_scanned, 1);
    assert_eq!(diag.frames_accepted, 0);
    assert_eq!(diag.resyncs, 1);
    assert!(model.unwrap().epochs.is_empty());
}

#[test]
fn other_measurement_blocks_follow_their_timestamp() {
    let mut s = epoch(100, 2200, vec![meas(5, 0, 1)]);
    s.extend(encode_block(&DecodedBlock::Auxiliary { category: Category::Measurement, id: 4109, timestamp: ts(200, 2200) }));
    s.extend(end(200, 2200));
    let (model, _) = convert(&s);
    let model = model.unwrap();
    let times: Vec<SbfBlockTimestamp> = model.epochs.iter().map(|e| e.timestamp).collect();
    assert_eq!(times, vec![ts(100, 2200), ts(200, 2200)]);
    assert!(model.epochs[1].measurements.is_empty());
}

#[test]
fn empty_stream_gives_empty_model() {
    let (model, diag) = convert(&[]);
    let model = model.unwrap();
    assert!(model.epochs.is_empty());
    assert!(model.ephemerides.is_empty());
    assert_eq!(diag.frames_scanned, 0);
    assert_eq!(diag.decoded.len(), 12);
}

#[test]
fn corrupt_and_truncated_blocks_are_counted() {
    let mut bad = end(100, 2200);
    bad[10] ^= 1;
    let mut s = bad;
    s.extend(epoch(100, 2200, vec![]));
    let last = end(100, 2200);
    s.extend(&last[..12]);
    let (model, diag) = convert(&s);
    assert_eq!(diag.frames_scanned, 3);
    assert_eq!(diag.frames_accepted, 1);
    assert_eq!(diag.resyncs, 2);
    assert_eq!(model.unwrap().epochs.len(), 1);
}

#[test]
fn satellites_without_ephemeris_are_flagged() {
    let mut s = gps_nav(5, 1);
    s.extend(epoch(100, 2200, vec![meas(5, 0, 1), meas(9, 0, 1), meas(9, 1, 1)]));
    s.extend(end(100, 2200));
    s.extend(epoch(200, 2200, vec![meas(11, 0, 1), meas(9, 0, 1)]));
    s.extend(end(200, 2200));
    let (model, _) = convert(&s);
    let model = model.unwrap();
    assert_eq!(model.no_ephemeris, vec![9, 11]);
    assert_eq!(model.epochs[0].measurements.len(), 3);
}

#[test]
fn almanac_is_not_an_ephemeris() {
    let mut words = vec![0u32; word_count(NavKind::GpsAlm)];
    words[1] = 8;
    let mut s = encode_block(&DecodedBlock::Navigation(NavMessage { kind: NavKind::GpsAlm, timestamp: ts(1, 2200), svid: 4, words }));
    s.extend(epoch(100, 2200, vec![meas(4, 0, 1)]));
    let (model, _) = convert(&s);
    assert_eq!(model.unwrap().no_ephemeris, vec![4]);
}

#[test]
fn position_epochs_are_matched_by_timestamp() {
    let mut s = epoch(100, 2200, vec![]);
    s.extend(end(100, 2200));
    s.extend(encode_block(&DecodedBlock::EndOfPvt(ts(100, 2200))));
    s.extend(epoch(200, 2200, vec![]));
    s.extend(end(200, 2200));
    s.extend(encode_block(&DecodedBlock::EndOfPvt(ts(150, 2200))));
    let (model, _) = convert(&s);
    assert_eq!(model.unwrap().with_position, vec![true, false]);
}

#[test]
fn position_records_join_their_epoch() {
    let pvt = PvtRecord { id: 4006, timestamp: ts(100, 2200), mode: 1, error: 0, words: vec![10, 20, 30] };
    let mut s = epoch(100, 2200, vec![meas(5, 0, 1)]);
    s.extend(end(100, 2200));
    s.extend(encode_block(&DecodedBlock::Pvt(pvt.clone())));
    s.extend(encode_block(&DecodedBlock::EndOfPvt(ts(100, 2200))));
    s.extend(epoch(200, 2200, vec![meas(5, 0, 2)]));
    s.extend(end(200, 2200));
    let late = PvtRecord { id: 4007, timestamp: ts(300, 2200), mode: 2, error: 0, words: vec![7] };
    s.extend(encode_block(&DecodedBlock::Pvt(late.clone())));
    let (model, diag) = convert(&s);
    let model = model.unwrap();
    assert_eq!(model.epochs.len(), 2);
    assert_eq!(model.positions, vec![vec![pvt], vec![]]);
    assert_eq!(model.with_position, vec![true, false]);
    assert_eq!(model.pending_pvt, vec![late]);
    assert_eq!(diag.decoded_in(Category::Pvt), 2);
}
