//! Writing blocks: the inverse of the scanner and the decoders, used to produce
//! test streams and to state the round trip.
use vstd::prelude::*;
use crate::block::{
    category_spec, DecodeError, timestamp_at, Category, SbfBlockTimestamp, END_OF_MEAS, END_OF_PVT, MEAS_EPOCH,
};
use crate::bytes::{le32, lemma_le16_of_bytes, lemma_le32_of_bytes, push_u16, push_u32, u16_bytes, u32_bytes};
use crate::decode::{
    decode_view, meas_at, meas_off, nav_id_spec, nav_kind_spec, word_count_spec, words_at,
    nav_id, BlockView, DecodedBlock, Measurement, MeasEpochView, NavView, PvtView,
};
use vstd::slice::slice_to_vec;
use crate::crc::{crc16, crc_of};
use crate::frame::{
    declared_len, frame_fault, frame_item, frame_next, is_sync, FrameView, HEADER_LEN, SYNC1, SYNC2,
};

verus! {

/// The bytes covered by the checksum: identifier with revision, length, payload.
pub open spec fn checked_bytes(id_rev: u16, payload: Seq<u8>) -> Seq<u8> {
    u16_bytes(id_rev) + u16_bytes((payload.len() + HEADER_LEN) as u16) + payload
}

/// The whole block for an identifier with revision and a payload.
pub open spec fn frame_bytes(id_rev: u16, payload: Seq<u8>) -> Seq<u8> {
    seq![SYNC1, SYNC2] + u16_bytes(crc_of(checked_bytes(id_rev, payload))) + checked_bytes(id_rev, payload)
}

/// A payload that fits a block: the total length fits 16 bits and is a multiple of four.
pub open spec fn payload_fits(payload: Seq<u8>) -> bool {
    payload.len() + HEADER_LEN <= 65535 && (payload.len() + HEADER_LEN) % 4 == 0
}

/// A well-formed block standing at offset `p` of a stream is accepted there as it
/// was written, and scanning goes on right after it.
pub proof fn lemma_frame_accepted(s: Seq<u8>, p: int, id_rev: u16, payload: Seq<u8>)
    requires
        payload_fits(payload),
        0 <= p,
        p + payload.len() + HEADER_LEN <= s.len(),
        s.subrange(p, p + payload.len() + HEADER_LEN) == frame_bytes(id_rev, payload),
    ensures
        is_sync(s, p),
        frame_item(s, p) == (FrameView::Block {
            id: (id_rev % 8192) as u16,
            revision: (id_rev / 8192) as u8,
            length: (payload.len() + HEADER_LEN) as u16,
            payload,
        }),
        frame_next(s, p) == p + payload.len() + HEADER_LEN,
{
    let len = payload.len() + HEADER_LEN;
    let f = frame_bytes(id_rev, payload);
    let w = s.subrange(p, p + len);
    assert(f.len() == len);
    assert(s[p] == w[0] && s[p + 1] == w[1]);
    assert(s.subrange(p + 2, p + 4) =~= f.subrange(2, 4));
    assert(f.subrange(2, 4) =~= u16_bytes(crc_of(checked_bytes(id_rev, payload))));
    lemma_le16_of_bytes(s, p + 2, crc_of(checked_bytes(id_rev, payload)));
    assert(s.subrange(p + 4, p + 6) =~= f.subrange(4, 6));
    assert(f.subrange(4, 6) =~= u16_bytes(id_rev));
    lemma_le16_of_bytes(s, p + 4, id_rev);
    assert(s.subrange(p + 6, p + 8) =~= f.subrange(6, 8));
    assert(f.subrange(6, 8) =~= u16_bytes(len as u16));
    lemma_le16_of_bytes(s, p + 6, len as u16);
    assert(declared_len(s, p) == len);
    assert(s.subrange(p + 4, p + len) =~= f.subrange(4, len as int));
    assert(f.subrange(4, len as int) =~= checked_bytes(id_rev, payload));
    assert(s.subrange(p + HEADER_LEN, p + len) =~= f.subrange(8, len as int));
    assert(f.subrange(8, len as int) =~= payload);
    assert(frame_fault(s, p) is None);
}

/// Writes a whole block for an identifier with revision and a payload.
pub fn encode_frame(id_rev: u16, payload: &Vec<u8>) -> (r: Vec<u8>)
    requires
        payload@.len() + HEADER_LEN <= 65535,
    ensures
        r@ == frame_bytes(id_rev, payload@),
{
    let len = (payload.len() + 8) as u16;
    let mut body: Vec<u8> = Vec::new();
    push_u16(&mut body, id_rev);
    push_u16(&mut body, len);
    let mut i: usize = 0;
    while i < payload.len()
        invariant
            i <= payload@.len(),
            body@ == u16_bytes(id_rev) + u16_bytes(len) + payload@.subrange(0, i as int),
        decreases payload@.len() - i,
    {
        body.push(payload[i]);
        i = i + 1;
        assert(body@ =~= u16_bytes(id_rev) + u16_bytes(len) + payload@.subrange(0, i as int));
    }
    assert(payload@.subrange(0, i as int) =~= payload@);
    let crc = crc16(body.as_slice(), 0, body.len());
    assert(body@.subrange(0, body@.len() as int) =~= body@);
    let mut out: Vec<u8> = Vec::new();
    out.push(SYNC1);
    out.push(SYNC2);
    push_u16(&mut out, crc);
    let mut j: usize = 0;
    while j < body.len()
        invariant
            j <= body@.len(),
            out@ == seq![SYNC1, SYNC2] + u16_bytes(crc) + body@.subrange(0, j as int),
        decreases body@.len() - j,
    {
        out.push(body[j]);
        j = j + 1;
        assert(out@ =~= seq![SYNC1, SYNC2] + u16_bytes(crc) + body@.subrange(0, j as int));
    }
    assert(body@.subrange(0, j as int) =~= body@);
    assert(out@ =~= frame_bytes(id_rev, payload@));
    out
}

/// The six bytes of a timestamp.
pub open spec fn ts_bytes(t: SbfBlockTimestamp) -> Seq<u8> {
    u32_bytes(t.tow) + u16_bytes(t.wnc)
}

proof fn lemma_ts_of_bytes(p: Seq<u8>, t: SbfBlockTimestamp)
    requires
        p.len() >= 6,
        p.subrange(0, 6) == ts_bytes(t),
    ensures
        timestamp_at(p) == t,
{
    assert(p.subrange(0, 4) =~= p.subrange(0, 6).subrange(0, 4));
    assert(p.subrange(4, 6) =~= p.subrange(0, 6).subrange(4, 6));
    assert(ts_bytes(t).subrange(0, 4) =~= u32_bytes(t.tow));
    assert(ts_bytes(t).subrange(4, 6) =~= u16_bytes(t.wnc));
    lemma_le32_of_bytes(p, 0, t.tow);
    lemma_le16_of_bytes(p, 4, t.wnc);
}

/// The type-1 sub-block written for a measurement: no carrier phase, no type-2
/// sub-blocks.
pub open spec fn sub_block_bytes(m: Measurement) -> Seq<u8> {
    seq![0u8, m.signal, m.svid, 0u8] + u32_bytes(m.code) + u32_bytes(m.doppler) + seq![0u8, 0u8, 0u8, m.cn0]
        + u16_bytes(m.lock_time) + seq![0u8, 0u8]
}

/// The type-1 sub-blocks of `ms`, one after the other.
pub open spec fn sub_blocks_bytes(ms: Seq<Measurement>) -> Seq<u8>
    decreases ms.len(),
{
    if ms.len() == 0 {
        Seq::empty()
    } else {
        sub_blocks_bytes(ms.drop_last()) + sub_block_bytes(ms.last())
    }
}

/// The words of a navigation message, one after the other.
pub open spec fn words_bytes(w: Seq<u32>) -> Seq<u8>
    decreases w.len(),
{
    if w.len() == 0 {
        Seq::empty()
    } else {
        words_bytes(w.drop_last()) + u32_bytes(w.last())
    }
}

/// The payload written for a measurement epoch.
pub open spec fn meas_payload(e: MeasEpochView) -> Seq<u8> {
    ts_bytes(e.timestamp) + seq![e.measurements.len() as u8, 20u8, 0u8, e.common_flags, 0u8, 0u8]
        + sub_blocks_bytes(e.measurements)
}

/// The payload written for a navigation message.
pub open spec fn nav_payload(m: NavView) -> Seq<u8> {
    ts_bytes(m.timestamp) + seq![m.svid, 0u8] + words_bytes(m.words)
}

/// The payload written for a position record.
pub open spec fn pvt_payload(v: PvtView) -> Seq<u8> {
    ts_bytes(v.timestamp) + seq![v.mode, v.error] + words_bytes(v.words)
}

/// The payload written for a block that carries only its timestamp.
pub open spec fn ts_payload(t: SbfBlockTimestamp) -> Seq<u8> {
    ts_bytes(t) + seq![0u8, 0u8]
}

/// The block identifier a decoded block is written under.
pub open spec fn block_id_of(b: BlockView) -> u16 {
    match b {
        BlockView::Measurement(_) => MEAS_EPOCH,
        BlockView::EndOfMeasurement(_) => END_OF_MEAS,
        BlockView::EndOfPvt(_) => END_OF_PVT,
        BlockView::Navigation(m) => nav_id_spec(m.kind),
        BlockView::Pvt(v) => v.id,
        BlockView::Auxiliary { id, .. } => id,
        BlockView::Unknown { id, .. } => id,
    }
}

/// The revision a decoded block is written under.
pub open spec fn revision_of(b: BlockView) -> u8 {
    match b {
        BlockView::Unknown { revision, .. } => revision,
        _ => 0,
    }
}

/// The identifier and revision field of a decoded block.
pub open spec fn id_rev_of(b: BlockView) -> u16 {
    (block_id_of(b) + 8192 * revision_of(b)) as u16
}

/// The payload a decoded block is written with.
pub open spec fn payload_of(b: BlockView) -> Seq<u8> {
    match b {
        BlockView::Measurement(e) => meas_payload(e),
        BlockView::EndOfMeasurement(t) => ts_payload(t),
        BlockView::EndOfPvt(t) => ts_payload(t),
        BlockView::Navigation(m) => nav_payload(m),
        BlockView::Pvt(v) => pvt_payload(v),
        BlockView::Auxiliary { timestamp, .. } => ts_payload(timestamp),
        BlockView::Unknown { payload, .. } => payload,
    }
}

/// The decoded blocks that can be written and read back: consistent timestamps,
/// fields within what the layouts hold, and identifiers that the registry sends to
/// the variant they stand in.
pub open spec fn block_wf(b: BlockView) -> bool {
    match b {
        BlockView::Measurement(e) => {
            &&& e.timestamp.is_consistent()
            &&& e.measurements.len() <= 255
            &&& forall|i: int| 0 <= i < e.measurements.len() ==> (#[trigger] e.measurements[i]).signal < 32
        },
        BlockView::EndOfMeasurement(t) => t.is_consistent(),
        BlockView::EndOfPvt(t) => t.is_consistent(),
        BlockView::Navigation(m) => m.timestamp.is_consistent() && m.words.len() == word_count_spec(
            m.kind,
        ),
        BlockView::Pvt(v) => {
            &&& v.timestamp.is_consistent()
            &&& category_spec(v.id) == Category::Pvt
            &&& v.words.len() <= 16000
        },
        BlockView::Auxiliary { category, id, timestamp } => {
            &&& timestamp.is_consistent()
            &&& category == category_spec(id)
            &&& category != Category::Unknown
            &&& category != Category::Pvt
            &&& id != MEAS_EPOCH && id != END_OF_MEAS && id != END_OF_PVT
            &&& nav_kind_spec(id) is None
        },
        BlockView::Unknown { id, revision, length, payload } => {
            &&& category_spec(id) == Category::Unknown
            &&& id < 8192
            &&& revision < 8
            &&& payload_fits(payload)
            &&& length == payload.len() + HEADER_LEN
        },
    }
}

proof fn lemma_sub_blocks(ms: Seq<Measurement>, i: int)
    requires
        0 <= i < ms.len(),
    ensures
        sub_blocks_bytes(ms).len() == 20 * ms.len(),
        sub_blocks_bytes(ms).subrange(20 * i, 20 * i + 20) == sub_block_bytes(ms[i]),
    decreases ms.len(),
{
    let prev = ms.drop_last();
    assert(sub_blocks_bytes(ms).len() == sub_blocks_bytes(prev).len() + 20);
    if i < ms.len() - 1 {
        lemma_sub_blocks(prev, i);
        assert(sub_blocks_bytes(ms).subrange(20 * i, 20 * i + 20) =~= sub_blocks_bytes(prev).subrange(
            20 * i,
            20 * i + 20,
        ));
    } else {
        if prev.len() > 0 {
            lemma_sub_blocks(prev, 0);
        }
        assert(sub_blocks_bytes(ms).subrange(20 * i, 20 * i + 20) =~= sub_block_bytes(ms[i]));
    }
}

proof fn lemma_sub_blocks_len(ms: Seq<Measurement>)
    ensures
        sub_blocks_bytes(ms).len() == 20 * ms.len(),
{
    if ms.len() > 0 {
        lemma_sub_blocks(ms, 0);
    }
}

proof fn lemma_words(w: Seq<u32>, i: int)
    requires
        0 <= i < w.len(),
    ensures
        words_bytes(w).len() == 4 * w.len(),
        words_bytes(w).subrange(4 * i, 4 * i + 4) == u32_bytes(w[i]),
    decreases w.len(),
{
    let prev = w.drop_last();
    assert(words_bytes(w).len() == words_bytes(prev).len() + 4);
    if i < w.len() - 1 {
        lemma_words(prev, i);
        assert(words_bytes(w).subrange(4 * i, 4 * i + 4) =~= words_bytes(prev).subrange(4 * i, 4 * i + 4));
    } else {
        if prev.len() > 0 {
            lemma_words(prev, 0);
        }
        assert(words_bytes(w).subrange(4 * i, 4 * i + 4) =~= u32_bytes(w[i]));
    }
}

proof fn lemma_words_len(w: Seq<u32>)
    ensures
        words_bytes(w).len() == 4 * w.len(),
{
    if w.len() > 0 {
        lemma_words(w, 0);
    }
}

proof fn lemma_meas_round_trip(e: MeasEpochView)
    requires
        block_wf(BlockView::Measurement(e)),
    ensures
        payload_fits(meas_payload(e)),
        decode_view(MEAS_EPOCH, 0, (meas_payload(e).len() + HEADER_LEN) as u16, meas_payload(e)) == Ok::<
            BlockView,
            DecodeError,
        >(BlockView::Measurement(e)),
{
    let p = meas_payload(e);
    let ms = e.measurements;
    let n = ms.len();
    lemma_sub_blocks_len(ms);
    assert(p.len() == 12 + 20 * n);
    assert(p.subrange(0, 6) =~= ts_bytes(e.timestamp));
    lemma_ts_of_bytes(p, e.timestamp);
    assert(p[6] == n as u8 && p[7] == 20 && p[8] == 0 && p[9] == e.common_flags);
    assert(p.subrange(12, p.len() as int) =~= sub_blocks_bytes(ms));
    assert forall|i: nat| i <= n implies meas_off(p, i) == 12 + 20 * i by {
        lemma_meas_off_linear(p, i, n);
    }
    assert forall|i: int| 0 <= i < n implies meas_at(p, meas_off(p, i as nat)) == ms[i] by {
        lemma_meas_off_linear(p, i as nat, n);
        lemma_meas_entry(p, ms, i);
    }
    assert(Seq::new(p[6] as nat, |i: int| meas_at(p, meas_off(p, i as nat))) =~= ms);
}

proof fn lemma_sub_block_layout(m: Measurement)
    ensures
        ({
            let sb = sub_block_bytes(m);
            &&& sb.len() == 20
            &&& sb[1] == m.signal
            &&& sb[2] == m.svid
            &&& sb[15] == m.cn0
            &&& sb.subrange(4, 8) == u32_bytes(m.code)
            &&& sb.subrange(8, 12) == u32_bytes(m.doppler)
            &&& sb.subrange(16, 18) == u16_bytes(m.lock_time)
        }),
{
    let sb = sub_block_bytes(m);
    assert(sb.subrange(4, 8) =~= u32_bytes(m.code));
    assert(sb.subrange(8, 12) =~= u32_bytes(m.doppler));
    assert(sb.subrange(16, 18) =~= u16_bytes(m.lock_time));
}

#[verifier::rlimit(40)]
proof fn lemma_meas_entry(p: Seq<u8>, ms: Seq<Measurement>, i: int)
    requires
        0 <= i < ms.len(),
        ms[i].signal < 32,
        p.len() == 12 + 20 * ms.len(),
        p.subrange(12, p.len() as int) == sub_blocks_bytes(ms),
    ensures
        meas_at(p, 12 + 20 * i) == ms[i],
{
    lemma_sub_blocks(ms, i);
    let m = ms[i];
    let o = 12 + 20 * i;
    let w = p.subrange(o, o + 20);
    assert(w =~= sub_blocks_bytes(ms).subrange(20 * i, 20 * i + 20));
    lemma_sub_block_layout(m);
    assert(p[o + 1] == w[1] && p[o + 2] == w[2] && p[o + 15] == w[15]);
    assert(p.subrange(o + 4, o + 8) =~= w.subrange(4, 8));
    lemma_le32_of_bytes(p, o + 4, m.code);
    assert(p.subrange(o + 8, o + 12) =~= w.subrange(8, 12));
    lemma_le32_of_bytes(p, o + 8, m.doppler);
    assert(p.subrange(o + 16, o + 18) =~= w.subrange(16, 18));
    lemma_le16_of_bytes(p, o + 16, m.lock_time);
}

proof fn lemma_meas_off_linear(p: Seq<u8>, i: nat, n: nat)
    requires
        i <= n,
        n <= 255,
        p.len() == 12 + 20 * n,
        p[7] == 20,
        p[8] == 0,
    ensures
        meas_off(p, i) == 12 + 20 * i,
    decreases i,
{
    if i > 0 {
        lemma_meas_off_linear(p, (i - 1) as nat, n);
        let o = meas_off(p, (i - 1) as nat);
        assert(p[o + 19] * p[8] == 0) by (nonlinear_arith)
            requires
                p[8] == 0,
        ;
    }
}

proof fn lemma_nav_round_trip(m: NavView)
    requires
        block_wf(BlockView::Navigation(m)),
    ensures
        payload_fits(nav_payload(m)),
        decode_view(nav_id_spec(m.kind), 0, (nav_payload(m).len() + HEADER_LEN) as u16, nav_payload(m))
            == Ok::<BlockView, DecodeError>(BlockView::Navigation(m)),
{
    let p = nav_payload(m);
    let n = m.words.len();
    lemma_words_len(m.words);
    assert(p.subrange(0, 6) =~= ts_bytes(m.timestamp));
    lemma_ts_of_bytes(p, m.timestamp);
    assert forall|i: int| 0 <= i < n implies le32(p, 8 + 4 * i) == m.words[i] by {
        lemma_words(m.words, i);
        assert(p.subrange(8 + 4 * i, 12 + 4 * i) =~= words_bytes(m.words).subrange(4 * i, 4 * i + 4));
        lemma_le32_of_bytes(p, 8 + 4 * i, m.words[i]);
    }
    assert(words_at(p, 8, n) =~= m.words);
    assert(nav_kind_spec(nav_id_spec(m.kind)) == Some(m.kind));
}

proof fn lemma_pvt_round_trip(v: PvtView)
    requires
        block_wf(BlockView::Pvt(v)),
    ensures
        payload_fits(pvt_payload(v)),
        decode_view(v.id, 0, (pvt_payload(v).len() + HEADER_LEN) as u16, pvt_payload(v)) == Ok::<
            BlockView,
            DecodeError,
        >(BlockView::Pvt(v)),
{
    let p = pvt_payload(v);
    let n = v.words.len();
    lemma_words_len(v.words);
    assert(p.len() == 8 + 4 * n);
    assert((p.len() - 8) / 4 == n);
    assert(p.subrange(0, 6) =~= ts_bytes(v.timestamp));
    lemma_ts_of_bytes(p, v.timestamp);
    assert forall|i: int| 0 <= i < n implies le32(p, 8 + 4 * i) == v.words[i] by {
        lemma_words(v.words, i);
        assert(p.subrange(8 + 4 * i, 12 + 4 * i) =~= words_bytes(v.words).subrange(4 * i, 4 * i + 4));
        lemma_le32_of_bytes(p, 8 + 4 * i, v.words[i]);
    }
    assert(words_at(p, 8, n) =~= v.words);
    assert(p[6] == v.mode && p[7] == v.error);
}

proof fn lemma_ts_round_trip(t: SbfBlockTimestamp)
    requires
        t.is_consistent(),
    ensures
        ts_payload(t).len() == 8,
        timestamp_at(ts_payload(t)) == t,
{
    assert(ts_payload(t).subrange(0, 6) =~= ts_bytes(t));
    lemma_ts_of_bytes(ts_payload(t), t);
}

proof fn lemma_decode_round_trip(b: BlockView)
    requires
        block_wf(b),
    ensures
        payload_fits(payload_of(b)),
        decode_view(block_id_of(b), revision_of(b), (payload_of(b).len() + HEADER_LEN) as u16, payload_of(b))
            == Ok::<BlockView, DecodeError>(b),
{
    match b {
        BlockView::Measurement(e) => lemma_meas_round_trip(e),
        BlockView::Navigation(m) => lemma_nav_round_trip(m),
        BlockView::Pvt(v) => lemma_pvt_round_trip(v),
        BlockView::EndOfMeasurement(t) => lemma_ts_round_trip(t),
        BlockView::EndOfPvt(t) => lemma_ts_round_trip(t),
        BlockView::Auxiliary { timestamp, .. } => lemma_ts_round_trip(timestamp),
        BlockView::Unknown { .. } => {},
    }
}

pub proof fn lemma_id_rev_split(b: BlockView)
    requires
        block_wf(b),
    ensures
        id_rev_of(b) % 8192 == block_id_of(b),
        id_rev_of(b) / 8192 == revision_of(b),
{
    let id = block_id_of(b);
    let rev = revision_of(b);
    assert(id < 8192);
    assert(rev < 8);
    assert((id + 8192 * rev) % 8192 == id && (id + 8192 * rev) / 8192 == rev && id + 8192 * rev
        < 65536) by (nonlinear_arith)
        requires
            id < 8192,
            rev < 8,
    ;
}

/// Writing a well-formed decoded block and reading it back gives the same block:
/// the written bytes are accepted as one block whose identifier, revision, length
/// and payload decode to it.
pub proof fn lemma_round_trip(b: BlockView)
    requires
        block_wf(b),
    ensures
        payload_fits(payload_of(b)),
        ({
            let len = (payload_of(b).len() + HEADER_LEN) as u16;
            let f = frame_bytes(id_rev_of(b), payload_of(b));
            &&& frame_item(f, 0) == (FrameView::Block {
                id: block_id_of(b),
                revision: revision_of(b),
                length: len,
                payload: payload_of(b),
            })
            &&& frame_next(f, 0) == f.len()
            &&& decode_view(block_id_of(b), revision_of(b), len, payload_of(b)) == Ok::<
                BlockView,
                DecodeError,
            >(b)
        }),
{
    lemma_decode_round_trip(b);
    lemma_id_rev_split(b);
    let f = frame_bytes(id_rev_of(b), payload_of(b));
    assert(f.subrange(0, f.len() as int) =~= f);
    lemma_frame_accepted(f, 0, id_rev_of(b), payload_of(b));
}

fn push_ts(v: &mut Vec<u8>, t: SbfBlockTimestamp)
    ensures
        final(v)@ == old(v)@ + ts_bytes(t),
{
    push_u32(v, t.tow);
    push_u16(v, t.wnc);
    assert(final(v)@ =~= old(v)@ + ts_bytes(t));
}

fn push_sub_block(v: &mut Vec<u8>, m: Measurement)
    ensures
        final(v)@ == old(v)@ + sub_block_bytes(m),
{
    v.push(0);
    v.push(m.signal);
    v.push(m.svid);
    v.push(0);
    push_u32(v, m.code);
    push_u32(v, m.doppler);
    v.push(0);
    v.push(0);
    v.push(0);
    v.push(m.cn0);
    push_u16(v, m.lock_time);
    v.push(0);
    v.push(0);
    assert(final(v)@ =~= old(v)@ + sub_block_bytes(m));
}

/// The payload of a decoded block, as `payload_of` gives it.
pub fn encode_payload(b: &DecodedBlock) -> (r: Vec<u8>)
    ensures
        r@ == payload_of(b@),
{
    let mut v: Vec<u8> = Vec::new();
    match b {
        DecodedBlock::Measurement(e) => {
            push_ts(&mut v, e.timestamp);
            v.push(e.measurements.len() as u8);
            v.push(20);
            v.push(0);
            v.push(e.common_flags);
            v.push(0);
            v.push(0);
            let ghost head = v@;
            let ms = &e.measurements;
            let mut i: usize = 0;
            assert(ms@.take(0) =~= Seq::<Measurement>::empty());
            assert(head + sub_blocks_bytes(ms@.take(0)) =~= head);
            while i < ms.len()
                invariant
                    i <= ms@.len(),
                    v@ == head + sub_blocks_bytes(ms@.take(i as int)),
                decreases ms@.len() - i,
            {
                push_sub_block(&mut v, ms[i]);
                assert(ms@.take(i + 1).drop_last() =~= ms@.take(i as int));
                i = i + 1;
                assert(v@ =~= head + sub_blocks_bytes(ms@.take(i as int)));
            }
            assert(ms@.take(i as int) =~= ms@);
            assert(v@ =~= meas_payload(e@));
        },
        DecodedBlock::Navigation(m) => {
            push_ts(&mut v, m.timestamp);
            v.push(m.svid);
            v.push(0);
            let ghost head = v@;
            let w = &m.words;
            let mut i: usize = 0;
            assert(w@.take(0) =~= Seq::<u32>::empty());
            assert(head + words_bytes(w@.take(0)) =~= head);
            while i < w.len()
                invariant
                    i <= w@.len(),
                    v@ == head + words_bytes(w@.take(i as int)),
                decreases w@.len() - i,
            {
                push_u32(&mut v, w[i]);
                assert(w@.take(i + 1).drop_last() =~= w@.take(i as int));
                i = i + 1;
                assert(v@ =~= head + words_bytes(w@.take(i as int)));
            }
            assert(w@.take(i as int) =~= w@);
            assert(v@ =~= nav_payload(m@));
        },
        DecodedBlock::Pvt(r) => {
            push_ts(&mut v, r.timestamp);
            v.push(r.mode);
            v.push(r.error);
            let ghost head = v@;
            let w = &r.words;
            let mut i: usize = 0;
            assert(w@.take(0) =~= Seq::<u32>::empty());
            assert(head + words_bytes(w@.take(0)) =~= head);
            while i < w.len()
                invariant
                    i <= w@.len(),
                    v@ == head + words_bytes(w@.take(i as int)),
                decreases w@.len() - i,
            {
                push_u32(&mut v, w[i]);
                assert(w@.take(i + 1).drop_last() =~= w@.take(i as int));
                i = i + 1;
                assert(v@ =~= head + words_bytes(w@.take(i as int)));
            }
            assert(w@.take(i as int) =~= w@);
            assert(v@ =~= pvt_payload(r@));
        },
        DecodedBlock::EndOfMeasurement(t) | DecodedBlock::EndOfPvt(t) | DecodedBlock::Auxiliary {
            timestamp: t,
            ..
        } => {
            push_ts(&mut v, *t);
            v.push(0);
            v.push(0);
            assert(v@ =~= ts_payload(*t));
        },
        DecodedBlock::Unknown(raw) => {
            v = slice_to_vec(raw.payload.as_slice());
        },
    }
    v
}

/// The identifier and revision field of a decoded block, as `id_rev_of` gives it.
pub fn encode_id_rev(b: &DecodedBlock) -> (r: u16)
    requires
        block_wf(b@),
    ensures
        r == id_rev_of(b@),
{
    proof {
        lemma_id_rev_split(b@);
    }
    match b {
        DecodedBlock::Measurement(_) => MEAS_EPOCH,
        DecodedBlock::EndOfMeasurement(_) => END_OF_MEAS,
        DecodedBlock::EndOfPvt(_) => END_OF_PVT,
        DecodedBlock::Navigation(m) => nav_id(m.kind),
        DecodedBlock::Pvt(r) => r.id,
        DecodedBlock::Auxiliary { id, .. } => *id,
        DecodedBlock::Unknown(raw) => raw.id + 8192 * (raw.revision as u16),
    }
}

/// Writes a well-formed decoded block as a whole block, ready to be scanned.
pub fn encode_block(b: &DecodedBlock) -> (r: Vec<u8>)
    requires
        block_wf(b@),
    ensures
        r@ == frame_bytes(id_rev_of(b@), payload_of(b@)),
{
    proof {
        lemma_decode_round_trip(b@);
    }
    let payload = encode_payload(b);
    let id_rev = encode_id_rev(b);
    encode_frame(id_rev, &payload)
}

} // verus!
