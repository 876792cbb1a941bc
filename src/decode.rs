//! Payload decoders, one per supported block family, and the dispatcher that
//! picks one by identifier.
//!
//! Navigation payloads hold the timestamp, the satellite number, one spare byte,
//! and a fixed number of 32-bit little-endian words whose count depends on the
//! message. A measurement epoch holds the timestamp, a six-byte sub-header, and
//! one type-1 sub-block per signal, each followed by its own type-2 sub-blocks.
use vstd::prelude::*;
use crate::block::{
    category_of, category_spec, decode_timestamp, Category, END_OF_MEAS, END_OF_PVT, MEAS_EPOCH, timestamp_at, DecodeError, SbfBlockTimestamp, GAL_ALM, GAL_ION, GAL_NAV,
    GAL_UTC, GEO_NAV, GEO_RAW_L1, GLO_NAV, GLO_RAW_CA, GPS_ALM, GPS_ION, GPS_NAV, GPS_RAW_CA,
    GPS_UTC,
};
use crate::bytes::{le16, le32, read_u16, read_u32};
use crate::frame::RawBlock;
use vstd::slice::slice_to_vec;

verus! {

/// The navigation messages that have a decoder of their own.
#[derive(Clone, Copy, Debug, PartialEq, Eq, Structural)]
pub enum NavKind {
    GpsNav,
    GalNav,
    GloNav,
    SbasNav,
    GpsRawCa,
    GeoRaw,
    GloRawCa,
    GpsIon,
    GalIon,
    GpsUtc,
    GpsAlm,
    GalUtc,
    GalAlm,
}

/// How many 32-bit words a message of each kind carries.
pub open spec fn word_count_spec(k: NavKind) -> nat {
    match k {
        NavKind::GpsNav => 31,
        NavKind::GalNav => 35,
        NavKind::GloNav => 19,
        NavKind::SbasNav => 25,
        NavKind::GpsRawCa => 10,
        NavKind::GeoRaw => 8,
        NavKind::GloRawCa => 3,
        NavKind::GpsIon => 8,
        NavKind::GalIon => 4,
        NavKind::GpsUtc => 6,
        NavKind::GpsAlm => 14,
        NavKind::GalUtc => 6,
        NavKind::GalAlm => 13,
    }
}

/// How many 32-bit words a message of kind `k` carries.
pub fn word_count(k: NavKind) -> (r: usize)
    ensures
        r == word_count_spec(k),
{
    match k {
        NavKind::GpsNav => 31,
        NavKind::GalNav => 35,
        NavKind::GloNav => 19,
        NavKind::SbasNav => 25,
        NavKind::GpsRawCa => 10,
        NavKind::GeoRaw => 8,
        NavKind::GloRawCa => 3,
        NavKind::GpsIon => 8,
        NavKind::GalIon => 4,
        NavKind::GpsUtc => 6,
        NavKind::GpsAlm => 14,
        NavKind::GalUtc => 6,
        NavKind::GalAlm => 13,
    }
}

/// The block identifier of each navigation message kind.
pub open spec fn nav_id_spec(k: NavKind) -> u16 {
    match k {
        NavKind::GpsNav => GPS_NAV,
        NavKind::GalNav => GAL_NAV,
        NavKind::GloNav => GLO_NAV,
        NavKind::SbasNav => GEO_NAV,
        NavKind::GpsRawCa => GPS_RAW_CA,
        NavKind::GeoRaw => GEO_RAW_L1,
        NavKind::GloRawCa => GLO_RAW_CA,
        NavKind::GpsIon => GPS_ION,
        NavKind::GalIon => GAL_ION,
        NavKind::GpsUtc => GPS_UTC,
        NavKind::GpsAlm => GPS_ALM,
        NavKind::GalUtc => GAL_UTC,
        NavKind::GalAlm => GAL_ALM,
    }
}

/// The block identifier of a navigation message kind.
pub fn nav_id(k: NavKind) -> (r: u16)
    ensures
        r == nav_id_spec(k),
{
    match k {
        NavKind::GpsNav => GPS_NAV,
        NavKind::GalNav => GAL_NAV,
        NavKind::GloNav => GLO_NAV,
        NavKind::SbasNav => GEO_NAV,
        NavKind::GpsRawCa => GPS_RAW_CA,
        NavKind::GeoRaw => GEO_RAW_L1,
        NavKind::GloRawCa => GLO_RAW_CA,
        NavKind::GpsIon => GPS_ION,
        NavKind::GalIon => GAL_ION,
        NavKind::GpsUtc => GPS_UTC,
        NavKind::GpsAlm => GPS_ALM,
        NavKind::GalUtc => GAL_UTC,
        NavKind::GalAlm => GAL_ALM,
    }
}

/// The navigation message kind decoded for a block identifier, if any.
pub open spec fn nav_kind_spec(id: u16) -> Option<NavKind> {
    if id == GPS_NAV {
        Some(NavKind::GpsNav)
    } else if id == GAL_NAV {
        Some(NavKind::GalNav)
    } else if id == GLO_NAV {
        Some(NavKind::GloNav)
    } else if id == GEO_NAV {
        Some(NavKind::SbasNav)
    } else if id == GPS_RAW_CA {
        Some(NavKind::GpsRawCa)
    } else if id == GEO_RAW_L1 {
        Some(NavKind::GeoRaw)
    } else if id == GLO_RAW_CA {
        Some(NavKind::GloRawCa)
    } else if id == GPS_ION {
        Some(NavKind::GpsIon)
    } else if id == GAL_ION {
        Some(NavKind::GalIon)
    } else if id == GPS_UTC {
        Some(NavKind::GpsUtc)
    } else if id == GPS_ALM {
        Some(NavKind::GpsAlm)
    } else if id == GAL_UTC {
        Some(NavKind::GalUtc)
    } else if id == GAL_ALM {
        Some(NavKind::GalAlm)
    } else {
        None
    }
}

/// The navigation message kind decoded for a block identifier, if any.
pub fn nav_kind_of(id: u16) -> (r: Option<NavKind>)
    ensures
        r == nav_kind_spec(id),
{
    if id == GPS_NAV {
        Some(NavKind::GpsNav)
    } else if id == GAL_NAV {
        Some(NavKind::GalNav)
    } else if id == GLO_NAV {
        Some(NavKind::GloNav)
    } else if id == GEO_NAV {
        Some(NavKind::SbasNav)
    } else if id == GPS_RAW_CA {
        Some(NavKind::GpsRawCa)
    } else if id == GEO_RAW_L1 {
        Some(NavKind::GeoRaw)
    } else if id == GLO_RAW_CA {
        Some(NavKind::GloRawCa)
    } else if id == GPS_ION {
        Some(NavKind::GpsIon)
    } else if id == GAL_ION {
        Some(NavKind::GalIon)
    } else if id == GPS_UTC {
        Some(NavKind::GpsUtc)
    } else if id == GPS_ALM {
        Some(NavKind::GpsAlm)
    } else if id == GAL_UTC {
        Some(NavKind::GalUtc)
    } else if id == GAL_ALM {
        Some(NavKind::GalAlm)
    } else {
        None
    }
}

/// A decoded navigation message: ephemeris, almanac, ionosphere or UTC
/// parameters, or a raw navigation frame, as the words that carry it.
#[derive(Clone, Debug, PartialEq, Eq)]
pub struct NavMessage {
    pub kind: NavKind,
    pub timestamp: SbfBlockTimestamp,
    pub svid: u8,
    pub words: Vec<u32>,
}

/// The mathematical form of a `NavMessage`.
pub struct NavView {
    pub kind: NavKind,
    pub timestamp: SbfBlockTimestamp,
    pub svid: u8,
    pub words: Seq<u32>,
}

impl View for NavMessage {
    type V = NavView;

    open spec fn view(&self) -> NavView {
        NavView { kind: self.kind, timestamp: self.timestamp, svid: self.svid, words: self.words@ }
    }
}

/// `n` little-endian words starting at `s[off]`.
pub open spec fn words_at(s: Seq<u8>, off: int, n: nat) -> Seq<u32> {
    Seq::new(n, |i: int| le32(s, off + 4 * i) as u32)
}

/// Why a navigation payload of kind `k` is refused, if it is.
pub open spec fn nav_error(k: NavKind, revision: u8, p: Seq<u8>) -> Option<DecodeError> {
    if revision != 0 {
        Some(DecodeError::UnsupportedRevision)
    } else if p.len() < 6 {
        Some(DecodeError::TooShort)
    } else if !timestamp_at(p).is_consistent() {
        Some(DecodeError::PartialTimestamp)
    } else if p.len() < 8 + 4 * word_count_spec(k) {
        Some(DecodeError::TooShort)
    } else {
        None
    }
}

/// What the payload `p` holds as a message of kind `k`.
pub open spec fn nav_view(k: NavKind, p: Seq<u8>) -> NavView {
    NavView { kind: k, timestamp: timestamp_at(p), svid: p[6], words: words_at(p, 8, word_count_spec(k)) }
}

/// The outcome of decoding `p` as a navigation message of kind `k`.
pub open spec fn nav_result(k: NavKind, revision: u8, p: Seq<u8>, r: Result<NavMessage, DecodeError>) -> bool {
    match r {
        Ok(m) => nav_error(k, revision, p) is None && m@ == nav_view(k, p),
        Err(e) => nav_error(k, revision, p) == Some(e),
    }
}

/// Decodes a navigation payload of kind `k`; revision 0 is the only layout known.
pub fn decode_nav(k: NavKind, revision: u8, p: &[u8]) -> (r: Result<NavMessage, DecodeError>)
    ensures
        nav_result(k, revision, p@, r),
{
    if revision != 0 {
        return Err(DecodeError::UnsupportedRevision);
    }
    let timestamp = match decode_timestamp(p) {
        Ok(t) => t,
        Err(e) => return Err(e),
    };
    let n = word_count(k);
    if p.len() < 8 + 4 * n {
        return Err(DecodeError::TooShort);
    }
    let mut words: Vec<u32> = Vec::new();
    let mut i: usize = 0;
    while i < n
        invariant
            n == word_count_spec(k),
            p@.len() >= 8 + 4 * n,
            i <= n,
            words@ =~= words_at(p@, 8, i as nat),
        decreases n - i,
    {
        words.push(read_u32(p, 8 + 4 * i));
        i = i + 1;
    }
    Ok(NavMessage { kind: k, timestamp, svid: p[6], words })
}

/// Decodes a GPS ephemeris and clock payload.
pub fn decode_gpsnav(revision: u8, p: &[u8]) -> (r: Result<NavMessage, DecodeError>)
    ensures
        nav_result(NavKind::GpsNav, revision, p@, r),
{
    decode_nav(NavKind::GpsNav, revision, p)
}

/// Decodes a Galileo ephemeris, clock, health and group delay payload.
pub fn decode_galnav(revision: u8, p: &[u8]) -> (r: Result<NavMessage, DecodeError>)
    ensures
        nav_result(NavKind::GalNav, revision, p@, r),
{
    decode_nav(NavKind::GalNav, revision, p)
}

/// Decodes a GLONASS ephemeris and clock payload.
pub fn decode_glonav(revision: u8, p: &[u8]) -> (r: Result<NavMessage, DecodeError>)
    ensures
        nav_result(NavKind::GloNav, revision, p@, r),
{
    decode_nav(NavKind::GloNav, revision, p)
}

/// Decodes an SBAS navigation message payload.
pub fn decode_sbasnav(revision: u8, p: &[u8]) -> (r: Result<NavMessage, DecodeError>)
    ensures
        nav_result(NavKind::SbasNav, revision, p@, r),
{
    decode_nav(NavKind::SbasNav, revision, p)
}

/// Decodes a GPS C/A navigation subframe payload.
pub fn decode_gpsrawcanav(revision: u8, p: &[u8]) -> (r: Result<NavMessage, DecodeError>)
    ensures
        nav_result(NavKind::GpsRawCa, revision, p@, r),
{
    decode_nav(NavKind::GpsRawCa, revision, p)
}

/// Decodes an SBAS L1 navigation message payload.
pub fn decode_georaw(revision: u8, p: &[u8]) -> (r: Result<NavMessage, DecodeError>)
    ensures
        nav_result(NavKind::GeoRaw, revision, p@, r),
{
    decode_nav(NavKind::GeoRaw, revision, p)
}

/// Decodes a GLONASS C/A navigation string payload.
pub fn decode_glorawcanav(revision: u8, p: &[u8]) -> (r: Result<NavMessage, DecodeError>)
    ensures
        nav_result(NavKind::GloRawCa, revision, p@, r),
{
    decode_nav(NavKind::GloRawCa, revision, p)
}

/// Decodes a GPS ionosphere payload.
pub fn decode_gpsion(revision: u8, p: &[u8]) -> (r: Result<NavMessage, DecodeError>)
    ensures
        nav_result(NavKind::GpsIon, revision, p@, r),
{
    decode_nav(NavKind::GpsIon, revision, p)
}

/// Decodes a Galileo NeQuick ionosphere payload.
pub fn decode_galion(revision: u8, p: &[u8]) -> (r: Result<NavMessage, DecodeError>)
    ensures
        nav_result(NavKind::GalIon, revision, p@, r),
{
    decode_nav(NavKind::GalIon, revision, p)
}

/// Decodes a GPS-UTC payload.
pub fn decode_gpsutc(revision: u8, p: &[u8]) -> (r: Result<NavMessage, DecodeError>)
    ensures
        nav_result(NavKind::GpsUtc, revision, p@, r),
{
    decode_nav(NavKind::GpsUtc, revision, p)
}

/// Decodes a GPS almanac payload.
pub fn decode_gpsalm(revision: u8, p: &[u8]) -> (r: Result<NavMessage, DecodeError>)
    ensures
        nav_result(NavKind::GpsAlm, revision, p@, r),
{
    decode_nav(NavKind::GpsAlm, revision, p)
}

/// Decodes a Galileo GST-UTC payload.
pub fn decode_galutc(revision: u8, p: &[u8]) -> (r: Result<NavMessage, DecodeError>)
    ensures
        nav_result(NavKind::GalUtc, revision, p@, r),
{
    decode_nav(NavKind::GalUtc, revision, p)
}

/// Decodes a Galileo almanac payload.
pub fn decode_galalm(revision: u8, p: &[u8]) -> (r: Result<NavMessage, DecodeError>)
    ensures
        nav_result(NavKind::GalAlm, revision, p@, r),
{
    decode_nav(NavKind::GalAlm, revision, p)
}

/// The size of a type-1 sub-block as this decoder reads it.
pub const MEAS_TYPE1_LEN: u8 = 20;

/// The offset of the first type-1 sub-block in a measurement epoch payload.
pub const MEAS_BODY_START: usize = 12;

/// One tracked signal of a measurement epoch.
#[derive(Clone, Copy, Debug, PartialEq, Eq, Structural)]
pub struct Measurement {
    pub svid: u8,
    /// The signal number: the low five bits of the sub-block's type byte.
    pub signal: u8,
    pub code: u32,
    pub doppler: u32,
    pub cn0: u8,
    pub lock_time: u16,
}

/// The measurements of all tracked signals at one instant.
#[derive(Clone, Debug, PartialEq, Eq)]
pub struct MeasEpoch {
    pub timestamp: SbfBlockTimestamp,
    pub common_flags: u8,
    pub measurements: Vec<Measurement>,
}

/// The mathematical form of a `MeasEpoch`.
pub struct MeasEpochView {
    pub timestamp: SbfBlockTimestamp,
    pub common_flags: u8,
    pub measurements: Seq<Measurement>,
}

impl View for MeasEpoch {
    type V = MeasEpochView;

    open spec fn view(&self) -> MeasEpochView {
        MeasEpochView {
            timestamp: self.timestamp,
            common_flags: self.common_flags,
            measurements: self.measurements@,
        }
    }
}

/// The offset of the `i`-th type-1 sub-block: each one is followed by as many
/// type-2 sub-blocks as its last byte says.
pub open spec fn meas_off(p: Seq<u8>, i: nat) -> int
    decreases i,
{
    if i == 0 {
        MEAS_BODY_START as int
    } else {
        let o = meas_off(p, (i - 1) as nat);
        o + p[7] + p[o + 19] * p[8]
    }
}

/// The measurement of the type-1 sub-block at `o`.
pub open spec fn meas_at(p: Seq<u8>, o: int) -> Measurement {
    Measurement {
        svid: p[o + 2],
        signal: (p[o + 1] % 32) as u8,
        code: le32(p, o + 4) as u32,
        doppler: le32(p, o + 8) as u32,
        cn0: p[o + 15],
        lock_time: le16(p, o + 16) as u16,
    }
}

/// Why a measurement epoch payload is refused, if it is.
pub open spec fn meas_error(revision: u8, p: Seq<u8>) -> Option<DecodeError> {
    if revision != 0 {
        Some(DecodeError::UnsupportedRevision)
    } else if p.len() < 6 {
        Some(DecodeError::TooShort)
    } else if !timestamp_at(p).is_consistent() {
        Some(DecodeError::PartialTimestamp)
    } else if p.len() < MEAS_BODY_START {
        Some(DecodeError::TooShort)
    } else if p[7] < MEAS_TYPE1_LEN {
        Some(DecodeError::BadSubBlockLength)
    } else if meas_off(p, p[6] as nat) > p.len() {
        Some(DecodeError::TooShort)
    } else {
        None
    }
}

/// What the measurement epoch payload `p` holds.
pub open spec fn meas_view(p: Seq<u8>) -> MeasEpochView {
    MeasEpochView {
        timestamp: timestamp_at(p),
        common_flags: p[9],
        measurements: Seq::new(p[6] as nat, |i: int| meas_at(p, meas_off(p, i as nat))),
    }
}

proof fn lemma_meas_off_grows(p: Seq<u8>, i: nat, j: nat)
    requires
        i <= j,
    ensures
        meas_off(p, i) + (j - i) * p[7] <= meas_off(p, j),
    decreases j - i,
{
    if i < j {
        lemma_meas_off_grows(p, i, (j - 1) as nat);
        let o = meas_off(p, (j - 1) as nat);
        assert(p[o + 19] * p[8] >= 0) by (nonlinear_arith)
            requires
                p[o + 19] >= 0,
                p[8] >= 0,
        ;
        assert((j - i) * p[7] == (j - 1 - i) * p[7] + p[7]) by (nonlinear_arith);
        assert(meas_off(p, j) == o + p[7] + p[o + 19] * p[8]);
    } else {
        assert((j - i) * p[7] == 0) by (nonlinear_arith)
            requires
                i == j,
        ;
    }
}

/// Decodes a measurement epoch payload; revision 0 is the only layout known.
pub fn decode_measepoch(revision: u8, p: &[u8]) -> (r: Result<MeasEpoch, DecodeError>)
    ensures
        match r {
            Ok(e) => meas_error(revision, p@) is None && e@ == meas_view(p@),
            Err(e) => meas_error(revision, p@) == Some(e),
        },
{
    if revision != 0 {
        return Err(DecodeError::UnsupportedRevision);
    }
    let timestamp = match decode_timestamp(p) {
        Ok(t) => t,
        Err(e) => return Err(e),
    };
    let len = p.len();
    if len < MEAS_BODY_START {
        return Err(DecodeError::TooShort);
    }
    let n1 = p[6] as usize;
    let sb1 = p[7] as usize;
    let sb2 = p[8] as usize;
    if sb1 < MEAS_TYPE1_LEN as usize {
        return Err(DecodeError::BadSubBlockLength);
    }
    let mut measurements: Vec<Measurement> = Vec::new();
    let mut off: usize = MEAS_BODY_START;
    let mut i: usize = 0;
    while i < n1
        invariant
            revision == 0,
            len == p@.len(),
            len >= MEAS_BODY_START,
            timestamp_at(p@).is_consistent(),
            timestamp == timestamp_at(p@),
            n1 == p@[6],
            sb1 == p@[7],
            sb2 == p@[8],
            sb1 >= 20,
            i <= n1,
            off == meas_off(p@, i as nat),
            off <= len,
            measurements@ =~= Seq::new(i as nat, |j: int| meas_at(p@, meas_off(p@, j as nat))),
        decreases n1 - i,
    {
        if sb1 > len - off {
            proof {
                lemma_meas_off_grows(p@, (i + 1) as nat, n1 as nat);
                assert(p@[off + 19] * p@[8] >= 0) by (nonlinear_arith)
                    requires
                        p@[off + 19] >= 0,
                        p@[8] >= 0,
                ;
                assert(meas_off(p@, (i + 1) as nat) == off + p@[7] + p@[off + 19] * p@[8]);
                assert(meas_off(p@, n1 as nat) > len);
            }
            return Err(DecodeError::TooShort);
        }
        let n2 = p[off + 19] as usize;
        assert(n2 * sb2 <= 255 * 255) by (nonlinear_arith)
            requires
                n2 <= 255,
                sb2 <= 255,
        ;
        let ext = sb1 + n2 * sb2;
        if ext > len - off {
            proof {
                lemma_meas_off_grows(p@, (i + 1) as nat, n1 as nat);
                assert(meas_off(p@, (i + 1) as nat) == off + p@[7] + p@[off + 19] * p@[8]);
                assert(meas_off(p@, n1 as nat) > len);
            }
            return Err(DecodeError::TooShort);
        }
        let m = Measurement {
            svid: p[off + 2],
            signal: p[off + 1] % 32,
            code: read_u32(p, off + 4),
            doppler: read_u32(p, off + 8),
            cn0: p[off + 15],
            lock_time: read_u16(p, off + 16),
        };
        measurements.push(m);
        proof {
            assert(meas_off(p@, (i + 1) as nat) == off + p@[7] + p@[off + 19] * p@[8]);
        }
        off = off + ext;
        i = i + 1;
    }
    Ok(MeasEpoch { timestamp, common_flags: p[9], measurements })
}

/// A position, velocity and time block: the solution mode and error code, and
/// the 32-bit words that follow, kept as they stand.
#[derive(Clone, Debug, PartialEq, Eq)]
pub struct PvtRecord {
    pub id: u16,
    pub timestamp: SbfBlockTimestamp,
    pub mode: u8,
    pub error: u8,
    pub words: Vec<u32>,
}

/// The mathematical form of a `PvtRecord`.
pub struct PvtView {
    pub id: u16,
    pub timestamp: SbfBlockTimestamp,
    pub mode: u8,
    pub error: u8,
    pub words: Seq<u32>,
}

impl View for PvtRecord {
    type V = PvtView;

    open spec fn view(&self) -> PvtView {
        PvtView { id: self.id, timestamp: self.timestamp, mode: self.mode, error: self.error, words: self.words@ }
    }
}

/// Why a position payload is refused, if it is.
pub open spec fn pvt_error(revision: u8, p: Seq<u8>) -> Option<DecodeError> {
    if revision != 0 {
        Some(DecodeError::UnsupportedRevision)
    } else if p.len() < 6 {
        Some(DecodeError::TooShort)
    } else if !timestamp_at(p).is_consistent() {
        Some(DecodeError::PartialTimestamp)
    } else if p.len() < 8 {
        Some(DecodeError::TooShort)
    } else {
        None
    }
}

/// What the position payload `p` of block `id` holds: every whole word after
/// the mode and error bytes.
pub open spec fn pvt_view(id: u16, p: Seq<u8>) -> PvtView {
    PvtView {
        id,
        timestamp: timestamp_at(p),
        mode: p[6],
        error: p[7],
        words: words_at(p, 8, ((p.len() - 8) / 4) as nat),
    }
}

/// Decodes a position, velocity and time payload; revision 0 is the only layout
/// known.
pub fn decode_pvt(id: u16, revision: u8, p: &[u8]) -> (r: Result<PvtRecord, DecodeError>)
    ensures
        match r {
            Ok(v) => pvt_error(revision, p@) is None && v@ == pvt_view(id, p@),
            Err(e) => pvt_error(revision, p@) == Some(e),
        },
{
    if revision != 0 {
        return Err(DecodeError::UnsupportedRevision);
    }
    let timestamp = match decode_timestamp(p) {
        Ok(t) => t,
        Err(e) => return Err(e),
    };
    if p.len() < 8 {
        return Err(DecodeError::TooShort);
    }
    let n = (p.len() - 8) / 4;
    let mut words: Vec<u32> = Vec::new();
    let mut i: usize = 0;
    while i < n
        invariant
            n == (p@.len() - 8) / 4,
            p@.len() >= 8,
            p@.len() <= usize::MAX,
            i <= n,
            words@ =~= words_at(p@, 8, i as nat),
        decreases n - i,
    {
        assert(8 + 4 * i + 4 <= p@.len()) by (nonlinear_arith)
            requires
                i < n,
                n == (p@.len() - 8) / 4,
                p@.len() >= 8,
        ;
        words.push(read_u32(p, 8 + 4 * i));
        i = i + 1;
    }
    Ok(PvtRecord { id, timestamp, mode: p[6], error: p[7], words })
}

/// A block after decoding.
#[derive(Clone, Debug, PartialEq, Eq)]
pub enum DecodedBlock {
    Measurement(MeasEpoch),
    EndOfMeasurement(SbfBlockTimestamp),
    EndOfPvt(SbfBlockTimestamp),
    Pvt(PvtRecord),
    Navigation(NavMessage),
    /// A block of a known category whose content beyond the timestamp is not used.
    Auxiliary { category: Category, id: u16, timestamp: SbfBlockTimestamp },
    /// A block whose identifier the registry does not list, kept as it came.
    Unknown(RawBlock),
}

/// Why the timestamp at the start of `p` is refused, if it is.
pub open spec fn timestamp_error(p: Seq<u8>) -> Option<DecodeError> {
    if p.len() < 6 {
        Some(DecodeError::TooShort)
    } else if !timestamp_at(p).is_consistent() {
        Some(DecodeError::PartialTimestamp)
    } else {
        None
    }
}

/// Why a block with this identifier, revision and payload is refused, if it is.
pub open spec fn decode_error(id: u16, revision: u8, p: Seq<u8>) -> Option<DecodeError> {
    if category_spec(id) == Category::Unknown {
        None
    } else if revision != 0 {
        Some(DecodeError::UnsupportedRevision)
    } else if id == MEAS_EPOCH {
        meas_error(revision, p)
    } else if category_spec(id) == Category::Pvt {
        pvt_error(revision, p)
    } else if nav_kind_spec(id) is Some {
        nav_error(nav_kind_spec(id)->0, revision, p)
    } else {
        timestamp_error(p)
    }
}

/// The mathematical form of a `DecodedBlock`.
pub enum BlockView {
    Measurement(MeasEpochView),
    EndOfMeasurement(SbfBlockTimestamp),
    EndOfPvt(SbfBlockTimestamp),
    Pvt(PvtView),
    Navigation(NavView),
    Auxiliary { category: Category, id: u16, timestamp: SbfBlockTimestamp },
    Unknown { id: u16, revision: u8, length: u16, payload: Seq<u8> },
}

impl View for DecodedBlock {
    type V = BlockView;

    open spec fn view(&self) -> BlockView {
        match self {
            DecodedBlock::Measurement(e) => BlockView::Measurement(e@),
            DecodedBlock::EndOfMeasurement(t) => BlockView::EndOfMeasurement(*t),
            DecodedBlock::EndOfPvt(t) => BlockView::EndOfPvt(*t),
            DecodedBlock::Pvt(v) => BlockView::Pvt(v@),
            DecodedBlock::Navigation(m) => BlockView::Navigation(m@),
            DecodedBlock::Auxiliary { category, id, timestamp } => BlockView::Auxiliary {
                category: *category,
                id: *id,
                timestamp: *timestamp,
            },
            DecodedBlock::Unknown(raw) => BlockView::Unknown {
                id: raw.id,
                revision: raw.revision,
                length: raw.length,
                payload: raw.payload@,
            },
        }
    }
}

/// What a block with this identifier, revision, length and payload decodes to.
pub open spec fn decode_view(id: u16, revision: u8, length: u16, p: Seq<u8>) -> Result<BlockView, DecodeError> {
    match decode_error(id, revision, p) {
        Some(e) => Err(e),
        None => Ok(
            if category_spec(id) == Category::Unknown {
                BlockView::Unknown { id, revision, length, payload: p }
            } else if id == MEAS_EPOCH {
                BlockView::Measurement(meas_view(p))
            } else if id == END_OF_MEAS {
                BlockView::EndOfMeasurement(timestamp_at(p))
            } else if id == END_OF_PVT {
                BlockView::EndOfPvt(timestamp_at(p))
            } else if category_spec(id) == Category::Pvt {
                BlockView::Pvt(pvt_view(id, p))
            } else if nav_kind_spec(id) is Some {
                BlockView::Navigation(nav_view(nav_kind_spec(id)->0, p))
            } else {
                BlockView::Auxiliary { category: category_spec(id), id, timestamp: timestamp_at(p) }
            },
        ),
    }
}

/// Decodes a block that passed framing: by the registry, an unlisted identifier
/// gives an `Unknown` record, a listed one its family's decoder.
pub fn decode_sbf(raw: &RawBlock) -> (r: Result<DecodedBlock, DecodeError>)
    ensures
        match r {
            Ok(b) => decode_view(raw.id, raw.revision, raw.length, raw.payload@) == Ok::<
                BlockView,
                DecodeError,
            >(b@),
            Err(e) => decode_view(raw.id, raw.revision, raw.length, raw.payload@) == Err::<
                BlockView,
                DecodeError,
            >(e),
        },
{
    let id = raw.id;
    let category = category_of(id);
    if category == Category::Unknown {
        let payload = slice_to_vec(raw.payload.as_slice());
        return Ok(
            DecodedBlock::Unknown(
                RawBlock { id: raw.id, revision: raw.revision, length: raw.length, payload },
            ),
        );
    }
    if raw.revision != 0 {
        return Err(DecodeError::UnsupportedRevision);
    }
    let p = raw.payload.as_slice();
    if id == MEAS_EPOCH {
        return match decode_measepoch(raw.revision, p) {
            Ok(e) => Ok(DecodedBlock::Measurement(e)),
            Err(e) => Err(e),
        };
    }
    if category == Category::Pvt {
        return match decode_pvt(id, raw.revision, p) {
            Ok(v) => Ok(DecodedBlock::Pvt(v)),
            Err(e) => Err(e),
        };
    }
    match nav_kind_of(id) {
        Some(k) => match decode_nav(k, raw.revision, p) {
            Ok(m) => Ok(DecodedBlock::Navigation(m)),
            Err(e) => Err(e),
        },
        None => match decode_timestamp(p) {
            Err(e) => Err(e),
            Ok(timestamp) => if id == END_OF_MEAS {
                Ok(DecodedBlock::EndOfMeasurement(timestamp))
            } else if id == END_OF_PVT {
                Ok(DecodedBlock::EndOfPvt(timestamp))
            } else {
                Ok(DecodedBlock::Auxiliary { category, id, timestamp })
            },
        },
    }
}

} // verus!
