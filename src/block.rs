//! Block identifiers, the registry from identifier to category, and the
//! timestamp that opens nearly every payload.
use vstd::prelude::*;
use crate::bytes::{le16, le32, read_u16, read_u32};
use crate::frame::{read_header, SbfBlockHeader};

verus! {

// Measurement blocks
pub const MEAS_EPOCH: u16 = 4027;
pub const MEAS_EXTRA: u16 = 4000;
pub const MEAS3_RANGES: u16 = 4109;
pub const MEAS3_CN0_HI_RES: u16 = 4110;
pub const MEAS3_DOPPLER: u16 = 4111;
pub const MEAS3_PP: u16 = 4112;
pub const MEAS3_MP: u16 = 4113;
pub const END_OF_MEAS: u16 = 5922;

// Navigation page blocks
pub const GPS_RAW_CA: u16 = 4017;
pub const GPS_RAW_L2C: u16 = 4018;
pub const GPS_RAW_L5: u16 = 4019;
pub const GEO_RAW_L1: u16 = 4020;
pub const GEO_RAW_L5: u16 = 4021;
pub const GAL_RAW_FNAV: u16 = 4022;
pub const GAL_RAW_INAV: u16 = 4023;
pub const GAL_RAW_CNAV: u16 = 4024;
pub const GLO_RAW_CA: u16 = 4026;
pub const BDS_RAW: u16 = 4047;

// Decoded navigation message blocks
pub const GPS_NAV: u16 = 5891;
pub const GPS_ALM: u16 = 5892;
pub const GPS_ION: u16 = 5893;
pub const GPS_UTC: u16 = 5894;
pub const GLO_NAV: u16 = 4004;
pub const GLO_ALM: u16 = 4005;
pub const GAL_NAV: u16 = 4002;
pub const GAL_ALM: u16 = 4003;
pub const GAL_ION: u16 = 4030;
pub const GAL_UTC: u16 = 4031;
pub const GEO_NAV: u16 = 5896;
pub const BDS_NAV: u16 = 4081;

// Position, velocity and time blocks
pub const PVT_CARTESIAN: u16 = 4006;
pub const PVT_GEODETIC: u16 = 4007;
pub const DOP: u16 = 4001;
pub const END_OF_PVT: u16 = 5921;

// Receiver time and external event blocks
pub const RECEIVER_TIME: u16 = 5914;
pub const EXT_EVENT: u16 = 5924;

// Differential correction blocks
pub const DIFF_CORR_IN: u16 = 5919;
pub const BASE_STATION: u16 = 5949;

// Status blocks
pub const CHANNEL_STATUS: u16 = 4013;
pub const RECEIVER_STATUS: u16 = 4014;
pub const SAT_VISIBILITY: u16 = 4012;
pub const QUALITY_IND: u16 = 4082;

// Miscellaneous blocks
pub const RECEIVER_SETUP: u16 = 5902;
pub const COMMENT: u16 = 5936;

/// The "do not use" value of the time of week.
pub const TOW_DNU: u32 = 4294967295;

/// The "do not use" value of the week number.
pub const WNC_DNU: u16 = 65535;

/// The family a block identifier belongs to.
#[derive(Clone, Copy, Debug, PartialEq, Eq, Structural)]
pub enum Category {
    Measurement,
    EndOfMeasurement,
    RawNavigation,
    NavigationMessage,
    Pvt,
    EndOfPvt,
    ReceiverTime,
    ExternalEvent,
    DifferentialCorrection,
    ReceiverStatus,
    Miscellaneous,
    Unknown,
}

/// The registry: every identifier has a category, `Unknown` for those not listed.
pub open spec fn category_spec(id: u16) -> Category {
    if id == MEAS_EPOCH || id == MEAS_EXTRA || id == MEAS3_RANGES || id == MEAS3_CN0_HI_RES
        || id == MEAS3_DOPPLER || id == MEAS3_PP || id == MEAS3_MP {
        Category::Measurement
    } else if id == END_OF_MEAS {
        Category::EndOfMeasurement
    } else if id == GPS_RAW_CA || id == GPS_RAW_L2C || id == GPS_RAW_L5 || id == GEO_RAW_L1
        || id == GEO_RAW_L5 || id == GAL_RAW_FNAV || id == GAL_RAW_INAV || id == GAL_RAW_CNAV
        || id == GLO_RAW_CA || id == BDS_RAW {
        Category::RawNavigation
    } else if id == GPS_NAV || id == GPS_ALM || id == GPS_ION || id == GPS_UTC || id == GLO_NAV
        || id == GLO_ALM || id == GAL_NAV || id == GAL_ALM || id == GAL_ION || id == GAL_UTC
        || id == GEO_NAV || id == BDS_NAV {
        Category::NavigationMessage
    } else if id == PVT_CARTESIAN || id == PVT_GEODETIC || id == DOP {
        Category::Pvt
    } else if id == END_OF_PVT {
        Category::EndOfPvt
    } else if id == RECEIVER_TIME {
        Category::ReceiverTime
    } else if id == EXT_EVENT {
        Category::ExternalEvent
    } else if id == DIFF_CORR_IN || id == BASE_STATION {
        Category::DifferentialCorrection
    } else if id == CHANNEL_STATUS || id == RECEIVER_STATUS || id == SAT_VISIBILITY || id
        == QUALITY_IND {
        Category::ReceiverStatus
    } else if id == RECEIVER_SETUP || id == COMMENT {
        Category::Miscellaneous
    } else {
        Category::Unknown
    }
}

/// The position of each category in a table of per-category counters.
pub open spec fn category_index_spec(c: Category) -> nat {
    match c {
        Category::Measurement => 0,
        Category::EndOfMeasurement => 1,
        Category::RawNavigation => 2,
        Category::NavigationMessage => 3,
        Category::Pvt => 4,
        Category::EndOfPvt => 5,
        Category::ReceiverTime => 6,
        Category::ExternalEvent => 7,
        Category::DifferentialCorrection => 8,
        Category::ReceiverStatus => 9,
        Category::Miscellaneous => 10,
        Category::Unknown => 11,
    }
}

/// The number of categories.
pub const CATEGORY_COUNT: usize = 12;

/// The position of a category in a table of per-category counters.
pub fn category_index(c: Category) -> (r: usize)
    ensures
        r == category_index_spec(c),
        r < CATEGORY_COUNT,
{
    match c {
        Category::Measurement => 0,
        Category::EndOfMeasurement => 1,
        Category::RawNavigation => 2,
        Category::NavigationMessage => 3,
        Category::Pvt => 4,
        Category::EndOfPvt => 5,
        Category::ReceiverTime => 6,
        Category::ExternalEvent => 7,
        Category::DifferentialCorrection => 8,
        Category::ReceiverStatus => 9,
        Category::Miscellaneous => 10,
        Category::Unknown => 11,
    }
}

/// Looks up the category of a block identifier.
pub fn category_of(id: u16) -> (r: Category)
    ensures
        r == category_spec(id),
{
    if id == MEAS_EPOCH || id == MEAS_EXTRA || id == MEAS3_RANGES || id == MEAS3_CN0_HI_RES
        || id == MEAS3_DOPPLER || id == MEAS3_PP || id == MEAS3_MP {
        Category::Measurement
    } else if id == END_OF_MEAS {
        Category::EndOfMeasurement
    } else if id == GPS_RAW_CA || id == GPS_RAW_L2C || id == GPS_RAW_L5 || id == GEO_RAW_L1
        || id == GEO_RAW_L5 || id == GAL_RAW_FNAV || id == GAL_RAW_INAV || id == GAL_RAW_CNAV
        || id == GLO_RAW_CA || id == BDS_RAW {
        Category::RawNavigation
    } else if id == GPS_NAV || id == GPS_ALM || id == GPS_ION || id == GPS_UTC || id == GLO_NAV
        || id == GLO_ALM || id == GAL_NAV || id == GAL_ALM || id == GAL_ION || id == GAL_UTC
        || id == GEO_NAV || id == BDS_NAV {
        Category::NavigationMessage
    } else if id == PVT_CARTESIAN || id == PVT_GEODETIC || id == DOP {
        Category::Pvt
    } else if id == END_OF_PVT {
        Category::EndOfPvt
    } else if id == RECEIVER_TIME {
        Category::ReceiverTime
    } else if id == EXT_EVENT {
        Category::ExternalEvent
    } else if id == DIFF_CORR_IN || id == BASE_STATION {
        Category::DifferentialCorrection
    } else if id == CHANNEL_STATUS || id == RECEIVER_STATUS || id == SAT_VISIBILITY || id
        == QUALITY_IND {
        Category::ReceiverStatus
    } else if id == RECEIVER_SETUP || id == COMMENT {
        Category::Miscellaneous
    } else {
        Category::Unknown
    }
}

/// The GNSS time of a block: milliseconds into the week, and the week number.
#[derive(Clone, Copy, Debug, PartialEq, Eq, Structural)]
pub struct SbfBlockTimestamp {
    pub tow: u32,
    pub wnc: u16,
}

impl SbfBlockTimestamp {
    /// Either both fields carry a value or both hold their "do not use" value.
    pub open spec fn is_consistent(&self) -> bool {
        (self.tow == TOW_DNU) == (self.wnc == WNC_DNU)
    }

    /// The order of epochs: by week number, then by time of week.
    pub open spec fn spec_before(&self, o: SbfBlockTimestamp) -> bool {
        self.wnc < o.wnc || (self.wnc == o.wnc && self.tow < o.tow)
    }

    /// Whether `self` comes strictly before `o` in GNSS time.
    pub fn before(&self, o: &SbfBlockTimestamp) -> (r: bool)
        ensures
            r == self.spec_before(*o),
    {
        self.wnc < o.wnc || (self.wnc == o.wnc && self.tow < o.tow)
    }
}

/// The header and timestamp that open a block.
#[derive(Clone, Copy, Debug, PartialEq, Eq)]
pub struct SbfBlock {
    pub header: SbfBlockHeader,
    pub timestamp: SbfBlockTimestamp,
}

/// The timestamp stored at the start of a payload.
pub open spec fn timestamp_at(p: Seq<u8>) -> SbfBlockTimestamp {
    SbfBlockTimestamp { tow: le32(p, 0) as u32, wnc: le16(p, 4) as u16 }
}

/// Why a payload is refused.
#[derive(Clone, Copy, Debug, PartialEq, Eq, Structural)]
pub enum DecodeError {
    /// The payload is shorter than its layout needs.
    TooShort,
    /// The block's revision has no known layout.
    UnsupportedRevision,
    /// Exactly one of the two timestamp fields holds its "do not use" value.
    PartialTimestamp,
    /// A size field inside the payload is smaller than the layout allows.
    BadSubBlockLength,
}

/// Reads the timestamp at the start of a payload, refusing a short payload and a
/// timestamp of which only one field is set.
pub fn decode_timestamp(p: &[u8]) -> (r: Result<SbfBlockTimestamp, DecodeError>)
    ensures
        p@.len() < 6 ==> r == Err::<SbfBlockTimestamp, DecodeError>(DecodeError::TooShort),
        p@.len() >= 6 && !timestamp_at(p@).is_consistent() ==> r == Err::<
            SbfBlockTimestamp,
            DecodeError,
        >(DecodeError::PartialTimestamp),
        p@.len() >= 6 && timestamp_at(p@).is_consistent() ==> r == Ok::<
            SbfBlockTimestamp,
            DecodeError,
        >(timestamp_at(p@)),
{
    if p.len() < 6 {
        return Err(DecodeError::TooShort);
    }
    let t = SbfBlockTimestamp { tow: read_u32(p, 0), wnc: read_u16(p, 4) };
    if (t.tow == TOW_DNU) != (t.wnc == WNC_DNU) {
        Err(DecodeError::PartialTimestamp)
    } else {
        Ok(t)
    }
}

/// Reads the header and the timestamp of the block whose sync marker is at `p`,
/// when the input holds them.
pub fn read_block_head(data: &[u8], p: usize) -> (r: Option<SbfBlock>)
    ensures
        p + 14 <= data@.len() <==> r is Some,
        r matches Some(b) ==> {
            &&& b.header.id == le16(data@, p + 4)
            &&& b.header.length == le16(data@, p + 6)
            &&& b.header.crc == le16(data@, p + 2)
            &&& b.timestamp.tow == le32(data@, p + 8)
            &&& b.timestamp.wnc == le16(data@, p + 12)
        },
{
    if data.len() < 14 || p > data.len() - 14 {
        return None;
    }
    match read_header(data, p) {
        None => None,
        Some(header) => Some(
            SbfBlock {
                header,
                timestamp: SbfBlockTimestamp { tow: read_u32(data, p + 8), wnc: read_u16(data, p + 12) },
            },
        ),
    }
}

} // verus!
