//! Locating, checking and cutting out the blocks of a byte stream.
//!
//! A block starts with the two sync bytes `$@`, then the checksum, the identifier
//! with its revision, and the total length, each a little-endian `u16`. The
//! checksum covers everything from the identifier to the end of the block.
use vstd::prelude::*;
use vstd::slice::{slice_subrange, slice_to_vec};
use crate::bytes::{le16, read_u16};
use crate::crc::{crc16, crc_of};
use crate::cursor::ByteCursor;

verus! {

pub const SYNC1: u8 = 0x24;

pub const SYNC2: u8 = 0x40;

/// Sync, checksum, identifier and length.
pub const HEADER_LEN: u16 = 8;

/// Why a candidate block at a sync marker was not accepted.
#[derive(Clone, Copy, Debug, PartialEq, Eq, Structural)]
pub enum FramingError {
    /// The header or the declared block runs past the end of the input.
    Truncated,
    /// The declared length is shorter than a header or not a multiple of four.
    InvalidLength,
    /// The checksum in the header does not match the block's bytes.
    CrcMismatch,
}

/// The fixed header of a block, as it stands in the stream.
#[derive(Clone, Copy, Debug, PartialEq, Eq)]
pub struct SbfBlockHeader {
    pub sync: [u8; 2],
    pub crc: u16,
    /// Identifier in the low 13 bits, revision in the high 3.
    pub id: u16,
    pub length: u16,
}

impl SbfBlockHeader {
    pub open spec fn spec_block_id(&self) -> u16 {
        (self.id % 8192) as u16
    }

    pub open spec fn spec_revision(&self) -> u8 {
        (self.id / 8192) as u8
    }

    /// The block identifier, without the revision bits.
    pub fn block_id(&self) -> (r: u16)
        ensures
            r == self.spec_block_id(),
    {
        self.id % 8192
    }

    /// The layout revision of the block.
    pub fn revision(&self) -> (r: u8)
        ensures
            r == self.spec_revision(),
    {
        (self.id / 8192) as u8
    }
}

/// A block that passed the length and checksum checks.
#[derive(Clone, Debug, PartialEq, Eq)]
pub struct RawBlock {
    pub id: u16,
    pub revision: u8,
    pub length: u16,
    /// The bytes after the header.
    pub payload: Vec<u8>,
}

/// What the scanner reports at one sync marker.
#[derive(Clone, Debug, PartialEq, Eq)]
pub enum ScanItem {
    Block(RawBlock),
    /// A rejected candidate and the offset of its sync marker.
    Fault(FramingError, usize),
}

/// The mathematical form of a `ScanItem`.
pub enum FrameView {
    Block { id: u16, revision: u8, length: u16, payload: Seq<u8> },
    Fault { error: FramingError, position: int },
}

impl View for ScanItem {
    type V = FrameView;

    open spec fn view(&self) -> FrameView {
        match self {
            ScanItem::Block(b) => FrameView::Block {
                id: b.id,
                revision: b.revision,
                length: b.length,
                payload: b.payload@,
            },
            ScanItem::Fault(e, p) => FrameView::Fault { error: *e, position: *p as int },
        }
    }
}

/// A sync marker starts at `s[p]`.
pub open spec fn is_sync(s: Seq<u8>, p: int) -> bool {
    0 <= p && p + 1 < s.len() && s[p] == SYNC1 && s[p + 1] == SYNC2
}

/// The length that a header at `p` declares.
pub open spec fn declared_len(s: Seq<u8>, p: int) -> int {
    le16(s, p + 6)
}

/// Why the candidate block at the sync marker `p` is rejected, if it is.
pub open spec fn frame_fault(s: Seq<u8>, p: int) -> Option<FramingError> {
    if p + HEADER_LEN > s.len() {
        Some(FramingError::Truncated)
    } else if declared_len(s, p) < HEADER_LEN || declared_len(s, p) % 4 != 0 {
        Some(FramingError::InvalidLength)
    } else if p + declared_len(s, p) > s.len() {
        Some(FramingError::Truncated)
    } else if le16(s, p + 2) != crc_of(s.subrange(p + 4, p + declared_len(s, p))) {
        Some(FramingError::CrcMismatch)
    } else {
        None
    }
}

/// What the scanner reports for the sync marker at `p`.
pub open spec fn frame_item(s: Seq<u8>, p: int) -> FrameView {
    match frame_fault(s, p) {
        Some(e) => FrameView::Fault { error: e, position: p },
        None => FrameView::Block {
            id: (le16(s, p + 4) % 8192) as u16,
            revision: (le16(s, p + 4) / 8192) as u8,
            length: declared_len(s, p) as u16,
            payload: s.subrange(p + HEADER_LEN, p + declared_len(s, p)),
        },
    }
}

/// Where scanning goes on after the sync marker at `p`: past the block when it was
/// accepted, else one byte further, so that a false marker is never read twice.
pub open spec fn frame_next(s: Seq<u8>, p: int) -> int {
    match frame_fault(s, p) {
        Some(_) => p + 1,
        None => p + declared_len(s, p),
    }
}

/// Everything the scanner reports from offset `p` to the end of the input.
pub open spec fn scan_from(s: Seq<u8>, p: int) -> Seq<FrameView>
    decreases s.len() - p,
{
    if p < 0 || p + 1 >= s.len() {
        Seq::empty()
    } else if !is_sync(s, p) {
        scan_from(s, p + 1)
    } else {
        seq![frame_item(s, p)] + scan_from(s, frame_next(s, p))
    }
}

/// Reads the header at `p`, when the input holds a whole one there.
pub fn read_header(data: &[u8], p: usize) -> (r: Option<SbfBlockHeader>)
    ensures
        p + HEADER_LEN <= data@.len() <==> r is Some,
        r matches Some(h) ==> {
            &&& h.sync[0] == data@[p as int]
            &&& h.sync[1] == data@[p + 1]
            &&& h.crc == le16(data@, p + 2)
            &&& h.id == le16(data@, p + 4)
            &&& h.length == declared_len(data@, p as int)
        },
{
    if data.len() < 8 || p > data.len() - 8 {
        None
    } else {
        Some(
            SbfBlockHeader {
                sync: [data[p], data[p + 1]],
                crc: read_u16(data, p + 2),
                id: read_u16(data, p + 4),
                length: read_u16(data, p + 6),
            },
        )
    }
}

/// Checks the candidate block at the sync marker `p`; returns the report and the
/// offset where scanning goes on.
pub fn scan_frame(data: &[u8], p: usize) -> (r: (ScanItem, usize))
    requires
        is_sync(data@, p as int),
    ensures
        r.0@ == frame_item(data@, p as int),
        r.1 == frame_next(data@, p as int),
{
    let _n = data.len();
    match read_header(data, p) {
        None => (ScanItem::Fault(FramingError::Truncated, p), p + 1),
        Some(h) => {
            let len = h.length as usize;
            if len < 8 || len % 4 != 0 {
                (ScanItem::Fault(FramingError::InvalidLength, p), p + 1)
            } else if len > data.len() - p {
                (ScanItem::Fault(FramingError::Truncated, p), p + 1)
            } else if h.crc != crc16(data, p + 4, p + len) {
                (ScanItem::Fault(FramingError::CrcMismatch, p), p + 1)
            } else {
                let payload = slice_to_vec(slice_subrange(data, p + 8, p + len));
                let block = RawBlock {
                    id: h.block_id(),
                    revision: h.revision(),
                    length: h.length,
                    payload,
                };
                (ScanItem::Block(block), p + len)
            }
        },
    }
}

/// Scans the whole input: every sync marker that is not inside an accepted block
/// gives one report, in stream order.
pub fn scan(data: &[u8]) -> (r: Vec<ScanItem>)
    ensures
        r@.len() == scan_from(data@, 0).len(),
        forall|i: int| 0 <= i < r@.len() ==> #[trigger] r@[i]@ == scan_from(data@, 0)[i],
{
    let mut items: Vec<ScanItem> = Vec::new();
    let mut cur = ByteCursor::new(data);
    while cur.remaining() > 1
        invariant
            cur.wf(),
            cur.bytes() == data@,
            scan_from(data@, 0) == items@.map_values(|it: ScanItem| it@) + scan_from(
                data@,
                cur.spec_position(),
            ),
        decreases data@.len() - cur.spec_position(),
    {
        let p = cur.position();
        let marker = cur.peek(2);
        let found = match marker {
            Ok(m) => m[0] == SYNC1 && m[1] == SYNC2,
            Err(_) => false,
        };
        if found {
            let (item, next) = scan_frame(cur.data(), p);
            proof {
                assert(items@.push(item).map_values(|it: ScanItem| it@) =~= items@.map_values(
                    |it: ScanItem| it@,
                ).push(item@));
            }
            items.push(item);
            cur.advance(next - p);
        } else {
            cur.advance(1);
        }
    }
    assert(scan_from(data@, cur.spec_position()) =~= Seq::empty());
    assert(scan_from(data@, 0) =~= items@.map_values(|it: ScanItem| it@));
    items
}

} // verus!
