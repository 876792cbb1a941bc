//! The checksum's guarantee at the level of whole blocks.
use vstd::prelude::*;
use crate::bytes::le16;
use crate::crc::lemma_crc_detects_one_byte;
use crate::encode::{frame_bytes, lemma_frame_accepted, payload_fits};
use crate::frame::{frame_item, FrameView, FramingError, HEADER_LEN};

verus! {

/// Changing exactly one payload byte of a well-formed block makes the scanner
/// reject it with a checksum mismatch: a corrupted payload byte is never accepted.
pub proof fn lemma_corrupt_payload_rejected(s: Seq<u8>, t: Seq<u8>, p: int, id_rev: u16, payload: Seq<u8>, j: int)
    requires
        payload_fits(payload),
        0 <= p,
        p + payload.len() + HEADER_LEN <= s.len(),
        s.subrange(p, p + payload.len() + HEADER_LEN) == frame_bytes(id_rev, payload),
        t.len() == s.len(),
        p + HEADER_LEN <= j < p + payload.len() + HEADER_LEN,
        t[j] != s[j],
        forall|i: int| 0 <= i < s.len() && i != j ==> t[i] == s[i],
    ensures
        frame_item(t, p) == (FrameView::Fault { error: FramingError::CrcMismatch, position: p }),
{
    let len = payload.len() + HEADER_LEN;
    lemma_frame_accepted(s, p, id_rev, payload);
    assert(t.subrange(p, p + 8) =~= s.subrange(p, p + 8));
    assert(le16(t, p + 2) == le16(s, p + 2));
    assert(le16(t, p + 6) == le16(s, p + 6));
    let a = s.subrange(p + 4, p + len);
    let b = t.subrange(p + 4, p + len);
    assert(b[j - p - 4] != a[j - p - 4]);
    lemma_crc_detects_one_byte(a, b, j - p - 4);
}

} // verus!
