//! The 16-bit block checksum: CRC-16 with the CCITT polynomial 0x1021,
//! initial value zero, bits taken most significant first.
use vstd::prelude::*;

verus! {

/// One shift of the checksum register, folding in the polynomial when the top bit falls out.
pub open spec fn crc_shift(c: u16) -> u16 {
    if c & 0x8000u16 == 0u16 {
        (c << 1u16) as u16
    } else {
        ((c << 1u16) ^ 0x1021u16) as u16
    }
}

/// The register after one more byte.
pub open spec fn crc_byte(c: u16, b: u8) -> u16 {
    crc_shift(
        crc_shift(
            crc_shift(
                crc_shift(crc_shift(crc_shift(crc_shift(crc_shift(c ^ ((b as u16) << 8u16))))))
            ),
        ),
    )
}

/// The checksum of a byte sequence.
pub open spec fn crc_of(s: Seq<u8>) -> u16
    decreases s.len(),
{
    if s.len() == 0 {
        0u16
    } else {
        crc_byte(crc_of(s.drop_last()), s.last())
    }
}

fn shift_exec(c: u16) -> (r: u16)
    ensures
        r == crc_shift(c),
{
    if c & 0x8000u16 == 0u16 {
        c << 1u16
    } else {
        (c << 1u16) ^ 0x1021u16
    }
}

fn byte_exec(c: u16, b: u8) -> (r: u16)
    ensures
        r == crc_byte(c, b),
{
    let mut x: u16 = c ^ ((b as u16) << 8u16);
    x = shift_exec(x);
    x = shift_exec(x);
    x = shift_exec(x);
    x = shift_exec(x);
    x = shift_exec(x);
    x = shift_exec(x);
    x = shift_exec(x);
    shift_exec(x)
}

/// The checksum of `data[start..end]`.
pub fn crc16(data: &[u8], start: usize, end: usize) -> (r: u16)
    requires
        start <= end <= data@.len(),
    ensures
        r == crc_of(data@.subrange(start as int, end as int)),
{
    let mut c: u16 = 0;
    let mut i: usize = start;
    assert(data@.subrange(start as int, start as int) =~= Seq::<u8>::empty());
    while i < end
        invariant
            start <= i <= end <= data@.len(),
            c == crc_of(data@.subrange(start as int, i as int)),
        decreases end - i,
    {
        let ghost prev = data@.subrange(start as int, i as int);
        c = byte_exec(c, data[i]);
        i = i + 1;
        assert(data@.subrange(start as int, i as int).drop_last() =~= prev);
    }
    c
}

proof fn lemma_byte_injective_in_state(c1: u16, c2: u16, b: u8)
    requires
        c1 != c2,
    ensures
        crc_byte(c1, b) != crc_byte(c2, b),
{
    assert(c1 != c2 ==> crc_byte(c1, b) != crc_byte(c2, b)) by (bit_vector);
}

proof fn lemma_byte_injective_in_byte(c: u16, b1: u8, b2: u8)
    requires
        b1 != b2,
    ensures
        crc_byte(c, b1) != crc_byte(c, b2),
{
    assert(b1 != b2 ==> crc_byte(c, b1) != crc_byte(c, b2)) by (bit_vector);
}

/// Two byte sequences of one length that differ in exactly one byte have different
/// checksums: a single corrupted byte is always detected.
pub proof fn lemma_crc_detects_one_byte(s: Seq<u8>, t: Seq<u8>, k: int)
    requires
        s.len() == t.len(),
        0 <= k < s.len(),
        s[k] != t[k],
        forall|i: int| 0 <= i < s.len() && i != k ==> s[i] == t[i],
    ensures
        crc_of(s) != crc_of(t),
    decreases s.len(),
{
    if s.len() - 1 == k {
        assert(s.drop_last() =~= t.drop_last());
        lemma_byte_injective_in_byte(crc_of(s.drop_last()), s.last(), t.last());
    } else {
        lemma_crc_detects_one_byte(s.drop_last(), t.drop_last(), k);
        assert(s.last() == t.last());
        lemma_byte_injective_in_state(crc_of(s.drop_last()), crc_of(t.drop_last()), s.last());
    }
}

} // verus!
