//! Bytes as they stand on the wire: big-endian integers and fields of a
//! fixed width.

use vstd::prelude::*;

verus! {

/// `value` as two bytes, the high one first.
pub open spec fn be16(value: u16) -> Seq<u8> {
    seq![(value / 0x100) as u8, (value % 0x100) as u8]
}

/// The integer whose high byte is `high` and whose low byte is `low`.
pub open spec fn from_be16(high: u8, low: u8) -> u16 {
    (high * 0x100 + low) as u16
}

/// `value` as four bytes, the highest first.
pub open spec fn be32(value: u32) -> Seq<u8> {
    seq![
        (value / 0x100_0000) as u8,
        (value / 0x1_0000 % 0x100) as u8,
        (value / 0x100 % 0x100) as u8,
        (value % 0x100) as u8,
    ]
}

/// The integer whose bytes, the highest first, are `a`, `b`, `c` and `d`.
pub open spec fn from_be32(a: u8, b: u8, c: u8, d: u8) -> u32 {
    (a * 0x100_0000 + b * 0x1_0000 + c * 0x100 + d) as u32
}

/// `bytes` in a field of `width` bytes: cut where it is longer, filled up
/// with zeros where it is shorter.
pub open spec fn fitted(bytes: Seq<u8>, width: nat) -> Seq<u8> {
    Seq::new(width, |i: int| if i < bytes.len() { bytes[i] } else { 0 })
}

/// What a sixteen-bit length field says of `length`: zero where it does not
/// fit.
pub open spec fn length_field(length: nat) -> u16 {
    if length <= 0xffff {
        length as u16
    } else {
        0
    }
}

/// Two big-endian bytes give back the integer they were made from.
pub proof fn lemma_be16(value: u16)
    ensures
        be16(value).len() == 2,
        from_be16(be16(value)[0], be16(value)[1]) == value,
{
}

/// Four big-endian bytes give back the integer they were made from.
pub proof fn lemma_be32(value: u32)
    ensures
        be32(value).len() == 4,
        from_be32(be32(value)[0], be32(value)[1], be32(value)[2], be32(value)[3]) == value,
{
}

/// Two bytes are the big-endian bytes of the integer they give.
pub proof fn lemma_from_be16(high: u8, low: u8)
    ensures
        be16(from_be16(high, low)) == seq![high, low],
{
}

/// The integer whose high byte is `high` and whose low byte is `low`.
pub(crate) fn read_be16(high: u8, low: u8) -> (value: u16)
    ensures
        value == from_be16(high, low),
{
    high as u16 * 0x100 + low as u16
}

/// The integer whose bytes, the highest first, are `a`, `b`, `c` and `d`.
pub(crate) fn read_be32(a: u8, b: u8, c: u8, d: u8) -> (value: u32)
    ensures
        value == from_be32(a, b, c, d),
{
    a as u32 * 0x100_0000 + b as u32 * 0x1_0000 + c as u32 * 0x100 + d as u32
}

/// Append `value` big-endian.
pub(crate) fn push_be16(out: &mut Vec<u8>, value: u16)
    ensures
        final(out)@ == old(out)@ + be16(value),
{
    out.push((value / 0x100) as u8);
    out.push((value % 0x100) as u8);
    assert(out@ =~= old(out)@ + be16(value));
}

/// Append `value` big-endian.
pub(crate) fn push_be32(out: &mut Vec<u8>, value: u32)
    ensures
        final(out)@ == old(out)@ + be32(value),
{
    out.push((value / 0x100_0000) as u8);
    out.push((value / 0x1_0000 % 0x100) as u8);
    out.push((value / 0x100 % 0x100) as u8);
    out.push((value % 0x100) as u8);
    assert(out@ =~= old(out)@ + be32(value));
}

/// Append `bytes`.
pub(crate) fn push_bytes(out: &mut Vec<u8>, bytes: &[u8])
    ensures
        final(out)@ == old(out)@ + bytes@,
{
    out.extend_from_slice(bytes);
    assert(out@ =~= old(out)@ + bytes@);
}

/// Make `out` a field of `width` bytes.
pub(crate) fn fit(out: &mut Vec<u8>, width: usize)
    ensures
        final(out)@ == fitted(old(out)@, width as nat),
{
    let ghost before = out@;
    out.resize(width, 0);
    proof {
        if width > before.len() {
            assert forall|i: int| 0 <= i < before.len() implies out@[i] == before[i] by {
                assert(out@.subrange(0, before.len() as int)[i] == out@[i]);
            }
        }
        assert(out@ =~= fitted(before, width as nat));
    }
}

/// What a sixteen-bit length field says of `length`.
pub(crate) fn to_length_field(length: usize) -> (field: u16)
    ensures
        field == length_field(length as nat),
{
    if length <= 0xffff {
        length as u16
    } else {
        0
    }
}

} // verus!
