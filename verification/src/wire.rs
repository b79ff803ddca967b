//! Protocol-level vocabulary: wire type tags, type descriptors, error
//! kinds, and the little-endian 4-byte integer layout shared by every
//! codec in this crate.

use vstd::prelude::*;

verus! {

/// The protocol-level identifiers for the column layouts this crate
/// handles: the legacy 8-byte datetime, its nullable-width variant, the
/// nullable time-of-day, and the nullable datetime-with-offset.
#[derive(Clone, Copy, Debug, PartialEq, Eq, Structural)]
pub enum WireTypeTag {
    DateTime,
    DateTimeN,
    TimeN,
    DateTimeOffsetN,
}

/// What a native type declares about its wire form, and what a server
/// reports for a column: a tag and the number of bytes the payload holds.
#[derive(Clone, Copy, Debug, PartialEq, Eq, Structural)]
pub struct TypeDescriptor {
    pub tag: WireTypeTag,
    pub byte_width: u32,
}

/// Marker for nullable-column protocols: whether the encoded value stands
/// for the database null.  The codecs here always produce a present value.
#[derive(Clone, Copy, Debug, PartialEq, Eq, Structural)]
pub enum IsNull {
    Yes,
    No,
}

/// The recoverable failures of this crate.
#[derive(Clone, Copy, Debug, PartialEq, Eq, Structural)]
pub enum CodecError {
    /// Too few bytes, or a field outside the range the layout allows.
    Format,
    /// The reported descriptor fails the compatibility predicate.
    IncompatibleType,
    /// The value lies outside what the 32-bit wire fields can represent.
    Range,
}

/// The number of bytes every codec in this crate consumes and produces.
pub const WIRE_WIDTH: u32 = 8;

/// The little-endian bytes of an integer in `[0, 2^32)`.
pub open spec fn le_bytes_4(x: int) -> Seq<u8> {
    seq![
        (x % 256) as u8,
        (x / 256 % 256) as u8,
        (x / 65536 % 256) as u8,
        (x / 16777216 % 256) as u8,
    ]
}

/// The integer a 4-byte little-endian sequence denotes.
pub open spec fn le_value_4(b: Seq<u8>) -> int
    recommends
        b.len() == 4,
{
    b[0] + 256 * b[1] + 65536 * b[2] + 16777216 * b[3]
}

/// Reading back the little-endian bytes of `x` yields `x`.
pub proof fn lemma_le_bytes_4_value(x: int)
    requires
        0 <= x < 0x1_0000_0000,
    ensures
        le_value_4(le_bytes_4(x)) == x,
{
    let q1 = x / 256;
    let q2 = q1 / 256;
    let q3 = q2 / 256;
    vstd::arithmetic::div_mod::lemma_fundamental_div_mod(x, 256);
    vstd::arithmetic::div_mod::lemma_fundamental_div_mod(q1, 256);
    vstd::arithmetic::div_mod::lemma_fundamental_div_mod(q2, 256);
    vstd::arithmetic::div_mod::lemma_div_denominator(x, 256, 256);
    vstd::arithmetic::div_mod::lemma_div_denominator(x, 65536, 256);
    assert(x / 65536 == q2);
    assert(x / 16777216 == q3);
    assert(0 <= q3 < 256) by {
        vstd::arithmetic::div_mod::lemma_div_pos_is_pos(x, 16777216);
        assert(x / 16777216 < 256) by (nonlinear_arith)
            requires
                0 <= x < 0x1_0000_0000,
        ;
    }
    vstd::arithmetic::div_mod::lemma_small_mod(q3 as nat, 256);
}

/// The unsigned 32-bit two's-complement representation of a signed day
/// count in `[-2^31, 2^31)`.
pub open spec fn u32_rep_of_days(days: int) -> int {
    if days >= 0 {
        days
    } else {
        days + 0x1_0000_0000
    }
}

/// The signed day count a 32-bit wire field in `[0, 2^32)` denotes.
pub open spec fn days_of_u32_rep(u: int) -> int {
    if u < 0x8000_0000 {
        u
    } else {
        u - 0x1_0000_0000
    }
}

/// The two representation maps invert each other on their ranges.
pub proof fn lemma_days_u32_rep_round_trip(days: int)
    requires
        -0x8000_0000 <= days < 0x8000_0000,
    ensures
        0 <= u32_rep_of_days(days) < 0x1_0000_0000,
        days_of_u32_rep(u32_rep_of_days(days)) == days,
{
}

/// Appends the 4 little-endian bytes of `x` to `buf`.
pub fn push_le_4(buf: &mut Vec<u8>, x: u32)
    ensures
        final(buf)@ == old(buf)@ + le_bytes_4(x as int),
{
    buf.push((x % 256) as u8);
    buf.push((x / 256 % 256) as u8);
    buf.push((x / 65536 % 256) as u8);
    buf.push((x / 16777216 % 256) as u8);
    proof {
        assert(buf@ =~= old(buf)@ + le_bytes_4(x as int));
    }
}

/// Reads the 4 bytes at `i` as an unsigned little-endian 32-bit integer.
pub fn read_le_4(bytes: &[u8], i: usize) -> (r: u32)
    requires
        i + 4 <= bytes@.len(),
    ensures
        r as int == le_value_4(bytes@.subrange(i as int, i + 4)),
{
    let b0 = bytes[i] as u32;
    let b1 = bytes[i + 1] as u32;
    let b2 = bytes[i + 2] as u32;
    let b3 = bytes[i + 3] as u32;
    b0 + b1 * 256 + b2 * 65536 + b3 * 16777216
}

/// Converts a signed day count to its 32-bit wire field.
pub fn days_to_wire(days: i32) -> (u: u32)
    ensures
        u as int == u32_rep_of_days(days as int),
{
    if days >= 0 {
        days as u32
    } else {
        (days as i64 + 0x1_0000_0000i64) as u32
    }
}

/// Converts a 32-bit wire field back to the signed day count it denotes.
pub fn wire_to_days(u: u32) -> (days: i32)
    ensures
        days as int == days_of_u32_rep(u as int),
{
    if u < 0x8000_0000 {
        u as i32
    } else {
        (u as i64 - 0x1_0000_0000i64) as i32
    }
}

} // verus!
