//! Conversions between the signed and unsigned readings of a 32-bit word, and
//! address arithmetic.

use vstd::prelude::*;

verus! {

/// The value of a 32-bit pattern read as a two's-complement signed integer.
pub open spec fn signed(x: u32) -> int {
    if x < 0x8000_0000 {
        x as int
    } else {
        x as int - 0x1_0000_0000
    }
}

/// The 32-bit pattern that stands for an integer modulo 2^32.
pub open spec fn wrap32(v: int) -> u32 {
    (v % 0x1_0000_0000) as u32
}

/// Reading a 32-bit pattern as signed and storing it back gives the pattern.
pub proof fn lemma_wrap32_signed(x: u32)
    ensures
        wrap32(signed(x)) == x,
{
}

/// Every signed 32-bit value is the signed reading of the pattern that stands for it.
pub proof fn lemma_signed_wrap32(v: int)
    requires
        -0x8000_0000 <= v < 0x8000_0000,
    ensures
        signed(wrap32(v)) == v,
{
}

/// Reinterprets an unsigned word as a signed one, bit for bit.
pub fn u2i(input: u32) -> (out: i32)
    ensures
        out as int == signed(input),
{
    let out = #[verifier::truncate] (input as i32);
    assert(out as int == if input < 0x8000_0000u32 {
        input as int
    } else {
        input as int - 0x1_0000_0000
    }) by (bit_vector)
        requires
            out == input as i32,
    ;
    out
}

/// Reinterprets a signed word as an unsigned one, bit for bit.
pub fn i2u(input: i32) -> (out: u32)
    ensures
        out == wrap32(input as int),
        signed(out) == input as int,
{
    let out = #[verifier::truncate] (input as u32);
    assert(out as int == if input >= 0 {
        input as int
    } else {
        input as int + 0x1_0000_0000
    }) by (bit_vector)
        requires
            out == input as u32,
    ;
    out
}

/// Whether `base + offset` is an address of the 32-bit space.
pub open spec fn offset_in_range(base: u32, offset: i32) -> bool {
    0 <= base + offset <= u32::MAX
}

/// Adds a signed byte offset to an address.  The sum has to be an address.
pub fn offset_addr(base: u32, offset: i32) -> (addr: u32)
    requires
        offset_in_range(base, offset),
    ensures
        addr == base + offset,
{
    let sum: i64 = (base as i64) + (offset as i64);
    sum as u32
}

/// Adds a signed byte offset to an address, or reports that the sum leaves
/// the 32-bit space.
pub fn checked_offset_addr(base: u32, offset: i32) -> (addr: Option<u32>)
    ensures
        offset_in_range(base, offset) ==> addr == Some((base + offset) as u32),
        !offset_in_range(base, offset) ==> addr is None,
{
    let sum: i64 = (base as i64) + (offset as i64);
    if 0 <= sum && sum <= 0xFFFF_FFFF {
        Some(sum as u32)
    } else {
        None
    }
}

} // verus!
