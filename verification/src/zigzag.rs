//! The zigzag mapping between signed integers and the unsigned ones that the
//! variable-length codecs carry: 0, -1, 1, -2, 2, ... go to 0, 1, 2, 3, 4, ...
//! so that a number of small magnitude, of either sign, has a short encoding.

use vstd::prelude::*;

verus! {

/// The unsigned number that stands for `v`: twice `v` for what is not
/// negative, and for a negative `v` the odd number `-2v - 1`.
pub open spec fn zigzag(v: int) -> nat {
    if v >= 0 {
        (2 * v) as nat
    } else {
        (-2 * v - 1) as nat
    }
}

/// The signed number that `u` stands for: half of an even `u`, and for an odd
/// `u` the negative number `-(u + 1) / 2`.
pub open spec fn unzigzag(u: nat) -> int {
    if u % 2 == 0 {
        (u / 2) as int
    } else {
        -((u / 2) as int) - 1
    }
}

/// Unmapping what was mapped gives the number back, whatever its sign and size.
pub proof fn lemma_unzigzag_zigzag(v: int)
    ensures
        unzigzag(zigzag(v)) == v,
{
}

/// Mapping what was unmapped gives the number back: with
/// [`lemma_unzigzag_zigzag`], the two are inverse bijections.
pub proof fn lemma_zigzag_unzigzag(u: nat)
    ensures
        zigzag(unzigzag(u)) == u,
{
}

/// The signed numbers of `bits` bits are mapped onto the unsigned numbers of
/// `bits` bits, and those back onto them: `half` is 2 to the `bits - 1`.
pub proof fn lemma_zigzag_range(v: int, u: nat, half: nat)
    ensures
        -half <= v < half <==> zigzag(v) < 2 * half,
        u < 2 * half <==> -half <= unzigzag(u) < half,
{
}

/// Maps a 32-bit number by shifts: the sign, spread over all bits by the
/// arithmetic shift, flips the bits of the doubled number.
pub fn zigzag32(value: i32) -> (mapped: u32)
    ensures
        mapped == zigzag(value as int),
{
    let mapped = ((value << 1) ^ (value >> 31)) as u32;
    assert(mapped == if value >= 0 {
        2 * value
    } else {
        -2 * value - 1
    }) by (bit_vector)
        requires
            mapped == ((value << 1) ^ (value >> 31)) as u32,
    ;
    mapped
}

/// Unmaps a 32-bit number: the halved number, with all bits flipped where the
/// lowest bit was set.
pub fn unzigzag32(mapped: u32) -> (value: i32)
    ensures
        value == unzigzag(mapped as nat),
{
    let low: u32 = mapped & 1;
    let half: u32 = mapped >> 1;
    assert(low == mapped % 2 && half == mapped / 2) by (bit_vector)
        requires
            low == mapped & 1,
            half == mapped >> 1,
    ;
    let mask: i32 = -(low as i32);
    let value = (half as i32) ^ mask;
    assert(value == if mask == 0 {
        half as int
    } else {
        -(half as int) - 1
    }) by (bit_vector)
        requires
            value == (half as i32) ^ mask,
            mask == 0 || mask == -1,
            half <= 0x7FFF_FFFF,
    ;
    value
}

/// Maps a 64-bit number, as [`zigzag32`] does a 32-bit one.
pub fn zigzag64(value: i64) -> (mapped: u64)
    ensures
        mapped == zigzag(value as int),
{
    let mapped = ((value << 1) ^ (value >> 63)) as u64;
    assert(mapped == if value >= 0 {
        2 * value
    } else {
        -2 * value - 1
    }) by (bit_vector)
        requires
            mapped == ((value << 1) ^ (value >> 63)) as u64,
    ;
    mapped
}

/// Unmaps a 64-bit number, as [`unzigzag32`] does a 32-bit one.
pub fn unzigzag64(mapped: u64) -> (value: i64)
    ensures
        value == unzigzag(mapped as nat),
{
    let low: u64 = mapped & 1;
    let half: u64 = mapped >> 1;
    assert(low == mapped % 2 && half == mapped / 2) by (bit_vector)
        requires
            low == mapped & 1,
            half == mapped >> 1,
    ;
    let mask: i64 = -(low as i64);
    let value = (half as i64) ^ mask;
    assert(value == if mask == 0 {
        half as int
    } else {
        -(half as int) - 1
    }) by (bit_vector)
        requires
            value == (half as i64) ^ mask,
            mask == 0 || mask == -1,
            half <= 0x7FFF_FFFF_FFFF_FFFF,
    ;
    value
}

} // verus!
