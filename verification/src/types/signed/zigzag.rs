use crate::base128::groups;
use crate::error::CodecError;
use crate::stream::{BinaryStream, StreamView};
use crate::types::unsigned::varint::VarInt;
use crate::zigzag::{unzigzag32, unzigzag, zigzag, zigzag32};
use vstd::prelude::*;

verus! {

/// A signed 32-bit integer, zigzag-mapped and carried as a [`VarInt`].
pub struct ZigZag();

impl ZigZag {
    /// What a read makes of the bytes `rest` that lie at the cursor.
    pub open spec fn decoded(rest: Seq<u8>) -> Result<i32, CodecError> {
        match VarInt::decoded(rest) {
            Ok(u) => Ok(unzigzag(u as nat) as i32),
            Err(e) => Err(e),
        }
    }

    /// The wire form of `value`.
    pub open spec fn encoding(value: i32) -> Seq<u8> {
        groups(zigzag(value as int))
    }

    /// Reads the unsigned number at the cursor as [`VarInt::read`] does and
    /// unmaps it; fails as that read fails and leaves the cursor where it does.
    pub fn read(stream: &mut BinaryStream) -> (r: Result<i32, CodecError>)
        ensures
            r == Self::decoded(old(stream)@.rest()),
            final(stream)@ == old(stream)@.skipped(VarInt::consumed(old(stream)@.rest())),
    {
        match VarInt::read(stream) {
            Ok(mapped) => Ok(unzigzag32(mapped)),
            Err(err) => Err(err),
        }
    }

    /// Maps `value` and writes it as [`VarInt::write`] does: all of its bytes, or
    /// none of them and `OutOfBounds` where they do not all fit.
    pub fn write(stream: &mut BinaryStream, value: i32) -> (r: Result<(), CodecError>)
        ensures
            ({
                let before = old(stream)@;
                let wire = Self::encoding(value);
                match r {
                    Ok(_) => before.fits(wire.len()) && final(stream)@ == before.wrote(wire),
                    Err(e) => e == CodecError::OutOfBounds && !before.fits(wire.len())
                        && final(stream)@ == before,
                }
            }),
    {
        VarInt::write(stream, zigzag32(value))
    }

    /// Every 32-bit signed number, the least one included, has an
    /// encoding of at most five bytes, and a read that finds it at the cursor,
    /// whatever follows it, returns the number and consumes exactly those bytes.
    pub proof fn lemma_round_trip(value: i32, tail: Seq<u8>)
        ensures
            1 <= Self::encoding(value).len() <= 5,
            Self::decoded(Self::encoding(value) + tail) == Ok::<i32, CodecError>(value),
            VarInt::consumed(Self::encoding(value) + tail) == Self::encoding(value).len(),
    {
        let mapped = zigzag(value as int);
        assert(mapped <= u32::MAX);
        VarInt::lemma_round_trip(mapped as u32, tail);
    }

    /// After a write that succeeded, a read from where the write began
    /// returns the number written and ends where the write ended.
    pub proof fn lemma_write_then_read(s: StreamView, value: i32)
        requires
            s.fits(Self::encoding(value).len()),
        ensures
            Self::decoded(s.wrote(Self::encoding(value)).at(s.offset).rest()) == Ok::<
                i32,
                CodecError,
            >(value),
            s.wrote(Self::encoding(value)).at(s.offset).skipped(
                VarInt::consumed(s.wrote(Self::encoding(value)).at(s.offset).rest()),
            ) == s.wrote(Self::encoding(value)),
    {
        let mapped = zigzag(value as int);
        assert(mapped <= u32::MAX);
        VarInt::lemma_write_then_read(s, mapped as u32);
    }
}

} // verus!
