use crate::base128::groups;
use crate::error::CodecError;
use crate::stream::{BinaryStream, StreamView};
use crate::types::unsigned::varlong::VarLong;
use crate::zigzag::{unzigzag64, unzigzag, zigzag, zigzag64};
use vstd::prelude::*;

verus! {

/// A signed 64-bit integer, zigzag-mapped and carried as a [`VarLong`].
pub struct ZigZong();

impl ZigZong {
    /// What a read makes of the bytes `rest` that lie at the cursor.
    pub open spec fn decoded(rest: Seq<u8>) -> Result<i64, CodecError> {
        match VarLong::decoded(rest) {
            Ok(u) => Ok(unzigzag(u as nat) as i64),
            Err(e) => Err(e),
        }
    }

    /// The wire form of `value`.
    pub open spec fn encoding(value: i64) -> Seq<u8> {
        groups(zigzag(value as int))
    }

    /// Reads the unsigned number at the cursor as [`VarLong::read`] does and
    /// unmaps it; fails as that read fails and leaves the cursor where it does.
    pub fn read(stream: &mut BinaryStream) -> (r: Result<i64, CodecError>)
        ensures
            r == Self::decoded(old(stream)@.rest()),
            final(stream)@ == old(stream)@.skipped(VarLong::consumed(old(stream)@.rest())),
    {
        match VarLong::read(stream) {
            Ok(mapped) => Ok(unzigzag64(mapped)),
            Err(err) => Err(err),
        }
    }

    /// Maps `value` and writes it as [`VarLong::write`] does: all of its bytes, or
    /// none of them and `OutOfBounds` where they do not all fit.
    pub fn write(stream: &mut BinaryStream, value: i64) -> (r: Result<(), CodecError>)
        ensures
            ({
                let before = old(stream)@;
                let wire = Self::encoding(value);
                match r {
                    Ok(_) => before.fits(wire.len()) && final(stream)@ == before.wrote(wire),
                    Err(e) => e == CodecError::OutOfBounds && !before.fits(wire.len())
                        && final(stream)@ == before,
                }
            }),
    {
        VarLong::write(stream, zigzag64(value))
    }

    /// Every 64-bit signed number, the least one included, has an
    /// encoding of at most ten bytes, and a read that finds it at the cursor,
    /// whatever follows it, returns the number and consumes exactly those bytes.
    pub proof fn lemma_round_trip(value: i64, tail: Seq<u8>)
        ensures
            1 <= Self::encoding(value).len() <= 10,
            Self::decoded(Self::encoding(value) + tail) == Ok::<i64, CodecError>(value),
            VarLong::consumed(Self::encoding(value) + tail) == Self::encoding(value).len(),
    {
        let mapped = zigzag(value as int);
        assert(mapped <= u64::MAX);
        VarLong::lemma_round_trip(mapped as u64, tail);
    }

    /// After a write that succeeded, a read from where the write began
    /// returns the number written and ends where the write ended.
    pub proof fn lemma_write_then_read(s: StreamView, value: i64)
        requires
            s.fits(Self::encoding(value).len()),
        ensures
            Self::decoded(s.wrote(Self::encoding(value)).at(s.offset).rest()) == Ok::<
                i64,
                CodecError,
            >(value),
            s.wrote(Self::encoding(value)).at(s.offset).skipped(
                VarLong::consumed(s.wrote(Self::encoding(value)).at(s.offset).rest()),
            ) == s.wrote(Self::encoding(value)),
    {
        let mapped = zigzag(value as int);
        assert(mapped <= u64::MAX);
        VarLong::lemma_write_then_read(s, mapped as u64);
    }
}

} // verus!
