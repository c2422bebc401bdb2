use crate::base128::{
    groups, lemma_groups_len, lemma_groups_value_bound, lemma_pow128_grows, lemma_scan_groups,
    pow128, read_groups, run, scan, write_groups,
};
use crate::error::CodecError;
use crate::stream::{lemma_wrote_rest, BinaryStream, StreamView};
use vstd::prelude::*;

verus! {

/// An unsigned 32-bit integer in one to five bytes of seven payload bits each.
pub struct VarInt();

impl VarInt {
    /// What a read makes of the bytes `rest` that lie at the cursor: the
    /// number that the groups spell, cut to its low 32 bits, or why there is none.
    pub open spec fn decoded(rest: Seq<u8>) -> Result<u32, CodecError> {
        match scan(rest, 5).0 {
            Ok(v) => Ok((v % 0x1_0000_0000) as u32),
            Err(e) => Err(e),
        }
    }

    /// How many of the bytes `rest` a read moves the cursor past, whether it
    /// succeeds or not.
    pub open spec fn consumed(rest: Seq<u8>) -> nat {
        scan(rest, 5).1
    }

    /// Reads a number of up to five groups.
    ///
    /// Fails `OutOfBounds` with the cursor unmoved where the buffer ends before
    /// a byte without the continuation flag. Fails `VarIntTooLarge` where five
    /// bytes in a row carry the flag and a sixth byte follows; the cursor then
    /// stands behind that byte.
    pub fn read(stream: &mut BinaryStream) -> (r: Result<u32, CodecError>)
        ensures
            r == Self::decoded(old(stream)@.rest()),
            final(stream)@ == old(stream)@.skipped(Self::consumed(old(stream)@.rest())),
    {
        let ghost rest = old(stream)@.rest();
        match read_groups(stream, 5) {
            Ok(wide) => {
                let low: u64 = wide & 0xFFFF_FFFF;
                assert(low == wide % 0x1_0000_0000) by (bit_vector)
                    requires
                        low == wide & 0xFFFF_FFFF,
                ;
                proof {
                    let k = run(rest);
                    lemma_groups_value_bound(rest.take((k + 1) as int));
                    lemma_pow128_grows(k + 1, 5);
                    assert(pow128(5) == 0x8_0000_0000) by {
                        reveal_with_fuel(pow128, 6);
                    }
                }
                Ok(low as u32)
            },
            Err(err) => Err(err),
        }
    }

    /// Writes `value` in as few groups as hold it, or fails `OutOfBounds` with
    /// nothing written where they do not all fit.
    pub fn write(stream: &mut BinaryStream, value: u32) -> (r: Result<(), CodecError>)
        ensures
            ({
                let before = old(stream)@;
                let wire = groups(value as nat);
                match r {
                    Ok(_) => before.fits(wire.len()) && final(stream)@ == before.wrote(wire),
                    Err(e) => e == CodecError::OutOfBounds && !before.fits(wire.len())
                        && final(stream)@ == before,
                }
            }),
    {
        write_groups(stream, value as u64)
    }

    /// Every 32-bit number has an encoding of at most five bytes, and a read
    /// that finds it at the cursor, whatever follows it, returns the number
    /// and consumes exactly those bytes.
    pub proof fn lemma_round_trip(value: u32, tail: Seq<u8>)
        ensures
            1 <= groups(value as nat).len() <= 5,
            Self::decoded(groups(value as nat) + tail) == Ok::<u32, CodecError>(value),
            Self::consumed(groups(value as nat) + tail) == groups(value as nat).len(),
    {
        lemma_groups_len(value as nat, 5);
        assert(pow128(5) == 0x8_0000_0000) by {
            reveal_with_fuel(pow128, 6);
        }
        lemma_scan_groups(value as nat, tail, 5);
    }

    /// After a write that succeeded, a read from where the write began
    /// returns the number written and ends where the write ended.
    pub proof fn lemma_write_then_read(s: StreamView, value: u32)
        requires
            s.fits(groups(value as nat).len()),
        ensures
            Self::decoded(s.wrote(groups(value as nat)).at(s.offset).rest()) == Ok::<
                u32,
                CodecError,
            >(value),
            s.wrote(groups(value as nat)).at(s.offset).skipped(
                Self::consumed(s.wrote(groups(value as nat)).at(s.offset).rest()),
            ) == s.wrote(groups(value as nat)),
    {
        let enc = groups(value as nat);
        lemma_wrote_rest(s, enc);
        Self::lemma_round_trip(value, s.skipped(enc.len()).rest());
    }
}

} // verus!
