use crate::error::CodecError;
use crate::fixed::{lemma_pow256_values, signed_of, unsigned_of};
use crate::stream::{lemma_wrote_rest, BinaryStream, StreamView};
use vstd::prelude::*;

verus! {

/// A signed 8-bit integer in one byte.
pub struct Int8();

impl Int8 {
    /// Reads the byte at the cursor as a two's complement number.
    pub fn read(stream: &mut BinaryStream) -> (r: Result<i8, CodecError>)
        ensures
            ({
                let before = old(stream)@;
                match r {
                    Ok(v) => before.fits(1) && v == signed_of(before.window(1)[0] as nat, 1)
                        && final(stream)@ == before.skipped(1),
                    Err(e) => e == CodecError::OutOfBounds && !before.fits(1)
                        && final(stream)@ == before,
                }
            }),
    {
        let bytes = match stream.read(1) {
            Ok(bytes) => bytes,
            Err(err) => return Err(err),
        };
        let raw = bytes[0];
        let value = raw as i8;
        assert(value == if raw >= 0x80 {
            raw - 0x100
        } else {
            raw as int
        }) by (bit_vector)
            requires
                value == raw as i8,
        ;
        proof {
            lemma_pow256_values();
        }
        Ok(value)
    }

    /// Writes `value` as one byte of two's complement.
    pub fn write(stream: &mut BinaryStream, value: i8) -> (r: Result<(), CodecError>)
        ensures
            ({
                let before = old(stream)@;
                match r {
                    Ok(_) => before.fits(1) && final(stream)@ == before.wrote(
                        seq![unsigned_of(value as int, 1) as u8],
                    ),
                    Err(e) => e == CodecError::OutOfBounds && !before.fits(1)
                        && final(stream)@ == before,
                }
            }),
    {
        let raw = value as u8;
        assert(raw == if value < 0 {
            value + 0x100
        } else {
            value as int
        }) by (bit_vector)
            requires
                raw == value as u8,
        ;
        proof {
            lemma_pow256_values();
        }
        let bytes: [u8; 1] = [raw];
        assert(bytes@ =~= seq![raw]);
        stream.write(bytes.as_slice())
    }

    /// After a write that succeeded, the byte at the place where the write
    /// began reads as the value written, -128 as well as any other.
    pub proof fn lemma_write_then_read(s: StreamView, value: i8)
        requires
            s.fits(1),
        ensures
            ({
                let written = s.wrote(seq![unsigned_of(value as int, 1) as u8]);
                &&& signed_of(written.at(s.offset).window(1)[0] as nat, 1) == value
                &&& written.at(s.offset).skipped(1) == written
            }),
    {
        lemma_pow256_values();
        lemma_wrote_rest(s, seq![unsigned_of(value as int, 1) as u8]);
    }
}

} // verus!
