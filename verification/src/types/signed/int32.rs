use crate::endianness::Endianness;
use crate::error::CodecError;
use crate::fixed::{
    bytes_of, decode, encode, lemma_bytes_len, lemma_pow256_values, lemma_value_bound, signed_of,
    unsigned_of, value_of,
};
use crate::stream::BinaryStream;
use vstd::prelude::*;

verus! {

/// A signed 32-bit integer in four bytes.
pub struct Int32();

impl Int32 {
    /// Reads the 4 bytes at the cursor as a two's complement number in
    /// the byte order `endian`, big-endian where none is given.
    pub fn read(
        stream: &mut BinaryStream,
        endian: Option<Endianness>,
    ) -> (r: Result<i32, CodecError>)
        ensures
            ({
                let before = old(stream)@;
                match r {
                    Ok(v) => before.fits(4) && v == signed_of(
                        value_of(before.window(4), Endianness::resolve(endian)),
                        4,
                    )
                        && final(stream)@ == before.skipped(4),
                    Err(e) => e == CodecError::OutOfBounds && !before.fits(4)
                        && final(stream)@ == before,
                }
            }),
    {
        let endian = Endianness::or_big(endian);
        let bytes = match stream.read(4) {
            Ok(bytes) => bytes,
            Err(err) => return Err(err),
        };
        let wide = decode(bytes, endian);
        proof {
            lemma_value_bound(bytes@, endian);
            lemma_pow256_values();
        }
        let raw = wide as u32;
        let value = raw as i32;
        assert(value == if raw >= 0x8000_0000 {
            raw - 0x1_0000_0000
        } else {
            raw as int
        }) by (bit_vector)
            requires
                value == raw as i32,
        ;
        Ok(value)
    }

    /// Writes `value` as 4 bytes of two's complement in the byte order
    /// `endian`, big-endian where none is given.
    pub fn write(
        stream: &mut BinaryStream,
        value: i32,
        endian: Option<Endianness>,
    ) -> (r: Result<(), CodecError>)
        ensures
            ({
                let before = old(stream)@;
                match r {
                    Ok(_) => before.fits(4) && final(stream)@ == before.wrote(
                        bytes_of(unsigned_of(value as int, 4), 4, Endianness::resolve(endian)),
                    ),
                    Err(e) => e == CodecError::OutOfBounds && !before.fits(4)
                        && final(stream)@ == before,
                }
            }),
    {
        let endian = Endianness::or_big(endian);
        let raw = value as u32;
        assert(raw == if value < 0 {
            value + 0x1_0000_0000
        } else {
            value as int
        }) by (bit_vector)
            requires
                raw == value as u32,
        ;
        let bytes = encode(raw as u64, 4, endian);
        proof {
            lemma_pow256_values();
            lemma_bytes_len(raw as nat, 4, endian);
        }
        stream.write(bytes.as_slice())
    }
}

} // verus!
