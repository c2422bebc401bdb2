use crate::endianness::Endianness;
use crate::error::CodecError;
use crate::fixed::{
    bytes_of, decode, encode, lemma_bytes_len, lemma_pow256_values, lemma_value_bound, signed_of,
    unsigned_of, value_of,
};
use crate::stream::BinaryStream;
use vstd::prelude::*;

verus! {

/// A signed 16-bit integer in two bytes.
pub struct Int16();

impl Int16 {
    /// Reads the 2 bytes at the cursor as a two's complement number in
    /// the byte order `endian`, big-endian where none is given.
    pub fn read(
        stream: &mut BinaryStream,
        endian: Option<Endianness>,
    ) -> (r: Result<i16, CodecError>)
        ensures
            ({
                let before = old(stream)@;
                match r {
                    Ok(v) => before.fits(2) && v == signed_of(
                        value_of(before.window(2), Endianness::resolve(endian)),
                        2,
                    )
                        && final(stream)@ == before.skipped(2),
                    Err(e) => e == CodecError::OutOfBounds && !before.fits(2)
                        && final(stream)@ == before,
                }
            }),
    {
        let endian = Endianness::or_big(endian);
        let bytes = match stream.read(2) {
            Ok(bytes) => bytes,
            Err(err) => return Err(err),
        };
        let wide = decode(bytes, endian);
        proof {
            lemma_value_bound(bytes@, endian);
            lemma_pow256_values();
        }
        let raw = wide as u16;
        let value = raw as i16;
        assert(value == if raw >= 0x8000 {
            raw - 0x1_0000
        } else {
            raw as int
        }) by (bit_vector)
            requires
                value == raw as i16,
        ;
        Ok(value)
    }

    /// Writes `value` as 2 bytes of two's complement in the byte order
    /// `endian`, big-endian where none is given.
    pub fn write(
        stream: &mut BinaryStream,
        value: i16,
        endian: Option<Endianness>,
    ) -> (r: Result<(), CodecError>)
        ensures
            ({
                let before = old(stream)@;
                match r {
                    Ok(_) => before.fits(2) && final(stream)@ == before.wrote(
                        bytes_of(unsigned_of(value as int, 2), 2, Endianness::resolve(endian)),
                    ),
                    Err(e) => e == CodecError::OutOfBounds && !before.fits(2)
                        && final(stream)@ == before,
                }
            }),
    {
        let endian = Endianness::or_big(endian);
        let raw = value as u16;
        assert(raw == if value < 0 {
            value + 0x1_0000
        } else {
            value as int
        }) by (bit_vector)
            requires
                raw == value as u16,
        ;
        let bytes = encode(raw as u64, 2, endian);
        proof {
            lemma_pow256_values();
            lemma_bytes_len(raw as nat, 2, endian);
        }
        stream.write(bytes.as_slice())
    }
}

} // verus!
