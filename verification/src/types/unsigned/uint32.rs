use crate::endianness::Endianness;
use crate::error::CodecError;
use crate::fixed::{
    bytes_of, decode, encode, lemma_bytes_len, lemma_pow256_values, lemma_value_bound, value_of,
};
use crate::stream::BinaryStream;
use vstd::prelude::*;

verus! {

/// An unsigned 32-bit integer in four bytes.
pub struct Uint32();

impl Uint32 {
    /// Reads the 4 bytes at the cursor as a number in the byte order
    /// `endian`, big-endian where none is given.
    pub fn read(
        stream: &mut BinaryStream,
        endian: Option<Endianness>,
    ) -> (r: Result<u32, CodecError>)
        ensures
            ({
                let before = old(stream)@;
                match r {
                    Ok(v) => before.fits(4) && v == value_of(before.window(4), Endianness::resolve(endian))
                        && final(stream)@ == before.skipped(4),
                    Err(e) => e == CodecError::OutOfBounds && !before.fits(4)
                        && final(stream)@ == before,
                }
            }),
    {
        let endian = Endianness::or_big(endian);
        let bytes = match stream.read(4) {
            Ok(bytes) => bytes,
            Err(err) => return Err(err),
        };
        let wide = decode(bytes, endian);
        proof {
            lemma_value_bound(bytes@, endian);
            lemma_pow256_values();
        }
        Ok(wide as u32)
    }

    /// Writes `value` as 4 bytes in the byte order `endian`, big-endian
    /// where none is given.
    pub fn write(
        stream: &mut BinaryStream,
        value: u32,
        endian: Option<Endianness>,
    ) -> (r: Result<(), CodecError>)
        ensures
            ({
                let before = old(stream)@;
                match r {
                    Ok(_) => before.fits(4) && final(stream)@ == before.wrote(
                        bytes_of(value as nat, 4, Endianness::resolve(endian)),
                    ),
                    Err(e) => e == CodecError::OutOfBounds && !before.fits(4)
                        && final(stream)@ == before,
                }
            }),
    {
        let endian = Endianness::or_big(endian);
        let bytes = encode(value as u64, 4, endian);
        proof {
            lemma_bytes_len(value as nat, 4, endian);
        }
        stream.write(bytes.as_slice())
    }
}

} // verus!
