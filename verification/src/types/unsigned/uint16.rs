use crate::endianness::Endianness;
use crate::error::CodecError;
use crate::fixed::{
    bytes_of, decode, encode, lemma_bytes_len, lemma_pow256_values, lemma_value_bound, value_of,
};
use crate::stream::BinaryStream;
use vstd::prelude::*;

verus! {

/// An unsigned 16-bit integer in two bytes.
pub struct Uint16();

impl Uint16 {
    /// Reads the 2 bytes at the cursor as a number in the byte order
    /// `endian`, big-endian where none is given.
    pub fn read(
        stream: &mut BinaryStream,
        endian: Option<Endianness>,
    ) -> (r: Result<u16, CodecError>)
        ensures
            ({
                let before = old(stream)@;
                match r {
                    Ok(v) => before.fits(2) && v == value_of(before.window(2), Endianness::resolve(endian))
                        && final(stream)@ == before.skipped(2),
                    Err(e) => e == CodecError::OutOfBounds && !before.fits(2)
                        && final(stream)@ == before,
                }
            }),
    {
        let endian = Endianness::or_big(endian);
        let bytes = match stream.read(2) {
            Ok(bytes) => bytes,
            Err(err) => return Err(err),
        };
        let wide = decode(bytes, endian);
        proof {
            lemma_value_bound(bytes@, endian);
            lemma_pow256_values();
        }
        Ok(wide as u16)
    }

    /// Writes `value` as 2 bytes in the byte order `endian`, big-endian
    /// where none is given.
    pub fn write(
        stream: &mut BinaryStream,
        value: u16,
        endian: Option<Endianness>,
    ) -> (r: Result<(), CodecError>)
        ensures
            ({
                let before = old(stream)@;
                match r {
                    Ok(_) => before.fits(2) && final(stream)@ == before.wrote(
                        bytes_of(value as nat, 2, Endianness::resolve(endian)),
                    ),
                    Err(e) => e == CodecError::OutOfBounds && !before.fits(2)
                        && final(stream)@ == before,
                }
            }),
    {
        let endian = Endianness::or_big(endian);
        let bytes = encode(value as u64, 2, endian);
        proof {
            lemma_bytes_len(value as nat, 2, endian);
        }
        stream.write(bytes.as_slice())
    }
}

} // verus!
