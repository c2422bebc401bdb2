use crate::error::CodecError;
use crate::stream::{lemma_wrote_rest, BinaryStream, StreamView};
use vstd::prelude::*;

verus! {

/// An unsigned 8-bit integer: one byte, as it is.
pub struct Uint8();

impl Uint8 {
    /// Reads the byte at the cursor.
    pub fn read(stream: &mut BinaryStream) -> (r: Result<u8, CodecError>)
        ensures
            ({
                let before = old(stream)@;
                match r {
                    Ok(v) => before.fits(1) && v == before.window(1)[0]
                        && final(stream)@ == before.skipped(1),
                    Err(e) => e == CodecError::OutOfBounds && !before.fits(1)
                        && final(stream)@ == before,
                }
            }),
    {
        let bytes = match stream.read(1) {
            Ok(bytes) => bytes,
            Err(err) => return Err(err),
        };
        Ok(bytes[0])
    }

    /// Writes `value` at the cursor.
    pub fn write(stream: &mut BinaryStream, value: u8) -> (r: Result<(), CodecError>)
        ensures
            ({
                let before = old(stream)@;
                match r {
                    Ok(_) => before.fits(1) && final(stream)@ == before.wrote(
                        seq![value],
                    ),
                    Err(e) => e == CodecError::OutOfBounds && !before.fits(1)
                        && final(stream)@ == before,
                }
            }),
    {
        let bytes: [u8; 1] = [value];
        assert(bytes@ =~= seq![value]);
        stream.write(bytes.as_slice())
    }

    /// After a write that succeeded, the byte at the place where the write
    /// began is the value written.
    pub proof fn lemma_write_then_read(s: StreamView, value: u8)
        requires
            s.fits(1),
        ensures
            s.wrote(seq![value]).at(s.offset).window(1)[0] == value,
            s.wrote(seq![value]).at(s.offset).skipped(1) == s.wrote(seq![value]),
    {
        lemma_wrote_rest(s, seq![value]);
    }
}

} // verus!
