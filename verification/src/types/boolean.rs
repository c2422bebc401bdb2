use crate::error::CodecError;
use crate::stream::{lemma_wrote_rest, BinaryStream, StreamView};
use vstd::prelude::*;

verus! {

/// A truth value in one byte: zero is false, anything else is true.
pub struct Bool();

impl Bool {
    /// The byte that is written for `value`.
    pub open spec fn encoding(value: bool) -> u8 {
        if value {
            1
        } else {
            0
        }
    }

    /// Reads the byte at the cursor; any byte but zero reads as true.
    pub fn read(stream: &mut BinaryStream) -> (r: Result<bool, CodecError>)
        ensures
            ({
                let before = old(stream)@;
                match r {
                    Ok(v) => before.fits(1) && v == (before.window(1)[0] != 0)
                        && final(stream)@ == before.skipped(1),
                    Err(e) => e == CodecError::OutOfBounds && !before.fits(1)
                        && final(stream)@ == before,
                }
            }),
    {
        let bytes = match stream.read(1) {
            Ok(bytes) => bytes,
            Err(err) => return Err(err),
        };
        Ok(bytes[0] != 0)
    }

    /// Writes 1 for true and 0 for false.
    pub fn write(stream: &mut BinaryStream, value: bool) -> (r: Result<(), CodecError>)
        ensures
            ({
                let before = old(stream)@;
                match r {
                    Ok(_) => before.fits(1) && final(stream)@ == before.wrote(
                        seq![Self::encoding(value)],
                    ),
                    Err(e) => e == CodecError::OutOfBounds && !before.fits(1)
                        && final(stream)@ == before,
                }
            }),
    {
        let byte: u8 = if value {
            1
        } else {
            0
        };
        let bytes: [u8; 1] = [byte];
        assert(bytes@ =~= seq![byte]);
        stream.write(bytes.as_slice())
    }

    /// After a write that succeeded, the byte at the place where the write
    /// began reads as the value written.
    pub proof fn lemma_write_then_read(s: StreamView, value: bool)
        requires
            s.fits(1),
        ensures
            (s.wrote(seq![Self::encoding(value)]).at(s.offset).window(1)[0] != 0) == value,
            s.wrote(seq![Self::encoding(value)]).at(s.offset).skipped(1) == s.wrote(
                seq![Self::encoding(value)],
            ),
    {
        lemma_wrote_rest(s, seq![Self::encoding(value)]);
    }
}

} // verus!
