use crate::endianness::Endianness;
use crate::error::CodecError;
use crate::fixed::{bytes_of, lemma_bytes_len, lemma_pow256_values, lemma_write_then_read, value_of};
use crate::stream::{lemma_wrote_rest, lemma_wrote_wrote, BinaryStream, StreamView};
use crate::text::{lemma_text_of_encoding, read_text, text_of};
use crate::types::unsigned::uint32::Uint32;
use vstd::prelude::*;
use vstd::utf8::encode_utf8;

verus! {

/// Text behind a 32-bit length: the number of payload bytes as a
/// [`Uint32`], then the UTF-8 bytes themselves.
pub struct String32();

impl String32 {
    /// The length prefix that is written for `text`: the number of its UTF-8
    /// bytes, cut to its low 32 bits where it needs more.
    pub open spec fn prefix(text: Seq<char>, endian: Endianness) -> Seq<u8> {
        bytes_of(encode_utf8(text).len() % 0x1_0000_0000, 4, endian)
    }

    /// Reads the length, then that many bytes as text.
    ///
    /// Fails `OutOfBounds` where the length or the payload does not fit; the
    /// cursor then stands where it stood before the call.
    pub fn read(
        stream: &mut BinaryStream,
        endian: Option<Endianness>,
    ) -> (r: Result<String, CodecError>)
        ensures
            ({
                let before = old(stream)@;
                let body = before.skipped(4);
                let n = value_of(before.window(4), Endianness::resolve(endian));
                if before.fits(4) && body.fits(n) {
                    r matches Ok(text) && text@ == text_of(body.window(n)) && final(stream)@
                        == body.skipped(n)
                } else {
                    r matches Err(e) && e == CodecError::OutOfBounds && final(stream)@ == before
                }
            }),
    {
        let start = stream.position();
        let length = match Uint32::read(stream, endian) {
            Ok(length) => length,
            Err(err) => return Err(err),
        };
        match read_text(stream, length as usize) {
            Ok(text) => Ok(text),
            Err(err) => {
                stream.restore(start);
                Err(err)
            },
        }
    }

    /// Writes the length of `value` in bytes, then its bytes as they are.
    ///
    /// Fails `OutOfBounds` with nothing written where the two together do
    /// not fit.
    pub fn write(
        stream: &mut BinaryStream,
        value: String,
        endian: Option<Endianness>,
    ) -> (r: Result<(), CodecError>)
        ensures
            ({
                let before = old(stream)@;
                let head = Self::prefix(value@, Endianness::resolve(endian));
                let payload = encode_utf8(value@);
                match r {
                    Ok(_) => before.fits(4 + payload.len()) && final(stream)@ == before.wrote(
                        head + payload,
                    ),
                    Err(e) => e == CodecError::OutOfBounds && !before.fits(4 + payload.len())
                        && final(stream)@ == before,
                }
            }),
    {
        let bytes = value.as_str().as_bytes();
        if !stream.has_room_for(4, bytes.len()) {
            return Err(CodecError::OutOfBounds);
        }
        let length: u32 = (bytes.len() as u64 % 0x1_0000_0000) as u32;
        proof {
            lemma_bytes_len(length as nat, 4, Endianness::resolve(endian));
            lemma_wrote_wrote(
                old(stream)@,
                Self::prefix(value@, Endianness::resolve(endian)),
                encode_utf8(value@),
            );
        }
        match Uint32::write(stream, length, endian) {
            Ok(_) => {},
            Err(err) => return Err(err),
        };
        stream.write(bytes)
    }

    /// After a write that succeeded of a text whose length fits the prefix,
    /// a read from where the write began finds that length, returns the text
    /// and ends where the write ended.
    pub proof fn lemma_write_then_read(s: StreamView, text: Seq<char>, endian: Endianness)
        requires
            encode_utf8(text).len() < 0x1_0000_0000,
            s.fits(4 + encode_utf8(text).len()),
        ensures
            ({
                let n = encode_utf8(text).len();
                let written = s.wrote(Self::prefix(text, endian) + encode_utf8(text));
                let back = written.at(s.offset);
                &&& back.fits(4)
                &&& value_of(back.window(4), endian) == n
                &&& back.skipped(4).fits(n)
                &&& text_of(back.skipped(4).window(n)) == text
                &&& back.skipped(4).skipped(n) == written
            }),
    {
        let payload = encode_utf8(text);
        let n = payload.len();
        let head = Self::prefix(text, endian);
        lemma_pow256_values();
        lemma_bytes_len(n, 4, endian);
        lemma_wrote_wrote(s, head, payload);
        lemma_write_then_read(s, n, 4, endian);
        lemma_wrote_rest(s, head);
        lemma_wrote_rest(s.wrote(head), payload);
        lemma_text_of_encoding(text);
        let written = s.wrote(head).wrote(payload);
        assert(written.at(s.offset).window(4) =~= s.wrote(head).at(s.offset).window(4));
    }
}

} // verus!
