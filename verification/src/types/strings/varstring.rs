use crate::base128::{encoded_len, groups};
use crate::error::CodecError;
use crate::stream::{lemma_wrote_rest, lemma_wrote_wrote, BinaryStream, StreamView};
use crate::text::{lemma_text_of_encoding, read_text, text_of};
use crate::types::unsigned::varint::VarInt;
use vstd::prelude::*;
use vstd::utf8::encode_utf8;

verus! {

/// Text behind a variable-length prefix: the number of payload bytes as a
/// [`VarInt`], then the UTF-8 bytes themselves.
pub struct VarString();

impl VarString {
    /// The length prefix that is written for `text`: the number of its UTF-8
    /// bytes, cut to its low 32 bits where it needs more.
    pub open spec fn prefix(text: Seq<char>) -> Seq<u8> {
        groups(encode_utf8(text).len() % 0x1_0000_0000)
    }

    /// Reads the length as [`VarInt::read`] does, then that many bytes as text.
    ///
    /// Where the length cannot be read, fails as that read fails and leaves
    /// the cursor where it does. Where the payload does not fit, fails
    /// `OutOfBounds` with the cursor where it stood before the call.
    pub fn read(stream: &mut BinaryStream) -> (r: Result<String, CodecError>)
        ensures
            ({
                let before = old(stream)@;
                let body = before.skipped(VarInt::consumed(before.rest()));
                match VarInt::decoded(before.rest()) {
                    Ok(n) => if body.fits(n as nat) {
                        r matches Ok(text) && text@ == text_of(body.window(n as nat))
                            && final(stream)@ == body.skipped(n as nat)
                    } else {
                        r matches Err(e) && e == CodecError::OutOfBounds
                            && final(stream)@ == before
                    },
                    Err(e) => r matches Err(f) && f == e && final(stream)@ == body,
                }
            }),
    {
        let start = stream.position();
        let length = match VarInt::read(stream) {
            Ok(length) => length,
            Err(err) => return Err(err),
        };
        match read_text(stream, length as usize) {
            Ok(text) => Ok(text),
            Err(err) => {
                stream.restore(start);
                Err(err)
            },
        }
    }

    /// Writes the length of `value` in bytes, then its bytes as they are.
    ///
    /// Fails `OutOfBounds` with nothing written where the two together do
    /// not fit.
    pub fn write(stream: &mut BinaryStream, value: String) -> (r: Result<(), CodecError>)
        ensures
            ({
                let before = old(stream)@;
                let head = Self::prefix(value@);
                let payload = encode_utf8(value@);
                match r {
                    Ok(_) => before.fits(head.len() + payload.len()) && final(stream)@
                        == before.wrote(head + payload),
                    Err(e) => e == CodecError::OutOfBounds && !before.fits(
                        head.len() + payload.len(),
                    ) && final(stream)@ == before,
                }
            }),
    {
        let bytes = value.as_str().as_bytes();
        let length: u32 = (bytes.len() as u64 % 0x1_0000_0000) as u32;
        if !stream.has_room_for(encoded_len(length as u64), bytes.len()) {
            return Err(CodecError::OutOfBounds);
        }
        proof {
            lemma_wrote_wrote(old(stream)@, Self::prefix(value@), encode_utf8(value@));
        }
        match VarInt::write(stream, length) {
            Ok(_) => {},
            Err(err) => return Err(err),
        };
        stream.write(bytes)
    }

    /// After a write that succeeded of a text whose length fits the prefix,
    /// a read from where the write began finds that length, returns the text
    /// and ends where the write ended.
    pub proof fn lemma_write_then_read(s: StreamView, text: Seq<char>)
        requires
            encode_utf8(text).len() < 0x1_0000_0000,
            s.fits(Self::prefix(text).len() + encode_utf8(text).len()),
        ensures
            ({
                let n = encode_utf8(text).len();
                let written = s.wrote(Self::prefix(text) + encode_utf8(text));
                let back = written.at(s.offset);
                let body = back.skipped(VarInt::consumed(back.rest()));
                &&& VarInt::decoded(back.rest()) == Ok::<u32, CodecError>(n as u32)
                &&& body.fits(n)
                &&& text_of(body.window(n)) == text
                &&& body.skipped(n) == written
            }),
    {
        let payload = encode_utf8(text);
        let n = payload.len();
        let head = Self::prefix(text);
        let written = s.wrote(head + payload);
        let back = written.at(s.offset);
        lemma_wrote_rest(s, head + payload);
        assert(back.rest() =~= head + (payload + s.skipped((head + payload).len()).rest()));
        VarInt::lemma_round_trip(n as u32, payload + s.skipped((head + payload).len()).rest());
        lemma_wrote_wrote(s, head, payload);
        lemma_wrote_rest(s.wrote(head), payload);
        lemma_text_of_encoding(text);
    }
}

} // verus!
