//! Text as it travels in a stream: UTF-8 bytes behind a length prefix.
//!
//! Writing puts down the bytes of the text as they are. Reading is lenient:
//! bytes that are not valid UTF-8 still read as text, with replacement
//! characters where they could not be decoded.

use crate::error::CodecError;
use crate::stream::{BinaryStream, StreamView};
use vstd::prelude::*;
use vstd::utf8::{decode_utf8, encode_utf8, valid_utf8};

verus! {

/// The text that `String::from_utf8_lossy` makes of `bytes`.
pub uninterp spec fn lossy_text(bytes: Seq<u8>) -> Seq<char>;

/// The text that a read makes of the payload `bytes`: what they encode where
/// they are valid UTF-8, and the lossy reading of them where they are not.
pub open spec fn text_of(bytes: Seq<u8>) -> Seq<char> {
    if valid_utf8(bytes) {
        decode_utf8(bytes)
    } else {
        lossy_text(bytes)
    }
}

/// What reading a payload of `n` bytes from the stream `body` comes to: the
/// text of the next `n` bytes and a cursor behind them, or `OutOfBounds` and
/// an unmoved cursor where fewer than `n` bytes are left.
pub open spec fn reads_text(
    body: StreamView,
    n: nat,
    after: StreamView,
    r: Result<String, CodecError>,
) -> bool {
    if body.fits(n) {
        &&& r matches Ok(text)
        &&& text@ == text_of(body.window(n))
        &&& after == body.skipped(n)
    } else {
        &&& r matches Err(e)
        &&& e == CodecError::OutOfBounds
        &&& after == body
    }
}

/// Calls `String::from_utf8_lossy` and takes the text out of the `Cow` it
/// returns. The contract names the result, and adds what the documentation of
/// that function says of bytes that are valid UTF-8: they come back as the
/// very text they encode, with nothing replaced.
#[verifier::external_body]
fn from_utf8_lossy(bytes: &[u8]) -> (text: String)
    ensures
        text@ == lossy_text(bytes@),
        valid_utf8(bytes@) ==> text@ == decode_utf8(bytes@),
{
    String::from_utf8_lossy(bytes).into_owned()
}

/// Reads `length` bytes at the cursor as text.
pub fn read_text(stream: &mut BinaryStream, length: usize) -> (r: Result<String, CodecError>)
    ensures
        reads_text(old(stream)@, length as nat, final(stream)@, r),
{
    let bytes = match stream.read(length) {
        Ok(bytes) => bytes,
        Err(err) => return Err(err),
    };
    Ok(from_utf8_lossy(bytes))
}

/// The characters that ASCII bytes are.
pub open spec fn ascii(bytes: Seq<u8>) -> Seq<char> {
    Seq::new(bytes.len(), |i: int| bytes[i] as char)
}

/// Makes a string of bytes that are all ASCII: each byte becomes the
/// character with its number.
pub(crate) fn ascii_text(bytes: &[u8]) -> (text: String)
    requires
        forall|i: int| 0 <= i < bytes@.len() ==> bytes@[i] < 128,
    ensures
        text@ == ascii(bytes@),
{
    proof {
        let chars = ascii(bytes@);
        assert(vstd::utf8::is_ascii_chars(chars));
        vstd::utf8::is_ascii_chars_encode_utf8(chars);
        assert(encode_utf8(chars) =~= bytes@);
        lemma_text_of_encoding(chars);
    }
    from_utf8_lossy(bytes)
}

/// Valid text survives: what a read makes of the bytes of `text` is `text`.
pub proof fn lemma_text_of_encoding(text: Seq<char>)
    ensures
        valid_utf8(encode_utf8(text)),
        text_of(encode_utf8(text)) == text,
{
    vstd::utf8::encode_utf8_valid_utf8(text);
    vstd::utf8::encode_utf8_decode_utf8(text);
}

} // verus!
