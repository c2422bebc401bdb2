use crate::error::CodecError;
use crate::fixed::reversed;
use crate::stream::{lemma_wrote_rest, lemma_wrote_wrote, BinaryStream, StreamView};
use crate::text::{ascii, ascii_text};
use vstd::prelude::*;
use vstd::slice::slice_subrange;

verus! {

/// The lower-case hexadecimal digit for `d`, which is below 16.
pub open spec fn hex_digit(d: u8) -> char {
    if d < 10 {
        ('0' as u32 + d) as char
    } else {
        ('a' as u32 + d - 10) as char
    }
}

/// The value of the hexadecimal digit `c`, in either case; `None` of any
/// other character.
pub open spec fn hex_value(c: char) -> Option<u8> {
    if '0' <= c <= '9' {
        Some((c as u32 - '0' as u32) as u8)
    } else if 'a' <= c <= 'f' {
        Some((c as u32 - 'a' as u32 + 10) as u8)
    } else if 'A' <= c <= 'F' {
        Some((c as u32 - 'A' as u32 + 10) as u8)
    } else {
        None
    }
}

/// The test that keeps every character but the hyphen.
pub open spec fn not_hyphen() -> spec_fn(char) -> bool {
    |c: char| c != '-'
}

/// The digits of `bytes`: two to a byte, the high half first.
pub open spec fn hex(bytes: Seq<u8>) -> Seq<char> {
    Seq::new(
        2 * bytes.len(),
        |i: int|
            hex_digit(
                if i % 2 == 0 {
                    bytes[i / 2] / 16
                } else {
                    bytes[i / 2] % 16
                },
            ),
    )
}

/// The bytes that `digits` spell, two digits to a byte.
pub open spec fn unhex(digits: Seq<char>) -> Seq<u8> {
    Seq::new(
        digits.len() / 2,
        |i: int|
            (hex_value(digits[2 * i]).unwrap() * 16 + hex_value(digits[2 * i + 1]).unwrap()) as u8,
    )
}

/// The canonical text of the 16 bytes `id`: their 32 lower-case digits in
/// groups of 8, 4, 4, 4 and 12 with hyphens between.
pub open spec fn canonical(id: Seq<u8>) -> Seq<char> {
    let h = hex(id);
    h.subrange(0, 8) + seq!['-'] + h.subrange(8, 12) + seq!['-'] + h.subrange(12, 16) + seq!['-']
        + h.subrange(16, 20) + seq!['-'] + h.subrange(20, 32)
}

/// Sixteen bytes with each half of eight in the opposite order. This takes
/// the bytes on the wire to those that the text spells, and back.
pub open spec fn swapped(bytes: Seq<u8>) -> Seq<u8> {
    bytes.subrange(0, 8).reverse() + bytes.subrange(8, 16).reverse()
}

/// Whether `text` is an identifier: 32 hexadecimal digits with hyphens
/// anywhere, or nowhere, between them.
pub open spec fn well_formed(text: Seq<char>) -> bool {
    let digits = text.filter(not_hyphen());
    digits.len() == 32 && forall|i: int| 0 <= i < 32 ==> hex_value(#[trigger] digits[i]) is Some
}

/// A sequence without hyphens keeps all its characters.
proof fn lemma_filter_keeps(s: Seq<char>)
    requires
        forall|i: int| 0 <= i < s.len() ==> s[i] != '-',
    ensures
        s.filter(not_hyphen()) == s,
    decreases s.len(),
{
    reveal(Seq::filter);
    if s.len() != 0 {
        lemma_filter_keeps(s.drop_last());
        assert(s.drop_last().push(s.last()) =~= s);
    }
}

/// The digits of bytes are hexadecimal digits, none of them a hyphen, and
/// they spell those bytes.
pub proof fn lemma_unhex_hex(bytes: Seq<u8>)
    ensures
        hex(bytes).len() == 2 * bytes.len(),
        forall|i: int| 0 <= i < hex(bytes).len() ==> hex_value(#[trigger] hex(bytes)[i]) is Some,
        hex(bytes).filter(not_hyphen()) == hex(bytes),
        unhex(hex(bytes)) == bytes,
{
    let h = hex(bytes);
    assert forall|i: int| 0 <= i < h.len() implies hex_value(#[trigger] h[i]) is Some && h[i]
        != '-' by {
        let d: u8 = if i % 2 == 0 {
            bytes[i / 2] / 16
        } else {
            bytes[i / 2] % 16
        };
        assert(h[i] == hex_digit(d));
        assert(hex_value(hex_digit(d)) == Some(d));
    }
    lemma_filter_keeps(h);
    assert forall|i: int| 0 <= i < bytes.len() implies unhex(h)[i] == bytes[i] by {
        let b = bytes[i];
        assert(h[2 * i] == hex_digit(b / 16));
        assert(h[2 * i + 1] == hex_digit(b % 16));
        assert(hex_value(hex_digit(b / 16)) == Some(b / 16));
        assert(hex_value(hex_digit(b % 16)) == Some(b % 16));
    }
    assert(unhex(h) =~= bytes);
}

/// Canonical text is an identifier, and without its hyphens it is the
/// digits of the bytes it was made from.
pub proof fn lemma_canonical_digits(id: Seq<u8>)
    requires
        id.len() == 16,
    ensures
        canonical(id).filter(not_hyphen()) == hex(id),
        well_formed(canonical(id)),
        unhex(canonical(id).filter(not_hyphen())) == id,
{
    let h = hex(id);
    let keep = not_hyphen();
    let dash = seq!['-'];
    lemma_unhex_hex(id);
    let a = h.subrange(0, 8);
    let b = h.subrange(8, 12);
    let c = h.subrange(12, 16);
    let d = h.subrange(16, 20);
    let e = h.subrange(20, 32);
    lemma_filter_keeps(a);
    lemma_filter_keeps(b);
    lemma_filter_keeps(c);
    lemma_filter_keeps(d);
    lemma_filter_keeps(e);
    assert(dash.filter(keep) =~= Seq::<char>::empty()) by {
        reveal_with_fuel(Seq::filter, 2);
        assert(dash.drop_last() =~= Seq::<char>::empty());
    }
    Seq::filter_distributes_over_add(a, dash, keep);
    Seq::filter_distributes_over_add(a + dash, b, keep);
    Seq::filter_distributes_over_add(a + dash + b, dash, keep);
    Seq::filter_distributes_over_add(a + dash + b + dash, c, keep);
    Seq::filter_distributes_over_add(a + dash + b + dash + c, dash, keep);
    Seq::filter_distributes_over_add(a + dash + b + dash + c + dash, d, keep);
    Seq::filter_distributes_over_add(a + dash + b + dash + c + dash + d, dash, keep);
    Seq::filter_distributes_over_add(a + dash + b + dash + c + dash + d + dash, e, keep);
    assert(a + b + c + d + e =~= h);
    assert(canonical(id).filter(keep) =~= h);
}

/// Swapping the halves' order twice changes nothing.
pub proof fn lemma_swapped_swapped(bytes: Seq<u8>)
    requires
        bytes.len() == 16,
    ensures
        swapped(bytes).len() == 16,
        swapped(swapped(bytes)) == bytes,
{
    assert(swapped(swapped(bytes)) =~= bytes);
}

/// A 128-bit identifier: 16 bytes on the wire, canonical hyphenated
/// lower-case text in the program.
pub struct Uuid();

impl Uuid {
    /// The text of the 16 wire bytes `wire`.
    pub open spec fn text(wire: Seq<u8>) -> Seq<char> {
        canonical(swapped(wire))
    }

    /// The 16 wire bytes of the identifier `text`.
    pub open spec fn wire(text: Seq<char>) -> Seq<u8> {
        swapped(unhex(text.filter(not_hyphen())))
    }

    /// Writing what was read: the text of any 16 wire bytes is an identifier,
    /// and its wire bytes are those 16.
    pub proof fn lemma_wire_of_text(wire: Seq<u8>)
        requires
            wire.len() == 16,
        ensures
            well_formed(Self::text(wire)),
            Self::wire(Self::text(wire)) == wire,
    {
        lemma_swapped_swapped(wire);
        lemma_canonical_digits(swapped(wire));
    }

    /// Reading what was written: an identifier has 16 wire bytes, and their
    /// text is the canonical form of the digits that were written. Text that
    /// is canonical already comes back unchanged.
    pub proof fn lemma_text_of_wire(text: Seq<char>)
        requires
            well_formed(text),
        ensures
            Self::wire(text).len() == 16,
            Self::text(Self::wire(text)) == canonical(unhex(text.filter(not_hyphen()))),
            forall|id: Seq<u8>|
                id.len() == 16 && text == canonical(id) ==> Self::text(Self::wire(text)) == text,
    {
        let id = unhex(text.filter(not_hyphen()));
        lemma_swapped_swapped(id);
        assert forall|other: Seq<u8>| other.len() == 16 && text == canonical(other) implies id
            == other by {
            lemma_canonical_digits(other);
        }
    }

    /// After a write that succeeded, a read from where the write began
    /// returns the canonical form of the identifier written and ends where
    /// the write ended.
    pub proof fn lemma_write_then_read(s: StreamView, text: Seq<char>)
        requires
            well_formed(text),
            s.fits(16),
        ensures
            ({
                let written = s.wrote(Self::wire(text));
                let back = written.at(s.offset);
                &&& back.fits(16)
                &&& Self::text(back.window(16)) == canonical(unhex(text.filter(not_hyphen())))
                &&& back.skipped(16) == written
            }),
    {
        Self::lemma_text_of_wire(text);
        lemma_wrote_rest(s, Self::wire(text));
    }

    /// Reads 16 bytes as two halves of eight and renders them as canonical text.
    ///
    /// Fails `OutOfBounds` with the cursor unmoved where fewer than 16 bytes
    /// are left.
    pub fn read(stream: &mut BinaryStream) -> (r: Result<String, CodecError>)
        ensures
            ({
                let before = old(stream)@;
                if before.fits(16) {
                    r matches Ok(text) && text@ == Self::text(before.window(16)) && final(stream)@
                        == before.skipped(16)
                } else {
                    r matches Err(e) && e == CodecError::OutOfBounds && final(stream)@ == before
                }
            }),
    {
        let wire = match stream.read(16) {
            Ok(bytes) => bytes,
            Err(err) => return Err(err),
        };
        let mut id = reversed(slice_subrange(wire, 0, 8));
        let mut low = reversed(slice_subrange(wire, 8, 16));
        id.append(&mut low);
        assert(id@ =~= swapped(old(stream)@.window(16)));
        let digits = digits_of(id.as_slice());
        let mut out: Vec<u8> = Vec::with_capacity(36);
        out.extend_from_slice(slice_subrange(digits.as_slice(), 0, 8));
        out.push(0x2D);
        out.extend_from_slice(slice_subrange(digits.as_slice(), 8, 12));
        out.push(0x2D);
        out.extend_from_slice(slice_subrange(digits.as_slice(), 12, 16));
        out.push(0x2D);
        out.extend_from_slice(slice_subrange(digits.as_slice(), 16, 20));
        out.push(0x2D);
        out.extend_from_slice(slice_subrange(digits.as_slice(), 20, 32));
        assert(ascii(out@) =~= canonical(id@));
        Ok(ascii_text(out.as_slice()))
    }

    /// Takes the hyphens out of `value`, reads what is left as 32 hexadecimal
    /// digits in either case, and writes the 16 bytes they spell as two halves
    /// of eight, each in the opposite order.
    ///
    /// Fails `InvalidFormat` where `value` is not such a text, and
    /// `OutOfBounds` where the 16 bytes do not fit; either way nothing is
    /// written and the cursor stays.
    pub fn write(stream: &mut BinaryStream, value: String) -> (r: Result<(), CodecError>)
        ensures
            ({
                let before = old(stream)@;
                if !well_formed(value@) {
                    r == Err::<(), CodecError>(CodecError::InvalidFormat) && final(stream)@
                        == before
                } else if !before.fits(16) {
                    r == Err::<(), CodecError>(CodecError::OutOfBounds) && final(stream)@ == before
                } else {
                    r is Ok && final(stream)@ == before.wrote(Self::wire(value@))
                }
            }),
    {
        let id = match parse(value.as_str()) {
            Some(id) => id,
            None => return Err(CodecError::InvalidFormat),
        };
        if !stream.has_room(16) {
            return Err(CodecError::OutOfBounds);
        }
        let high = reversed(slice_subrange(id.as_slice(), 0, 8));
        let low = reversed(slice_subrange(id.as_slice(), 8, 16));
        proof {
            assert(Self::wire(value@) =~= high@ + low@);
            lemma_wrote_wrote(old(stream)@, high@, low@);
        }
        match stream.write(high.as_slice()) {
            Ok(_) => {},
            Err(err) => return Err(err),
        };
        stream.write(low.as_slice())
    }
}

/// The 16 bytes that the identifier `text` spells, or `None` where `text` is
/// no identifier.
pub fn parse(text: &str) -> (r: Option<Vec<u8>>)
    ensures
        match r {
            Some(id) => well_formed(text@) && id@ == unhex(text@.filter(not_hyphen())),
            None => !well_formed(text@),
        },
{
    let mut values: Vec<u8> = Vec::with_capacity(32);
    let mut sound = true;
    for c in it: text.chars()
        invariant
            it.seq() == text@,
            sound ==> values@.len() <= 32,
            sound ==> values@.len() == it.seq().take(it.index() as int).filter(not_hyphen()).len(),
            sound ==> forall|j: int|
                0 <= j < values@.len() ==> hex_value(
                    #[trigger] it.seq().take(it.index() as int).filter(not_hyphen())[j],
                ) == Some(values@[j]),
            !sound ==> !prefix_of_identifier(
                it.seq().take(it.index() as int).filter(not_hyphen()),
            ),
    {
        proof {
            reveal(Seq::filter);
            let seen = text@.take(it.index() as int);
            let next = text@.take(it.index() + 1);
            assert(next.drop_last() =~= seen);
            assert(next.last() == c);
        }
        if sound && c != '-' {
            match digit_value(c) {
                Some(v) => {
                    if values.len() < 32 {
                        values.push(v);
                    } else {
                        sound = false;
                    }
                },
                None => {
                    sound = false;
                    proof {
                        let kept = text@.take(it.index() + 1).filter(not_hyphen());
                        assert(hex_value(kept[kept.len() - 1]) is None);
                    }
                },
            }
        } else if !sound {
            proof {
                let before = text@.take(it.index() as int).filter(not_hyphen());
                let kept = text@.take(it.index() + 1).filter(not_hyphen());
                if before.len() <= 32 {
                    let j = choose|j: int| 0 <= j < before.len() && hex_value(before[j]) is None;
                    assert(kept[j] == before[j]);
                }
            }
        }
    }
    proof {
        assert(text@.take(text@.len() as int) =~= text@);
    }
    if !sound || values.len() != 32 {
        return None;
    }
    let ghost digits = text@.filter(not_hyphen());
    let mut id: Vec<u8> = Vec::with_capacity(16);
    let mut i: usize = 0;
    while i < 16
        invariant
            i <= 16,
            values@.len() == 32,
            digits.len() == 32,
            forall|j: int| 0 <= j < 32 ==> hex_value(#[trigger] digits[j]) == Some(values@[j]),
            id@.len() == i,
            forall|j: int| 0 <= j < i ==> id@[j] == unhex(digits)[j],
        decreases 16 - i,
    {
        let high = values[2 * i];
        let low = values[2 * i + 1];
        assert(hex_value(digits[2 * i]) == Some(high));
        assert(hex_value(digits[2 * i + 1]) == Some(low));
        id.push(high * 16 + low);
        i = i + 1;
    }
    assert(id@ =~= unhex(digits));
    Some(id)
}

/// Whether `digits` can still grow into the digits of an identifier: no more
/// than 32 characters, all of them hexadecimal digits.
pub open spec fn prefix_of_identifier(digits: Seq<char>) -> bool {
    digits.len() <= 32 && forall|j: int|
        0 <= j < digits.len() ==> hex_value(#[trigger] digits[j]) is Some
}

/// The value of the hexadecimal digit `c`, if it is one.
fn digit_value(c: char) -> (r: Option<u8>)
    ensures
        r == hex_value(c),
        r matches Some(v) ==> v < 16,
{
    if '0' <= c && c <= '9' {
        Some((c as u32 - '0' as u32) as u8)
    } else if 'a' <= c && c <= 'f' {
        Some((c as u32 - 'a' as u32 + 10) as u8)
    } else if 'A' <= c && c <= 'F' {
        Some((c as u32 - 'A' as u32 + 10) as u8)
    } else {
        None
    }
}

/// The digits of `bytes` as ASCII bytes.
fn digits_of(bytes: &[u8]) -> (out: Vec<u8>)
    requires
        bytes@.len() <= 16,
    ensures
        ascii(out@) == hex(bytes@),
        out@.len() == 2 * bytes@.len(),
        forall|i: int| 0 <= i < out@.len() ==> out@[i] < 128,
{
    let n = bytes.len();
    let mut out: Vec<u8> = Vec::with_capacity(2 * n);
    let mut i: usize = 0;
    while i < n
        invariant
            i <= n,
            n == bytes@.len(),
            n <= 16,
            out@.len() == 2 * i,
            forall|j: int| 0 <= j < out@.len() ==> out@[j] < 128,
            forall|j: int| 0 <= j < out@.len() ==> out@[j] as char == hex(bytes@)[j],
        decreases n - i,
    {
        let byte = bytes[i];
        let high: u8 = byte >> 4;
        let low: u8 = byte & 0x0F;
        assert(high == byte / 16 && low == byte % 16) by (bit_vector)
            requires
                high == byte >> 4,
                low == byte & 0x0F,
        ;
        out.push(digit_of(high));
        out.push(digit_of(low));
        i = i + 1;
    }
    assert(ascii(out@) =~= hex(bytes@));
    out
}

/// The lower-case digit for `d` as an ASCII byte.
fn digit_of(d: u8) -> (b: u8)
    requires
        d < 16,
    ensures
        b as char == hex_digit(d),
        b < 128,
{
    if d < 10 {
        0x30 + d
    } else {
        0x61 + (d - 10)
    }
}

} // verus!
