use crate::error::CodecError;
use vstd::prelude::*;

verus! {

/// What a stream is, mathematically: the bytes of its buffer and the cursor.
pub struct StreamView {
    /// The buffer's contents. Its length never changes.
    pub bytes: Seq<u8>,
    /// The position at which the next read or write starts.
    pub offset: nat,
}

impl StreamView {
    /// Whether `n` more bytes lie between the cursor and the end of the buffer.
    pub open spec fn fits(self, n: nat) -> bool {
        self.offset + n <= self.bytes.len()
    }

    /// Whether the cursor stands inside the buffer or at its end. A stream
    /// that was made with its cursor there keeps it there: see
    /// [`lemma_in_bounds_kept`].
    pub open spec fn in_bounds(self) -> bool {
        self.offset <= self.bytes.len()
    }

    /// The `n` bytes at the cursor.
    pub open spec fn window(self, n: nat) -> Seq<u8>
        recommends
            self.fits(n),
    {
        self.bytes.subrange(self.offset as int, (self.offset + n) as int)
    }

    /// Everything from the cursor to the end of the buffer; nothing where the
    /// cursor stands past the end.
    pub open spec fn rest(self) -> Seq<u8> {
        if self.offset <= self.bytes.len() {
            self.bytes.subrange(self.offset as int, self.bytes.len() as int)
        } else {
            Seq::empty()
        }
    }

    /// The same buffer with the cursor at `offset`.
    pub open spec fn at(self, offset: nat) -> StreamView {
        StreamView { bytes: self.bytes, offset }
    }

    /// The same buffer with the cursor moved `n` bytes on.
    pub open spec fn skipped(self, n: nat) -> StreamView {
        self.at(self.offset + n)
    }

    /// The stream after `data` has overwritten the bytes at the cursor and the
    /// cursor has moved past them.
    pub open spec fn wrote(self, data: Seq<u8>) -> StreamView
        recommends
            self.fits(data.len()),
    {
        StreamView {
            bytes: Seq::new(
                self.bytes.len(),
                |i: int|
                    if self.offset <= i < self.offset + data.len() {
                        data[i - self.offset]
                    } else {
                        self.bytes[i]
                    },
            ),
            offset: self.offset + data.len(),
        }
    }
}

/// Two writes in a row are one write of the two pieces joined.
pub proof fn lemma_wrote_wrote(s: StreamView, a: Seq<u8>, b: Seq<u8>)
    ensures
        s.wrote(a).wrote(b) == s.wrote(a + b),
{
    assert(s.wrote(a).wrote(b).bytes =~= s.wrote(a + b).bytes);
}

/// Writing nothing changes nothing.
pub proof fn lemma_wrote_nothing(s: StreamView)
    ensures
        s.wrote(Seq::empty()) == s,
{
    assert(s.wrote(Seq::empty()).bytes =~= s.bytes);
}

/// What was written is what lies at the place where the write began,
/// followed by what lay behind it before; nothing else has changed.
pub proof fn lemma_wrote_rest(s: StreamView, data: Seq<u8>)
    requires
        s.fits(data.len()),
    ensures
        s.wrote(data).bytes.len() == s.bytes.len(),
        s.wrote(data).at(s.offset).window(data.len()) == data,
        s.wrote(data).at(s.offset).rest() == data + s.skipped(data.len()).rest(),
        s.wrote(data).rest() == s.skipped(data.len()).rest(),
        forall|i: int|
            0 <= i < s.offset || s.offset + data.len() <= i < s.bytes.len() ==> s.wrote(
                data,
            ).bytes[i] == s.bytes[i],
{
    assert(s.wrote(data).at(s.offset).window(data.len()) =~= data);
    assert(s.wrote(data).at(s.offset).rest() =~= data + s.skipped(data.len()).rest());
    assert(s.wrote(data).rest() =~= s.skipped(data.len()).rest());
}

/// No step that a stream takes moves its cursor out of the buffer or changes
/// the buffer's length: not a read or write that fits, not a seek to a place
/// up to the end.
pub proof fn lemma_in_bounds_kept(s: StreamView, n: nat, data: Seq<u8>, offset: nat)
    ensures
        s.fits(n) ==> s.skipped(n).in_bounds() && s.skipped(n).bytes == s.bytes,
        s.fits(data.len()) ==> s.wrote(data).in_bounds(),
        s.wrote(data).bytes.len() == s.bytes.len(),
        offset <= s.bytes.len() ==> s.at(offset).in_bounds() && s.at(offset).bytes == s.bytes,
{
}

/// The edge of the buffer: at the last place where `n` bytes still fit, a
/// read or write of `n` bytes is in bounds and leaves the cursor at the end of
/// the buffer; one place further on it is out of bounds.
pub proof fn lemma_bounds_edge(s: StreamView, n: nat, data: Seq<u8>)
    requires
        n <= s.bytes.len(),
        data.len() == n,
    ensures
        s.at((s.bytes.len() - n) as nat).fits(n),
        s.at((s.bytes.len() - n) as nat).skipped(n).offset == s.bytes.len(),
        s.at((s.bytes.len() - n) as nat).wrote(data).offset == s.bytes.len(),
        !s.at((s.bytes.len() - n + 1) as nat).fits(n),
{
}

/// A cursor over a byte buffer of fixed length.
///
/// Reads and writes start at the cursor and move it on by exactly the number
/// of bytes they touch. One that would pass the end of the buffer fails and
/// leaves both the buffer and the cursor as they were. The buffer never grows.
///
/// The stream holds the buffer while it is at work on it; [`BinaryStream::as_slice`]
/// shows it and [`BinaryStream::into_inner`] gives it back.
pub struct BinaryStream {
    buffer: Vec<u8>,
    offset: usize,
}

impl View for BinaryStream {
    type V = StreamView;

    closed spec fn view(&self) -> StreamView {
        StreamView { bytes: self.buffer@, offset: self.offset as nat }
    }
}

impl BinaryStream {
    /// Wraps `buffer` with the cursor at `offset`, or at 0 where none is given.
    pub fn new(buffer: Vec<u8>, offset: Option<u32>) -> (stream: Self)
        ensures
            stream@.bytes == buffer@,
            stream@.offset == match offset {
                Some(o) => o as nat,
                None => 0,
            },
    {
        let offset: usize = match offset {
            Some(o) => o as usize,
            None => 0,
        };
        BinaryStream { buffer, offset }
    }

    /// Overwrites the bytes at the cursor with `data` and moves the cursor past
    /// them, or fails without touching anything where `data` does not fit.
    pub fn write(&mut self, data: &[u8]) -> (r: Result<(), CodecError>)
        ensures
            match r {
                Ok(_) => old(self)@.fits(data@.len()) && final(self)@ == old(self)@.wrote(data@),
                Err(e) => e == CodecError::OutOfBounds && !old(self)@.fits(data@.len())
                    && final(self)@ == old(self)@,
            },
    {
        let n = data.len();
        let len = self.buffer.len();
        if n > len || self.offset > len - n {
            return Err(CodecError::OutOfBounds);
        }
        let start = self.offset;
        let mut i: usize = 0;
        while i < n
            invariant
                i <= n,
                n == data@.len(),
                start + n <= len,
                len == self.buffer@.len(),
                len == old(self).buffer@.len(),
                self.offset == start,
                start == old(self).offset,
                forall|j: int|
                    0 <= j < len ==> self.buffer@[j] == if start <= j < start + i {
                        data@[j - start]
                    } else {
                        old(self).buffer@[j]
                    },
            decreases n - i,
        {
            self.buffer[start + i] = data[i];
            i = i + 1;
        }
        self.offset = start + n;
        assert(self@.bytes =~= old(self)@.wrote(data@).bytes);
        Ok(())
    }

    /// Hands out the next `length` bytes and moves the cursor past them, or
    /// fails without moving it where fewer are left.
    pub fn read(&mut self, length: usize) -> (r: Result<&[u8], CodecError>)
        ensures
            match r {
                Ok(bytes) => old(self)@.fits(length as nat) && bytes@ == old(self)@.window(
                    length as nat,
                ) && final(self)@ == old(self)@.skipped(length as nat),
                Err(e) => e == CodecError::OutOfBounds && !old(self)@.fits(length as nat)
                    && final(self)@ == old(self)@,
            },
    {
        let len = self.buffer.len();
        if length > len || self.offset > len - length {
            return Err(CodecError::OutOfBounds);
        }
        let start = self.offset;
        self.offset = start + length;
        Ok(vstd::slice::slice_subrange(self.buffer.as_slice(), start, start + length))
    }

    /// The cursor.
    pub(crate) fn position(&self) -> (offset: usize)
        ensures
            offset == self@.offset,
    {
        self.offset
    }

    /// Puts the cursor back at `offset`, a place where it stood before.
    pub(crate) fn restore(&mut self, offset: usize)
        ensures
            final(self)@ == old(self)@.at(offset as nat),
    {
        self.offset = offset;
    }

    /// Whether `n` more bytes fit between the cursor and the end of the buffer.
    pub(crate) fn has_room(&self, n: usize) -> (r: bool)
        ensures
            r == self@.fits(n as nat),
    {
        let len = self.buffer.len();
        n <= len && self.offset <= len - n
    }

    /// Whether a prefix of `head` bytes and a payload of `payload` bytes fit
    /// together between the cursor and the end of the buffer.
    pub(crate) fn has_room_for(&self, head: usize, payload: usize) -> (r: bool)
        ensures
            r == self@.fits((head + payload) as nat),
    {
        let len = self.buffer.len();
        match head.checked_add(payload) {
            Some(total) => total <= len && self.offset <= len - total,
            None => false,
        }
    }

    /// The cursor as a 32-bit number; of a cursor that needs more bits, the low 32.
    pub fn get_offset_napi(&self) -> (r: Result<u32, CodecError>)
        ensures
            r == Ok::<u32, CodecError>((self@.offset % 0x1_0000_0000) as u32),
    {
        Ok((self.offset as u64 % 0x1_0000_0000) as u32)
    }

    /// Moves the cursor to `offset`. The end of the buffer is a legal place;
    /// anything past it is refused and the cursor stays.
    pub fn set_offset_napi(&mut self, offset: u32) -> (r: Result<(), CodecError>)
        ensures
            match r {
                Ok(_) => offset <= old(self)@.bytes.len() && final(self)@ == old(self)@.at(
                    offset as nat,
                ),
                Err(e) => e == CodecError::OutOfBounds && offset > old(self)@.bytes.len()
                    && final(self)@ == old(self)@,
            },
    {
        if offset as usize > self.buffer.len() {
            return Err(CodecError::OutOfBounds);
        }
        self.offset = offset as usize;
        Ok(())
    }

    /// Whether the cursor stands at or past the end of the buffer.
    pub fn feof(&self) -> (r: bool)
        ensures
            r == (self@.offset >= self@.bytes.len()),
    {
        self.offset >= self.buffer.len()
    }

    /// Moves the cursor back to the start.
    pub fn reset(&mut self)
        ensures
            final(self)@ == old(self)@.at(0),
    {
        self.offset = 0;
    }

    /// The whole buffer, wherever the cursor stands.
    pub fn as_slice(&self) -> (bytes: &[u8])
        ensures
            bytes@ == self@.bytes,
    {
        self.buffer.as_slice()
    }

    /// Gives the buffer back.
    pub fn into_inner(self) -> (buffer: Vec<u8>)
        ensures
            buffer@ == self@.bytes,
    {
        self.buffer
    }
}

} // verus!
