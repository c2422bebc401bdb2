//! Fixed-width integers as bytes, in either byte order.
//!
//! A value of `width` bytes is the number that its bytes spell in base 256.
//! Little-endian puts the lowest digit first; big-endian is the same bytes
//! in the opposite order. Signed values are carried in two's complement.

use crate::endianness::Endianness;
use crate::stream::{lemma_wrote_rest, StreamView};
use vstd::prelude::*;

verus! {

/// 256 to the power `n`: the count of values that `n` bytes hold.
pub open spec fn pow256(n: nat) -> nat
    decreases n,
{
    if n == 0 {
        1
    } else {
        256 * pow256((n - 1) as nat)
    }
}

/// The number that `s` spells with its first byte as the lowest digit.
pub open spec fn le_value(s: Seq<u8>) -> nat
    decreases s.len(),
{
    if s.len() == 0 {
        0
    } else {
        s[0] as nat + 256 * le_value(s.drop_first())
    }
}

/// The lowest `width` base-256 digits of `v`, the lowest first.
pub open spec fn le_bytes(v: nat, width: nat) -> Seq<u8>
    decreases width,
{
    if width == 0 {
        Seq::empty()
    } else {
        seq![(v % 256) as u8] + le_bytes(v / 256, (width - 1) as nat)
    }
}

/// The number that `s` spells in the byte order `endian`.
pub open spec fn value_of(s: Seq<u8>, endian: Endianness) -> nat {
    match endian {
        Endianness::Little => le_value(s),
        Endianness::Big => le_value(s.reverse()),
    }
}

/// The `width` bytes that carry `v` in the byte order `endian`. Of a number
/// that needs more bytes, they carry the low `width` digits.
pub open spec fn bytes_of(v: nat, width: nat, endian: Endianness) -> Seq<u8> {
    match endian {
        Endianness::Little => le_bytes(v, width),
        Endianness::Big => le_bytes(v, width).reverse(),
    }
}

/// The signed number that the unsigned `u` of `width` bytes is in two's
/// complement: the upper half of the range stands for the negative numbers.
pub open spec fn signed_of(u: nat, width: nat) -> int {
    if 2 * u >= pow256(width) {
        u - pow256(width)
    } else {
        u as int
    }
}

/// The unsigned number of `width` bytes that carries `v` in two's complement.
pub open spec fn unsigned_of(v: int, width: nat) -> nat {
    if v < 0 {
        (v + pow256(width)) as nat
    } else {
        v as nat
    }
}

/// The powers of 256 at the widths in use.
pub proof fn lemma_pow256_values()
    ensures
        pow256(0) == 1,
        pow256(1) == 0x100,
        pow256(2) == 0x1_0000,
        pow256(3) == 0x100_0000,
        pow256(4) == 0x1_0000_0000,
        pow256(5) == 0x100_0000_0000,
        pow256(6) == 0x1_0000_0000_0000,
        pow256(7) == 0x100_0000_0000_0000,
        pow256(8) == 0x1_0000_0000_0000_0000,
{
    reveal_with_fuel(pow256, 9);
}

/// The powers of 256 grow with the exponent, and none is zero.
pub proof fn lemma_pow256_grows(i: nat, j: nat)
    requires
        i <= j,
    ensures
        1 <= pow256(i) <= pow256(j),
    decreases j,
{
    if j == 0 {
    } else if i == j {
        lemma_pow256_grows((i - 1) as nat, (j - 1) as nat);
    } else {
        lemma_pow256_grows(i, (j - 1) as nat);
    }
}

/// `n` bytes spell a number below 256 to the `n`, in either byte order.
pub proof fn lemma_value_bound(s: Seq<u8>, endian: Endianness)
    ensures
        value_of(s, endian) < pow256(s.len()),
{
    lemma_le_value_bound(s);
    lemma_le_value_bound(s.reverse());
}

proof fn lemma_le_value_bound(s: Seq<u8>)
    ensures
        le_value(s) < pow256(s.len()),
    decreases s.len(),
{
    if s.len() != 0 {
        lemma_le_value_bound(s.drop_first());
    }
}

proof fn lemma_le_bytes_len(v: nat, width: nat)
    ensures
        le_bytes(v, width).len() == width,
    decreases width,
{
    if width != 0 {
        lemma_le_bytes_len(v / 256, (width - 1) as nat);
    }
}

proof fn lemma_le_value_of_bytes(v: nat, width: nat)
    ensures
        le_value(le_bytes(v, width)) == v % pow256(width),
    decreases width,
{
    if width != 0 {
        let rest = le_bytes(v / 256, (width - 1) as nat);
        lemma_le_value_of_bytes(v / 256, (width - 1) as nat);
        assert(le_bytes(v, width).drop_first() =~= rest);
        let p = pow256((width - 1) as nat);
        lemma_pow256_grows(0, (width - 1) as nat);
        vstd::arithmetic::div_mod::lemma_mod_breakdown(v as int, 256, p as int);
    }
}

proof fn lemma_le_bytes_of_value(s: Seq<u8>)
    ensures
        le_bytes(le_value(s), s.len()) == s,
    decreases s.len(),
{
    if s.len() != 0 {
        let t = s.drop_first();
        lemma_le_bytes_of_value(t);
        let v = le_value(s);
        assert(v % 256 == s[0] && v / 256 == le_value(t));
        assert(le_bytes(v, s.len()) =~= seq![s[0]] + le_bytes(le_value(t), t.len()));
        assert(seq![s[0]] + t =~= s);
    } else {
        assert(le_bytes(le_value(s), 0) =~= s);
    }
}

/// An encoding has exactly `width` bytes.
pub proof fn lemma_bytes_len(v: nat, width: nat, endian: Endianness)
    ensures
        bytes_of(v, width, endian).len() == width,
{
    lemma_le_bytes_len(v, width);
}

/// Decoding what was encoded: the bytes of `v` spell `v` again, in the same
/// byte order, where `v` has no more than `width` digits; of a larger `v`
/// they spell what is left of it modulo 256 to the `width`.
pub proof fn lemma_value_of_bytes(v: nat, width: nat, endian: Endianness)
    ensures
        value_of(bytes_of(v, width, endian), endian) == v % pow256(width),
        v < pow256(width) ==> value_of(bytes_of(v, width, endian), endian) == v,
{
    lemma_le_value_of_bytes(v, width);
    assert(le_bytes(v, width).reverse().reverse() =~= le_bytes(v, width));
    lemma_pow256_grows(0, width);
    if v < pow256(width) {
        vstd::arithmetic::div_mod::lemma_small_mod(v, pow256(width));
    }
}

/// Encoding what was decoded: every sequence of bytes is the encoding of the
/// number it spells, so no two sequences of one length spell the same number.
pub proof fn lemma_bytes_of_value(s: Seq<u8>, endian: Endianness)
    ensures
        bytes_of(value_of(s, endian), s.len(), endian) == s,
{
    lemma_le_bytes_of_value(s);
    lemma_le_bytes_of_value(s.reverse());
    assert(s.reverse().reverse() =~= s);
}

/// Two's complement loses nothing: a signed number of `width` bytes is
/// carried by an unsigned number of `width` bytes and comes back from it,
/// the least number of the range included.
pub proof fn lemma_signed_of_unsigned(v: int, width: nat)
    requires
        -(pow256(width) as int) <= 2 * v < pow256(width),
    ensures
        unsigned_of(v, width) < pow256(width),
        signed_of(unsigned_of(v, width), width) == v,
{
}

/// Every unsigned number of `width` bytes stands for a signed number of the
/// range, and is the one that carries it.
pub proof fn lemma_unsigned_of_signed(u: nat, width: nat)
    requires
        u < pow256(width),
    ensures
        -(pow256(width) as int) <= 2 * signed_of(u, width) < pow256(width),
        unsigned_of(signed_of(u, width), width) == u,
{
}

/// After the bytes of `v` were written into a stream, the `width` bytes at the
/// place where the write began spell `v`, and a cursor that takes them from
/// there stands where the write ended.
pub proof fn lemma_write_then_read(s: StreamView, v: nat, width: nat, endian: Endianness)
    requires
        s.fits(width),
        v < pow256(width),
    ensures
        ({
            let written = s.wrote(bytes_of(v, width, endian));
            &&& written.at(s.offset).fits(width)
            &&& value_of(written.at(s.offset).window(width), endian) == v
            &&& written.at(s.offset).skipped(width) == written
        }),
{
    let data = bytes_of(v, width, endian);
    lemma_bytes_len(v, width, endian);
    lemma_wrote_rest(s, data);
    lemma_value_of_bytes(v, width, endian);
}

/// The same for a signed number carried in two's complement: it comes back
/// from the bytes that were written for it, the least number of the range
/// as well as any other.
pub proof fn lemma_write_then_read_signed(s: StreamView, v: int, width: nat, endian: Endianness)
    requires
        s.fits(width),
        -(pow256(width) as int) <= 2 * v < pow256(width),
    ensures
        ({
            let written = s.wrote(bytes_of(unsigned_of(v, width), width, endian));
            &&& written.at(s.offset).fits(width)
            &&& signed_of(value_of(written.at(s.offset).window(width), endian), width) == v
            &&& written.at(s.offset).skipped(width) == written
        }),
{
    lemma_signed_of_unsigned(v, width);
    lemma_write_then_read(s, unsigned_of(v, width), width, endian);
}

/// The bytes of `bytes` in the opposite order.
pub fn reversed(bytes: &[u8]) -> (out: Vec<u8>)
    ensures
        out@ == bytes@.reverse(),
{
    let n = bytes.len();
    let mut out: Vec<u8> = Vec::with_capacity(n);
    let mut i: usize = n;
    while i > 0
        invariant
            i <= n,
            n == bytes@.len(),
            out@.len() == n - i,
            forall|j: int| 0 <= j < out@.len() ==> out@[j] == bytes@[n - 1 - j],
        decreases i,
    {
        i = i - 1;
        out.push(bytes[i]);
    }
    assert(out@ =~= bytes@.reverse());
    out
}

/// Appending a digit below a number, modulo 2 to the 64: the remainder of
/// the longer number follows from the remainder of the shorter one.
proof fn lemma_shift_in(high: nat, acc: u64, byte: u8)
    requires
        acc == high % 0x1_0000_0000_0000_0000,
    ensures
        ((acc << 8) | (byte as u64)) == (byte + 256 * high) % 0x1_0000_0000_0000_0000,
{
    let m = 0x1_0000_0000_0000_0000int;
    assert(((acc << 8) | (byte as u64)) == (acc * 256 + byte) % 0x1_0000_0000_0000_0000)
        by (bit_vector);
    let q = high as int / m;
    vstd::arithmetic::div_mod::lemma_fundamental_div_mod(high as int, m);
    vstd::arithmetic::div_mod::lemma_mod_multiples_vanish(256 * q, acc * 256 + byte, m);
    assert(m * (256 * q) + (acc * 256 + byte) == byte + 256 * high) by (nonlinear_arith)
        requires
            high == m * q + acc,
    ;
}

/// The number that `bytes` spell in the byte order `endian`, modulo 2 to the
/// 64: of up to eight bytes, the number itself.
pub fn decode(bytes: &[u8], endian: Endianness) -> (v: u64)
    ensures
        v == value_of(bytes@, endian) % 0x1_0000_0000_0000_0000,
        bytes@.len() <= 8 ==> v == value_of(bytes@, endian),
{
    let n = bytes.len();
    let mut acc: u64 = 0;
    match endian {
        Endianness::Big => {
            let mut i: usize = 0;
            assert(bytes@.take(0).reverse() =~= Seq::<u8>::empty());
            while i < n
                invariant
                    i <= n,
                    n == bytes@.len(),
                    acc == le_value(bytes@.take(i as int).reverse()) % 0x1_0000_0000_0000_0000,
                decreases n - i,
            {
                let ghost seen = bytes@.take(i as int).reverse();
                let byte = bytes[i];
                proof {
                    let next = bytes@.take(i + 1).reverse();
                    assert(next[0] == byte);
                    assert(next.drop_first() =~= seen);
                    lemma_shift_in(le_value(seen), acc, byte);
                }
                acc = (acc << 8) | (byte as u64);
                i = i + 1;
            }
            assert(bytes@.take(n as int) =~= bytes@);
        },
        Endianness::Little => {
            let mut i: usize = n;
            assert(bytes@.skip(n as int) =~= Seq::<u8>::empty());
            while i > 0
                invariant
                    i <= n,
                    n == bytes@.len(),
                    acc == le_value(bytes@.skip(i as int)) % 0x1_0000_0000_0000_0000,
                decreases i,
            {
                let ghost seen = bytes@.skip(i as int);
                i = i - 1;
                let byte = bytes[i];
                proof {
                    let next = bytes@.skip(i as int);
                    assert(next[0] == byte);
                    assert(next.drop_first() =~= seen);
                    lemma_shift_in(le_value(seen), acc, byte);
                }
                acc = (acc << 8) | (byte as u64);
            }
            assert(bytes@.skip(0) =~= bytes@);
        },
    }
    proof {
        if n <= 8 {
            lemma_value_bound(bytes@, endian);
            lemma_pow256_grows(n as nat, 8);
            lemma_pow256_values();
        }
    }
    acc
}

/// The `width` bytes that carry `value` in the byte order `endian`: its low
/// digits where `width` is too small for it, zeros above it where `width` is
/// larger than it needs.
pub fn encode(value: u64, width: usize, endian: Endianness) -> (out: Vec<u8>)
    ensures
        out@ == bytes_of(value as nat, width as nat, endian),
{
    let mut out: Vec<u8> = Vec::with_capacity(width);
    let mut left: u64 = value;
    let mut i: usize = 0;
    while i < width
        invariant
            i <= width,
            out@.len() == i,
            out@ + le_bytes(left as nat, (width - i) as nat) =~= le_bytes(
                value as nat,
                width as nat,
            ),
        decreases width - i,
    {
        let low: u64 = left & 0xFF;
        let ghost current = left;
        left = left >> 8;
        assert(low == current % 256 && left == current / 256) by (bit_vector)
            requires
                low == current & 0xFF,
                left == current >> 8,
        ;
        assert(le_bytes(current as nat, (width - i) as nat) =~= seq![low as u8] + le_bytes(
            left as nat,
            (width - i - 1) as nat,
        ));
        out.push(low as u8);
        i = i + 1;
    }
    assert(le_bytes(left as nat, 0) =~= Seq::<u8>::empty());
    match endian {
        Endianness::Little => out,
        Endianness::Big => reversed(out.as_slice()),
    }
}

} // verus!
