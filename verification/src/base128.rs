//! Base-128 variable-length integers: seven payload bits to a byte, the least
//! significant group first, the high bit set on every byte but the last.

use crate::error::CodecError;
use crate::stream::{lemma_wrote_nothing, lemma_wrote_wrote, BinaryStream};
use crate::types::unsigned::uint8::Uint8;
use vstd::prelude::*;

verus! {

/// 128 to the power `n`.
pub open spec fn pow128(n: nat) -> nat
    decreases n,
{
    if n == 0 {
        1
    } else {
        128 * pow128((n - 1) as nat)
    }
}

/// The wire form of `v`: its base-128 digits from the lowest up, each but the
/// last with 128 added. Zero is the single byte 0.
pub open spec fn groups(v: nat) -> Seq<u8>
    decreases v,
{
    if v < 128 {
        seq![v as u8]
    } else {
        seq![(v % 128 + 128) as u8] + groups(v / 128)
    }
}

/// The number that the payloads of `s` spell, the first byte being the lowest group.
pub open spec fn groups_value(s: Seq<u8>) -> nat
    decreases s.len(),
{
    if s.len() == 0 {
        0
    } else {
        (s[0] % 128) as nat + 128 * groups_value(s.drop_first())
    }
}

/// How many bytes at the start of `s` carry the continuation flag.
pub open spec fn run(s: Seq<u8>) -> nat
    decreases s.len(),
{
    if s.len() == 0 || s[0] < 128 {
        0
    } else {
        1 + run(s.drop_first())
    }
}

/// What a decoder that accepts at most `cap` groups makes of the bytes `rest`
/// in front of it, and how many of them it consumes.
///
/// It takes bytes up to the first one without the continuation flag. Where
/// `cap` bytes in a row carry the flag and one more byte follows, it consumes
/// that byte too and reports the integer as too large. Where `rest` ends
/// before either happens, it is out of bounds and has consumed nothing.
pub open spec fn scan(rest: Seq<u8>, cap: nat) -> (Result<nat, CodecError>, nat) {
    let k = run(rest);
    if k < cap && k < rest.len() {
        (Ok(groups_value(rest.take((k + 1) as int))), k + 1)
    } else if k >= cap && cap < rest.len() {
        (Err(CodecError::VarIntTooLarge), cap + 1)
    } else {
        (Err(CodecError::OutOfBounds), 0)
    }
}

/// `run` never counts more bytes than there are.
pub proof fn lemma_run_bounded(s: Seq<u8>)
    ensures
        run(s) <= s.len(),
    decreases s.len(),
{
    if s.len() != 0 && s[0] >= 128 {
        lemma_run_bounded(s.drop_first());
    }
}

/// A decoder never consumes more bytes than lie in front of it.
pub proof fn lemma_scan_consumed(rest: Seq<u8>, cap: nat)
    ensures
        scan(rest, cap).1 <= rest.len(),
{
    lemma_run_bounded(rest);
}

/// Where the first `k` bytes of `s` all carry the continuation flag, `run`
/// counts at least `k`; where the byte after them does not carry it, exactly `k`.
pub proof fn lemma_run_prefix(s: Seq<u8>, k: nat)
    requires
        k <= s.len(),
        forall|j: int| 0 <= j < k ==> s[j] >= 128,
    ensures
        run(s) >= k,
        k < s.len() && s[k as int] < 128 ==> run(s) == k,
    decreases k,
{
    if k > 0 {
        let t = s.drop_first();
        assert forall|j: int| 0 <= j < k - 1 implies t[j] >= 128 by {
            assert(t[j] == s[j + 1]);
        }
        lemma_run_prefix(t, (k - 1) as nat);
        if k < s.len() {
            assert(t[k - 1] == s[k as int]);
        }
    }
}

/// Appending a byte adds its payload at the next higher group.
pub proof fn lemma_groups_value_push(s: Seq<u8>, b: u8)
    ensures
        groups_value(s.push(b)) == groups_value(s) + (b % 128) * pow128(s.len()),
    decreases s.len(),
{
    let sb = s.push(b);
    let p = (b % 128) as nat;
    if s.len() == 0 {
        assert(sb.drop_first() =~= Seq::<u8>::empty());
        assert(groups_value(sb.drop_first()) == 0);
        assert(sb[0] == b);
        assert(pow128(0) == 1);
        assert(p * 1 == p);
    } else {
        let t = s.drop_first();
        assert(sb.drop_first() =~= t.push(b));
        assert(sb[0] == s[0]);
        lemma_groups_value_push(t, b);
        assert(pow128(s.len()) == 128 * pow128(t.len()));
        assert(128 * (p * pow128(t.len())) == p * (128 * pow128(t.len()))) by (nonlinear_arith);
        assert(groups_value(sb) == (s[0] % 128) as nat + 128 * groups_value(t.push(b)));
        assert(groups_value(s) == (s[0] % 128) as nat + 128 * groups_value(t));
    }
}

/// `n` groups spell a number below 128 to the `n`.
pub proof fn lemma_groups_value_bound(s: Seq<u8>)
    ensures
        groups_value(s) < pow128(s.len()),
    decreases s.len(),
{
    if s.len() != 0 {
        lemma_groups_value_bound(s.drop_first());
    }
}

/// The wire form is never empty, and it has at most `k` bytes exactly where
/// the number is below 128 to the `k`.
pub proof fn lemma_groups_len(v: nat, k: nat)
    requires
        k >= 1,
    ensures
        groups(v).len() >= 1,
        groups(v).len() <= k <==> v < pow128(k),
    decreases v,
{
    if v >= 128 {
        assert(pow128(1) == 128) by {
            reveal_with_fuel(pow128, 2);
        }
        if k == 1 {
            lemma_groups_len(v / 128, 1);
        } else {
            lemma_groups_len(v / 128, (k - 1) as nat);
            assert(pow128(k) == 128 * pow128((k - 1) as nat));
        }
    } else {
        lemma_pow128_grows(1, k);
        assert(pow128(1) == 128) by {
            reveal_with_fuel(pow128, 2);
        }
    }
}

/// The powers of 128 grow with the exponent, and none is zero.
pub proof fn lemma_pow128_grows(i: nat, j: nat)
    requires
        i <= j,
    ensures
        1 <= pow128(i) <= pow128(j),
    decreases j,
{
    if j == 0 {
    } else if i == j {
        lemma_pow128_grows((i - 1) as nat, (j - 1) as nat);
    } else {
        lemma_pow128_grows(i, (j - 1) as nat);
    }
}

/// In the wire form every byte but the last carries the continuation flag,
/// and the payloads spell the number.
pub proof fn lemma_groups_shape(v: nat)
    ensures
        groups_value(groups(v)) == v,
        run(groups(v)) == groups(v).len() - 1,
        forall|tail: Seq<u8>| run(#[trigger] (groups(v) + tail)) == groups(v).len() - 1,
    decreases v,
{
    let g = groups(v);
    if v < 128 {
        assert(g.drop_first() =~= Seq::<u8>::empty());
        assert(groups_value(g.drop_first()) == 0);
        assert forall|tail: Seq<u8>| run(#[trigger] (g + tail)) == g.len() - 1 by {
            assert((g + tail)[0] == g[0]);
        }
    } else {
        let h = groups(v / 128);
        lemma_groups_shape(v / 128);
        assert(g.drop_first() =~= h);
        assert forall|tail: Seq<u8>| run(#[trigger] (g + tail)) == g.len() - 1 by {
            assert((g + tail)[0] == g[0]);
            assert((g + tail).drop_first() =~= h + tail);
        }
    }
    assert(g + Seq::<u8>::empty() =~= g);
}

/// Decoding what was encoded: in front of any bytes whatever, the wire form
/// of `v` is read back as `v` and exactly its bytes are consumed, provided the
/// decoder accepts as many groups as the wire form has.
pub proof fn lemma_scan_groups(v: nat, tail: Seq<u8>, cap: nat)
    requires
        groups(v).len() <= cap,
    ensures
        scan(groups(v) + tail, cap) == (Ok::<nat, CodecError>(v), groups(v).len()),
{
    let g = groups(v);
    lemma_groups_shape(v);
    lemma_groups_len(v, 1);
    assert((g + tail).take(g.len() as int) =~= g);
}

/// The shifts that place a group are the powers of 128.
proof fn lemma_shift_is_pow128(size: nat)
    requires
        size <= 9,
    ensures
        (1u64 << ((7 * size) as u64)) == pow128(size),
{
    reveal_with_fuel(pow128, 10);
    assert(1u64 << 0u64 == 1 && 1u64 << 7u64 == 0x80 && 1u64 << 14u64 == 0x4000 && 1u64 << 21u64
        == 0x20_0000 && 1u64 << 28u64 == 0x1000_0000 && 1u64 << 35u64 == 0x8_0000_0000 && 1u64
        << 42u64 == 0x400_0000_0000 && 1u64 << 49u64 == 0x2_0000_0000_0000 && 1u64 << 56u64
        == 0x100_0000_0000_0000 && 1u64 << 63u64 == 0x8000_0000_0000_0000) by (bit_vector);
}

/// From the tenth power on, the powers of 128 are multiples of 2 to the 64:
/// a group that far up adds nothing to the low 64 bits.
proof fn lemma_pow128_multiple(n: nat) -> (k: nat)
    requires
        n >= 10,
    ensures
        pow128(n) == 0x1_0000_0000_0000_0000 * k,
    decreases n,
{
    if n == 10 {
        reveal_with_fuel(pow128, 11);
        64
    } else {
        let k = lemma_pow128_multiple((n - 1) as nat);
        128 * k
    }
}

/// Reads a variable-length integer of at most `cap` groups and returns it
/// modulo 2 to the 64.
///
/// The bytes are taken one at a time. Where the buffer ends before the
/// integer does, the cursor is put back where it stood and the call fails
/// `OutOfBounds`; where the integer runs on past `cap` groups, the call fails
/// `VarIntTooLarge` with the cursor behind the byte that showed it: see [`scan`].
pub fn read_groups(stream: &mut BinaryStream, cap: usize) -> (r: Result<u64, CodecError>)
    ensures
        final(stream)@ == old(stream)@.skipped(scan(old(stream)@.rest(), cap as nat).1),
        r == match scan(old(stream)@.rest(), cap as nat).0 {
            Ok(v) => Ok::<u64, CodecError>((v % 0x1_0000_0000_0000_0000) as u64),
            Err(e) => Err::<u64, CodecError>(e),
        },
{
    let ghost rest = old(stream)@.rest();
    let start = stream.position();
    let mut value: u64 = 0;
    let mut size: usize = 0;
    loop
        invariant
            start == old(stream)@.offset,
            size <= cap,
            size <= rest.len(),
            rest == old(stream)@.rest(),
            stream@ == old(stream)@.skipped(size as nat),
            forall|j: int| 0 <= j < size ==> rest[j] >= 128,
            value == groups_value(rest.take(size as int)) % 0x1_0000_0000_0000_0000,
        decreases cap + 1 - size,
    {
        proof {
            lemma_run_prefix(rest, size as nat);
            lemma_run_bounded(rest);
        }
        let byte = match Uint8::read(stream) {
            Ok(byte) => byte,
            Err(err) => {
                assert(size == rest.len());
                stream.restore(start);
                return Err(err);
            },
        };
        assert(size < rest.len());
        assert(byte == rest[size as int]);
        if size >= cap {
            return Err(CodecError::VarIntTooLarge);
        }
        let payload: u64 = (byte & 0x7F) as u64;
        assert(payload == byte % 128) by (bit_vector)
            requires
                payload == (byte & 0x7F) as u64,
        ;
        let ghost taken = rest.take(size as int);
        proof {
            assert(rest.take(size + 1) =~= taken.push(byte));
            lemma_groups_value_push(taken, byte);
        }
        if size < 10 {
            let shift: u64 = 7 * (size as u64);
            let ghost before = value;
            value = value | (payload << shift);
            proof {
                lemma_groups_value_bound(taken);
                lemma_shift_is_pow128(size as nat);
                lemma_pow128_grows(size as nat, 9);
                lemma_shift_is_pow128(9);
                assert(before == groups_value(taken));
                assert(before | (payload << shift) == (before + payload * (1u64 << shift))
                    % 0x1_0000_0000_0000_0000) by (bit_vector)
                    requires
                        shift <= 63,
                        payload < 128,
                        before < (1u64 << shift),
                ;
            }
        } else {
            proof {
                let k = lemma_pow128_multiple(size as nat);
                let m = 0x1_0000_0000_0000_0000int;
                assert(payload * pow128(size as nat) == m * (payload * k)) by (nonlinear_arith)
                    requires
                        pow128(size as nat) == m * k,
                ;
                vstd::arithmetic::div_mod::lemma_mod_multiples_vanish(
                    payload * k,
                    groups_value(taken) as int,
                    m,
                );
            }
        }
        size = size + 1;
        if byte & 0x80 != 0x80 {
            proof {
                assert(byte & 0x80 != 0x80 ==> byte < 128) by (bit_vector);
                lemma_run_prefix(rest, (size - 1) as nat);
            }
            return Ok(value);
        }
        assert(byte >= 128) by {
            assert(byte & 0x80 == 0x80 ==> byte >= 128) by (bit_vector);
        }
    }
}

/// The number of bytes in the wire form of `value`.
pub fn encoded_len(value: u64) -> (n: usize)
    ensures
        n == groups(value as nat).len(),
        1 <= n <= 10,
{
    let mut left = value;
    let mut n: usize = 1;
    proof {
        lemma_groups_len(value as nat, 10);
        assert(pow128(10) == 0x40_0000_0000_0000_0000) by {
            reveal_with_fuel(pow128, 11);
        }
    }
    while left >= 0x80
        invariant
            1 <= n,
            n + groups(left as nat).len() == groups(value as nat).len() + 1,
            groups(value as nat).len() <= 10,
        decreases left,
    {
        let ghost current = left;
        left = left >> 7;
        assert(left == current / 128) by (bit_vector)
            requires
                left == current >> 7,
        ;
        proof {
            lemma_groups_len(left as nat, 1);
        }
        n = n + 1;
    }
    n
}

/// Writes `value` as a variable-length integer, or nothing at all where its
/// wire form does not fit.
pub fn write_groups(stream: &mut BinaryStream, value: u64) -> (r: Result<(), CodecError>)
    ensures
        ({
            let before = old(stream)@;
            let wire = groups(value as nat);
            match r {
                Ok(_) => before.fits(wire.len()) && final(stream)@ == before.wrote(wire),
                Err(e) => e == CodecError::OutOfBounds && !before.fits(wire.len())
                    && final(stream)@ == before,
            }
        }),
{
    if !stream.has_room(encoded_len(value)) {
        return Err(CodecError::OutOfBounds);
    }
    let ghost enc = groups(value as nat);
    let ghost mut done: Seq<u8> = Seq::empty();
    let mut left = value;
    proof {
        lemma_wrote_nothing(old(stream)@);
    }
    loop
        invariant
            enc == groups(value as nat),
            enc =~= done + groups(left as nat),
            old(stream)@.fits(enc.len()),
            stream@ == old(stream)@.wrote(done),
        decreases left,
    {
        let ghost current = left;
        let low: u64 = left & 0x7F;
        left = left >> 7;
        assert(low == current % 128 && left == current / 128) by (bit_vector)
            requires
                low == current & 0x7F,
                left == current >> 7,
        ;
        let mut byte: u8 = low as u8;
        if left != 0 {
            byte = byte | 0x80;
            assert(byte == low + 128) by (bit_vector)
                requires
                    low < 128,
                    byte == (low as u8) | 0x80,
            ;
        }
        assert(groups(current as nat) =~= if left == 0 {
            seq![byte]
        } else {
            seq![byte] + groups(left as nat)
        });
        assert(stream@.fits(1));
        match Uint8::write(stream, byte) {
            Ok(_) => {},
            Err(err) => return Err(err),
        };
        proof {
            lemma_wrote_wrote(old(stream)@, done, seq![byte]);
            assert(done + seq![byte] =~= done.push(byte));
            done = done.push(byte);
        }
        if left == 0 {
            assert(enc =~= done);
            return Ok(());
        }
    }
}

} // verus!
