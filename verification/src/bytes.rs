//! Little-endian integers inside byte sequences.
use vstd::prelude::*;

use vstd::arithmetic::div_mod::lemma_div_denominator;
use vstd::arithmetic::power::{lemma_pow0, lemma_pow1, lemma_pow_adds, lemma_pow_positive, pow};

verus! {

/// The number that a little-endian byte sequence stands for.
pub open spec fn le_value(s: Seq<u8>) -> nat
    decreases s.len(),
{
    if s.len() == 0 {
        0
    } else {
        s[0] as nat + 256 * le_value(s.drop_first())
    }
}

/// The `n` little-endian bytes of `v`, which drop what does not fit.
pub open spec fn le_bytes(v: nat, n: nat) -> Seq<u8>
    decreases n,
{
    if n == 0 {
        Seq::empty()
    } else {
        seq![(v % 256) as u8] + le_bytes(v / 256, (n - 1) as nat)
    }
}

/// The two's complement reading of a 32-bit number.
pub open spec fn signed_32(v: nat) -> int {
    if v < 0x8000_0000 {
        v as int
    } else {
        v - 0x1_0000_0000
    }
}

/// The `n` bytes of `data` that start at `offset`, where `data` holds them all.
pub open spec fn bytes_at(data: Seq<u8>, offset: int, n: int) -> Option<Seq<u8>> {
    if 0 <= offset && offset + n <= data.len() {
        Some(data.subrange(offset, offset + n))
    } else {
        None
    }
}

/// The little-endian number in the `n` bytes of `data` that start at `offset`.
pub open spec fn le_at(data: Seq<u8>, offset: int, n: int) -> Option<nat> {
    match bytes_at(data, offset, n) {
        Some(s) => Some(le_value(s)),
        None => None,
    }
}

/// Two bytes spelled out.
pub proof fn lemma_le_value_2(s: Seq<u8>)
    requires
        s.len() == 2,
    ensures
        le_value(s) == s[0] + 256 * s[1],
{
    reveal_with_fuel(le_value, 3);
}

/// Four bytes spelled out.
pub proof fn lemma_le_value_4(s: Seq<u8>)
    requires
        s.len() == 4,
    ensures
        le_value(s) == s[0] + 0x100 * s[1] + 0x1_0000 * s[2] + 0x100_0000 * s[3],
        le_value(s) < 0x1_0000_0000,
{
    reveal_with_fuel(le_value, 5);
}

/// The encoding of a number has the length asked for.
pub proof fn lemma_le_bytes_len(v: nat, n: nat)
    ensures
        le_bytes(v, n).len() == n,
    decreases n,
{
    if n > 0 {
        lemma_le_bytes_len(v / 256, (n - 1) as nat);
    }
}

/// Law: decoding what was encoded gives the number back, where the bytes can hold it.
pub proof fn le_round_trip(v: nat, n: nat)
    ensures
        le_bytes(v, n).len() == n,
        v < pow(256, n) ==> le_value(le_bytes(v, n)) == v,
    decreases n,
{
    lemma_le_bytes_len(v, n);
    lemma_pow0(256);
    if n > 0 {
        let rest = (n - 1) as nat;
        le_round_trip(v / 256, rest);
        lemma_pow1(256);
        lemma_pow_adds(256, 1, rest);
        assert(le_bytes(v, n).drop_first() =~= le_bytes(v / 256, rest));
        assert(v < 256 * pow(256, rest) ==> v / 256
            < pow(256, rest));
    }
}

/// Law: each byte is one digit, to the base 256, of the number that a byte sequence stands for,
/// the first byte the lowest, and the number has no other digits.
pub proof fn le_digits_are_the_bytes(s: Seq<u8>, i: nat)
    requires
        i < s.len(),
    ensures
        (le_value(s) as int / pow(256, i)) % 256 == s[i as int],
        le_value(s) < pow(256, s.len()),
    decreases s.len(),
{
    let rest = s.drop_first();
    lemma_le_value_bound(s);
    if i == 0 {
        lemma_pow0(256);
    } else {
        let above = (i - 1) as nat;
        le_digits_are_the_bytes(rest, above);
        lemma_pow1(256);
        lemma_pow_adds(256, 1, above);
        lemma_pow_positive(256, above);
        lemma_div_denominator(le_value(s) as int, 256, pow(256, above));
        assert(le_value(s) as int / 256 == le_value(rest));
    }
}

proof fn lemma_le_value_bound(s: Seq<u8>)
    ensures
        le_value(s) < pow(256, s.len()),
    decreases s.len(),
{
    if s.len() == 0 {
        lemma_pow0(256);
    } else {
        let rest = s.drop_first();
        lemma_le_value_bound(rest);
        lemma_pow1(256);
        lemma_pow_adds(256, 1, rest.len());
    }
}

/// Law: the bytes of a number are its digits to the base 256, the lowest first.
pub proof fn le_bytes_are_the_digits(v: nat, n: nat, i: nat)
    requires
        i < n,
    ensures
        le_bytes(v, n).len() == n,
        le_bytes(v, n)[i as int] == (v as int / pow(256, i)) % 256,
    decreases n,
{
    lemma_le_bytes_len(v, n);
    lemma_le_bytes_len(v / 256, (n - 1) as nat);
    if i == 0 {
        lemma_pow0(256);
    } else {
        let above = (i - 1) as nat;
        le_bytes_are_the_digits(v / 256, (n - 1) as nat, above);
        lemma_pow1(256);
        lemma_pow_adds(256, 1, above);
        lemma_pow_positive(256, above);
        lemma_div_denominator(v as int, 256, pow(256, above));
    }
}

/// Law: the signed reading of a 32-bit number lies in the signed range and differs from the
/// unsigned one by nothing or by the whole range.
pub proof fn signed_reading_wraps_around(v: nat)
    requires
        v < 0x1_0000_0000,
    ensures
        -0x8000_0000 <= signed_32(v) < 0x8000_0000,
        signed_32(v) == v || signed_32(v) + 0x1_0000_0000 == v,
{
}

/// Law: the bytes at an offset are those that stand there, wherever all of them are there.
pub proof fn bytes_at_an_offset_are_those_of_the_data(data: Seq<u8>, offset: int, n: int)
    requires
        0 <= n,
    ensures
        bytes_at(data, offset, n) is Some <==> 0 <= offset && offset + n <= data.len(),
        bytes_at(data, offset, n) matches Some(found) ==> found.len() == n && forall|i: int|
            0 <= i < n ==> #[trigger] found[i] == data[offset + i],
{
}

/// Law: the number at an offset is made of the bytes that stand there, wherever all of them are
/// there.
pub proof fn numbers_at_an_offset_are_made_of_the_data(data: Seq<u8>, offset: int)
    ensures
        le_at(data, offset, 2) == if 0 <= offset && offset + 2 <= data.len() {
            Some((data[offset] + 0x100 * data[offset + 1]) as nat)
        } else {
            None
        },
        le_at(data, offset, 4) == if 0 <= offset && offset + 4 <= data.len() {
            Some(
                (data[offset] + 0x100 * data[offset + 1] + 0x1_0000 * data[offset + 2]
                    + 0x100_0000 * data[offset + 3]) as nat,
            )
        } else {
            None
        },
{
    if 0 <= offset && offset + 2 <= data.len() {
        lemma_le_value_2(data.subrange(offset, offset + 2));
    }
    if 0 <= offset && offset + 4 <= data.len() {
        lemma_le_value_4(data.subrange(offset, offset + 4));
    }
}

/// The little-endian `u16` at `offset`, or `None` where `data` ends before it does.
pub fn read_u16(data: &[u8], offset: usize) -> (r: Option<u16>)
    ensures
        r is Some <==> offset + 2 <= data@.len(),
        r matches Some(v) ==> le_at(data@, offset as int, 2) == Some(v as nat),
{
    if data.len() < 2 || offset > data.len() - 2 {
        return None;
    }
    let low: u16 = data[offset] as u16;
    let high: u16 = data[offset + 1] as u16;
    proof {
        lemma_le_value_2(data@.subrange(offset as int, offset + 2));
    }
    Some(low + 256 * high)
}

/// The little-endian `u32` at `offset`, or `None` where `data` ends before it does.
pub fn read_u32(data: &[u8], offset: usize) -> (r: Option<u32>)
    ensures
        r is Some <==> offset + 4 <= data@.len(),
        r matches Some(v) ==> le_at(data@, offset as int, 4) == Some(v as nat),
{
    if data.len() < 4 || offset > data.len() - 4 {
        return None;
    }
    let b0: u32 = data[offset] as u32;
    let b1: u32 = data[offset + 1] as u32;
    let b2: u32 = data[offset + 2] as u32;
    let b3: u32 = data[offset + 3] as u32;
    proof {
        lemma_le_value_4(data@.subrange(offset as int, offset + 4));
    }
    Some(b0 + 0x100 * b1 + 0x1_0000 * b2 + 0x100_0000 * b3)
}

/// Appends the four little-endian bytes of `value`.
pub fn push_le_u32(out: &mut Vec<u8>, value: u32)
    ensures
        final(out)@ == old(out)@ + le_bytes(value as nat, 4),
{
    push_le(out, value as u64, 4);
}

/// Appends the eight little-endian bytes of `value`.
pub fn push_le_u64(out: &mut Vec<u8>, value: u64)
    ensures
        final(out)@ == old(out)@ + le_bytes(value as nat, 8),
{
    push_le(out, value, 8);
}

fn push_le(out: &mut Vec<u8>, value: u64, count: usize)
    ensures
        final(out)@ == old(out)@ + le_bytes(value as nat, count as nat),
{
    let ghost start = out@;
    let mut left: usize = count;
    let mut rest: u64 = value;
    assert(start + le_bytes(value as nat, count as nat) =~= out@ + le_bytes(
        rest as nat,
        left as nat,
    ));
    while left > 0
        invariant
            start + le_bytes(value as nat, count as nat) =~= out@ + le_bytes(
                rest as nat,
                left as nat,
            ),
        decreases left,
    {
        out.push((rest % 256) as u8);
        rest = rest / 256;
        left = left - 1;
    }
}

} // verus!
