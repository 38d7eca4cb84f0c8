//! Fixed-width little-endian integers, as the command buffer stores them.
//!
//! A signed value is stored in two's complement. Each form is defined by
//! plain arithmetic, and reading is proved to undo writing and the reverse.

use vstd::arithmetic::div_mod::{
    lemma_div_denominator, lemma_fundamental_div_mod, lemma_fundamental_div_mod_converse,
};
use vstd::prelude::*;

verus! {

/// The four bytes of `v`, lowest first.
#[verifier::opaque]
pub open spec fn spec_u32_bytes(v: u32) -> Seq<u8> {
    seq![
        (v % 256) as u8,
        (v / 256 % 256) as u8,
        (v / 65536 % 256) as u8,
        (v / 16777216) as u8,
    ]
}

/// The value whose four bytes, lowest first, open `s`.
#[verifier::opaque]
pub open spec fn spec_u32_value(s: Seq<u8>) -> u32
    recommends
        s.len() >= 4,
{
    (s[0] + 256 * s[1] + 65536 * s[2] + 16777216 * s[3]) as u32
}

/// The two's complement pattern of `v`.
pub open spec fn spec_i32_bits(v: i32) -> u32 {
    if v >= 0 {
        v as u32
    } else {
        (v + 0x1_0000_0000) as u32
    }
}

/// The signed value of the two's complement pattern `bits`.
pub open spec fn spec_i32_of_bits(bits: u32) -> i32 {
    if bits < 0x8000_0000 {
        bits as i32
    } else {
        (bits - 0x1_0000_0000) as i32
    }
}

/// The four bytes of `v` in two's complement, lowest first.
#[verifier::opaque]
pub open spec fn spec_i32_bytes(v: i32) -> Seq<u8> {
    spec_u32_bytes(spec_i32_bits(v))
}

/// The signed value whose four bytes open `s`.
#[verifier::opaque]
pub open spec fn spec_i32_value(s: Seq<u8>) -> i32
    recommends
        s.len() >= 4,
{
    spec_i32_of_bits(spec_u32_value(s))
}

/// The eight bytes of `v`, lowest first.
#[verifier::opaque]
pub open spec fn spec_u64_bytes(v: u64) -> Seq<u8> {
    spec_u32_bytes((v % 0x1_0000_0000) as u32) + spec_u32_bytes((v / 0x1_0000_0000) as u32)
}

/// The value whose eight bytes, lowest first, open `s`.
#[verifier::opaque]
pub open spec fn spec_u64_value(s: Seq<u8>) -> u64
    recommends
        s.len() >= 8,
{
    (spec_u32_value(s) + 0x1_0000_0000 * spec_u32_value(s.skip(4))) as u64
}

/// A number is the sum of its base-256 digits, each with its weight.
proof fn lemma_sum_of_digits(v: int)
    requires
        0 <= v < 0x1_0000_0000,
    ensures
        0 <= v / 16777216 < 256,
        v % 256 + 256 * (v / 256 % 256) + 65536 * (v / 65536 % 256) + 16777216 * (v / 16777216)
            == v,
{
    lemma_fundamental_div_mod(v, 256);
    lemma_fundamental_div_mod(v / 256, 256);
    lemma_fundamental_div_mod(v / 65536, 256);
    lemma_fundamental_div_mod(v, 16777216);
    lemma_div_denominator(v, 256, 256);
    lemma_div_denominator(v, 65536, 256);
}

/// The base-256 digits of a number are the digits that it was made of.
proof fn lemma_digits(b0: int, b1: int, b2: int, b3: int)
    requires
        0 <= b0 < 256,
        0 <= b1 < 256,
        0 <= b2 < 256,
        0 <= b3 < 256,
    ensures
        0 <= b0 + 256 * b1 + 65536 * b2 + 16777216 * b3 < 0x1_0000_0000,
        (b0 + 256 * b1 + 65536 * b2 + 16777216 * b3) % 256 == b0,
        (b0 + 256 * b1 + 65536 * b2 + 16777216 * b3) / 256 % 256 == b1,
        (b0 + 256 * b1 + 65536 * b2 + 16777216 * b3) / 65536 % 256 == b2,
        (b0 + 256 * b1 + 65536 * b2 + 16777216 * b3) / 16777216 == b3,
{
    let v = b0 + 256 * b1 + 65536 * b2 + 16777216 * b3;
    let q1 = b1 + 256 * b2 + 65536 * b3;
    let q2 = b2 + 256 * b3;
    lemma_fundamental_div_mod_converse(v, 256, q1, b0);
    lemma_fundamental_div_mod_converse(v, 65536, q2, b0 + 256 * b1);
    lemma_fundamental_div_mod_converse(v, 16777216, b3, b0 + 256 * b1 + 65536 * b2);
    lemma_fundamental_div_mod_converse(q1, 256, q2, b1);
    lemma_fundamental_div_mod_converse(q2, 256, b3, b2);
}

/// Reading four bytes undoes writing them, whatever follows them.
pub proof fn lemma_u32_value_of_bytes(v: u32, rest: Seq<u8>)
    ensures
        spec_u32_bytes(v).len() == 4,
        spec_u32_value(spec_u32_bytes(v) + rest) == v,
{
    reveal(spec_u32_bytes);
    reveal(spec_u32_value);
    lemma_sum_of_digits(v as int);
}

/// Writing the value read from four bytes gives those bytes back.
pub proof fn lemma_u32_bytes_of_value(s: Seq<u8>)
    requires
        s.len() >= 4,
    ensures
        spec_u32_bytes(spec_u32_value(s)) == s.subrange(0, 4),
{
    reveal(spec_u32_bytes);
    reveal(spec_u32_value);
    lemma_digits(s[0] as int, s[1] as int, s[2] as int, s[3] as int);
}

/// Reading a signed value undoes writing it, whatever follows.
pub proof fn lemma_i32_value_of_bytes(v: i32, rest: Seq<u8>)
    ensures
        spec_i32_bytes(v).len() == 4,
        spec_i32_value(spec_i32_bytes(v) + rest) == v,
{
    reveal(spec_i32_bytes);
    reveal(spec_i32_value);
    lemma_u32_value_of_bytes(spec_i32_bits(v), rest);
}

/// Writing the signed value read from four bytes gives those bytes back.
pub proof fn lemma_i32_bytes_of_value(s: Seq<u8>)
    requires
        s.len() >= 4,
    ensures
        spec_i32_bytes(spec_i32_value(s)) == s.subrange(0, 4),
{
    reveal(spec_i32_bytes);
    reveal(spec_i32_value);
    lemma_u32_bytes_of_value(s);
}

/// Reading eight bytes undoes writing them, whatever follows them.
pub proof fn lemma_u64_value_of_bytes(v: u64, rest: Seq<u8>)
    ensures
        spec_u64_bytes(v).len() == 8,
        spec_u64_value(spec_u64_bytes(v) + rest) == v,
{
    reveal(spec_u64_bytes);
    reveal(spec_u64_value);
    let low = (v % 0x1_0000_0000) as u32;
    let high = (v / 0x1_0000_0000) as u32;
    let s = spec_u64_bytes(v) + rest;
    lemma_u32_value_of_bytes(low, spec_u32_bytes(high) + rest);
    lemma_u32_value_of_bytes(high, rest);
    assert(s =~= spec_u32_bytes(low) + (spec_u32_bytes(high) + rest));
    assert(s.skip(4) =~= spec_u32_bytes(high) + rest);
}

/// Writing the value read from eight bytes gives those bytes back.
pub proof fn lemma_u64_bytes_of_value(s: Seq<u8>)
    requires
        s.len() >= 8,
    ensures
        spec_u64_bytes(spec_u64_value(s)) == s.subrange(0, 8),
{
    reveal(spec_u64_bytes);
    reveal(spec_u64_value);
    lemma_u32_bytes_of_value(s);
    lemma_u32_bytes_of_value(s.skip(4));
}

/// Appends the four bytes of `v`.
pub(crate) fn write_u32(out: &mut Vec<u8>, v: u32)
    ensures
        final(out)@ == old(out)@ + spec_u32_bytes(v),
{
    proof {
        reveal(spec_u32_bytes);
    }
    out.push((v % 256) as u8);
    out.push((v / 256 % 256) as u8);
    out.push((v / 65536 % 256) as u8);
    out.push((v / 16777216) as u8);
}

/// Appends the four bytes of `v` in two's complement.
pub(crate) fn write_i32(out: &mut Vec<u8>, v: i32)
    ensures
        final(out)@ == old(out)@ + spec_i32_bytes(v),
{
    proof {
        reveal(spec_i32_bytes);
    }
    let wide: i64 = v as i64;
    let bits: i64 = if wide >= 0 {
        wide
    } else {
        wide + 0x1_0000_0000
    };
    write_u32(out, bits as u32);
}

/// Appends the eight bytes of `v`.
pub(crate) fn write_u64(out: &mut Vec<u8>, v: u64)
    ensures
        final(out)@ == old(out)@ + spec_u64_bytes(v),
{
    proof {
        reveal(spec_u64_bytes);
    }
    write_u32(out, (v % 0x1_0000_0000) as u32);
    write_u32(out, (v / 0x1_0000_0000) as u32);
}

/// Overwrites the four bytes at `at` with those of `v`.
pub(crate) fn store_u32(out: &mut Vec<u8>, at: usize, v: u32)
    requires
        at + 4 <= old(out)@.len(),
    ensures
        final(out)@ == old(out)@.subrange(0, at as int) + spec_u32_bytes(v) + old(out)@.skip(
            at + 4,
        ),
{
    proof {
        reveal(spec_u32_bytes);
    }
    assert(at + 4 <= out.len());
    out[at] = (v % 256) as u8;
    out[at + 1] = (v / 256 % 256) as u8;
    out[at + 2] = (v / 65536 % 256) as u8;
    out[at + 3] = (v / 16777216) as u8;
}

/// Overwrites the eight bytes at `at` with those of `v`.
pub(crate) fn store_u64(out: &mut Vec<u8>, at: usize, v: u64)
    requires
        at + 8 <= old(out)@.len(),
    ensures
        final(out)@ == old(out)@.subrange(0, at as int) + spec_u64_bytes(v) + old(out)@.skip(
            at + 8,
        ),
{
    proof {
        reveal(spec_u64_bytes);
        lemma_u32_value_of_bytes((v % 0x1_0000_0000) as u32, Seq::empty());
        lemma_u32_value_of_bytes((v / 0x1_0000_0000) as u32, Seq::empty());
    }
    assert(at + 8 <= out.len());
    store_u32(out, at, (v % 0x1_0000_0000) as u32);
    store_u32(out, at + 4, (v / 0x1_0000_0000) as u32);
}

/// Writes `piece` over the bytes from `start` on.
pub(crate) fn overwrite(out: &mut Vec<u8>, start: usize, piece: &Vec<u8>)
    requires
        start + piece@.len() <= old(out)@.len(),
    ensures
        final(out)@ == old(out)@.subrange(0, start as int) + piece@ + old(out)@.skip(
            start + piece@.len(),
        ),
{
    let ghost end = start + piece@.len();
    let mut i: usize = 0;
    while i < piece.len()
        invariant
            i <= piece.len(),
            end == start + piece@.len(),
            end <= out.len(),
            out@.len() == old(out)@.len(),
            forall|k: int| 0 <= k < start ==> out@[k] == old(out)@[k],
            forall|k: int| start <= k < start + i ==> out@[k] == piece@[k - start],
            forall|k: int| start + i <= k < out@.len() ==> out@[k] == old(out)@[k],
        decreases piece.len() - i,
    {
        out[start + i] = piece[i];
        i += 1;
    }
}

/// The bytes of `bytes` with `piece` in the place of those from `start` up
/// to `end`.
pub(crate) fn splice(bytes: &Vec<u8>, start: usize, end: usize, piece: &Vec<u8>) -> (out: Vec<u8>)
    requires
        start <= end <= bytes@.len(),
    ensures
        out@ == bytes@.subrange(0, start as int) + piece@ + bytes@.skip(end as int),
{
    let mut out: Vec<u8> = Vec::new();
    let mut i: usize = 0;
    while i < start
        invariant
            i <= start <= bytes@.len(),
            out@ == bytes@.subrange(0, i as int),
        decreases start - i,
    {
        out.push(bytes[i]);
        i += 1;
    }
    let mut j: usize = 0;
    while j < piece.len()
        invariant
            j <= piece.len(),
            out@ == bytes@.subrange(0, start as int) + piece@.take(j as int),
        decreases piece.len() - j,
    {
        out.push(piece[j]);
        j += 1;
    }
    let mut k: usize = end;
    while k < bytes.len()
        invariant
            end <= k <= bytes@.len(),
            out@ == bytes@.subrange(0, start as int) + piece@ + bytes@.subrange(
                end as int,
                k as int,
            ),
        decreases bytes@.len() - k,
    {
        out.push(bytes[k]);
        assert(out@ =~= bytes@.subrange(0, start as int) + piece@ + bytes@.subrange(
            end as int,
            k + 1,
        ));
        k += 1;
    }
    out
}

/// Reads the four bytes at `at`.
pub(crate) fn read_u32(bytes: &[u8], at: usize) -> (v: u32)
    requires
        at + 4 <= bytes@.len(),
    ensures
        v == spec_u32_value(bytes@.skip(at as int)),
{
    proof {
        reveal(spec_u32_value);
    }
    let b0: u32 = bytes[at] as u32;
    let b1: u32 = bytes[at + 1] as u32;
    let b2: u32 = bytes[at + 2] as u32;
    let b3: u32 = bytes[at + 3] as u32;
    b0 + 256 * b1 + 65536 * b2 + 16777216 * b3
}

/// Reads the four bytes at `at` as a signed value.
pub(crate) fn read_i32(bytes: &[u8], at: usize) -> (v: i32)
    requires
        at + 4 <= bytes@.len(),
    ensures
        v == spec_i32_value(bytes@.skip(at as int)),
{
    proof {
        reveal(spec_i32_value);
    }
    let bits: i64 = read_u32(bytes, at) as i64;
    if bits < 0x8000_0000 {
        bits as i32
    } else {
        (bits - 0x1_0000_0000) as i32
    }
}

/// Reads the eight bytes at `at`.
pub(crate) fn read_u64(bytes: &[u8], at: usize) -> (v: u64)
    requires
        at + 8 <= bytes@.len(),
    ensures
        v == spec_u64_value(bytes@.skip(at as int)),
{
    proof {
        reveal(spec_u64_value);
    }
    assert(at + 8 <= bytes.len());
    let low: u64 = read_u32(bytes, at) as u64;
    let high: u64 = read_u32(bytes, at + 4) as u64;
    assert(bytes@.skip(at as int).skip(4) =~= bytes@.skip(at + 4));
    low + 0x1_0000_0000 * high
}

} // verus!
