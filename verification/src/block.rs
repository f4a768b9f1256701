//! Shared 32-bit word arithmetic, byte/word conversions and Merkle–Damgård
//! padding used by both digest engines.

use vstd::prelude::*;

verus! {

/// Addition of two 32-bit words, modulo `2^32`.
pub open spec fn wadd(x: u32, y: u32) -> u32 {
    ((x + y) % 0x1_0000_0000) as u32
}

/// Sum of four 32-bit words, modulo `2^32`.
pub open spec fn wadd4(a: u32, b: u32, c: u32, d: u32) -> u32 {
    ((a + b + c + d) % 0x1_0000_0000) as u32
}

/// Left rotation of a 32-bit word by `n` bits, `0 < n < 32`.
pub open spec fn rotl32(x: u32, n: u32) -> u32
    recommends
        0 < n < 32,
{
    (x << n) | (x >> (32 - n) as u32)
}

/// Exec counterpart of [`wadd`].
pub fn word_add(x: u32, y: u32) -> (r: u32)
    ensures
        r == wadd(x, y),
{
    let s: u64 = x as u64 + y as u64;
    (s % 0x1_0000_0000) as u32
}

/// Exec counterpart of [`wadd4`].
pub fn word_add4(a: u32, b: u32, c: u32, d: u32) -> (r: u32)
    ensures
        r == wadd4(a, b, c, d),
{
    let s: u64 = a as u64 + b as u64 + c as u64 + d as u64;
    (s % 0x1_0000_0000) as u32
}

/// Exec counterpart of [`rotl32`].
pub fn word_rotl(x: u32, n: u32) -> (r: u32)
    requires
        0 < n < 32,
    ensures
        r == rotl32(x, n),
{
    (x << n) | (x >> (32 - n))
}

/// `n` zero bytes.
pub open spec fn zero_bytes(n: nat) -> Seq<u8> {
    Seq::new(n, |i: int| 0u8)
}

/// How many zero bytes Merkle–Damgård padding inserts after the `0x80` byte
/// so that message, `0x80`, zeros and the 8-byte length together fill whole
/// 64-byte blocks.
pub open spec fn pad_zero_count(len: nat) -> nat {
    if len % 64 < 56 {
        (55 - len % 64) as nat
    } else {
        (119 - len % 64) as nat
    }
}

/// The padded tail has the length that completes the message to a multiple
/// of the 64-byte block size: one block's worth when 8 bytes of length still
/// fit after the buffered bytes and the `0x80` marker, two otherwise.
pub proof fn lemma_pad_alignment(len: nat)
    ensures
        len % 64 < 56 ==> 1 + pad_zero_count(len) + 8 == 64 - len % 64,
        len % 64 >= 56 ==> 1 + pad_zero_count(len) + 8 == 128 - len % 64,
        (len + 1 + pad_zero_count(len) + 8) % 64 == 0,
{
    let m = len % 64;
    vstd::arithmetic::div_mod::lemma_fundamental_div_mod(len as int, 64);
    let q = len as int / 64;
    if m < 56 {
        assert(len + 1 + pad_zero_count(len) + 8 == 64 * (q + 1));
        vstd::arithmetic::div_mod::lemma_mod_multiples_basic(q + 1, 64);
    } else {
        assert(len + 1 + pad_zero_count(len) + 8 == 64 * (q + 2));
        vstd::arithmetic::div_mod::lemma_mod_multiples_basic(q + 2, 64);
    }
}

/// The message length in bits, reduced modulo `2^64` as both algorithms
/// prescribe for their length field.
pub open spec fn bit_len64(len: nat) -> u64 {
    ((len * 8) % 0x1_0000_0000_0000_0000) as u64
}

/// The little-endian 32-bit word at word index `j` of a byte sequence.
pub open spec fn le32_at(s: Seq<u8>, j: int) -> u32
    recommends
        0 <= j,
        4 * j + 4 <= s.len(),
{
    (s[4 * j] + s[4 * j + 1] * 0x100 + s[4 * j + 2] * 0x1_0000 + s[4 * j + 3] * 0x100_0000) as u32
}

/// The big-endian 32-bit word at word index `j` of a byte sequence.
pub open spec fn be32_at(s: Seq<u8>, j: int) -> u32
    recommends
        0 <= j,
        4 * j + 4 <= s.len(),
{
    (s[4 * j] * 0x100_0000 + s[4 * j + 1] * 0x1_0000 + s[4 * j + 2] * 0x100 + s[4 * j + 3]) as u32
}

/// A 32-bit word as four little-endian bytes.
pub open spec fn le32_bytes(x: u32) -> Seq<u8> {
    seq![
        (x % 0x100) as u8,
        ((x / 0x100) % 0x100) as u8,
        ((x / 0x1_0000) % 0x100) as u8,
        ((x / 0x100_0000) % 0x100) as u8,
    ]
}

/// A 32-bit word as four big-endian bytes.
pub open spec fn be32_bytes(x: u32) -> Seq<u8> {
    seq![
        ((x / 0x100_0000) % 0x100) as u8,
        ((x / 0x1_0000) % 0x100) as u8,
        ((x / 0x100) % 0x100) as u8,
        (x % 0x100) as u8,
    ]
}

/// A 64-bit length as eight little-endian bytes.
pub open spec fn le64_bytes(x: u64) -> Seq<u8> {
    seq![
        (x % 0x100) as u8,
        ((x / 0x100) % 0x100) as u8,
        ((x / 0x1_0000) % 0x100) as u8,
        ((x / 0x100_0000) % 0x100) as u8,
        ((x / 0x1_0000_0000) % 0x100) as u8,
        ((x / 0x100_0000_0000) % 0x100) as u8,
        ((x / 0x1_0000_0000_0000) % 0x100) as u8,
        ((x / 0x100_0000_0000_0000) % 0x100) as u8,
    ]
}

/// Write `x` as four little-endian bytes at `pos`, leaving the rest alone.
pub fn put_le32(out: &mut Vec<u8>, pos: usize, x: u32)
    requires
        pos + 4 <= old(out).len(),
    ensures
        final(out)@.len() == old(out)@.len(),
        forall|t: int|
            0 <= t < old(out)@.len() && !(pos <= t < pos + 4) ==> final(out)@[t] == old(out)@[t],
        forall|t: int| 0 <= t < 4 ==> final(out)@[pos + t] == #[trigger] le32_bytes(x)[t],
{
    out[pos] = (x % 0x100) as u8;
    out[pos + 1] = ((x / 0x100) % 0x100) as u8;
    out[pos + 2] = ((x / 0x1_0000) % 0x100) as u8;
    out[pos + 3] = ((x / 0x100_0000) % 0x100) as u8;
}

/// Write `x` as four big-endian bytes at `pos`, leaving the rest alone.
pub fn put_be32(out: &mut Vec<u8>, pos: usize, x: u32)
    requires
        pos + 4 <= old(out).len(),
    ensures
        final(out)@.len() == old(out)@.len(),
        forall|t: int|
            0 <= t < old(out)@.len() && !(pos <= t < pos + 4) ==> final(out)@[t] == old(out)@[t],
        forall|t: int| 0 <= t < 4 ==> final(out)@[pos + t] == #[trigger] be32_bytes(x)[t],
{
    out[pos] = ((x / 0x100_0000) % 0x100) as u8;
    out[pos + 1] = ((x / 0x1_0000) % 0x100) as u8;
    out[pos + 2] = ((x / 0x100) % 0x100) as u8;
    out[pos + 3] = (x % 0x100) as u8;
}

/// A 64-bit length as eight big-endian bytes.
pub open spec fn be64_bytes(x: u64) -> Seq<u8> {
    seq![
        ((x / 0x100_0000_0000_0000) % 0x100) as u8,
        ((x / 0x1_0000_0000_0000) % 0x100) as u8,
        ((x / 0x100_0000_0000) % 0x100) as u8,
        ((x / 0x1_0000_0000) % 0x100) as u8,
        ((x / 0x100_0000) % 0x100) as u8,
        ((x / 0x1_0000) % 0x100) as u8,
        ((x / 0x100) % 0x100) as u8,
        (x % 0x100) as u8,
    ]
}

} // verus!
