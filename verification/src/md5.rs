//! The MD5 engine: 128-bit digest, little-endian words, 64-round
//! compression.

use vstd::prelude::*;

use crate::block::{
    bit_len64, le32_at, le32_bytes, le64_bytes, lemma_pad_alignment, pad_zero_count, put_le32,
    rotl32, wadd, wadd4, word_add, word_add4, word_rotl, zero_bytes,
};
use crate::hash::Hasher;

verus! {

/// The fixed initial chaining value.
pub open spec fn md5_iv() -> (u32, u32, u32, u32) {
    (0x67452301u32, 0xefcdab89u32, 0x98badcfeu32, 0x10325476u32)
}

/// The nonlinear function of round `i` applied to registers `b`, `c`, `d`.
pub open spec fn md5_f(i: int, b: u32, c: u32, d: u32) -> u32 {
    if i < 16 {
        d ^ (b & (c ^ d))
    } else if i < 32 {
        c ^ (d & (b ^ c))
    } else if i < 48 {
        b ^ c ^ d
    } else {
        c ^ (b | !d)
    }
}

/// The message-word index used by round `i` (the MD5 permutation schedule).
pub open spec fn md5_g(i: int) -> int {
    if i < 16 {
        i % 16
    } else if i < 32 {
        (5 * i + 1) % 16
    } else if i < 48 {
        (3 * i + 5) % 16
    } else {
        (7 * i) % 16
    }
}

/// The left-rotation amount of round `i`.
#[verifier::opaque]
pub open spec fn md5_s(i: int) -> u32 {
    let j = i % 4;
    if i < 16 {
        if j == 0 {
            7
        } else if j == 1 {
            12
        } else if j == 2 {
            17
        } else {
            22
        }
    } else if i < 32 {
        if j == 0 {
            5
        } else if j == 1 {
            9
        } else if j == 2 {
            14
        } else {
            20
        }
    } else if i < 48 {
        if j == 0 {
            4
        } else if j == 1 {
            11
        } else if j == 2 {
            16
        } else {
            23
        }
    } else {
        if j == 0 {
            6
        } else if j == 1 {
            10
        } else if j == 2 {
            15
        } else {
            21
        }
    }
}

/// Exec counterpart of [`md5_s`]; every rotation amount is a valid shift.
fn md5_s_at(i: usize) -> (r: u32)
    requires
        i < 64,
    ensures
        r == md5_s(i as int),
        0 < r < 32,
{
    proof {
        reveal(md5_s);
    }
    let j = i % 4;
    if i < 16 {
        if j == 0 {
            7
        } else if j == 1 {
            12
        } else if j == 2 {
            17
        } else {
            22
        }
    } else if i < 32 {
        if j == 0 {
            5
        } else if j == 1 {
            9
        } else if j == 2 {
            14
        } else {
            20
        }
    } else if i < 48 {
        if j == 0 {
            4
        } else if j == 1 {
            11
        } else if j == 2 {
            16
        } else {
            23
        }
    } else {
        if j == 0 {
            6
        } else if j == 1 {
            10
        } else if j == 2 {
            15
        } else {
            21
        }
    }
}

/// The additive constant of round `i` (the MD5 sine table).
#[verifier::opaque]
pub open spec fn md5_k(i: int) -> u32 {
    if i == 0 {
        0xd76aa478
    } else if i == 1 {
        0xe8c7b756
    } else if i == 2 {
        0x242070db
    } else if i == 3 {
        0xc1bdceee
    } else if i == 4 {
        0xf57c0faf
    } else if i == 5 {
        0x4787c62a
    } else if i == 6 {
        0xa8304613
    } else if i == 7 {
        0xfd469501
    } else if i == 8 {
        0x698098d8
    } else if i == 9 {
        0x8b44f7af
    } else if i == 10 {
        0xffff5bb1
    } else if i == 11 {
        0x895cd7be
    } else if i == 12 {
        0x6b901122
    } else if i == 13 {
        0xfd987193
    } else if i == 14 {
        0xa679438e
    } else if i == 15 {
        0x49b40821
    } else if i == 16 {
        0xf61e2562
    } else if i == 17 {
        0xc040b340
    } else if i == 18 {
        0x265e5a51
    } else if i == 19 {
        0xe9b6c7aa
    } else if i == 20 {
        0xd62f105d
    } else if i == 21 {
        0x02441453
    } else if i == 22 {
        0xd8a1e681
    } else if i == 23 {
        0xe7d3fbc8
    } else if i == 24 {
        0x21e1cde6
    } else if i == 25 {
        0xc33707d6
    } else if i == 26 {
        0xf4d50d87
    } else if i == 27 {
        0x455a14ed
    } else if i == 28 {
        0xa9e3e905
    } else if i == 29 {
        0xfcefa3f8
    } else if i == 30 {
        0x676f02d9
    } else if i == 31 {
        0x8d2a4c8a
    } else if i == 32 {
        0xfffa3942
    } else if i == 33 {
        0x8771f681
    } else if i == 34 {
        0x6d9d6122
    } else if i == 35 {
        0xfde5380c
    } else if i == 36 {
        0xa4beea44
    } else if i == 37 {
        0x4bdecfa9
    } else if i == 38 {
        0xf6bb4b60
    } else if i == 39 {
        0xbebfbc70
    } else if i == 40 {
        0x289b7ec6
    } else if i == 41 {
        0xeaa127fa
    } else if i == 42 {
        0xd4ef3085
    } else if i == 43 {
        0x04881d05
    } else if i == 44 {
        0xd9d4d039
    } else if i == 45 {
        0xe6db99e5
    } else if i == 46 {
        0x1fa27cf8
    } else if i == 47 {
        0xc4ac5665
    } else if i == 48 {
        0xf4292244
    } else if i == 49 {
        0x432aff97
    } else if i == 50 {
        0xab9423a7
    } else if i == 51 {
        0xfc93a039
    } else if i == 52 {
        0x655b59c3
    } else if i == 53 {
        0x8f0ccc92
    } else if i == 54 {
        0xffeff47d
    } else if i == 55 {
        0x85845dd1
    } else if i == 56 {
        0x6fa87e4f
    } else if i == 57 {
        0xfe2ce6e0
    } else if i == 58 {
        0xa3014314
    } else if i == 59 {
        0x4e0811a1
    } else if i == 60 {
        0xf7537e82
    } else if i == 61 {
        0xbd3af235
    } else if i == 62 {
        0x2ad7d2bb
    } else {
        0xeb86d391
    }
}

/// Exec counterpart of [`md5_k`].
fn md5_k_at(i: usize) -> (r: u32)
    requires
        i < 64,
    ensures
        r == md5_k(i as int),
{
    proof {
        reveal(md5_k);
    }
    if i == 0 {
        0xd76aa478
    } else if i == 1 {
        0xe8c7b756
    } else if i == 2 {
        0x242070db
    } else if i == 3 {
        0xc1bdceee
    } else if i == 4 {
        0xf57c0faf
    } else if i == 5 {
        0x4787c62a
    } else if i == 6 {
        0xa8304613
    } else if i == 7 {
        0xfd469501
    } else if i == 8 {
        0x698098d8
    } else if i == 9 {
        0x8b44f7af
    } else if i == 10 {
        0xffff5bb1
    } else if i == 11 {
        0x895cd7be
    } else if i == 12 {
        0x6b901122
    } else if i == 13 {
        0xfd987193
    } else if i == 14 {
        0xa679438e
    } else if i == 15 {
        0x49b40821
    } else if i == 16 {
        0xf61e2562
    } else if i == 17 {
        0xc040b340
    } else if i == 18 {
        0x265e5a51
    } else if i == 19 {
        0xe9b6c7aa
    } else if i == 20 {
        0xd62f105d
    } else if i == 21 {
        0x02441453
    } else if i == 22 {
        0xd8a1e681
    } else if i == 23 {
        0xe7d3fbc8
    } else if i == 24 {
        0x21e1cde6
    } else if i == 25 {
        0xc33707d6
    } else if i == 26 {
        0xf4d50d87
    } else if i == 27 {
        0x455a14ed
    } else if i == 28 {
        0xa9e3e905
    } else if i == 29 {
        0xfcefa3f8
    } else if i == 30 {
        0x676f02d9
    } else if i == 31 {
        0x8d2a4c8a
    } else if i == 32 {
        0xfffa3942
    } else if i == 33 {
        0x8771f681
    } else if i == 34 {
        0x6d9d6122
    } else if i == 35 {
        0xfde5380c
    } else if i == 36 {
        0xa4beea44
    } else if i == 37 {
        0x4bdecfa9
    } else if i == 38 {
        0xf6bb4b60
    } else if i == 39 {
        0xbebfbc70
    } else if i == 40 {
        0x289b7ec6
    } else if i == 41 {
        0xeaa127fa
    } else if i == 42 {
        0xd4ef3085
    } else if i == 43 {
        0x04881d05
    } else if i == 44 {
        0xd9d4d039
    } else if i == 45 {
        0xe6db99e5
    } else if i == 46 {
        0x1fa27cf8
    } else if i == 47 {
        0xc4ac5665
    } else if i == 48 {
        0xf4292244
    } else if i == 49 {
        0x432aff97
    } else if i == 50 {
        0xab9423a7
    } else if i == 51 {
        0xfc93a039
    } else if i == 52 {
        0x655b59c3
    } else if i == 53 {
        0x8f0ccc92
    } else if i == 54 {
        0xffeff47d
    } else if i == 55 {
        0x85845dd1
    } else if i == 56 {
        0x6fa87e4f
    } else if i == 57 {
        0xfe2ce6e0
    } else if i == 58 {
        0xa3014314
    } else if i == 59 {
        0x4e0811a1
    } else if i == 60 {
        0xf7537e82
    } else if i == 61 {
        0xbd3af235
    } else if i == 62 {
        0x2ad7d2bb
    } else {
        0xeb86d391
    }
}

/// The 16 little-endian message words of one 64-byte block.
pub open spec fn md5_words(block: Seq<u8>) -> Seq<u32> {
    Seq::new(16, |j: int| le32_at(block, j))
}

/// The working registers after the first `i` of the 64 rounds.
#[verifier::opaque]
pub open spec fn md5_state(h: (u32, u32, u32, u32), ws: Seq<u32>, i: int) -> (u32, u32, u32, u32)
    decreases i,
{
    if i <= 0 {
        h
    } else {
        let s = md5_state(h, ws, i - 1);
        let nb = wadd(
            rotl32(wadd4(s.0, md5_f(i - 1, s.1, s.2, s.3), md5_k(i - 1), ws[md5_g(i - 1)]), md5_s(i - 1)),
            s.1,
        );
        (s.3, nb, s.1, s.2)
    }
}

/// One application of the compression function: run the 64 rounds on a
/// 64-byte block and add the result back into the chaining value.
#[verifier::opaque]
pub open spec fn md5_compress(h: (u32, u32, u32, u32), block: Seq<u8>) -> (u32, u32, u32, u32)
    recommends
        block.len() == 64,
{
    let t = md5_state(h, md5_words(block), 64);
    (wadd(h.0, t.0), wadd(h.1, t.1), wadd(h.2, t.2), wadd(h.3, t.3))
}

/// The chaining value after compressing a whole sequence of 64-byte blocks.
pub open spec fn md5_blocks(h: (u32, u32, u32, u32), s: Seq<u8>) -> (u32, u32, u32, u32)
    recommends
        s.len() % 64 == 0,
    decreases s.len(),
{
    if s.len() < 64 {
        h
    } else {
        md5_blocks(md5_compress(h, s.take(64)), s.skip(64))
    }
}

/// The Merkle–Damgård padding for a message of `len` bytes: `0x80`, zeros,
/// then the bit length as a little-endian 64-bit value.
pub open spec fn md5_pad(len: nat) -> Seq<u8> {
    seq![0x80u8] + zero_bytes(pad_zero_count(len)) + le64_bytes(bit_len64(len))
}

/// The MD5 digest of a message: pad, compress every block starting from the
/// initial vector, and serialize the chaining value as little-endian words.
pub open spec fn md5_spec(msg: Seq<u8>) -> Seq<u8> {
    let h = md5_blocks(md5_iv(), msg + md5_pad(msg.len()));
    le32_bytes(h.0) + le32_bytes(h.1) + le32_bytes(h.2) + le32_bytes(h.3)
}

/// Every MD5 digest has exactly 16 bytes.
pub proof fn lemma_md5_spec_len(msg: Seq<u8>)
    ensures
        md5_spec(msg).len() == 16,
{
}

/// Compressing `s + t` is compressing `s`, then `t`, when both are whole
/// numbers of blocks.
proof fn lemma_md5_blocks_append(h: (u32, u32, u32, u32), s: Seq<u8>, t: Seq<u8>)
    requires
        s.len() % 64 == 0,
        t.len() % 64 == 0,
    ensures
        md5_blocks(h, s + t) == md5_blocks(md5_blocks(h, s), t),
    decreases s.len(),
{
    if s.len() == 0 {
        assert(s + t =~= t);
    } else {
        assert((s + t).take(64) =~= s.take(64));
        assert((s + t).skip(64) =~= s.skip(64) + t);
        assert(s.skip(64).len() % 64 == 0);
        lemma_md5_blocks_append(md5_compress(h, s.take(64)), s.skip(64), t);
    }
}

/// On a single block the fold is one compression.
proof fn lemma_md5_blocks_one(h: (u32, u32, u32, u32), b: Seq<u8>)
    requires
        b.len() == 64,
    ensures
        md5_blocks(h, b) == md5_compress(h, b),
{
    assert(b.take(64) =~= b);
    assert(b.skip(64) =~= Seq::<u8>::empty());
    let h2 = md5_compress(h, b);
    assert(md5_blocks(h, b) == md5_blocks(h2, b.skip(64)));
    assert(md5_blocks(h2, b.skip(64)) == h2);
}

/// Decode the block at `off`, run the 64 rounds, and add the result into the
/// chaining value.
fn md5_process(h: (u32, u32, u32, u32), v: &Vec<u8>, off: usize) -> (r: (u32, u32, u32, u32))
    requires
        off + 64 <= v.len(),
    ensures
        r == md5_compress(h, v@.subrange(off as int, off as int + 64)),
{
    let ghost block = v@.subrange(off as int, off as int + 64);
    let mut ws: Vec<u32> = Vec::new();
    let mut j: usize = 0;
    while j < 16
        invariant
            j <= 16,
            off + 64 <= v.len(),
            ws@.len() == j,
            forall|t: int| 0 <= t < j ==> ws@[t] == le32_at(block, t),
            block == v@.subrange(off as int, off as int + 64),
        decreases 16 - j,
    {
        let w = v[off + 4 * j] as u32 + (v[off + 4 * j + 1] as u32) * 0x100 + (v[off + 4 * j
            + 2] as u32) * 0x1_0000 + (v[off + 4 * j + 3] as u32) * 0x100_0000;
        proof {
            assert(block[4 * j] == v@[off + 4 * j]);
            assert(block[4 * j + 1] == v@[off + 4 * j + 1]);
            assert(block[4 * j + 2] == v@[off + 4 * j + 2]);
            assert(block[4 * j + 3] == v@[off + 4 * j + 3]);
        }
        ws.push(w);
        j += 1;
    }
    proof {
        assert(ws@ =~= md5_words(block));
    }
    let mut a = h.0;
    let mut b = h.1;
    let mut c = h.2;
    let mut d = h.3;
    proof {
        reveal_with_fuel(md5_state, 1);
        assert((a, b, c, d) == md5_state(h, ws@, 0));
    }
    let mut i: usize = 0;
    while i < 64
        invariant
            i <= 64,
            ws@ == md5_words(block),
            ws@.len() == 16,
            (a, b, c, d) == md5_state(h, ws@, i as int),
        decreases 64 - i,
    {
        let f: u32 = if i < 16 {
            d ^ (b & (c ^ d))
        } else if i < 32 {
            c ^ (d & (b ^ c))
        } else if i < 48 {
            b ^ c ^ d
        } else {
            c ^ (b | !d)
        };
        let g: usize = if i < 16 {
            i % 16
        } else if i < 32 {
            (5 * i + 1) % 16
        } else if i < 48 {
            (3 * i + 5) % 16
        } else {
            (7 * i) % 16
        };
        let k = md5_k_at(i);
        let s = md5_s_at(i);
        let nb = word_add(word_rotl(word_add4(a, f, k, ws[g]), s), b);
        proof {
            reveal_with_fuel(md5_state, 2);
            assert(f == md5_f(i as int, b, c, d));
            assert(g == md5_g(i as int));
            assert((d, nb, b, c) == md5_state(h, ws@, i as int + 1));
        }
        let tmp = d;
        d = c;
        c = b;
        b = nb;
        a = tmp;
        i += 1;
    }
    proof {
        reveal(md5_compress);
    }
    (word_add(h.0, a), word_add(h.1, b), word_add(h.2, c), word_add(h.3, d))
}

/// A streaming MD5 hasher: the chaining value, at most one block of buffered
/// input, and the total byte count.
pub struct MD5 {
    h0: u32,
    h1: u32,
    h2: u32,
    h3: u32,
    data: Vec<u8>,
    length: u64,
    msg: Ghost<Seq<u8>>,
}

impl MD5 {
    /// The bytes already folded into the chaining value: everything fed so
    /// far except the buffered tail.
    pub closed spec fn processed(&self) -> Seq<u8> {
        self.msg@.take(self.msg@.len() - self.data@.len())
    }

    /// A fresh hasher in the fixed initial-vector state.
    pub fn new() -> (r: MD5)
        ensures
            r.inv(),
            r.bytes_fed() == Seq::<u8>::empty(),
    {
        let r = MD5 {
            h0: 0x67452301,
            h1: 0xefcdab89,
            h2: 0x98badcfe,
            h3: 0x10325476,
            data: Vec::new(),
            length: 0,
            msg: Ghost(Seq::empty()),
        };
        proof {
            assert(r.processed() =~= Seq::<u8>::empty());
            assert(r.data@ =~= r.msg@.skip(r.msg@.len() - r.data@.len()));
        }
        r
    }

    /// Fold one full buffered block into the chaining value.
    fn process_block(&mut self)
        requires
            old(self).data@.len() == 64,
        ensures
            (final(self).h0, final(self).h1, final(self).h2, final(self).h3) == md5_compress(
                (old(self).h0, old(self).h1, old(self).h2, old(self).h3),
                old(self).data@,
            ),
            final(self).data@ == Seq::<u8>::empty(),
            final(self).length == old(self).length,
            final(self).msg == old(self).msg,
    {
        let t = md5_process((self.h0, self.h1, self.h2, self.h3), &self.data, 0);
        proof {
            assert(self.data@.subrange(0, 64) =~= self.data@);
        }
        self.h0 = t.0;
        self.h1 = t.1;
        self.h2 = t.2;
        self.h3 = t.3;
        self.data.clear();
    }

    /// Feed one byte, folding the buffer into the chaining value whenever it
    /// reaches a full block.
    fn push_byte(&mut self, b: u8)
        requires
            old(self).inv(),
            old(self).bytes_fed().len() < u64::MAX,
        ensures
            final(self).inv(),
            final(self).bytes_fed() == old(self).bytes_fed().push(b),
    {
        let ghost pre = *self;
        self.data.push(b);
        self.length = self.length + 1;
        self.msg = Ghost(self.msg@.push(b));
        proof {
            assert(self.processed() =~= pre.processed());
            assert(self.data@ =~= self.msg@.skip(self.msg@.len() - self.data@.len()));
        }
        if self.data.len() == 64 {
            let ghost buffered = self.data@;
            self.process_block();
            proof {
                assert(self.msg@ =~= pre.processed() + buffered);
                lemma_md5_blocks_append(md5_iv(), pre.processed(), buffered);
                lemma_md5_blocks_one(md5_blocks(md5_iv(), pre.processed()), buffered);
                assert(self.processed() =~= self.msg@);
                assert(self.data@ =~= self.msg@.skip(self.msg@.len() - self.data@.len()));
            }
        }
    }

    /// The final padded tail: the buffered bytes, `0x80`, zeros, and the
    /// bit length — one block when the length still fits, two otherwise.
    fn build_tail(&self) -> (tail: Vec<u8>)
        requires
            self.inv(),
        ensures
            tail@ == self.data@ + md5_pad(self.bytes_fed().len()),
            tail@.len() == if self.data@.len() < 56 { 64int } else { 128int },
    {
        let dlen = self.data.len();
        let mut tail: Vec<u8> = Vec::new();
        let mut j: usize = 0;
        while j < dlen
            invariant
                j <= dlen,
                dlen == self.data@.len(),
                tail@ == self.data@.take(j as int),
            decreases dlen - j,
        {
            tail.push(self.data[j]);
            proof {
                assert(tail@ =~= self.data@.take(j as int + 1));
            }
            j += 1;
        }
        proof {
            assert(tail@ =~= self.data@);
        }
        tail.push(0x80);
        let zeros = if dlen < 56 {
            55 - dlen
        } else {
            119 - dlen
        };
        proof {
            lemma_pad_alignment(self.msg@.len());
            vstd::arithmetic::div_mod::lemma_fundamental_div_mod(self.processed().len() as int, 64);
            vstd::arithmetic::div_mod::lemma_mod_multiples_vanish(
                self.processed().len() as int / 64,
                dlen as int,
                64,
            );
            assert(self.msg@.len() % 64 == dlen as int % 64);
            assert(zeros == pad_zero_count(self.msg@.len()));
        }
        let mut z: usize = 0;
        while z < zeros
            invariant
                z <= zeros,
                tail@ == self.data@ + seq![0x80u8] + zero_bytes(z as nat),
            decreases zeros - z,
        {
            tail.push(0);
            proof {
                assert(tail@ =~= self.data@ + seq![0x80u8] + zero_bytes(z as nat + 1));
            }
            z += 1;
        }
        let bits = self.length.wrapping_mul(8);
        proof {
            assert(bits == bit_len64(self.msg@.len()));
        }
        tail.push((bits % 0x100) as u8);
        tail.push(((bits / 0x100) % 0x100) as u8);
        tail.push(((bits / 0x1_0000) % 0x100) as u8);
        tail.push(((bits / 0x100_0000) % 0x100) as u8);
        tail.push(((bits / 0x1_0000_0000) % 0x100) as u8);
        tail.push(((bits / 0x100_0000_0000) % 0x100) as u8);
        tail.push(((bits / 0x1_0000_0000_0000) % 0x100) as u8);
        tail.push(((bits / 0x100_0000_0000_0000) % 0x100) as u8);
        proof {
            assert(tail@ =~= self.data@ + md5_pad(self.msg@.len()));
        }
        tail
    }

    /// Finalize a copy of the state and write the 16 digest bytes into the
    /// front of `out`.
    fn write_digest(&self, out: &mut Vec<u8>)
        requires
            self.inv(),
            old(out).len() >= 16,
        ensures
            final(out)@.len() == old(out)@.len(),
            final(out)@ == md5_spec(self.bytes_fed()) + old(out)@.skip(16),
    {
        let tail = self.build_tail();
        let mut st = (self.h0, self.h1, self.h2, self.h3);
        let ghost h_start = st;
        st = md5_process(st, &tail, 0);
        if tail.len() == 128 {
            st = md5_process(st, &tail, 64);
            proof {
                assert(tail@.subrange(0, 64) =~= tail@.take(64));
                assert(tail@.subrange(64, 128) =~= tail@.skip(64));
                assert(tail@.skip(64).len() == 64);
                lemma_md5_blocks_one(md5_compress(h_start, tail@.take(64)), tail@.skip(64));
                assert(st == md5_blocks(h_start, tail@));
            }
        } else {
            proof {
                assert(tail@.len() == 64);
                assert(tail@.subrange(0, 64) =~= tail@);
                lemma_md5_blocks_one(h_start, tail@);
                assert(st == md5_blocks(h_start, tail@));
            }
        }
        proof {
            lemma_md5_blocks_append(md5_iv(), self.processed(), tail@);
            assert(self.processed() + tail@ =~= self.msg@ + md5_pad(self.msg@.len()));
            assert(st == md5_blocks(md5_iv(), self.msg@ + md5_pad(self.msg@.len())));
        }
        put_le32(out, 0, st.0);
        put_le32(out, 4, st.1);
        put_le32(out, 8, st.2);
        put_le32(out, 12, st.3);
        proof {
            assert(out@ =~= md5_spec(self.bytes_fed()) + old(out)@.skip(16));
        }
    }
}

impl Hasher for MD5 {
    /// The buffered tail is shorter than a block, the byte counter is exact,
    /// and the chaining value is the compression of every completed block.
    closed spec fn inv(&self) -> bool {
        &&& self.data@.len() < 64
        &&& self.data@.len() <= self.msg@.len()
        &&& self.length == self.msg@.len()
        &&& self.processed().len() % 64 == 0
        &&& self.data@ == self.msg@.skip(self.msg@.len() - self.data@.len())
        &&& (self.h0, self.h1, self.h2, self.h3) == md5_blocks(md5_iv(), self.processed())
    }

    closed spec fn bytes_fed(&self) -> Seq<u8> {
        self.msg@
    }

    open spec fn spec_digest(s: Seq<u8>) -> Seq<u8> {
        md5_spec(s)
    }

    open spec fn spec_output_bits() -> nat {
        128
    }

    open spec fn spec_block_bits() -> nat {
        512
    }

    proof fn lemma_shape(s: Seq<u8>) {
        assert(MD5::spec_output_bits() == 128);
        assert(MD5::spec_block_bits() == 512);
        lemma_md5_spec_len(s);
        assert(MD5::spec_digest(s).len() == 16);
        assert(MD5::spec_output_bits() % 8 == 0);
        assert(MD5::spec_output_bits() / 8 == 16);
    }

    fn reset(&mut self) {
        self.h0 = 0x67452301;
        self.h1 = 0xefcdab89;
        self.h2 = 0x98badcfe;
        self.h3 = 0x10325476;
        self.data.clear();
        self.length = 0;
        self.msg = Ghost(Seq::empty());
        proof {
            assert(self.processed() =~= Seq::<u8>::empty());
            assert(self.data@ =~= self.msg@.skip(self.msg@.len() - self.data@.len()));
        }
    }

    fn update(&mut self, data: &[u8]) {
        let n = data.len();
        let mut i: usize = 0;
        while i < n
            invariant
                self.inv(),
                i <= n,
                n == data@.len(),
                self.bytes_fed() == old(self).bytes_fed() + data@.take(i as int),
                old(self).bytes_fed().len() + data@.len() <= u64::MAX,
            decreases n - i,
        {
            let b = data[i];
            self.push_byte(b);
            proof {
                assert((old(self).bytes_fed() + data@.take(i as int)).push(b) =~= old(
                    self,
                ).bytes_fed() + data@.take(i as int + 1));
            }
            i += 1;
        }
        proof {
            assert(data@.take(n as int) =~= data@);
        }
    }

    fn output(&self, out: &mut Vec<u8>) {
        self.write_digest(out);
    }

    fn output_size_bits(&self) -> (r: usize) {
        128
    }

    fn block_size_bits(&self) -> (r: usize) {
        512
    }
}

} // verus!
