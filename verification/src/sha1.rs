//! The SHA-1 engine: 160-bit digest, big-endian words, 80-round compression
//! with message expansion.

use vstd::prelude::*;

use crate::block::{
    be32_at, be32_bytes, be64_bytes, bit_len64, lemma_pad_alignment, pad_zero_count, put_be32,
    rotl32, wadd, wadd4, word_add, word_add4, word_rotl, zero_bytes,
};
use crate::hash::Hasher;

verus! {

/// The fixed initial chaining value.
pub open spec fn sha1_iv() -> (u32, u32, u32, u32, u32) {
    (0x67452301u32, 0xefcdab89u32, 0x98badcfeu32, 0x10325476u32, 0xc3d2e1f0u32)
}

/// The nonlinear function of round `i` applied to registers `b`, `c`, `d`:
/// choice, parity, majority, parity.
pub open spec fn sha1_f(i: int, b: u32, c: u32, d: u32) -> u32 {
    if i < 20 {
        d ^ (b & (c ^ d))
    } else if i < 40 {
        b ^ c ^ d
    } else if i < 60 {
        (b & c) | (d & (b | c))
    } else {
        b ^ c ^ d
    }
}

/// The additive constant of round `i`, one per 20-round group.
pub open spec fn sha1_kc(i: int) -> u32 {
    if i < 20 {
        0x5a827999
    } else if i < 40 {
        0x6ed9eba1
    } else if i < 60 {
        0x8f1bbcdc
    } else {
        0xca62c1d6
    }
}

/// Message word `i` of one 64-byte block: the first 16 are the big-endian
/// words of the block, the rest come from the rotate-xor expansion.
pub open spec fn sha1_w(block: Seq<u8>, i: int) -> u32
    recommends
        block.len() == 64,
        0 <= i < 80,
    decreases i,
{
    if i < 16 {
        be32_at(block, i)
    } else {
        rotl32(
            sha1_w(block, i - 3) ^ sha1_w(block, i - 8) ^ sha1_w(block, i - 14) ^ sha1_w(
                block,
                i - 16,
            ),
            1,
        )
    }
}

/// All 80 expanded message words of one block.
pub open spec fn sha1_words(block: Seq<u8>) -> Seq<u32> {
    Seq::new(80, |i: int| sha1_w(block, i))
}

/// The working registers after the first `i` of the 80 rounds.
#[verifier::opaque]
pub open spec fn sha1_state(h: (u32, u32, u32, u32, u32), ws: Seq<u32>, i: int) -> (
    u32,
    u32,
    u32,
    u32,
    u32,
)
    decreases i,
{
    if i <= 0 {
        h
    } else {
        let s = sha1_state(h, ws, i - 1);
        let temp = wadd(
            rotl32(s.0, 5),
            wadd4(sha1_f(i - 1, s.1, s.2, s.3), s.4, sha1_kc(i - 1), ws[i - 1]),
        );
        (temp, s.0, rotl32(s.1, 30), s.2, s.3)
    }
}

/// One application of the compression function: run the 80 rounds on a
/// 64-byte block and add the result back into the chaining value.
#[verifier::opaque]
pub open spec fn sha1_compress(h: (u32, u32, u32, u32, u32), block: Seq<u8>) -> (
    u32,
    u32,
    u32,
    u32,
    u32,
)
    recommends
        block.len() == 64,
{
    let t = sha1_state(h, sha1_words(block), 80);
    (wadd(h.0, t.0), wadd(h.1, t.1), wadd(h.2, t.2), wadd(h.3, t.3), wadd(h.4, t.4))
}

/// The chaining value after compressing a whole sequence of 64-byte blocks.
pub open spec fn sha1_blocks(h: (u32, u32, u32, u32, u32), s: Seq<u8>) -> (
    u32,
    u32,
    u32,
    u32,
    u32,
)
    recommends
        s.len() % 64 == 0,
    decreases s.len(),
{
    if s.len() < 64 {
        h
    } else {
        sha1_blocks(sha1_compress(h, s.take(64)), s.skip(64))
    }
}

/// The Merkle–Damgård padding for a message of `len` bytes: `0x80`, zeros,
/// then the bit length as a big-endian 64-bit value.
pub open spec fn sha1_pad(len: nat) -> Seq<u8> {
    seq![0x80u8] + zero_bytes(pad_zero_count(len)) + be64_bytes(bit_len64(len))
}

/// The SHA-1 digest of a message: pad, compress every block starting from
/// the initial vector, and serialize the chaining value as big-endian words.
pub open spec fn sha1_spec(msg: Seq<u8>) -> Seq<u8> {
    let h = sha1_blocks(sha1_iv(), msg + sha1_pad(msg.len()));
    be32_bytes(h.0) + be32_bytes(h.1) + be32_bytes(h.2) + be32_bytes(h.3) + be32_bytes(h.4)
}

/// Every SHA-1 digest has exactly 20 bytes.
pub proof fn lemma_sha1_spec_len(msg: Seq<u8>)
    ensures
        sha1_spec(msg).len() == 20,
{
}

/// Compressing `s + t` is compressing `s`, then `t`, when both are whole
/// numbers of blocks.
proof fn lemma_sha1_blocks_append(h: (u32, u32, u32, u32, u32), s: Seq<u8>, t: Seq<u8>)
    requires
        s.len() % 64 == 0,
        t.len() % 64 == 0,
    ensures
        sha1_blocks(h, s + t) == sha1_blocks(sha1_blocks(h, s), t),
    decreases s.len(),
{
    if s.len() == 0 {
        assert(s + t =~= t);
    } else {
        assert((s + t).take(64) =~= s.take(64));
        assert((s + t).skip(64) =~= s.skip(64) + t);
        assert(s.skip(64).len() % 64 == 0);
        lemma_sha1_blocks_append(sha1_compress(h, s.take(64)), s.skip(64), t);
    }
}

/// On a single block the fold is one compression.
proof fn lemma_sha1_blocks_one(h: (u32, u32, u32, u32, u32), b: Seq<u8>)
    requires
        b.len() == 64,
    ensures
        sha1_blocks(h, b) == sha1_compress(h, b),
{
    assert(b.take(64) =~= b);
    assert(b.skip(64) =~= Seq::<u8>::empty());
    let h2 = sha1_compress(h, b);
    assert(sha1_blocks(h, b) == sha1_blocks(h2, b.skip(64)));
    assert(sha1_blocks(h2, b.skip(64)) == h2);
}

/// Decode and expand the block at `off`, run the 80 rounds, and add the
/// result into the chaining value.
fn sha1_process(h: (u32, u32, u32, u32, u32), v: &Vec<u8>, off: usize) -> (r: (
    u32,
    u32,
    u32,
    u32,
    u32,
))
    requires
        off + 64 <= v.len(),
    ensures
        r == sha1_compress(h, v@.subrange(off as int, off as int + 64)),
{
    let ghost block = v@.subrange(off as int, off as int + 64);
    let mut ws: Vec<u32> = Vec::new();
    let mut j: usize = 0;
    while j < 16
        invariant
            j <= 16,
            off + 64 <= v.len(),
            ws@.len() == j,
            forall|t: int| 0 <= t < j ==> ws@[t] == sha1_w(block, t),
            block == v@.subrange(off as int, off as int + 64),
        decreases 16 - j,
    {
        let w = (v[off + 4 * j] as u32) * 0x100_0000 + (v[off + 4 * j + 1] as u32) * 0x1_0000 + (
        v[off + 4 * j + 2] as u32) * 0x100 + v[off + 4 * j + 3] as u32;
        proof {
            assert(block[4 * j] == v@[off + 4 * j]);
            assert(block[4 * j + 1] == v@[off + 4 * j + 1]);
            assert(block[4 * j + 2] == v@[off + 4 * j + 2]);
            assert(block[4 * j + 3] == v@[off + 4 * j + 3]);
        }
        ws.push(w);
        j += 1;
    }
    while j < 80
        invariant
            16 <= j <= 80,
            ws@.len() == j,
            forall|t: int| 0 <= t < j ==> ws@[t] == sha1_w(block, t),
        decreases 80 - j,
    {
        let n = ws[j - 3] ^ ws[j - 8] ^ ws[j - 14] ^ ws[j - 16];
        let w = word_rotl(n, 1);
        proof {
            assert(n == sha1_w(block, j - 3) ^ sha1_w(block, j - 8) ^ sha1_w(block, j - 14)
                ^ sha1_w(block, j - 16));
            assert(sha1_w(block, j as int) == rotl32(
                sha1_w(block, j - 3) ^ sha1_w(block, j - 8) ^ sha1_w(block, j - 14) ^ sha1_w(
                    block,
                    j - 16,
                ),
                1,
            ));
            assert(w == sha1_w(block, j as int));
        }
        ws.push(w);
        j += 1;
    }
    proof {
        assert(ws@ =~= sha1_words(block));
    }
    let mut a = h.0;
    let mut b = h.1;
    let mut c = h.2;
    let mut d = h.3;
    let mut e = h.4;
    proof {
        reveal_with_fuel(sha1_state, 1);
        assert((a, b, c, d, e) == sha1_state(h, ws@, 0));
    }
    let mut i: usize = 0;
    while i < 80
        invariant
            i <= 80,
            ws@ == sha1_words(block),
            ws@.len() == 80,
            (a, b, c, d, e) == sha1_state(h, ws@, i as int),
        decreases 80 - i,
    {
        let f: u32 = if i < 20 {
            d ^ (b & (c ^ d))
        } else if i < 40 {
            b ^ c ^ d
        } else if i < 60 {
            (b & c) | (d & (b | c))
        } else {
            b ^ c ^ d
        };
        let k: u32 = if i < 20 {
            0x5a827999
        } else if i < 40 {
            0x6ed9eba1
        } else if i < 60 {
            0x8f1bbcdc
        } else {
            0xca62c1d6
        };
        let temp = word_add(word_rotl(a, 5), word_add4(f, e, k, ws[i]));
        proof {
            reveal_with_fuel(sha1_state, 2);
            assert(f == sha1_f(i as int, b, c, d));
            assert(k == sha1_kc(i as int));
            assert((temp, a, rotl32(b, 30), c, d) == sha1_state(h, ws@, i as int + 1));
        }
        e = d;
        d = c;
        c = word_rotl(b, 30);
        b = a;
        a = temp;
        i += 1;
    }
    proof {
        reveal(sha1_compress);
    }
    (word_add(h.0, a), word_add(h.1, b), word_add(h.2, c), word_add(h.3, d), word_add(h.4, e))
}

/// A streaming SHA-1 hasher: the chaining value, at most one block of
/// buffered input, and the total byte count.
pub struct SHA1 {
    h0: u32,
    h1: u32,
    h2: u32,
    h3: u32,
    h4: u32,
    data: Vec<u8>,
    length: u64,
    msg: Ghost<Seq<u8>>,
}

impl SHA1 {
    /// The bytes already folded into the chaining value: everything fed so
    /// far except the buffered tail.
    pub closed spec fn processed(&self) -> Seq<u8> {
        self.msg@.take(self.msg@.len() - self.data@.len())
    }

    /// A fresh hasher in the fixed initial-vector state.
    pub fn new() -> (r: SHA1)
        ensures
            r.inv(),
            r.bytes_fed() == Seq::<u8>::empty(),
    {
        let r = SHA1 {
            h0: 0x67452301,
            h1: 0xefcdab89,
            h2: 0x98badcfe,
            h3: 0x10325476,
            h4: 0xc3d2e1f0,
            data: Vec::new(),
            length: 0,
            msg: Ghost(Seq::empty()),
        };
        proof {
            assert(r.processed() =~= Seq::<u8>::empty());
            assert(r.data@ =~= r.msg@.skip(r.msg@.len() - r.data@.len()));
        }
        r
    }

    /// Fold one full buffered block into the chaining value.
    fn process_block(&mut self)
        requires
            old(self).data@.len() == 64,
        ensures
            (
                final(self).h0,
                final(self).h1,
                final(self).h2,
                final(self).h3,
                final(self).h4,
            ) == sha1_compress(
                (old(self).h0, old(self).h1, old(self).h2, old(self).h3, old(self).h4),
                old(self).data@,
            ),
            final(self).data@ == Seq::<u8>::empty(),
            final(self).length == old(self).length,
            final(self).msg == old(self).msg,
    {
        let t = sha1_process((self.h0, self.h1, self.h2, self.h3, self.h4), &self.data, 0);
        proof {
            assert(self.data@.subrange(0, 64) =~= self.data@);
        }
        self.h0 = t.0;
        self.h1 = t.1;
        self.h2 = t.2;
        self.h3 = t.3;
        self.h4 = t.4;
        self.data.clear();
    }

    /// Feed one byte, folding the buffer into the chaining value whenever it
    /// reaches a full block.
    fn push_byte(&mut self, b: u8)
        requires
            old(self).inv(),
            old(self).bytes_fed().len() < u64::MAX,
        ensures
            final(self).inv(),
            final(self).bytes_fed() == old(self).bytes_fed().push(b),
    {
        let ghost pre = *self;
        self.data.push(b);
        self.length = self.length + 1;
        self.msg = Ghost(self.msg@.push(b));
        proof {
            assert(self.processed() =~= pre.processed());
            assert(self.data@ =~= self.msg@.skip(self.msg@.len() - self.data@.len()));
        }
        if self.data.len() == 64 {
            let ghost buffered = self.data@;
            self.process_block();
            proof {
                assert(self.msg@ =~= pre.processed() + buffered);
                lemma_sha1_blocks_append(sha1_iv(), pre.processed(), buffered);
                lemma_sha1_blocks_one(sha1_blocks(sha1_iv(), pre.processed()), buffered);
                assert(self.processed() =~= self.msg@);
                assert(self.data@ =~= self.msg@.skip(self.msg@.len() - self.data@.len()));
            }
        }
    }

    /// The final padded tail: the buffered bytes, `0x80`, zeros, and the
    /// bit length — one block when the length still fits, two otherwise.
    fn build_tail(&self) -> (tail: Vec<u8>)
        requires
            self.inv(),
        ensures
            tail@ == self.data@ + sha1_pad(self.bytes_fed().len()),
            tail@.len() == if self.data@.len() < 56 {
                64int
            } else {
                128int
            },
    {
        let dlen = self.data.len();
        let mut tail: Vec<u8> = Vec::new();
        let mut j: usize = 0;
        while j < dlen
            invariant
                j <= dlen,
                dlen == self.data@.len(),
                tail@ == self.data@.take(j as int),
            decreases dlen - j,
        {
            tail.push(self.data[j]);
            proof {
                assert(tail@ =~= self.data@.take(j as int + 1));
            }
            j += 1;
        }
        proof {
            assert(tail@ =~= self.data@);
        }
        tail.push(0x80);
        let zeros = if dlen < 56 {
            55 - dlen
        } else {
            119 - dlen
        };
        proof {
            lemma_pad_alignment(self.msg@.len());
            vstd::arithmetic::div_mod::lemma_fundamental_div_mod(self.processed().len() as int, 64);
            vstd::arithmetic::div_mod::lemma_mod_multiples_vanish(
                self.processed().len() as int / 64,
                dlen as int,
                64,
            );
            assert(self.msg@.len() % 64 == dlen as int % 64);
            assert(zeros == pad_zero_count(self.msg@.len()));
        }
        let mut z: usize = 0;
        while z < zeros
            invariant
                z <= zeros,
                tail@ == self.data@ + seq![0x80u8] + zero_bytes(z as nat),
            decreases zeros - z,
        {
            tail.push(0);
            proof {
                assert(tail@ =~= self.data@ + seq![0x80u8] + zero_bytes(z as nat + 1));
            }
            z += 1;
        }
        let bits = self.length.wrapping_mul(8);
        proof {
            assert(bits == bit_len64(self.msg@.len()));
        }
        tail.push(((bits / 0x100_0000_0000_0000) % 0x100) as u8);
        tail.push(((bits / 0x1_0000_0000_0000) % 0x100) as u8);
        tail.push(((bits / 0x100_0000_0000) % 0x100) as u8);
        tail.push(((bits / 0x1_0000_0000) % 0x100) as u8);
        tail.push(((bits / 0x100_0000) % 0x100) as u8);
        tail.push(((bits / 0x1_0000) % 0x100) as u8);
        tail.push(((bits / 0x100) % 0x100) as u8);
        tail.push((bits % 0x100) as u8);
        proof {
            assert(tail@ =~= self.data@ + sha1_pad(self.msg@.len()));
        }
        tail
    }

    /// Finalize a copy of the state and write the 20 digest bytes into the
    /// front of `out`.
    fn write_digest(&self, out: &mut Vec<u8>)
        requires
            self.inv(),
            old(out).len() >= 20,
        ensures
            final(out)@.len() == old(out)@.len(),
            final(out)@ == sha1_spec(self.bytes_fed()) + old(out)@.skip(20),
    {
        let tail = self.build_tail();
        let mut st = (self.h0, self.h1, self.h2, self.h3, self.h4);
        let ghost h_start = st;
        st = sha1_process(st, &tail, 0);
        if tail.len() == 128 {
            st = sha1_process(st, &tail, 64);
            proof {
                assert(tail@.subrange(0, 64) =~= tail@.take(64));
                assert(tail@.subrange(64, 128) =~= tail@.skip(64));
                assert(tail@.skip(64).len() == 64);
                lemma_sha1_blocks_one(sha1_compress(h_start, tail@.take(64)), tail@.skip(64));
                assert(st == sha1_blocks(h_start, tail@));
            }
        } else {
            proof {
                assert(tail@.len() == 64);
                assert(tail@.subrange(0, 64) =~= tail@);
                lemma_sha1_blocks_one(h_start, tail@);
                assert(st == sha1_blocks(h_start, tail@));
            }
        }
        proof {
            lemma_sha1_blocks_append(sha1_iv(), self.processed(), tail@);
            assert(self.processed() + tail@ =~= self.msg@ + sha1_pad(self.msg@.len()));
            assert(st == sha1_blocks(sha1_iv(), self.msg@ + sha1_pad(self.msg@.len())));
        }
        put_be32(out, 0, st.0);
        put_be32(out, 4, st.1);
        put_be32(out, 8, st.2);
        put_be32(out, 12, st.3);
        put_be32(out, 16, st.4);
        proof {
            assert(out@ =~= sha1_spec(self.bytes_fed()) + old(out)@.skip(20));
        }
    }
}

impl Hasher for SHA1 {
    /// The buffered tail is shorter than a block, the byte counter is exact,
    /// and the chaining value is the compression of every completed block.
    closed spec fn inv(&self) -> bool {
        &&& self.data@.len() < 64
        &&& self.data@.len() <= self.msg@.len()
        &&& self.length == self.msg@.len()
        &&& self.processed().len() % 64 == 0
        &&& self.data@ == self.msg@.skip(self.msg@.len() - self.data@.len())
        &&& (self.h0, self.h1, self.h2, self.h3, self.h4) == sha1_blocks(
            sha1_iv(),
            self.processed(),
        )
    }

    closed spec fn bytes_fed(&self) -> Seq<u8> {
        self.msg@
    }

    open spec fn spec_digest(s: Seq<u8>) -> Seq<u8> {
        sha1_spec(s)
    }

    open spec fn spec_output_bits() -> nat {
        160
    }

    open spec fn spec_block_bits() -> nat {
        512
    }

    proof fn lemma_shape(s: Seq<u8>) {
        assert(SHA1::spec_output_bits() == 160);
        assert(SHA1::spec_block_bits() == 512);
        lemma_sha1_spec_len(s);
        assert(SHA1::spec_digest(s).len() == 20);
        assert(SHA1::spec_output_bits() % 8 == 0);
        assert(SHA1::spec_output_bits() / 8 == 20);
    }

    fn reset(&mut self) {
        self.h0 = 0x67452301;
        self.h1 = 0xefcdab89;
        self.h2 = 0x98badcfe;
        self.h3 = 0x10325476;
        self.h4 = 0xc3d2e1f0;
        self.data.clear();
        self.length = 0;
        self.msg = Ghost(Seq::empty());
        proof {
            assert(self.processed() =~= Seq::<u8>::empty());
            assert(self.data@ =~= self.msg@.skip(self.msg@.len() - self.data@.len()));
        }
    }

    fn update(&mut self, data: &[u8]) {
        let n = data.len();
        let mut i: usize = 0;
        while i < n
            invariant
                self.inv(),
                i <= n,
                n == data@.len(),
                self.bytes_fed() == old(self).bytes_fed() + data@.take(i as int),
                old(self).bytes_fed().len() + data@.len() <= u64::MAX,
            decreases n - i,
        {
            let b = data[i];
            self.push_byte(b);
            proof {
                assert((old(self).bytes_fed() + data@.take(i as int)).push(b) =~= old(
                    self,
                ).bytes_fed() + data@.take(i as int + 1));
            }
            i += 1;
        }
        proof {
            assert(data@.take(n as int) =~= data@);
        }
    }

    fn output(&self, out: &mut Vec<u8>) {
        self.write_digest(out);
    }

    fn output_size_bits(&self) -> (r: usize) {
        160
    }

    fn block_size_bits(&self) -> (r: usize) {
        512
    }
}

} // verus!
