//! The streaming-digest abstraction: the `Hasher` trait, the `Hashable`
//! adapter, and the laws every conforming hasher obeys.

use vstd::prelude::*;

verus! {

/// A streaming byte digest.
///
/// The model of a hasher is the sequence `bytes_fed()` of all bytes passed to
/// `update` since the last `reset` (or since creation).  Every digest read is
/// `Self::spec_digest(bytes_fed())`, so the result depends on nothing but
/// those bytes — not on how they were chunked across `update` calls, and not
/// on anything fed before the last `reset`.
pub trait Hasher: Sized {
    /// Well-formedness of the hasher's internal state.
    spec fn inv(&self) -> bool;

    /// All bytes fed by `update` since the last `reset` (or since creation).
    spec fn bytes_fed(&self) -> Seq<u8>;

    /// The digest of a complete message, as the algorithm defines it.
    spec fn spec_digest(s: Seq<u8>) -> Seq<u8>;

    /// Digest length in bits.
    spec fn spec_output_bits() -> nat;

    /// Compression block length in bits.
    spec fn spec_block_bits() -> nat;

    /// The two sizes are small and byte-aligned, and the digest of every
    /// message has exactly `spec_output_bits() / 8` bytes.
    proof fn lemma_shape(s: Seq<u8>)
        ensures
            0 < Self::spec_output_bits() <= 4096,
            0 < Self::spec_block_bits() <= 4096,
            Self::spec_output_bits() % 8 == 0,
            Self::spec_digest(s).len() == Self::spec_output_bits() / 8,
    ;

    /// Restore the initial state, discarding all bytes fed so far.
    fn reset(&mut self)
        ensures
            final(self).inv(),
            final(self).bytes_fed() == Seq::<u8>::empty(),
    ;

    /// Feed `data`; the digest will be that of all bytes fed in order.
    fn update(&mut self, data: &[u8])
        requires
            old(self).inv(),
            old(self).bytes_fed().len() + data@.len() <= u64::MAX,
        ensures
            final(self).inv(),
            final(self).bytes_fed() == old(self).bytes_fed() + data@,
    ;

    /// Write the digest of the bytes fed so far into the front of `out`,
    /// leaving the hasher itself untouched (it takes `&self`) so the caller
    /// may keep streaming.
    fn output(&self, out: &mut Vec<u8>)
        requires
            self.inv(),
            old(out)@.len() >= Self::spec_output_bits() / 8,
        ensures
            final(out)@.len() == old(out)@.len(),
            final(out)@ == Self::spec_digest(self.bytes_fed()) + old(out)@.skip(
                (Self::spec_output_bits() / 8) as int,
            ),
    ;

    /// The digest size in bits.
    fn output_size_bits(&self) -> (r: usize)
        ensures
            r == Self::spec_output_bits(),
    ;

    /// The block size in bits.
    fn block_size_bits(&self) -> (r: usize)
        ensures
            r == Self::spec_block_bits(),
    ;

    /// The digest size in bytes, rounding up.
    fn output_size(&self) -> (r: usize)
        ensures
            r == (Self::spec_output_bits() + 7) / 8,
    {
        proof {
            Self::lemma_shape(Seq::<u8>::empty());
        }
        (self.output_size_bits() + 7) / 8
    }

    /// The block size in bytes, rounding up.
    fn block_size(&self) -> (r: usize)
        ensures
            r == (Self::spec_block_bits() + 7) / 8,
    {
        proof {
            Self::lemma_shape(Seq::<u8>::empty());
        }
        (self.block_size_bits() + 7) / 8
    }

    /// The digest of the bytes fed so far, as a fresh buffer.
    fn digest(&self) -> (r: Vec<u8>)
        requires
            self.inv(),
        ensures
            r@ == Self::spec_digest(self.bytes_fed()),
    {
        proof {
            Self::lemma_shape(self.bytes_fed());
        }
        let size = self.output_size();
        let mut buf: Vec<u8> = Vec::new();
        buf.resize(size, 0u8);
        self.output(&mut buf);
        proof {
            assert(buf@ =~= Self::spec_digest(self.bytes_fed()));
        }
        buf
    }
}

/// A value that can feed itself into any [`Hasher`].
pub trait Hashable {
    /// The bytes the value contributes to a hasher.
    spec fn feed_bytes(&self) -> Seq<u8>;

    /// Feed the value to the hasher passed in parameter.
    fn feed<H: Hasher>(&self, h: &mut H)
        requires
            old(h).inv(),
            old(h).bytes_fed().len() + self.feed_bytes().len() <= u64::MAX,
        ensures
            final(h).inv(),
            final(h).bytes_fed() == old(h).bytes_fed() + self.feed_bytes(),
    ;

    /// Digest of the value alone.  Resets the hasher first, so residual state
    /// from earlier use cannot leak into the result.
    fn to_hash<H: Hasher>(&self, h: &mut H) -> (r: Vec<u8>)
        requires
            self.feed_bytes().len() <= u64::MAX,
        ensures
            r@ == H::spec_digest(self.feed_bytes()),
            final(h).inv(),
            final(h).bytes_fed() == self.feed_bytes(),
    {
        h.reset();
        self.feed(h);
        proof {
            assert(Seq::<u8>::empty() + self.feed_bytes() =~= self.feed_bytes());
        }
        h.digest()
    }
}

impl<'a> Hashable for &'a [u8] {
    /// A byte slice contributes exactly its own bytes.
    open spec fn feed_bytes(&self) -> Seq<u8> {
        (*self)@
    }

    fn feed<H: Hasher>(&self, h: &mut H) {
        h.update(*self)
    }
}

/// Chunking invariance: a fresh (or freshly reset) hasher fed the two halves
/// of any split of `d` ends in the same model state as one fed `d` whole, so
/// every later digest read agrees.
pub proof fn lemma_chunked_digest<H: Hasher>(d: Seq<u8>, i: int)
    requires
        0 <= i <= d.len(),
    ensures
        H::spec_digest((Seq::<u8>::empty() + d.take(i)) + d.skip(i)) == H::spec_digest(
            Seq::<u8>::empty() + d,
        ),
{
    assert((Seq::<u8>::empty() + d.take(i)) + d.skip(i) =~= Seq::<u8>::empty() + d);
}

/// Reset idempotence: whatever was fed before, a hasher after `reset` has the
/// empty model state, so feeding `d` and reading gives the digest of `d`
/// itself — the same as a fresh instance fed `d`.
pub proof fn lemma_reset_restores<H: Hasher>(d: Seq<u8>)
    ensures
        H::spec_digest(Seq::<u8>::empty() + d) == H::spec_digest(d),
{
    assert(Seq::<u8>::empty() + d =~= d);
}

/// Non-mutating read: any two digest reads of one hasher state, with no
/// update between them, return the same bytes.
pub proof fn lemma_digest_deterministic<H: Hasher>(h: H, r1: Seq<u8>, r2: Seq<u8>)
    requires
        r1 == H::spec_digest(h.bytes_fed()),
        r2 == H::spec_digest(h.bytes_fed()),
    ensures
        r1 == r2,
{
}

} // verus!
