//! The block-buffering and padding front end shared by every hasher, and the
//! specification-level machinery for iterating a compression function over
//! the 64-byte blocks of a message.

use vstd::prelude::*;

use crate::words::le64_bytes;

verus! {

/// Inputs are kept below this byte length so that the 64-bit bit counter of
/// the Merkle-Damgard padding cannot overflow (2^61 bytes = 2^64 bits).
pub const MAX_MSG_BYTES: u64 = 0x1fff_ffff_ffff_ffff;

/// A sequence of `n` zero bytes.
pub open spec fn zero_bytes(n: nat) -> Seq<u8> {
    Seq::new(n, |i: int| 0u8)
}

/// Iterate a compression step over every leading 64-byte block of `m`,
/// threading the chaining state through; trailing bytes are ignored.
pub open spec fn fold_blocks<T>(step: spec_fn(T, Seq<u8>) -> T, st: T, m: Seq<u8>) -> T
    decreases m.len(),
{
    if m.len() < 64 {
        st
    } else {
        fold_blocks(step, step(st, m.take(64)), m.skip(64))
    }
}

/// Appending one whole block to a block-aligned message folds the step
/// function once more over the new block.
pub proof fn lemma_fold_blocks_snoc<T>(
    step: spec_fn(T, Seq<u8>) -> T,
    st: T,
    m: Seq<u8>,
    b: Seq<u8>,
)
    requires
        m.len() % 64 == 0,
        b.len() == 64,
    ensures
        fold_blocks(step, st, m + b) == step(fold_blocks(step, st, m), b),
    decreases m.len(),
{
    if m.len() == 0 {
        assert((m + b).take(64) =~= b);
        assert((m + b).skip(64) =~= Seq::<u8>::empty());
        assert(fold_blocks(step, st, m + b) == fold_blocks(
            step,
            step(st, (m + b).take(64)),
            (m + b).skip(64),
        ));
        assert(fold_blocks(step, step(st, b), Seq::<u8>::empty()) == step(st, b));
        assert(fold_blocks(step, st, m) == st);
    } else {
        assert((m + b).take(64) =~= m.take(64));
        assert((m + b).skip(64) =~= m.skip(64) + b);
        assert(m.skip(64).len() % 64 == 0);
        assert(fold_blocks(step, st, m + b) == fold_blocks(
            step,
            step(st, (m + b).take(64)),
            (m + b).skip(64),
        ));
        assert(fold_blocks(step, st, m) == fold_blocks(step, step(st, m.take(64)), m.skip(64)));
        lemma_fold_blocks_snoc(step, step(st, m.take(64)), m.skip(64), b);
    }
}

/// The number of zero bytes the Merkle-Damgard padding inserts between the
/// `0x80` marker and the 8-byte length field of a message of `l` bytes.
pub open spec fn md_pad_zeros(l: nat) -> nat {
    ((64 - ((l + 9) % 64)) % 64) as nat
}

/// The bit length of an `l`-byte message as the 64-bit value stored in the
/// padding's trailing length field.
pub open spec fn md_bit_len(l: nat) -> u64 {
    ((8 * l) % 0x1_0000_0000_0000_0000) as u64
}

/// A message of `l` bytes extended with Merkle-Damgard padding: one `0x80`
/// marker byte, zero fill, and the message bit length little-endian, so that
/// the total is a whole number of blocks.
pub open spec fn md_pad(m: Seq<u8>) -> Seq<u8> {
    m + seq![0x80u8] + zero_bytes(md_pad_zeros(m.len())) + le64_bytes(md_bit_len(m.len()))
}

/// Accumulates bytes into 64-byte blocks: a partial trailing block is
/// buffered across calls, and every completed block is handed back to the
/// caller the moment it fills.
#[derive(Clone, Copy)]
pub struct BlockBuffer {
    buf: [u8; 64],
    pos: usize,
}

impl BlockBuffer {
    /// The buffer never holds a whole block: a block is surrendered eagerly
    /// the moment its last byte arrives.
    pub closed spec fn wf(self) -> bool {
        self.pos < 64
    }

    /// The bytes buffered so far (always fewer than one block).
    pub closed spec fn pending(self) -> Seq<u8> {
        self.buf@.take(self.pos as int)
    }

    /// An empty buffer.
    pub fn new() -> (r: BlockBuffer)
        ensures
            r.wf(),
            r.pending() == Seq::<u8>::empty(),
    {
        let r = BlockBuffer { buf: [0u8; 64], pos: 0 };
        proof {
            assert(r.pending() =~= Seq::<u8>::empty());
        }
        r
    }

    /// A well-formed buffer holds fewer than 64 pending bytes.
    pub proof fn lemma_pending_len(self)
        requires
            self.wf(),
        ensures
            self.pending().len() < 64,
    {
    }

    /// How many bytes are buffered.
    pub fn len(&self) -> (r: usize)
        requires
            self.wf(),
        ensures
            r == self.pending().len(),
    {
        self.pos
    }

    /// Append one byte; if that completes a block, the block is returned and
    /// the buffer empties.
    pub fn push(&mut self, byte: u8) -> (r: Option<[u8; 64]>)
        requires
            old(self).wf(),
        ensures
            final(self).wf(),
            match r {
                Some(blk) => {
                    &&& blk@ == old(self).pending() + seq![byte]
                    &&& final(self).pending() == Seq::<u8>::empty()
                    &&& old(self).pending().len() == 63
                },
                None => {
                    &&& final(self).pending() == old(self).pending() + seq![byte]
                    &&& old(self).pending().len() < 63
                },
            },
    {
        self.buf[self.pos] = byte;
        self.pos = self.pos + 1;
        if self.pos == 64 {
            self.pos = 0;
            let blk = self.buf;
            proof {
                assert(blk@ =~= old(self).pending() + seq![byte]);
                assert(self.pending() =~= Seq::<u8>::empty());
            }
            Some(blk)
        } else {
            proof {
                assert(self.pending() =~= old(self).pending() + seq![byte]);
            }
            None
        }
    }

    /// Discard the buffered bytes.
    pub fn clear(&mut self)
        ensures
            final(self).wf(),
            final(self).pending() == Seq::<u8>::empty(),
    {
        self.pos = 0;
        proof {
            assert(self.pending() =~= Seq::<u8>::empty());
        }
    }

    /// Build the final padded block(s) of the Merkle-Damgard scheme: the
    /// pending bytes, the `0x80` marker, zero fill, and `bit_len` stored
    /// little-endian in the last eight bytes.  One block suffices when the
    /// length field still fits after the pending bytes; otherwise the
    /// padding spills into a second block.
    pub fn md_pad_blocks(&self, bit_len: u64) -> (r: ([u8; 64], Option<[u8; 64]>))
        requires
            self.wf(),
        ensures
            match r.1 {
                None => r.0@ == self.pending() + seq![0x80u8] + zero_bytes(
                    md_pad_zeros(self.pending().len()),
                ) + le64_bytes(bit_len),
                Some(b2) => r.0@ + b2@ == self.pending() + seq![0x80u8] + zero_bytes(
                    md_pad_zeros(self.pending().len()),
                ) + le64_bytes(bit_len),
            },
    {
        let mut b1 = self.buf;
        b1[self.pos] = 0x80;
        let mut j = self.pos + 1;
        while j < 64
            invariant
                self.pos < j <= 64,
                self.pos < 64,
                b1@.len() == 64,
                b1@.take(self.pos as int) == self.pending(),
                b1@[self.pos as int] == 0x80u8,
                forall|k: int| self.pos < k < j ==> b1@[k] == 0u8,
            decreases 64 - j,
        {
            b1[j] = 0;
            j = j + 1;
        }
        if self.pos <= 55 {
            write_le64(&mut b1, bit_len);
            proof {
                assert(b1@ =~= self.pending() + seq![0x80u8] + zero_bytes(
                    md_pad_zeros(self.pending().len()),
                ) + le64_bytes(bit_len));
            }
            (b1, None)
        } else {
            let mut b2 = [0u8; 64];
            write_le64(&mut b2, bit_len);
            proof {
                assert(b1@ + b2@ =~= self.pending() + seq![0x80u8] + zero_bytes(
                    md_pad_zeros(self.pending().len()),
                ) + le64_bytes(bit_len));
            }
            (b1, Some(b2))
        }
    }

    /// Build the single padded block of the Streebog scheme: the pending
    /// bytes, one `0x01` marker byte, and zero fill to the end of the block.
    pub fn stb_pad_block(&self) -> (r: [u8; 64])
        requires
            self.wf(),
        ensures
            r@ == self.pending() + seq![0x01u8] + zero_bytes((63 - self.pending().len()) as nat),
    {
        let mut b1 = self.buf;
        b1[self.pos] = 0x01;
        let mut j = self.pos + 1;
        while j < 64
            invariant
                self.pos < j <= 64,
                self.pos < 64,
                b1@.len() == 64,
                b1@.take(self.pos as int) == self.pending(),
                b1@[self.pos as int] == 0x01u8,
                forall|k: int| self.pos < k < j ==> b1@[k] == 0u8,
            decreases 64 - j,
        {
            b1[j] = 0;
            j = j + 1;
        }
        proof {
            assert(b1@ =~= self.pending() + seq![0x01u8] + zero_bytes(
                (63 - self.pending().len()) as nat,
            ));
        }
        b1
    }
}

/// Store `x` little-endian into the last eight bytes of `b`.
fn write_le64(b: &mut [u8; 64], x: u64)
    ensures
        final(b)@ == old(b)@.take(56) + le64_bytes(x),
{
    b[56] = (x & 0xff) as u8;
    b[57] = ((x >> 8) & 0xff) as u8;
    b[58] = ((x >> 16) & 0xff) as u8;
    b[59] = ((x >> 24) & 0xff) as u8;
    b[60] = ((x >> 32) & 0xff) as u8;
    b[61] = ((x >> 40) & 0xff) as u8;
    b[62] = ((x >> 48) & 0xff) as u8;
    b[63] = ((x >> 56) & 0xff) as u8;
    proof {
        assert(b@ =~= old(b)@.take(56) + le64_bytes(x));
    }
}

} // verus!
