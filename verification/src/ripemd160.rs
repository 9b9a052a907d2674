//! RIPEMD-160: a five-word chaining state, two parallel 80-step lines over
//! each block, and the classic three-way recombination of the lines.

use vstd::prelude::*;

use crate::blocks::{
    fold_blocks, lemma_fold_blocks_snoc, md_bit_len, md_pad, md_pad_zeros, BlockBuffer,
    MAX_MSG_BYTES,
};
use crate::ripemd_common::{
    bool_f, exec_step5, sel_f, step5, xw, Line5, KL, KR5, RL, RR, SL, SR,
};
use crate::words::{le32, le32_bytes, lemma_ser_words_snoc, load_le32, ser_words, wadd};

verus! {

/// The RIPEMD-160 initial chaining value.
pub const H160: [u32; 5] = [0x67452301, 0xefcdab89, 0x98badcfe, 0x10325476, 0xc3d2e1f0];

/// Both lines of the round network after `j` steps over block `b`, starting
/// from the chaining value `h`; the lines share their start and never
/// exchange words.
pub open spec fn rounds160(h: Line5, b: Seq<u8>, j: int) -> (Line5, Line5)
    decreases j,
{
    if j <= 0 {
        (h, h)
    } else {
        let i = j - 1;
        let p = rounds160(h, b, i);
        let l = step5(
            p.0,
            bool_f(i, p.0.1, p.0.2, p.0.3),
            xw(b, RL@[i]),
            SL@[i] as u32,
            KL@[i / 16],
        );
        let r = step5(
            p.1,
            bool_f(79 - i, p.1.1, p.1.2, p.1.3),
            xw(b, RR@[i]),
            SR@[i] as u32,
            KR5@[i / 16],
        );
        (l, r)
    }
}

/// The RIPEMD-160 compression function: run both lines over the block and
/// fold each line's words into the other's when rebuilding the state.
pub open spec fn compress160(h: Seq<u32>, b: Seq<u8>) -> Seq<u32> {
    let h0 = (h[0], h[1], h[2], h[3], h[4]);
    let p = rounds160(h0, b, 80);
    let l = p.0;
    let r = p.1;
    seq![
        wadd(wadd(h[1], l.2), r.3),
        wadd(wadd(h[2], l.3), r.4),
        wadd(wadd(h[3], l.4), r.0),
        wadd(wadd(h[4], l.0), r.1),
        wadd(wadd(h[0], l.1), r.2),
    ]
}

/// The compression step as a function value, for folding over blocks.
pub open spec fn c160() -> spec_fn(Seq<u32>, Seq<u8>) -> Seq<u32> {
    |st: Seq<u32>, b: Seq<u8>| compress160(st, b)
}

/// The initial chaining value as a word sequence.
pub open spec fn iv160() -> Seq<u32> {
    H160@
}

/// The RIPEMD-160 digest of a byte sequence: pad, fold the compression
/// function over every block, serialize the final state little-endian.
pub open spec fn rmd160_digest(m: Seq<u8>) -> Seq<u8> {
    ser_words(fold_blocks(c160(), iv160(), md_pad(m)))
}

/// Run the RIPEMD-160 compression function over one 64-byte block.
fn compress(h: &mut [u32; 5], block: &[u8; 64])
    ensures
        final(h)@ == compress160(old(h)@, block@),
{
    let bs: &[u8] = vstd::array::array_as_slice(block);
    let mut x = [0u32; 16];
    let mut i: usize = 0;
    while i < 16
        invariant
            i <= 16,
            bs@ == block@,
            x@.len() == 16,
            forall|t: int| 0 <= t < i ==> x@[t] == le32(block@, 4 * t),
        decreases 16 - i,
    {
        x[i] = load_le32(bs, 4 * i);
        i = i + 1;
    }
    let h0 = (h[0], h[1], h[2], h[3], h[4]);
    let ghost g0: Line5 = (old(h)@[0], old(h)@[1], old(h)@[2], old(h)@[3], old(h)@[4]);
    assert(h0 == g0);
    let mut l = h0;
    let mut r = h0;
    let mut j: usize = 0;
    while j < 80
        invariant
            j <= 80,
            x@.len() == 16,
            forall|t: int| 0 <= t < 16 ==> x@[t] == le32(block@, 4 * t),
            (l, r) == rounds160(g0, block@, j as int),
            h@ == old(h)@,
        decreases 80 - j,
    {
        let fl = sel_f(j, l.1, l.2, l.3);
        let xl = x[(RL[j] as usize) % 16];
        let l2 = exec_step5(l, fl, xl, SL[j] as u32, KL[j / 16]);
        let fr = sel_f(79 - j, r.1, r.2, r.3);
        let xr = x[(RR[j] as usize) % 16];
        let r2 = exec_step5(r, fr, xr, SR[j] as u32, KR5[j / 16]);
        proof {
            assert(xl == xw(block@, RL@[j as int]));
            assert(xr == xw(block@, RR@[j as int]));
            assert(rounds160(g0, block@, j as int + 1) == {
                let p = rounds160(g0, block@, j as int);
                (
                    step5(
                        p.0,
                        bool_f(j as int, p.0.1, p.0.2, p.0.3),
                        xw(block@, RL@[j as int]),
                        SL@[j as int] as u32,
                        KL@[j as int / 16],
                    ),
                    step5(
                        p.1,
                        bool_f(79 - j as int, p.1.1, p.1.2, p.1.3),
                        xw(block@, RR@[j as int]),
                        SR@[j as int] as u32,
                        KR5@[j as int / 16],
                    ),
                )
            });
        }
        l = l2;
        r = r2;
        j = j + 1;
    }
    let a0 = h[0];
    let a1 = h[1];
    let a2 = h[2];
    let a3 = h[3];
    let a4 = h[4];
    h[0] = crate::words::add32(crate::words::add32(a1, l.2), r.3);
    h[1] = crate::words::add32(crate::words::add32(a2, l.3), r.4);
    h[2] = crate::words::add32(crate::words::add32(a3, l.4), r.0);
    h[3] = crate::words::add32(crate::words::add32(a4, l.0), r.1);
    h[4] = crate::words::add32(crate::words::add32(a0, l.1), r.2);
    proof {
        assert(h@ =~= compress160(old(h)@, block@));
    }
}

/// Serialize the five chaining words to the 20-byte digest, little-endian.
fn store_words(h: &[u32; 5]) -> (out: [u8; 20])
    ensures
        out@ == ser_words(h@),
{
    let mut out = [0u8; 20];
    let mut i: usize = 0;
    while i < 5
        invariant
            i <= 5,
            out@.len() == 20,
            h@.len() == 5,
            out@.take(4 * i as int) == ser_words(h@.take(i as int)),
        decreases 5 - i,
    {
        let w = h[i];
        out[4 * i] = (w & 0xff) as u8;
        out[4 * i + 1] = ((w >> 8) & 0xff) as u8;
        out[4 * i + 2] = ((w >> 16) & 0xff) as u8;
        out[4 * i + 3] = ((w >> 24) & 0xff) as u8;
        proof {
            assert(h@.take(i as int + 1).drop_last() =~= h@.take(i as int));
            lemma_ser_words_snoc(h@.take(i as int + 1));
            assert(out@.take(4 * (i as int + 1)) =~= ser_words(h@.take(i as int)) + le32_bytes(
                h@[i as int],
            ));
        }
        i = i + 1;
    }
    proof {
        assert(h@.take(5) =~= h@);
        assert(out@.take(20) =~= out@);
    }
    out
}

/// Streaming RIPEMD-160 hasher: buffers input into 64-byte blocks and keeps
/// the chaining state over every completed block.
#[derive(Clone, Copy)]
pub struct Ripemd160Core {
    h: [u32; 5],
    block_len: u64,
    buffer: BlockBuffer,
    msg: Ghost<Seq<u8>>,
}

impl View for Ripemd160Core {
    type V = Seq<u8>;

    /// A hasher is abstractly the byte sequence absorbed since the last
    /// reset.
    closed spec fn view(&self) -> Seq<u8> {
        self.msg@
    }
}

impl Ripemd160Core {
    /// The chaining state always equals the compression fold over the
    /// absorbed full blocks, with the trailing partial block buffered.
    pub closed spec fn wf(self) -> bool {
        &&& self.buffer.wf()
        &&& self.msg@.len() <= MAX_MSG_BYTES
        &&& self.msg@.len() == 64 * (self.block_len as int) + self.buffer.pending().len()
        &&& self.h@ == fold_blocks(c160(), iv160(), self.msg@.take(64 * (self.block_len as int)))
        &&& self.buffer.pending() == self.msg@.skip(64 * (self.block_len as int))
    }

    /// Absorb one byte.
    fn push_byte(&mut self, byte: u8)
        requires
            old(self).wf(),
            old(self)@.len() + 1 <= MAX_MSG_BYTES,
        ensures
            final(self).wf(),
            final(self)@ == old(self)@ + seq![byte],
    {
        let ghost m = self.msg@;
        let ghost bl = self.block_len as int;
        let r = self.buffer.push(byte);
        self.msg = Ghost(m + seq![byte]);
        match r {
            Some(blk) => {
                compress(&mut self.h, &blk);
                self.block_len = self.block_len + 1;
                proof {
                    assert(m.take(64 * bl) + blk@ =~= self.msg@.take(64 * (bl + 1)));
                    lemma_fold_blocks_snoc(c160(), iv160(), m.take(64 * bl), blk@);
                    assert(self.buffer.pending() =~= self.msg@.skip(64 * (bl + 1)));
                }
            },
            None => {
                proof {
                    assert(self.msg@.take(64 * bl) =~= m.take(64 * bl));
                    assert(self.buffer.pending() =~= self.msg@.skip(64 * bl));
                }
            },
        }
    }

    /// Absorb a byte slice; chunking never matters, only the concatenation
    /// of everything absorbed.
    pub fn update(&mut self, data: &[u8])
        requires
            old(self).wf(),
            old(self)@.len() + data@.len() <= MAX_MSG_BYTES,
        ensures
            final(self).wf(),
            final(self)@ == old(self)@ + data@,
    {
        let mut i: usize = 0;
        while i < data.len()
            invariant
                self.wf(),
                i <= data@.len(),
                self@ == old(self)@ + data@.take(i as int),
                old(self)@.len() + data@.len() <= MAX_MSG_BYTES,
            decreases data@.len() - i,
        {
            self.push_byte(data[i]);
            proof {
                assert(old(self)@ + data@.take(i as int) + seq![data@[i as int]] =~= old(self)@
                    + data@.take(i as int + 1));
            }
            i = i + 1;
        }
        proof {
            assert(data@.take(data@.len() as int) =~= data@);
        }
    }

    /// Absorb whole blocks directly, without the buffer: the block-aligned
    /// fast path of the original streaming interface.
    pub fn update_blocks(&mut self, blocks: &[u8])
        requires
            old(self).wf(),
            old(self)@.len() % 64 == 0,
            blocks@.len() % 64 == 0,
            old(self)@.len() + blocks@.len() <= MAX_MSG_BYTES,
        ensures
            final(self).wf(),
            final(self)@ == old(self)@ + blocks@,
    {
        let total = blocks.len();
        let n = total / 64;
        let mut k: usize = 0;
        while k < n
            invariant
                self.wf(),
                k <= n,
                total == blocks@.len(),
                n == total / 64,
                blocks@.len() % 64 == 0,
                self@ == old(self)@ + blocks@.take(64 * k as int),
                self@.len() % 64 == 0,
                old(self)@.len() + blocks@.len() <= MAX_MSG_BYTES,
            decreases n - k,
        {
            let mut blk = [0u8; 64];
            let mut t: usize = 0;
            while t < 64
                invariant
                    t <= 64,
                    k < n,
                    total == blocks@.len(),
                    n == total / 64,
                    blk@.len() == 64,
                    blk@.take(t as int) == blocks@.subrange(
                        64 * k as int,
                        64 * k as int + t as int,
                    ),
                decreases 64 - t,
            {
                proof {
                    assert(64 * (n as int) <= total as int);
                    assert(64 * (k as int) + (t as int) < 64 * (n as int));
                }
                blk[t] = blocks[64 * k + t];
                proof {
                    assert(blk@.take(t as int + 1) =~= blocks@.subrange(
                        64 * k as int,
                        64 * k as int + t as int + 1,
                    ));
                }
                t = t + 1;
            }
            self.absorb_block(&blk);
            proof {
                assert(blk@ =~= blocks@.subrange(64 * k as int, 64 * (k as int + 1)));
                assert(old(self)@ + blocks@.take(64 * k as int) + blk@ =~= old(self)@
                    + blocks@.take(64 * (k as int + 1)));
            }
            k = k + 1;
        }
        proof {
            assert(blocks@.take(64 * (blocks@.len() as int / 64)) =~= blocks@);
        }
    }

    /// Absorb one block while the buffer is empty.
    fn absorb_block(&mut self, blk: &[u8; 64])
        requires
            old(self).wf(),
            old(self)@.len() % 64 == 0,
            old(self)@.len() + 64 <= MAX_MSG_BYTES,
        ensures
            final(self).wf(),
            final(self)@ == old(self)@ + blk@,
    {
        let ghost m = self.msg@;
        let ghost bl = self.block_len as int;
        proof {
            self.buffer.lemma_pending_len();
            vstd::arithmetic::div_mod::lemma_mod_multiples_vanish(
                bl,
                self.buffer.pending().len() as int,
                64,
            );
            vstd::arithmetic::div_mod::lemma_small_mod(self.buffer.pending().len(), 64);
            assert(self.buffer.pending().len() == 0);
        }
        compress(&mut self.h, blk);
        self.block_len = self.block_len + 1;
        self.msg = Ghost(m + blk@);
        proof {
            assert(m.take(64 * bl) =~= m);
            assert(m + blk@ =~= self.msg@.take(64 * (bl + 1)));
            lemma_fold_blocks_snoc(c160(), iv160(), m, blk@);
            assert(self.buffer.pending() =~= self.msg@.skip(64 * (bl + 1)));
        }
    }

    /// Compute the digest of everything absorbed so far; the hasher itself
    /// is left untouched and can keep absorbing.
    #[verifier::rlimit(60)]
    pub fn finalize(&self) -> (r: [u8; 20])
        requires
            self.wf(),
        ensures
            r@ == rmd160_digest(self@),
    {
        let plen = self.buffer.len();
        let bit_len: u64 = 8 * (64 * self.block_len + plen as u64);
        let (b1, b2opt) = self.buffer.md_pad_blocks(bit_len);
        let mut h = self.h;
        let ghost full = self.msg@.take(64 * (self.block_len as int));
        proof {
            vstd::arithmetic::div_mod::lemma_mod_multiples_vanish(
                self.block_len as int,
                self.buffer.pending().len() as int + 9,
                64,
            );
            assert(md_pad_zeros(self.msg@.len()) == md_pad_zeros(self.buffer.pending().len()));
            assert(md_bit_len(self.msg@.len()) == bit_len);
        }
        compress(&mut h, &b1);
        match b2opt {
            Some(b2) => {
                compress(&mut h, &b2);
                proof {
                    lemma_fold_blocks_snoc(c160(), iv160(), full, b1@);
                    lemma_fold_blocks_snoc(c160(), iv160(), full + b1@, b2@);
                    assert(self.msg@ =~= full + self.buffer.pending());
                    assert(full + b1@ + b2@ =~= full + (b1@ + b2@));
                    assert(full + (b1@ + b2@) =~= md_pad(self.msg@));
                    assert(h@ == fold_blocks(c160(), iv160(), md_pad(self.msg@)));
                }
            },
            None => {
                proof {
                    lemma_fold_blocks_snoc(c160(), iv160(), full, b1@);
                    assert(full + b1@ =~= md_pad(self.msg@));
                    assert(h@ == fold_blocks(c160(), iv160(), md_pad(self.msg@)));
                }
            },
        }
        store_words(&h)
    }

    /// Forget everything absorbed and return to the initial chaining value.
    pub fn reset(&mut self)
        ensures
            final(self).wf(),
            final(self)@ == Seq::<u8>::empty(),
    {
        self.h = H160;
        self.block_len = 0;
        self.buffer.clear();
        self.msg = Ghost(Seq::empty());
        proof {
            assert(self.msg@.take(0) =~= Seq::<u8>::empty());
            assert(self.msg@.skip(0) =~= Seq::<u8>::empty());
        }
    }

    /// The algorithm's name, for diagnostics only.
    pub fn name(&self) -> (r: &'static str)
        ensures
            r@ == "Ripemd160"@,
    {
        "Ripemd160"
    }
}

impl Default for Ripemd160Core {
    /// A fresh hasher, holding the initial chaining value and no input.
    fn default() -> (r: Self)
        ensures
            r.wf(),
            r@ == Seq::<u8>::empty(),
    {
        let r = Ripemd160Core {
            h: H160,
            block_len: 0,
            buffer: BlockBuffer::new(),
            msg: Ghost(Seq::empty()),
        };
        proof {
            assert(r.msg@.take(0) =~= Seq::<u8>::empty());
            assert(r.msg@.skip(0) =~= Seq::<u8>::empty());
        }
        r
    }
}

} // verus!
