//! RIPEMD-256: an eight-word chaining state, two parallel 64-step four-word
//! lines that exchange one word after every round, and no recombination —
//! the two lines' words are added into their own halves of the state.

use vstd::prelude::*;

use crate::blocks::{
    fold_blocks, lemma_fold_blocks_snoc, md_bit_len, md_pad, md_pad_zeros, BlockBuffer,
    MAX_MSG_BYTES,
};
use crate::ripemd_common::{
    bool_f, exec_step4, sel_f, step4, xw, Line4, KL, KR4, RL, RR, SL, SR,
};
use crate::words::{le32, le32_bytes, lemma_ser_words_snoc, load_le32, ser_words, wadd};

verus! {

/// The RIPEMD-256 initial chaining value.
pub const H256: [u32; 8] = [
    0x67452301, 0xefcdab89, 0x98badcfe, 0x10325476,
    0x76543210, 0xfedcba98, 0x89abcdef, 0x01234567,
];

/// After each 16-step round the two lines exchange one word: the first
/// round swaps the first words, the second the second, and so on.
pub open spec fn swapped4(p: (Line4, Line4), j: int) -> (Line4, Line4) {
    if j % 16 != 0 {
        p
    } else {
        let w = j / 16 - 1;
        if w == 0 {
            ((p.1.0, p.0.1, p.0.2, p.0.3), (p.0.0, p.1.1, p.1.2, p.1.3))
        } else if w == 1 {
            ((p.0.0, p.1.1, p.0.2, p.0.3), (p.1.0, p.0.1, p.1.2, p.1.3))
        } else if w == 2 {
            ((p.0.0, p.0.1, p.1.2, p.0.3), (p.1.0, p.1.1, p.0.2, p.1.3))
        } else {
            ((p.0.0, p.0.1, p.0.2, p.1.3), (p.1.0, p.1.1, p.1.2, p.0.3))
        }
    }
}

/// Both lines after `j` steps over block `b`: the left line starts from the
/// first four chaining words, the right from the last four.
pub open spec fn rounds256(h: Seq<u32>, b: Seq<u8>, j: int) -> (Line4, Line4)
    decreases j,
{
    if j <= 0 {
        ((h[0], h[1], h[2], h[3]), (h[4], h[5], h[6], h[7]))
    } else {
        let i = j - 1;
        let p = rounds256(h, b, i);
        let l = step4(
            p.0,
            bool_f(i, p.0.1, p.0.2, p.0.3),
            xw(b, RL@[i]),
            SL@[i] as u32,
            KL@[i / 16],
        );
        let r = step4(
            p.1,
            bool_f(63 - i, p.1.1, p.1.2, p.1.3),
            xw(b, RR@[i]),
            SR@[i] as u32,
            KR4@[i / 16],
        );
        swapped4((l, r), j)
    }
}

/// The RIPEMD-256 compression function: each line's words are added into
/// the half of the state it started from.
pub open spec fn compress256(h: Seq<u32>, b: Seq<u8>) -> Seq<u32> {
    let p = rounds256(h, b, 64);
    let l = p.0;
    let r = p.1;
    seq![
        wadd(h[0], l.0),
        wadd(h[1], l.1),
        wadd(h[2], l.2),
        wadd(h[3], l.3),
        wadd(h[4], r.0),
        wadd(h[5], r.1),
        wadd(h[6], r.2),
        wadd(h[7], r.3),
    ]
}

/// The compression step as a function value, for folding over blocks.
pub open spec fn c256() -> spec_fn(Seq<u32>, Seq<u8>) -> Seq<u32> {
    |st: Seq<u32>, b: Seq<u8>| compress256(st, b)
}

/// The initial chaining value as a word sequence.
pub open spec fn iv256() -> Seq<u32> {
    H256@
}

/// The RIPEMD-256 digest of a byte sequence.
pub open spec fn rmd256_digest(m: Seq<u8>) -> Seq<u8> {
    ser_words(fold_blocks(c256(), iv256(), md_pad(m)))
}

/// Run the RIPEMD-256 compression function over one 64-byte block.
fn compress(h: &mut [u32; 8], block: &[u8; 64])
    ensures
        final(h)@ == compress256(old(h)@, block@),
{
    let bs: &[u8] = vstd::array::array_as_slice(block);
    let mut x = [0u32; 16];
    let mut i: usize = 0;
    while i < 16
        invariant
            i <= 16,
            bs@ == block@,
            x@.len() == 16,
            forall|t: int| 0 <= t < i ==> x@[t] == le32(block@, 4 * t),
        decreases 16 - i,
    {
        x[i] = load_le32(bs, 4 * i);
        i = i + 1;
    }
    let mut l = (h[0], h[1], h[2], h[3]);
    let mut r = (h[4], h[5], h[6], h[7]);
    let mut j: usize = 0;
    while j < 64
        invariant
            j <= 64,
            x@.len() == 16,
            forall|t: int| 0 <= t < 16 ==> x@[t] == le32(block@, 4 * t),
            (l, r) == rounds256(h@, block@, j as int),
            h@ == old(h)@,
        decreases 64 - j,
    {
        let fl = sel_f(j, l.1, l.2, l.3);
        let xl = x[(RL[j] as usize) % 16];
        let mut l2 = exec_step4(l, fl, xl, SL[j] as u32, KL[j / 16]);
        let fr = sel_f(63 - j, r.1, r.2, r.3);
        let xr = x[(RR[j] as usize) % 16];
        let mut r2 = exec_step4(r, fr, xr, SR[j] as u32, KR4[j / 16]);
        let ghost pre = (l2, r2);
        if (j + 1) % 16 == 0 {
            let q = (j + 1) / 16;
            if q == 1 {
                let t = l2.0;
                l2 = (r2.0, l2.1, l2.2, l2.3);
                r2 = (t, r2.1, r2.2, r2.3);
            } else if q == 2 {
                let t = l2.1;
                l2 = (l2.0, r2.1, l2.2, l2.3);
                r2 = (r2.0, t, r2.2, r2.3);
            } else if q == 3 {
                let t = l2.2;
                l2 = (l2.0, l2.1, r2.2, l2.3);
                r2 = (r2.0, r2.1, t, r2.3);
            } else {
                let t = l2.3;
                l2 = (l2.0, l2.1, l2.2, r2.3);
                r2 = (r2.0, r2.1, r2.2, t);
            }
        }
        proof {
            assert((l2, r2) == swapped4(pre, j as int + 1));
            assert(rounds256(h@, block@, j as int + 1) == {
                let p = rounds256(h@, block@, j as int);
                swapped4(
                    (
                        step4(
                            p.0,
                            bool_f(j as int, p.0.1, p.0.2, p.0.3),
                            xw(block@, RL@[j as int]),
                            SL@[j as int] as u32,
                            KL@[j as int / 16],
                        ),
                        step4(
                            p.1,
                            bool_f(63 - j as int, p.1.1, p.1.2, p.1.3),
                            xw(block@, RR@[j as int]),
                            SR@[j as int] as u32,
                            KR4@[j as int / 16],
                        ),
                    ),
                    j as int + 1,
                )
            });
        }
        l = l2;
        r = r2;
        j = j + 1;
    }
    let a0 = h[0];
    let a1 = h[1];
    let a2 = h[2];
    let a3 = h[3];
    let a4 = h[4];
    let a5 = h[5];
    let a6 = h[6];
    let a7 = h[7];
    h[0] = crate::words::add32(a0, l.0);
    h[1] = crate::words::add32(a1, l.1);
    h[2] = crate::words::add32(a2, l.2);
    h[3] = crate::words::add32(a3, l.3);
    h[4] = crate::words::add32(a4, r.0);
    h[5] = crate::words::add32(a5, r.1);
    h[6] = crate::words::add32(a6, r.2);
    h[7] = crate::words::add32(a7, r.3);
    proof {
        assert(h@ =~= compress256(old(h)@, block@));
    }
}

/// Serialize the eight chaining words to the 32-byte digest, little-endian.
fn store_words(h: &[u32; 8]) -> (out: [u8; 32])
    ensures
        out@ == ser_words(h@),
{
    let mut out = [0u8; 32];
    let mut i: usize = 0;
    while i < 8
        invariant
            i <= 8,
            out@.len() == 32,
            h@.len() == 8,
            out@.take(4 * i as int) == ser_words(h@.take(i as int)),
        decreases 8 - i,
    {
        let w = h[i];
        out[4 * i] = (w & 0xff) as u8;
        out[4 * i + 1] = ((w >> 8) & 0xff) as u8;
        out[4 * i + 2] = ((w >> 16) & 0xff) as u8;
        out[4 * i + 3] = ((w >> 24) & 0xff) as u8;
        proof {
            assert(h@.take(i as int + 1).drop_last() =~= h@.take(i as int));
            lemma_ser_words_snoc(h@.take(i as int + 1));
            assert(out@.take(4 * (i as int + 1)) =~= ser_words(h@.take(i as int)) + le32_bytes(
                h@[i as int],
            ));
        }
        i = i + 1;
    }
    proof {
        assert(h@.take(8) =~= h@);
        assert(out@.take(32) =~= out@);
    }
    out
}

/// Streaming RIPEMD-256 hasher.
#[derive(Clone, Copy)]
pub struct Ripemd256Core {
    h: [u32; 8],
    block_len: u64,
    buffer: BlockBuffer,
    msg: Ghost<Seq<u8>>,
}

impl View for Ripemd256Core {
    type V = Seq<u8>;

    /// A hasher is abstractly the byte sequence absorbed since the last
    /// reset.
    closed spec fn view(&self) -> Seq<u8> {
        self.msg@
    }
}

impl Ripemd256Core {
    /// The chaining state always equals the compression fold over the
    /// absorbed full blocks, with the trailing partial block buffered.
    pub closed spec fn wf(self) -> bool {
        &&& self.buffer.wf()
        &&& self.msg@.len() <= MAX_MSG_BYTES
        &&& self.msg@.len() == 64 * (self.block_len as int) + self.buffer.pending().len()
        &&& self.h@ == fold_blocks(c256(), iv256(), self.msg@.take(64 * (self.block_len as int)))
        &&& self.buffer.pending() == self.msg@.skip(64 * (self.block_len as int))
    }

    /// Absorb one byte.
    fn push_byte(&mut self, byte: u8)
        requires
            old(self).wf(),
            old(self)@.len() + 1 <= MAX_MSG_BYTES,
        ensures
            final(self).wf(),
            final(self)@ == old(self)@ + seq![byte],
    {
        let ghost m = self.msg@;
        let ghost bl = self.block_len as int;
        let r = self.buffer.push(byte);
        self.msg = Ghost(m + seq![byte]);
        match r {
            Some(blk) => {
                compress(&mut self.h, &blk);
                self.block_len = self.block_len + 1;
                proof {
                    assert(m.take(64 * bl) + blk@ =~= self.msg@.take(64 * (bl + 1)));
                    lemma_fold_blocks_snoc(c256(), iv256(), m.take(64 * bl), blk@);
                    assert(self.buffer.pending() =~= self.msg@.skip(64 * (bl + 1)));
                }
            },
            None => {
                proof {
                    assert(self.msg@.take(64 * bl) =~= m.take(64 * bl));
                    assert(self.buffer.pending() =~= self.msg@.skip(64 * bl));
                }
            },
        }
    }

    /// Absorb a byte slice; only the concatenation of everything absorbed
    /// matters, not its chunking.
    pub fn update(&mut self, data: &[u8])
        requires
            old(self).wf(),
            old(self)@.len() + data@.len() <= MAX_MSG_BYTES,
        ensures
            final(self).wf(),
            final(self)@ == old(self)@ + data@,
    {
        let mut i: usize = 0;
        while i < data.len()
            invariant
                self.wf(),
                i <= data@.len(),
                self@ == old(self)@ + data@.take(i as int),
                old(self)@.len() + data@.len() <= MAX_MSG_BYTES,
            decreases data@.len() - i,
        {
            self.push_byte(data[i]);
            proof {
                assert(old(self)@ + data@.take(i as int) + seq![data@[i as int]] =~= old(self)@
                    + data@.take(i as int + 1));
            }
            i = i + 1;
        }
        proof {
            assert(data@.take(data@.len() as int) =~= data@);
        }
    }

    /// Absorb whole blocks directly, without the buffer.
    pub fn update_blocks(&mut self, blocks: &[u8])
        requires
            old(self).wf(),
            old(self)@.len() % 64 == 0,
            blocks@.len() % 64 == 0,
            old(self)@.len() + blocks@.len() <= MAX_MSG_BYTES,
        ensures
            final(self).wf(),
            final(self)@ == old(self)@ + blocks@,
    {
        let total = blocks.len();
        let n = total / 64;
        let mut k: usize = 0;
        while k < n
            invariant
                self.wf(),
                k <= n,
                total == blocks@.len(),
                n == total / 64,
                blocks@.len() % 64 == 0,
                self@ == old(self)@ + blocks@.take(64 * k as int),
                self@.len() % 64 == 0,
                old(self)@.len() + blocks@.len() <= MAX_MSG_BYTES,
            decreases n - k,
        {
            let mut blk = [0u8; 64];
            let mut t: usize = 0;
            while t < 64
                invariant
                    t <= 64,
                    k < n,
                    total == blocks@.len(),
                    n == total / 64,
                    blk@.len() == 64,
                    blk@.take(t as int) == blocks@.subrange(
                        64 * k as int,
                        64 * k as int + t as int,
                    ),
                decreases 64 - t,
            {
                proof {
                    assert(64 * (n as int) <= total as int);
                    assert(64 * (k as int) + (t as int) < 64 * (n as int));
                }
                blk[t] = blocks[64 * k + t];
                proof {
                    assert(blk@.take(t as int + 1) =~= blocks@.subrange(
                        64 * k as int,
                        64 * k as int + t as int + 1,
                    ));
                }
                t = t + 1;
            }
            self.absorb_block(&blk);
            proof {
                assert(blk@ =~= blocks@.subrange(64 * k as int, 64 * (k as int + 1)));
                assert(old(self)@ + blocks@.take(64 * k as int) + blk@ =~= old(self)@
                    + blocks@.take(64 * (k as int + 1)));
            }
            k = k + 1;
        }
        proof {
            assert(blocks@.take(64 * (blocks@.len() as int / 64)) =~= blocks@);
        }
    }

    /// Absorb one block while the buffer is empty.
    fn absorb_block(&mut self, blk: &[u8; 64])
        requires
            old(self).wf(),
            old(self)@.len() % 64 == 0,
            old(self)@.len() + 64 <= MAX_MSG_BYTES,
        ensures
            final(self).wf(),
            final(self)@ == old(self)@ + blk@,
    {
        let ghost m = self.msg@;
        let ghost bl = self.block_len as int;
        proof {
            self.buffer.lemma_pending_len();
            vstd::arithmetic::div_mod::lemma_mod_multiples_vanish(
                bl,
                self.buffer.pending().len() as int,
                64,
            );
            vstd::arithmetic::div_mod::lemma_small_mod(self.buffer.pending().len(), 64);
            assert(self.buffer.pending().len() == 0);
        }
        compress(&mut self.h, blk);
        self.block_len = self.block_len + 1;
        self.msg = Ghost(m + blk@);
        proof {
            assert(m.take(64 * bl) =~= m);
            assert(m + blk@ =~= self.msg@.take(64 * (bl + 1)));
            lemma_fold_blocks_snoc(c256(), iv256(), m, blk@);
            assert(self.buffer.pending() =~= self.msg@.skip(64 * (bl + 1)));
        }
    }

    /// Compute the digest of everything absorbed so far; the hasher itself
    /// is left untouched and can keep absorbing.
    #[verifier::rlimit(60)]
    pub fn finalize(&self) -> (r: [u8; 32])
        requires
            self.wf(),
        ensures
            r@ == rmd256_digest(self@),
    {
        let plen = self.buffer.len();
        let bit_len: u64 = 8 * (64 * self.block_len + plen as u64);
        let (b1, b2opt) = self.buffer.md_pad_blocks(bit_len);
        let mut h = self.h;
        let ghost full = self.msg@.take(64 * (self.block_len as int));
        proof {
            vstd::arithmetic::div_mod::lemma_mod_multiples_vanish(
                self.block_len as int,
                self.buffer.pending().len() as int + 9,
                64,
            );
            assert(md_pad_zeros(self.msg@.len()) == md_pad_zeros(self.buffer.pending().len()));
            assert(md_bit_len(self.msg@.len()) == bit_len);
        }
        compress(&mut h, &b1);
        match b2opt {
            Some(b2) => {
                compress(&mut h, &b2);
                proof {
                    lemma_fold_blocks_snoc(c256(), iv256(), full, b1@);
                    lemma_fold_blocks_snoc(c256(), iv256(), full + b1@, b2@);
                    assert(self.msg@ =~= full + self.buffer.pending());
                    assert(full + b1@ + b2@ =~= full + (b1@ + b2@));
                    assert(full + (b1@ + b2@) =~= md_pad(self.msg@));
                    assert(h@ == fold_blocks(c256(), iv256(), md_pad(self.msg@)));
                }
            },
            None => {
                proof {
                    lemma_fold_blocks_snoc(c256(), iv256(), full, b1@);
                    assert(full + b1@ =~= md_pad(self.msg@));
                    assert(h@ == fold_blocks(c256(), iv256(), md_pad(self.msg@)));
                }
            },
        }
        store_words(&h)
    }

    /// Forget everything absorbed and return to the initial chaining value.
    pub fn reset(&mut self)
        ensures
            final(self).wf(),
            final(self)@ == Seq::<u8>::empty(),
    {
        self.h = H256;
        self.block_len = 0;
        self.buffer.clear();
        self.msg = Ghost(Seq::empty());
        proof {
            assert(self.msg@.take(0) =~= Seq::<u8>::empty());
            assert(self.msg@.skip(0) =~= Seq::<u8>::empty());
        }
    }

    /// The algorithm's name, for diagnostics only.
    pub fn name(&self) -> (r: &'static str)
        ensures
            r@ == "Ripemd256"@,
    {
        "Ripemd256"
    }
}

impl Default for Ripemd256Core {
    /// A fresh hasher, holding the initial chaining value and no input.
    fn default() -> (r: Self)
        ensures
            r.wf(),
            r@ == Seq::<u8>::empty(),
    {
        let r = Ripemd256Core {
            h: H256,
            block_len: 0,
            buffer: BlockBuffer::new(),
            msg: Ghost(Seq::empty()),
        };
        proof {
            assert(r.msg@.take(0) =~= Seq::<u8>::empty());
            assert(r.msg@.skip(0) =~= Seq::<u8>::empty());
        }
        r
    }
}

} // verus!
