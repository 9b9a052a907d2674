//! Streebog-512: the 12-round LPSX compression engine started from the
//! all-zero initial value, emitting the full 64-byte chaining value.

use vstd::prelude::*;

use crate::blocks::{zero_bytes, BlockBuffer, MAX_MSG_BYTES};
use crate::laws::{blocks_sum, le_nat, lemma_fold_counters, lemma_le_nat_zeros, m512};
use crate::streebog::{
    add512, g64, iv512, small_n, stb_final_h, stb_full, stb_tail, StreebogState,
};

verus! {

/// The Streebog-512 digest of a byte sequence.
pub open spec fn stb512_digest(m: Seq<u8>) -> Seq<u8> {
    stb_final_h(iv512(), m)
}

/// Streaming Streebog-512 hasher.
#[derive(Clone, Copy)]
pub struct Streebog512Core {
    state: StreebogState,
    block_len: u64,
    buffer: BlockBuffer,
    msg: Ghost<Seq<u8>>,
}

impl View for Streebog512Core {
    type V = Seq<u8>;

    /// A hasher is abstractly the byte sequence absorbed since the last
    /// reset.
    closed spec fn view(&self) -> Seq<u8> {
        self.msg@
    }
}

impl Streebog512Core {
    /// The chaining value, counter and checksum always equal the
    /// absorption fold over the absorbed full blocks, with the trailing
    /// partial block buffered.
    pub closed spec fn wf(self) -> bool {
        &&& self.buffer.wf()
        &&& self.msg@.len() <= MAX_MSG_BYTES
        &&& self.msg@.len() == 64 * (self.block_len as int) + self.buffer.pending().len()
        &&& self.state.is_fold_of(iv512(), self.msg@.take(64 * (self.block_len as int)))
        &&& self.buffer.pending() == self.msg@.skip(64 * (self.block_len as int))
    }

    /// The bit counter, for stating the accumulator laws.
    pub closed spec fn counter_n(self) -> Seq<u8> {
        self.state.n@
    }

    /// The running block checksum, for stating the accumulator laws.
    pub closed spec fn checksum(self) -> Seq<u8> {
        self.state.sigma@
    }

    /// Absorb one byte.
    fn push_byte(&mut self, byte: u8)
        requires
            old(self).wf(),
            old(self)@.len() + 1 <= MAX_MSG_BYTES,
        ensures
            final(self).wf(),
            final(self)@ == old(self)@ + seq![byte],
    {
        let ghost m = self.msg@;
        let ghost bl = self.block_len as int;
        let r = self.buffer.push(byte);
        self.msg = Ghost(m + seq![byte]);
        match r {
            Some(blk) => {
                self.state.compress_block(&blk, Ghost(iv512()), Ghost(m.take(64 * bl)));
                self.block_len = self.block_len + 1;
                proof {
                    assert(m.take(64 * bl) + blk@ =~= self.msg@.take(64 * (bl + 1)));
                    assert(self.buffer.pending() =~= self.msg@.skip(64 * (bl + 1)));
                }
            },
            None => {
                proof {
                    assert(self.msg@.take(64 * bl) =~= m.take(64 * bl));
                    assert(self.buffer.pending() =~= self.msg@.skip(64 * bl));
                }
            },
        }
    }

    /// Absorb a byte slice; only the concatenation of everything absorbed
    /// matters, not its chunking.
    pub fn update(&mut self, data: &[u8])
        requires
            old(self).wf(),
            old(self)@.len() + data@.len() <= MAX_MSG_BYTES,
        ensures
            final(self).wf(),
            final(self)@ == old(self)@ + data@,
    {
        let mut i: usize = 0;
        while i < data.len()
            invariant
                self.wf(),
                i <= data@.len(),
                self@ == old(self)@ + data@.take(i as int),
                old(self)@.len() + data@.len() <= MAX_MSG_BYTES,
            decreases data@.len() - i,
        {
            self.push_byte(data[i]);
            proof {
                assert(old(self)@ + data@.take(i as int) + seq![data@[i as int]] =~= old(self)@
                    + data@.take(i as int + 1));
            }
            i = i + 1;
        }
        proof {
            assert(data@.take(data@.len() as int) =~= data@);
        }
    }

    /// Absorb whole blocks directly, without the buffer.
    pub fn update_blocks(&mut self, blocks: &[u8])
        requires
            old(self).wf(),
            old(self)@.len() % 64 == 0,
            blocks@.len() % 64 == 0,
            old(self)@.len() + blocks@.len() <= MAX_MSG_BYTES,
        ensures
            final(self).wf(),
            final(self)@ == old(self)@ + blocks@,
    {
        let total = blocks.len();
        let n = total / 64;
        let mut k: usize = 0;
        while k < n
            invariant
                self.wf(),
                k <= n,
                total == blocks@.len(),
                n == total / 64,
                blocks@.len() % 64 == 0,
                self@ == old(self)@ + blocks@.take(64 * k as int),
                self@.len() % 64 == 0,
                old(self)@.len() + blocks@.len() <= MAX_MSG_BYTES,
            decreases n - k,
        {
            let mut blk = [0u8; 64];
            let mut t: usize = 0;
            while t < 64
                invariant
                    t <= 64,
                    k < n,
                    total == blocks@.len(),
                    n == total / 64,
                    blk@.len() == 64,
                    blk@.take(t as int) == blocks@.subrange(
                        64 * k as int,
                        64 * k as int + t as int,
                    ),
                decreases 64 - t,
            {
                proof {
                    assert(64 * (n as int) <= total as int);
                    assert(64 * (k as int) + (t as int) < 64 * (n as int));
                }
                blk[t] = blocks[64 * k + t];
                proof {
                    assert(blk@.take(t as int + 1) =~= blocks@.subrange(
                        64 * k as int,
                        64 * k as int + t as int + 1,
                    ));
                }
                t = t + 1;
            }
            self.absorb_block(&blk);
            proof {
                assert(blk@ =~= blocks@.subrange(64 * k as int, 64 * (k as int + 1)));
                assert(old(self)@ + blocks@.take(64 * k as int) + blk@ =~= old(self)@
                    + blocks@.take(64 * (k as int + 1)));
            }
            k = k + 1;
        }
        proof {
            assert(blocks@.take(64 * (blocks@.len() as int / 64)) =~= blocks@);
        }
    }

    /// Absorb one block while the buffer is empty.
    fn absorb_block(&mut self, blk: &[u8; 64])
        requires
            old(self).wf(),
            old(self)@.len() % 64 == 0,
            old(self)@.len() + 64 <= MAX_MSG_BYTES,
        ensures
            final(self).wf(),
            final(self)@ == old(self)@ + blk@,
    {
        let ghost m = self.msg@;
        let ghost bl = self.block_len as int;
        proof {
            self.buffer.lemma_pending_len();
            vstd::arithmetic::div_mod::lemma_mod_multiples_vanish(
                bl,
                self.buffer.pending().len() as int,
                64,
            );
            vstd::arithmetic::div_mod::lemma_small_mod(self.buffer.pending().len(), 64);
            assert(self.buffer.pending().len() == 0);
            assert(m.take(64 * bl) =~= m);
        }
        self.state.compress_block(blk, Ghost(iv512()), Ghost(m));
        self.block_len = self.block_len + 1;
        self.msg = Ghost(m + blk@);
        proof {
            assert(m + blk@ =~= self.msg@.take(64 * (bl + 1)));
            assert(self.buffer.pending() =~= self.msg@.skip(64 * (bl + 1)));
        }
    }

    /// Compute the digest of everything absorbed so far; the hasher itself
    /// is left untouched and can keep absorbing.
    pub fn finalize(&self) -> (r: [u8; 64])
        requires
            self.wf(),
        ensures
            r@ == stb512_digest(self@),
    {
        let pb = self.buffer.stb_pad_block();
        let plen = self.buffer.len();
        let mut st = self.state;
        proof {
            self.buffer.lemma_pending_len();
            vstd::arithmetic::div_mod::lemma_mod_multiples_vanish(
                self.block_len as int,
                self.buffer.pending().len() as int,
                64,
            );
            vstd::arithmetic::div_mod::lemma_small_mod(self.buffer.pending().len(), 64);
            assert(self.msg@.len() as int % 64 == self.buffer.pending().len());
            assert(stb_full(self.msg@) =~= self.msg@.take(64 * (self.block_len as int)));
            assert(stb_tail(self.msg@) =~= self.buffer.pending());
            assert(pb@ == stb_tail(self.msg@) + seq![1u8] + zero_bytes(
                (63 - (self.msg@.len() as int % 64)) as nat,
            ));
        }
        let h1 = g64(&st.h, &st.n, &pb);
        let mut nb = [0u8; 64];
        let rbits: usize = 8 * plen;
        nb[0] = (rbits % 256) as u8;
        nb[1] = (rbits / 256) as u8;
        proof {
            assert(nb@ =~= small_n((8 * (self.msg@.len() as int % 64)) as nat));
        }
        st.h = h1;
        add512(&mut st.n, &nb);
        add512(&mut st.sigma, &pb);
        let zero = [0u8; 64];
        let h2 = g64(&st.h, &zero, &st.n);
        let h3 = g64(&h2, &zero, &st.sigma);
        proof {
            assert(zero@ =~= zero_bytes(64));
            assert(h3@ == stb512_digest(self@));
        }
        h3
    }

    /// Forget everything absorbed and return to the initial state.
    pub fn reset(&mut self)
        ensures
            final(self).wf(),
            final(self)@ == Seq::<u8>::empty(),
    {
        self.state = StreebogState { h: [0u8; 64], n: [0u8; 64], sigma: [0u8; 64] };
        self.block_len = 0;
        self.buffer.clear();
        self.msg = Ghost(Seq::empty());
        proof {
            assert(self.msg@.take(0) =~= Seq::<u8>::empty());
            assert(self.msg@.skip(0) =~= Seq::<u8>::empty());
            assert(self.state.h@ =~= iv512());
            assert(self.state.n@ =~= zero_bytes(64));
            assert(self.state.sigma@ =~= zero_bytes(64));
            assert(self.state.is_fold_of(iv512(), self.msg@.take(0)));
        }
    }

    /// After a block-aligned input of `k` whole blocks, the bit counter
    /// holds 512 times `k` and the checksum holds the sum of the blocks,
    /// both modulo 2 to the power 512.
    pub proof fn lemma_counters(self)
        requires
            self.wf(),
            self@.len() % 64 == 0,
        ensures
            le_nat(self.counter_n()) as int == (512 * (self@.len() as int / 64)) % m512(),
            le_nat(self.checksum()) as int == blocks_sum(self@) as int % m512(),
    {
        self.buffer.lemma_pending_len();
        vstd::arithmetic::div_mod::lemma_mod_multiples_vanish(
            self.block_len as int,
            self.buffer.pending().len() as int,
            64,
        );
        vstd::arithmetic::div_mod::lemma_small_mod(self.buffer.pending().len(), 64);
        assert(self.buffer.pending().len() == 0);
        assert(self@.take(64 * (self.block_len as int)) =~= self@);
        lemma_fold_counters(iv512(), zero_bytes(64), zero_bytes(64), self@);
        lemma_le_nat_zeros(zero_bytes(64));
    }

    /// The algorithm's name, for diagnostics only.
    pub fn name(&self) -> (r: &'static str)
        ensures
            r@ == "Streebog512"@,
    {
        "Streebog512"
    }
}

impl Default for Streebog512Core {
    /// A fresh hasher, holding the all-zero initial value and no input.
    fn default() -> (r: Self)
        ensures
            r.wf(),
            r@ == Seq::<u8>::empty(),
    {
        let r = Streebog512Core {
            state: StreebogState { h: [0u8; 64], n: [0u8; 64], sigma: [0u8; 64] },
            block_len: 0,
            buffer: BlockBuffer::new(),
            msg: Ghost(Seq::empty()),
        };
        proof {
            assert(r.msg@.take(0) =~= Seq::<u8>::empty());
            assert(r.msg@.skip(0) =~= Seq::<u8>::empty());
            assert(r.state.h@ =~= iv512());
            assert(r.state.n@ =~= zero_bytes(64));
            assert(r.state.sigma@ =~= zero_bytes(64));
            assert(r.state.is_fold_of(iv512(), r.msg@.take(0)));
        }
        r
    }
}

} // verus!
