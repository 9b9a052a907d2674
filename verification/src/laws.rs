//! The library-wide laws: determinism, chunking-invariance and
//! reset-equivalence of every digest, and the numeric reading of
//! Streebog's 512-bit accumulators.

use vstd::prelude::*;

use vstd::arithmetic::div_mod::{
    lemma_add_mod_noop_right, lemma_fundamental_div_mod, lemma_mod_multiples_vanish,
    lemma_small_mod,
};
use vstd::arithmetic::power::{lemma_pow_multiplies, lemma_pow_positive, pow};
use vstd::arithmetic::power2::{lemma_pow2, pow2};

use crate::blocks::fold_blocks;
use crate::ripemd160::rmd160_digest;
use crate::ripemd256::rmd256_digest;
use crate::ripemd320::rmd320_digest;
use crate::streebog::{add_le, small_n, stb_step, sum512};
use crate::streebog256::stb256_digest;
use crate::streebog512::stb512_digest;

verus! {

/// The numeric value of a byte sequence read as a little-endian integer.
pub open spec fn le_nat(s: Seq<u8>) -> nat
    decreases s.len(),
{
    if s.len() == 0 {
        0
    } else {
        (s.first() + 256 * le_nat(s.drop_first())) as nat
    }
}

/// The plain sum of the 512-bit values of the whole blocks of a message.
pub open spec fn blocks_sum(m: Seq<u8>) -> nat
    decreases m.len(),
{
    if m.len() < 64 {
        0
    } else {
        (le_nat(m.take(64)) + blocks_sum(m.skip(64))) as nat
    }
}

/// The modulus of Streebog's accumulators, written over the byte radix.
pub open spec fn m512() -> int {
    pow(256, 64)
}

/// That modulus is 2 to the power 512.
pub proof fn lemma_m512_is_pow2_512()
    ensures
        m512() == pow2(512),
{
    assert(pow(2, 8) == 256) by {
        reveal_with_fuel(pow, 9);
    }
    lemma_pow_multiplies(2, 8, 64);
    lemma_pow2(512);
    assert(pow(pow(2, 8), 64) == pow(2, 512));
}

/// Determinism: every digest is a function of the absorbed bytes alone, so
/// equal messages have equal digests, for each of the five algorithms.
pub proof fn lemma_digests_deterministic(m1: Seq<u8>, m2: Seq<u8>)
    requires
        m1 == m2,
    ensures
        rmd160_digest(m1) == rmd160_digest(m2),
        rmd256_digest(m1) == rmd256_digest(m2),
        rmd320_digest(m1) == rmd320_digest(m2),
        stb256_digest(m1) == stb256_digest(m2),
        stb512_digest(m1) == stb512_digest(m2),
{
}

/// Chunking-invariance: absorbing a message in two chunks split at any
/// point digests exactly like absorbing it whole, for each of the five
/// algorithms; arbitrary chunkings follow by induction, since `update`
/// guarantees that a hasher's state is the concatenation of everything
/// absorbed.
pub proof fn lemma_chunking_invariance(m: Seq<u8>, k: int)
    requires
        0 <= k <= m.len(),
    ensures
        rmd160_digest(m.take(k) + m.skip(k)) == rmd160_digest(m),
        rmd256_digest(m.take(k) + m.skip(k)) == rmd256_digest(m),
        rmd320_digest(m.take(k) + m.skip(k)) == rmd320_digest(m),
        stb256_digest(m.take(k) + m.skip(k)) == stb256_digest(m),
        stb512_digest(m.take(k) + m.skip(k)) == stb512_digest(m),
{
    assert(m.take(k) + m.skip(k) =~= m);
}

/// Reset-equivalence: `reset` leaves a hasher holding the empty byte
/// sequence, exactly like a fresh one, so absorbing `m` after either gives
/// the view `m` and hence the same digest.
pub proof fn lemma_reset_equivalence(m: Seq<u8>)
    ensures
        Seq::<u8>::empty() + m == m,
{
    assert(Seq::<u8>::empty() + m =~= m);
}

/// Little-endian addition keeps the length of its operands.
pub proof fn lemma_add_le_len(a: Seq<u8>, b: Seq<u8>, c: nat)
    requires
        a.len() == b.len(),
    ensures
        add_le(a, b, c).len() == a.len(),
    decreases a.len(),
{
    if a.len() > 0 {
        lemma_add_le_len(a.drop_first(), b.drop_first(), ({
            let s = a.first() + b.first() + c;
            (s / 256) as nat
        }));
    }
}

/// A byte sequence's value is below the radix to the power of its length.
pub proof fn lemma_le_nat_bound(s: Seq<u8>)
    ensures
        le_nat(s) < pow(256, s.len()),
    decreases s.len(),
{
    reveal(pow);
    if s.len() == 0 {
    } else {
        lemma_le_nat_bound(s.drop_first());
        let p1 = pow(256, (s.len() - 1) as nat);
        assert(pow(256, s.len()) == 256 * p1);
        assert(s.first() + 256 * le_nat(s.drop_first()) <= 255 + 256 * (p1 - 1)) by {
            assert(le_nat(s.drop_first()) <= p1 - 1);
            assert(256 * le_nat(s.drop_first()) <= 256 * (p1 - 1)) by (nonlinear_arith)
                requires
                    le_nat(s.drop_first()) <= p1 - 1,
            ;
        }
    }
}

/// An all-zero byte sequence has value zero.
pub proof fn lemma_le_nat_zeros(s: Seq<u8>)
    requires
        forall|i: int| 0 <= i < s.len() ==> s[i] == 0,
    ensures
        le_nat(s) == 0,
    decreases s.len(),
{
    if s.len() > 0 {
        lemma_le_nat_zeros(s.drop_first());
    }
}

/// The small counter block encodes its value.
pub proof fn lemma_small_n_value(r: nat)
    requires
        r < 65536,
    ensures
        le_nat(small_n(r)) == r,
{
    let t = small_n(r);
    let t2 = t.drop_first().drop_first();
    assert(forall|i: int| 0 <= i < t2.len() ==> t2[i] == 0);
    lemma_le_nat_zeros(t2);
    lemma_small_mod(r / 256, 256);
    assert(le_nat(t.drop_first()) == r / 256 + 256 * 0);
    lemma_fundamental_div_mod(r as int, 256);
    assert(le_nat(t) == r % 256 + 256 * (r / 256));
}

/// Little-endian addition computes addition modulo the radix to the power
/// of the length.
pub proof fn lemma_add_le_nat(a: Seq<u8>, b: Seq<u8>, c: nat)
    requires
        a.len() == b.len(),
        c <= 1,
    ensures
        le_nat(add_le(a, b, c)) as int == (le_nat(a) + le_nat(b) + c) as int % pow(256, a.len()),
    decreases a.len(),
{
    reveal(pow);
    if a.len() == 0 {
        let x = (le_nat(a) + le_nat(b) + c) as int;
        lemma_small_mod(0, 1);
        lemma_mod_multiples_vanish(x, 0, 1);
        assert(x % 1 == 0);
    } else {
        let s = a.first() + b.first() + c;
        let a1 = a.drop_first();
        let b1 = b.drop_first();
        let c1 = (s / 256) as nat;
        let r0 = (s % 256) as u8;
        lemma_add_le_nat(a1, b1, c1);
        let p1 = pow(256, a1.len());
        lemma_pow_positive(256, a1.len());
        assert(pow(256, a.len()) == 256 * p1);
        let res = add_le(a, b, c);
        assert(res == seq![r0] + add_le(a1, b1, c1));
        assert(res.first() == r0);
        assert(res.drop_first() =~= add_le(a1, b1, c1));
        let xx = (le_nat(a1) + le_nat(b1) + c1) as int;
        assert(le_nat(res) as int == s % 256 + 256 * (xx % p1));
        let q = xx / p1;
        let r = xx % p1;
        lemma_fundamental_div_mod(xx, p1);
        assert(s as int == 256 * (s / 256) + s % 256) by {
            lemma_fundamental_div_mod(s as int, 256);
        }
        assert((le_nat(a) + le_nat(b) + c) as int == s % 256 + 256 * xx);
        assert(256 * xx == (256 * p1) * q + 256 * r) by (nonlinear_arith)
            requires
                xx == p1 * q + r,
        ;
        let y = s % 256 + 256 * r;
        assert(y < 256 * p1) by {
            assert(256 * r <= 256 * (p1 - 1)) by (nonlinear_arith)
                requires
                    r <= p1 - 1,
            ;
        }
        lemma_mod_multiples_vanish(q, y, 256 * p1);
        lemma_small_mod(y as nat, (256 * p1) as nat);
        assert((s % 256 + 256 * xx) % (256 * p1) == y);
    }
}

/// Folding the absorption step over a block-aligned message advances the
/// bit counter by 512 per block and the checksum by each block's value,
/// both modulo 2 to the power 512.
pub proof fn lemma_fold_counters(iv: Seq<u8>, n0: Seq<u8>, s0: Seq<u8>, m: Seq<u8>)
    requires
        m.len() % 64 == 0,
        n0.len() == 64,
        s0.len() == 64,
    ensures
        ({
            let st = fold_blocks(stb_step(), (iv, n0, s0), m);
            &&& st.1.len() == 64
            &&& st.2.len() == 64
            &&& le_nat(st.1) as int == (le_nat(n0) as int + 512 * (m.len() as int / 64)) % m512()
            &&& le_nat(st.2) as int == (le_nat(s0) as int + blocks_sum(m) as int) % m512()
        }),
    decreases m.len(),
{
    let st = fold_blocks(stb_step(), (iv, n0, s0), m);
    lemma_pow_positive(256, 64);
    if m.len() == 0 {
        lemma_le_nat_bound(n0);
        lemma_le_nat_bound(s0);
        lemma_small_mod(le_nat(n0), pow(256, 64) as nat);
        lemma_small_mod(le_nat(s0), pow(256, 64) as nat);
    } else {
        let blk = m.take(64);
        let rest = m.skip(64);
        let h1 = crate::streebog::g_fn(iv, n0, blk);
        let n1 = sum512(n0, small_n(512));
        let s1 = sum512(s0, blk);
        assert(stb_step()((iv, n0, s0), blk) == (h1, n1, s1));
        assert(st == fold_blocks(stb_step(), (h1, n1, s1), rest));
        assert(small_n(512).len() == 64);
        lemma_add_le_len(n0, small_n(512), 0);
        lemma_add_le_len(s0, blk, 0);
        lemma_small_n_value(512);
        lemma_add_le_nat(n0, small_n(512), 0);
        lemma_add_le_nat(s0, blk, 0);
        assert(rest.len() % 64 == 0);
        lemma_fold_counters(h1, n1, s1, rest);
        let k = m.len() as int / 64;
        assert(rest.len() as int / 64 == k - 1);
        assert(le_nat(st.1) as int == (le_nat(n1) as int + 512 * (k - 1)) % m512());
        assert(le_nat(n1) as int == (le_nat(n0) as int + 512) % m512());
        lemma_add_mod_noop_right(512 * (k - 1), (le_nat(n0) + 512) as int, m512());
        assert(le_nat(st.1) as int == (le_nat(n0) as int + 512 * k) % m512());
        assert(blocks_sum(m) == le_nat(blk) + blocks_sum(rest));
        lemma_add_mod_noop_right(blocks_sum(rest) as int, (le_nat(s0) + le_nat(blk)) as int,
            m512());
        assert(le_nat(st.2) as int == (le_nat(s0) as int + blocks_sum(m) as int) % m512());
    }
}

} // verus!
