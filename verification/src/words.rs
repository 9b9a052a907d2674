//! Shared 32-bit word helpers: little-endian loads and stores, rotation and
//! wrapping addition, together with their specification-level definitions.

use vstd::prelude::*;

verus! {

/// Wrapping addition of two 32-bit words, as used by every RIPEMD round.
pub open spec fn wadd(x: u32, y: u32) -> u32 {
    vstd::wrapping::u32_specs::wrapping_add(x, y)
}

/// Left rotation of a 32-bit word by `n` places; amounts outside `1..=31`
/// leave the word unchanged.
pub open spec fn rotl(x: u32, n: int) -> u32 {
    if 0 < n < 32 {
        (x << n) | (x >> (32 - n))
    } else {
        x
    }
}

/// The 32-bit word stored little-endian at offset `i` of the byte sequence `b`.
pub open spec fn le32(b: Seq<u8>, i: int) -> u32 {
    (b[i] as u32) | ((b[i + 1] as u32) << 8) | ((b[i + 2] as u32) << 16) | ((b[i + 3] as u32)
        << 24)
}

/// The four bytes of a 32-bit word in little-endian order.
pub open spec fn le32_bytes(x: u32) -> Seq<u8> {
    seq![(x & 0xff) as u8, ((x >> 8) & 0xff) as u8, ((x >> 16) & 0xff) as u8, ((x >> 24) & 0xff) as u8]
}

/// The eight bytes of a 64-bit word in little-endian order.
pub open spec fn le64_bytes(x: u64) -> Seq<u8> {
    seq![
        (x & 0xff) as u8,
        ((x >> 8) & 0xff) as u8,
        ((x >> 16) & 0xff) as u8,
        ((x >> 24) & 0xff) as u8,
        ((x >> 32) & 0xff) as u8,
        ((x >> 40) & 0xff) as u8,
        ((x >> 48) & 0xff) as u8,
        ((x >> 56) & 0xff) as u8,
    ]
}

/// The 64-bit word stored little-endian at offset `i` of the byte sequence `b`.
pub open spec fn le64(b: Seq<u8>, i: int) -> u64 {
    (b[i] as u64) | ((b[i + 1] as u64) << 8) | ((b[i + 2] as u64) << 16) | ((b[i + 3] as u64)
        << 24) | ((b[i + 4] as u64) << 32) | ((b[i + 5] as u64) << 40) | ((b[i + 6] as u64)
        << 48) | ((b[i + 7] as u64) << 56)
}

/// Load the little-endian 64-bit word at offset `off` of `b`.
pub fn load_le64(b: &[u8; 64], off: usize) -> (r: u64)
    requires
        off + 8 <= 64,
    ensures
        r == le64(b@, off as int),
{
    (b[off] as u64) | ((b[off + 1] as u64) << 8) | ((b[off + 2] as u64) << 16) | ((b[off + 3]
        as u64) << 24) | ((b[off + 4] as u64) << 32) | ((b[off + 5] as u64) << 40) | ((b[off + 6]
        as u64) << 48) | ((b[off + 7] as u64) << 56)
}

/// A sequence of 32-bit words serialized to bytes, each little-endian.
pub open spec fn ser_words(h: Seq<u32>) -> Seq<u8>
    decreases h.len(),
{
    if h.len() == 0 {
        Seq::empty()
    } else {
        le32_bytes(h.first()) + ser_words(h.drop_first())
    }
}

/// Serialization emits the last word after everything before it.
pub proof fn lemma_ser_words_snoc(h: Seq<u32>)
    requires
        h.len() > 0,
    ensures
        ser_words(h) == ser_words(h.drop_last()) + le32_bytes(h.last()),
    decreases h.len(),
{
    if h.len() == 1 {
        assert(h.drop_first() =~= Seq::<u32>::empty());
        assert(h.drop_last() =~= Seq::<u32>::empty());
        assert(ser_words(h) =~= ser_words(h.drop_last()) + le32_bytes(h.last()));
    } else {
        lemma_ser_words_snoc(h.drop_first());
        assert(h.drop_first().drop_last() =~= h.drop_last().drop_first());
        assert(h.drop_first().last() == h.last());
        assert(h.drop_last().first() == h.first());
        assert(ser_words(h) == le32_bytes(h.first()) + ser_words(h.drop_first()));
        assert(ser_words(h.drop_last()) == le32_bytes(h.drop_last().first()) + ser_words(
            h.drop_last().drop_first(),
        ));
        assert(le32_bytes(h.first()) + (ser_words(h.drop_first().drop_last()) + le32_bytes(
            h.last(),
        )) =~= (le32_bytes(h.first()) + ser_words(h.drop_first().drop_last())) + le32_bytes(
            h.last(),
        ));
    }
}

/// Wrapping 32-bit addition.
pub fn add32(x: u32, y: u32) -> (r: u32)
    ensures
        r == wadd(x, y),
{
    x.wrapping_add(y)
}

/// Left-rotate a 32-bit word by `n & 31` places.
pub fn rotl32(x: u32, n: u32) -> (r: u32)
    ensures
        r == rotl(x, (n & 31) as int),
{
    let s = n & 31;
    proof {
        assert(n & 31 < 32) by (bit_vector);
    }
    if s == 0 {
        x
    } else {
        (x << s) | (x >> (32 - s))
    }
}

/// Load the little-endian 32-bit word at offset `off` of `b`.
pub fn load_le32(b: &[u8], off: usize) -> (r: u32)
    requires
        off + 4 <= b@.len(),
    ensures
        r == le32(b@, off as int),
{
    (b[off] as u32) | ((b[off + 1] as u32) << 8) | ((b[off + 2] as u32) << 16) | ((b[off + 3]
        as u32) << 24)
}

} // verus!
