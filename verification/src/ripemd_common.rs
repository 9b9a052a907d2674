//! Round machinery shared by the three RIPEMD variants: the five nonlinear
//! boolean functions, the per-round word-selection and rotation tables, the
//! round constants, and the two-line round networks.
//!
//! RIPEMD-160 and RIPEMD-320 use all 80 entries of each table; RIPEMD-256
//! uses the first 64 (four rounds), with its own right-line constants.

use vstd::prelude::*;

use crate::words::{le32, rotl, wadd};

verus! {

/// Left-line word-selection table: which of the sixteen message words each
/// step consumes.
pub const RL: [u8; 80] = [
    0, 1, 2, 3, 4, 5, 6, 7, 8, 9, 10, 11, 12, 13, 14, 15,
    7, 4, 13, 1, 10, 6, 15, 3, 12, 0, 9, 5, 2, 14, 11, 8,
    3, 10, 14, 4, 9, 15, 8, 1, 2, 7, 0, 6, 13, 11, 5, 12,
    1, 9, 11, 10, 0, 8, 12, 4, 13, 3, 7, 15, 14, 5, 6, 2,
    4, 0, 5, 9, 7, 12, 2, 10, 14, 1, 3, 8, 11, 6, 15, 13,
];

/// Right-line word-selection table.
pub const RR: [u8; 80] = [
    5, 14, 7, 0, 9, 2, 11, 4, 13, 6, 15, 8, 1, 10, 3, 12,
    6, 11, 3, 7, 0, 13, 5, 10, 14, 15, 8, 12, 4, 9, 1, 2,
    15, 5, 1, 3, 7, 14, 6, 9, 11, 8, 12, 2, 10, 0, 4, 13,
    8, 6, 4, 1, 3, 11, 15, 0, 5, 12, 2, 13, 9, 7, 10, 14,
    12, 15, 10, 4, 1, 5, 8, 7, 6, 2, 13, 14, 0, 3, 9, 11,
];

/// Left-line rotation amounts.
pub const SL: [u8; 80] = [
    11, 14, 15, 12, 5, 8, 7, 9, 11, 13, 14, 15, 6, 7, 9, 8,
    7, 6, 8, 13, 11, 9, 7, 15, 7, 12, 15, 9, 11, 7, 13, 12,
    11, 13, 6, 7, 14, 9, 13, 15, 14, 8, 13, 6, 5, 12, 7, 5,
    11, 12, 14, 15, 14, 15, 9, 8, 9, 14, 5, 6, 8, 6, 5, 12,
    9, 15, 5, 11, 6, 8, 13, 12, 5, 12, 13, 14, 11, 8, 5, 6,
];

/// Right-line rotation amounts.
pub const SR: [u8; 80] = [
    8, 9, 9, 11, 13, 15, 15, 5, 7, 7, 8, 11, 14, 14, 12, 6,
    9, 13, 15, 7, 12, 8, 9, 11, 7, 7, 12, 7, 6, 15, 13, 11,
    9, 7, 15, 11, 8, 6, 6, 14, 12, 13, 5, 14, 13, 13, 7, 5,
    15, 5, 8, 11, 14, 14, 6, 14, 6, 9, 12, 9, 12, 5, 15, 8,
    8, 5, 12, 9, 12, 5, 14, 6, 8, 13, 6, 5, 15, 13, 11, 11,
];

/// Left-line round constants, one per 16-step round.
pub const KL: [u32; 5] = [0x00000000, 0x5a827999, 0x6ed9eba1, 0x8f1bbcdc, 0xa953fd4e];

/// Right-line round constants of RIPEMD-160 and RIPEMD-320.
pub const KR5: [u32; 5] = [0x50a28be6, 0x5c4dd124, 0x6d703ef3, 0x7a6d76e9, 0x00000000];

/// Right-line round constants of RIPEMD-256 (the four-round network).
pub const KR4: [u32; 4] = [0x50a28be6, 0x5c4dd124, 0x6d703ef3, 0x00000000];

/// The state of one line of the five-word (160/320) round network.
pub type Line5 = (u32, u32, u32, u32, u32);

/// The state of one line of the four-word (256) round network.
pub type Line4 = (u32, u32, u32, u32);

/// The nonlinear boolean function of step `j`: each of the five rounds uses
/// its own function of three words.
pub open spec fn bool_f(j: int, x: u32, y: u32, z: u32) -> u32 {
    if j < 16 {
        x ^ y ^ z
    } else if j < 32 {
        (x & y) | (!x & z)
    } else if j < 48 {
        (x | !y) ^ z
    } else if j < 64 {
        (x & z) | (y & !z)
    } else {
        x ^ (y | !z)
    }
}

/// The message word a table entry selects: word `idx mod 16` of the block,
/// read little-endian.
pub open spec fn xw(b: Seq<u8>, idx: u8) -> u32 {
    le32(b, 4 * ((idx as int) % 16))
}

/// One step of a five-word line: add the boolean function, the selected
/// message word and the round constant into `a`, rotate, add `e`; then
/// rotate `c` by ten and shift the words along.
pub open spec fn step5(st: Line5, fv: u32, x: u32, s: u32, k: u32) -> Line5 {
    let t = wadd(rotl(wadd(wadd(wadd(st.0, fv), x), k), (s & 31) as int), st.4);
    (st.4, t, st.1, rotl(st.2, 10), st.3)
}

/// One step of a four-word line: as `step5` but with no fifth word added
/// and no extra rotation.
pub open spec fn step4(st: Line4, fv: u32, x: u32, s: u32, k: u32) -> Line4 {
    let t = rotl(wadd(wadd(wadd(st.0, fv), x), k), (s & 31) as int);
    (st.3, t, st.1, st.2)
}

/// Executable counterpart of [`bool_f`].
pub fn sel_f(j: usize, x: u32, y: u32, z: u32) -> (r: u32)
    ensures
        r == bool_f(j as int, x, y, z),
{
    if j < 16 {
        x ^ y ^ z
    } else if j < 32 {
        (x & y) | (!x & z)
    } else if j < 48 {
        (x | !y) ^ z
    } else if j < 64 {
        (x & z) | (y & !z)
    } else {
        x ^ (y | !z)
    }
}

/// Executable counterpart of [`step5`].
pub fn exec_step5(st: Line5, fv: u32, x: u32, s: u32, k: u32) -> (r: Line5)
    ensures
        r == step5(st, fv, x, s, k),
{
    let t = crate::words::add32(
        crate::words::rotl32(
            crate::words::add32(crate::words::add32(crate::words::add32(st.0, fv), x), k),
            s,
        ),
        st.4,
    );
    proof {
        assert(10u32 & 31 == 10) by (bit_vector);
    }
    (st.4, t, st.1, crate::words::rotl32(st.2, 10), st.3)
}

/// Executable counterpart of [`step4`].
pub fn exec_step4(st: Line4, fv: u32, x: u32, s: u32, k: u32) -> (r: Line4)
    ensures
        r == step4(st, fv, x, s, k),
{
    let t = crate::words::rotl32(
        crate::words::add32(crate::words::add32(crate::words::add32(st.0, fv), x), k),
        s,
    );
    (st.3, t, st.1, st.2)
}

} // verus!
