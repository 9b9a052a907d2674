//! The Streebog (GOST R 34.11-2012) compression machinery shared by the
//! 256- and 512-bit variants: the 12-round LPSX cipher used as a
//! compression function, and the two 512-bit modular accumulators (bit
//! counter and block checksum) that finalization folds in.
//!
//! The 64-byte state is kept in little-endian order: byte 0 is the least
//! significant byte of the 512-bit value the standard manipulates.

use vstd::prelude::*;

use crate::blocks::{fold_blocks, zero_bytes};
use crate::words::{le64, le64_bytes, load_le64};

verus! {

/// The Streebog substitution box.
pub const SBOX: [u8; 256] = [
    0xfc, 0xee, 0xdd, 0x11, 0xcf, 0x6e, 0x31, 0x16, 0xfb, 0xc4, 0xfa, 0xda, 0x23, 0xc5, 0x04, 0x4d,
    0xe9, 0x77, 0xf0, 0xdb, 0x93, 0x2e, 0x99, 0xba, 0x17, 0x36, 0xf1, 0xbb, 0x14, 0xcd, 0x5f, 0xc1,
    0xf9, 0x18, 0x65, 0x5a, 0xe2, 0x5c, 0xef, 0x21, 0x81, 0x1c, 0x3c, 0x42, 0x8b, 0x01, 0x8e, 0x4f,
    0x05, 0x84, 0x02, 0xae, 0xe3, 0x6a, 0x8f, 0xa0, 0x06, 0x0b, 0xed, 0x98, 0x7f, 0xd4, 0xd3, 0x1f,
    0xeb, 0x34, 0x2c, 0x51, 0xea, 0xc8, 0x48, 0xab, 0xf2, 0x2a, 0x68, 0xa2, 0xfd, 0x3a, 0xce, 0xcc,
    0xb5, 0x70, 0x0e, 0x56, 0x08, 0x0c, 0x76, 0x12, 0xbf, 0x72, 0x13, 0x47, 0x9c, 0xb7, 0x5d, 0x87,
    0x15, 0xa1, 0x96, 0x29, 0x10, 0x7b, 0x9a, 0xc7, 0xf3, 0x91, 0x78, 0x6f, 0x9d, 0x9e, 0xb2, 0xb1,
    0x32, 0x75, 0x19, 0x3d, 0xff, 0x35, 0x8a, 0x7e, 0x6d, 0x54, 0xc6, 0x80, 0xc3, 0xbd, 0x0d, 0x57,
    0xdf, 0xf5, 0x24, 0xa9, 0x3e, 0xa8, 0x43, 0xc9, 0xd7, 0x79, 0xd6, 0xf6, 0x7c, 0x22, 0xb9, 0x03,
    0xe0, 0x0f, 0xec, 0xde, 0x7a, 0x94, 0xb0, 0xbc, 0xdc, 0xe8, 0x28, 0x50, 0x4e, 0x33, 0x0a, 0x4a,
    0xa7, 0x97, 0x60, 0x73, 0x1e, 0x00, 0x62, 0x44, 0x1a, 0xb8, 0x38, 0x82, 0x64, 0x9f, 0x26, 0x41,
    0xad, 0x45, 0x46, 0x92, 0x27, 0x5e, 0x55, 0x2f, 0x8c, 0xa3, 0xa5, 0x7d, 0x69, 0xd5, 0x95, 0x3b,
    0x07, 0x58, 0xb3, 0x40, 0x86, 0xac, 0x1d, 0xf7, 0x30, 0x37, 0x6b, 0xe4, 0x88, 0xd9, 0xe7, 0x89,
    0xe1, 0x1b, 0x83, 0x49, 0x4c, 0x3f, 0xf8, 0xfe, 0x8d, 0x53, 0xaa, 0x90, 0xca, 0xd8, 0x85, 0x61,
    0x20, 0x71, 0x67, 0xa4, 0x2d, 0x2b, 0x09, 0x5b, 0xcb, 0x9b, 0x25, 0xd0, 0xbe, 0xe5, 0x6c, 0x52,
    0x59, 0xa6, 0x74, 0xd2, 0xe6, 0xf4, 0xb4, 0xc0, 0xd1, 0x66, 0xaf, 0xc2, 0x39, 0x4b, 0x63, 0xb6,
];

/// The byte-position permutation (the transpose of the 8-by-8 byte matrix).
pub const TAU: [u8; 64] = [
    0, 8, 16, 24, 32, 40, 48, 56, 1, 9, 17, 25, 33, 41, 49, 57,
    2, 10, 18, 26, 34, 42, 50, 58, 3, 11, 19, 27, 35, 43, 51, 59,
    4, 12, 20, 28, 36, 44, 52, 60, 5, 13, 21, 29, 37, 45, 53, 61,
    6, 14, 22, 30, 38, 46, 54, 62, 7, 15, 23, 31, 39, 47, 55, 63,
];

/// The rows of the linear transform's binary matrix; row 0 multiplies the
/// most significant bit of a 64-bit lane.
pub const LMAT: [u64; 64] = [
    0x8e20faa72ba0b470, 0x47107ddd9b505a38, 0xad08b0e0c3282d1c, 0xd8045870ef14980e,
    0x6c022c38f90a4c07, 0x3601161cf205268d, 0x1b8e0b0e798c13c8, 0x83478b07b2468764,
    0xa011d380818e8f40, 0x5086e740ce47c920, 0x2843fd2067adea10, 0x14aff010bdd87508,
    0x0ad97808d06cb404, 0x05e23c0468365a02, 0x8c711e02341b2d01, 0x46b60f011a83988e,
    0x90dab52a387ae76f, 0x486dd4151c3dfdb9, 0x24b86a840e90f0d2, 0x125c354207487869,
    0x092e94218d243cba, 0x8a174a9ec8121e5d, 0x4585254f64090fa0, 0xaccc9ca9328a8950,
    0x9d4df05d5f661451, 0xc0a878a0a1330aa6, 0x60543c50de970553, 0x302a1e286fc58ca7,
    0x18150f14b9ec46dd, 0x0c84890ad27623e0, 0x0642ca05693b9f70, 0x0321658cba93c138,
    0x86275df09ce8aaa8, 0x439da0784e745554, 0xafc0503c273aa42a, 0xd960281e9d1d5215,
    0xe230140fc0802984, 0x71180a8960409a42, 0xb60c05ca30204d21, 0x5b068c651810a89e,
    0x456c34887a3805b9, 0xac361a443d1c8cd2, 0x561b0d22900e4669, 0x2b838811480723ba,
    0x9bcf4486248d9f5d, 0xc3e9224312c8c1a0, 0xeffa11af0964ee50, 0xf97d86d98a327728,
    0xe4fa2054a80b329c, 0x727d102a548b194e, 0x39b008152acb8227, 0x9258048415eb419d,
    0x492c024284fbaec0, 0xaa16012142f35760, 0x550b8e9e21f7a530, 0xa48b474f9ef5dc18,
    0x70a6a56e2440598e, 0x3853dc371220a247, 0x1ca76e95091051ad, 0x0edd37c48a08a6d8,
    0x07e095624504536c, 0x8d70c431ac02a736, 0xc83862965601dd1b, 0x641c314b2b8ee083,
];

/// The twelve round constants, each written in the standard's printed
/// order: most significant byte first.
pub const CROUND: [[u8; 64]; 12] = [
    [
        0xb1, 0x08, 0x5b, 0xda, 0x1e, 0xca, 0xda, 0xe9, 0xeb, 0xcb, 0x2f, 0x81, 0xc0, 0x65, 0x7c, 0x1f,
        0x2f, 0x6a, 0x76, 0x43, 0x2e, 0x45, 0xd0, 0x16, 0x71, 0x4e, 0xb8, 0x8d, 0x75, 0x85, 0xc4, 0xfc,
        0x4b, 0x7c, 0xe0, 0x91, 0x92, 0x67, 0x69, 0x01, 0xa2, 0x42, 0x2a, 0x08, 0xa4, 0x60, 0xd3, 0x15,
        0x05, 0x76, 0x74, 0x36, 0xcc, 0x74, 0x4d, 0x23, 0xdd, 0x80, 0x65, 0x59, 0xf2, 0xa6, 0x45, 0x07,
    ],
    [
        0x6f, 0xa3, 0xb5, 0x8a, 0xa9, 0x9d, 0x2f, 0x1a, 0x4f, 0xe3, 0x9d, 0x46, 0x0f, 0x70, 0xb5, 0xd7,
        0xf3, 0xfe, 0xea, 0x72, 0x0a, 0x23, 0x2b, 0x98, 0x61, 0xd5, 0x5e, 0x0f, 0x16, 0xb5, 0x01, 0x31,
        0x9a, 0xb5, 0x17, 0x6b, 0x12, 0xd6, 0x99, 0x58, 0x5c, 0xb5, 0x61, 0xc2, 0xdb, 0x0a, 0xa7, 0xca,
        0x55, 0xdd, 0xa2, 0x1b, 0xd7, 0xcb, 0xcd, 0x56, 0xe6, 0x79, 0x04, 0x70, 0x21, 0xb1, 0x9b, 0xb7,
    ],
    [
        0xf5, 0x74, 0xdc, 0xac, 0x2b, 0xce, 0x2f, 0xc7, 0x0a, 0x39, 0xfc, 0x28, 0x6a, 0x3d, 0x84, 0x35,
        0x06, 0xf1, 0x5e, 0x5f, 0x52, 0x9c, 0x1f, 0x8b, 0xf2, 0xea, 0x75, 0x14, 0xb1, 0x29, 0x7b, 0x7b,
        0xd3, 0xe2, 0x0f, 0xe4, 0x90, 0x35, 0x9e, 0xb1, 0xc1, 0xc9, 0x3a, 0x37, 0x60, 0x62, 0xdb, 0x09,
        0xc2, 0xb6, 0xf4, 0x43, 0x86, 0x7a, 0xdb, 0x31, 0x99, 0x1e, 0x96, 0xf5, 0x0a, 0xba, 0x0a, 0xb2,
    ],
    [
        0xef, 0x1f, 0xdf, 0xb3, 0xe8, 0x15, 0x66, 0xd2, 0xf9, 0x48, 0xe1, 0xa0, 0x5d, 0x71, 0xe4, 0xdd,
        0x48, 0x8e, 0x85, 0x7e, 0x33, 0x5c, 0x3c, 0x7d, 0x9d, 0x72, 0x1c, 0xad, 0x68, 0x5e, 0x35, 0x3f,
        0xa9, 0xd7, 0x2c, 0x82, 0xed, 0x03, 0xd6, 0x75, 0xd8, 0xb7, 0x13, 0x33, 0x93, 0x52, 0x03, 0xbe,
        0x34, 0x53, 0xea, 0xa1, 0x93, 0xe8, 0x37, 0xf1, 0x22, 0x0c, 0xbe, 0xbc, 0x84, 0xe3, 0xd1, 0x2e,
    ],
    [
        0x4b, 0xea, 0x6b, 0xac, 0xad, 0x47, 0x47, 0x99, 0x9a, 0x3f, 0x41, 0x0c, 0x6c, 0xa9, 0x23, 0x63,
        0x7f, 0x15, 0x1c, 0x1f, 0x16, 0x86, 0x10, 0x4a, 0x35, 0x9e, 0x35, 0xd7, 0x80, 0x0f, 0xff, 0xbd,
        0xbf, 0xcd, 0x17, 0x47, 0x25, 0x3a, 0xf5, 0xa3, 0xdf, 0xff, 0x00, 0xb7, 0x23, 0x27, 0x1a, 0x16,
        0x7a, 0x56, 0xa2, 0x7e, 0xa9, 0xea, 0x63, 0xf5, 0x60, 0x17, 0x58, 0xfd, 0x7c, 0x6c, 0xfe, 0x57,
    ],
    [
        0xae, 0x4f, 0xae, 0xae, 0x1d, 0x3a, 0xd3, 0xd9, 0x6f, 0xa4, 0xc3, 0x3b, 0x7a, 0x30, 0x39, 0xc0,
        0x2d, 0x66, 0xc4, 0xf9, 0x51, 0x42, 0xa4, 0x6c, 0x18, 0x7f, 0x9a, 0xb4, 0x9a, 0xf0, 0x8e, 0xc6,
        0xcf, 0xfa, 0xa6, 0xb7, 0x1c, 0x9a, 0xb7, 0xb4, 0x0a, 0xf2, 0x1f, 0x66, 0xc2, 0xbe, 0xc6, 0xb6,
        0xbf, 0x71, 0xc5, 0x72, 0x36, 0x90, 0x4f, 0x35, 0xfa, 0x68, 0x40, 0x7a, 0x46, 0x64, 0x7d, 0x6e,
    ],
    [
        0xf4, 0xc7, 0x0e, 0x16, 0xee, 0xaa, 0xc5, 0xec, 0x51, 0xac, 0x86, 0xfe, 0xbf, 0x24, 0x09, 0x54,
        0x39, 0x9e, 0xc6, 0xc7, 0xe6, 0xbf, 0x87, 0xc9, 0xd3, 0x47, 0x3e, 0x33, 0x19, 0x7a, 0x93, 0xc9,
        0x09, 0x92, 0xab, 0xc5, 0x2d, 0x82, 0x2c, 0x37, 0x06, 0x47, 0x69, 0x83, 0x28, 0x4a, 0x05, 0x04,
        0x35, 0x17, 0x45, 0x4c, 0xa2, 0x3c, 0x4a, 0xf3, 0x88, 0x86, 0x56, 0x4d, 0x3a, 0x14, 0xd4, 0x93,
    ],
    [
        0x9b, 0x1f, 0x5b, 0x42, 0x4d, 0x93, 0xc9, 0xa7, 0x03, 0xe7, 0xaa, 0x02, 0x0c, 0x6e, 0x41, 0x41,
        0x4e, 0xb7, 0xf8, 0x71, 0x9c, 0x36, 0xde, 0x1e, 0x89, 0xb4, 0x44, 0x3b, 0x4d, 0xdb, 0xc4, 0x9a,
        0xf4, 0x89, 0x2b, 0xcb, 0x92, 0x9b, 0x06, 0x90, 0x69, 0xd1, 0x8d, 0x2b, 0xd1, 0xa5, 0xc4, 0x2f,
        0x36, 0xac, 0xc2, 0x35, 0x59, 0x51, 0xa8, 0xd9, 0xa4, 0x7f, 0x0d, 0xd4, 0xbf, 0x02, 0xe7, 0x1e,
    ],
    [
        0x37, 0x8f, 0x5a, 0x54, 0x16, 0x31, 0x22, 0x9b, 0x94, 0x4c, 0x9a, 0xd8, 0xec, 0x16, 0x5f, 0xde,
        0x3a, 0x7d, 0x3a, 0x1b, 0x25, 0x89, 0x42, 0x24, 0x3c, 0xd9, 0x55, 0xb7, 0xe0, 0x0d, 0x09, 0x84,
        0x80, 0x0a, 0x44, 0x0b, 0xdb, 0xb2, 0xce, 0xb1, 0x7b, 0x2b, 0x8a, 0x9a, 0xa6, 0x07, 0x9c, 0x54,
        0x0e, 0x38, 0xdc, 0x92, 0xcb, 0x1f, 0x2a, 0x60, 0x72, 0x61, 0x44, 0x51, 0x83, 0x23, 0x5a, 0xdb,
    ],
    [
        0xab, 0xbe, 0xde, 0xa6, 0x80, 0x05, 0x6f, 0x52, 0x38, 0x2a, 0xe5, 0x48, 0xb2, 0xe4, 0xf3, 0xf3,
        0x89, 0x41, 0xe7, 0x1c, 0xff, 0x8a, 0x78, 0xdb, 0x1f, 0xff, 0xe1, 0x8a, 0x1b, 0x33, 0x61, 0x03,
        0x9f, 0xe7, 0x67, 0x02, 0xaf, 0x69, 0x33, 0x4b, 0x7a, 0x1e, 0x6c, 0x30, 0x3b, 0x76, 0x52, 0xf4,
        0x36, 0x98, 0xfa, 0xd1, 0x15, 0x3b, 0xb6, 0xc3, 0x74, 0xb4, 0xc7, 0xfb, 0x98, 0x45, 0x9c, 0xed,
    ],
    [
        0x7b, 0xcd, 0x9e, 0xd0, 0xef, 0xc8, 0x89, 0xfb, 0x30, 0x02, 0xc6, 0xcd, 0x63, 0x5a, 0xfe, 0x94,
        0xd8, 0xfa, 0x6b, 0xbb, 0xeb, 0xab, 0x07, 0x61, 0x20, 0x01, 0x80, 0x21, 0x14, 0x84, 0x66, 0x79,
        0x8a, 0x1d, 0x71, 0xef, 0xea, 0x48, 0xb9, 0xca, 0xef, 0xba, 0xcd, 0x1d, 0x7d, 0x47, 0x6e, 0x98,
        0xde, 0xa2, 0x59, 0x4a, 0xc0, 0x6f, 0xd8, 0x5d, 0x6b, 0xca, 0xa4, 0xcd, 0x81, 0xf3, 0x2d, 0x1b,
    ],
    [
        0x37, 0x8e, 0xe7, 0x67, 0xf1, 0x16, 0x31, 0xba, 0xd2, 0x13, 0x80, 0xb0, 0x04, 0x49, 0xb1, 0x7a,
        0xcd, 0xa4, 0x3c, 0x32, 0xbc, 0xdf, 0x1d, 0x77, 0xf8, 0x20, 0x12, 0xd4, 0x30, 0x21, 0x9f, 0x9b,
        0x5d, 0x80, 0xef, 0x9d, 0x18, 0x91, 0xcc, 0x86, 0xe7, 0x1d, 0xa4, 0xaa, 0x88, 0xe1, 0x28, 0x52,
        0xfa, 0xf4, 0x17, 0xd5, 0xd9, 0xb2, 0x1b, 0x99, 0x48, 0xbc, 0x92, 0x4a, 0xf1, 0x1b, 0xd7, 0x20,
    ],
];

/// Bytewise XOR of two 64-byte states.
pub open spec fn xor_bytes(a: Seq<u8>, b: Seq<u8>) -> Seq<u8> {
    Seq::new(64, |i: int| a[i] ^ b[i])
}

/// The substitution and byte permutation combined: position `i` receives
/// the substituted byte from position `TAU[i]`.
pub open spec fn sub_perm(a: Seq<u8>) -> Seq<u8> {
    Seq::new(64, |i: int| SBOX@[a[(TAU@[i] as int) % 64] as int])
}

/// The linear transform of one 64-bit lane, restricted to its `k` most
/// significant bits: each set bit contributes one matrix row.
pub open spec fn l_bits(v: u64, k: int) -> u64
    decreases k,
{
    if k <= 0 {
        0
    } else {
        if (v >> ((64 - k) as u64)) & 1 == 1 {
            l_bits(v, k - 1) ^ LMAT@[k - 1]
        } else {
            l_bits(v, k - 1)
        }
    }
}

/// The linear transform applied to each of the eight lanes of a 64-byte
/// state, lanes read and written little-endian.
pub open spec fn lin(a: Seq<u8>) -> Seq<u8> {
    Seq::new(64, |i: int| le64_bytes(l_bits(le64(a, 8 * (i / 8)), 64))[i % 8])
}

/// The LPS transform: substitute, permute, then the linear transform.
pub open spec fn lps(a: Seq<u8>) -> Seq<u8> {
    lin(sub_perm(a))
}

/// The round constant `i` in little-endian byte order.
pub open spec fn cconst(i: int) -> Seq<u8> {
    Seq::new(64, |j: int| CROUND@[i]@[63 - j])
}

/// Key schedule and encryption state after `r` rounds of the cipher:
/// `.0` is the round key, `.1` the encrypted state.
pub open spec fn e_fold(k1: Seq<u8>, m: Seq<u8>, r: int) -> (Seq<u8>, Seq<u8>)
    decreases r,
{
    if r <= 0 {
        (k1, m)
    } else {
        let p = e_fold(k1, m, r - 1);
        (lps(xor_bytes(p.0, cconst(r - 1))), lps(xor_bytes(p.1, p.0)))
    }
}

/// The compression function `g_N`: encrypt the block under a key derived
/// from the chaining value and the counter, then fold chaining value and
/// block back in.
pub open spec fn g_fn(h: Seq<u8>, n: Seq<u8>, m: Seq<u8>) -> Seq<u8> {
    let p = e_fold(lps(xor_bytes(h, n)), m, 12);
    xor_bytes(xor_bytes(xor_bytes(p.1, p.0), h), m)
}

/// Addition of two byte sequences as little-endian numbers, discarding the
/// final carry: addition modulo 256 to the power of the length.
pub open spec fn add_le(a: Seq<u8>, b: Seq<u8>, c: nat) -> Seq<u8>
    decreases a.len(),
{
    if a.len() == 0 {
        Seq::empty()
    } else {
        let s = a.first() + b.first() + c;
        seq![(s % 256) as u8] + add_le(a.drop_first(), b.drop_first(), (s / 256) as nat)
    }
}

/// 512-bit modular addition of two 64-byte little-endian values.
pub open spec fn sum512(a: Seq<u8>, b: Seq<u8>) -> Seq<u8> {
    add_le(a, b, 0)
}

/// The 64-byte little-endian encoding of a value below 65536.
pub open spec fn small_n(r: nat) -> Seq<u8> {
    zero_bytes(64).update(0, (r % 256) as u8).update(1, ((r / 256) % 256) as u8)
}

/// One full-block absorption step: compress the block under the current
/// counter, then advance the counter by 512 bits and the checksum by the
/// block.
pub open spec fn stb_step() -> spec_fn((Seq<u8>, Seq<u8>, Seq<u8>), Seq<u8>) -> (
    Seq<u8>,
    Seq<u8>,
    Seq<u8>,
) {
    |st: (Seq<u8>, Seq<u8>, Seq<u8>), b: Seq<u8>|
        (g_fn(st.0, st.1, b), sum512(st.1, small_n(512)), sum512(st.2, b))
}

/// The whole blocks of a message.
pub open spec fn stb_full(m: Seq<u8>) -> Seq<u8> {
    m.take(m.len() as int - (m.len() as int % 64))
}

/// The trailing partial block of a message (possibly empty).
pub open spec fn stb_tail(m: Seq<u8>) -> Seq<u8> {
    m.skip(m.len() as int - (m.len() as int % 64))
}

/// The final 64-byte chaining value of Streebog over message `m` from
/// initial value `iv`: absorb the whole blocks, then the padded tail, then
/// the bit counter and the checksum under a zero counter.
pub open spec fn stb_final_h(iv: Seq<u8>, m: Seq<u8>) -> Seq<u8> {
    let st = fold_blocks(stb_step(), (iv, zero_bytes(64), zero_bytes(64)), stb_full(m));
    let pb = stb_tail(m) + seq![1u8] + zero_bytes((63 - (m.len() as int % 64)) as nat);
    let h1 = g_fn(st.0, st.1, pb);
    let n1 = sum512(st.1, small_n((8 * (m.len() as int % 64)) as nat));
    let s1 = sum512(st.2, pb);
    g_fn(g_fn(h1, zero_bytes(64), n1), zero_bytes(64), s1)
}

/// Bytewise XOR of two 64-byte states.
pub fn xor64(a: &[u8; 64], b: &[u8; 64]) -> (r: [u8; 64])
    ensures
        r@ == xor_bytes(a@, b@),
{
    let mut r = [0u8; 64];
    let mut i: usize = 0;
    while i < 64
        invariant
            i <= 64,
            r@.len() == 64,
            forall|t: int| 0 <= t < i ==> r@[t] == xor_bytes(a@, b@)[t],
        decreases 64 - i,
    {
        r[i] = a[i] ^ b[i];
        i = i + 1;
    }
    proof {
        assert(r@ =~= xor_bytes(a@, b@));
    }
    r
}

/// The linear transform of the lane starting at byte `8 * lane`.
fn lane_l(sp: &[u8; 64], lane: usize) -> (acc: u64)
    requires
        lane < 8,
    ensures
        acc == l_bits(le64(sp@, 8 * lane as int), 64),
{
    let v = load_le64(sp, 8 * lane);
    let mut acc: u64 = 0;
    let mut k: usize = 0;
    while k < 64
        invariant
            k <= 64,
            v == le64(sp@, 8 * lane as int),
            acc == l_bits(v, k as int),
        decreases 64 - k,
    {
        if ((v >> ((63 - k) as u64)) & 1) == 1 {
            acc = acc ^ LMAT[k];
        }
        k = k + 1;
    }
    acc
}

/// The LPS transform of a 64-byte state.
#[verifier::rlimit(100)]
pub fn lps64(a: &[u8; 64]) -> (r: [u8; 64])
    ensures
        r@ == lps(a@),
{
    let mut sp = [0u8; 64];
    let mut i: usize = 0;
    while i < 64
        invariant
            i <= 64,
            sp@.len() == 64,
            forall|t: int| 0 <= t < i ==> sp@[t] == sub_perm(a@)[t],
        decreases 64 - i,
    {
        sp[i] = SBOX[a[(TAU[i] as usize) % 64] as usize];
        i = i + 1;
    }
    proof {
        assert(sp@ =~= sub_perm(a@));
    }
    let mut out = [0u8; 64];
    let mut lane: usize = 0;
    while lane < 8
        invariant
            lane <= 8,
            out@.len() == 64,
            sp@ == sub_perm(a@),
            forall|t: int| 0 <= t < 8 * lane ==> out@[t] == lin(sp@)[t],
        decreases 8 - lane,
    {
        let acc = lane_l(&sp, lane);
        out[8 * lane] = (acc & 0xff) as u8;
        out[8 * lane + 1] = ((acc >> 8) & 0xff) as u8;
        out[8 * lane + 2] = ((acc >> 16) & 0xff) as u8;
        out[8 * lane + 3] = ((acc >> 24) & 0xff) as u8;
        out[8 * lane + 4] = ((acc >> 32) & 0xff) as u8;
        out[8 * lane + 5] = ((acc >> 40) & 0xff) as u8;
        out[8 * lane + 6] = ((acc >> 48) & 0xff) as u8;
        out[8 * lane + 7] = ((acc >> 56) & 0xff) as u8;
        proof {
            assert forall|t: int| 0 <= t < 8 * (lane as int + 1) implies out@[t] == lin(sp@)[t]
            by {
                if t >= 8 * (lane as int) {
                    let u = t - 8 * (lane as int);
                    assert(t / 8 == lane as int);
                    assert(t % 8 == u);
                    assert(out@[t] == le64_bytes(acc)[u]);
                    assert(lin(sp@)[t] == le64_bytes(l_bits(le64(sp@, 8 * (lane as int)), 64))[u]);
                }
            }
        }
        lane = lane + 1;
    }
    proof {
        assert(out@ =~= lin(sp@));
        assert(lps(a@) == lin(sub_perm(a@)));
    }
    out
}

/// The round constant `i` as a little-endian 64-byte block.
fn c_block(i: usize) -> (r: [u8; 64])
    requires
        i < 12,
    ensures
        r@ == cconst(i as int),
{
    let mut r = [0u8; 64];
    let mut j: usize = 0;
    while j < 64
        invariant
            j <= 64,
            i < 12,
            r@.len() == 64,
            forall|t: int| 0 <= t < j ==> r@[t] == cconst(i as int)[t],
        decreases 64 - j,
    {
        r[j] = CROUND[i][63 - j];
        j = j + 1;
    }
    proof {
        assert(r@ =~= cconst(i as int));
    }
    r
}

/// The compression function `g_N(h, m)` with counter block `n`.
pub fn g64(h: &[u8; 64], n: &[u8; 64], m: &[u8; 64]) -> (r: [u8; 64])
    ensures
        r@ == g_fn(h@, n@, m@),
{
    let mut k = lps64(&xor64(h, n));
    let mut s = *m;
    let mut i: usize = 0;
    while i < 12
        invariant
            i <= 12,
            (k@, s@) == e_fold(lps(xor_bytes(h@, n@)), m@, i as int),
        decreases 12 - i,
    {
        let s2 = lps64(&xor64(&s, &k));
        let k2 = lps64(&xor64(&k, &c_block(i)));
        proof {
            assert(e_fold(lps(xor_bytes(h@, n@)), m@, i as int + 1) == {
                let p = e_fold(lps(xor_bytes(h@, n@)), m@, i as int);
                (lps(xor_bytes(p.0, cconst(i as int))), lps(xor_bytes(p.1, p.0)))
            });
        }
        k = k2;
        s = s2;
        i = i + 1;
    }
    xor64(&xor64(&xor64(&s, &k), h), m)
}

/// Add `b` into `a`, both 64-byte little-endian values, modulo 2 to the
/// power 512.
pub fn add512(a: &mut [u8; 64], b: &[u8; 64])
    ensures
        final(a)@ == sum512(old(a)@, b@),
{
    let mut carry: u16 = 0;
    let mut i: usize = 0;
    proof {
        assert(old(a)@.skip(0) =~= old(a)@);
        assert(b@.skip(0) =~= b@);
        assert(a@.take(0) =~= Seq::<u8>::empty());
        assert(Seq::<u8>::empty() + add_le(old(a)@, b@, 0) =~= add_le(old(a)@, b@, 0));
    }
    while i < 64
        invariant
            i <= 64,
            carry <= 1,
            a@.len() == 64,
            forall|t: int| i <= t < 64 ==> a@[t] == old(a)@[t],
            sum512(old(a)@, b@) == a@.take(i as int) + add_le(
                old(a)@.skip(i as int),
                b@.skip(i as int),
                carry as nat,
            ),
        decreases 64 - i,
    {
        let s: u16 = a[i] as u16 + b[i] as u16 + carry;
        let ghost c0 = carry as nat;
        let ghost pre = a@;
        a[i] = (s % 256) as u8;
        carry = s / 256;
        proof {
            let oa = old(a)@.skip(i as int);
            let ob = b@.skip(i as int);
            assert(oa.first() == old(a)@[i as int]);
            assert(ob.first() == b@[i as int]);
            assert(oa.drop_first() =~= old(a)@.skip(i as int + 1));
            assert(ob.drop_first() =~= b@.skip(i as int + 1));
            assert(s as int == oa.first() + ob.first() + c0);
            assert(add_le(oa, ob, c0) == seq![(s as int % 256) as u8] + add_le(
                old(a)@.skip(i as int + 1),
                b@.skip(i as int + 1),
                (s as int / 256) as nat,
            ));
            assert(a@.take(i as int) =~= pre.take(i as int));
            assert(a@.take(i as int + 1) =~= a@.take(i as int) + seq![(s % 256) as u8]);
            assert(pre.take(i as int) + (seq![(s % 256) as u8] + add_le(
                old(a)@.skip(i as int + 1),
                b@.skip(i as int + 1),
                carry as nat,
            )) =~= (pre.take(i as int) + seq![(s % 256) as u8]) + add_le(
                old(a)@.skip(i as int + 1),
                b@.skip(i as int + 1),
                carry as nat,
            ));
        }
        i = i + 1;
    }
    proof {
        assert(old(a)@.skip(64) =~= Seq::<u8>::empty());
        assert(b@.skip(64) =~= Seq::<u8>::empty());
        assert(add_le(old(a)@.skip(64), b@.skip(64), carry as nat) =~= Seq::<u8>::empty());
        assert(a@.take(64) =~= a@);
    }
}

/// The initial chaining value of Streebog-512: 64 zero bytes.
pub open spec fn iv512() -> Seq<u8> {
    zero_bytes(64)
}

/// The initial chaining value of Streebog-256: 64 bytes of value one.
pub open spec fn iv256() -> Seq<u8> {
    Seq::new(64, |i: int| 1u8)
}

/// The chaining value, bit counter and running checksum of a Streebog
/// computation.
#[derive(Clone, Copy)]
pub struct StreebogState {
    /// The 64-byte chaining value.
    pub h: [u8; 64],
    /// The number of bits absorbed, as a 512-bit little-endian counter.
    pub n: [u8; 64],
    /// The 512-bit modular sum of all absorbed blocks.
    pub sigma: [u8; 64],
}

impl StreebogState {
    /// The state reached from `iv` after absorbing the whole blocks of a
    /// block-aligned message.
    pub open spec fn is_fold_of(self, iv: Seq<u8>, full: Seq<u8>) -> bool {
        (self.h@, self.n@, self.sigma@) == fold_blocks(
            stb_step(),
            (iv, zero_bytes(64), zero_bytes(64)),
            full,
        )
    }

    /// Absorb one whole block.
    #[verifier::rlimit(80)]
    pub fn compress_block(&mut self, blk: &[u8; 64], Ghost(iv): Ghost<Seq<u8>>, Ghost(full): Ghost<
        Seq<u8>,
    >)
        requires
            old(self).is_fold_of(iv, full),
            full.len() % 64 == 0,
        ensures
            final(self).is_fold_of(iv, full + blk@),
    {
        let hn = g64(&self.h, &self.n, blk);
        self.h = hn;
        let mut nb = [0u8; 64];
        nb[1] = 2;
        proof {
            assert(nb@ =~= small_n(512));
        }
        add512(&mut self.n, &nb);
        add512(&mut self.sigma, blk);
        proof {
            crate::blocks::lemma_fold_blocks_snoc(
                stb_step(),
                (iv, zero_bytes(64), zero_bytes(64)),
                full,
                blk@,
            );
        }
    }
}

} // verus!
