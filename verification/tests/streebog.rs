use hashes::streebog256::Streebog256Core;
use hashes::streebog512::Streebog512Core;

fn hx(s: &str) -> Vec<u8> {
    let b = s.as_bytes();
    let mut out = Vec::new();
    let mut i = 0;
    while i + 1 < b.len() {
        let hi = (b[i] as char).to_digit(16).unwrap() as u8;
        let lo = (b[i + 1] as char).to_digit(16).unwrap() as u8;
        out.push(hi * 16 + lo);
        i += 2;
    }
    out
}

fn stb256(data: &[u8]) -> Vec<u8> {
    let mut h = Streebog256Core::default();
    h.update(data);
    h.finalize().to_vec()
}

fn stb512(data: &[u8]) -> Vec<u8> {
    let mut h = Streebog512Core::default();
    h.update(data);
    h.finalize().to_vec()
}

// The first standard test message: 63 ASCII digits.
const M1: &[u8] = b"012345678901234567890123456789012345678901234567890123456789012";

#[test]
fn streebog512_m1() {
    assert_eq!(
        stb512(M1),
        hx("1b54d01a4af5b9d5cc3d86d68d285462b19abc2475222f35c085122be4ba1ffa\
            00ad30f8767b3a82384c6574f024c311e2a481332b08ef7f41797891c1646f48")
    );
}

#[test]
fn streebog256_m1() {
    assert_eq!(
        stb256(M1),
        hx("9d151eefd8590b89daa6ba6cb74af9275dd051026bb149a452fd84e5e57b5500")
    );
}

#[test]
fn streebog512_empty() {
    assert_eq!(
        stb512(b""),
        hx("8e945da209aa869f0455928529bcae4679e9873ab707b55315f56ceb98bef0a7\
            362f715528356ee83cda5f2aac4c6ad2ba3a715c1bcd81cb8e9f90bf4c1c1a8a")
    );
}

#[test]
fn streebog256_empty() {
    assert_eq!(
        stb256(b""),
        hx("3f539a213e97c802cc229d474c6aa32a825a360b2a933a949fd925208d9ce1bb")
    );
}

#[test]
fn streebog256_chunking_invariance() {
    let msg: Vec<u8> = (0u32..100).map(|i| (i * 11 + 7) as u8).collect();
    let whole = stb256(&msg);
    for k in 0..=msg.len() {
        let mut h = Streebog256Core::default();
        h.update(&msg[..k]);
        h.update(&msg[k..]);
        assert_eq!(h.finalize().to_vec(), whole);
    }
}

#[test]
fn streebog512_update_blocks_matches_update() {
    let msg: Vec<u8> = (0u32..192).map(|i| (i * 29 + 17) as u8).collect();
    let mut a = Streebog512Core::default();
    a.update_blocks(&msg);
    let mut b = Streebog512Core::default();
    b.update(&msg);
    assert_eq!(a.finalize(), b.finalize());
}

#[test]
fn streebog512_reset_equivalence() {
    let mut h = Streebog512Core::default();
    h.update(b"to be discarded");
    h.reset();
    h.update(M1);
    assert_eq!(h.finalize().to_vec(), stb512(M1));
}

#[test]
fn streebog256_deterministic() {
    let msg: Vec<u8> = (0u32..200).map(|i| (i * 3 + 2) as u8).collect();
    assert_eq!(stb256(&msg), stb256(&msg));
}

#[test]
fn streebog256_avalanche() {
    let base = b"avalanche".to_vec();
    let whole = stb256(&base);
    for byte in 0..base.len() {
        for bit in 0..8 {
            let mut m = base.clone();
            m[byte] ^= 1 << bit;
            assert_ne!(stb256(&m), whole);
        }
    }
}

#[test]
fn streebog_names() {
    assert_eq!(Streebog256Core::default().name(), "Streebog256");
    assert_eq!(Streebog512Core::default().name(), "Streebog512");
}

#[test]
fn streebog512_avalanche() {
    let base = b"ava".to_vec();
    let whole = stb512(&base);
    for byte in 0..base.len() {
        for bit in 0..8 {
            let mut m = base.clone();
            m[byte] ^= 1 << bit;
            assert_ne!(stb512(&m), whole);
        }
    }
}

#[test]
fn streebog256_clone_is_independent() {
    let mut a = Streebog256Core::default();
    a.update(b"shared prefix ");
    let mut b = a.clone();
    a.update(b"left");
    b.update(b"right");
    let mut wa = Streebog256Core::default();
    wa.update(b"shared prefix left");
    let mut wb = Streebog256Core::default();
    wb.update(b"shared prefix right");
    assert_eq!(a.finalize(), wa.finalize());
    assert_eq!(b.finalize(), wb.finalize());
}
