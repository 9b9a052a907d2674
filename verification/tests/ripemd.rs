use hashes::ripemd160::Ripemd160Core;
use hashes::ripemd256::Ripemd256Core;
use hashes::ripemd320::Ripemd320Core;

fn hx(s: &str) -> Vec<u8> {
    let b = s.as_bytes();
    let mut out = Vec::new();
    let mut i = 0;
    while i + 1 < b.len() {
        let hi = (b[i] as char).to_digit(16).unwrap() as u8;
        let lo = (b[i + 1] as char).to_digit(16).unwrap() as u8;
        out.push(hi * 16 + lo);
        i += 2;
    }
    out
}

fn rmd160(data: &[u8]) -> Vec<u8> {
    let mut h = Ripemd160Core::default();
    h.update(data);
    h.finalize().to_vec()
}

fn rmd256(data: &[u8]) -> Vec<u8> {
    let mut h = Ripemd256Core::default();
    h.update(data);
    h.finalize().to_vec()
}

fn rmd320(data: &[u8]) -> Vec<u8> {
    let mut h = Ripemd320Core::default();
    h.update(data);
    h.finalize().to_vec()
}

#[test]
fn ripemd160_empty() {
    assert_eq!(rmd160(b""), hx("9c1185a5c5e9fc54612808977ee8f548b2258d31"));
}

#[test]
fn ripemd160_hello_world() {
    assert_eq!(
        rmd160(b"Hello world!"),
        hx("7f772647d88750add82d8e1a7a3e5c0902a346a3")
    );
}

#[test]
fn ripemd160_abc() {
    assert_eq!(rmd160(b"abc"), hx("8eb208f7e05d987a9b044a8e98c6b087f15a0bfc"));
}

#[test]
fn ripemd160_two_pad_blocks() {
    // 56 bytes of input leave no room for the length field, so the padding
    // spills into a second block.
    assert_eq!(
        rmd160(b"abcdbcdecdefdefgefghfghighijhijkijkljklmklmnlmnomnopnopq"),
        hx("12a053384a9c0c88e405a06c27dcf49ada62eb2b")
    );
}

#[test]
fn ripemd160_eighty_digits() {
    let msg: Vec<u8> = (0..8).flat_map(|_| b"1234567890".to_vec()).collect();
    assert_eq!(rmd160(&msg), hx("9b752e45573d4b39f4dbd3323cab82bf63326bfb"));
}

#[test]
fn ripemd256_empty() {
    assert_eq!(
        rmd256(b""),
        hx("02ba4c4e5f8ecd1877fc52d64d30e37a2d9774fb1e5d026380ae0168e3c5522d")
    );
}

#[test]
fn ripemd256_abc() {
    assert_eq!(
        rmd256(b"abc"),
        hx("afbd6e228b9d8cbbcef5ca2d03e6dba10ac0bc7dcbe4680e1e42d2e975459b65")
    );
}

#[test]
fn ripemd320_hello_world() {
    assert_eq!(
        rmd320(b"Hello world!"),
        hx("f1c1c231d301abcf2d7daae0269ff3e7bc68e623ad723aa068d316b056d26b7d1bb6f0cc0f28336d")
    );
}

#[test]
fn ripemd320_empty() {
    assert_eq!(
        rmd320(b""),
        hx("22d65d5661536cdc75c1fdf5c6de7b41b9f27325ebc61e8557177d705a0ec880151c3a32a00899b8")
    );
}

#[test]
fn ripemd160_chunking_invariance() {
    let msg: Vec<u8> = (0u32..100).map(|i| (i * 7 + 3) as u8).collect();
    let whole = rmd160(&msg);
    for k in 0..=msg.len() {
        let mut h = Ripemd160Core::default();
        h.update(&msg[..k]);
        h.update(&msg[k..]);
        assert_eq!(h.finalize().to_vec(), whole);
    }
}

#[test]
fn ripemd160_update_blocks_matches_update() {
    let msg: Vec<u8> = (0u32..128).map(|i| (i * 31 + 5) as u8).collect();
    let mut a = Ripemd160Core::default();
    a.update_blocks(&msg);
    let mut b = Ripemd160Core::default();
    b.update(&msg);
    assert_eq!(a.finalize(), b.finalize());
}

#[test]
fn ripemd160_reset_equivalence() {
    let mut h = Ripemd160Core::default();
    h.update(b"something else entirely");
    h.reset();
    h.update(b"Hello world!");
    assert_eq!(
        h.finalize().to_vec(),
        hx("7f772647d88750add82d8e1a7a3e5c0902a346a3")
    );
}

#[test]
fn ripemd160_deterministic() {
    let msg: Vec<u8> = (0u32..200).map(|i| (i * 13 + 1) as u8).collect();
    assert_eq!(rmd160(&msg), rmd160(&msg));
}

#[test]
fn ripemd160_finalize_keeps_absorbing() {
    // finalize leaves the hasher usable: absorbing more afterwards equals a
    // fresh run over the concatenation.
    let mut h = Ripemd160Core::default();
    h.update(b"Hello ");
    let _ = h.finalize();
    h.update(b"world!");
    assert_eq!(
        h.finalize().to_vec(),
        hx("7f772647d88750add82d8e1a7a3e5c0902a346a3")
    );
}

#[test]
fn ripemd160_avalanche() {
    let base = b"avalanche".to_vec();
    let whole = rmd160(&base);
    for byte in 0..base.len() {
        for bit in 0..8 {
            let mut m = base.clone();
            m[byte] ^= 1 << bit;
            assert_ne!(rmd160(&m), whole);
        }
    }
}

#[test]
fn ripemd_names() {
    assert_eq!(Ripemd160Core::default().name(), "Ripemd160");
    assert_eq!(Ripemd256Core::default().name(), "Ripemd256");
    assert_eq!(Ripemd320Core::default().name(), "Ripemd320");
}

#[test]
fn ripemd160_clone_is_independent() {
    let mut a = Ripemd160Core::default();
    a.update(b"shared prefix ");
    let mut b = a.clone();
    a.update(b"left");
    b.update(b"right");
    let mut wa = Ripemd160Core::default();
    wa.update(b"shared prefix left");
    let mut wb = Ripemd160Core::default();
    wb.update(b"shared prefix right");
    assert_eq!(a.finalize(), wa.finalize());
    assert_eq!(b.finalize(), wb.finalize());
}

#[test]
fn ripemd256_avalanche() {
    let base = b"ava".to_vec();
    let whole = rmd256(&base);
    for byte in 0..base.len() {
        for bit in 0..8 {
            let mut m = base.clone();
            m[byte] ^= 1 << bit;
            assert_ne!(rmd256(&m), whole);
        }
    }
}

#[test]
fn ripemd320_avalanche() {
    let base = b"ava".to_vec();
    let whole = rmd320(&base);
    for byte in 0..base.len() {
        for bit in 0..8 {
            let mut m = base.clone();
            m[byte] ^= 1 << bit;
            assert_ne!(rmd320(&m), whole);
        }
    }
}
