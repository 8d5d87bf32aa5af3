use gf2n::cpu::Capabilities;
use gf2n::gf2n::{gf128_params, gf256_params, gf64_params, ErrorKind, FieldParams, Word, GF2n};

fn xorshift(state: &mut u64) -> u64 {
    let mut x = *state;
    x ^= x << 13;
    x ^= x >> 7;
    x ^= x << 17;
    *state = x;
    x
}

fn random_element(params: FieldParams, state: &mut u64) -> GF2n {
    let mut words = Vec::new();
    for _ in 0..params.nwords {
        words.push(xorshift(state));
    }
    GF2n::from_words(params, words)
}

fn element(params: FieldParams, words: &[u64]) -> GF2n {
    GF2n::from_words(params, words.to_vec())
}

#[test]
fn test_strategy_equivalence() {
    // Both multiplication strategies must produce bit-identical results
    // for all operand pairs; exercised here over many pairs in each field.
    let mut state = 0x243f6a8885a308d3u64;
    for params in [gf64_params(), gf128_params(), gf256_params()] {
        for _ in 0..50 {
            let a = random_element(params, &mut state);
            let b = random_element(params, &mut state);
            let fallback = a.mul_as_add(&b);
            let accelerated = a.mul_clmul(&b);
            assert_eq!(fallback.to_words(), accelerated.to_words());
        }
    }
}

#[test]
fn test_add_self_is_zero() {
    let mut state = 0x13198a2e03707344u64;
    for params in [gf64_params(), gf128_params(), gf256_params()] {
        let a = random_element(params, &mut state);
        let sum = a.add(&a);
        assert_eq!(sum.to_words(), GF2n::zero(params).to_words());
    }
}

#[test]
fn test_add_commutes_and_associates() {
    let mut state = 0xa4093822299f31d0u64;
    for params in [gf64_params(), gf128_params(), gf256_params()] {
        let a = random_element(params, &mut state);
        let b = random_element(params, &mut state);
        let c = random_element(params, &mut state);
        assert_eq!(a.add(&b).to_words(), b.add(&a).to_words());
        assert_eq!(a.add(&b).add(&c).to_words(), a.add(&b.add(&c)).to_words());
    }
}

#[test]
fn test_mul_commutes() {
    let mut state = 0x082efa98ec4e6c89u64;
    for params in [gf64_params(), gf128_params(), gf256_params()] {
        for caps in [Capabilities::none(), Capabilities::new(true, true)] {
            let a = random_element(params, &mut state);
            let b = random_element(params, &mut state);
            let ab = a.multiply(&b, caps).0;
            let ba = b.multiply(&a, caps).0;
            assert_eq!(ab.to_words(), ba.to_words());
        }
    }
}

#[test]
fn test_mul_one_is_identity() {
    let mut state = 0x452821e638d01377u64;
    for params in [gf64_params(), gf128_params(), gf256_params()] {
        for caps in [Capabilities::none(), Capabilities::new(true, true)] {
            let a = random_element(params, &mut state);
            let one = GF2n::one(params);
            let expected = a.words.clone();
            assert_eq!(a.multiply(&one, caps).0.to_words(), expected);
        }
    }
}

#[test]
fn test_mul_invert_gives_one() {
    // Inverting zero is excluded by precondition; only nonzero elements
    // are exercised here.
    let mut state = 0xbe5466cf34e90c6cu64;
    for params in [gf64_params(), gf128_params(), gf256_params()] {
        for caps in [Capabilities::none(), Capabilities::new(true, true)] {
            let mut words = random_element(params, &mut state).to_words();
            if words.iter().all(|&w| w == 0) {
                words[0] = 1;
            }
            let a = element(params, &words);
            let inv = element(params, &words).invert(caps);
            let product = a.multiply(&inv, caps).0;
            assert_eq!(product.to_words(), GF2n::one(params).to_words());
        }
    }
}

#[test]
fn test_known_vector_mul_gf64() {
    let a = element(gf64_params(), &[0x1234567890abcdef]);
    let b = element(gf64_params(), &[0xfedcba0987654321]);
    for caps in [Capabilities::none(), Capabilities::new(true, true)] {
        let p = a.multiply(&b, caps).0;
        assert_eq!(p.to_words(), vec![0x9d11da72acbb79f1]);
    }
}

#[test]
fn test_known_vector_mul_gf128() {
    let a = element(gf128_params(), &[1, 2]);
    let b = element(gf128_params(), &[3, 4]);
    for caps in [Capabilities::none(), Capabilities::new(true, true)] {
        let p = a.multiply(&b, caps).0;
        assert_eq!(p.to_words(), vec![0x43b, 0x2]);
    }
}

#[test]
fn test_known_vector_mul_gf256() {
    let a = element(gf256_params(), &[1, 2, 3, 4]);
    let b = element(gf256_params(), &[5, 6, 7, 8]);
    for caps in [Capabilities::none(), Capabilities::new(true, true)] {
        let p = a.multiply(&b, caps).0;
        assert_eq!(p.to_words(), vec![0x420, 0x1098, 0x84a4, 0x18]);
    }
}

#[test]
fn test_known_vector_invert_gf64() {
    let two = element(gf64_params(), &[2]);
    let inv = two.invert(Capabilities::none());
    assert_eq!(inv.to_words(), vec![0x800000000000000d]);
}

#[test]
fn test_invert_in_place() {
    let caps = Capabilities::none();
    let mut data = vec![2u64];
    gf2n::gf2n::gf64_invert(&mut data, caps);
    assert_eq!(data, vec![0x800000000000000d]);

    let mut data = vec![1u64, 2];
    gf2n::gf2n::gf128_invert(&mut data, caps);
    assert_eq!(data, vec![0x5a20d4332a384fa1, 0xb441a86654709ff0]);

    let mut data = vec![1u64, 2, 3, 4];
    gf2n::gf2n::gf256_invert(&mut data, caps);
    assert_eq!(
        data,
        vec![0x587a55a2da936d9e, 0xb2440c071019f4fc, 0x5654f6acd64122ab, 0x1b8cafdbf6e5ef9f]
    );
}

#[test]
fn test_bytes_round_trip() {
    // from_bytes(to_bytes(x)) == x for representable x in every field.
    let mut state = 0xc0ac29b7c97c50ddu64;
    for params in [gf64_params(), gf128_params(), gf256_params()] {
        for _ in 0..20 {
            let x = random_element(params, &mut state);
            let expected = x.to_words();
            let bytes = element(params, &expected).to_bytes();
            assert_eq!(bytes.len(), 8 * params.nwords);
            let back = GF2n::from_bytes(params, &bytes).unwrap();
            assert_eq!(back.to_words(), expected);
        }
    }
}

#[test]
fn test_bytes_big_endian_layout() {
    let x = element(gf64_params(), &[0x0102030405060708]);
    assert_eq!(x.to_bytes(), vec![1, 2, 3, 4, 5, 6, 7, 8]);
}

#[test]
fn test_from_bytes_invalid_length() {
    for params in [gf64_params(), gf128_params(), gf256_params()] {
        let short = vec![0u8; 8 * params.nwords - 1];
        let long = vec![0u8; 8 * params.nwords + 1];
        assert_eq!(GF2n::from_bytes(params, &short).unwrap_err(), ErrorKind::InvalidLength);
        assert_eq!(GF2n::from_bytes(params, &long).unwrap_err(), ErrorKind::InvalidLength);
        assert!(GF2n::from_bytes(params, &vec![0u8; 8 * params.nwords]).is_ok());
    }
}

#[test]
fn test_shl1_folds_reduction_pattern() {
    // Shifting the top bit out of a GF(2^64) element folds in the
    // pentanomial pattern 1 + t + t^3 + t^4 = 0x1b.
    let mut x = element(gf64_params(), &[0x8000000000000000]);
    x.shl1();
    assert_eq!(x.to_words(), vec![0x1b]);
    let mut x = element(gf64_params(), &[1]);
    x.shl1();
    assert_eq!(x.to_words(), vec![2]);
    // In GF(2^128) the shifted-out bit of the low word carries into the
    // high word; only the top bit of the high word triggers reduction.
    let mut x = element(gf128_params(), &[0x8000000000000000, 0]);
    x.shl1();
    assert_eq!(x.to_words(), vec![0, 1]);
    let mut x = element(gf128_params(), &[0, 0x8000000000000000]);
    x.shl1();
    // Pattern for GF(2^128): 1 + t + t^2 + t^7 = 0x87.
    assert_eq!(x.to_words(), vec![0x87, 0]);
}

#[test]
fn test_zero_and_one_shapes() {
    for params in [gf64_params(), gf128_params(), gf256_params()] {
        let zero = GF2n::zero(params);
        assert_eq!(zero.to_words(), vec![0; params.nwords]);
        let one = GF2n::one(params);
        let mut expected = vec![0u64; params.nwords];
        expected[0] = 1;
        assert_eq!(one.to_words(), expected);
        let small = GF2n::new_small(params, 0xabcd);
        let mut expected = vec![0u64; params.nwords];
        expected[0] = 0xabcd;
        assert_eq!(small.to_words(), expected);
    }
}

#[test]
fn test_structural_equality() {
    let a = element(gf64_params(), &[7]);
    let b = element(gf64_params(), &[7]);
    let c = element(gf64_params(), &[8]);
    assert_eq!(a, b);
    assert_ne!(a, c);
    let d = element(gf128_params(), &[7, 0]);
    let e = element(gf128_params(), &[7, 1]);
    assert_ne!(d, e);
}

#[test]
fn test_word_from_bytes() {
    let bytes = [1u8, 2, 3, 4, 5, 6, 7, 8];
    let w = u64::from_bytes(&bytes);
    assert_eq!(w, 0x0102030405060708);
}
