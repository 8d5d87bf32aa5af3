use gf2n::pmul::{clmul64, pmul_nosimd};

#[test]
fn test_pmul_nosimd() {
    let (result, strategy) = pmul_nosimd(0x1234567890abcdef, 0xfedcba0987654321);
    assert_eq!(result, 0x0e038d8eab3af47a1f31f87ebb8c810f);
    assert_eq!(strategy, "nosimd");
}

#[test]
fn test_clmul64_identities() {
    assert_eq!(clmul64(0, 0x1234567890abcdef), 0);
    assert_eq!(clmul64(0x1234567890abcdef, 0), 0);
    assert_eq!(clmul64(1, 0xfedcba0987654321), 0xfedcba0987654321u128);
    assert_eq!(clmul64(0xfedcba0987654321, 1), 0xfedcba0987654321u128);
    // Multiplying by t shifts the polynomial up by one bit.
    assert_eq!(clmul64(2, 0x8000000000000000), 0x1_0000_0000_0000_0000u128);
}

#[test]
fn test_clmul64_commutes() {
    let mut state = 0x3f84d5b5b5470917u64;
    for _ in 0..50 {
        state ^= state << 13;
        state ^= state >> 7;
        state ^= state << 17;
        let a = state;
        state ^= state << 13;
        state ^= state >> 7;
        state ^= state << 17;
        let b = state;
        assert_eq!(clmul64(a, b), clmul64(b, a));
    }
}
