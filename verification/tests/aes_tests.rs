use gf2n::aes::{addroundkey, aesenc_fallback, mixcolumns, mul2, shiftrows, subbytes};

#[test]
fn test_aesenc_direct() {
    let mut block = vec![1u8; 16];
    let key = vec![2u8; 16];
    aesenc_fallback(&mut block, &key);
    assert_eq!(block, vec![0x7e; 16]);
}

#[test]
fn test_fallback() {
    let mut block = vec![1u8; 16];
    let key = vec![2u8; 16];
    aesenc_fallback(&mut block, &key);
    assert_eq!(block, vec![0x7e; 16]);
}

#[test]
fn test_subbytes() {
    let mut state: Vec<u8> = (0u8..16).collect();
    subbytes(&mut state);
    assert_eq!(
        state,
        vec![
            0x63, 0x7c, 0x77, 0x7b, 0xf2, 0x6b, 0x6f, 0xc5, 0x30, 0x01, 0x67, 0x2b, 0xfe, 0xd7,
            0xab, 0x76
        ]
    );
    let mut state = vec![0x53u8];
    subbytes(&mut state);
    assert_eq!(state, vec![0xed]);
    let mut state = vec![0xffu8];
    subbytes(&mut state);
    assert_eq!(state, vec![0x16]);
}

#[test]
fn test_shiftrows() {
    let mut state: Vec<u8> = (0u8..16).collect();
    shiftrows(&mut state);
    assert_eq!(state, vec![0, 5, 10, 15, 4, 9, 14, 3, 8, 13, 2, 7, 12, 1, 6, 11]);
}

#[test]
fn test_mul2() {
    assert_eq!(mul2(0x01), 0x02);
    assert_eq!(mul2(0x80), 0x1b);
    assert_eq!(mul2(0xff), 0xe5);
}

#[test]
fn test_mixcolumns() {
    // A known MixColumns column vector: [0xdb, 0x13, 0x53, 0x45] maps to
    // [0x8e, 0x4d, 0xa1, 0xbc]; the identity-like column [1,1,1,1] is fixed.
    let mut state = vec![
        0xdbu8, 0x13, 0x53, 0x45, 1, 1, 1, 1, 0xdb, 0x13, 0x53, 0x45, 1, 1, 1, 1,
    ];
    mixcolumns(&mut state);
    assert_eq!(
        state,
        vec![0x8e, 0x4d, 0xa1, 0xbc, 1, 1, 1, 1, 0x8e, 0x4d, 0xa1, 0xbc, 1, 1, 1, 1]
    );
}

#[test]
fn test_addroundkey() {
    let mut state: Vec<u8> = (0u8..16).collect();
    let key: Vec<u8> = vec![0xffu8; 16];
    addroundkey(&mut state, &key);
    let expected: Vec<u8> = (0u8..16).map(|x| x ^ 0xff).collect();
    assert_eq!(state, expected);
}
