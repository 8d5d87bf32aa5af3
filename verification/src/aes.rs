//! One AES encryption round on a 16-byte block: SubBytes, ShiftRows,
//! MixColumns, AddRoundKey, in that order. This is the portable fallback
//! the dispatcher uses where the hardware AES instructions are absent;
//! the hardware path computes the same standard round.

use vstd::prelude::*;

verus! {

/// The AES S-box, packed eight bytes per word: entry `x` sits in word
/// `x / 8` at bit position `8·(x mod 8)`.
pub open spec fn sbox_words() -> Seq<u64> {
    seq![
        0xc56f6bf27b777c63u64,
        0x76abd7fe2b670130u64,
        0xf04759fa7dc982cau64,
        0xc072a49cafa2d4adu64,
        0xccf73f362693fdb7u64,
        0x1531d871f1e5a534u64,
        0x9a059618c323c704u64,
        0x75b227ebe2801207u64,
        0xa05a6e1b1a2c8309u64,
        0x842fe329b3d63b52u64,
        0x5bb1fc20ed00d153u64,
        0xcf584c4a39becb6au64,
        0x85334d43fbaaefd0u64,
        0xa89f3c507f02f945u64,
        0xf5389d928f40a351u64,
        0xd2f3ff1021dab6bcu64,
        0x1744975fec130ccdu64,
        0x73195d643d7ea7c4u64,
        0x88902a22dc4f8160u64,
        0xdb0b5ede14b8ee46u64,
        0x5c2406490a3a32e0u64,
        0x79e4959162acd3c2u64,
        0xa94ed58d6d37c8e7u64,
        0x08ae7a65eaf4566cu64,
        0xc6b4a61c2e2578bau64,
        0x8a8bbd4b1f74dde8u64,
        0x0ef6034866b53e70u64,
        0x9e1dc186b9573561u64,
        0x948ed9691198f8e1u64,
        0xdf2855cee9871e9bu64,
        0x6842e6bf0d89a18cu64,
        0x16bb54b00f2d9941u64,
    ]
}

/// The S-box image of one byte.
pub open spec fn spec_sbox(x: u8) -> u8 {
    ((sbox_words()[x as int / 8] >> ((8 * (x as int % 8)) as u64)) & 0xff) as u8
}

/// SubBytes: every byte replaced by its S-box image.
pub open spec fn subbytes_spec(s: Seq<u8>) -> Seq<u8> {
    Seq::new(s.len(), |i: int| spec_sbox(s[i]))
}

/// Where byte `i` of the ShiftRows output comes from: the state is
/// column-major (byte `4c + r` is row r of column c), and row r rotates
/// left by r columns.
pub open spec fn shiftrows_src(i: int) -> int {
    let r = i % 4;
    let c = i / 4;
    4 * ((c + r) % 4) + r
}

/// ShiftRows on a 16-byte state.
pub open spec fn shiftrows_spec(s: Seq<u8>) -> Seq<u8> {
    Seq::new(16, |i: int| s[shiftrows_src(i)])
}

/// Multiplication by 2 in AES's byte field GF(2^8): a left shift, with
/// the reduction pattern 0x1b folded in when a bit falls off the top.
pub open spec fn spec_mul2(x: u8) -> u8 {
    if (x >> 7u8) & 1 == 1 {
        (x << 1u8) ^ 0x1bu8
    } else {
        x << 1u8
    }
}

/// MixColumns on a 16-byte column-major state: each output byte combines
/// the four bytes of its column.
pub open spec fn mixcolumns_spec(s: Seq<u8>) -> Seq<u8> {
    Seq::new(
        16,
        |i: int|
            {
                let c = i / 4;
                let r = i % 4;
                let colsum = s[4 * c] ^ s[4 * c + 1] ^ s[4 * c + 2] ^ s[4 * c + 3];
                s[i] ^ spec_mul2(s[i] ^ s[4 * c + ((r + 1) % 4)]) ^ colsum
            },
    )
}

/// AddRoundKey: byte-wise exclusive-or with the round key.
pub open spec fn xor_bytes(s: Seq<u8>, k: Seq<u8>) -> Seq<u8> {
    Seq::new(s.len(), |i: int| s[i] ^ k[i])
}

/// One full AES encryption round.
pub open spec fn aes_round_spec(block: Seq<u8>, key: Seq<u8>) -> Seq<u8> {
    xor_bytes(mixcolumns_spec(shiftrows_spec(subbytes_spec(block))), key)
}

/// The S-box as an in-memory table of packed words.
fn sbox_table() -> (t: Vec<u64>)
    ensures
        t@ == sbox_words(),
{
    let mut t: Vec<u64> = Vec::new();
    t.push(0xc56f6bf27b777c63);
    t.push(0x76abd7fe2b670130);
    t.push(0xf04759fa7dc982ca);
    t.push(0xc072a49cafa2d4ad);
    t.push(0xccf73f362693fdb7);
    t.push(0x1531d871f1e5a534);
    t.push(0x9a059618c323c704);
    t.push(0x75b227ebe2801207);
    t.push(0xa05a6e1b1a2c8309);
    t.push(0x842fe329b3d63b52);
    t.push(0x5bb1fc20ed00d153);
    t.push(0xcf584c4a39becb6a);
    t.push(0x85334d43fbaaefd0);
    t.push(0xa89f3c507f02f945);
    t.push(0xf5389d928f40a351);
    t.push(0xd2f3ff1021dab6bc);
    t.push(0x1744975fec130ccd);
    t.push(0x73195d643d7ea7c4);
    t.push(0x88902a22dc4f8160);
    t.push(0xdb0b5ede14b8ee46);
    t.push(0x5c2406490a3a32e0);
    t.push(0x79e4959162acd3c2);
    t.push(0xa94ed58d6d37c8e7);
    t.push(0x08ae7a65eaf4566c);
    t.push(0xc6b4a61c2e2578ba);
    t.push(0x8a8bbd4b1f74dde8);
    t.push(0x0ef6034866b53e70);
    t.push(0x9e1dc186b9573561);
    t.push(0x948ed9691198f8e1);
    t.push(0xdf2855cee9871e9b);
    t.push(0x6842e6bf0d89a18c);
    t.push(0x16bb54b00f2d9941);
    proof {
        assert(t@ =~= sbox_words());
    }
    t
}

/// One S-box lookup in the packed table.
fn sub_byte(t: &Vec<u64>, x: u8) -> (r: u8)
    requires
        t@ == sbox_words(),
    ensures
        r == spec_sbox(x),
{
    let w = t[(x / 8) as usize];
    ((w >> ((x % 8) as u64 * 8)) & 0xff) as u8
}

/// SubBytes: replaces every state byte by its S-box image.
pub fn subbytes(state: &mut Vec<u8>)
    ensures
        final(state)@ == subbytes_spec(old(state)@),
{
    let t = sbox_table();
    let ghost orig = state@;
    let mut i: usize = 0;
    while i < state.len()
        invariant
            i <= state.len(),
            state.len() == orig.len(),
            t@ == sbox_words(),
            forall|j: int| 0 <= j < i ==> state@[j] == spec_sbox(orig[j]),
            forall|j: int| i <= j < orig.len() ==> state@[j] == orig[j],
        decreases state.len() - i,
    {
        state[i] = sub_byte(&t, state[i]);
        i += 1;
    }
    proof {
        assert(state@ =~= subbytes_spec(orig));
    }
}

/// ShiftRows: rotates row r of the column-major state left by r columns.
pub fn shiftrows(state: &mut Vec<u8>)
    requires
        old(state).len() == 16,
    ensures
        final(state)@ == shiftrows_spec(old(state)@),
{
    let tmp = state[1];
    state[1] = state[5];
    state[5] = state[9];
    state[9] = state[13];
    state[13] = tmp;

    let tmp = state[2];
    state[2] = state[10];
    state[10] = tmp;
    let tmp = state[6];
    state[6] = state[14];
    state[14] = tmp;

    let tmp = state[3];
    state[3] = state[15];
    state[15] = state[11];
    state[11] = state[7];
    state[7] = tmp;
    proof {
        assert(state@ =~= shiftrows_spec(old(state)@));
    }
}

/// Multiplication by 2 in GF(2^8).
pub fn mul2(x: u8) -> (r: u8)
    ensures
        r == spec_mul2(x),
{
    proof {
        assert((x >> 7) & 1 <= 1 && (x << 1) ^ ((((x >> 7) & 1) * 0x1b) as u8) == (if (x >> 7u8)
            & 1 == 1 {
            (x << 1u8) ^ 0x1bu8
        } else {
            x << 1u8
        })) by (bit_vector);
    }
    (x << 1) ^ (((x >> 7) & 1) * 0x1b)
}

/// Exclusive-or chains of three terms may be grouped freely.
proof fn lemma_xor3_regroup(x: u8, y: u8, z: u8)
    by (bit_vector)
    ensures
        x ^ (y ^ z) == x ^ y ^ z,
{
}

/// MixColumns: mixes each column of the state.
pub fn mixcolumns(state: &mut Vec<u8>)
    requires
        old(state).len() == 16,
    ensures
        final(state)@ == mixcolumns_spec(old(state)@),
{
    let ghost orig = state@;
    let mut c: usize = 0;
    while c < 4
        invariant
            c <= 4,
            state.len() == 16,
            orig.len() == 16,
            forall|m: int| 0 <= m < 4 * c ==> state@[m] == mixcolumns_spec(orig)[m],
            forall|m: int| 4 * c <= m < 16 ==> state@[m] == orig[m],
        decreases 4 - c,
    {
        let x0 = state[4 * c];
        let x1 = state[4 * c + 1];
        let x2 = state[4 * c + 2];
        let x3 = state[4 * c + 3];
        let x = x0 ^ x1 ^ x2 ^ x3;
        let m0 = mul2(x0 ^ x1);
        let m1 = mul2(x1 ^ x2);
        let m2 = mul2(x2 ^ x3);
        let m3 = mul2(x3 ^ x0);
        state[4 * c] = x0 ^ (m0 ^ x);
        state[4 * c + 1] = x1 ^ (m1 ^ x);
        state[4 * c + 2] = x2 ^ (m2 ^ x);
        state[4 * c + 3] = x3 ^ (m3 ^ x);
        proof {
            let ci = c as int;
            vstd::arithmetic::div_mod::lemma_fundamental_div_mod_converse(4 * ci, 4, ci, 0);
            vstd::arithmetic::div_mod::lemma_fundamental_div_mod_converse(4 * ci + 1, 4, ci, 1);
            vstd::arithmetic::div_mod::lemma_fundamental_div_mod_converse(4 * ci + 2, 4, ci, 2);
            vstd::arithmetic::div_mod::lemma_fundamental_div_mod_converse(4 * ci + 3, 4, ci, 3);
            lemma_xor3_regroup(x0, m0, x);
            lemma_xor3_regroup(x1, m1, x);
            lemma_xor3_regroup(x2, m2, x);
            lemma_xor3_regroup(x3, m3, x);
        }
        c += 1;
    }
    proof {
        assert(state@ =~= mixcolumns_spec(orig));
    }
}

/// AddRoundKey: folds the round key into the state byte by byte.
pub fn addroundkey(state: &mut Vec<u8>, rkey: &Vec<u8>)
    requires
        old(state).len() == rkey.len(),
    ensures
        final(state)@ == xor_bytes(old(state)@, rkey@),
{
    let ghost orig = state@;
    let mut i: usize = 0;
    while i < state.len()
        invariant
            i <= state.len(),
            state.len() == orig.len(),
            rkey.len() == orig.len(),
            forall|j: int| 0 <= j < i ==> state@[j] == (orig[j] ^ rkey@[j]),
            forall|j: int| i <= j < orig.len() ==> state@[j] == orig[j],
        decreases state.len() - i,
    {
        state[i] = state[i] ^ rkey[i];
        i += 1;
    }
    proof {
        assert(state@ =~= xor_bytes(orig, rkey@));
    }
}

/// The fallback AES round: SubBytes, ShiftRows, MixColumns, AddRoundKey,
/// computed in portable code on the 16-byte block in place.
pub fn aesenc_fallback(block: &mut Vec<u8>, key: &Vec<u8>)
    requires
        old(block).len() == 16,
        key.len() == 16,
    ensures
        final(block).len() == 16,
        final(block)@ == aes_round_spec(old(block)@, key@),
{
    subbytes(block);
    shiftrows(block);
    mixcolumns(block);
    addroundkey(block, key);
}

} // verus!
