//! Proves the two multiplication strategies equivalent on the one-word
//! field GF(2^64): the carry fold of a 128-bit product has a closed form
//! there, which is linear over exclusive-or and commutes with
//! multiplication by `t`, so both strategies compute the residue of the
//! same carryless product. Path independence of the dispatched multiply
//! and of inversion follow.

use crate::gf2n::{
    clmul_acc_words, clmul_mul_words, elem_bit, fold_single_word, invert_state_words,
    invert_words, mul_partial_words, mul_words, propagate_words, reduction_pattern,
    shl1_words, shl_iter_words, strategy_mul_words, word_bit, xor_words, zero_words, FieldParams,
};
use crate::pmul::{clmul, clmul_partial};
use vstd::prelude::*;

verus! {

/// The residue of a 128-bit polynomial modulo the one-word pentanomial,
/// written out: the high word folded in twice. For exponents below 32
/// the second fold's own overflow is already zero, so nothing is left.
pub open spec fn reduce128(z: u128, a: u64, b: u64, c: u64) -> u64 {
    let w = z as u64;
    let cr = (z >> 64u128) as u64;
    let h = (cr >> ((64 - a) as u64)) ^ (cr >> ((64 - b) as u64)) ^ (cr >> ((64 - c) as u64));
    w ^ (cr ^ (cr << a) ^ (cr << b) ^ (cr << c)) ^ (h ^ (h << a) ^ (h << b) ^ (h << c))
}

/// The second fold leaves no carry: the once-folded carry fits in the
/// exponent range, and shifting it down by more than that wipes it.
proof fn lemma_second_fold_carry_zero(cr: u64, a: u64, b: u64, c: u64)
    by (bit_vector)
    requires
        0 < c,
        c < b,
        b < a,
        a < 32,
    ensures
        ((((cr >> ((64 - a) as u64)) ^ (cr >> ((64 - b) as u64)) ^ (cr >> ((64 - c) as u64)))
            >> ((64 - a) as u64)) ^ (((cr >> ((64 - a) as u64)) ^ (cr >> ((64 - b) as u64)) ^ (cr
            >> ((64 - c) as u64))) >> ((64 - b) as u64)) ^ (((cr >> ((64 - a) as u64)) ^ (cr >> ((
        64 - b) as u64)) ^ (cr >> ((64 - c) as u64))) >> ((64 - c) as u64))) == 0,
{
}

/// The iterated carry fold equals the closed two-fold form.
proof fn lemma_fold_single_closed(z: u128, p: FieldParams)
    requires
        p.wf(),
    ensures
        fold_single_word(z as u64, (z >> 64u128) as u64, p) == reduce128(z, p.a, p.b, p.c),
{
    let a = p.a;
    let b = p.b;
    let c = p.c;
    let w = z as u64;
    let cr = (z >> 64u128) as u64;
    let h = (cr >> ((64 - a) as u64)) ^ (cr >> ((64 - b) as u64)) ^ (cr >> ((64 - c) as u64));
    if cr == 0 {
        assert(h == 0 && w ^ (0u64 ^ (0u64 << a) ^ (0u64 << b) ^ (0u64 << c)) ^ (0u64 ^ (0u64
            << a) ^ (0u64 << b) ^ (0u64 << c)) == w) by (bit_vector)
            requires
                cr == 0,
                0 < c && c < b && b < a && a < 32u64,
                h == (cr >> ((64 - a) as u64)) ^ (cr >> ((64 - b) as u64)) ^ (cr >> ((64 - c)
                    as u64)),
        ;
    } else {
        let w1 = w ^ cr ^ (cr << a) ^ (cr << b) ^ (cr << c);
        assert(fold_single_word(w, cr, p) == fold_single_word(w1, h, p));
        if h == 0 {
            assert(w1 ^ (h ^ (h << a) ^ (h << b) ^ (h << c)) == w1 && w ^ (cr ^ (cr << a) ^ (
            cr << b) ^ (cr << c)) == w1) by (bit_vector)
                requires
                    h == 0u64,
                    0 < c && c < b && b < a && a < 32u64,
                    w1 == w ^ cr ^ (cr << a) ^ (cr << b) ^ (cr << c),
            ;
        } else {
            let w2 = w1 ^ h ^ (h << a) ^ (h << b) ^ (h << c);
            lemma_second_fold_carry_zero(cr, a, b, c);
            assert(fold_single_word(w1, h, p) == fold_single_word(w2, 0, p));
            assert(w ^ (cr ^ (cr << a) ^ (cr << b) ^ (cr << c)) ^ (h ^ (h << a) ^ (h << b) ^ (h
                << c)) == w2) by (bit_vector)
                requires
                    w1 == w ^ cr ^ (cr << a) ^ (cr << b) ^ (cr << c),
                    w2 == w1 ^ h ^ (h << a) ^ (h << b) ^ (h << c),
            ;
        }
    }
}

/// A left shift distributes over exclusive-or.
proof fn lemma_shl_distributes(x: u64, y: u64, s: u64)
    by (bit_vector)
    requires
        s < 64,
    ensures
        (x ^ y) << s == (x << s) ^ (y << s),
{
}

/// The reduction is linear over exclusive-or: each of its stages —
/// splitting into halves, the fold patterns, the second fold — is.
#[verifier::rlimit(100)]
proof fn lemma_reduce128_linear(z1: u128, z2: u128, a: u64, b: u64, c: u64)
    requires
        0 < c,
        c < b,
        b < a,
        a < 32,
    ensures
        reduce128(z1 ^ z2, a, b, c) == reduce128(z1, a, b, c) ^ reduce128(z2, a, b, c),
{
    let w1 = z1 as u64;
    let w2 = z2 as u64;
    let w3 = (z1 ^ z2) as u64;
    let cr1 = (z1 >> 64u128) as u64;
    let cr2 = (z2 >> 64u128) as u64;
    let cr3 = ((z1 ^ z2) >> 64u128) as u64;
    assert(w3 == w1 ^ w2 && cr3 == cr1 ^ cr2) by (bit_vector)
        requires
            w1 == z1 as u64,
            w2 == z2 as u64,
            w3 == (z1 ^ z2) as u64,
            cr1 == (z1 >> 64u128) as u64,
            cr2 == (z2 >> 64u128) as u64,
            cr3 == ((z1 ^ z2) >> 64u128) as u64,
    ;
    let h1 = (cr1 >> ((64 - a) as u64)) ^ (cr1 >> ((64 - b) as u64)) ^ (cr1 >> ((64 - c)
        as u64));
    let h2 = (cr2 >> ((64 - a) as u64)) ^ (cr2 >> ((64 - b) as u64)) ^ (cr2 >> ((64 - c)
        as u64));
    let h3 = (cr3 >> ((64 - a) as u64)) ^ (cr3 >> ((64 - b) as u64)) ^ (cr3 >> ((64 - c)
        as u64));
    assert(h3 == h1 ^ h2) by (bit_vector)
        requires
            0 < c && c < b && b < a && a < 32u64,
            cr3 == cr1 ^ cr2,
            h1 == (cr1 >> ((64 - a) as u64)) ^ (cr1 >> ((64 - b) as u64)) ^ (cr1 >> ((64 - c)
                as u64)),
            h2 == (cr2 >> ((64 - a) as u64)) ^ (cr2 >> ((64 - b) as u64)) ^ (cr2 >> ((64 - c)
                as u64)),
            h3 == (cr3 >> ((64 - a) as u64)) ^ (cr3 >> ((64 - b) as u64)) ^ (cr3 >> ((64 - c)
                as u64)),
    ;
    lemma_shl_distributes(cr1, cr2, a);
    lemma_shl_distributes(cr1, cr2, b);
    lemma_shl_distributes(cr1, cr2, c);
    let g1 = cr1 ^ (cr1 << a) ^ (cr1 << b) ^ (cr1 << c);
    let g2 = cr2 ^ (cr2 << a) ^ (cr2 << b) ^ (cr2 << c);
    let g3 = cr3 ^ (cr3 << a) ^ (cr3 << b) ^ (cr3 << c);
    assert(g3 == g1 ^ g2) by (bit_vector)
        requires
            cr3 == cr1 ^ cr2,
            (cr1 ^ cr2) << a == (cr1 << a) ^ (cr2 << a),
            (cr1 ^ cr2) << b == (cr1 << b) ^ (cr2 << b),
            (cr1 ^ cr2) << c == (cr1 << c) ^ (cr2 << c),
            g1 == cr1 ^ (cr1 << a) ^ (cr1 << b) ^ (cr1 << c),
            g2 == cr2 ^ (cr2 << a) ^ (cr2 << b) ^ (cr2 << c),
            g3 == cr3 ^ (cr3 << a) ^ (cr3 << b) ^ (cr3 << c),
    ;
    lemma_shl_distributes(h1, h2, a);
    lemma_shl_distributes(h1, h2, b);
    lemma_shl_distributes(h1, h2, c);
    let e1 = h1 ^ (h1 << a) ^ (h1 << b) ^ (h1 << c);
    let e2 = h2 ^ (h2 << a) ^ (h2 << b) ^ (h2 << c);
    let e3 = h3 ^ (h3 << a) ^ (h3 << b) ^ (h3 << c);
    assert(e3 == e1 ^ e2) by (bit_vector)
        requires
            h3 == h1 ^ h2,
            (h1 ^ h2) << a == (h1 << a) ^ (h2 << a),
            (h1 ^ h2) << b == (h1 << b) ^ (h2 << b),
            (h1 ^ h2) << c == (h1 << c) ^ (h2 << c),
            e1 == h1 ^ (h1 << a) ^ (h1 << b) ^ (h1 << c),
            e2 == h2 ^ (h2 << a) ^ (h2 << b) ^ (h2 << c),
            e3 == h3 ^ (h3 << a) ^ (h3 << b) ^ (h3 << c),
    ;
    assert(w3 ^ g3 ^ e3 == (w1 ^ g1 ^ e1) ^ (w2 ^ g2 ^ e2)) by (bit_vector)
        requires
            w3 == w1 ^ w2,
            g3 == g1 ^ g2,
            e3 == e1 ^ e2,
    ;
}

/// A 128-bit polynomial that already fits in the low word is its own
/// residue, for the GF(2^64) exponents.
proof fn lemma_reduce128_low_gf64(v: u64)
    by (bit_vector)
    ensures
        reduce128(v as u128, 4, 3, 1) == v,
{
}

/// For the GF(2^64) exponents, reduction commutes with multiplication
/// by `t`: reducing the doubled polynomial equals doubling the residue
/// and folding in the pentanomial pattern if a bit falls off the top.
#[verifier::rlimit(100)]
proof fn lemma_reduce128_shl1_gf64(z: u128)
    by (bit_vector)
    requires
        z < 0x80000000000000000000000000000000u128,
    ensures
        reduce128(z << 1u128, 4, 3, 1) == ((reduce128(z, 4, 3, 1) << 1u64) ^ (if reduce128(
            z,
            4,
            3,
            1,
        ) >> 63u64 != 0u64 {
            0x1bu64
        } else {
            0u64
        })),
{
}

/// The `k`-fold shift of a one-word GF(2^64) element is the residue of
/// the plain 128-bit shift.
proof fn lemma_shl_iter_gf64(x: Seq<u64>, p: FieldParams, k: nat)
    requires
        x.len() == 1,
        p == (FieldParams { nwords: 1usize, a: 4u64, b: 3u64, c: 1u64 }),
        k <= 63,
    ensures
        shl_iter_words(x, p, k).len() == 1,
        shl_iter_words(x, p, k)[0] == reduce128((x[0] as u128) << (k as u128), 4, 3, 1),
    decreases k,
{
    let v = x[0];
    if k == 0 {
        assert((v as u128) << 0u128 == v as u128) by (bit_vector);
        lemma_reduce128_low_gf64(v);
    } else {
        lemma_shl_iter_gf64(x, p, (k - 1) as nat);
        let prev = shl_iter_words(x, p, (k - 1) as nat);
        let r = prev[0];
        let s = (k - 1) as u128;
        let z = (v as u128) << s;
        assert(z < 0x80000000000000000000000000000000u128 && (z << 1u128) == (v as u128) << ((s
            + 1) as u128) && 1u64 ^ (1u64 << 4u64) ^ (1u64 << 3u64) ^ (1u64 << 1u64) == 0x1b)
            by (bit_vector)
            requires
                s < 63u128,
                z == (v as u128) << s,
        ;
        lemma_reduce128_shl1_gf64(z);
        assert(reduction_pattern(p) == 0x1b);
        let cur = shl_iter_words(x, p, k);
        assert(cur == shl1_words(prev, p));
        assert((r << 1u64) ^ 0u64 == r << 1u64 && ((r << 1u64) ^ 0u64) ^ 0x1bu64 == (r
            << 1u64) ^ 0x1bu64) by (bit_vector);
        if r >> 63u64 == 0u64 {
            assert(cur[0] == r << 1u64);
        } else {
            assert(cur[0] == (r << 1u64) ^ 0x1bu64);
        }
    }
}

/// The bit-serial product, cut off after `k` bits, is the residue of the
/// carryless partial product with the operands exchanged: the bit-serial
/// strategy walks the bits of its right operand, the carryless primitive
/// the bits of its left one.
proof fn lemma_mul_partial_is_reduced_clmul(x: Seq<u64>, y: Seq<u64>, p: FieldParams, k: nat)
    requires
        x.len() == 1,
        y.len() == 1,
        p == (FieldParams { nwords: 1usize, a: 4u64, b: 3u64, c: 1u64 }),
        k <= 64,
    ensures
        mul_partial_words(x, y, p, k).len() == 1,
        mul_partial_words(x, y, p, k)[0] == reduce128(clmul_partial(y[0], x[0], k), 4, 3, 1),
    decreases k,
{
    if k == 0 {
        assert(reduce128(0u128, 4, 3, 1) == 0) by (bit_vector);
    } else {
        lemma_mul_partial_is_reduced_clmul(x, y, p, (k - 1) as nat);
        let kk = (k - 1) as int;
        vstd::arithmetic::div_mod::lemma_fundamental_div_mod_converse(kk, 64, 0, kk);
        assert(elem_bit(y, (k - 1) as nat) == word_bit(y[0], kk as u64));
        let prev = mul_partial_words(x, y, p, (k - 1) as nat);
        let prev128 = clmul_partial(y[0], x[0], (k - 1) as nat);
        if elem_bit(y, (k - 1) as nat) {
            lemma_shl_iter_gf64(x, p, (k - 1) as nat);
            let sh = shl_iter_words(x, p, (k - 1) as nat);
            assert(xor_words(prev, sh).len() == 1);
            assert(xor_words(prev, sh)[0] == prev[0] ^ sh[0]);
            lemma_reduce128_linear(prev128, (x[0] as u128) << ((k - 1) as u128), 4, 3, 1);
        }
    }
}

/// The accelerated product of `x` and `y` is the bit-serial product of
/// `y` and `x`: the two strategies walk the bits of opposite operands.
proof fn lemma_gf64_strategy_swap(x: Seq<u64>, y: Seq<u64>, p: FieldParams)
    requires
        x.len() == 1,
        y.len() == 1,
        p == (FieldParams { nwords: 1usize, a: 4u64, b: 3u64, c: 1u64 }),
    ensures
        clmul_mul_words(x, y, p) == mul_words(y, x, p),
{
    let z = clmul(x[0], y[0]);
    let lo = z as u64;
    let hi = (z >> 64u128) as u64;
    // One pair of words is accumulated: its low half lands in the single
    // result word, its high half in the single carry word.
    vstd::arithmetic::div_mod::lemma_fundamental_div_mod_converse(0, 1, 0, 0);
    let acc = clmul_acc_words(x, y, 1);
    assert(clmul_acc_words(x, y, 0) == (zero_words(1), zero_words(1)));
    assert(0u64 ^ lo == lo && 0u64 ^ hi == hi) by (bit_vector);
    assert(acc.0 =~= seq![lo]);
    assert(acc.1 =~= seq![hi]);
    assert(clmul_mul_words(x, y, p) == propagate_words(acc.0, acc.1, p));
    assert(propagate_words(acc.0, acc.1, p) == seq![fold_single_word(lo, hi, p)]);
    lemma_fold_single_closed(z, p);
    lemma_mul_partial_is_reduced_clmul(y, x, p, 64);
    assert(mul_words(y, x, p)[0] == reduce128(clmul_partial(x[0], y[0], 64), 4, 3, 1));
    assert(clmul_mul_words(x, y, p) =~= mul_words(y, x, p));
}

/// Law (multiplication commutes, GF(2^64)): the bit-serial product does
/// not depend on the order of its operands, since both orders reduce the
/// same carryless product.
pub proof fn lemma_gf64_mul_commutes(x: Seq<u64>, y: Seq<u64>, p: FieldParams)
    requires
        x.len() == 1,
        y.len() == 1,
        p == (FieldParams { nwords: 1usize, a: 4u64, b: 3u64, c: 1u64 }),
    ensures
        mul_words(x, y, p) == mul_words(y, x, p),
{
    lemma_mul_partial_is_reduced_clmul(x, y, p, 64);
    lemma_mul_partial_is_reduced_clmul(y, x, p, 64);
    crate::pmul::lemma_clmul_commutes(x[0], y[0]);
    assert(mul_words(x, y, p) =~= mul_words(y, x, p));
}

/// Law (strategy equivalence, GF(2^64)): for every pair of elements, the
/// accelerated and the bit-serial multiplication strategy produce
/// bit-identical results.
pub proof fn lemma_gf64_strategies_agree(x: Seq<u64>, y: Seq<u64>, p: FieldParams)
    requires
        x.len() == 1,
        y.len() == 1,
        p == (FieldParams { nwords: 1usize, a: 4u64, b: 3u64, c: 1u64 }),
    ensures
        clmul_mul_words(x, y, p) == mul_words(x, y, p),
{
    lemma_gf64_strategy_swap(x, y, p);
    lemma_gf64_mul_commutes(x, y, p);
}

/// Law (dispatch transparency, GF(2^64)): whichever strategy the
/// capability pair selects, the dispatched product is the bit-serial
/// product — the path changes nothing but the tag.
pub proof fn lemma_gf64_dispatch_transparent(
    x: Seq<u64>,
    y: Seq<u64>,
    p: FieldParams,
    accelerated: bool,
)
    requires
        x.len() == 1,
        y.len() == 1,
        p == (FieldParams { nwords: 1usize, a: 4u64, b: 3u64, c: 1u64 }),
    ensures
        strategy_mul_words(x, y, p, accelerated) == mul_words(x, y, p),
{
    if accelerated {
        lemma_gf64_strategies_agree(x, y, p);
    }
}

proof fn lemma_gf64_invert_state_path_independent(x: Seq<u64>, p: FieldParams, k: nat)
    requires
        x.len() == 1,
        p == (FieldParams { nwords: 1usize, a: 4u64, b: 3u64, c: 1u64 }),
    ensures
        invert_state_words(x, p, true, k) == invert_state_words(x, p, false, k),
        invert_state_words(x, p, false, k).0.len() == 1,
        invert_state_words(x, p, false, k).1.len() == 1,
    decreases k,
{
    if k > 0 {
        lemma_gf64_invert_state_path_independent(x, p, (k - 1) as nat);
        let prev = invert_state_words(x, p, false, (k - 1) as nat);
        lemma_gf64_dispatch_transparent(prev.0, prev.0, p, true);
        let s2 = strategy_mul_words(prev.0, prev.0, p, false);
        lemma_mul_partial_is_reduced_clmul(prev.0, prev.0, p, 64);
        lemma_gf64_dispatch_transparent(prev.1, s2, p, true);
        lemma_mul_partial_is_reduced_clmul(prev.1, s2, p, 64);
    }
}

/// Law (inversion is path-independent, GF(2^64)): the Fermat inversion
/// chain gives the same element whichever multiplication strategy the
/// dispatcher runs it on.
pub proof fn lemma_gf64_invert_path_independent(x: Seq<u64>, p: FieldParams)
    requires
        x.len() == 1,
        p == (FieldParams { nwords: 1usize, a: 4u64, b: 3u64, c: 1u64 }),
    ensures
        invert_words(x, p, true) == invert_words(x, p, false),
{
    lemma_gf64_invert_state_path_independent(x, p, 63);
}

} // verus!
