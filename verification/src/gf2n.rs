//! Binary finite fields GF(2^n).
//!
//! An element is a polynomial over GF(2) of degree below n, stored as
//! `nwords` 64-bit words, least-significant word first, so n = 64·nwords.
//! Reduction uses an irreducible pentanomial `t^n + t^a + t^b + t^c + 1`
//! with `0 < c < b < a`. Addition is word-wise exclusive-or; two
//! multiplication strategies (bit-serial, and carryless word products with
//! carry propagation) and Fermat inversion are built on top.

use crate::cpu::Capabilities;
use vstd::prelude::*;

verus! {

/// The shape of one field: how many 64-bit words an element occupies and
/// the three middle exponents of the reducing pentanomial.
#[derive(Clone, Copy, Debug, Hash, PartialEq, Eq, Structural)]
pub struct FieldParams {
    /// Number of 64-bit words per element; the field has 2^(64·nwords) elements.
    pub nwords: usize,
    /// Largest middle exponent of the pentanomial.
    pub a: u64,
    /// Second middle exponent.
    pub b: u64,
    /// Smallest middle exponent.
    pub c: u64,
}

impl FieldParams {
    /// The exponents are ordered and small enough that every shift below
    /// stays inside one word and the reduction of a word-sized carry
    /// terminates; the word count is bounded so bit counts fit in `usize`.
    pub open spec fn wf(&self) -> bool {
        &&& 1 <= self.nwords <= 0x8000
        &&& 0 < self.c < self.b < self.a < 32
    }
}

/// GF(2^64) with reducing polynomial `t^64 + t^4 + t^3 + t + 1`.
pub fn gf64_params() -> (p: FieldParams)
    ensures
        p.wf(),
        p == (FieldParams { nwords: 1usize, a: 4u64, b: 3u64, c: 1u64 }),
{
    FieldParams { nwords: 1, a: 4, b: 3, c: 1 }
}

/// GF(2^128) with reducing polynomial `t^128 + t^7 + t^2 + t + 1`.
pub fn gf128_params() -> (p: FieldParams)
    ensures
        p.wf(),
        p == (FieldParams { nwords: 2usize, a: 7u64, b: 2u64, c: 1u64 }),
{
    FieldParams { nwords: 2, a: 7, b: 2, c: 1 }
}

/// GF(2^256) with reducing polynomial `t^256 + t^10 + t^5 + t^2 + 1`.
pub fn gf256_params() -> (p: FieldParams)
    ensures
        p.wf(),
        p == (FieldParams { nwords: 4usize, a: 10u64, b: 5u64, c: 2u64 }),
{
    FieldParams { nwords: 4, a: 10, b: 5, c: 2 }
}

/// Bit `k` of one word, counting from the least significant end.
pub open spec fn word_bit(w: u64, k: u64) -> bool {
    (w >> k) & 1 == 1
}

/// The additive identity: all words zero.
pub open spec fn zero_words(n: nat) -> Seq<u64> {
    Seq::new(n, |i: int| 0u64)
}

/// The multiplicative identity: the polynomial 1.
pub open spec fn one_words(n: nat) -> Seq<u64> {
    zero_words(n).update(0, 1u64)
}

/// Word-wise exclusive-or: addition of polynomials over GF(2).
pub open spec fn xor_words(x: Seq<u64>, y: Seq<u64>) -> Seq<u64> {
    Seq::new(x.len(), |i: int| x[i] ^ y[i])
}

/// Exclusive-or on words is an abelian group operation with identity 0
/// in which every word is its own inverse.
proof fn lemma_xor_word_algebra(v: u64, u: u64, t: u64)
    by (bit_vector)
    ensures
        v ^ v == 0,
        v ^ u == u ^ v,
        (v ^ u) ^ t == v ^ (u ^ t),
        0u64 ^ v == v,
        v ^ 0u64 == v,
{
}

/// Law: every element is its own additive inverse — adding an element
/// to itself gives the additive identity (the field has characteristic
/// 2), so addition is simultaneously subtraction.
pub proof fn lemma_add_self_is_zero(x: Seq<u64>)
    ensures
        xor_words(x, x) == zero_words(x.len()),
{
    assert forall|i: int| 0 <= i < x.len() implies xor_words(x, x)[i] == 0u64 by {
        lemma_xor_word_algebra(x[i], 0, 0);
    };
    assert(xor_words(x, x) =~= zero_words(x.len()));
}

/// Law: addition is commutative.
pub proof fn lemma_add_commutes(x: Seq<u64>, y: Seq<u64>)
    requires
        x.len() == y.len(),
    ensures
        xor_words(x, y) == xor_words(y, x),
{
    assert forall|i: int| 0 <= i < x.len() implies xor_words(x, y)[i] == xor_words(y, x)[i] by {
        lemma_xor_word_algebra(x[i], y[i], 0);
    };
    assert(xor_words(x, y) =~= xor_words(y, x));
}

/// Law: addition is associative.
pub proof fn lemma_add_associates(x: Seq<u64>, y: Seq<u64>, z: Seq<u64>)
    requires
        x.len() == y.len(),
        y.len() == z.len(),
    ensures
        xor_words(xor_words(x, y), z) == xor_words(x, xor_words(y, z)),
{
    assert forall|i: int|
        0 <= i < x.len() implies xor_words(xor_words(x, y), z)[i] == xor_words(
        x,
        xor_words(y, z),
    )[i] by {
        lemma_xor_word_algebra(x[i], y[i], z[i]);
    };
    assert(xor_words(xor_words(x, y), z) =~= xor_words(x, xor_words(y, z)));
}

/// The low-word bit pattern of the reducing pentanomial: bits 0, c, b
/// and a set. Folding this in stands for `t^n ≡ t^a + t^b + t^c + 1`.
pub open spec fn reduction_pattern(p: FieldParams) -> u64 {
    1u64 ^ (1u64 << p.a) ^ (1u64 << p.b) ^ (1u64 << p.c)
}

/// Multiplication by `t` modulo the pentanomial: shift the whole word
/// sequence left by one bit, and if a bit falls off the top, fold the
/// reduction pattern into the lowest word.
pub open spec fn shl1_words(s: Seq<u64>, p: FieldParams) -> Seq<u64> {
    let shifted = Seq::new(
        s.len(),
        |i: int| (s[i] << 1u64) ^ (if i == 0 { 0u64 } else { s[i - 1] >> 63u64 }),
    );
    if s[s.len() - 1] >> 63u64 == 0u64 {
        shifted
    } else {
        shifted.update(0, shifted[0] ^ reduction_pattern(p))
    }
}

/// `k`-fold multiplication by `t` modulo the pentanomial.
pub open spec fn shl_iter_words(s: Seq<u64>, p: FieldParams, k: nat) -> Seq<u64>
    decreases k,
{
    if k == 0 {
        s
    } else {
        shl1_words(shl_iter_words(s, p, (k - 1) as nat), p)
    }
}

/// Bit `k` of an element, counting across the word sequence from the
/// least significant end.
pub open spec fn elem_bit(s: Seq<u64>, k: nat) -> bool {
    word_bit(s[(k / 64) as int], (k % 64) as u64)
}

/// Binary long multiplication with inline reduction, cut off after the
/// lowest `k` bits of `y`: the exclusive-or of `x·t^i mod p` over every
/// `i < k` whose bit is set in `y`.
pub open spec fn mul_partial_words(x: Seq<u64>, y: Seq<u64>, p: FieldParams, k: nat) -> Seq<u64>
    decreases k,
{
    if k == 0 {
        zero_words(x.len())
    } else {
        let prev = mul_partial_words(x, y, p, (k - 1) as nat);
        if elem_bit(y, (k - 1) as nat) {
            xor_words(prev, shl_iter_words(x, p, (k - 1) as nat))
        } else {
            prev
        }
    }
}

/// The field product as the bit-serial strategy defines it: all bits of
/// `y` processed from the least significant end.
pub open spec fn mul_words(x: Seq<u64>, y: Seq<u64>, p: FieldParams) -> Seq<u64> {
    mul_partial_words(x, y, p, (64 * y.len()) as nat)
}

/// After one reduction step on a word-sized carry, the carry that is
/// still left is strictly smaller, so folding terminates: the exponents
/// stay below 32, hence the re-shifted carry loses at least half its bits.
proof fn lemma_fold_carry_shrinks(cr: u64, a: u64, b: u64, c: u64)
    by (bit_vector)
    requires
        cr != 0,
        0 < c,
        c < b,
        b < a,
        a < 32,
    ensures
        ((cr >> ((64 - a) as u64)) ^ (cr >> ((64 - b) as u64)) ^ (cr >> ((64 - c) as u64)))
            < cr,
{
}

/// Exclusive-or chains may be grouped freely.
proof fn lemma_xor_fold_shape(w: u64, x: u64, y: u64, z: u64, v: u64)
    by (bit_vector)
    ensures
        w ^ (x ^ y ^ z ^ v) == w ^ x ^ y ^ z ^ v,
{
}

/// Reduces a whole word of carry (overflow at or above t^64 in a
/// one-word field) into the low word, folding repeatedly until no carry
/// is left; a single 128-bit word product can overflow twice.
pub open spec fn fold_single_word(w: u64, cr: u64, p: FieldParams) -> u64
    decreases cr,
    when p.wf()
    via fold_single_word_decreases
{
    if cr == 0 {
        w
    } else {
        fold_single_word(
            w ^ cr ^ (cr << p.a) ^ (cr << p.b) ^ (cr << p.c),
            (cr >> ((64 - p.a) as u64)) ^ (cr >> ((64 - p.b) as u64)) ^ (cr >> ((64 - p.c)
                as u64)),
            p,
        )
    }
}

#[via_fn]
proof fn fold_single_word_decreases(w: u64, cr: u64, p: FieldParams) {
    if cr != 0 {
        lemma_fold_carry_shrinks(cr, p.a, p.b, p.c);
    }
}

/// Folds carry word `i` into result words `i` and `i+1`; the overflow of
/// the final carry word wraps around into words 0 and 1, reduced once
/// more on the way.
pub open spec fn propagate_step_words(w: Seq<u64>, cr_i: u64, i: int, p: FieldParams) -> Seq<
    u64,
> {
    let n = w.len() as int;
    let low = cr_i ^ (cr_i << p.a) ^ (cr_i << p.b) ^ (cr_i << p.c);
    let high = (cr_i >> ((64 - p.a) as u64)) ^ (cr_i >> ((64 - p.b) as u64)) ^ (cr_i >> ((64
        - p.c) as u64));
    let w1 = w.update(i, w[i] ^ low);
    if i + 1 < n {
        w1.update(i + 1, w1[i + 1] ^ high)
    } else {
        let low2 = high ^ (high << p.a) ^ (high << p.b) ^ (high << p.c);
        let high2 = (high >> ((64 - p.a) as u64)) ^ (high >> ((64 - p.b) as u64)) ^ (high >> ((
        64 - p.c) as u64));
        let w2 = w1.update(0, w1[0] ^ low2);
        w2.update(1, w2[1] ^ high2)
    }
}

/// The first `k` carry words folded into the result, in order.
pub open spec fn propagate_multi_words(w: Seq<u64>, carry: Seq<u64>, p: FieldParams, k: nat) -> Seq<
    u64,
>
    decreases k,
{
    if k == 0 {
        w
    } else {
        propagate_step_words(
            propagate_multi_words(w, carry, p, (k - 1) as nat),
            carry[k - 1],
            k - 1,
            p,
        )
    }
}

/// The polynomial reduction of an N-word overflow buffer into an N-word
/// result: iterated folding for a one-word field, one pass with a
/// wrap-around step for wider fields.
pub open spec fn propagate_words(w: Seq<u64>, carry: Seq<u64>, p: FieldParams) -> Seq<u64> {
    if w.len() == 1 {
        seq![fold_single_word(w[0], carry[0], p)]
    } else {
        propagate_multi_words(w, carry, p, w.len())
    }
}

/// The first `k` of the n·n word pairs (row by row) carrylessly
/// multiplied and accumulated: the low half of each 128-bit product lands
/// at word `i+j` and the high half at `i+j+1`, either in the result words
/// or, at or beyond word n, in the carry buffer.
pub open spec fn clmul_acc_words(x: Seq<u64>, y: Seq<u64>, k: nat) -> (Seq<u64>, Seq<u64>)
    decreases k,
{
    let n = x.len() as int;
    if k == 0 {
        (zero_words(x.len()), zero_words(x.len()))
    } else {
        let prev = clmul_acc_words(x, y, (k - 1) as nat);
        let w = prev.0;
        let cr = prev.1;
        let i = ((k - 1) as int) / n;
        let j = ((k - 1) as int) % n;
        let prod = crate::pmul::clmul(x[i], y[j]);
        let lo = prod as u64;
        let hi = (prod >> 64u128) as u64;
        let ij = i + j;
        let w1 = if ij < n {
            w.update(ij, w[ij] ^ lo)
        } else {
            w
        };
        let cr1 = if ij < n {
            cr
        } else {
            cr.update(ij - n, cr[ij - n] ^ lo)
        };
        let w2 = if ij + 1 < n {
            w1.update(ij + 1, w1[ij + 1] ^ hi)
        } else {
            w1
        };
        let cr2 = if ij + 1 < n {
            cr1
        } else {
            cr1.update(ij + 1 - n, cr1[ij + 1 - n] ^ hi)
        };
        (w2, cr2)
    }
}

/// The field product as the accelerated strategy defines it: all word
/// pairs carrylessly multiplied and accumulated, then the carry buffer
/// reduced back into the result.
pub open spec fn clmul_mul_words(x: Seq<u64>, y: Seq<u64>, p: FieldParams) -> Seq<u64> {
    let acc = clmul_acc_words(x, y, (x.len() * x.len()) as nat);
    propagate_words(acc.0, acc.1, p)
}

/// What the dispatched product is, given which strategy the capability
/// pair selects.
pub open spec fn strategy_mul_words(
    x: Seq<u64>,
    y: Seq<u64>,
    p: FieldParams,
    accelerated: bool,
) -> Seq<u64> {
    if accelerated {
        clmul_mul_words(x, y, p)
    } else {
        mul_words(x, y, p)
    }
}

/// The tag the dispatcher reports: a function of the detected
/// capabilities alone, never of the operands.
pub open spec fn strategy_tag(caps: Capabilities) -> Seq<char> {
    if caps.spec_accelerated() {
        "accelerated"@
    } else {
        "fallback"@
    }
}

/// Adding the additive identity changes nothing.
proof fn lemma_xor_zero_left(x: Seq<u64>)
    ensures
        xor_words(zero_words(x.len()), x) == x,
{
    assert forall|i: int| 0 <= i < x.len() implies xor_words(zero_words(x.len()), x)[i]
        == x[i] by {
        lemma_xor_word_algebra(x[i], 0, 0);
    };
    assert(xor_words(zero_words(x.len()), x) =~= x);
}

/// The multiplicative identity has exactly one bit set: bit 0.
proof fn lemma_one_words_bits(n: nat, k: nat)
    requires
        1 <= n,
        k < 64 * n,
    ensures
        elem_bit(one_words(n), k) == (k == 0),
{
    let kk = k as int;
    vstd::arithmetic::div_mod::lemma_fundamental_div_mod(kk, 64);
    vstd::arithmetic::div_mod::lemma_mod_bound(kk, 64);
    let q = kk / 64;
    let r = (kk % 64) as u64;
    if q >= n {
        vstd::arithmetic::mul::lemma_mul_inequality(n as int, q, 64);
    }
    if kk == 0 {
        assert((1u64 >> 0u64) & 1 == 1) by (bit_vector);
    } else if q == 0 {
        assert((1u64 >> r) & 1 != 1) by (bit_vector)
            requires
                0 < r < 64u64,
        ;
    } else {
        assert((0u64 >> r) & 1 != 1) by (bit_vector);
    }
}

/// Multiplying by the identity, cut off after any positive number of
/// bits, already gives the left operand back: only bit 0 contributes.
proof fn lemma_mul_partial_one(x: Seq<u64>, p: FieldParams, k: nat)
    requires
        p.wf(),
        x.len() == p.nwords,
        1 <= k <= 64 * x.len(),
    ensures
        mul_partial_words(x, one_words(x.len()), p, k) == x,
    decreases k,
{
    let n = x.len();
    if k == 1 {
        assert(mul_partial_words(x, one_words(n), p, 0) == zero_words(n));
        lemma_one_words_bits(n, 0);
        assert(shl_iter_words(x, p, 0) == x);
        lemma_xor_zero_left(x);
        assert(mul_partial_words(x, one_words(n), p, 1) == xor_words(zero_words(n), x));
    } else {
        lemma_mul_partial_one(x, p, (k - 1) as nat);
        lemma_one_words_bits(n, (k - 1) as nat);
        assert(!elem_bit(one_words(n), (k - 1) as nat));
        assert(mul_partial_words(x, one_words(n), p, k) == mul_partial_words(
            x,
            one_words(n),
            p,
            (k - 1) as nat,
        ));
    }
}

/// Law: the polynomial 1 is the multiplicative identity of the
/// bit-serial strategy — multiplying any element by it gives the element
/// back.
pub proof fn lemma_mul_one_identity(x: Seq<u64>, p: FieldParams)
    requires
        p.wf(),
        x.len() == p.nwords,
    ensures
        mul_words(x, one_words(x.len()), p) == x,
{
    lemma_mul_partial_one(x, p, (64 * x.len()) as nat);
}

proof fn lemma_xor_zero_u64(v: u64)
    by (bit_vector)
    ensures
        v ^ 0 == v,
        0u64 ^ v == v,
{
}

proof fn lemma_low_high_of_word(v: u64)
    by (bit_vector)
    ensures
        ((v as u128) as u64) == v,
        (((v as u128) >> 64u128) as u64) == 0,
        (0u128 as u64) == 0,
        ((0u128 >> 64u128) as u64) == 0,
{
}

/// Folding a zero carry word changes nothing.
proof fn lemma_propagate_step_zero(w: Seq<u64>, i: int, p: FieldParams)
    requires
        p.wf(),
        2 <= w.len(),
        0 <= i < w.len(),
    ensures
        propagate_step_words(w, 0, i, p) == w,
{
    let a = p.a;
    let b = p.b;
    let c = p.c;
    assert(0u64 ^ (0u64 << a) ^ (0u64 << b) ^ (0u64 << c) == 0) by (bit_vector);
    assert((0u64 >> ((64 - a) as u64)) ^ (0u64 >> ((64 - b) as u64)) ^ (0u64 >> ((64 - c)
        as u64)) == 0) by (bit_vector);
    lemma_xor_zero_u64(w[i]);
    let w1 = w.update(i, w[i] ^ 0);
    assert(w1 =~= w);
    if i + 1 < w.len() {
        lemma_xor_zero_u64(w1[i + 1]);
        assert(w1.update(i + 1, w1[i + 1] ^ 0) =~= w);
    } else {
        lemma_xor_zero_u64(w1[0]);
        let w2 = w1.update(0, w1[0] ^ 0);
        assert(w2 =~= w);
        lemma_xor_zero_u64(w2[1]);
        assert(w2.update(1, w2[1] ^ 0) =~= w);
    }
}

proof fn lemma_propagate_multi_zero(w: Seq<u64>, p: FieldParams, k: nat)
    requires
        p.wf(),
        2 <= w.len(),
        k <= w.len(),
    ensures
        propagate_multi_words(w, zero_words(w.len()), p, k) == w,
    decreases k,
{
    if k > 0 {
        lemma_propagate_multi_zero(w, p, (k - 1) as nat);
        lemma_propagate_step_zero(w, k - 1, p);
    }
}

/// Reducing an all-zero overflow buffer changes nothing.
proof fn lemma_propagate_zero_carry(w: Seq<u64>, p: FieldParams)
    requires
        p.wf(),
        w.len() == p.nwords,
    ensures
        propagate_words(w, zero_words(w.len()), p) == w,
{
    if w.len() == 1 {
        assert(seq![fold_single_word(w[0], 0, p)] =~= w);
    } else {
        lemma_propagate_multi_zero(w, p, w.len());
    }
}

/// Rows start `n` steps apart: the first step of row `t` lies a whole
/// row before or after the first step of row `i`.
proof fn lemma_row_start_bounds(n: int, i: int, t: int)
    requires
        0 <= t,
        0 <= i,
        1 <= n,
    ensures
        t < i ==> n * t + n <= n * i,
        t > i ==> n * i + n <= n * t,
{
    vstd::arithmetic::mul::lemma_mul_basics(n);
    vstd::arithmetic::mul::lemma_mul_is_commutative(n, t);
    vstd::arithmetic::mul::lemma_mul_is_commutative(n, i);
    if t < i {
        vstd::arithmetic::mul::lemma_mul_inequality(t + 1, i, n);
        vstd::arithmetic::mul::lemma_mul_is_distributive_add_other_way(n, t, 1);
    } else if t > i {
        vstd::arithmetic::mul::lemma_mul_inequality(i + 1, t, n);
        vstd::arithmetic::mul::lemma_mul_is_distributive_add_other_way(n, i, 1);
    }
}

/// The result words after the first `k` word-pair steps of multiplying
/// by the identity: row `i` has contributed its word exactly when its
/// first step (pair (i, 0)) is among the `k`.
spec fn acc_one_row_prefix(x: Seq<u64>, k: nat) -> Seq<u64> {
    Seq::new(x.len(), |i: int| if x.len() * i < k { x[i] } else { 0u64 })
}

/// Accumulating the word products of `x` and the identity: only the
/// pairs (i, 0) contribute, each adding word `i` of `x` into result word
/// `i`; the carry buffer stays zero throughout.
proof fn lemma_clmul_acc_one(x: Seq<u64>, k: nat)
    requires
        1 <= x.len(),
        k <= x.len() * x.len(),
    ensures
        clmul_acc_words(x, one_words(x.len()), k).0 == acc_one_row_prefix(x, k),
        clmul_acc_words(x, one_words(x.len()), k).1 == zero_words(x.len()),
    decreases k,
{
    let n = x.len() as int;
    let one = one_words(x.len());
    if k == 0 {
        assert(clmul_acc_words(x, one, 0).0 =~= acc_one_row_prefix(x, 0));
    } else {
        lemma_clmul_acc_one(x, (k - 1) as nat);
        let kk = (k - 1) as int;
        vstd::arithmetic::div_mod::lemma_fundamental_div_mod(kk, n);
        vstd::arithmetic::div_mod::lemma_mod_bound(kk, n);
        let i = kk / n;
        let j = kk % n;
        if i >= n {
            vstd::arithmetic::mul::lemma_mul_inequality(n, i, n);
        }
        assert(0 <= i < n);
        let w = clmul_acc_words(x, one, (k - 1) as nat).0;
        let cr = clmul_acc_words(x, one, (k - 1) as nat).1;
        if j == 0 {
            let v = x[i];
            crate::pmul::lemma_clmul_one(v);
            lemma_low_high_of_word(v);
            assert(n * i == kk);
            let lo = v;
            lemma_xor_zero_u64(w[i]);
            assert(w[i] == 0);
            let w1 = w.update(i, w[i] ^ lo);
            lemma_xor_word_algebra(lo, 0, 0);
            assert forall|t: int| 0 <= t < n implies w1[t] == acc_one_row_prefix(x, k)[t] by {
                lemma_row_start_bounds(n, i, t);
            };
            assert(w1 =~= acc_one_row_prefix(x, k));
            if i + 1 < n {
                lemma_xor_zero_u64(w1[i + 1]);
                assert(w1.update(i + 1, w1[i + 1] ^ 0) =~= acc_one_row_prefix(x, k));
            } else {
                lemma_xor_zero_u64(cr[i + 1 - n]);
                assert(cr.update(i + 1 - n, cr[i + 1 - n] ^ 0) =~= zero_words(x.len()));
            }
        } else {
            assert(one[j] == 0);
            crate::pmul::lemma_clmul_zero(x[i]);
            lemma_low_high_of_word(0);
            assert forall|t: int|
                0 <= t < n implies acc_one_row_prefix(x, k)[t] == acc_one_row_prefix(
                x,
                (k - 1) as nat,
            )[t] by {
                lemma_row_start_bounds(n, i, t);
            };
            assert(acc_one_row_prefix(x, k) =~= acc_one_row_prefix(x, (k - 1) as nat));
            let ij = i + j;
            if ij < n {
                lemma_xor_zero_u64(w[ij]);
                assert(w.update(ij, w[ij] ^ 0) =~= w);
            } else {
                lemma_xor_zero_u64(cr[ij - n]);
                assert(cr.update(ij - n, cr[ij - n] ^ 0) =~= cr);
            }
            if ij + 1 < n {
                lemma_xor_zero_u64(w[ij + 1]);
                assert(w.update(ij + 1, w[ij + 1] ^ 0) =~= w);
                assert(w.update(ij, w[ij] ^ 0).update(ij + 1, w.update(ij, w[ij] ^ 0)[ij + 1]
                    ^ 0) =~= w);
            } else {
                lemma_xor_zero_u64(cr[ij + 1 - n]);
                assert(cr.update(ij + 1 - n, cr[ij + 1 - n] ^ 0) =~= cr);
                if ij >= n {
                    assert(cr.update(ij - n, cr[ij - n] ^ 0).update(ij + 1 - n, cr.update(ij - n,
                        cr[ij - n] ^ 0)[ij + 1 - n] ^ 0) =~= cr);
                }
            }
        }
    }
}

/// Law: the polynomial 1 is the multiplicative identity of the
/// accelerated strategy too.
pub proof fn lemma_mul_clmul_one_identity(x: Seq<u64>, p: FieldParams)
    requires
        p.wf(),
        x.len() == p.nwords,
    ensures
        clmul_mul_words(x, one_words(x.len()), p) == x,
{
    vstd::arithmetic::mul::lemma_mul_inequality(1, x.len() as int, x.len() as int);
    lemma_clmul_acc_one(x, (x.len() * x.len()) as nat);
    let acc = clmul_acc_words(x, one_words(x.len()), (x.len() * x.len()) as nat);
    assert forall|t: int| 0 <= t < x.len() implies acc_one_row_prefix(
        x,
        (x.len() * x.len()) as nat,
    )[t] == x[t] by {
        lemma_row_start_bounds(x.len() as int, x.len() as int, t);
    };
    assert(acc.0 =~= x);
    lemma_propagate_zero_carry(x, p);
}

/// Law: under either strategy, multiplying an element by the
/// multiplicative identity gives the element back; in particular the two
/// strategies agree on such products, whichever one the dispatcher runs.
pub proof fn lemma_strategy_mul_one_identity(x: Seq<u64>, p: FieldParams, accelerated: bool)
    requires
        p.wf(),
        x.len() == p.nwords,
    ensures
        strategy_mul_words(x, one_words(x.len()), p, accelerated) == x,
{
    if accelerated {
        lemma_mul_clmul_one_identity(x, p);
    } else {
        lemma_mul_one_identity(x, p);
    }
}

/// Law: dispatch is deterministic — the strategy tag depends on the
/// detected capability pair alone, so within one process, where detection
/// is cached and stable, repeated calls always report the same tag.
pub proof fn lemma_dispatch_deterministic(caps1: Capabilities, caps2: Capabilities)
    requires
        caps1 == caps2,
    ensures
        strategy_tag(caps1) == strategy_tag(caps2),
{
}

/// The state of Fermat inversion after `k` squaring rounds under the
/// given strategy: the running square `s = x^(2^k)` and the accumulated
/// product `r = x^(2^k - 2)` (starting from `(x, 1)`).
pub open spec fn invert_state_words(
    x: Seq<u64>,
    p: FieldParams,
    accelerated: bool,
    k: nat,
) -> (Seq<u64>, Seq<u64>)
    decreases k,
{
    if k == 0 {
        (x, one_words(x.len()))
    } else {
        let prev = invert_state_words(x, p, accelerated, (k - 1) as nat);
        let s2 = strategy_mul_words(prev.0, prev.0, p, accelerated);
        (s2, strategy_mul_words(prev.1, s2, p, accelerated))
    }
}

/// The multiplicative inverse of nonzero `x` as Fermat exponentiation
/// computes it: `x^(2^n - 2)`, reached after n-1 squaring rounds.
pub open spec fn invert_words(x: Seq<u64>, p: FieldParams, accelerated: bool) -> Seq<u64> {
    invert_state_words(x, p, accelerated, (64 * x.len() - 1) as nat).1
}

/// Conversion to or from a byte sequence of the wrong length.
#[derive(Clone, Copy, Debug, PartialEq, Eq, Structural)]
pub enum ErrorKind {
    /// The byte slice handed to `from_bytes` does not hold exactly
    /// 8·nwords bytes.
    InvalidLength,
    /// A strategy was asked to run on a word width it does not support;
    /// prevented by construction here, since every field uses 64-bit words.
    UnsupportedOperation,
}

/// A 64-bit word parsed from eight big-endian bytes.
pub open spec fn word_from_be_bytes(s: Seq<u8>) -> u64 {
    ((s[0] as u64) << 56u64) ^ ((s[1] as u64) << 48u64) ^ ((s[2] as u64) << 40u64) ^ ((s[3]
        as u64) << 32u64) ^ ((s[4] as u64) << 24u64) ^ ((s[5] as u64) << 16u64) ^ ((s[6]
        as u64) << 8u64) ^ (s[7] as u64)
}

/// The eight big-endian bytes of a 64-bit word: byte `j` holds bits
/// 56-8j and up.
pub open spec fn word_to_be_bytes(w: u64) -> Seq<u8> {
    Seq::new(8, |j: int| (w >> ((56 - 8 * j) as u64)) as u8)
}

/// Parsing the bytes a word was written to gives the word back.
proof fn lemma_word_bytes_round_trip(w: u64)
    ensures
        word_from_be_bytes(word_to_be_bytes(w)) == w,
{
    let s = word_to_be_bytes(w);
    assert(s[0] == (w >> 56u64) as u8);
    assert(s[1] == (w >> 48u64) as u8);
    assert(s[2] == (w >> 40u64) as u8);
    assert(s[3] == (w >> 32u64) as u8);
    assert(s[4] == (w >> 24u64) as u8);
    assert(s[5] == (w >> 16u64) as u8);
    assert(s[6] == (w >> 8u64) as u8);
    assert(s[7] == (w >> 0u64) as u8);
    assert((((w >> 56u64) as u8 as u64) << 56u64) ^ (((w >> 48u64) as u8 as u64) << 48u64) ^ (((w
        >> 40u64) as u8 as u64) << 40u64) ^ (((w >> 32u64) as u8 as u64) << 32u64) ^ (((w
        >> 24u64) as u8 as u64) << 24u64) ^ (((w >> 16u64) as u8 as u64) << 16u64) ^ (((w
        >> 8u64) as u8 as u64) << 8u64) ^ ((w >> 0u64) as u8 as u64) == w) by (bit_vector);
}

/// The words parsed from a byte sequence of 8·n bytes: word `i` from
/// bytes 8i through 8i+7, each word big-endian.
pub open spec fn words_from_bytes(bs: Seq<u8>, n: nat) -> Seq<u64> {
    Seq::new(n, |i: int| word_from_be_bytes(bs.subrange(8 * i, 8 * i + 8)))
}

/// The byte sequence of an element: each word written as eight
/// big-endian bytes, words in storage order.
pub open spec fn words_to_bytes(s: Seq<u64>) -> Seq<u8> {
    Seq::new(8 * s.len(), |m: int| word_to_be_bytes(s[m / 8])[m % 8])
}

/// Law: the byte conversion round-trips — parsing the bytes an element
/// was written to gives back exactly that element, for every element.
pub proof fn lemma_bytes_round_trip(s: Seq<u64>)
    ensures
        words_from_bytes(words_to_bytes(s), s.len()) == s,
{
    let bs = words_to_bytes(s);
    assert forall|i: int| 0 <= i < s.len() implies words_from_bytes(bs, s.len())[i] == s[i] by {
        let sub = bs.subrange(8 * i, 8 * i + 8);
        assert forall|j: int| 0 <= j < 8 implies sub[j] == word_to_be_bytes(s[i])[j] by {
            vstd::arithmetic::div_mod::lemma_fundamental_div_mod_converse(8 * i + j, 8, i, j);
        };
        assert(sub =~= word_to_be_bytes(s[i]));
        lemma_word_bytes_round_trip(s[i]);
    };
    assert(words_from_bytes(bs, s.len()) =~= s);
}

/// Trait for the fixed-width unsigned words that element representations
/// are built from; this crate instantiates it at 64 bits.
pub trait Word: Sized {
    /// How many bytes one word occupies.
    spec fn spec_nbytes() -> int;

    /// The word that parsing big-endian bytes yields.
    spec fn spec_from_bytes(bytes: Seq<u8>) -> Self;

    /// Parses one word from a big-endian byte slice of exactly
    /// `spec_nbytes` bytes.
    fn from_bytes(bytes: &[u8]) -> (r: Self)
        requires
            bytes@.len() == Self::spec_nbytes(),
        ensures
            r == Self::spec_from_bytes(bytes@),
    ;
}

impl Word for u64 {
    open spec fn spec_nbytes() -> int {
        8
    }

    open spec fn spec_from_bytes(bytes: Seq<u8>) -> u64 {
        word_from_be_bytes(bytes)
    }

    fn from_bytes(bytes: &[u8]) -> (r: u64) {
        ((bytes[0] as u64) << 56) ^ ((bytes[1] as u64) << 48) ^ ((bytes[2] as u64) << 40) ^ ((
        bytes[3] as u64) << 32) ^ ((bytes[4] as u64) << 24) ^ ((bytes[5] as u64) << 16) ^ ((
        bytes[6] as u64) << 8) ^ (bytes[7] as u64)
    }
}

/// One element of a binary field GF(2^(64·nwords)).
#[derive(Clone, Debug, Hash)]
pub struct GF2n {
    /// The field this element belongs to.
    pub params: FieldParams,
    /// The words of the element, least significant first; always exactly
    /// `params.nwords` of them.
    pub words: Vec<u64>,
}

/// Equality is structural: two elements are equal exactly when their
/// field parameters and all corresponding words are equal.
impl PartialEq for GF2n {
    fn eq(&self, other: &Self) -> (r: bool) {
        if self.params != other.params || self.words.len() != other.words.len() {
            return false;
        }
        let mut i: usize = 0;
        while i < self.words.len()
            invariant
                i <= self.words.len(),
                self.words.len() == other.words.len(),
                self.params == other.params,
                forall|j: int| 0 <= j < i ==> self.words@[j] == other.words@[j],
            decreases self.words.len() - i,
        {
            if self.words[i] != other.words[i] {
                return false;
            }
            i += 1;
        }
        proof {
            assert(self.words@ =~= other.words@);
        }
        true
    }
}

impl Eq for GF2n {

}

impl vstd::std_specs::cmp::PartialEqSpecImpl for GF2n {
    open spec fn obeys_eq_spec() -> bool {
        true
    }

    open spec fn eq_spec(&self, other: &Self) -> bool {
        self.params == other.params && self.words@ == other.words@
    }
}

/// A vector of `n` zero words.
fn zero_vec(n: usize) -> (r: Vec<u64>)
    ensures
        r@ =~= zero_words(n as nat),
        r.len() == n,
{
    let mut v: Vec<u64> = Vec::new();
    let mut i: usize = 0;
    while i < n
        invariant
            i <= n,
            v.len() == i,
            forall|j: int| 0 <= j < i ==> v@[j] == 0u64,
        decreases n - i,
    {
        v.push(0);
        i += 1;
    }
    v
}

/// A copy of a word vector.
fn copy_words(v: &Vec<u64>) -> (r: Vec<u64>)
    ensures
        r@ == v@,
{
    let mut out: Vec<u64> = Vec::new();
    let mut i: usize = 0;
    while i < v.len()
        invariant
            i <= v.len(),
            out.len() == i,
            forall|j: int| 0 <= j < i ==> out@[j] == v@[j],
        decreases v.len() - i,
    {
        out.push(v[i]);
        i += 1;
    }
    proof {
        assert(out@ =~= v@);
    }
    out
}

/// The low-word bit pattern of the reducing pentanomial.
fn reduction_pattern_word(p: FieldParams) -> (r: u64)
    requires
        p.wf(),
    ensures
        r == reduction_pattern(p),
{
    1u64 ^ (1u64 << p.a) ^ (1u64 << p.b) ^ (1u64 << p.c)
}

impl GF2n {
    /// Every element carries well-formed parameters and exactly
    /// `nwords` words.
    pub open spec fn wf(&self) -> bool {
        self.params.wf() && self.words.len() == self.params.nwords
    }

    /// The element whose lowest word is `word` and whose other words are
    /// zero.
    pub fn new_small(params: FieldParams, word: u64) -> (r: GF2n)
        requires
            params.wf(),
        ensures
            r.wf(),
            r.params == params,
            r.words@ == zero_words(params.nwords as nat).update(0, word),
    {
        let mut words = zero_vec(params.nwords);
        words[0] = word;
        proof {
            assert(words@ =~= zero_words(params.nwords as nat).update(0, word));
        }
        GF2n { params, words }
    }

    /// The additive identity of the field.
    pub fn zero(params: FieldParams) -> (r: GF2n)
        requires
            params.wf(),
        ensures
            r.wf(),
            r.params == params,
            r.words@ == zero_words(params.nwords as nat),
    {
        let words = zero_vec(params.nwords);
        GF2n { params, words }
    }

    /// The multiplicative identity of the field.
    pub fn one(params: FieldParams) -> (r: GF2n)
        requires
            params.wf(),
        ensures
            r.wf(),
            r.params == params,
            r.words@ == one_words(params.nwords as nat),
    {
        GF2n::new_small(params, 1)
    }

    /// Wraps a word vector as a field element; every word pattern is a
    /// valid representation, so nothing is checked beyond the length.
    pub fn from_words(params: FieldParams, words: Vec<u64>) -> (r: GF2n)
        requires
            params.wf(),
            words.len() == params.nwords,
        ensures
            r.wf(),
            r.params == params,
            r.words@ == words@,
    {
        GF2n { params, words }
    }

    /// Hands back the internal word representation.
    pub fn to_words(self) -> (r: Vec<u64>)
        ensures
            r@ == self.words@,
    {
        self.words
    }

    /// Parses an element from exactly 8·nwords bytes: nwords big-endian
    /// 64-bit words, in storage order. Any other length is rejected with
    /// `InvalidLength`; every byte pattern of the right length is a valid
    /// element.
    pub fn from_bytes(params: FieldParams, bytes: &[u8]) -> (r: Result<GF2n, ErrorKind>)
        requires
            params.wf(),
        ensures
            match r {
                Ok(x) => bytes@.len() == 8 * params.nwords && x.wf() && x.params == params
                    && x.words@ == words_from_bytes(bytes@, params.nwords as nat),
                Err(e) => bytes@.len() != 8 * params.nwords && e == ErrorKind::InvalidLength,
            },
    {
        let n = params.nwords;
        if bytes.len() != 8 * n {
            return Err(ErrorKind::InvalidLength);
        }
        let mut words: Vec<u64> = Vec::new();
        let mut i: usize = 0;
        while i < n
            invariant
                i <= n,
                n == params.nwords,
                params.wf(),
                bytes@.len() == 8 * n,
                words.len() == i,
                forall|j: int|
                    0 <= j < i ==> words@[j] == word_from_be_bytes(
                        bytes@.subrange(8 * j, 8 * j + 8),
                    ),
            decreases n - i,
        {
            let w = u64::from_bytes(&bytes[8 * i..8 * i + 8]);
            words.push(w);
            i += 1;
        }
        proof {
            assert(words@ =~= words_from_bytes(bytes@, n as nat));
        }
        Ok(GF2n { params, words })
    }

    /// Writes the element as 8·nwords bytes: each word as eight
    /// big-endian bytes, words in storage order.
    pub fn to_bytes(&self) -> (r: Vec<u8>)
        requires
            self.wf(),
        ensures
            r@ == words_to_bytes(self.words@),
            r.len() == 8 * self.params.nwords,
    {
        let n = self.params.nwords;
        let mut bytes: Vec<u8> = Vec::new();
        let mut i: usize = 0;
        while i < n
            invariant
                i <= n,
                n == self.params.nwords,
                self.wf(),
                bytes.len() == 8 * i,
                forall|m: int|
                    0 <= m < 8 * i ==> bytes@[m] == word_to_be_bytes(self.words@[m / 8])[m % 8],
            decreases n - i,
        {
            let ghost i0 = i as int;
            let ghost b_old = bytes@;
            let w = self.words[i];
            bytes.push((w >> 56) as u8);
            bytes.push((w >> 48) as u8);
            bytes.push((w >> 40) as u8);
            bytes.push((w >> 32) as u8);
            bytes.push((w >> 24) as u8);
            bytes.push((w >> 16) as u8);
            bytes.push((w >> 8) as u8);
            bytes.push((w >> 0) as u8);
            i += 1;
            proof {
                assert forall|m: int|
                    0 <= m < 8 * i implies bytes@[m] == word_to_be_bytes(self.words@[m / 8])[m
                    % 8] by {
                    if m < 8 * i0 {
                        assert(bytes@[m] == b_old[m]);
                    } else {
                        let j = m - 8 * i0;
                        vstd::arithmetic::div_mod::lemma_fundamental_div_mod_converse(
                            m,
                            8,
                            i0,
                            j,
                        );
                        assert(j == 0 || j == 1 || j == 2 || j == 3 || j == 4 || j == 5 || j == 6
                            || j == 7);
                    }
                };
            }
        }
        proof {
            assert(bytes@ =~= words_to_bytes(self.words@));
        }
        bytes
    }

    /// Field addition: word-wise exclusive-or. In characteristic 2 this
    /// is also subtraction and additive inversion.
    pub fn add(&self, other: &GF2n) -> (r: GF2n)
        requires
            self.wf(),
            other.wf(),
            self.params == other.params,
        ensures
            r.wf(),
            r.params == self.params,
            r.words@ == xor_words(self.words@, other.words@),
    {
        let n = self.params.nwords;
        let mut words: Vec<u64> = Vec::new();
        let mut i: usize = 0;
        while i < n
            invariant
                i <= n,
                n == self.params.nwords,
                self.words.len() == n,
                other.words.len() == n,
                words.len() == i,
                forall|j: int| 0 <= j < i ==> words@[j] == (self.words@[j] ^ other.words@[j]),
            decreases n - i,
        {
            words.push(self.words[i] ^ other.words[i]);
            i += 1;
        }
        proof {
            assert(words@ =~= xor_words(self.words@, other.words@));
        }
        GF2n { params: self.params, words }
    }

    /// Multiplies the element by `t` modulo the pentanomial: one left
    /// shift across the word sequence, with the outgoing top bit folded
    /// back into the lowest word as the reduction pattern.
    pub fn shl1(&mut self)
        requires
            old(self).wf(),
        ensures
            final(self).wf(),
            final(self).params == old(self).params,
            final(self).words@ == shl1_words(old(self).words@, old(self).params),
    {
        let ghost orig = self.words@;
        let n = self.params.nwords;
        let mut carry: u64 = 0;
        let mut i: usize = 0;
        while i < n
            invariant
                i <= n,
                self.params == old(self).params,
                n == self.params.nwords,
                self.words.len() == n,
                orig.len() == n,
                carry == (if i == 0 { 0u64 } else { orig[i - 1] >> 63u64 }),
                forall|j: int|
                    0 <= j < i ==> self.words@[j] == ((orig[j] << 1u64) ^ (if j == 0 {
                        0u64
                    } else {
                        orig[j - 1] >> 63u64
                    })),
                forall|j: int| i <= j < n ==> self.words@[j] == orig[j],
            decreases n - i,
        {
            let d = self.words[i];
            self.words[i] = (d << 1) ^ carry;
            carry = d >> 63;
            i += 1;
        }
        if carry != 0 {
            let pat = reduction_pattern_word(self.params);
            self.words[0] = self.words[0] ^ pat;
        }
        proof {
            assert(self.words@ =~= shl1_words(orig, old(self).params));
        }
    }

    /// The bit-serial (software) multiplication strategy: binary long
    /// multiplication with inline reduction. For every set bit of `other`,
    /// from the least significant end, the matching `t^i`-multiple of
    /// `self` is added into the result.
    pub fn mul_as_add(&self, other: &GF2n) -> (r: GF2n)
        requires
            self.wf(),
            other.wf(),
            self.params == other.params,
        ensures
            r.wf(),
            r.params == self.params,
            r.words@ == mul_words(self.words@, other.words@, self.params),
    {
        let n = self.params.nwords;
        let ghost p = self.params;
        let ghost x0 = self.words@;
        let ghost y0 = other.words@;
        let mut cur = GF2n { params: self.params, words: copy_words(&self.words) };
        let mut result = GF2n::zero(self.params);
        let mut w: usize = 0;
        while w < n
            invariant
                w <= n,
                n == p.nwords,
                p.wf(),
                self.params == p,
                other.params == p,
                self.words@ == x0,
                other.words@ == y0,
                x0.len() == n,
                y0.len() == n,
                cur.wf(),
                cur.params == p,
                result.wf(),
                result.params == p,
                cur.words@ == shl_iter_words(x0, p, (64 * w) as nat),
                result.words@ == mul_partial_words(x0, y0, p, (64 * w) as nat),
            decreases n - w,
        {
            let word = other.words[w];
            let mut i: u64 = 0;
            while i < 64
                invariant
                    i <= 64,
                    w < n,
                    n == p.nwords,
                    p.wf(),
                    word == y0[w as int],
                    x0.len() == n,
                    y0.len() == n,
                    cur.wf(),
                    cur.params == p,
                    result.wf(),
                    result.params == p,
                    cur.words@ == shl_iter_words(x0, p, (64 * w + i) as nat),
                    result.words@ == mul_partial_words(x0, y0, p, (64 * w + i) as nat),
                decreases 64 - i,
            {
                proof {
                    let k = 64 * w + i;
                    vstd::arithmetic::div_mod::lemma_fundamental_div_mod_converse(
                        k as int,
                        64,
                        w as int,
                        i as int,
                    );
                    assert((word & (1u64 << i) != 0) == word_bit(word, i)) by (bit_vector)
                        requires
                            i < 64u64,
                    ;
                    assert(elem_bit(y0, k as nat) == word_bit(word, i));
                }
                if word & (1u64 << i) != 0 {
                    result = result.add(&cur);
                }
                cur.shl1();
                i += 1;
            }
            w += 1;
        }
        proof {
            assert(64 * w == 64 * y0.len());
        }
        result
    }

    /// Reduces the overflow buffer produced by the word-product
    /// accumulation back into the result words, using the pentanomial
    /// identity once per carry word (iteratively for a one-word field).
    pub fn propagate_carries(params: FieldParams, words: Vec<u64>, carry: Vec<u64>) -> (r: GF2n)
        requires
            params.wf(),
            words.len() == params.nwords,
            carry.len() == params.nwords,
        ensures
            r.wf(),
            r.params == params,
            r.words@ == propagate_words(words@, carry@, params),
    {
        let ghost w0 = words@;
        let ghost c0 = carry@;
        let n = params.nwords;
        let mut words = words;
        if n == 1 {
            let mut cr = carry[0];
            while cr != 0
                invariant
                    params.wf(),
                    words.len() == 1,
                    w0.len() == 1,
                    fold_single_word(words@[0], cr, params) == fold_single_word(
                        w0[0],
                        c0[0],
                        params,
                    ),
                decreases cr,
            {
                let wcur = words[0];
                let low = cr ^ (cr << params.a) ^ (cr << params.b) ^ (cr << params.c);
                words[0] = wcur ^ low;
                let next = (cr >> (64 - params.a)) ^ (cr >> (64 - params.b)) ^ (cr >> (64
                    - params.c));
                proof {
                    lemma_xor_fold_shape(wcur, cr, cr << params.a, cr << params.b, cr << params.c);
                    lemma_fold_carry_shrinks(cr, params.a, params.b, params.c);
                }
                cr = next;
            }
            proof {
                assert(words@ =~= propagate_words(w0, c0, params));
            }
            GF2n { params, words }
        } else {
            let mut i: usize = 0;
            while i < n
                invariant
                    i <= n,
                    params.wf(),
                    n == params.nwords,
                    2 <= n,
                    words.len() == n,
                    carry.len() == n,
                    w0.len() == n,
                    carry@ == c0,
                    words@ == propagate_multi_words(w0, c0, params, i as nat),
                decreases n - i,
            {
                let cr_i = carry[i];
                let low = cr_i ^ (cr_i << params.a) ^ (cr_i << params.b) ^ (cr_i << params.c);
                let high = (cr_i >> (64 - params.a)) ^ (cr_i >> (64 - params.b)) ^ (cr_i >> (64
                    - params.c));
                words[i] = words[i] ^ low;
                if i + 1 < n {
                    words[i + 1] = words[i + 1] ^ high;
                } else {
                    let low2 = high ^ (high << params.a) ^ (high << params.b) ^ (high
                        << params.c);
                    let high2 = (high >> (64 - params.a)) ^ (high >> (64 - params.b)) ^ (high
                        >> (64 - params.c));
                    words[0] = words[0] ^ low2;
                    words[1] = words[1] ^ high2;
                }
                proof {
                    assert(words@ =~= propagate_step_words(
                        propagate_multi_words(w0, c0, params, i as nat),
                        c0[i as int],
                        i as int,
                        params,
                    ));
                }
                i += 1;
            }
            GF2n { params, words }
        }
    }

    /// The accelerated multiplication strategy: every pair of words is
    /// carrylessly multiplied into a 128-bit product whose halves are
    /// accumulated at their word positions, and the overflow beyond the
    /// field width is then reduced back in. Mirrors what the hardware
    /// carryless-multiply path computes, word product by word product.
    pub fn mul_clmul(&self, other: &GF2n) -> (r: GF2n)
        requires
            self.wf(),
            other.wf(),
            self.params == other.params,
        ensures
            r.wf(),
            r.params == self.params,
            r.words@ == clmul_mul_words(self.words@, other.words@, self.params),
    {
        let n = self.params.nwords;
        let ghost x0 = self.words@;
        let ghost y0 = other.words@;
        let mut words = zero_vec(n);
        let mut carry = zero_vec(n);
        let mut i: usize = 0;
        while i < n
            invariant
                i <= n,
                n == self.params.nwords,
                self.params.wf(),
                self.words@ == x0,
                other.words@ == y0,
                x0.len() == n,
                y0.len() == n,
                words.len() == n,
                carry.len() == n,
                (words@, carry@) == clmul_acc_words(x0, y0, (i * n) as nat),
            decreases n - i,
        {
            let xi = self.words[i];
            let mut j: usize = 0;
            while j < n
                invariant
                    j <= n,
                    i < n,
                    n == self.params.nwords,
                    self.params.wf(),
                    self.words@ == x0,
                    other.words@ == y0,
                    x0.len() == n,
                    y0.len() == n,
                    xi == x0[i as int],
                    words.len() == n,
                    carry.len() == n,
                    (words@, carry@) == clmul_acc_words(x0, y0, (i * n + j) as nat),
                decreases n - j,
            {
                let prod = crate::pmul::clmul64(xi, other.words[j]);
                let lo = prod as u64;
                let hi = (prod >> 64) as u64;
                let ij = i + j;
                proof {
                    vstd::arithmetic::div_mod::lemma_fundamental_div_mod_converse(
                        (i * n + j) as int,
                        n as int,
                        i as int,
                        j as int,
                    );
                }
                if ij < n {
                    words[ij] = words[ij] ^ lo;
                } else {
                    carry[ij - n] = carry[ij - n] ^ lo;
                }
                if ij + 1 < n {
                    words[ij + 1] = words[ij + 1] ^ hi;
                } else {
                    carry[ij + 1 - n] = carry[ij + 1 - n] ^ hi;
                }
                j += 1;
                proof {
                    assert((words@, carry@) == clmul_acc_words(x0, y0, (i * n + j) as nat));
                }
            }
            i += 1;
            proof {
                vstd::arithmetic::mul::lemma_mul_is_distributive_add_other_way(
                    n as int,
                    i as int - 1,
                    1,
                );
                assert((words@, carry@) == clmul_acc_words(x0, y0, (i * n) as nat));
            }
        }
        proof {
            assert(i * n == x0.len() * x0.len());
        }
        Self::propagate_carries(self.params, words, carry)
    }

    /// The dispatcher: consults the capability pair once, commits to one
    /// multiplication strategy for this call, and reports which one ran.
    /// The accelerated strategy runs only when both required features are
    /// present; otherwise the bit-serial fallback runs.
    pub fn multiply(&self, other: &GF2n, caps: Capabilities) -> (r: (GF2n, &'static str))
        requires
            self.wf(),
            other.wf(),
            self.params == other.params,
        ensures
            r.0.wf(),
            r.0.params == self.params,
            r.0.words@ == strategy_mul_words(
                self.words@,
                other.words@,
                self.params,
                caps.spec_accelerated(),
            ),
            r.1@ == strategy_tag(caps),
    {
        if caps.accelerated() {
            (self.mul_clmul(other), "accelerated")
        } else {
            (self.mul_as_add(other), "fallback")
        }
    }

    /// The multiplicative inverse of a nonzero element, by repeated
    /// squaring and accumulation: after the n-1 rounds the accumulator
    /// holds `x^(2^n - 2) = x^(-1)`. Inverting the additive identity is
    /// undefined in the field and excluded by precondition, not checked
    /// at run time.
    pub fn invert(self, caps: Capabilities) -> (r: GF2n)
        requires
            self.wf(),
            self.words@ != zero_words(self.params.nwords as nat),
        ensures
            r.wf(),
            r.params == self.params,
            r.words@ == invert_words(self.words@, self.params, caps.spec_accelerated()),
    {
        let p = self.params;
        let ghost x0 = self.words@;
        let nbits = 64 * p.nwords;
        let mut s = self;
        let mut result = GF2n::one(p);
        let mut k: usize = 1;
        while k < nbits
            invariant
                1 <= k <= nbits,
                nbits == 64 * p.nwords,
                p.wf(),
                s.wf(),
                s.params == p,
                result.wf(),
                result.params == p,
                x0.len() == p.nwords,
                s.words@ == invert_state_words(x0, p, caps.spec_accelerated(), (k - 1) as nat).0,
                result.words@ == invert_state_words(
                    x0,
                    p,
                    caps.spec_accelerated(),
                    (k - 1) as nat,
                ).1,
            decreases nbits - k,
        {
            let s2 = s.multiply(&s, caps).0;
            result = result.multiply(&s2, caps).0;
            s = s2;
            k += 1;
        }
        result
    }
}

/// Inverts a one-word GF(2^64) element in place, through the dispatcher.
pub fn gf64_invert(data: &mut Vec<u64>, caps: Capabilities)
    requires
        old(data).len() == 1,
        old(data)@ != zero_words(1),
    ensures
        final(data)@ == invert_words(old(data)@, FieldParams { nwords: 1usize, a: 4u64, b: 3u64, c: 1u64 }, caps.spec_accelerated()),
{
    let p = gf64_params();
    let words = copy_words(data);
    let x = GF2n::from_words(p, words);
    *data = x.invert(caps).to_words();
}

/// Inverts a two-word GF(2^128) element in place, through the dispatcher.
pub fn gf128_invert(data: &mut Vec<u64>, caps: Capabilities)
    requires
        old(data).len() == 2,
        old(data)@ != zero_words(2),
    ensures
        final(data)@ == invert_words(old(data)@, FieldParams { nwords: 2usize, a: 7u64, b: 2u64, c: 1u64 }, caps.spec_accelerated()),
{
    let p = gf128_params();
    let words = copy_words(data);
    let x = GF2n::from_words(p, words);
    *data = x.invert(caps).to_words();
}

/// Inverts a four-word GF(2^256) element in place, through the dispatcher.
pub fn gf256_invert(data: &mut Vec<u64>, caps: Capabilities)
    requires
        old(data).len() == 4,
        old(data)@ != zero_words(4),
    ensures
        final(data)@ == invert_words(old(data)@, FieldParams { nwords: 4usize, a: 10u64, b: 5u64, c: 2u64 }, caps.spec_accelerated()),
{
    let p = gf256_params();
    let words = copy_words(data);
    let x = GF2n::from_words(p, words);
    *data = x.invert(caps).to_words();
}

} // verus!
