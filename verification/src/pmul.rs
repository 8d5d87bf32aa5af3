//! The 64×64→128-bit carryless multiplication primitive: the product of
//! two binary polynomials of degree below 64, with no carries between bit
//! positions and no reduction. The accelerated field strategy builds its
//! word products from it, and it is also exposed standalone.

use crate::gf2n::word_bit;
use vstd::prelude::*;

verus! {

/// The carryless product of `a` and `b` cut off after the lowest `k` bits
/// of `a`: the exclusive-or of `b·t^i` over every `i < k` whose bit is
/// set in `a`.
pub open spec fn clmul_partial(a: u64, b: u64, k: nat) -> u128
    decreases k,
{
    if k == 0 {
        0u128
    } else {
        let prev = clmul_partial(a, b, (k - 1) as nat);
        if word_bit(a, (k - 1) as u64) {
            prev ^ ((b as u128) << ((k - 1) as u128))
        } else {
            prev
        }
    }
}

/// The full 128-bit carryless product: all 64 bits of `a` processed.
pub open spec fn clmul(a: u64, b: u64) -> u128 {
    clmul_partial(a, b, 64)
}

proof fn lemma_clmul_partial_zero(a: u64, k: nat)
    requires
        k <= 64,
    ensures
        clmul_partial(a, 0, k) == 0,
    decreases k,
{
    if k > 0 {
        lemma_clmul_partial_zero(a, (k - 1) as nat);
        let s = (k - 1) as u128;
        assert(0u128 ^ ((0u64 as u128) << s) == 0) by (bit_vector)
            requires
                s < 64u128,
        ;
    }
}

/// The carryless product with the zero polynomial is zero.
pub proof fn lemma_clmul_zero(a: u64)
    ensures
        clmul(a, 0) == 0,
{
    lemma_clmul_partial_zero(a, 64);
}

proof fn lemma_clmul_partial_one(w: u64, k: nat)
    requires
        k <= 64,
    ensures
        clmul_partial(w, 1, k) == (w as u128) & (((1u128 << (k as u128)) - 1) as u128),
    decreases k,
{
    if k == 0 {
        assert((w as u128) & (((1u128 << 0u128) - 1) as u128) == 0) by (bit_vector);
    } else {
        lemma_clmul_partial_one(w, (k - 1) as nat);
        let s = (k - 1) as u128;
        let prev = clmul_partial(w, 1, (k - 1) as nat);
        assert((if (w >> (s as u64)) & 1 == 1 {
            prev ^ ((1u64 as u128) << s)
        } else {
            prev
        }) == (w as u128) & (((1u128 << ((s + 1) as u128)) - 1) as u128)) by (bit_vector)
            requires
                s < 64u128,
                prev == (w as u128) & (((1u128 << s) - 1) as u128),
        ;
    }
}

/// The carryless product with the polynomial 1 is the operand itself,
/// widened to 128 bits.
pub proof fn lemma_clmul_one(w: u64)
    ensures
        clmul(w, 1) == w as u128,
{
    lemma_clmul_partial_one(w, 64);
    assert((w as u128) & (((1u128 << 64u128) - 1) as u128) == w as u128) by (bit_vector);
}

proof fn lemma_clmul_partial_peel_low(a: u64, b: u64, k: nat)
    requires
        1 <= k <= 64,
    ensures
        clmul_partial(a, b, k) == (if a & 1 == 1 {
            b as u128
        } else {
            0u128
        }) ^ (clmul_partial(a >> 1u64, b, (k - 1) as nat) << 1u128),
    decreases k,
{
    let low: u128 = if a & 1 == 1 { b as u128 } else { 0u128 };
    if k == 1 {
        assert(clmul_partial(a, b, 0) == 0);
        assert(clmul_partial(a >> 1u64, b, 0) == 0);
        assert(word_bit(a, 0) == (a & 1 == 1) && 0u128 ^ ((b as u128) << 0u128) == b as u128
            && low ^ (0u128 << 1u128) == low) by (bit_vector)
            requires
                low == (if a & 1 == 1 {
                    b as u128
                } else {
                    0u128
                }),
        ;
    } else {
        lemma_clmul_partial_peel_low(a, b, (k - 1) as nat);
        let q = clmul_partial(a >> 1u64, b, (k - 2) as nat);
        let s = (k - 2) as u128;
        let t = (b as u128) << s;
        assert(clmul_partial(a, b, (k - 1) as nat) == low ^ (q << 1u128));
        assert(word_bit(a >> 1u64, s as u64) == word_bit(a, (s + 1) as u64) && (t << 1u128) == (b
            as u128) << ((s + 1) as u128)) by (bit_vector)
            requires
                s < 63u128,
                t == (b as u128) << s,
        ;
        assert((s + 1) as u128 == (k - 1) as u128);
        assert((s + 1) as u64 == (k - 1) as u64);
        assert(s as u64 == (k - 2) as u64);
        assert(clmul_partial(a >> 1u64, b, (k - 1) as nat) == (if word_bit(a, (k - 1) as u64) {
            q ^ t
        } else {
            q
        }));
        if word_bit(a, (k - 1) as u64) {
            assert(clmul_partial(a, b, k) == (low ^ (q << 1u128)) ^ (t << 1u128));
            assert((q ^ t) << 1u128 == (q << 1u128) ^ (t << 1u128) && (low ^ (q << 1u128)) ^ (t
                << 1u128) == low ^ ((q << 1u128) ^ (t << 1u128))) by (bit_vector);
        }
    }
}

proof fn lemma_clmul_partial_split_addend(x: u64, y: u64, k: nat)
    requires
        k <= 64,
    ensures
        clmul_partial(x, y, k) == (clmul_partial(x, y >> 1u64, k) << 1u128) ^ clmul_partial(
            x,
            y & 1u64,
            k,
        ),
    decreases k,
{
    if k == 0 {
        assert((0u128 << 1u128) ^ 0u128 == 0u128) by (bit_vector);
    } else {
        lemma_clmul_partial_split_addend(x, y, (k - 1) as nat);
        let s = (k - 1) as u128;
        let q = clmul_partial(x, y >> 1u64, (k - 1) as nat);
        let r = clmul_partial(x, y & 1u64, (k - 1) as nat);
        if word_bit(x, (k - 1) as u64) {
            let ty = (y as u128) << s;
            let tq = (((y >> 1u64) as u128) << s);
            let tr = (((y & 1u64) as u128) << s);
            assert(ty == (tq << 1u128) ^ tr) by (bit_vector)
                requires
                    s < 64u128,
                    ty == (y as u128) << s,
                    tq == (((y >> 1u64) as u128) << s),
                    tr == (((y & 1u64) as u128) << s),
            ;
            assert((q ^ tq) << 1u128 == (q << 1u128) ^ (tq << 1u128) && ((q << 1u128) ^ r)
                ^ ((tq << 1u128) ^ tr) == ((q << 1u128) ^ (tq << 1u128)) ^ (r ^ tr))
                by (bit_vector);
        }
    }
}

proof fn lemma_clmul_partial_first_zero(b: u64, k: nat)
    ensures
        clmul_partial(0, b, k) == 0,
    decreases k,
{
    if k > 0 {
        lemma_clmul_partial_first_zero(b, (k - 1) as nat);
        let s = (k - 1) as u64;
        assert(!word_bit(0, s)) by (bit_vector);
    }
}

/// The carryless product is commutative: peeling the lowest bit of the
/// left operand matches splitting the lowest bit off the right one.
pub proof fn lemma_clmul_commutes(a: u64, b: u64)
    ensures
        clmul(a, b) == clmul(b, a),
    decreases a,
{
    if a == 0 {
        lemma_clmul_partial_first_zero(b, 64);
        lemma_clmul_zero(b);
    } else {
        assert(a >> 1u64 < a && !word_bit(a >> 1u64, 63u64)) by (bit_vector)
            requires
                a != 0u64,
        ;
        lemma_clmul_commutes(a >> 1, b);
        lemma_clmul_partial_peel_low(a, b, 64);
        lemma_clmul_partial_split_addend(b, a, 64);
        assert(clmul_partial(a >> 1u64, b, 64) == clmul_partial(a >> 1u64, b, 63));
        let low: u128 = if a & 1 == 1 { b as u128 } else { 0u128 };
        let q = clmul(b, a >> 1u64);
        assert(clmul(a, b) == low ^ (clmul_partial(a >> 1u64, b, 63) << 1u128));
        assert(clmul(a, b) == low ^ (q << 1u128));
        assert(clmul(b, a) == (q << 1u128) ^ clmul(b, a & 1u64));
        if a & 1 == 1 {
            lemma_clmul_one(b);
            assert(clmul(b, a & 1u64) == b as u128);
            assert((b as u128) ^ (q << 1u128) == (q << 1u128) ^ (b as u128)) by (bit_vector);
        } else {
            lemma_clmul_zero(b);
            assert(a & 1u64 == 0u64 && 0u128 ^ (q << 1u128) == (q << 1u128) ^ 0u128)
                by (bit_vector)
                requires
                    a & 1u64 != 1u64,
            ;
            assert(clmul(b, a & 1u64) == 0u128);
        }
    }
}

/// Computes the carryless product by shift-and-add emulation of binary
/// long multiplication: for every set bit of `a`, the correspondingly
/// shifted copy of `b` is added (exclusive-or) into the result.
pub fn clmul64(a: u64, b: u64) -> (r: u128)
    ensures
        r == clmul(a, b),
{
    let mut tmp: u128 = b as u128;
    let mut result: u128 = 0;
    let mut i: u64 = 0;
    proof {
        assert((b as u128) << 0u128 == b as u128) by (bit_vector);
    }
    while i < 64
        invariant
            i <= 64,
            result == clmul_partial(a, b, i as nat),
            tmp == (b as u128) << (i as u128),
        decreases 64 - i,
    {
        proof {
            assert((a & (1u64 << i) != 0) == word_bit(a, i) && ((b as u128) << (i as u128))
                << 1u128 == (b as u128) << ((i + 1) as u128)) by (bit_vector)
                requires
                    i < 64u64,
            ;
        }
        if a & (1u64 << i) != 0 {
            result = result ^ tmp;
        }
        tmp = tmp << 1;
        i += 1;
    }
    result
}

/// The software strategy for the standalone carryless-multiply primitive:
/// always available, and tagged "nosimd" so callers can observe which
/// path produced the value.
pub fn pmul_nosimd(a: u64, b: u64) -> (r: (u128, &'static str))
    ensures
        r.0 == clmul(a, b),
        r.1@ == "nosimd"@,
{
    (clmul64(a, b), "nosimd")
}

} // verus!
