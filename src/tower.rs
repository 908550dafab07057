//! Scalars of the binary tower: level 0 is GF(2); level `l + 1` is level `l` extended by
//! `X` with `X * X == alpha(l) * X + 1`. A level-`l` scalar is held in the low
//! `width(l)` bits of a `u128`: its low half is the constant term, its high half the
//! coefficient of `X`.

use vstd::prelude::*;
use crate::constants::alpha;
use crate::lanes::{lemma_width_values, lemma_word_algebra, low_bits, width};

verus! {

/// The constant term of a level-`level` scalar (`level >= 1`).
pub open spec fn lo_half(x: u128, level: nat) -> u128 {
    x & low_bits(width((level - 1) as nat) as u128)
}

/// The coefficient of `X` of a level-`level` scalar (`level >= 1`).
pub open spec fn hi_half(x: u128, level: nat) -> u128 {
    (x >> (width((level - 1) as nat) as u128)) & low_bits(width((level - 1) as nat) as u128)
}

/// The level-`level` scalar `lo + hi * X` (`level >= 1`).
pub open spec fn join_halves(lo: u128, hi: u128, level: nat) -> u128 {
    lo | (hi << (width((level - 1) as nat) as u128))
}

/// Product of two level-`level` scalars:
/// `(x0 + x1 X)(y0 + y1 X) = (x0 y0 + x1 y1) + (x0 y1 + x1 y0 + x1 y1 alpha) X`.
pub open spec fn tower_mul(level: nat, x: u128, y: u128) -> u128
    decreases level,
{
    if level == 0 {
        x & y & 1
    } else {
        let s = (level - 1) as nat;
        let x0 = lo_half(x, level);
        let x1 = hi_half(x, level);
        let y0 = lo_half(y, level);
        let y1 = hi_half(y, level);
        let z2 = tower_mul(s, x1, y1);
        join_halves(
            tower_mul(s, x0, y0) ^ z2,
            tower_mul(s, x0, y1) ^ tower_mul(s, x1, y0) ^ tower_mul(s, z2, alpha(s)),
            level,
        )
    }
}

/// Inverse of a level-`level` scalar, zero for zero:
/// `(x0 + x1 X)^-1 = (x0 + x1 alpha + x1 X) / (x0 (x0 + x1 alpha) + x1 x1)`.
pub open spec fn tower_inv(level: nat, x: u128) -> u128
    decreases level,
{
    if level == 0 {
        x & 1
    } else {
        let s = (level - 1) as nat;
        let x0 = lo_half(x, level);
        let x1 = hi_half(x, level);
        let c = x0 ^ tower_mul(s, x1, alpha(s));
        let d = tower_inv(s, tower_mul(s, x0, c) ^ tower_mul(s, x1, x1));
        join_halves(tower_mul(s, d, c), tower_mul(s, d, x1), level)
    }
}

/// `x` raised to the power `e`: one for `e == 0`, and `x^(e-1) * x` otherwise.
pub open spec fn tower_pow(level: nat, x: u128, e: nat) -> u128
    decreases e,
{
    if e == 0 {
        1
    } else {
        tower_mul(level, tower_pow(level, x, (e - 1) as nat), x)
    }
}

/// `x` raised to the power `e` by halving the exponent: `x^e = (x^(e/2))^2`, times `x` when
/// `e` is odd.
pub open spec fn tower_pow_halving(level: nat, x: u128, e: nat) -> u128
    decreases e,
{
    if e == 0 {
        1
    } else {
        let h = tower_pow_halving(level, x, e / 2);
        let sq = tower_mul(level, h, h);
        if e % 2 == 1 {
            tower_mul(level, sq, x)
        } else {
            sq
        }
    }
}

/// `x` is a level-`level` scalar: no bit at or above `width(level)` is set.
pub open spec fn is_scalar(level: nat, x: u128) -> bool {
    x & low_bits(width(level) as u128) == x
}

proof fn lemma_bits_join(a: u128, b: u128, c: u128, d: u128, w: u128)
    by (bit_vector)
    requires
        w == 1 || w == 2 || w == 4 || w == 8 || w == 16 || w == 32 || w == 64,
        a & low_bits(w) == a,
        b & low_bits(w) == b,
        c & low_bits(w) == c,
        d & low_bits(w) == d,
    ensures
        (a | (b << w)) ^ (c | (d << w)) == (a ^ c) | ((b ^ d) << w),
        (a | (b << w)) & low_bits((2 * w) as u128) == a | (b << w),
        (a | (b << w)) & low_bits(w) == a,
        ((a | (b << w)) >> w) & low_bits(w) == b,
{
}

proof fn lemma_bits_small(a: u128, b: u128, m: u128)
    by (bit_vector)
    ensures
        (a & m == a && b & m == b) ==> (a ^ b) & m == a ^ b,
        (a & b & 1) & low_bits(1) == a & b & 1,
        (a ^ b) & 1 == (a & 1) ^ (b & 1),
        a & b & 1 == b & a & 1,
        (a ^ b) ^ b == a,
        a ^ 0 == a,
        0 ^ a == a,
        a ^ b == b ^ a,
        a & 0 & 1 == 0,
        a & 1 & 1 == a & 1,
        0u128 & m == 0,
        (a & m) & m == a & m,
{
}

proof fn lemma_halves(x: u128, y: u128, w: u128)
    by (bit_vector)
    requires
        w == 1 || w == 2 || w == 4 || w == 8 || w == 16 || w == 32 || w == 64,
    ensures
        (x ^ y) & low_bits(w) == (x & low_bits(w)) ^ (y & low_bits(w)),
        ((x ^ y) >> w) & low_bits(w) == ((x >> w) & low_bits(w)) ^ ((y >> w) & low_bits(w)),
        (x & low_bits(w)) & low_bits(w) == x & low_bits(w),
        ((x >> w) & low_bits(w)) & low_bits(w) == (x >> w) & low_bits(w),
{
}

proof fn lemma_level_width(level: nat)
    requires
        1 <= level <= 7,
    ensures
        ({
            let w = width((level - 1) as nat) as u128;
            w == 1 || w == 2 || w == 4 || w == 8 || w == 16 || w == 32 || w == 64
        }),
        width(level) == 2 * width((level - 1) as nat),
        width((level - 1) as nat) <= 64,
        width(level) <= 128,
{
    lemma_width_values();
    assert(level == 1 || level == 2 || level == 3 || level == 4 || level == 5 || level == 6
        || level == 7);
}

/// Products are scalars of their level.
pub proof fn lemma_mul_is_scalar(level: nat, x: u128, y: u128)
    requires
        level <= 7,
    ensures
        is_scalar(level, tower_mul(level, x, y)),
    decreases level,
{
    if level == 0 {
        assert(width(0) == 1);
        lemma_bits_small(x, y, 0);
    } else {
        let s = (level - 1) as nat;
        lemma_level_width(level);
        let w = width(s) as u128;
        let x0 = lo_half(x, level);
        let x1 = hi_half(x, level);
        let y0 = lo_half(y, level);
        let y1 = hi_half(y, level);
        let z2 = tower_mul(s, x1, y1);
        lemma_mul_is_scalar(s, x0, y0);
        lemma_mul_is_scalar(s, x1, y1);
        lemma_mul_is_scalar(s, x0, y1);
        lemma_mul_is_scalar(s, x1, y0);
        lemma_mul_is_scalar(s, z2, alpha(s));
        let lo = tower_mul(s, x0, y0) ^ z2;
        let p = tower_mul(s, x0, y1) ^ tower_mul(s, x1, y0);
        let hi = p ^ tower_mul(s, z2, alpha(s));
        lemma_bits_small(tower_mul(s, x0, y0), z2, low_bits(w));
        lemma_bits_small(tower_mul(s, x0, y1), tower_mul(s, x1, y0), low_bits(w));
        lemma_bits_small(p, tower_mul(s, z2, alpha(s)), low_bits(w));
        lemma_bits_join(lo, hi, 0, 0, w);
    }
}

/// Multiplication is commutative.
pub proof fn lemma_mul_commutative(level: nat, x: u128, y: u128)
    requires
        level <= 7,
    ensures
        tower_mul(level, x, y) == tower_mul(level, y, x),
    decreases level,
{
    if level == 0 {
        lemma_bits_small(x, y, 0);
    } else {
        let s = (level - 1) as nat;
        let x0 = lo_half(x, level);
        let x1 = hi_half(x, level);
        let y0 = lo_half(y, level);
        let y1 = hi_half(y, level);
        lemma_mul_commutative(s, x0, y0);
        lemma_mul_commutative(s, x1, y1);
        lemma_mul_commutative(s, x0, y1);
        lemma_mul_commutative(s, x1, y0);
        lemma_bits_small(tower_mul(s, x0, y1), tower_mul(s, x1, y0), 0);
    }
}

/// Multiplication distributes over addition, which is `^`.
pub proof fn lemma_mul_distributive(level: nat, x: u128, y: u128, z: u128)
    requires
        level <= 7,
    ensures
        tower_mul(level, x ^ y, z) == tower_mul(level, x, z) ^ tower_mul(level, y, z),
        tower_mul(level, z, x ^ y) == tower_mul(level, z, x) ^ tower_mul(level, z, y),
    decreases level,
{
    lemma_mul_commutative(level, x ^ y, z);
    lemma_mul_commutative(level, x, z);
    lemma_mul_commutative(level, y, z);
    if level == 0 {
        lemma_bits_small(x, y, z);
        assert((x ^ y) & z & 1 == (x & z & 1) ^ (y & z & 1)) by (bit_vector);
    } else {
        let s = (level - 1) as nat;
        lemma_level_width(level);
        let w = width(s) as u128;
        lemma_halves(x, y, w);
        let x0 = lo_half(x, level);
        let x1 = hi_half(x, level);
        let y0 = lo_half(y, level);
        let y1 = hi_half(y, level);
        let z0 = lo_half(z, level);
        let z1 = hi_half(z, level);
        assert(lo_half(x ^ y, level) == x0 ^ y0);
        assert(hi_half(x ^ y, level) == x1 ^ y1);
        lemma_mul_distributive(s, x0, y0, z0);
        lemma_mul_distributive(s, x1, y1, z1);
        lemma_mul_distributive(s, x0, y0, z1);
        lemma_mul_distributive(s, x1, y1, z0);
        let a2 = tower_mul(s, x1, z1);
        let b2 = tower_mul(s, y1, z1);
        lemma_mul_distributive(s, a2, b2, alpha(s));
        let alo = tower_mul(s, x0, z0) ^ a2;
        let ahi = tower_mul(s, x0, z1) ^ tower_mul(s, x1, z0) ^ tower_mul(s, a2, alpha(s));
        let blo = tower_mul(s, y0, z0) ^ b2;
        let bhi = tower_mul(s, y0, z1) ^ tower_mul(s, y1, z0) ^ tower_mul(s, b2, alpha(s));
        lemma_mul_is_scalar(level, x, z);
        lemma_mul_is_scalar(level, y, z);
        lemma_mul_is_scalar(s, x0, z0);
        lemma_mul_is_scalar(s, a2, alpha(s));
        xor_scalar_facts(s, x, y, z, w);
        lemma_bits_small(tower_mul(s, x0, z0), a2, low_bits(w));
        lemma_bits_small(tower_mul(s, y0, z0), b2, low_bits(w));
        lemma_bits_small(tower_mul(s, x0, z1), tower_mul(s, x1, z0), low_bits(w));
        lemma_bits_small(tower_mul(s, y0, z1), tower_mul(s, y1, z0), low_bits(w));
        lemma_bits_small(
            tower_mul(s, x0, z1) ^ tower_mul(s, x1, z0),
            tower_mul(s, a2, alpha(s)),
            low_bits(w),
        );
        lemma_bits_small(
            tower_mul(s, y0, z1) ^ tower_mul(s, y1, z0),
            tower_mul(s, b2, alpha(s)),
            low_bits(w),
        );
        lemma_bits_join(alo, ahi, blo, bhi, w);
        assert(alo ^ blo == tower_mul(s, x0 ^ y0, z0) ^ tower_mul(s, x1 ^ y1, z1)) by {
            xor4(tower_mul(s, x0, z0), a2, tower_mul(s, y0, z0), b2);
        }
        assert(ahi ^ bhi == tower_mul(s, x0 ^ y0, z1) ^ tower_mul(s, x1 ^ y1, z0) ^ tower_mul(
            s,
            tower_mul(s, x1 ^ y1, z1),
            alpha(s),
        )) by {
            xor6(
                tower_mul(s, x0, z1),
                tower_mul(s, x1, z0),
                tower_mul(s, a2, alpha(s)),
                tower_mul(s, y0, z1),
                tower_mul(s, y1, z0),
                tower_mul(s, b2, alpha(s)),
            );
        }
    }
}

proof fn xor4(a: u128, b: u128, c: u128, d: u128)
    by (bit_vector)
    ensures
        (a ^ b) ^ (c ^ d) == (a ^ c) ^ (b ^ d),
{
}

proof fn xor6(a: u128, b: u128, c: u128, d: u128, e: u128, f: u128)
    by (bit_vector)
    ensures
        ((a ^ b) ^ c) ^ ((d ^ e) ^ f) == ((a ^ d) ^ (b ^ e)) ^ (c ^ f),
{
}

proof fn xor_scalar_facts(s: nat, x: u128, y: u128, z: u128, w: u128)
    requires
        s < 7,
        w == width(s),
        w == 1 || w == 2 || w == 4 || w == 8 || w == 16 || w == 32 || w == 64,
    ensures
        forall|a: u128, b: u128|
            is_scalar(s, tower_mul(s, a, b)) && tower_mul(s, a, b) & low_bits(w) == tower_mul(
                s,
                a,
                b,
            ),
{
    assert forall|a: u128, b: u128|
        is_scalar(s, tower_mul(s, a, b)) && tower_mul(s, a, b) & low_bits(w) == tower_mul(
            s,
            a,
            b,
        ) by {
        lemma_mul_is_scalar(s, a, b);
    }
}

pub proof fn lemma_small_constants(x: u128, w: u128)
    by (bit_vector)
    requires
        w == 1 || w == 2 || w == 4 || w == 8 || w == 16 || w == 32 || w == 64,
    ensures
        x & low_bits((2 * w) as u128) == x ==> (x & low_bits(w)) | (((x >> w) & low_bits(w))
            << w) == x,
        1u128 & low_bits(w) == 1,
        (1u128 >> w) & low_bits(w) == 0,
        0u128 & low_bits(w) == 0,
        (0u128 >> w) & low_bits(w) == 0,
        (1u128 << w) & low_bits(w) == 0,
        ((1u128 << w) >> w) & low_bits(w) == 1,
        1u128 & low_bits((2 * w) as u128) == 1,
{
}

/// The halves of a level-`level` scalar are scalars of the level below, and joining them
/// gives it back.
pub proof fn lemma_halves_of_scalar(level: nat, x: u128)
    requires
        1 <= level <= 7,
    ensures
        is_scalar((level - 1) as nat, lo_half(x, level)),
        is_scalar((level - 1) as nat, hi_half(x, level)),
        is_scalar(level, x) ==> join_halves(lo_half(x, level), hi_half(x, level), level) == x,
        lo_half(0, level) == 0,
        hi_half(0, level) == 0,
        lo_half(1, level) == 1,
        hi_half(1, level) == 0,
        lo_half(alpha(level), level) == 0,
        hi_half(alpha(level), level) == 1,
        is_scalar(level, 1),
{
    lemma_level_width(level);
    let w = width((level - 1) as nat) as u128;
    lemma_small_constants(x, w);
    lemma_word_algebra(x, 0, 0, low_bits(w));
    lemma_word_algebra(x >> w, 0, 0, low_bits(w));
}

/// Zero absorbs and one is neutral: `x * 0 == 0 * x == 0` and `x * 1 == 1 * x == x`.
pub proof fn lemma_mul_zero_one(level: nat, x: u128)
    requires
        level <= 7,
    ensures
        tower_mul(level, x, 0) == 0,
        tower_mul(level, 0, x) == 0,
        is_scalar(level, x) ==> tower_mul(level, x, 1) == x,
        is_scalar(level, x) ==> tower_mul(level, 1, x) == x,
    decreases level,
{
    lemma_mul_commutative(level, x, 0);
    lemma_mul_commutative(level, x, 1);
    if level == 0 {
        assert(width(0) == 1);
        lemma_word_algebra(x, 0, 0, 1);
        lemma_word_algebra(x, 1, 0, 1);
        lemma_word_algebra(1, 0, 0, 0);
        lemma_word_algebra(x & 0, 1, 0, 0);
    } else {
        let s = (level - 1) as nat;
        lemma_halves_of_scalar(level, x);
        let x0 = lo_half(x, level);
        let x1 = hi_half(x, level);
        lemma_mul_zero_one(s, x0);
        lemma_mul_zero_one(s, x1);
        lemma_mul_zero_one(s, alpha(s));
        lemma_word_algebra(x0, 0, 0, 0);
        lemma_word_algebra(x1, 0, 0, 0);
        lemma_word_algebra(0, 0, 0, 0);
        lemma_level_width(level);
        lemma_small_constants(0, width(s) as u128);
        assert(tower_mul(level, x, 0) == join_halves(0, 0, level));
        assert(join_halves(0, 0, level) == 0) by {
            lemma_word_algebra(0u128 << (width(s) as u128), 0, 0, 0);
            assert(0u128 << (width(s) as u128) == 0) by {
                lemma_zero_shift(width(s) as u128);
            }
        }
    }
}

proof fn lemma_zero_shift(w: u128)
    by (bit_vector)
    ensures
        0u128 << w == 0,
{
}

/// Addition, which is `^` on words and so on every lane at every level, is commutative and
/// associative, has zero as identity, and every element is its own negative.
pub proof fn lemma_add_axioms(a: u128, b: u128, c: u128)
    ensures
        a ^ b == b ^ a,
        a ^ (b ^ c) == (a ^ b) ^ c,
        a ^ 0 == a,
        a ^ a == 0,
{
    lemma_word_algebra(a, b, c, 0);
}

/// The inverse of zero is zero.
pub proof fn lemma_inv_zero(level: nat)
    requires
        level <= 7,
    ensures
        tower_inv(level, 0) == 0,
    decreases level,
{
    if level == 0 {
        lemma_word_algebra(0, 0, 0, 0);
        lemma_word_algebra(1, 0, 0, 0);
    } else {
        let s = (level - 1) as nat;
        lemma_halves_of_scalar(level, 0);
        lemma_mul_zero_one(s, alpha(s));
        lemma_mul_zero_one(s, 0);
        lemma_word_algebra(0, 0, 0, 0);
        lemma_inv_zero(s);
        assert(tower_inv(level, 0) == join_halves(0, 0, level));
        lemma_mul_zero_one(level, 0);
        assert(tower_mul(level, 0, 0) == join_halves(0, 0, level) ^ 0) by {
            let w = width(s) as u128;
            lemma_word_algebra(tower_mul(s, 0, 0) ^ tower_mul(s, 0, 0), 0, 0, 0);
            lemma_word_algebra(join_halves(0, 0, level), 0, 0, 0);
        }
    }
}

/// Squares of zero and one: `0 * 0 == 0` and `1 * 1 == 1`.
pub proof fn lemma_square_zero_one(level: nat)
    requires
        level <= 7,
    ensures
        tower_mul(level, 0, 0) == 0,
        tower_mul(level, 1, 1) == 1,
{
    lemma_mul_zero_one(level, 0);
    if level == 0 {
        assert(width(0) == 1);
        lemma_word_algebra(1, 0, 0, low_bits(1));
        lemma_small_constants(0, 1);
    } else {
        lemma_halves_of_scalar(level, 1);
    }
    lemma_mul_zero_one(level, 1);
}

/// The halves of a product are those of the definition.
proof fn lemma_product_halves(level: nat, x: u128, y: u128)
    requires
        1 <= level <= 7,
    ensures
        lo_half(tower_mul(level, x, y), level) == tower_mul(
            (level - 1) as nat,
            lo_half(x, level),
            lo_half(y, level),
        ) ^ tower_mul((level - 1) as nat, hi_half(x, level), hi_half(y, level)),
        hi_half(tower_mul(level, x, y), level) == tower_mul(
            (level - 1) as nat,
            lo_half(x, level),
            hi_half(y, level),
        ) ^ tower_mul((level - 1) as nat, hi_half(x, level), lo_half(y, level)) ^ tower_mul(
            (level - 1) as nat,
            tower_mul((level - 1) as nat, hi_half(x, level), hi_half(y, level)),
            alpha((level - 1) as nat),
        ),
{
    let s = (level - 1) as nat;
    lemma_level_width(level);
    let w = width(s) as u128;
    let x0 = lo_half(x, level);
    let x1 = hi_half(x, level);
    let y0 = lo_half(y, level);
    let y1 = hi_half(y, level);
    let z2 = tower_mul(s, x1, y1);
    lemma_mul_is_scalar(s, x0, y0);
    lemma_mul_is_scalar(s, x1, y1);
    lemma_mul_is_scalar(s, x0, y1);
    lemma_mul_is_scalar(s, x1, y0);
    lemma_mul_is_scalar(s, z2, alpha(s));
    let lo = tower_mul(s, x0, y0) ^ z2;
    let p = tower_mul(s, x0, y1) ^ tower_mul(s, x1, y0);
    let hi = p ^ tower_mul(s, z2, alpha(s));
    lemma_bits_small(tower_mul(s, x0, y0), z2, low_bits(w));
    lemma_bits_small(tower_mul(s, x0, y1), tower_mul(s, x1, y0), low_bits(w));
    lemma_bits_small(p, tower_mul(s, z2, alpha(s)), low_bits(w));
    lemma_bits_join(lo, hi, 0, 0, w);
}

/// Moving the generator out of a product: `(u alpha) c == (u c) alpha` and
/// `a (w alpha) == (a w) alpha`, from associativity one level down.
proof fn lemma_alpha_moves(s: nat, u: u128, c: u128)
    requires
        s < 7,
        forall|a: u128, b: u128, d: u128|
            tower_mul(s, a, tower_mul(s, b, d)) == #[trigger] tower_mul(s, tower_mul(s, a, b), d),
    ensures
        tower_mul(s, tower_mul(s, u, alpha(s)), c) == tower_mul(s, tower_mul(s, u, c), alpha(s)),
        tower_mul(s, c, tower_mul(s, u, alpha(s))) == tower_mul(s, tower_mul(s, c, u), alpha(s)),
{
    assert(tower_mul(s, tower_mul(s, u, alpha(s)), c) == tower_mul(s, u, tower_mul(s, alpha(s), c)));
    lemma_mul_commutative(s, alpha(s), c);
    assert(tower_mul(s, tower_mul(s, u, c), alpha(s)) == tower_mul(s, u, tower_mul(s, c, alpha(s))));
    assert(tower_mul(s, tower_mul(s, c, u), alpha(s)) == tower_mul(s, c, tower_mul(s, u, alpha(s))));
}

/// Multiplication is associative.
pub proof fn lemma_mul_associative(level: nat, x: u128, y: u128, z: u128)
    requires
        level <= 7,
    ensures
        tower_mul(level, x, tower_mul(level, y, z)) == tower_mul(level, tower_mul(level, x, y), z),
    decreases level, 1nat,
{
    if level == 0 {
        assert((x & ((y & z) & 1)) & 1 == ((x & y) & 1) & z & 1) by (bit_vector);
    } else {
        let s = (level - 1) as nat;
        lemma_associative_step(level, x, y, z);
    }
}

proof fn lemma_associative_step(level: nat, x: u128, y: u128, z: u128)
    requires
        1 <= level <= 7,
    ensures
        tower_mul(level, x, tower_mul(level, y, z)) == tower_mul(level, tower_mul(level, x, y), z),
    decreases level, 0nat,
{
    let s = (level - 1) as nat;
    assert forall|a: u128, b: u128, d: u128|
        tower_mul(s, a, tower_mul(s, b, d)) == #[trigger] tower_mul(s, tower_mul(s, a, b), d) by {
        lemma_mul_associative(s, a, b, d);
    }
    let al = alpha(s);
    let x0 = lo_half(x, level);
    let x1 = hi_half(x, level);
    let y0 = lo_half(y, level);
    let y1 = hi_half(y, level);
    let z0 = lo_half(z, level);
    let z1 = hi_half(z, level);
    let yz = tower_mul(level, y, z);
    let xy = tower_mul(level, x, y);
    lemma_product_halves(level, y, z);
    lemma_product_halves(level, x, y);
    let p0 = lo_half(yz, level);
    let p1 = hi_half(yz, level);
    let q0 = lo_half(xy, level);
    let q1 = hi_half(xy, level);
    // canonical triple products
    let t000 = tower_mul(s, tower_mul(s, x0, y0), z0);
    let t001 = tower_mul(s, tower_mul(s, x0, y0), z1);
    let t010 = tower_mul(s, tower_mul(s, x0, y1), z0);
    let t011 = tower_mul(s, tower_mul(s, x0, y1), z1);
    let t100 = tower_mul(s, tower_mul(s, x1, y0), z0);
    let t101 = tower_mul(s, tower_mul(s, x1, y0), z1);
    let t110 = tower_mul(s, tower_mul(s, x1, y1), z0);
    let t111 = tower_mul(s, tower_mul(s, x1, y1), z1);
    let a011 = tower_mul(s, t011, al);
    let a101 = tower_mul(s, t101, al);
    let a110 = tower_mul(s, t110, al);
    let a111 = tower_mul(s, t111, al);
    let aa111 = tower_mul(s, a111, al);
    // x (y z)
    let m_y1z1 = tower_mul(s, y1, z1);
    lemma_mul_distributive(s, tower_mul(s, y0, z0), m_y1z1, x0);
    lemma_mul_distributive(s, tower_mul(s, y0, z1) ^ tower_mul(s, y1, z0), tower_mul(s, m_y1z1, al), x1);
    lemma_mul_distributive(s, tower_mul(s, y0, z1), tower_mul(s, y1, z0), x1);
    lemma_mul_distributive(s, tower_mul(s, y0, z0), m_y1z1, x1);
    lemma_mul_distributive(s, tower_mul(s, y0, z1) ^ tower_mul(s, y1, z0), tower_mul(s, m_y1z1, al), x0);
    lemma_mul_distributive(s, tower_mul(s, y0, z1), tower_mul(s, y1, z0), x0);
    lemma_alpha_moves(s, m_y1z1, x1);
    lemma_alpha_moves(s, m_y1z1, x0);
    let lhs_lo = tower_mul(s, x0, p0) ^ tower_mul(s, x1, p1);
    let x1p1 = tower_mul(s, x1, p1);
    assert(x1p1 == (t101 ^ t110) ^ a111);
    assert(tower_mul(s, x0, p1) == (t001 ^ t010) ^ a011);
    assert(tower_mul(s, x1, p0) == t100 ^ t111);
    assert(tower_mul(s, x0, p0) == t000 ^ t011);
    lemma_mul_distributive(s, t101 ^ t110, a111, al);
    lemma_mul_distributive(s, t101, t110, al);
    assert(tower_mul(s, x1p1, al) == (a101 ^ a110) ^ aa111);
    // (x y) z
    let m_x1y1 = tower_mul(s, x1, y1);
    lemma_mul_distributive(s, tower_mul(s, x0, y0), m_x1y1, z0);
    lemma_mul_distributive(s, tower_mul(s, x0, y0), m_x1y1, z1);
    lemma_mul_distributive(s, tower_mul(s, x0, y1) ^ tower_mul(s, x1, y0), tower_mul(s, m_x1y1, al), z0);
    lemma_mul_distributive(s, tower_mul(s, x0, y1) ^ tower_mul(s, x1, y0), tower_mul(s, m_x1y1, al), z1);
    lemma_mul_distributive(s, tower_mul(s, x0, y1), tower_mul(s, x1, y0), z0);
    lemma_mul_distributive(s, tower_mul(s, x0, y1), tower_mul(s, x1, y0), z1);
    lemma_alpha_moves(s, m_x1y1, z0);
    lemma_alpha_moves(s, m_x1y1, z1);
    let q1z1 = tower_mul(s, q1, z1);
    assert(tower_mul(s, q0, z0) == t000 ^ t110);
    assert(tower_mul(s, q0, z1) == t001 ^ t111);
    assert(tower_mul(s, q1, z0) == (t010 ^ t100) ^ a110);
    assert(q1z1 == (t011 ^ t101) ^ a111);
    lemma_mul_distributive(s, t011 ^ t101, a111, al);
    lemma_mul_distributive(s, t011, t101, al);
    assert(tower_mul(s, q1z1, al) == (a011 ^ a101) ^ aa111);
    // the halves agree
    assert(lhs_lo == tower_mul(s, q0, z0) ^ tower_mul(s, q1, z1)) by {
        xor_lo(t000, t011, t101, t110, a111);
    }
    assert(tower_mul(s, x0, p1) ^ tower_mul(s, x1, p0) ^ tower_mul(s, x1p1, al) == tower_mul(
        s,
        q0,
        z1,
    ) ^ tower_mul(s, q1, z0) ^ tower_mul(s, q1z1, al)) by {
        xor_hi(t001, t010, a011, t100, t111, a101, a110, aa111);
    }
}

proof fn xor_lo(a: u128, b: u128, c: u128, d: u128, e: u128)
    by (bit_vector)
    ensures
        (a ^ b) ^ ((c ^ d) ^ e) == (a ^ d) ^ ((b ^ c) ^ e),
{
}

proof fn xor_hi(a: u128, b: u128, c: u128, d: u128, e: u128, f: u128, g: u128, h: u128)
    by (bit_vector)
    ensures
        (((a ^ b) ^ c) ^ (d ^ e)) ^ ((f ^ g) ^ h) == ((a ^ e) ^ ((b ^ d) ^ g)) ^ ((c ^ f) ^ h),
{
}

/// The norm of a level-`level` scalar `x0 + x1 X`: `x0 (x0 + x1 alpha) + x1 x1`, a scalar of
/// the level below.
pub open spec fn tower_norm(level: nat, x: u128) -> u128 {
    let s = (level - 1) as nat;
    let x0 = lo_half(x, level);
    let x1 = hi_half(x, level);
    tower_mul(s, x0, x0 ^ tower_mul(s, x1, alpha(s))) ^ tower_mul(s, x1, x1)
}

proof fn lemma_mul_swap(s: nat, a: u128, b: u128, c: u128)
    requires
        s <= 7,
    ensures
        tower_mul(s, a, tower_mul(s, b, c)) == tower_mul(s, b, tower_mul(s, a, c)),
{
    lemma_mul_associative(s, a, b, c);
    lemma_mul_associative(s, b, a, c);
    lemma_mul_commutative(s, a, b);
}

/// A scalar times its inverse is its norm times the norm's inverse, one level down: the
/// product is one exactly when the norm's is.
pub proof fn lemma_mul_inverse_by_norm(level: nat, x: u128)
    requires
        1 <= level <= 7,
    ensures
        tower_mul(level, x, tower_inv(level, x)) == tower_mul(
            (level - 1) as nat,
            tower_inv((level - 1) as nat, tower_norm(level, x)),
            tower_norm(level, x),
        ),
{
    let s = (level - 1) as nat;
    lemma_level_width(level);
    let w = width(s) as u128;
    let al = alpha(s);
    let x0 = lo_half(x, level);
    let x1 = hi_half(x, level);
    let c = x0 ^ tower_mul(s, x1, al);
    let d = tower_norm(level, x);
    let di = tower_inv(s, d);
    let lo = tower_mul(s, di, c);
    let hi = tower_mul(s, di, x1);
    let inv = tower_inv(level, x);
    assert(inv == join_halves(lo, hi, level));
    lemma_mul_is_scalar(s, di, c);
    lemma_mul_is_scalar(s, di, x1);
    lemma_small_constants(0, w);
    lemma_bits_join(lo, hi, 0, 0, w);
    assert(lo_half(inv, level) == lo && hi_half(inv, level) == hi);
    // constant term: di (x0 c + x1 x1)
    lemma_mul_swap(s, x0, di, c);
    lemma_mul_swap(s, x1, di, x1);
    lemma_mul_distributive(s, tower_mul(s, x0, c), tower_mul(s, x1, x1), di);
    let new_lo = tower_mul(s, x0, lo) ^ tower_mul(s, x1, hi);
    assert(new_lo == tower_mul(s, di, d));
    // coefficient of X: di (x0 x1 + x1 c + x1 x1 alpha), which is zero
    let x11 = tower_mul(s, x1, x1);
    lemma_mul_swap(s, x0, di, x1);
    lemma_mul_swap(s, x1, di, c);
    lemma_mul_associative(s, di, x11, al);
    lemma_mul_distributive(s, x0, tower_mul(s, x1, al), x1);
    lemma_mul_associative(s, x1, x1, al);
    lemma_mul_commutative(s, x1, x0);
    let k = tower_mul(s, x0, x1) ^ tower_mul(s, x1, c) ^ tower_mul(s, x11, al);
    assert(tower_mul(s, x1, c) == tower_mul(s, x0, x1) ^ tower_mul(s, x11, al));
    assert(k == 0) by {
        lemma_xor_cancel(tower_mul(s, x0, x1), tower_mul(s, x11, al));
    }
    lemma_mul_distributive(s, tower_mul(s, x0, x1), tower_mul(s, x1, c), di);
    lemma_mul_distributive(s, tower_mul(s, x0, x1) ^ tower_mul(s, x1, c), tower_mul(s, x11, al), di);
    lemma_mul_zero_one(s, di);
    let new_hi = tower_mul(s, x0, hi) ^ tower_mul(s, x1, lo) ^ tower_mul(
        s,
        tower_mul(s, x1, hi),
        al,
    );
    assert(tower_mul(s, x1, hi) == tower_mul(s, di, x11));
    assert(new_hi == tower_mul(s, di, k));
    assert(new_hi == 0);
    // joining with a zero coefficient of X
    lemma_mul_is_scalar(s, di, d);
    lemma_zero_shift(w);
    lemma_word_algebra(new_lo, 0, 0, 0);
}

proof fn lemma_xor_cancel(a: u128, b: u128)
    by (bit_vector)
    ensures
        (a ^ (a ^ b)) ^ b == 0,
{
}

/// Over GF(2), a nonzero scalar times its inverse is one.
pub proof fn lemma_mul_inverse_base(x: u128)
    requires
        is_scalar(0, x),
        x != 0,
    ensures
        tower_mul(0, x, tower_inv(0, x)) == 1,
{
    assert(width(0) == 1);
    assert(x & low_bits(1) == x && x != 0 ==> x & (x & 1) & 1 == 1) by (bit_vector);
}

/// Powers are scalars of their level.
pub proof fn lemma_pow_is_scalar(level: nat, x: u128, e: nat)
    requires
        level <= 7,
    ensures
        is_scalar(level, tower_pow(level, x, e)),
{
    if e == 0 {
        if level == 0 {
            assert(width(0) == 1);
            lemma_small_constants(0, 1);
        } else {
            lemma_halves_of_scalar(level, 1);
        }
    } else {
        lemma_mul_is_scalar(level, tower_pow(level, x, (e - 1) as nat), x);
    }
}

/// Exponents add: `x^(a + b) == x^a * x^b`.
pub proof fn lemma_pow_add(level: nat, x: u128, a: nat, b: nat)
    requires
        level <= 7,
    ensures
        tower_pow(level, x, a + b) == tower_mul(level, tower_pow(level, x, a), tower_pow(level, x, b)),
    decreases b,
{
    if b == 0 {
        lemma_pow_is_scalar(level, x, a);
        lemma_mul_zero_one(level, tower_pow(level, x, a));
    } else {
        lemma_pow_add(level, x, a, (b - 1) as nat);
        assert((a + b - 1) as nat == a + (b - 1) as nat);
        lemma_mul_associative(
            level,
            tower_pow(level, x, a),
            tower_pow(level, x, (b - 1) as nat),
            x,
        );
    }
}

/// Raising to a power by halving the exponent gives the power.
pub proof fn lemma_pow_halving(level: nat, x: u128, e: nat)
    requires
        level <= 7,
    ensures
        tower_pow_halving(level, x, e) == tower_pow(level, x, e),
    decreases e,
{
    if e > 0 {
        let k = e / 2;
        lemma_pow_halving(level, x, k);
        lemma_pow_add(level, x, k, k);
        if e % 2 == 1 {
            assert(e == (k + k) + 1);
            assert(tower_pow(level, x, e) == tower_mul(level, tower_pow(level, x, k + k), x));
        } else {
            assert(e == k + k);
        }
    }
}

} // verus!
