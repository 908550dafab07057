//! Packed tower arithmetic on a 128-bit underlier: every operation acts on all lanes of a
//! level at once, through masks and shifts, and is proved lane by lane against the scalar
//! definitions of the tower.

use vstd::prelude::*;
use crate::constants::{
    alpha, alphas_even_lanes, even_mask, interleave_even_mask, interleave_odd_mask,
    lemma_constant_lanes, odd_mask,
};
use crate::lanes::{
    lane, lane_count, lemma_index_fits, lemma_lane_bitwise, lemma_lane_masked,
    lemma_lane_past_end, lemma_lane_shl, lemma_lane_shr, lemma_lane_split,
    lemma_lanes_determine_word, lemma_level_facts, lemma_width_values, lemma_word_algebra,
    low_bits, width,
};
use crate::tower::{
    hi_half, is_scalar, join_halves, lemma_halves_of_scalar, lemma_mul_commutative,
    lemma_mul_distributive, lemma_mul_zero_one, lo_half, tower_inv, tower_mul,
};

verus! {

/// Width in bits of one scalar at `level`.
pub fn scalar_bits(level: usize) -> (r: u128)
    requires
        level <= 7,
    ensures
        r == width(level as nat),
{
    proof {
        lemma_width_values();
    }
    match level {
        0 => 1,
        1 => 2,
        2 => 4,
        3 => 8,
        4 => 16,
        5 => 32,
        6 => 64,
        _ => 128,
    }
}

/// Lanes of `x & even_mask(level)`: the even lanes of `x`, zero elsewhere; likewise for
/// the odd mask.
pub proof fn lemma_lane_select(x: u128, level: nat, i: nat)
    requires
        level < 7,
        i < lane_count(level),
    ensures
        lane(x & even_mask(level), level, i) == if i % 2 == 0 {
            lane(x, level, i)
        } else {
            0
        },
        lane(x & odd_mask(level), level, i) == if i % 2 == 1 {
            lane(x, level, i)
        } else {
            0
        },
{
    let w = width(level) as u128;
    lemma_level_facts(level);
    lemma_constant_lanes(level, i);
    lemma_lane_bitwise(x, even_mask(level), w, i);
    lemma_lane_bitwise(x, odd_mask(level), w, i);
    lemma_lane_masked(x, w, i);
    lemma_word_algebra(lane(x, level, i), 0, 0, low_bits(w));
}

/// Lanes of `x << width(level)` and `x >> width(level)`: one lane up, one lane down.
pub proof fn lemma_lane_move(x: u128, level: nat, i: nat)
    requires
        level < 7,
        i < lane_count(level),
    ensures
        lane(x << (width(level) as u128), level, i) == if i == 0 {
            0
        } else {
            lane(x, level, (i - 1) as nat)
        },
        lane(x >> (width(level) as u128), level, i) == if i + 1 < lane_count(level) {
            lane(x, level, i + 1)
        } else {
            0
        },
{
    let w = width(level) as u128;
    lemma_level_facts(level);
    lemma_index_fits(level, i);
    lemma_lane_shl(x, w, i);
    lemma_lane_shr(x, w, i);
    if i + 1 >= lane_count(level) {
        assert((i + 1) * width(level) >= 128) by (nonlinear_arith)
            requires
                i + 1 >= lane_count(level),
                lane_count(level) * width(level) == 128,
        ;
        lemma_lane_past_end(x, w, i + 1);
    }
}

/// `(c, d)` is the block transpose of `(a, b)` at `level`: `c = <a0, b0, a2, b2, ...>` and
/// `d = <a1, b1, a3, b3, ...>`.
pub open spec fn is_interleaving(a: u128, b: u128, c: u128, d: u128, level: nat) -> bool {
    &&& forall|i: nat|
        i < lane_count(level) ==> #[trigger] lane(c, level, i) == if i % 2 == 0 {
            lane(a, level, i)
        } else {
            lane(b, level, (i - 1) as nat)
        }
    &&& forall|i: nat|
        i < lane_count(level) ==> #[trigger] lane(d, level, i) == if i % 2 == 0 {
            lane(a, level, i + 1)
        } else {
            lane(b, level, i)
        }
}

/// Interleaving twice gives the inputs back.
pub proof fn lemma_interleave_involution(
    a: u128,
    b: u128,
    c: u128,
    d: u128,
    e: u128,
    f: u128,
    level: nat,
)
    requires
        level < 7,
        is_interleaving(a, b, c, d, level),
        is_interleaving(c, d, e, f, level),
    ensures
        e == a,
        f == b,
{
    lemma_level_facts(level);
    assert forall|i: nat| i < lane_count(level) implies #[trigger] lane(e, level, i) == lane(
        a,
        level,
        i,
    ) && lane(f, level, i) == lane(b, level, i) by {
        assert(lane(e, level, i) == lane(e, level, i));
        assert(lane(f, level, i) == lane(f, level, i));
        assert(lane(c, level, i) == lane(c, level, i));
        assert(lane(d, level, i) == lane(d, level, i));
        if i % 2 == 0 {
            assert(i + 1 < lane_count(level));
            assert(lane(c, level, i + 1) == lane(b, level, i));
        } else {
            let j = (i - 1) as nat;
            assert(j % 2 == 0 && j + 1 == i && j < lane_count(level));
            assert(lane(c, level, j) == lane(a, level, j));
            assert(lane(d, level, j) == lane(a, level, i));
        }
    }
    lemma_lanes_determine_word(e, a, level);
    lemma_lanes_determine_word(f, b, level);
}

/// Views two packed vectors as pairs of lanes and transposes each 2x2 block: from
/// `<a0, a1, a2, a3, ...>` and `<b0, b1, b2, b3, ...>` it makes `<a0, b0, a2, b2, ...>`
/// and `<a1, b1, a3, b3, ...>`.
pub fn interleave(a: u128, b: u128, level: usize) -> (r: (u128, u128))
    requires
        level < 7,
    ensures
        is_interleaving(a, b, r.0, r.1, level as nat),
{
    proof {
        lemma_level_facts(level as nat);
    }
    let mask = interleave_even_mask(level);
    let block_len = scalar_bits(level);
    let t = ((a >> block_len) ^ b) & mask;
    let c = a ^ (t << block_len);
    let d = b ^ t;
    proof {
        let l = level as nat;
        let w = width(l) as u128;
        lemma_level_facts(l);
        assert forall|i: nat| i < lane_count(l) implies lane(c, l, i) == (if i % 2 == 0 {
            lane(a, l, i)
        } else {
            lane(b, l, (i - 1) as nat)
        }) && lane(d, l, i) == (if i % 2 == 0 {
            lane(a, l, i + 1)
        } else {
            lane(b, l, i)
        }) by {
            lemma_lane_t(a, b, l, i);
            lemma_lane_bitwise(a, t << w, w, i);
            lemma_lane_bitwise(b, t, w, i);
            lemma_lane_move(t, l, i);
            if i > 0 {
                lemma_lane_t(a, b, l, (i - 1) as nat);
            }
            lemma_word_algebra(lane(a, l, i), lane(b, l, i), lane(a, l, i + 1), 0);
            lemma_word_algebra(lane(b, l, i), lane(a, l, i + 1), 0, 0);
            if i > 0 {
                lemma_word_algebra(lane(a, l, i), lane(b, l, (i - 1) as nat), 0, 0);
            }
        }
    }
    (c, d)
}

/// The cross term of interleaving: lane `i` of `((a >> w) ^ b) & even_mask` is
/// `a[i + 1] ^ b[i]` on even `i` and zero on odd `i`.
proof fn lemma_lane_t(a: u128, b: u128, level: nat, i: nat)
    requires
        level < 7,
        i < lane_count(level),
    ensures
        lane(((a >> (width(level) as u128)) ^ b) & even_mask(level), level, i) == if i % 2
            == 0 {
            lane(a, level, i + 1) ^ lane(b, level, i)
        } else {
            0
        },
{
    let w = width(level) as u128;
    lemma_level_facts(level);
    lemma_lane_select((a >> w) ^ b, level, i);
    lemma_lane_bitwise(a >> w, b, w, i);
    lemma_lane_move(a, level, i);
}

/// Adds each pair of adjacent lanes and writes the sum into both: from
/// `<a0, a1, a2, a3, ...>` it makes `<a0 + a1, a0 + a1, a2 + a3, a2 + a3, ...>`.
pub fn xor_adjacent(a: u128, level: usize) -> (r: u128)
    requires
        level < 7,
    ensures
        forall|i: nat|
            i < lane_count(level as nat) ==> lane(r, level as nat, i) == lane(
                a,
                level as nat,
                (i - i % 2) as nat,
            ) ^ lane(a, level as nat, (i - i % 2 + 1) as nat),
{
    proof {
        lemma_level_facts(level as nat);
    }
    let mask = interleave_even_mask(level);
    let block_len = scalar_bits(level);
    let t = ((a >> block_len) ^ a) & mask;
    let r = t ^ (t << block_len);
    proof {
        let l = level as nat;
        let w = width(l) as u128;
        lemma_level_facts(l);
        assert forall|i: nat| i < lane_count(l) implies lane(r, l, i) == lane(
            a,
            l,
            (i - i % 2) as nat,
        ) ^ lane(a, l, (i - i % 2 + 1) as nat) by {
            lemma_lane_t(a, a, l, i);
            lemma_lane_bitwise(t, t << w, w, i);
            lemma_lane_move(t, l, i);
            if i > 0 {
                lemma_lane_t(a, a, l, (i - 1) as nat);
            }
            lemma_word_algebra(lane(a, l, i), lane(a, l, i + 1), 0, 0);
            lemma_word_algebra(lane(t, l, i), 0, 0, 0);
            if i > 0 {
                lemma_word_algebra(lane(a, l, (i - 1) as nat), lane(a, l, i), 0, 0);
                lemma_word_algebra(lane(t, l, (i - 1) as nat), 0, 0, 0);
            }
        }
    }
    r
}

/// The subfield view: lane `k` of a level-`level` vector is the pair of level-`(level - 1)`
/// lanes `2k` (its low half) and `2k + 1` (its high half) of the same word.
pub proof fn lemma_subfield_lanes(x: u128, level: nat, k: nat)
    requires
        1 <= level <= 7,
        k < lane_count(level),
    ensures
        2 * k + 1 < lane_count((level - 1) as nat),
        lane(x, (level - 1) as nat, 2 * k) == lo_half(lane(x, level, k), level),
        lane(x, (level - 1) as nat, 2 * k + 1) == hi_half(lane(x, level, k), level),
        lane(x, level, k) == join_halves(
            lane(x, (level - 1) as nat, 2 * k),
            lane(x, (level - 1) as nat, 2 * k + 1),
            level,
        ),
{
    let s = (level - 1) as nat;
    lemma_level_facts(s);
    lemma_lane_split(x, width(s) as u128, k);
}

proof fn lemma_and_one(x: u128, y: u128)
    by (bit_vector)
    requires
        x & low_bits(1) == x,
    ensures
        x & y & 1 == x & y,
{
}

proof fn lemma_mul_combine(z0: u128, z2: u128, p: u128, q: u128, n: u128)
    by (bit_vector)
    ensures
        (z0 ^ z2) ^ ((n ^ ((z0 ^ p) ^ (q ^ z2))) & low_bits(128)) == (p ^ q) ^ n,
        (z0 ^ z2) ^ (n ^ ((z0 ^ p) ^ (q ^ z2))) == (p ^ q) ^ n,
{
}

/// Lane-wise product of two packed vectors of level-`level` scalars.
pub fn mul(a: u128, b: u128, level: usize) -> (r: u128)
    requires
        level <= 7,
    ensures
        forall|i: nat|
            i < lane_count(level as nat) ==> lane(r, level as nat, i) == tower_mul(
                level as nat,
                lane(a, level as nat, i),
                lane(b, level as nat, i),
            ),
    decreases level,
{
    if level == 0 {
        let r = a & b;
        proof {
            lemma_width_values();
            assert forall|i: nat| i < lane_count(0) implies lane(r, 0, i) == tower_mul(
                0,
                lane(a, 0, i),
                lane(b, 0, i),
            ) by {
                lemma_lane_bitwise(a, b, 1, i);
                lemma_lane_masked(a, 1, i);
                lemma_and_one(lane(a, 0, i), lane(b, 0, i));
            }
        }
        return r;
    }
    let sub = level - 1;
    proof {
        lemma_level_facts(sub as nat);
    }
    let z0_even_z2_odd = crate::packed::mul(a, b, sub);
    let (lo, hi) = interleave(a, b, sub);
    let lo_plus_hi_a_even_b_odd = lo ^ hi;
    let odd_mask = interleave_odd_mask(sub);
    let alphas = alphas_even_lanes(sub);
    let alpha_even_z2_odd = alphas ^ (z0_even_z2_odd & odd_mask);
    let (lo_plus_hi_a_even_alpha_odd, lo_plus_hi_b_even_z2_odd) = interleave(
        lo_plus_hi_a_even_b_odd,
        alpha_even_z2_odd,
        sub,
    );
    let z1_plus_z0_plus_z2_even_z2a_odd = crate::packed::mul(
        lo_plus_hi_a_even_alpha_odd,
        lo_plus_hi_b_even_z2_odd,
        sub,
    );
    let block_len = scalar_bits(sub);
    let zero_even_z1_plus_z2a_plus_z0_plus_z2_odd = (z1_plus_z0_plus_z2_even_z2a_odd
        ^ (z1_plus_z0_plus_z2_even_z2a_odd << block_len)) & odd_mask;
    let z0_plus_z2_dup = xor_adjacent(z0_even_z2_odd, sub);
    let r = z0_plus_z2_dup ^ zero_even_z1_plus_z2a_plus_z0_plus_z2_odd;
    proof {
        let l = level as nat;
        let s = sub as nat;
        let w = width(s) as u128;
        let z = z0_even_z2_odd;
        let lph = lo_plus_hi_a_even_b_odd;
        let aez = alpha_even_z2_odd;
        let m = z1_plus_z0_plus_z2_even_z2a_odd;
        let zo = zero_even_z1_plus_z2a_plus_z0_plus_z2_odd;
        assert forall|k: nat| k < lane_count(l) implies lane(r, l, k) == tower_mul(
            l,
            lane(a, l, k),
            lane(b, l, k),
        ) by {
            lemma_subfield_lanes(a, l, k);
            lemma_subfield_lanes(b, l, k);
            lemma_subfield_lanes(r, l, k);
            let j0 = 2 * k;
            let j1 = 2 * k + 1;
            assert(j0 % 2 == 0 && j1 % 2 == 1 && (j1 - 1) as nat == j0 && j0 + 1 == j1);
            let a0 = lane(a, s, j0);
            let a1 = lane(a, s, j1);
            let b0 = lane(b, s, j0);
            let b1 = lane(b, s, j1);
            let z0 = tower_mul(s, a0, b0);
            let z2 = tower_mul(s, a1, b1);
            let p = tower_mul(s, a0, b1);
            let q = tower_mul(s, a1, b0);
            // the first product
            assert(lane(z, s, j0) == z0 && lane(z, s, j1) == z2);
            // lo ^ hi
            assert(j1 < lane_count(s));
            assert(lane(lo, s, j0) == a0);
            assert(lane(hi, s, j0) == a1);
            assert(lane(lo, s, j1) == b0);
            assert(lane(hi, s, j1) == b1);
            lemma_lane_bitwise(lo, hi, w, j0);
            lemma_lane_bitwise(lo, hi, w, j1);
            assert(lane(lph, s, j0) == a0 ^ a1 && lane(lph, s, j1) == b0 ^ b1);
            // alphas ^ (z & odd)
            lemma_lane_select(z, s, j0);
            lemma_lane_select(z, s, j1);
            lemma_constant_lanes(s, j0);
            lemma_constant_lanes(s, j1);
            lemma_lane_bitwise(alphas, z & odd_mask, w, j0);
            lemma_lane_bitwise(alphas, z & odd_mask, w, j1);
            lemma_word_algebra(alpha(s), 0, 0, 0);
            lemma_word_algebra(z2, 0, 0, 0);
            assert(lane(aez, s, j0) == alpha(s) && lane(aez, s, j1) == z2);
            // the second product
            assert(lane(lo_plus_hi_a_even_alpha_odd, s, j0) == a0 ^ a1);
            assert(lane(lo_plus_hi_b_even_z2_odd, s, j0) == b0 ^ b1);
            assert(lane(lo_plus_hi_a_even_alpha_odd, s, j1) == alpha(s));
            assert(lane(lo_plus_hi_b_even_z2_odd, s, j1) == z2);
            let mm = tower_mul(s, a0 ^ a1, b0 ^ b1);
            let nn = tower_mul(s, alpha(s), z2);
            assert(lane(m, s, j0) == mm && lane(m, s, j1) == nn);
            lemma_mul_distributive(s, a0, a1, b0 ^ b1);
            lemma_mul_distributive(s, b0, b1, a0);
            lemma_mul_distributive(s, b0, b1, a1);
            lemma_mul_commutative(s, alpha(s), z2);
            assert(mm == (z0 ^ p) ^ (q ^ z2));
            // fold the middle term into the odd lanes
            lemma_lane_select(m ^ (m << block_len), s, j0);
            lemma_lane_select(m ^ (m << block_len), s, j1);
            lemma_lane_bitwise(m, m << block_len, w, j1);
            lemma_lane_move(m, s, j1);
            assert(lane(zo, s, j0) == 0);
            assert(lane(zo, s, j1) == nn ^ mm);
            // the duplicated sum z0 + z2
            assert(lane(z0_plus_z2_dup, s, j0) == z0 ^ z2);
            assert(lane(z0_plus_z2_dup, s, j1) == z0 ^ z2);
            lemma_lane_bitwise(z0_plus_z2_dup, zo, w, j0);
            lemma_lane_bitwise(z0_plus_z2_dup, zo, w, j1);
            lemma_word_algebra(z0 ^ z2, 0, 0, 0);
            lemma_mul_combine(z0, z2, p, q, nn);
            assert(lane(r, s, j0) == z0 ^ z2);
            assert(lane(r, s, j1) == (p ^ q) ^ tower_mul(s, z2, alpha(s)));
        }
    }
    r
}

/// A lane is a scalar of its level.
pub proof fn lemma_lane_is_scalar(x: u128, level: nat, i: nat)
    ensures
        is_scalar(level, lane(x, level, i)),
{
    lemma_lane_masked(x, width(level) as u128, i);
}

/// Lane-wise product with the generator `alpha(level)`.
pub fn mul_alpha(a: u128, level: usize) -> (r: u128)
    requires
        level <= 7,
    ensures
        forall|i: nat|
            i < lane_count(level as nat) ==> lane(r, level as nat, i) == tower_mul(
                level as nat,
                lane(a, level as nat, i),
                alpha(level as nat),
            ),
    decreases level,
{
    if level == 0 {
        proof {
            assert forall|i: nat| i < lane_count(0) implies lane(a, 0, i) == tower_mul(
                0,
                lane(a, 0, i),
                alpha(0),
            ) by {
                lemma_lane_is_scalar(a, 0, i);
                lemma_mul_zero_one(0, lane(a, 0, i));
            }
        }
        return a;
    }
    let sub = level - 1;
    proof {
        lemma_level_facts(sub as nat);
    }
    let block_len = scalar_bits(sub);
    let even_mask = interleave_even_mask(sub);
    let odd_mask = interleave_odd_mask(sub);
    let a0 = a & even_mask;
    let a1 = a & odd_mask;
    let z1 = crate::packed::mul_alpha(a1, sub);
    let r = (a1 >> block_len) | ((a0 << block_len) ^ z1);
    proof {
        let l = level as nat;
        let s = sub as nat;
        let w = width(s) as u128;
        assert forall|k: nat| k < lane_count(l) implies lane(r, l, k) == tower_mul(
            l,
            lane(a, l, k),
            alpha(l),
        ) by {
            lemma_subfield_lanes(a, l, k);
            lemma_subfield_lanes(r, l, k);
            let j0 = 2 * k;
            let j1 = 2 * k + 1;
            assert(j0 % 2 == 0 && j1 % 2 == 1 && (j1 - 1) as nat == j0 && j0 + 1 == j1);
            let x0 = lane(a, s, j0);
            let x1 = lane(a, s, j1);
            lemma_lane_select(a, s, j0);
            lemma_lane_select(a, s, j1);
            lemma_lane_move(a1, s, j0);
            lemma_lane_move(a1, s, j1);
            lemma_lane_move(a0, s, j0);
            lemma_lane_move(a0, s, j1);
            if j1 + 1 < lane_count(s) {
                lemma_lane_select(a, s, j1 + 1);
            }
            lemma_lane_bitwise(a1 >> block_len, (a0 << block_len) ^ z1, w, j0);
            lemma_lane_bitwise(a1 >> block_len, (a0 << block_len) ^ z1, w, j1);
            lemma_lane_bitwise(a0 << block_len, z1, w, j0);
            lemma_lane_bitwise(a0 << block_len, z1, w, j1);
            if j0 > 0 {
                lemma_lane_select(a, s, (j0 - 1) as nat);
            }
            lemma_mul_zero_one(s, alpha(s));
            let t = tower_mul(s, x1, alpha(s));
            lemma_word_algebra(t, 0, 0, 0);
            lemma_word_algebra(x0 ^ t, 0, 0, 0);
            lemma_word_algebra(x1, 0, 0, 0);
            lemma_word_algebra(0, 0, 0, 0);
            assert(lane(a1, s, j0) == 0 && lane(a1, s, j1) == x1);
            assert(lane(a0, s, j0) == x0 && lane(a0, s, j1) == 0);
            assert(lane(z1, s, j0) == tower_mul(s, 0, alpha(s)));
            assert(lane(z1, s, j1) == t);
            assert(lane(a1 >> block_len, s, j0) == x1);
            assert(lane(a1 >> block_len, s, j1) == 0);
            assert(lane(a0 << block_len, s, j0) == 0);
            assert(lane(a0 << block_len, s, j1) == x0);
            assert(lane(r, s, j0) == x1);
            assert(lane(r, s, j1) == x0 ^ t);
            // the product with alpha, by the definition
            let x = lane(a, l, k);
            lemma_halves_of_scalar(l, alpha(l));
            lemma_lane_is_scalar(a, s, j0);
            lemma_lane_is_scalar(a, s, j1);
            lemma_mul_zero_one(s, x0);
            lemma_mul_zero_one(s, x1);
            lemma_word_algebra(x0, 0, 0, 0);
            assert(tower_mul(l, x, alpha(l)) == join_halves(
                0 ^ x1,
                x0 ^ 0 ^ tower_mul(s, x1, alpha(s)),
                l,
            ));
        }
    }
    r
}

/// Lane-wise square.
pub fn square(a: u128, level: usize) -> (r: u128)
    requires
        level <= 7,
    ensures
        forall|i: nat|
            i < lane_count(level as nat) ==> lane(r, level as nat, i) == tower_mul(
                level as nat,
                lane(a, level as nat, i),
                lane(a, level as nat, i),
            ),
    decreases level,
{
    if level == 0 {
        proof {
            assert forall|i: nat| i < lane_count(0) implies lane(a, 0, i) == tower_mul(
                0,
                lane(a, 0, i),
                lane(a, 0, i),
            ) by {
                lemma_lane_is_scalar(a, 0, i);
                lemma_width_values();
                let x = lane(a, 0, i);
                lemma_word_algebra(x, x, 0, 0);
            }
        }
        return a;
    }
    let sub = level - 1;
    proof {
        lemma_level_facts(sub as nat);
    }
    let block_len = scalar_bits(sub);
    let even_mask = interleave_even_mask(sub);
    let odd_mask = interleave_odd_mask(sub);
    let z_02 = crate::packed::square(a, sub);
    let z_02_alpha = crate::packed::mul_alpha(z_02, sub);
    let z_2a = z_02_alpha & odd_mask;
    let z_0_xor_z_2 = (z_02 ^ (z_02 >> block_len)) & even_mask;
    let r = z_0_xor_z_2 | z_2a;
    proof {
        let l = level as nat;
        let s = sub as nat;
        let w = width(s) as u128;
        assert forall|k: nat| k < lane_count(l) implies lane(r, l, k) == tower_mul(
            l,
            lane(a, l, k),
            lane(a, l, k),
        ) by {
            lemma_subfield_lanes(a, l, k);
            lemma_subfield_lanes(r, l, k);
            let j0 = 2 * k;
            let j1 = 2 * k + 1;
            assert(j0 % 2 == 0 && j1 % 2 == 1 && (j1 - 1) as nat == j0 && j0 + 1 == j1);
            let x0 = lane(a, s, j0);
            let x1 = lane(a, s, j1);
            let z0 = tower_mul(s, x0, x0);
            let z2 = tower_mul(s, x1, x1);
            let m = tower_mul(s, z2, alpha(s));
            lemma_lane_select(z_02_alpha, s, j0);
            lemma_lane_select(z_02_alpha, s, j1);
            lemma_lane_select(z_02 ^ (z_02 >> block_len), s, j0);
            lemma_lane_select(z_02 ^ (z_02 >> block_len), s, j1);
            lemma_lane_bitwise(z_02, z_02 >> block_len, w, j0);
            lemma_lane_move(z_02, s, j0);
            lemma_lane_bitwise(z_0_xor_z_2, z_2a, w, j0);
            lemma_lane_bitwise(z_0_xor_z_2, z_2a, w, j1);
            lemma_word_algebra(z0 ^ z2, 0, 0, 0);
            lemma_word_algebra(m, 0, 0, 0);
            assert(lane(r, s, j0) == z0 ^ z2);
            assert(lane(r, s, j1) == m);
            lemma_mul_commutative(s, x0, x1);
            lemma_word_algebra(tower_mul(s, x0, x1), m, 0, 0);
            lemma_word_algebra(tower_mul(s, x0, x1), tower_mul(s, x0, x1), m, 0);
        }
    }
    r
}

/// Lane-wise inverse, with zero lanes mapped to zero.
pub fn invert_or_zero(a: u128, level: usize) -> (r: u128)
    requires
        level <= 7,
    ensures
        forall|i: nat|
            i < lane_count(level as nat) ==> lane(r, level as nat, i) == tower_inv(
                level as nat,
                lane(a, level as nat, i),
            ),
    decreases level,
{
    if level == 0 {
        proof {
            assert forall|i: nat| i < lane_count(0) implies lane(a, 0, i) == tower_inv(
                0,
                lane(a, 0, i),
            ) by {
                lemma_lane_is_scalar(a, 0, i);
                lemma_width_values();
                lemma_word_algebra(lane(a, 0, i), 0, 0, 0);
            }
        }
        return a;
    }
    let sub = level - 1;
    proof {
        lemma_level_facts(sub as nat);
    }
    let block_len = scalar_bits(sub);
    let even_mask = interleave_even_mask(sub);
    let odd_mask = interleave_odd_mask(sub);
    // the high halves, moved to the even lanes
    let a_1_even = a >> block_len;
    let a_1_alpha = crate::packed::mul_alpha(a_1_even, sub);
    let intermediate = a ^ a_1_alpha;
    let lo_times_intermediate = crate::packed::mul(a, intermediate, sub);
    let hi_squared = crate::packed::square(a_1_even, sub);
    let delta = lo_times_intermediate ^ hi_squared;
    let delta_inv = crate::packed::invert_or_zero(delta, sub);
    // the inverted norm in both lanes of each pair
    let delta_inv_even = delta_inv & even_mask;
    let delta_inv_delta_inv = delta_inv_even | (delta_inv_even << block_len);
    let intermediate_a1 = (a & odd_mask) | (intermediate & even_mask);
    let r = crate::packed::mul(delta_inv_delta_inv, intermediate_a1, sub);
    proof {
        let l = level as nat;
        let s = sub as nat;
        let w = width(s) as u128;
        assert forall|k: nat| k < lane_count(l) implies lane(r, l, k) == tower_inv(
            l,
            lane(a, l, k),
        ) by {
            lemma_subfield_lanes(a, l, k);
            lemma_subfield_lanes(r, l, k);
            let j0 = 2 * k;
            let j1 = 2 * k + 1;
            assert(j0 % 2 == 0 && j1 % 2 == 1 && (j1 - 1) as nat == j0 && j0 + 1 == j1);
            let x0 = lane(a, s, j0);
            let x1 = lane(a, s, j1);
            lemma_lane_move(a, s, j0);
            assert(lane(a_1_even, s, j0) == x1);
            let c = x0 ^ tower_mul(s, x1, alpha(s));
            lemma_lane_bitwise(a, a_1_alpha, w, j0);
            assert(lane(a_1_alpha, s, j0) == tower_mul(s, x1, alpha(s)));
            assert(lane(intermediate, s, j0) == c);
            let d = tower_mul(s, x0, c) ^ tower_mul(s, x1, x1);
            assert(lane(lo_times_intermediate, s, j0) == tower_mul(s, x0, c));
            assert(lane(hi_squared, s, j0) == tower_mul(s, x1, x1));
            lemma_lane_bitwise(lo_times_intermediate, hi_squared, w, j0);
            assert(lane(delta, s, j0) == d);
            let di = tower_inv(s, d);
            assert(lane(delta_inv, s, j0) == di);
            lemma_lane_select(delta_inv, s, j0);
            lemma_lane_select(delta_inv, s, j1);
            if j0 > 0 {
                lemma_lane_select(delta_inv, s, (j0 - 1) as nat);
            }
            lemma_lane_move(delta_inv_even, s, j0);
            lemma_lane_move(delta_inv_even, s, j1);
            lemma_lane_bitwise(delta_inv_even, delta_inv_even << block_len, w, j0);
            lemma_lane_bitwise(delta_inv_even, delta_inv_even << block_len, w, j1);
            lemma_word_algebra(di, 0, 0, 0);
            assert(lane(delta_inv_delta_inv, s, j0) == di);
            assert(lane(delta_inv_delta_inv, s, j1) == di);
            lemma_lane_select(a, s, j0);
            lemma_lane_select(a, s, j1);
            lemma_lane_select(intermediate, s, j0);
            lemma_lane_select(intermediate, s, j1);
            lemma_lane_bitwise(a & odd_mask, intermediate & even_mask, w, j0);
            lemma_lane_bitwise(a & odd_mask, intermediate & even_mask, w, j1);
            lemma_word_algebra(c, 0, 0, 0);
            lemma_word_algebra(x1, 0, 0, 0);
            assert(lane(intermediate_a1, s, j0) == c);
            assert(lane(intermediate_a1, s, j1) == x1);
            assert(lane(r, s, j0) == tower_mul(s, di, c));
            assert(lane(r, s, j1) == tower_mul(s, di, x1));
        }
    }
    r
}

/// Squaring agrees with multiplying a vector by itself: two words whose lanes are,
/// respectively, the squares and the self-products of the lanes of `a` are equal.
pub proof fn lemma_square_is_mul_self(a: u128, sq: u128, prod: u128, level: nat)
    requires
        level <= 7,
        forall|i: nat|
            i < lane_count(level) ==> #[trigger] lane(sq, level, i) == tower_mul(
                level,
                lane(a, level, i),
                lane(a, level, i),
            ),
        forall|i: nat|
            i < lane_count(level) ==> #[trigger] lane(prod, level, i) == tower_mul(
                level,
                lane(a, level, i),
                lane(a, level, i),
            ),
    ensures
        sq == prod,
{
    assert forall|i: nat| i < lane_count(level) implies #[trigger] lane(sq, level, i) == lane(
        prod,
        level,
        i,
    ) by {}
    lemma_lanes_determine_word(sq, prod, level);
}

/// Multiplying by the generator agrees with multiplying by the generator broadcast into
/// every lane.
pub proof fn lemma_mul_alpha_is_mul_broadcast(
    a: u128,
    alphas: u128,
    by_alpha: u128,
    prod: u128,
    level: nat,
)
    requires
        level <= 7,
        forall|i: nat| i < lane_count(level) ==> #[trigger] lane(alphas, level, i) == alpha(level),
        forall|i: nat|
            i < lane_count(level) ==> #[trigger] lane(by_alpha, level, i) == tower_mul(
                level,
                lane(a, level, i),
                alpha(level),
            ),
        forall|i: nat|
            i < lane_count(level) ==> #[trigger] lane(prod, level, i) == tower_mul(
                level,
                lane(a, level, i),
                lane(alphas, level, i),
            ),
    ensures
        by_alpha == prod,
{
    assert forall|i: nat| i < lane_count(level) implies #[trigger] lane(by_alpha, level, i)
        == lane(prod, level, i) by {
        assert(lane(alphas, level, i) == alpha(level));
    }
    lemma_lanes_determine_word(by_alpha, prod, level);
}

} // verus!
