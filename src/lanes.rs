//! The lane model: a 128-bit word read as a vector of fixed-width lanes,
//! lane 0 holding the lowest bits.

use vstd::prelude::*;

verus! {

/// The low `b` bits set, for `b` from 0 to 128.
pub open spec fn low_bits(b: u128) -> u128 {
    (!0u128) >> ((128 - b) as u128)
}

/// A lane width below the whole word: 1, 2, 4, ..., 64.
pub open spec fn is_half_width(w: u128) -> bool {
    w == 1 || w == 2 || w == 4 || w == 8 || w == 16 || w == 32 || w == 64
}

/// Lane `i` of `x` when lanes are `w` bits wide.
pub open spec fn lane_at(x: u128, w: u128, i: nat) -> u128
    decreases i,
{
    if i == 0 {
        x & low_bits(w)
    } else {
        lane_at(x >> w, w, (i - 1) as nat)
    }
}

/// Width in bits of one scalar at tower level `level`.
pub open spec fn width(level: nat) -> nat
    decreases level,
{
    if level == 0 {
        1
    } else {
        2 * width((level - 1) as nat)
    }
}

/// Number of level-`level` lanes in a 128-bit word.
pub open spec fn lane_count(level: nat) -> nat {
    128nat / width(level)
}

/// Lane `i` of `x`, read as a packed vector of level-`level` scalars.
pub open spec fn lane(x: u128, level: nat, i: nat) -> u128 {
    lane_at(x, width(level) as u128, i)
}

/// All lanes of `x` at tower level `level`.
pub open spec fn lanes(x: u128, level: nat) -> Seq<u128> {
    Seq::new(lane_count(level), |i: int| lane(x, level, i as nat))
}

pub proof fn lemma_width_values()
    ensures
        width(0) == 1,
        width(1) == 2,
        width(2) == 4,
        width(3) == 8,
        width(4) == 16,
        width(5) == 32,
        width(6) == 64,
        width(7) == 128,
        lane_count(0) == 128,
        lane_count(1) == 64,
        lane_count(2) == 32,
        lane_count(3) == 16,
        lane_count(4) == 8,
        lane_count(5) == 4,
        lane_count(6) == 2,
        lane_count(7) == 1,
{
    reveal_with_fuel(width, 8);
    assert(128nat / 1 == 128 && 128nat / 2 == 64 && 128nat / 4 == 32 && 128nat / 8 == 16)
        by (nonlinear_arith);
    assert(128nat / 16 == 8 && 128nat / 32 == 4 && 128nat / 64 == 2 && 128nat / 128 == 1)
        by (nonlinear_arith);
}

/// Facts on one level below 7: its width is a half width, and the next level is twice as wide.
pub proof fn lemma_level_facts(level: nat)
    requires
        level < 7,
    ensures
        is_half_width(width(level) as u128),
        1 <= width(level) <= 64,
        width(level + 1) == 2 * width(level),
        lane_count(level) == 2 * lane_count(level + 1),
        lane_count(level) * width(level) == 128,
        lane_count(level + 1) * width(level + 1) == 128,
{
    lemma_width_values();
    if level == 0 {
        assert(lane_count(0) * width(0) == 128 && lane_count(1) * width(1) == 128);
    } else if level == 1 {
        assert(lane_count(1) * width(1) == 128 && lane_count(2) * width(2) == 128);
    } else if level == 2 {
        assert(lane_count(2) * width(2) == 128 && lane_count(3) * width(3) == 128);
    } else if level == 3 {
        assert(lane_count(3) * width(3) == 128 && lane_count(4) * width(4) == 128);
    } else if level == 4 {
        assert(lane_count(4) * width(4) == 128 && lane_count(5) * width(5) == 128);
    } else if level == 5 {
        assert(lane_count(5) * width(5) == 128 && lane_count(6) * width(6) == 128);
    } else {
        assert(level == 6);
        assert(lane_count(6) * width(6) == 128 && lane_count(7) * width(7) == 128);
    }
}

#[verifier::rlimit(100)]
proof fn lemma_shr_and(x: u128, y: u128, w: u128)
    by (bit_vector)
    requires
        is_half_width(w) || w == 128,
    ensures
        (x & y) >> w == (x >> w) & (y >> w),
{
}

#[verifier::rlimit(100)]
proof fn lemma_shr_xor(x: u128, y: u128, w: u128)
    by (bit_vector)
    requires
        is_half_width(w) || w == 128,
    ensures
        (x ^ y) >> w == (x >> w) ^ (y >> w),
{
}

#[verifier::rlimit(100)]
proof fn lemma_shr_or(x: u128, y: u128, w: u128)
    by (bit_vector)
    requires
        is_half_width(w) || w == 128,
    ensures
        (x | y) >> w == (x >> w) | (y >> w),
{
}

proof fn lemma_mask_bitwise(x: u128, y: u128, m: u128)
    by (bit_vector)
    ensures
        (x ^ y) & m == (x & m) ^ (y & m),
        (x & y) & m == (x & m) & (y & m),
        (x | y) & m == (x & m) | (y & m),
{
}

/// Identities of `^`, `&` and `|` on words.
pub proof fn lemma_word_algebra(a: u128, b: u128, c: u128, m: u128)
    by (bit_vector)
    ensures
        a ^ 0 == a,
        0 ^ a == a,
        a & a == a,
        a | a == a,
        a & b == b & a,
        (a & b) & c == a & (b & c),
        (a & low_bits(1) == a) ==> a & b & 1 == a & b,
        (a & low_bits(1) == a) ==> a & 1 == a,
        a ^ a == 0,
        (a ^ b) ^ b == a,
        (a ^ b) ^ a == b,
        a ^ (a ^ b) == b,
        a ^ b == b ^ a,
        (a ^ b) ^ c == a ^ (b ^ c),
        a | 0 == a,
        0 | a == a,
        a & 0 == 0,
        0 & a == 0,
        (a & m) & m == a & m,
        (a & m == a && b & m == b) ==> (a ^ b) & m == a ^ b,
{
}

/// Every lane lies within the lane mask.
pub proof fn lemma_lane_masked(x: u128, w: u128, i: nat)
    ensures
        lane_at(x, w, i) & low_bits(w) == lane_at(x, w, i),
    decreases i,
{
    if i == 0 {
        lemma_word_algebra(x, 0, 0, low_bits(w));
    } else {
        lemma_lane_masked(x >> w, w, (i - 1) as nat);
    }
}

/// Lane `i` of a level-`level` word fits below bit 128, as does the next one when it exists.
pub proof fn lemma_index_fits(level: nat, i: nat)
    requires
        level <= 7,
        i < lane_count(level),
    ensures
        (i + 1) * width(level) <= 128,
        i + 1 < lane_count(level) ==> (i + 2) * width(level) <= 128,
        i * width(level) < 128,
        width(level) >= 1,
{
    lemma_width_values();
    let n = lane_count(level);
    let w = width(level);
    assert(n * w == 128) by {
        if level < 7 {
            lemma_level_facts(level);
        } else {
            assert(lane_count(7) * width(7) == 128);
        }
    }
    assert((i + 1) * w <= 128) by (nonlinear_arith)
        requires
            i < n,
            n * w == 128,
            w >= 1,
    ;
    assert(i + 1 < n ==> (i + 2) * w <= 128) by (nonlinear_arith)
        requires
            n * w == 128,
            w >= 1,
    ;
    assert(i * w < 128) by (nonlinear_arith)
        requires
            (i + 1) * w <= 128,
            w >= 1,
    ;
}

/// Lanes commute with the bitwise operations.
pub proof fn lemma_lane_bitwise(x: u128, y: u128, w: u128, i: nat)
    requires
        is_half_width(w) || w == 128,
    ensures
        lane_at(x ^ y, w, i) == lane_at(x, w, i) ^ lane_at(y, w, i),
        lane_at(x & y, w, i) == lane_at(x, w, i) & lane_at(y, w, i),
        lane_at(x | y, w, i) == lane_at(x, w, i) | lane_at(y, w, i),
    decreases i,
{
    lemma_mask_bitwise(x, y, low_bits(w));
    if i > 0 {
        lemma_shr_and(x, y, w);
        lemma_shr_xor(x, y, w);
        lemma_shr_or(x, y, w);
        lemma_lane_bitwise(x >> w, y >> w, w, (i - 1) as nat);
    }
}

pub proof fn lemma_low_bits_shr(w: u128, b: u128)
    by (bit_vector)
    requires
        is_half_width(w),
        b <= 128,
    ensures
        w <= b ==> low_bits(b) >> w == low_bits((b - w) as u128),
        w <= b ==> low_bits(b) & low_bits(w) == low_bits(w),
        b < w ==> low_bits(b) >> w == 0,
        low_bits(0) == 0,
        low_bits(128) == !0u128,
{
}

proof fn lemma_and_assoc(x: u128, y: u128, z: u128)
    by (bit_vector)
    ensures
        (x & y) & z == x & (y & z),
        x & 0 == 0,
        0 & x == 0,
        x & !0u128 == x,
{
}

proof fn lemma_low_bits_step(x: u128, w: u128, b: u128)
    requires
        is_half_width(w),
        b <= 128,
    ensures
        w <= b ==> (x & low_bits(b)) >> w == (x >> w) & low_bits((b - w) as u128),
        w <= b ==> (x & low_bits(b)) & low_bits(w) == x & low_bits(w),
        b < w ==> (x & low_bits(b)) >> w == (x >> w) & low_bits(0),
        x & low_bits(0) == 0,
        x & low_bits(128) == x,
{
    lemma_low_bits_shr(w, b);
    lemma_shr_and(x, low_bits(b), w);
    lemma_and_assoc(x, low_bits(b), low_bits(w));
    lemma_and_assoc(x >> w, 0, 0);
    lemma_and_assoc(x, 0, 0);
}

/// Clearing bits at or above `b` leaves the lanes below `b` as they were.
pub proof fn lemma_lane_low(x: u128, w: u128, b: u128, i: nat)
    requires
        is_half_width(w),
        (i + 1) * w <= b <= 128,
    ensures
        lane_at(x & low_bits(b), w, i) == lane_at(x, w, i),
    decreases i,
{
    lemma_low_bits_step(x, w, b);
    if i == 0 {
        assert(w <= b) by (nonlinear_arith)
            requires
                (i + 1) * w <= b,
                i == 0,
        ;
    } else {
        assert(i * w <= (b - w)) by (nonlinear_arith)
            requires
                (i + 1) * w <= b,
        ;
        lemma_lane_low(x >> w, w, (b - w) as u128, (i - 1) as nat);
    }
}

/// After clearing the bits at or above `b`, the lanes from `b` on are zero.
pub proof fn lemma_lane_high(x: u128, w: u128, b: u128, i: nat)
    requires
        is_half_width(w),
        b <= 128,
        i * w >= b,
    ensures
        lane_at(x & low_bits(b), w, i) == 0,
    decreases i,
{
    lemma_low_bits_step(x, w, b);
    if i == 0 {
        assert(b == 0) by (nonlinear_arith)
            requires
                i * w >= b,
                i == 0,
        ;
        lemma_and_assoc(low_bits(w), 0, 0);
    } else {
        if w <= b {
            assert((i - 1) * w >= (b - w)) by (nonlinear_arith)
                requires
                    i * w >= b,
            ;
            lemma_lane_high(x >> w, w, (b - w) as u128, (i - 1) as nat);
        } else {
            assert((i - 1) * w >= 0) by (nonlinear_arith)
                requires
                    i >= 1,
                    w >= 0,
            ;
            lemma_lane_high(x >> w, w, 0, (i - 1) as nat);
        }
    }
}

/// Lanes past the end of the word are zero.
pub proof fn lemma_lane_past_end(x: u128, w: u128, i: nat)
    requires
        is_half_width(w),
        i * w >= 128,
    ensures
        lane_at(x, w, i) == 0,
{
    lemma_low_bits_step(x, w, 128);
    lemma_lane_high(x, w, 128, i);
}

proof fn lemma_shl_step(x: u128, w: u128)
    by (bit_vector)
    requires
        is_half_width(w),
    ensures
        (x << w) >> w == x & low_bits((128 - w) as u128),
        (x << w) & low_bits(w) == 0,
{
}

/// Shifting left by one lane moves every lane up by one, and lane 0 becomes zero.
pub proof fn lemma_lane_shl(x: u128, w: u128, i: nat)
    requires
        is_half_width(w),
        (i + 1) * w <= 128,
    ensures
        i == 0 ==> lane_at(x << w, w, i) == 0,
        i > 0 ==> lane_at(x << w, w, i) == lane_at(x, w, (i - 1) as nat),
{
    lemma_shl_step(x, w);
    if i > 0 {
        assert(i * w <= 128 - w) by (nonlinear_arith)
            requires
                (i + 1) * w <= 128,
        ;
        lemma_lane_low(x, w, (128 - w) as u128, (i - 1) as nat);
    }
}

/// Shifting right by one lane moves every lane down by one.
pub proof fn lemma_lane_shr(x: u128, w: u128, i: nat)
    ensures
        lane_at(x >> w, w, i) == lane_at(x, w, i + 1),
{
}

#[verifier::rlimit(100)]
proof fn lemma_split_step0(x: u128, w: u128)
    by (bit_vector)
    requires
        is_half_width(w),
    ensures
        (x >> w) >> w == x >> ((2 * w) as u128),
{
}

#[verifier::rlimit(100)]
proof fn lemma_split_step1(x: u128, w: u128)
    by (bit_vector)
    requires
        is_half_width(w),
    ensures
        (x & low_bits((2 * w) as u128)) & low_bits(w) == x & low_bits(w),
{
}

#[verifier::rlimit(100)]
proof fn lemma_split_step2(x: u128, w: u128)
    by (bit_vector)
    requires
        is_half_width(w),
    ensures
        ((x & low_bits((2 * w) as u128)) >> w) & low_bits(w) == (x >> w) & low_bits(w),
{
}

#[verifier::rlimit(100)]
proof fn lemma_split_step3(x: u128, w: u128)
    by (bit_vector)
    requires
        is_half_width(w),
    ensures
        x & low_bits((2 * w) as u128) == (x & low_bits(w)) | (((x >> w) & low_bits(w)) << w),
{
}

proof fn lemma_split_step(x: u128, w: u128)
    requires
        is_half_width(w),
    ensures
        (x >> w) >> w == x >> ((2 * w) as u128),
        (x & low_bits((2 * w) as u128)) & low_bits(w) == x & low_bits(w),
        ((x & low_bits((2 * w) as u128)) >> w) & low_bits(w) == (x >> w) & low_bits(w),
        x & low_bits((2 * w) as u128) == (x & low_bits(w)) | (((x >> w) & low_bits(w)) << w),
{
    lemma_split_step0(x, w);
    lemma_split_step1(x, w);
    lemma_split_step2(x, w);
    lemma_split_step3(x, w);
}

/// A lane of width `2 * w` is the pair of `w`-wide lanes under it: low half first.
pub proof fn lemma_lane_split(x: u128, w: u128, i: nat)
    requires
        is_half_width(w),
    ensures
        lane_at(x, (2 * w) as u128, i) & low_bits(w) == lane_at(x, w, 2 * i),
        (lane_at(x, (2 * w) as u128, i) >> w) & low_bits(w) == lane_at(x, w, 2 * i + 1),
        lane_at(x, (2 * w) as u128, i) == lane_at(x, w, 2 * i) | (lane_at(x, w, 2 * i + 1)
            << w),
    decreases i,
{
    lemma_split_step(x, w);
    if i > 0 {
        lemma_lane_split(x >> ((2 * w) as u128), w, (i - 1) as nat);
        assert(lane_at(x, w, 2 * i) == lane_at(x >> w, w, (2 * i - 1) as nat));
        assert(lane_at(x >> w, w, (2 * i - 1) as nat) == lane_at((x >> w) >> w, w, (2 * i
            - 2) as nat));
        assert(lane_at(x, w, 2 * i + 1) == lane_at(x >> w, w, (2 * i) as nat));
        assert(lane_at(x >> w, w, (2 * i) as nat) == lane_at((x >> w) >> w, w, (2 * i
            - 1) as nat));
        assert(lane_at(x, (2 * w) as u128, i) == lane_at(
            x >> ((2 * w) as u128),
            (2 * w) as u128,
            (i - 1) as nat,
        ));
    } else {
        assert(lane_at(x, w, 1) == lane_at(x >> w, w, 0));
    }
}

/// The lanes of a word that repeats with period two lanes alternate between two values.
pub proof fn lemma_lane_periodic(x: u128, w: u128, p0: u128, p1: u128, i: nat)
    requires
        is_half_width(w),
        x >> ((2 * w) as u128) == x & low_bits((128 - 2 * w) as u128),
        x & low_bits(w) == p0,
        (x >> w) & low_bits(w) == p1,
        (i + 1) * w <= 128,
    ensures
        lane_at(x, w, i) == if i % 2 == 0 {
            p0
        } else {
            p1
        },
    decreases i,
{
    if i == 1 {
        assert(lane_at(x, w, 1) == lane_at(x >> w, w, 0));
    } else if i >= 2 {
        lemma_split_step(x, w);
        assert(lane_at(x, w, i) == lane_at(x >> w, w, (i - 1) as nat));
        assert(lane_at(x >> w, w, (i - 1) as nat) == lane_at((x >> w) >> w, w, (i - 2) as nat));
        assert((i - 1) * w <= 128 - 2 * w) by (nonlinear_arith)
            requires
                (i + 1) * w <= 128,
        ;
        lemma_lane_low(x, w, (128 - 2 * w) as u128, (i - 2) as nat);
        lemma_lane_periodic(x, w, p0, p1, (i - 2) as nat);
    }
}

/// Two words with the same lanes at some level are equal.
pub proof fn lemma_lanes_determine_word(x: u128, y: u128, level: nat)
    requires
        level <= 7,
        forall|i: nat| i < lane_count(level) ==> #[trigger] lane(x, level, i) == lane(y, level, i),
    ensures
        x == y,
    decreases 7 - level,
{
    if level == 7 {
        lemma_width_values();
        assert(lane(x, 7, 0) == lane(y, 7, 0));
        lemma_low_bits_step(x, 1, 128);
        lemma_low_bits_step(y, 1, 128);
    } else {
        lemma_level_facts(level);
        let w = width(level) as u128;
        let up = level + 1;
        assert forall|k: nat| k < lane_count(up) implies lane(x, up, k) == lane(y, up, k) by {
            lemma_lane_split(x, w, k);
            lemma_lane_split(y, w, k);
            assert(lane(x, level, 2 * k) == lane(y, level, 2 * k));
            assert(lane(x, level, 2 * k + 1) == lane(y, level, 2 * k + 1));
        }
        lemma_lanes_determine_word(x, y, level + 1);
    }
}

} // verus!
