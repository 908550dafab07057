//! Per-level bit constants of a 128-bit underlier: the lane-selecting masks used by
//! interleaving and the broadcast extension generators.

use vstd::prelude::*;
use crate::lanes::{
    lane, lane_count, lemma_lane_periodic, lemma_level_facts, lemma_width_values, low_bits, width,
};

verus! {

pub const INTERLEAVE_EVEN_MASK_0: u128 = 0x55555555_55555555_55555555_55555555;

pub const INTERLEAVE_EVEN_MASK_1: u128 = 0x33333333_33333333_33333333_33333333;

pub const INTERLEAVE_EVEN_MASK_2: u128 = 0x0F0F0F0F_0F0F0F0F_0F0F0F0F_0F0F0F0F;

pub const INTERLEAVE_EVEN_MASK_3: u128 = 0x00FF00FF_00FF00FF_00FF00FF_00FF00FF;

pub const INTERLEAVE_EVEN_MASK_4: u128 = 0x0000FFFF_0000FFFF_0000FFFF_0000FFFF;

pub const INTERLEAVE_EVEN_MASK_5: u128 = 0x00000000_FFFFFFFF_00000000_FFFFFFFF;

pub const INTERLEAVE_EVEN_MASK_6: u128 = 0x00000000_00000000_FFFFFFFF_FFFFFFFF;

pub const INTERLEAVE_ODD_MASK_0: u128 = 0xAAAAAAAA_AAAAAAAA_AAAAAAAA_AAAAAAAA;

pub const INTERLEAVE_ODD_MASK_1: u128 = 0xCCCCCCCC_CCCCCCCC_CCCCCCCC_CCCCCCCC;

pub const INTERLEAVE_ODD_MASK_2: u128 = 0xF0F0F0F0_F0F0F0F0_F0F0F0F0_F0F0F0F0;

pub const INTERLEAVE_ODD_MASK_3: u128 = 0xFF00FF00_FF00FF00_FF00FF00_FF00FF00;

pub const INTERLEAVE_ODD_MASK_4: u128 = 0xFFFF0000_FFFF0000_FFFF0000_FFFF0000;

pub const INTERLEAVE_ODD_MASK_5: u128 = 0xFFFFFFFF_00000000_FFFFFFFF_00000000;

pub const INTERLEAVE_ODD_MASK_6: u128 = 0xFFFFFFFF_FFFFFFFF_00000000_00000000;

pub const ALPHAS_EVEN_0: u128 = 0x55555555_55555555_55555555_55555555;

pub const ALPHAS_EVEN_1: u128 = 0x22222222_22222222_22222222_22222222;

pub const ALPHAS_EVEN_2: u128 = 0x04040404_04040404_04040404_04040404;

pub const ALPHAS_EVEN_3: u128 = 0x00100010_00100010_00100010_00100010;

pub const ALPHAS_EVEN_4: u128 = 0x00000100_00000100_00000100_00000100;

pub const ALPHAS_EVEN_5: u128 = 0x00000000_00010000_00000000_00010000;

pub const ALPHAS_EVEN_6: u128 = 0x00000000_00000000_00000001_00000000;

/// Mask of the even lanes at `level`: all bits of lanes 0, 2, 4, ...
pub open spec fn even_mask(level: nat) -> u128 {
    if level == 0 {
        INTERLEAVE_EVEN_MASK_0
    } else if level == 1 {
        INTERLEAVE_EVEN_MASK_1
    } else if level == 2 {
        INTERLEAVE_EVEN_MASK_2
    } else if level == 3 {
        INTERLEAVE_EVEN_MASK_3
    } else if level == 4 {
        INTERLEAVE_EVEN_MASK_4
    } else if level == 5 {
        INTERLEAVE_EVEN_MASK_5
    } else {
        INTERLEAVE_EVEN_MASK_6
    }
}

/// Mask of the odd lanes at `level`: all bits of lanes 1, 3, 5, ...
pub open spec fn odd_mask(level: nat) -> u128 {
    if level == 0 {
        INTERLEAVE_ODD_MASK_0
    } else if level == 1 {
        INTERLEAVE_ODD_MASK_1
    } else if level == 2 {
        INTERLEAVE_ODD_MASK_2
    } else if level == 3 {
        INTERLEAVE_ODD_MASK_3
    } else if level == 4 {
        INTERLEAVE_ODD_MASK_4
    } else if level == 5 {
        INTERLEAVE_ODD_MASK_5
    } else {
        INTERLEAVE_ODD_MASK_6
    }
}

/// The generator of the extension over `level` in every even lane at `level`, zero in the odd lanes.
pub open spec fn alphas_even(level: nat) -> u128 {
    if level == 0 {
        ALPHAS_EVEN_0
    } else if level == 1 {
        ALPHAS_EVEN_1
    } else if level == 2 {
        ALPHAS_EVEN_2
    } else if level == 3 {
        ALPHAS_EVEN_3
    } else if level == 4 {
        ALPHAS_EVEN_4
    } else if level == 5 {
        ALPHAS_EVEN_5
    } else {
        ALPHAS_EVEN_6
    }
}

/// The generator of the quadratic extension built over tower level `level`:
/// 1 over GF(2), and the new variable of `level` otherwise.
pub open spec fn alpha(level: nat) -> u128 {
    if level == 0 {
        1
    } else {
        1u128 << (width((level - 1) as nat) as u128)
    }
}

proof fn lemma_constants_0()
    by (bit_vector)
    ensures
        INTERLEAVE_EVEN_MASK_0 >> 2u128 == INTERLEAVE_EVEN_MASK_0 & low_bits(126u128),
        INTERLEAVE_EVEN_MASK_0 & low_bits(1u128) == low_bits(1u128),
        (INTERLEAVE_EVEN_MASK_0 >> 1u128) & low_bits(1u128) == 0,
        INTERLEAVE_ODD_MASK_0 >> 2u128 == INTERLEAVE_ODD_MASK_0 & low_bits(126u128),
        INTERLEAVE_ODD_MASK_0 & low_bits(1u128) == 0,
        (INTERLEAVE_ODD_MASK_0 >> 1u128) & low_bits(1u128) == low_bits(1u128),
        ALPHAS_EVEN_0 >> 2u128 == ALPHAS_EVEN_0 & low_bits(126u128),
        ALPHAS_EVEN_0 & low_bits(1u128) == 1,
        (ALPHAS_EVEN_0 >> 1u128) & low_bits(1u128) == 0,
        INTERLEAVE_EVEN_MASK_0 ^ INTERLEAVE_ODD_MASK_0 == !0u128,
        INTERLEAVE_EVEN_MASK_0 & INTERLEAVE_ODD_MASK_0 == 0,
{
}

proof fn lemma_constants_1()
    by (bit_vector)
    ensures
        INTERLEAVE_EVEN_MASK_1 >> 4u128 == INTERLEAVE_EVEN_MASK_1 & low_bits(124u128),
        INTERLEAVE_EVEN_MASK_1 & low_bits(2u128) == low_bits(2u128),
        (INTERLEAVE_EVEN_MASK_1 >> 2u128) & low_bits(2u128) == 0,
        INTERLEAVE_ODD_MASK_1 >> 4u128 == INTERLEAVE_ODD_MASK_1 & low_bits(124u128),
        INTERLEAVE_ODD_MASK_1 & low_bits(2u128) == 0,
        (INTERLEAVE_ODD_MASK_1 >> 2u128) & low_bits(2u128) == low_bits(2u128),
        ALPHAS_EVEN_1 >> 4u128 == ALPHAS_EVEN_1 & low_bits(124u128),
        ALPHAS_EVEN_1 & low_bits(2u128) == 2,
        (ALPHAS_EVEN_1 >> 2u128) & low_bits(2u128) == 0,
        INTERLEAVE_EVEN_MASK_1 ^ INTERLEAVE_ODD_MASK_1 == !0u128,
        INTERLEAVE_EVEN_MASK_1 & INTERLEAVE_ODD_MASK_1 == 0,
{
}

proof fn lemma_constants_2()
    by (bit_vector)
    ensures
        INTERLEAVE_EVEN_MASK_2 >> 8u128 == INTERLEAVE_EVEN_MASK_2 & low_bits(120u128),
        INTERLEAVE_EVEN_MASK_2 & low_bits(4u128) == low_bits(4u128),
        (INTERLEAVE_EVEN_MASK_2 >> 4u128) & low_bits(4u128) == 0,
        INTERLEAVE_ODD_MASK_2 >> 8u128 == INTERLEAVE_ODD_MASK_2 & low_bits(120u128),
        INTERLEAVE_ODD_MASK_2 & low_bits(4u128) == 0,
        (INTERLEAVE_ODD_MASK_2 >> 4u128) & low_bits(4u128) == low_bits(4u128),
        ALPHAS_EVEN_2 >> 8u128 == ALPHAS_EVEN_2 & low_bits(120u128),
        ALPHAS_EVEN_2 & low_bits(4u128) == 4,
        (ALPHAS_EVEN_2 >> 4u128) & low_bits(4u128) == 0,
        INTERLEAVE_EVEN_MASK_2 ^ INTERLEAVE_ODD_MASK_2 == !0u128,
        INTERLEAVE_EVEN_MASK_2 & INTERLEAVE_ODD_MASK_2 == 0,
{
}

proof fn lemma_constants_3()
    by (bit_vector)
    ensures
        INTERLEAVE_EVEN_MASK_3 >> 16u128 == INTERLEAVE_EVEN_MASK_3 & low_bits(112u128),
        INTERLEAVE_EVEN_MASK_3 & low_bits(8u128) == low_bits(8u128),
        (INTERLEAVE_EVEN_MASK_3 >> 8u128) & low_bits(8u128) == 0,
        INTERLEAVE_ODD_MASK_3 >> 16u128 == INTERLEAVE_ODD_MASK_3 & low_bits(112u128),
        INTERLEAVE_ODD_MASK_3 & low_bits(8u128) == 0,
        (INTERLEAVE_ODD_MASK_3 >> 8u128) & low_bits(8u128) == low_bits(8u128),
        ALPHAS_EVEN_3 >> 16u128 == ALPHAS_EVEN_3 & low_bits(112u128),
        ALPHAS_EVEN_3 & low_bits(8u128) == 16,
        (ALPHAS_EVEN_3 >> 8u128) & low_bits(8u128) == 0,
        INTERLEAVE_EVEN_MASK_3 ^ INTERLEAVE_ODD_MASK_3 == !0u128,
        INTERLEAVE_EVEN_MASK_3 & INTERLEAVE_ODD_MASK_3 == 0,
{
}

proof fn lemma_constants_4()
    by (bit_vector)
    ensures
        INTERLEAVE_EVEN_MASK_4 >> 32u128 == INTERLEAVE_EVEN_MASK_4 & low_bits(96u128),
        INTERLEAVE_EVEN_MASK_4 & low_bits(16u128) == low_bits(16u128),
        (INTERLEAVE_EVEN_MASK_4 >> 16u128) & low_bits(16u128) == 0,
        INTERLEAVE_ODD_MASK_4 >> 32u128 == INTERLEAVE_ODD_MASK_4 & low_bits(96u128),
        INTERLEAVE_ODD_MASK_4 & low_bits(16u128) == 0,
        (INTERLEAVE_ODD_MASK_4 >> 16u128) & low_bits(16u128) == low_bits(16u128),
        ALPHAS_EVEN_4 >> 32u128 == ALPHAS_EVEN_4 & low_bits(96u128),
        ALPHAS_EVEN_4 & low_bits(16u128) == 256,
        (ALPHAS_EVEN_4 >> 16u128) & low_bits(16u128) == 0,
        INTERLEAVE_EVEN_MASK_4 ^ INTERLEAVE_ODD_MASK_4 == !0u128,
        INTERLEAVE_EVEN_MASK_4 & INTERLEAVE_ODD_MASK_4 == 0,
{
}

proof fn lemma_constants_5()
    by (bit_vector)
    ensures
        INTERLEAVE_EVEN_MASK_5 >> 64u128 == INTERLEAVE_EVEN_MASK_5 & low_bits(64u128),
        INTERLEAVE_EVEN_MASK_5 & low_bits(32u128) == low_bits(32u128),
        (INTERLEAVE_EVEN_MASK_5 >> 32u128) & low_bits(32u128) == 0,
        INTERLEAVE_ODD_MASK_5 >> 64u128 == INTERLEAVE_ODD_MASK_5 & low_bits(64u128),
        INTERLEAVE_ODD_MASK_5 & low_bits(32u128) == 0,
        (INTERLEAVE_ODD_MASK_5 >> 32u128) & low_bits(32u128) == low_bits(32u128),
        ALPHAS_EVEN_5 >> 64u128 == ALPHAS_EVEN_5 & low_bits(64u128),
        ALPHAS_EVEN_5 & low_bits(32u128) == 0x00000000_00000000_00000000_00010000,
        (ALPHAS_EVEN_5 >> 32u128) & low_bits(32u128) == 0,
        INTERLEAVE_EVEN_MASK_5 ^ INTERLEAVE_ODD_MASK_5 == !0u128,
        INTERLEAVE_EVEN_MASK_5 & INTERLEAVE_ODD_MASK_5 == 0,
{
}

proof fn lemma_constants_6()
    by (bit_vector)
    ensures
        INTERLEAVE_EVEN_MASK_6 >> 128u128 == INTERLEAVE_EVEN_MASK_6 & low_bits(0u128),
        INTERLEAVE_EVEN_MASK_6 & low_bits(64u128) == low_bits(64u128),
        (INTERLEAVE_EVEN_MASK_6 >> 64u128) & low_bits(64u128) == 0,
        INTERLEAVE_ODD_MASK_6 >> 128u128 == INTERLEAVE_ODD_MASK_6 & low_bits(0u128),
        INTERLEAVE_ODD_MASK_6 & low_bits(64u128) == 0,
        (INTERLEAVE_ODD_MASK_6 >> 64u128) & low_bits(64u128) == low_bits(64u128),
        ALPHAS_EVEN_6 >> 128u128 == ALPHAS_EVEN_6 & low_bits(0u128),
        ALPHAS_EVEN_6 & low_bits(64u128) == 0x00000000_00000000_00000001_00000000,
        (ALPHAS_EVEN_6 >> 64u128) & low_bits(64u128) == 0,
        INTERLEAVE_EVEN_MASK_6 ^ INTERLEAVE_ODD_MASK_6 == !0u128,
        INTERLEAVE_EVEN_MASK_6 & INTERLEAVE_ODD_MASK_6 == 0,
{
}

/// Lane `i` at `level` of the even mask, the odd mask and the broadcast generators.
pub proof fn lemma_constant_lanes(level: nat, i: nat)
    requires
        level < 7,
        i < lane_count(level),
    ensures
        lane(even_mask(level), level, i) == if i % 2 == 0 {
            low_bits(width(level) as u128)
        } else {
            0
        },
        lane(odd_mask(level), level, i) == if i % 2 == 1 {
            low_bits(width(level) as u128)
        } else {
            0
        },
        lane(alphas_even(level), level, i) == if i % 2 == 0 {
            alpha(level)
        } else {
            0
        },
{
    lemma_level_facts(level);
    lemma_width_values();
    let w = width(level) as u128;
    assert((i + 1) * w <= 128) by (nonlinear_arith)
        requires
            i < lane_count(level),
            lane_count(level) * width(level) == 128,
            w == width(level),
    ;
    if level == 0 {
        lemma_constants_0();
        assert(alpha(0) == 1) by (bit_vector);
    } else if level == 1 {
        lemma_constants_1();
        assert(alpha(1) == 2) by (bit_vector);
    } else if level == 2 {
        lemma_constants_2();
        assert(alpha(2) == 4) by (bit_vector);
    } else if level == 3 {
        lemma_constants_3();
        assert(alpha(3) == 16) by (bit_vector);
    } else if level == 4 {
        lemma_constants_4();
        assert(alpha(4) == 256) by (bit_vector);
    } else if level == 5 {
        lemma_constants_5();
        assert(alpha(5) == 0x00000000_00000000_00000000_00010000) by (bit_vector);
    } else if level == 6 {
        lemma_constants_6();
        assert(alpha(6) == 0x00000000_00000000_00000001_00000000) by (bit_vector);
    }
    lemma_lane_periodic(even_mask(level), w, low_bits(w), 0, i);
    lemma_lane_periodic(odd_mask(level), w, 0, low_bits(w), i);
    lemma_lane_periodic(alphas_even(level), w, alpha(level), 0, i);
}

/// The even and odd masks at `level` split the word: every bit lies in exactly one.
pub proof fn lemma_masks_partition(level: nat)
    requires
        level < 7,
    ensures
        even_mask(level) ^ odd_mask(level) == !0u128,
        even_mask(level) & odd_mask(level) == 0,
{
    if level == 0 {
        lemma_constants_0();
    } else if level == 1 {
        lemma_constants_1();
    } else if level == 2 {
        lemma_constants_2();
    } else if level == 3 {
        lemma_constants_3();
    } else if level == 4 {
        lemma_constants_4();
    } else if level == 5 {
        lemma_constants_5();
    } else if level == 6 {
        lemma_constants_6();
    }
}

/// The even-lane mask at `level`.
pub fn interleave_even_mask(level: usize) -> (r: u128)
    requires
        level < 7,
    ensures
        r == even_mask(level as nat),
{
    match level {
        0 => INTERLEAVE_EVEN_MASK_0,
        1 => INTERLEAVE_EVEN_MASK_1,
        2 => INTERLEAVE_EVEN_MASK_2,
        3 => INTERLEAVE_EVEN_MASK_3,
        4 => INTERLEAVE_EVEN_MASK_4,
        5 => INTERLEAVE_EVEN_MASK_5,
        _ => INTERLEAVE_EVEN_MASK_6,
    }
}

/// The odd-lane mask at `level`.
pub fn interleave_odd_mask(level: usize) -> (r: u128)
    requires
        level < 7,
    ensures
        r == odd_mask(level as nat),
{
    match level {
        0 => INTERLEAVE_ODD_MASK_0,
        1 => INTERLEAVE_ODD_MASK_1,
        2 => INTERLEAVE_ODD_MASK_2,
        3 => INTERLEAVE_ODD_MASK_3,
        4 => INTERLEAVE_ODD_MASK_4,
        5 => INTERLEAVE_ODD_MASK_5,
        _ => INTERLEAVE_ODD_MASK_6,
    }
}

/// The generator over `level` broadcast into the even lanes at `level`.
pub fn alphas_even_lanes(level: usize) -> (r: u128)
    requires
        level < 7,
    ensures
        r == alphas_even(level as nat),
{
    match level {
        0 => ALPHAS_EVEN_0,
        1 => ALPHAS_EVEN_1,
        2 => ALPHAS_EVEN_2,
        3 => ALPHAS_EVEN_3,
        4 => ALPHAS_EVEN_4,
        5 => ALPHAS_EVEN_5,
        _ => ALPHAS_EVEN_6,
    }
}

} // verus!
