//! Packed vectors of tower scalars as values: a 128-bit underlier with the tower level
//! that its lanes are read at.

use vstd::prelude::*;
use crate::constants::alpha;
use crate::lanes::{
    lane, lane_at, lane_count, lanes, lemma_index_fits, lemma_lane_bitwise, lemma_lane_high,
    lemma_level_facts, lemma_width_values, lemma_word_algebra, low_bits, width,
};
use crate::packed::{
    invert_or_zero, lemma_lane_move, lemma_subfield_lanes, mul_alpha, scalar_bits, square,
};
use crate::tower::{
    is_scalar, join_halves, lemma_halves_of_scalar, lemma_small_constants, lemma_square_zero_one,
    lemma_pow_halving, tower_inv, tower_mul, tower_pow, tower_pow_halving,
};
use vstd::arithmetic::div_mod::{lemma_basic_div, lemma_div_denominator};
use vstd::arithmetic::power2::{lemma2_to64, lemma_pow2_adds, lemma_pow2_pos, pow2};
use vstd::bits::lemma_u64_shr_is_div;

verus! {

/// A packed vector: `underlier` read as `lane_count(level)` lanes of level-`level` scalars.
#[derive(Clone, Copy, Debug, PartialEq, Eq)]
pub struct PackedTowerVector {
    pub underlier: u128,
    pub level: usize,
}

impl View for PackedTowerVector {
    type V = Seq<u128>;

    open spec fn view(&self) -> Seq<u128> {
        lanes(self.underlier, self.level as nat)
    }
}

/// Number of lanes at `level`.
pub fn lane_total(level: usize) -> (r: usize)
    requires
        level <= 7,
    ensures
        r == lane_count(level as nat),
{
    proof {
        lemma_width_values();
    }
    match level {
        0 => 128,
        1 => 64,
        2 => 32,
        3 => 16,
        4 => 8,
        5 => 4,
        6 => 2,
        _ => 1,
    }
}

/// The lanes of a scalar: itself in lane 0, zero above.
proof fn lemma_scalar_lanes(x: u128, level: nat, j: nat)
    requires
        level < 7,
        is_scalar(level, x),
    ensures
        lane(x, level, 0) == x,
        j >= 1 ==> lane(x, level, j) == 0,
{
    lemma_level_facts(level);
    let w = width(level) as u128;
    if j >= 1 {
        assert(j * w >= w) by (nonlinear_arith)
            requires
                j >= 1,
        ;
        lemma_lane_high(x, w, w, j);
    }
}

/// All lanes of zero are zero.
proof fn lemma_zero_lanes(level: nat, j: nat)
    requires
        level < 7,
    ensures
        lane(0, level, j) == 0,
{
    lemma_level_facts(level);
    let w = width(level) as u128;
    lemma_word_algebra(low_bits(0), 0, 0, 0);
    assert(j * w >= 0) by (nonlinear_arith)
        requires
            w >= 1,
    ;
    lemma_lane_high(0, w, 0, j);
}

impl PackedTowerVector {
    /// The vector whose lanes at `level` are read from `underlier`.
    pub fn new(underlier: u128, level: usize) -> (r: Self)
        requires
            level <= 7,
        ensures
            r.underlier == underlier,
            r.level == level,
    {
        PackedTowerVector { underlier, level }
    }

    /// Every lane holds `scalar`.
    pub fn broadcast(scalar: u128, level: usize) -> (r: Self)
        requires
            level <= 7,
            is_scalar(level as nat, scalar),
        ensures
            r.level == level,
            r@ == Seq::new(lane_count(level as nat), |i: int| scalar),
    {
        let l = Ghost(level as nat);
        if level == 7 {
            proof {
                lemma_width_values();
            }
            let r = PackedTowerVector { underlier: scalar, level };
            assert(r@ =~= Seq::new(lane_count(level as nat), |i: int| scalar));
            return r;
        }
        proof {
            lemma_level_facts(l@);
        }
        let w = scalar_bits(level);
        let n = lane_total(level);
        let mut acc: u128 = 0;
        let mut t: usize = 0;
        proof {
            assert forall|j: nat| j < n implies lane(acc, l@, j) == 0 by {
                lemma_zero_lanes(l@, j);
            }
        }
        while t < n
            invariant
                l@ == level as nat,
                level < 7,
                t <= n,
                n == lane_count(l@),
                w == width(l@),
                w <= 64,
                is_scalar(l@, scalar),
                forall|j: nat| j < t ==> lane(acc, l@, j) == scalar,
                forall|j: nat| t <= j < n ==> lane(acc, l@, j) == 0,
            decreases n - t,
        {
            let next = (acc << w) | scalar;
            proof {
                lemma_level_facts(l@);
                assert forall|j: nat| j < n implies lane(next, l@, j) == if j < t + 1 {
                    scalar
                } else {
                    0
                } by {
                    lemma_lane_move(acc, l@, j);
                    lemma_lane_bitwise(acc << w, scalar, w, j);
                    lemma_scalar_lanes(scalar, l@, j);
                    lemma_word_algebra(scalar, 0, 0, 0);
                    if j > 0 {
                        lemma_word_algebra(lane(acc, l@, (j - 1) as nat), 0, 0, 0);
                    }
                }
            }
            acc = next;
            t = t + 1;
        }
        let r = PackedTowerVector { underlier: acc, level };
        assert(r@ =~= Seq::new(lane_count(level as nat), |i: int| scalar));
        r
    }

    /// The vector whose lanes are `scalars`, lane 0 first.
    pub fn from_scalars(scalars: &Vec<u128>, level: usize) -> (r: Self)
        requires
            level <= 7,
            scalars.len() == lane_count(level as nat),
            forall|i: int| 0 <= i < scalars.len() ==> is_scalar(level as nat, #[trigger] scalars[i]),
        ensures
            r.level == level,
            r@ == scalars@,
    {
        let l = Ghost(level as nat);
        if level == 7 {
            proof {
                lemma_width_values();
            }
            let r = PackedTowerVector { underlier: scalars[0], level };
            assert(r@ =~= scalars@);
            return r;
        }
        proof {
            lemma_level_facts(l@);
        }
        let w = scalar_bits(level);
        let n = lane_total(level);
        let mut acc: u128 = 0;
        let mut t: usize = 0;
        proof {
            assert forall|j: nat| j < n implies lane(acc, l@, j) == 0 by {
                lemma_zero_lanes(l@, j);
            }
        }
        while t < n
            invariant
                l@ == level as nat,
                level < 7,
                t <= n,
                n == lane_count(l@),
                n == scalars.len(),
                w == width(l@),
                w <= 64,
                forall|i: int| 0 <= i < scalars.len() ==> is_scalar(l@, #[trigger] scalars[i]),
                forall|j: nat| j < t ==> lane(acc, l@, j) == scalars[n - t + j],
                forall|j: nat| t <= j < n ==> lane(acc, l@, j) == 0,
            decreases n - t,
        {
            let v = scalars[n - 1 - t];
            let next = (acc << w) | v;
            proof {
                lemma_level_facts(l@);
                assert forall|j: nat| j < n implies lane(next, l@, j) == if j < t + 1 {
                    scalars[n - (t + 1) + j]
                } else {
                    0
                } by {
                    lemma_lane_move(acc, l@, j);
                    lemma_lane_bitwise(acc << w, v, w, j);
                    lemma_scalar_lanes(v, l@, j);
                    lemma_word_algebra(v, 0, 0, 0);
                    if j > 0 {
                        lemma_word_algebra(lane(acc, l@, (j - 1) as nat), 0, 0, 0);
                    }
                }
            }
            acc = next;
            t = t + 1;
        }
        let r = PackedTowerVector { underlier: acc, level };
        assert(r@ =~= scalars@);
        r
    }

    /// Lane `i`.
    pub fn get(&self, i: usize) -> (r: u128)
        requires
            self.level <= 7,
            i < self@.len(),
        ensures
            r == self@[i as int],
    {
        let level = self.level;
        let w = scalar_bits(level);
        proof {
            lemma_index_fits(level as nat, i as nat);
            lemma_width_values();
        }
        let mut cur = self.underlier;
        let mut k: usize = 0;
        while k < i
            invariant
                k <= i,
                i < lane_count(level as nat),
                level <= 7,
                w == width(level as nat),
                lane(self.underlier, level as nat, i as nat) == lane_at(cur, w, (i - k) as nat),
            decreases i - k,
        {
            proof {
                if level < 7 {
                    lemma_level_facts(level as nat);
                } else {
                    lemma_width_values();
                }
            }
            cur = cur >> w;
            k = k + 1;
        }
        cur & ((!0u128) >> (128 - w))
    }

    /// Lane-wise sum.
    pub fn add(self, other: Self) -> (r: Self)
        requires
            self.level <= 7,
            other.level == self.level,
        ensures
            r.level == self.level,
            r.underlier == self.underlier ^ other.underlier,
            forall|i: int| 0 <= i < r@.len() ==> r@[i] == self@[i] ^ other@[i],
    {
        let r = PackedTowerVector { underlier: self.underlier ^ other.underlier, level: self.level };
        proof {
            if self.level < 7 {
                lemma_level_facts(self.level as nat);
            } else {
                lemma_width_values();
            }
            assert forall|i: int| 0 <= i < r@.len() implies r@[i] == self@[i] ^ other@[i] by {
                lemma_lane_bitwise(
                    self.underlier,
                    other.underlier,
                    width(self.level as nat) as u128,
                    i as nat,
                );
            }
        }
        r
    }

    /// Lane-wise product.
    pub fn mul(self, other: Self) -> (r: Self)
        requires
            self.level <= 7,
            other.level == self.level,
        ensures
            r.level == self.level,
            r@.len() == self@.len(),
            forall|i: int|
                0 <= i < r@.len() ==> r@[i] == tower_mul(self.level as nat, self@[i], other@[i]),
    {
        PackedTowerVector {
            underlier: crate::packed::mul(self.underlier, other.underlier, self.level),
            level: self.level,
        }
    }

    /// Lane-wise square.
    pub fn square(self) -> (r: Self)
        requires
            self.level <= 7,
        ensures
            r.level == self.level,
            r@.len() == self@.len(),
            forall|i: int|
                0 <= i < r@.len() ==> r@[i] == tower_mul(self.level as nat, self@[i], self@[i]),
    {
        PackedTowerVector { underlier: square(self.underlier, self.level), level: self.level }
    }

    /// Lane-wise product with the generator `alpha(level)`.
    pub fn mul_alpha(self) -> (r: Self)
        requires
            self.level <= 7,
        ensures
            r.level == self.level,
            r@.len() == self@.len(),
            forall|i: int|
                0 <= i < r@.len() ==> r@[i] == tower_mul(
                    self.level as nat,
                    self@[i],
                    alpha(self.level as nat),
                ),
    {
        PackedTowerVector { underlier: mul_alpha(self.underlier, self.level), level: self.level }
    }

    /// Lane-wise inverse, zero lanes staying zero.
    pub fn invert_or_zero(self) -> (r: Self)
        requires
            self.level <= 7,
        ensures
            r.level == self.level,
            r@.len() == self@.len(),
            forall|i: int| 0 <= i < r@.len() ==> r@[i] == tower_inv(self.level as nat, self@[i]),
    {
        PackedTowerVector {
            underlier: invert_or_zero(self.underlier, self.level),
            level: self.level,
        }
    }

    /// Every lane raised to the power `exp`, by square-and-multiply over the bits of `exp`
    /// from the highest down.
    pub fn pow(self, exp: u64) -> (r: Self)
        requires
            self.level <= 7,
        ensures
            r.level == self.level,
            r@.len() == self@.len(),
            forall|i: int|
                0 <= i < r@.len() ==> r@[i] == tower_pow(self.level as nat, self@[i], exp as nat),
    {
        let level = self.level;
        let l = Ghost(level as nat);
        proof {
            if level == 0 {
                lemma_width_values();
                lemma_small_constants(0, 1);
            } else {
                lemma_halves_of_scalar(l@, 1);
            }
        }
        let mut res = PackedTowerVector::broadcast(1, level);
        let mut k: u64 = 64;
        proof {
            lemma2_to64();
            lemma_basic_div(exp as int, pow2(64) as int);
        }
        while k > 0
            invariant
                l@ == level as nat,
                level == self.level,
                self.level <= 7,
                res.level == level,
                k <= 64,
                res@.len() == self@.len(),
                forall|i: int|
                    0 <= i < res@.len() ==> #[trigger] res@[i] == tower_pow_halving(
                        l@,
                        self@[i],
                        exp as nat / pow2(k as nat),
                    ),
            decreases k,
        {
            k = k - 1;
            let ghost e = exp as nat / pow2(k as nat);
            proof {
                lemma_pow2_pos(k as nat);
                lemma_pow2_adds(k as nat, 1);
                lemma2_to64();
                lemma_div_denominator(exp as int, pow2(k as nat) as int, 2);
                assert(e / 2 == exp as nat / pow2((k + 1) as nat));
                lemma_u64_shr_is_div(exp, k);
                let y = exp >> k;
                assert(y & 1 == y % 2) by (bit_vector);
                lemma_square_zero_one(l@);
            }
            let sq = res.square();
            if (exp >> k) & 1 == 1 {
                res = sq.mul(self);
            } else {
                res = sq;
            }
            proof {
                assert forall|i: int| 0 <= i < res@.len() implies #[trigger] res@[i]
                    == tower_pow_halving(l@, self@[i], e) by {
                    let h = tower_pow_halving(l@, self@[i], e / 2);
                    assert(sq@[i] == tower_mul(l@, h, h));
                }
            }
        }
        proof {
            lemma2_to64();
            assert forall|i: int| 0 <= i < res@.len() implies res@[i] == tower_pow(
                l@,
                self@[i],
                exp as nat,
            ) by {
                assert(res@[i] == tower_pow_halving(l@, self@[i], exp as nat / pow2(0)));
                lemma_pow_halving(l@, self@[i], exp as nat);
            }
        }
        res
    }
}

/// A packed vector of a tower level above 0, which can be read one level down.
pub trait PackedTowerField: Sized {
    /// The tower level of the lanes.
    spec fn tower_level(&self) -> nat;

    /// The lanes as scalars.
    spec fn scalars(&self) -> Seq<u128>;

    /// The same bits read as a vector of the level below, with twice the lanes: lane `k`
    /// of `self` is the pair of lanes `2k` (low half) and `2k + 1` (high half).
    fn as_packed_subfield(self) -> (r: Self)
        requires
            1 <= self.tower_level() <= 7,
        ensures
            r.tower_level() == self.tower_level() - 1,
            r.scalars().len() == 2 * self.scalars().len(),
            forall|k: int|
                0 <= k < self.scalars().len() ==> #[trigger] self.scalars()[k] == join_halves(
                    r.scalars()[2 * k],
                    r.scalars()[2 * k + 1],
                    self.tower_level(),
                ),
    ;
}

impl PackedTowerField for PackedTowerVector {
    open spec fn tower_level(&self) -> nat {
        self.level as nat
    }

    open spec fn scalars(&self) -> Seq<u128> {
        self@
    }

    fn as_packed_subfield(self) -> (r: Self) {
        let r = PackedTowerVector { underlier: self.underlier, level: self.level - 1 };
        proof {
            lemma_level_facts((self.level - 1) as nat);
            assert forall|k: int| 0 <= k < self@.len() implies #[trigger] self@[k]
                == join_halves(r@[2 * k], r@[2 * k + 1], self.level as nat) by {
                lemma_subfield_lanes(self.underlier, self.level as nat, k as nat);
            }
        }
        r
    }
}

} // verus!
