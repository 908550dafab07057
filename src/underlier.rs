//! Underliers: the raw words that packed vectors are stored in, with the per-level masks
//! that interleaving needs.

use vstd::prelude::*;
use crate::constants::{interleave_even_mask, interleave_odd_mask, lemma_constant_lanes};
use crate::lanes::{
    lane, lane_count, lemma_lanes_determine_word, lemma_level_facts, low_bits, width,
};
use crate::packed::interleave;

verus! {

/// A word type with interleave masks for every lane width below its own width.
pub trait UnderlierWithBitConstants: Sized {
    /// Number of interleave levels: lane widths `1, 2, 4, ...` below the word width.
    spec fn interleave_levels() -> nat;

    /// Lane `i` of `self` when lanes are `2^log_block_len` bits wide.
    spec fn block(self, log_block_len: nat, i: nat) -> u128;

    /// Number of lanes `2^log_block_len` bits wide.
    spec fn block_count(log_block_len: nat) -> nat;

    /// The mask of the even lanes at `log_block_len`.
    fn interleave_even_mask(log_block_len: usize) -> (r: Self)
        requires
            log_block_len < Self::interleave_levels(),
        ensures
            forall|i: nat|
                i < Self::block_count(log_block_len as nat) ==> #[trigger] r.block(
                    log_block_len as nat,
                    i,
                ) == if i % 2 == 0 {
                    low_bits(width(log_block_len as nat) as u128)
                } else {
                    0
                },
    ;

    /// The mask of the odd lanes at `log_block_len`.
    fn interleave_odd_mask(log_block_len: usize) -> (r: Self)
        requires
            log_block_len < Self::interleave_levels(),
        ensures
            forall|i: nat|
                i < Self::block_count(log_block_len as nat) ==> #[trigger] r.block(
                    log_block_len as nat,
                    i,
                ) == if i % 2 == 1 {
                    low_bits(width(log_block_len as nat) as u128)
                } else {
                    0
                },
    ;

    /// Transposes the 2x2 blocks of lanes of `self` and `other`: from `<a0, a1, ...>` and
    /// `<b0, b1, ...>` it makes `<a0, b0, a2, b2, ...>` and `<a1, b1, a3, b3, ...>`.
    fn interleave(self, other: Self, log_block_len: usize) -> (r: (Self, Self))
        requires
            log_block_len < Self::interleave_levels(),
        ensures
            forall|i: nat|
                i < Self::block_count(log_block_len as nat) ==> #[trigger] r.0.block(
                    log_block_len as nat,
                    i,
                ) == if i % 2 == 0 {
                    self.block(log_block_len as nat, i)
                } else {
                    other.block(log_block_len as nat, (i - 1) as nat)
                },
            forall|i: nat|
                i < Self::block_count(log_block_len as nat) ==> #[trigger] r.1.block(
                    log_block_len as nat,
                    i,
                ) == if i % 2 == 0 {
                    self.block(log_block_len as nat, i + 1)
                } else {
                    other.block(log_block_len as nat, i)
                },
    ;

    /// A word is determined by its blocks.
    proof fn lemma_blocks_determine_word(x: Self, y: Self, log_block_len: nat)
        requires
            log_block_len < Self::interleave_levels(),
            forall|i: nat|
                i < Self::block_count(log_block_len) ==> #[trigger] x.block(log_block_len, i)
                    == y.block(log_block_len, i),
        ensures
            x == y,
    ;

    /// Blocks come in pairs.
    proof fn lemma_block_count_even(log_block_len: nat)
        requires
            log_block_len < Self::interleave_levels(),
        ensures
            Self::block_count(log_block_len) % 2 == 0,
    ;
}

/// `(c, d)` is the block transpose of `(a, b)`, as `interleave` makes it:
/// `c = <a0, b0, a2, b2, ...>` and `d = <a1, b1, a3, b3, ...>`.
pub open spec fn blocks_interleaved<U: UnderlierWithBitConstants>(
    a: U,
    b: U,
    c: U,
    d: U,
    log_block_len: nat,
) -> bool {
    &&& forall|i: nat|
        i < U::block_count(log_block_len) ==> #[trigger] c.block(log_block_len, i) == if i % 2
            == 0 {
            a.block(log_block_len, i)
        } else {
            b.block(log_block_len, (i - 1) as nat)
        }
    &&& forall|i: nat|
        i < U::block_count(log_block_len) ==> #[trigger] d.block(log_block_len, i) == if i % 2
            == 0 {
            a.block(log_block_len, i + 1)
        } else {
            b.block(log_block_len, i)
        }
}

/// Interleaving twice gives the inputs back, for every underlier and mask level.
pub proof fn lemma_interleave_round_trip<U: UnderlierWithBitConstants>(
    a: U,
    b: U,
    c: U,
    d: U,
    e: U,
    f: U,
    log_block_len: nat,
)
    requires
        log_block_len < U::interleave_levels(),
        blocks_interleaved(a, b, c, d, log_block_len),
        blocks_interleaved(c, d, e, f, log_block_len),
    ensures
        e == a,
        f == b,
{
    let l = log_block_len;
    U::lemma_block_count_even(l);
    assert forall|i: nat| i < U::block_count(l) implies #[trigger] e.block(l, i) == a.block(l, i)
        && f.block(l, i) == b.block(l, i) by {
        assert(e.block(l, i) == e.block(l, i));
        assert(f.block(l, i) == f.block(l, i));
        assert(c.block(l, i) == c.block(l, i));
        assert(d.block(l, i) == d.block(l, i));
        if i % 2 == 0 {
            assert(i + 1 < U::block_count(l));
            assert(c.block(l, i + 1) == b.block(l, i));
        } else {
            let j = (i - 1) as nat;
            assert(j % 2 == 0 && j + 1 == i && j < U::block_count(l));
            assert(c.block(l, j) == a.block(l, j));
            assert(d.block(l, j) == a.block(l, i));
        }
    }
    U::lemma_blocks_determine_word(e, a, l);
    U::lemma_blocks_determine_word(f, b, l);
}

impl UnderlierWithBitConstants for u128 {
    open spec fn interleave_levels() -> nat {
        7
    }

    open spec fn block(self, log_block_len: nat, i: nat) -> u128 {
        lane(self, log_block_len, i)
    }

    open spec fn block_count(log_block_len: nat) -> nat {
        lane_count(log_block_len)
    }

    fn interleave_even_mask(log_block_len: usize) -> (r: u128) {
        let r = interleave_even_mask(log_block_len);
        proof {
            assert forall|i: nat| i < lane_count(log_block_len as nat) implies #[trigger] lane(
                r,
                log_block_len as nat,
                i,
            ) == if i % 2 == 0 {
                low_bits(width(log_block_len as nat) as u128)
            } else {
                0
            } by {
                lemma_constant_lanes(log_block_len as nat, i);
            }
        }
        r
    }

    fn interleave_odd_mask(log_block_len: usize) -> (r: u128) {
        let r = interleave_odd_mask(log_block_len);
        proof {
            assert forall|i: nat| i < lane_count(log_block_len as nat) implies #[trigger] lane(
                r,
                log_block_len as nat,
                i,
            ) == if i % 2 == 1 {
                low_bits(width(log_block_len as nat) as u128)
            } else {
                0
            } by {
                lemma_constant_lanes(log_block_len as nat, i);
            }
        }
        r
    }

    fn interleave(self, other: u128, log_block_len: usize) -> (r: (u128, u128)) {
        interleave(self, other, log_block_len)
    }

    proof fn lemma_blocks_determine_word(x: u128, y: u128, log_block_len: nat) {
        assert forall|i: nat| i < lane_count(log_block_len) implies #[trigger] lane(
            x,
            log_block_len,
            i,
        ) == lane(y, log_block_len, i) by {
            assert(x.block(log_block_len, i) == y.block(log_block_len, i));
        }
        lemma_lanes_determine_word(x, y, log_block_len);
    }

    proof fn lemma_block_count_even(log_block_len: nat) {
        lemma_level_facts(log_block_len);
    }
}

} // verus!
