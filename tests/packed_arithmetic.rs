use binius_field::field::{PackedTowerField, PackedTowerVector};
use binius_field::packed::{interleave, invert_or_zero, mul, mul_alpha, square, xor_adjacent};
use binius_field::underlier::UnderlierWithBitConstants;

fn check_interleave(level: usize, a: u128, b: u128, c: u128, d: u128) {
    assert_eq!(interleave(a, b, level), (c, d));
    assert_eq!(interleave(c, d, level), (a, b));
    assert_eq!(a.interleave(b, level), (c, d));
}

#[test]
fn test_interleave() {
    check_interleave(
        0,
        0x0000000000000000FFFFFFFFFFFFFFFF,
        0xFFFFFFFFFFFFFFFF0000000000000000,
        0xAAAAAAAAAAAAAAAA5555555555555555,
        0xAAAAAAAAAAAAAAAA5555555555555555,
    );

    check_interleave(
        1,
        0x0000000000000000FFFFFFFFFFFFFFFF,
        0xFFFFFFFFFFFFFFFF0000000000000000,
        0xCCCCCCCCCCCCCCCC3333333333333333,
        0xCCCCCCCCCCCCCCCC3333333333333333,
    );

    check_interleave(
        2,
        0x0000000000000000FFFFFFFFFFFFFFFF,
        0xFFFFFFFFFFFFFFFF0000000000000000,
        0xF0F0F0F0F0F0F0F00F0F0F0F0F0F0F0F,
        0xF0F0F0F0F0F0F0F00F0F0F0F0F0F0F0F,
    );

    check_interleave(
        3,
        0x0F0E0D0C0B0A09080706050403020100,
        0x1F1E1D1C1B1A19181716151413121110,
        0x1E0E1C0C1A0A18081606140412021000,
        0x1F0F1D0D1B0B19091707150513031101,
    );

    check_interleave(
        4,
        0x0F0E0D0C0B0A09080706050403020100,
        0x1F1E1D1C1B1A19181716151413121110,
        0x1D1C0D0C191809081514050411100100,
        0x1F1E0F0E1B1A0B0A1716070613120302,
    );

    check_interleave(
        5,
        0x0F0E0D0C0B0A09080706050403020100,
        0x1F1E1D1C1B1A19181716151413121110,
        0x1B1A19180B0A09081312111003020100,
        0x1F1E1D1C0F0E0D0C1716151407060504,
    );

    check_interleave(
        6,
        0x0F0E0D0C0B0A09080706050403020100,
        0x1F1E1D1C1B1A19181716151413121110,
        0x17161514131211100706050403020100,
        0x1F1E1D1C1B1A19180F0E0D0C0B0A0908,
    );
}

const NUM_TESTS: u64 = 100;

/// A fixed pseudo-random sequence of words.
fn words(seed: u64, n: u64) -> Vec<u128> {
    let mut state: u128 = (seed as u128) ^ 0x9E3779B97F4A7C15F39CC0605CEDC834;
    let mut out = Vec::new();
    for _ in 0..n {
        state = state
            .wrapping_mul(0x2360ED051FC65DA44385DF649FCCF645)
            .wrapping_add(0x5851F42D4C957F2D14057B7EF767814F);
        out.push(state ^ (state >> 67));
    }
    out
}

fn width(level: usize) -> u32 {
    1 << level
}

fn lane_mask(level: usize) -> u128 {
    if level == 7 { u128::MAX } else { (1u128 << width(level)) - 1 }
}

fn lanes(x: u128, level: usize) -> Vec<u128> {
    let w = width(level);
    (0..(128 / w)).map(|i| if w == 128 { x } else { (x >> (i * w)) & lane_mask(level) }).collect()
}

fn pack(scalars: &[u128], level: usize) -> u128 {
    let w = width(level);
    let mut x = 0u128;
    for (i, s) in scalars.iter().enumerate() {
        if w == 128 {
            x = *s;
        } else {
            x |= s << (i as u32 * w);
        }
    }
    x
}

fn alpha(level: usize) -> u128 {
    if level == 0 { 1 } else { 1u128 << width(level - 1) }
}

/// Tower product of two scalars, by the definition of the extension.
fn ref_mul(level: usize, x: u128, y: u128) -> u128 {
    if level == 0 {
        return x & y & 1;
    }
    let s = level - 1;
    let w = width(s);
    let m = lane_mask(s);
    let (x0, x1, y0, y1) = (x & m, (x >> w) & m, y & m, (y >> w) & m);
    let z2 = ref_mul(s, x1, y1);
    let lo = ref_mul(s, x0, y0) ^ z2;
    let hi = ref_mul(s, x0, y1) ^ ref_mul(s, x1, y0) ^ ref_mul(s, z2, alpha(s));
    lo | (hi << w)
}

fn test_packed_multiply_alpha(level: usize) {
    for a in words(level as u64, NUM_TESTS) {
        let v = PackedTowerVector::new(a, level);
        let result = v.mul_alpha();
        for i in 0..(128 >> level) {
            let scalar = PackedTowerVector::new(v.get(i), level).mul_alpha().get(0);
            assert_eq!(result.get(i), scalar);
            assert_eq!(result.get(i), ref_mul(level, v.get(i), alpha(level)));
        }
    }
}

#[test]
fn test_multiply_alpha() {
    test_packed_multiply_alpha(1);
    test_packed_multiply_alpha(2);
    test_packed_multiply_alpha(3);
    test_packed_multiply_alpha(4);
    test_packed_multiply_alpha(5);
    test_packed_multiply_alpha(6);
    test_packed_multiply_alpha(7);
}

#[test]
fn multiply_matches_scalar_product_at_every_level() {
    for level in 0..=7 {
        let xs = words(10 + level as u64, 20);
        let ys = words(20 + level as u64, 20);
        for (a, b) in xs.iter().zip(ys.iter()) {
            let r = mul(*a, *b, level);
            let la = lanes(*a, level);
            let lb = lanes(*b, level);
            let expected: Vec<u128> =
                la.iter().zip(lb.iter()).map(|(x, y)| ref_mul(level, *x, *y)).collect();
            assert_eq!(lanes(r, level), expected);
        }
    }
}

#[test]
fn square_equals_product_with_itself() {
    for level in 0..=7 {
        for a in words(30 + level as u64, 20) {
            assert_eq!(square(a, level), mul(a, a, level));
        }
    }
}

#[test]
fn mul_alpha_equals_product_with_broadcast_alpha() {
    for level in 1..=7 {
        let alphas = PackedTowerVector::broadcast(alpha(level), level);
        for a in words(40 + level as u64, 20) {
            assert_eq!(mul_alpha(a, level), mul(a, alphas.underlier, level));
        }
    }
}

#[test]
fn product_with_inverse_is_one_on_nonzero_lanes() {
    for level in 0..=7 {
        for a in words(50 + level as u64, 20) {
            let inv = invert_or_zero(a, level);
            let prod = lanes(mul(a, inv, level), level);
            for (i, x) in lanes(a, level).iter().enumerate() {
                assert_eq!(prod[i], if *x == 0 { 0 } else { 1 });
            }
        }
        assert_eq!(invert_or_zero(0, level), 0);
    }
}

#[test]
fn field_axioms_on_sample_values() {
    for level in 0..=7 {
        let one = PackedTowerVector::broadcast(1, level).underlier;
        let xs = words(60 + level as u64, 10);
        let ys = words(70 + level as u64, 10);
        let zs = words(80 + level as u64, 10);
        for i in 0..10 {
            let (a, b, c) = (xs[i], ys[i], zs[i]);
            assert_eq!(a ^ b, b ^ a);
            assert_eq!(a ^ (b ^ c), (a ^ b) ^ c);
            assert_eq!(a ^ 0, a);
            assert_eq!(a ^ a, 0);
            assert_eq!(mul(a, b, level), mul(b, a, level));
            assert_eq!(mul(a, mul(b, c, level), level), mul(mul(a, b, level), c, level));
            assert_eq!(mul(a, b ^ c, level), mul(a, b, level) ^ mul(a, c, level));
            assert_eq!(mul(a, one, level), a);
            assert_eq!(mul(a, 0, level), 0);
        }
        assert_eq!(square(0, level), 0);
        assert_eq!(square(one, level), one);
    }
}

#[test]
fn interleave_twice_gives_inputs_back() {
    for level in 0..7 {
        let xs = words(90 + level as u64, 10);
        let ys = words(95 + level as u64, 10);
        for (a, b) in xs.iter().zip(ys.iter()) {
            let (c, d) = interleave(*a, *b, level);
            assert_eq!(interleave(c, d, level), (*a, *b));
        }
    }
}

#[test]
fn xor_adjacent_duplicates_pair_sums() {
    let a = 0x0F0E0D0C0B0A09080706050403020100u128;
    let r = xor_adjacent(a, 3);
    let la = lanes(a, 3);
    let lr = lanes(r, 3);
    for i in 0..16 {
        let k = i - i % 2;
        assert_eq!(lr[i], la[k] ^ la[k + 1]);
    }
    assert_eq!(lr[0], 1);
    assert_eq!(lr[1], 1);
}

#[test]
fn masks_at_each_level() {
    assert_eq!(u128::interleave_even_mask(0), 0x55555555555555555555555555555555);
    assert_eq!(u128::interleave_odd_mask(0), 0xAAAAAAAAAAAAAAAAAAAAAAAAAAAAAAAA);
    assert_eq!(u128::interleave_even_mask(3), 0x00FF00FF00FF00FF00FF00FF00FF00FF);
    assert_eq!(u128::interleave_odd_mask(6), 0xFFFFFFFFFFFFFFFF0000000000000000);
    for level in 0..7 {
        let e = u128::interleave_even_mask(level);
        let o = u128::interleave_odd_mask(level);
        assert_eq!(e ^ o, u128::MAX);
        assert_eq!(e & o, 0);
    }
}

#[test]
fn subfield_view_regroups_lane_pairs() {
    for level in 1..=7 {
        for a in words(100 + level as u64, 5) {
            let v = PackedTowerVector::new(a, level);
            let sub = v.as_packed_subfield();
            assert_eq!(sub.level, level - 1);
            let w = width(level - 1);
            for k in 0..(128 >> level) {
                let lo = sub.get(2 * k);
                let hi = sub.get(2 * k + 1);
                assert_eq!(v.get(k), lo | (hi << w));
            }
        }
    }
}

#[test]
fn level_one_multiply_by_lanes() {
    let a = PackedTowerVector::from_scalars(&pad(&[1, 0], 64), 1);
    let b = PackedTowerVector::from_scalars(&pad(&[1, 1], 64), 1);
    let r = a.mul(b);
    assert_eq!(r.get(0), ref_mul(1, 1, 1));
    assert_eq!(r.get(1), ref_mul(1, 0, 1));
    assert_eq!(r.get(0), 1);
    assert_eq!(r.get(1), 0);
    assert_eq!(ref_mul(1, 2, 2), 3);
    assert_eq!(mul(pack(&[2, 3], 1), pack(&[2, 2], 1), 1), pack(&[3, 1], 1));
}

fn pad(scalars: &[u128], n: usize) -> Vec<u128> {
    let mut v = scalars.to_vec();
    v.resize(n, 0);
    v
}

#[test]
fn eight_lane_multiply_by_broadcast_constant() {
    let x = PackedTowerVector::from_scalars(&vec![0, 1, 2, 3, 122, 123, 124, 125], 4);
    let c = PackedTowerVector::broadcast(123, 4);
    let r = x.mul(c);
    let expected = [0, 123, 157, 230, 85, 46, 154, 225];
    for i in 0..8 {
        assert_eq!(r.get(i), expected[i]);
        assert_eq!(r.get(i), ref_mul(4, x.get(i), 123));
    }
}

#[test]
fn eight_lane_add_constant() {
    let x = PackedTowerVector::from_scalars(&vec![0, 1, 2, 3, 122, 123, 124, 125], 4);
    let c = PackedTowerVector::broadcast(123, 4);
    let r = x.add(c);
    let expected = [123, 122, 121, 120, 1, 0, 7, 6];
    for i in 0..8 {
        assert_eq!(r.get(i), expected[i]);
    }
}

#[test]
fn eight_lane_mixed_expression() {
    let x0 = PackedTowerVector::from_scalars(&vec![0, 1, 2, 3, 4, 5, 6, 7], 4);
    let x1 = PackedTowerVector::from_scalars(&vec![100, 101, 102, 103, 104, 105, 106, 107], 4);
    let c = PackedTowerVector::broadcast(123, 4);
    let r = x0.square().mul(x1.add(c));
    let expected = [0, 30, 59, 36, 151, 140, 170, 176];
    for i in 0..8 {
        assert_eq!(r.get(i), expected[i]);
    }
}

#[test]
fn invert_or_zero_on_vector() {
    let x = PackedTowerVector::from_scalars(&vec![0, 1, 2, 3, 122, 123, 124, 125], 4);
    let inv = x.invert_or_zero();
    assert_eq!(inv.get(0), 0);
    assert_eq!(inv.get(1), 1);
    let prod = x.mul(inv);
    for i in 1..8 {
        assert_eq!(prod.get(i), 1);
    }
}
