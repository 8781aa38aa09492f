use napitia::float::Double;

/// Zeros, the smallest and largest of each kind of number, neighbours of
/// one, ties and their neighbours, infinities and NaNs.
fn edges() -> Vec<u64> {
    let positive: Vec<u64> = vec![
        0x0000_0000_0000_0000,
        0x0000_0000_0000_0001,
        0x0000_0000_0000_0002,
        0x0000_0000_0000_0003,
        0x0008_0000_0000_0000,
        0x000f_ffff_ffff_ffff,
        0x0010_0000_0000_0000,
        0x0010_0000_0000_0001,
        0x001f_ffff_ffff_ffff,
        0x0020_0000_0000_0000,
        0x0360_0000_0000_0000,
        0x1e60_0000_0000_0000,
        0x3c90_0000_0000_0000,
        0x3ca0_0000_0000_0000,
        0x3cb0_0000_0000_0000,
        0x3fb9_9999_9999_999a,
        0x3fd5_5555_5555_5555,
        0x3fe0_0000_0000_0000,
        0x3fef_ffff_ffff_ffff,
        0x3ff0_0000_0000_0000,
        0x3ff0_0000_0000_0001,
        0x3ff8_0000_0000_0000,
        0x4000_0000_0000_0000,
        0x4008_0000_0000_0000,
        0x400921fb54442d18,
        0x4024_0000_0000_0000,
        0x4330_0000_0000_0000,
        0x4330_0000_0000_0001,
        0x4340_0000_0000_0000,
        0x7fd0_0000_0000_0000,
        0x7fe0_0000_0000_0000,
        0x7fef_ffff_ffff_fffe,
        0x7fef_ffff_ffff_ffff,
        0x7ff0_0000_0000_0000,
        0x7ff8_0000_0000_0000,
    ];
    let mut all: Vec<u64> = Vec::new();
    for bits in positive {
        all.push(bits);
        all.push(bits | 0x8000_0000_0000_0000);
    }
    all
}

fn assert_same(what: &str, a: u64, b: u64, got: Double, want: f64) {
    if want.is_nan() {
        assert!(got.is_nan(), "{what} of {a:#x} and {b:#x}: {:#x}", got.to_bits());
    } else {
        assert_eq!(
            got.to_bits(),
            want.to_bits(),
            "{what} of {a:#x} and {b:#x}: got {:#x}, want {:#x}",
            got.to_bits(),
            want.to_bits()
        );
    }
}

fn check_all(a: u64, b: u64) {
    let (x, y) = (Double::from_bits(a), Double::from_bits(b));
    let (p, q) = (f64::from_bits(a), f64::from_bits(b));
    assert_same("sum", a, b, x.add_to(y), p + q);
    assert_same("difference", a, b, x.subtract(y), p - q);
    assert_same("product", a, b, x.multiply(y), p * q);
    assert_same("quotient", a, b, x.divide(y), p / q);
    assert_same("remainder", a, b, x.remainder(y), p % q);
    assert_eq!(x.same(y), p == q, "equality of {a:#x} and {b:#x}");
    assert_eq!(x.below(y), p < q, "order of {a:#x} and {b:#x}");
}

fn next_random(state: u64) -> u64 {
    state
        .wrapping_mul(6364136223846793005)
        .wrapping_add(1442695040888963407)
}

#[test]
fn every_pair_of_edge_cases_agrees_with_the_machine() {
    let all = edges();
    for a in &all {
        for b in &all {
            check_all(*a, *b);
        }
    }
}

#[test]
fn arbitrary_bit_patterns_agree_with_the_machine() {
    let mut state: u64 = 0x9e37_79b9_7f4a_7c15;
    for _ in 0..1500 {
        state = next_random(state);
        let a = state ^ (state >> 29);
        state = next_random(state);
        let b = state ^ (state >> 31);
        check_all(a, b);
    }
}

#[test]
fn numbers_of_like_size_agree_with_the_machine() {
    let mut state: u64 = 0x1234_5678_9abc_def1;
    for _ in 0..1500 {
        state = next_random(state);
        let a = (state >> 12) | (0x3fd + (state & 7)) << 52;
        state = next_random(state);
        let b = (state >> 12) | (0x3fd + (state & 7)) << 52 | (state & 8) << 60;
        check_all(a, b);
    }
}

#[test]
fn subnormal_numbers_agree_with_the_machine() {
    let mut state: u64 = 0x0fed_cba9_8765_4321;
    for _ in 0..800 {
        state = next_random(state);
        let a = state >> 12;
        state = next_random(state);
        let b = (state >> 12) | (state & 3) << 52;
        check_all(a, b);
        check_all(a, 0x3fe0_0000_0000_0000);
        check_all(a, 0x3fff_ffff_ffff_ffff);
    }
}

#[test]
fn dividing_by_zero_gives_an_infinity_of_the_right_sign() {
    let one = Double::from_bits(1.0f64.to_bits());
    let zero = Double::from_bits(0.0f64.to_bits());
    let below = Double::from_bits((-0.0f64).to_bits());
    assert_eq!(one.divide(zero).to_bits(), f64::INFINITY.to_bits());
    assert_eq!(one.divide(below).to_bits(), f64::NEG_INFINITY.to_bits());
    assert!(zero.divide(zero).is_nan());
    assert!(one.remainder(zero).is_nan());
}

#[test]
fn a_half_is_rounded_to_the_even_neighbour() {
    let one = Double::from_bits(1.0f64.to_bits());
    let half_step = Double::from_bits(0x3ca0_0000_0000_0000);
    assert_eq!(one.add_to(half_step).to_bits(), 1.0f64.to_bits());
    let odd = Double::from_bits(0x3ff0_0000_0000_0001);
    assert_eq!(odd.add_to(half_step).to_bits(), 0x3ff0_0000_0000_0002);
}

#[test]
fn negating_flips_the_sign_bit_and_nothing_else() {
    for bits in edges() {
        let flipped = Double::from_bits(bits).negate();
        assert_eq!(flipped.to_bits(), bits ^ 0x8000_0000_0000_0000);
        assert_eq!(flipped.negate().to_bits(), bits);
    }
}
