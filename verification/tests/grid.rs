use exchange_ledger::decimal::{pow10_exec, Amount, MAX_MANTISSA};

const SCALES: [u32; 11] = [0, 1, 2, 8, 9, 10, 18, 19, 20, 27, 28];

fn mantissas() -> Vec<i128> {
    let magnitudes: [i128; 18] = [
        0,
        1,
        5,
        9,
        10,
        15,
        4_294_967_295,
        4_294_967_296,
        18_446_744_073_709_551_615,
        18_446_744_073_709_551_616,
        10_000_000_000_000_000_000,
        123_456_789_012_345_678_901_234_567,
        10_000_000_000_000_000_000_000_000_000,
        7_922_816_251_426_433_759_354_395_033,
        7_922_816_251_426_433_759_354_395_034,
        39_614_081_257_132_168_796_771_975_168,
        MAX_MANTISSA - 1,
        MAX_MANTISSA,
    ];
    let mut all = Vec::new();
    for m in magnitudes {
        all.push(m);
        if m != 0 {
            all.push(-m);
        }
    }
    all
}

/// The mantissa of `m / 10^s` written at scale `to`, where it is whole and
/// fits an `i128`.
fn at_scale(m: i128, s: u32, to: u32) -> Option<i128> {
    if to >= s {
        m.checked_mul(pow10_exec(to - s))
    } else {
        let q = pow10_exec(s - to);
        if m % q == 0 {
            Some(m / q)
        } else {
            None
        }
    }
}

fn exact_sum(m1: i128, s1: u32, m2: i128, s2: u32) -> Option<i128> {
    let s = s1.max(s2);
    let sum = at_scale(m1, s1, s)?.checked_add(at_scale(m2, s2, s)?)?;
    if -MAX_MANTISSA <= sum && sum <= MAX_MANTISSA {
        Some(sum)
    } else {
        None
    }
}

#[test]
fn sums_over_a_grid_are_exact_or_refused() {
    let ms = mantissas();
    for &m1 in &ms {
        for &s1 in &SCALES {
            let a = Amount::new(m1, s1).unwrap();
            for &m2 in &ms {
                for &s2 in &SCALES {
                    let b = Amount::new(m2, s2).unwrap();
                    let s = s1.max(s2);
                    match (a.checked_add(&b), exact_sum(m1, s1, m2, s2)) {
                        (Some(r), Some(sum)) => {
                            assert!(r.scale <= s, "{} e-{} + {} e-{}", m1, s1, m2, s2);
                            assert_eq!(at_scale(r.mantissa, r.scale, s), Some(sum), "{} e-{} + {} e-{}", m1, s1, m2, s2);
                        }
                        (None, None) => {}
                        (got, want) => panic!("{} e-{} + {} e-{}: {:?} for {:?}", m1, s1, m2, s2, got, want),
                    }
                }
            }
        }
    }
}

#[test]
fn differences_over_a_grid_are_exact_or_refused() {
    let ms = mantissas();
    for &m1 in &ms {
        for &s1 in &SCALES {
            let a = Amount::new(m1, s1).unwrap();
            for &m2 in &ms {
                for &s2 in &SCALES {
                    let b = Amount::new(m2, s2).unwrap();
                    let s = s1.max(s2);
                    match (a.checked_sub(&b), exact_sum(m1, s1, -m2, s2)) {
                        (Some(r), Some(diff)) => {
                            assert!(r.scale <= s, "{} e-{} - {} e-{}", m1, s1, m2, s2);
                            assert_eq!(at_scale(r.mantissa, r.scale, s), Some(diff), "{} e-{} - {} e-{}", m1, s1, m2, s2);
                        }
                        (None, None) => {}
                        (got, want) => panic!("{} e-{} - {} e-{}: {:?} for {:?}", m1, s1, m2, s2, got, want),
                    }
                }
            }
        }
    }
}

#[test]
fn comparisons_over_a_grid_follow_the_numbers() {
    let ms = mantissas();
    for &m1 in &ms {
        for &s1 in &SCALES {
            let a = Amount::new(m1, s1).unwrap();
            for &m2 in &ms {
                for &s2 in &SCALES {
                    let b = Amount::new(m2, s2).unwrap();
                    let s = s1.max(s2);
                    let want = match (at_scale(m1, s1, s), at_scale(m2, s2, s)) {
                        (Some(x), Some(y)) => x >= y,
                        (None, _) => m1 > 0,
                        (_, None) => m2 < 0,
                    };
                    assert_eq!(a.ge(&b), want, "{} e-{} >= {} e-{}", m1, s1, m2, s2);
                }
            }
        }
    }
}

fn half_even(m: i128, q: i128) -> i128 {
    let lo = m.div_euclid(q);
    let rem = m.rem_euclid(q);
    if 2 * rem < q || (2 * rem == q && lo % 2 == 0) {
        lo
    } else {
        lo + 1
    }
}

#[test]
fn rounding_over_a_grid_goes_half_to_even() {
    let mut ms = mantissas();
    ms.extend([25, -25, 35, -35, 125, -125, 1_250, 1_350, 14_999, 15_000, 15_001, 25_000, -25_000]);
    for &m in &ms {
        for &s in &SCALES {
            let a = Amount::new(m, s).unwrap();
            for dp in [0u32, 1, 2, 4, 8, 9, 17, 18, 19, 27, 28, 29, 40, u32::MAX] {
                let r = a.round_dp(dp);
                if s <= dp {
                    assert_eq!((r.mantissa, r.scale), (m, s), "{} e-{} to {}", m, s, dp);
                } else {
                    let want = half_even(m, pow10_exec(s - dp));
                    assert_eq!((r.mantissa, r.scale), (want, dp), "{} e-{} to {}", m, s, dp);
                }
            }
        }
    }
}
