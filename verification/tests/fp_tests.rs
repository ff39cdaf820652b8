use marginfi::fp::{Fp, FP_SCALE};

#[test]
fn from_amount_is_exact() {
    let x = Fp::from_amount(1_000_000);
    assert_eq!(x.raw, 1_000_000u128 * FP_SCALE);
    assert_eq!(Fp::zero().raw, 0);
    assert_eq!(Fp::one().raw, FP_SCALE);
}

#[test]
fn to_amount_floor_rounds_down() {
    let x = Fp { raw: 3 * FP_SCALE + FP_SCALE / 2 };
    assert_eq!(x.to_amount_floor(), Some(3));
    let big = Fp { raw: u128::MAX };
    assert_eq!(big.to_amount_floor(), None);
}

#[test]
fn checked_add_and_sub() {
    let a = Fp::from_amount(5);
    let b = Fp::from_amount(3);
    assert_eq!(a.checked_add(b).unwrap().raw, 8 * FP_SCALE);
    assert_eq!(a.checked_sub(b).unwrap().raw, 2 * FP_SCALE);
    assert!(b.checked_sub(a).is_none());
    let m = Fp { raw: u128::MAX };
    assert!(m.checked_add(Fp::one()).is_none());
}

#[test]
fn checked_mul_floor_and_ceil() {
    // 2.5 * 3 = 7.5 exactly.
    let a = Fp { raw: 2 * FP_SCALE + FP_SCALE / 2 };
    let b = Fp::from_amount(3);
    let exact = a.checked_mul(b).unwrap();
    assert_eq!(exact.raw, 7 * FP_SCALE + FP_SCALE / 2);
    assert_eq!(a.checked_mul_ceil(b).unwrap().raw, exact.raw);
    // (1/2^48) * (1/2^48) rounds to 0 down, 1 up.
    let eps = Fp { raw: 1 };
    assert_eq!(eps.checked_mul(eps).unwrap().raw, 0);
    assert_eq!(eps.checked_mul_ceil(eps).unwrap().raw, 1);
    // Overflow: 2^79 * 2^79 needs 2^110 integer bits.
    let huge = Fp { raw: 1u128 << 127 };
    assert!(huge.checked_mul(huge).is_none());
}

#[test]
fn checked_div_floor_and_ceil() {
    let a = Fp::from_amount(7);
    let b = Fp::from_amount(2);
    assert_eq!(a.checked_div(b).unwrap().raw, 3 * FP_SCALE + FP_SCALE / 2);
    // 1 / 3 is inexact: ceiling is one raw step above the floor.
    let one = Fp::one();
    let three = Fp::from_amount(3);
    let fl = one.checked_div(three).unwrap();
    let ce = one.checked_div_ceil(three).unwrap();
    assert_eq!(ce.raw, fl.raw + 1);
    // Division by zero fails.
    assert!(one.checked_div(Fp::zero()).is_none());
    assert!(one.checked_div_ceil(Fp::zero()).is_none());
    // Overflow: 2^100 / 2^-48 needs too many bits.
    let huge = Fp { raw: 1u128 << 120 };
    let tiny = Fp { raw: 1 };
    assert!(huge.checked_div(tiny).is_none());
}

#[test]
fn share_round_trip_favors_pool() {
    // Share value 1.5: amounts from shares round down, shares back round
    // down again, so the round trip never gains shares.
    let v = Fp { raw: FP_SCALE + FP_SCALE / 2 };
    let s = Fp { raw: 7 * FP_SCALE / 3 };
    let amount = s.checked_mul(v).unwrap();
    let back = amount.checked_div(v).unwrap();
    assert!(back.raw <= s.raw);
    // Liability side: both conversions round up, so the round trip never
    // loses owed shares.
    let owed = s.checked_mul_ceil(v).unwrap();
    let back_up = owed.checked_div_ceil(v).unwrap();
    assert!(back_up.raw >= s.raw);
}
