use log_analyzer::wide::Wide;

#[test]
fn zero_is_zero() {
    assert_eq!(Wide::zero(), Wide { high: 0, mid: 0, low: 0 });
}

#[test]
fn product_of_small_numbers() {
    assert_eq!(Wide::product(6, 7), Wide { high: 0, mid: 0, low: 42 });
    assert_eq!(Wide::product(0, u128::MAX), Wide { high: 0, mid: 0, low: 0 });
}

#[test]
fn product_of_the_largest_limbs() {
    // (2^128 - 1)^2 = (2^128 - 2) * 2^128 + 1
    assert_eq!(
        Wide::product(u128::MAX, u128::MAX),
        Wide { high: 0, mid: u128::MAX - 1, low: 1 }
    );
}

#[test]
fn product_crosses_the_limb() {
    // 2^64 * 2^64 = 2^128
    assert_eq!(Wide::product(1 << 64, 1 << 64), Wide { high: 0, mid: 1, low: 0 });
    // 2^127 * 6 = 3 * 2^128
    assert_eq!(Wide::product(1 << 127, 6), Wide { high: 0, mid: 3, low: 0 });
    // (2^64 + 1) * (2^64 + 1) = 2^128 + 2^65 + 1
    assert_eq!(
        Wide::product((1 << 64) + 1, (1 << 64) + 1),
        Wide { high: 0, mid: 1, low: (1 << 65) + 1 }
    );
}

#[test]
fn plus_carries_between_limbs() {
    let a = Wide { high: 0, mid: u128::MAX, low: u128::MAX };
    let b = Wide { high: 0, mid: 0, low: 1 };
    assert_eq!(a.plus(&b), Wide { high: 1, mid: 0, low: 0 });
    let c = Wide { high: 2, mid: 5, low: u128::MAX };
    let d = Wide { high: 3, mid: 7, low: 2 };
    assert_eq!(c.plus(&d), Wide { high: 5, mid: 13, low: 1 });
}

#[test]
fn times_carries_between_limbs() {
    let a = Wide { high: 0, mid: 1, low: 1 << 127 };
    assert_eq!(a.times(4), Wide { high: 0, mid: 6, low: 0 });
    let b = Wide { high: 0, mid: u128::MAX, low: u128::MAX };
    // (2^256 - 1) * 3 = 2 * 2^256 + (2^256 - 3)
    assert_eq!(b.times(3), Wide { high: 2, mid: u128::MAX, low: u128::MAX - 2 });
    assert_eq!(b.times(0), Wide::zero());
    assert_eq!(b.times(1), b);
}

#[test]
fn exceeds_goes_by_the_highest_limb_that_differs() {
    let small = Wide { high: 0, mid: 9, low: 9 };
    let large = Wide { high: 1, mid: 0, low: 0 };
    assert!(large.exceeds(&small));
    assert!(!small.exceeds(&large));
    assert!(!small.exceeds(&small));
    assert!(Wide { high: 0, mid: 2, low: 0 }.exceeds(&Wide { high: 0, mid: 1, low: u128::MAX }));
    assert!(Wide { high: 0, mid: 1, low: 5 }.exceeds(&Wide { high: 0, mid: 1, low: 4 }));
}
