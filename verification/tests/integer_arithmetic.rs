use raytracer::arith::{div_toward_zero, isqrt, product_le, wide_product};

#[test]
fn division_rounds_toward_zero_for_every_sign() {
    assert_eq!(div_toward_zero(7, 2), 3);
    assert_eq!(div_toward_zero(-7, 2), -3);
    assert_eq!(div_toward_zero(7, -2), -3);
    assert_eq!(div_toward_zero(-7, -2), 3);
    assert_eq!(div_toward_zero(6, 3), 2);
    assert_eq!(div_toward_zero(-6, 3), -2);
    assert_eq!(div_toward_zero(0, -5), 0);
    assert_eq!(div_toward_zero(1, 5), 0);
    assert_eq!(div_toward_zero(-1, 5), 0);
}

#[test]
fn division_at_the_ends_of_the_range() {
    assert_eq!(div_toward_zero(i128::MAX, 1), i128::MAX);
    assert_eq!(div_toward_zero(i128::MAX, -1), -i128::MAX);
    assert_eq!(div_toward_zero(i128::MIN, 1), i128::MIN);
    assert_eq!(div_toward_zero(i128::MIN, 2), i128::MIN / 2);
    assert_eq!(div_toward_zero(i128::MIN, -2), -(i128::MIN / 2));
    assert_eq!(div_toward_zero(i128::MIN, i128::MIN), 1);
    assert_eq!(div_toward_zero(i128::MIN + 1, i128::MIN), 0);
    assert_eq!(div_toward_zero(i128::MAX, i128::MIN), 0);
    assert_eq!(div_toward_zero(i128::MIN, i128::MAX), -1);
}

#[test]
fn square_roots_of_small_numbers() {
    let expected = [0u64, 1, 1, 1, 2, 2, 2, 2, 2, 3, 3, 3, 3, 3, 3, 3, 4];
    for (n, root) in expected.iter().enumerate() {
        assert_eq!(isqrt(n as u128), *root);
    }
}

#[test]
fn square_roots_around_perfect_squares() {
    for r in [5u128, 1_000, 65_535, 65_536, 4_294_967_295, 4_294_967_296, 1 << 63, u64::MAX as u128] {
        assert_eq!(isqrt(r * r) as u128, r);
        assert_eq!(isqrt(r * r - 1) as u128, r - 1);
        if r < u64::MAX as u128 {
            assert_eq!(isqrt(r * r + 1) as u128, r);
            assert_eq!(isqrt(r * r + 2 * r) as u128, r);
        }
    }
}

#[test]
fn square_root_of_the_largest_number() {
    assert_eq!(isqrt(u128::MAX), u64::MAX);
    // sqrt(2) * 10^18 = 1414213562373095048.8...
    assert_eq!(isqrt(2_000_000_000_000_000_000_000_000_000_000_000_000), 1_414_213_562_373_095_048);
}

#[test]
fn wide_products_keep_every_bit() {
    let low = u64::MAX as u128;
    assert_eq!(wide_product(0, u128::MAX), (0, 0));
    assert_eq!(wide_product(1, u128::MAX), (0, u128::MAX));
    assert_eq!(wide_product(3, 5), (0, 15));
    assert_eq!(wide_product(2, 1 << 127), (1, 0));
    assert_eq!(wide_product(1 << 64, 1 << 64), (1, 0));
    // (2^64 - 1) * (2^128 - 1) = 2^192 - 2^128 - 2^64 + 1
    assert_eq!(wide_product(low, u128::MAX), (low - 1, u128::MAX - low + 1));
    // (2^128 - 1)^2 = 2^256 - 2^129 + 1
    assert_eq!(wide_product(u128::MAX, u128::MAX), (u128::MAX - 1, 1));
    // 10^30 * 2^126 = 10^30 / 4 * 2^128
    assert_eq!(
        wide_product(1_000_000_000_000_000_000_000_000_000_000, 1 << 126),
        (250_000_000_000_000_000_000_000_000_000, 0)
    );
}

#[test]
fn wide_products_compare_exactly() {
    assert!(product_le(0, u128::MAX, 0, 0));
    assert!(product_le(3, 4, 2, 6));
    assert!(product_le(3, 4, 6, 2));
    assert!(!product_le(3, 4, 11, 1));
    assert!(product_le(u128::MAX, u128::MAX, u128::MAX, u128::MAX));
    assert!(!product_le(u128::MAX, u128::MAX, u128::MAX, u128::MAX - 1));
    assert!(product_le(u128::MAX, u128::MAX - 1, u128::MAX, u128::MAX));
    // Products that differ in the lowest bit of 256.
    assert!(product_le(1 << 127, (1 << 127) + 1, (1 << 127) + 1, 1 << 127));
    assert!(product_le((1 << 127) + 1, 1 << 127, 1 << 127, (1 << 127) + 1));
    assert!(!product_le((1 << 127) + 1, (1 << 127) + 1, 1 << 127, (1 << 127) + 2));
    assert!(product_le(1 << 127, (1 << 127) + 2, (1 << 127) + 1, (1 << 127) + 1));
    // The same number split in two ways.
    assert!(product_le(1 << 32, 1 << 100, 1 << 40, 1 << 92));
    assert!(product_le(1 << 40, 1 << 92, 1 << 32, 1 << 100));
}
