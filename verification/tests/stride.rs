use terrain_generator::stride::{
    erosion_stride, find_stride, gcd, golden_ratio_multiple, is_coprime, next_drop, square_root,
};

#[test]
fn greatest_common_divisors() {
    assert_eq!(gcd(12, 18), 6);
    assert_eq!(gcd(18, 12), 6);
    assert_eq!(gcd(17, 5), 1);
    assert_eq!(gcd(0, 9), 9);
    assert_eq!(gcd(9, 0), 9);
    assert_eq!(gcd(0, 0), 0);
    assert_eq!(gcd(1, 1), 1);
    assert_eq!(gcd(636235, 393216), 1);
    assert!(is_coprime(35, 12));
    assert!(!is_coprime(35, 14));
    assert!(is_coprime(0, 1));
    assert!(!is_coprime(0, 5));
}

#[test]
fn nearest_coprime_is_found_above_first() {
    assert_eq!(find_stride(9, 6), 11);
    assert_eq!(find_stride(10, 7), 10);
    assert_eq!(find_stride(14, 7), 15);
    assert_eq!(find_stride(30, 30), 31);
    assert_eq!(find_stride(0, 6), 1);
    assert_eq!(find_stride(0, 1), 0);
    assert_eq!(find_stride(242, 150), 241);
    assert_eq!(find_stride(786, 486), 787);
    assert_eq!(find_stride(636236, 393216), 636235);
}

#[test]
fn golden_multiples() {
    assert_eq!(golden_ratio_multiple(0), 0);
    assert_eq!(golden_ratio_multiple(1), 1);
    assert_eq!(golden_ratio_multiple(6), 9);
    assert_eq!(golden_ratio_multiple(150), 242);
    assert_eq!(golden_ratio_multiple(486), 786);
    assert_eq!(golden_ratio_multiple(393216), 636236);
    for m in 1..2000usize {
        let t = golden_ratio_multiple(m);
        let exact = m as f64 * (1.0 + f64::sqrt(5.0)) / 2.0;
        assert_eq!(t, exact.floor() as usize);
    }
}

#[test]
fn whole_square_roots_of_wide_numbers() {
    assert_eq!(square_root(0), 0);
    assert_eq!(square_root(1), 1);
    assert_eq!(square_root(24), 4);
    assert_eq!(square_root(25), 5);
    assert_eq!(square_root(u128::MAX), u64::MAX as u128);
    assert_eq!(square_root((1u128 << 100) - 1), (1u128 << 50) - 1);
}

#[test]
fn stride_of_the_cube() {
    assert_eq!(erosion_stride(150), 241);
    assert_eq!(erosion_stride(486), 787);
    assert_eq!(erosion_stride(393216), 636235);
}

#[test]
fn stride_visits_every_cell_once() {
    for width in 1..8usize {
        let modulo = 6 * width * width;
        let stride = erosion_stride(modulo);
        assert_eq!(gcd(stride, modulo), 1);
        let mut seen = vec![false; modulo];
        let mut idrop = 5 % modulo;
        for _ in 0..modulo {
            idrop = next_drop(idrop, stride, modulo);
            assert!(!seen[idrop]);
            seen[idrop] = true;
        }
        assert!(seen.iter().all(|s| *s));
        // and then the round starts again
        assert_eq!(next_drop(idrop, stride, modulo), (5 + stride) % modulo);
    }
}

#[test]
fn next_drop_wraps_without_overflow() {
    assert_eq!(next_drop(3, 4, 5), 2);
    assert_eq!(next_drop(0, 0, 1), 0);
    assert_eq!(next_drop(usize::MAX - 1, usize::MAX, usize::MAX), usize::MAX - 1);
}
