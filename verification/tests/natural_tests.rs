use kmeans_quantize::natural::Natural;

#[test]
fn natural_round_trips_through_u128() {
    for v in [0u128, 1, 4294967295, 4294967296, 18446744073709551616, u128::MAX] {
        assert_eq!(Natural::from_u128(v).to_u128(), Some(v));
    }
}

#[test]
fn natural_times_small_factor() {
    assert_eq!(Natural::from_u128(5).times(3).to_u128(), Some(15));
    assert_eq!(Natural::from_u128(0).times(77).to_u128(), Some(0));
    assert_eq!(Natural::from_u128(77).times(0).to_u128(), Some(0));
    assert_eq!(
        Natural::from_u128(12345678901234567890123456789).times(4_000_000_000).to_u128(),
        Some(49382715604938271560493827156000000000)
    );
}

#[test]
fn natural_plus_carries_across_limbs() {
    let a = Natural::from_u128(0xFFFF_FFFF_FFFF_FFFF);
    let b = Natural::from_u128(1);
    assert_eq!(a.plus(&b).to_u128(), Some(0x1_0000_0000_0000_0000));
    assert_eq!(b.plus(&a).to_u128(), Some(0x1_0000_0000_0000_0000));
}

#[test]
fn natural_beyond_u128_does_not_fit() {
    let max = Natural::from_u128(u128::MAX);
    let one = Natural::from_u128(1);
    let over = max.plus(&one);
    assert_eq!(over.to_u128(), None);
    assert!(max.less_than(&over));
    assert!(!over.less_than(&max));
    assert_eq!(max.times(2).to_u128(), None);
}

#[test]
fn natural_order() {
    let small = Natural::from_u128(41);
    let large = Natural::from_u128(42);
    assert!(small.less_than(&large));
    assert!(!large.less_than(&small));
    assert!(!small.less_than(&small));
    // numbers of different lengths, and one with leading zero limbs
    let wide = Natural::from_u128(1 << 100);
    assert!(large.less_than(&wide));
    assert!(!wide.less_than(&large));
    let padded = Natural::from_u128(42).times(1);
    assert!(!padded.less_than(&large) && !large.less_than(&padded));
    assert!(small.less_than(&padded));
}
