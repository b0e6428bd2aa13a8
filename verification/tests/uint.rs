use parity::uint::U256;

fn limbs(l0: u64, l1: u64, l2: u64, l3: u64) -> U256 {
    U256 { l0, l1, l2, l3 }
}

#[test]
fn compares_from_the_highest_limb() {
    assert!(limbs(9, 9, 9, 1).is_less(&limbs(0, 0, 0, 2)));
    assert!(!limbs(0, 0, 0, 2).is_less(&limbs(9, 9, 9, 1)));
    assert!(limbs(9, 9, 1, 0).is_less(&limbs(0, 0, 2, 0)));
    assert!(limbs(9, 1, 0, 0).is_less(&limbs(0, 2, 0, 0)));
    assert!(limbs(1, 0, 0, 0).is_less(&limbs(2, 0, 0, 0)));
    assert!(!limbs(2, 0, 0, 0).is_less(&limbs(2, 0, 0, 0)));
}

#[test]
fn subtracts_with_borrow() {
    assert_eq!(
        limbs(0, 0, 0, 1).checked_sub(&U256::from_u64(1)),
        Some(limbs(u64::MAX, u64::MAX, u64::MAX, 0))
    );
    assert_eq!(U256::from_u64(7).checked_sub(&U256::from_u64(7)), Some(U256::zero()));
    assert_eq!(U256::from_u64(7).checked_sub(&U256::from_u64(8)), None);
    assert_eq!(limbs(0, 1, 0, 0).checked_sub(&limbs(1, u64::MAX, 0, 0)), None);
}

#[test]
fn multiplies_with_carry() {
    assert_eq!(limbs(u64::MAX, 0, 0, 0).checked_mul(2), Some(limbs(u64::MAX - 1, 1, 0, 0)));
    assert_eq!(limbs(0, 0, 1 << 63, 0).checked_mul(4), Some(limbs(0, 0, 0, 2)));
    assert_eq!(limbs(0, 0, 0, 1 << 63).checked_mul(2), None);
    assert_eq!(limbs(u64::MAX, u64::MAX, u64::MAX, u64::MAX).checked_mul(0), Some(U256::zero()));
}

#[test]
fn divides_rounding_down() {
    assert_eq!(U256::from_u64(1099).div(100), U256::from_u64(10));
    assert_eq!(limbs(0, 0, 0, 1).div(2), limbs(0, 0, 1 << 63, 0));
    assert_eq!(limbs(5, 1, 0, 0).div(u64::MAX), limbs(1, 0, 0, 0));
}
