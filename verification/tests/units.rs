use keccak_merkle::utils::{to_base, unit};

#[test]
fn unit_is_a_power_of_ten() {
    assert_eq!(unit(0), 1);
    assert_eq!(unit(1), 10);
    assert_eq!(unit(6), 1_000_000);
    assert_eq!(unit(9), 1_000_000_000);
}

#[test]
fn to_base_scales_by_the_unit() {
    assert_eq!(to_base(0, 9), 0);
    assert_eq!(to_base(5, 0), 5);
    assert_eq!(to_base(3, 2), 300);
    assert_eq!(to_base(100, 9), 100_000_000_000);
    assert_eq!(to_base(18_446_744_073, 9), 18_446_744_073_000_000_000);
}
