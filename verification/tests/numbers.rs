use intcode::{gcd, lcm};

#[test]
fn gcd_of_positive_numbers() {
    assert_eq!(gcd(12, 18), 6);
    assert_eq!(gcd(7, 13), 1);
    assert_eq!(gcd(0, 5), 5);
    assert_eq!(gcd(5, 0), 5);
}

#[test]
fn gcd_ignores_signs() {
    assert_eq!(gcd(-4, 6), 2);
    assert_eq!(gcd(4, -6), 2);
    assert_eq!(gcd(-4, -6), 2);
}

#[test]
fn lcm_of_small_numbers() {
    assert_eq!(lcm(4, 6), 12);
    assert_eq!(lcm(3, 5), 15);
    assert_eq!(lcm(-3, 5), 15);
    assert_eq!(lcm(7, 1), 7);
}
