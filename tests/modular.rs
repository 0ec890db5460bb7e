use math_universe::Modular;

#[test]
fn new_reduces_into_range() {
    assert_eq!(Modular::<7>::new(10).value(), 3);
    assert_eq!(Modular::<7>::new(7).value(), 0);
    assert_eq!(Modular::<7>::new(0).value(), 0);
    assert_eq!(Modular::<12>::new(-1).value(), 11);
    assert_eq!(Modular::<12>::new(-24).value(), 0);
    assert_eq!(Modular::<12>::new(-25).value(), 11);
    assert_eq!(Modular::<1>::new(i64::MIN).value(), 0);
    assert_eq!(Modular::<10>::new(i64::MIN).value(), 2);
}

#[test]
fn clock_arithmetic() {
    let a = Modular::<12>::new(9);
    let b = Modular::<12>::new(5);
    assert_eq!((a + b).value(), 2);
    assert_eq!((b - a).value(), 8);
    assert_eq!((a - b).value(), 4);
    assert_eq!((a * b).value(), 9);
    assert_eq!(a + b, Modular::<12>::new(14));
}

#[test]
fn large_modulus_does_not_overflow() {
    const M: u64 = i64::MAX as u64;
    let a = Modular::<M>::new(i64::MAX - 1);
    let b = Modular::<M>::new(i64::MAX - 2);
    // (-1) + (-2) = -3, (-1) - (-2) = 1, (-1) * (-2) = 2 modulo M.
    assert_eq!((a + b).value(), i64::MAX - 3);
    assert_eq!((a - b).value(), 1);
    assert_eq!((a * b).value(), 2);
}

#[test]
fn residue_prints_in_decimal() {
    assert_eq!(Modular::<1000>::new(-1).to_string(), "999");
    assert_eq!(Modular::<1000>::new(2000).to_string(), "0");
    assert_eq!(Modular::<1000>::new(1042).to_string(), "42");
    const M: u64 = i64::MAX as u64;
    assert_eq!(Modular::<M>::new(-1).to_string(), (i64::MAX - 1).to_string());
}
