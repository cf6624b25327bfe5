use sesters::amount::Amount;

#[test]
fn amounts_drop_trailing_zeros() {
    let a = Amount::new(1500, 2);
    assert_eq!(a, Amount::new(15, 0));
    assert_eq!(a.mantissa(), 15);
    assert_eq!(a.scale(), 0);
    assert_eq!(Amount::new(0, 5), Amount::zero());
    assert!(!Amount::new(-0, 3).is_negative());
    assert!(Amount::new(-120, 1).is_negative());
    assert_eq!(Amount::from_parts(true, 120, 1), Amount::new(-12, 0));
}

#[test]
fn amount_products() {
    let a = Amount::new(-25, 1);
    let b = Amount::new(4, 0);
    assert_eq!(a.checked_mul(&b), Some(Amount::new(-10, 0)));
    assert_eq!(Amount::new(i128::MAX, 0).checked_mul(&Amount::new(3, 0)), None);
    assert_eq!(Amount::new(1, 30).checked_mul(&Amount::new(1, 30)), None);
    assert_eq!(Amount::one().checked_mul(&b), Some(b));
}

#[test]
fn amount_rendering() {
    let s: String = Amount::new(-5, 3).render_chars().into_iter().collect();
    assert_eq!(s, "-0.00");
    let s: String = Amount::new(5, 3).render_chars().into_iter().collect();
    assert_eq!(s, "0.00");
    let s: String = Amount::new(15, 3).render_chars().into_iter().collect();
    assert_eq!(s, "0.02");
    let s: String = Amount::new(99999, 3).render_chars().into_iter().collect();
    assert_eq!(s, "100.00");
}
