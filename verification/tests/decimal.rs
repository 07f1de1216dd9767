use arbi_scan::dec::{dec_add, dec_clone, dec_cmp, dec_from_str, dec_from_u64, dec_mul, dec_neg};
use arbi_scan::Cmp;

#[test]
fn parse_plain_integer() {
    let d = dec_from_str("120").unwrap();
    assert!(!d.neg);
    assert_eq!(d.scale, 0);
    assert_eq!(d.mag, vec![0, 2, 1]);
}

#[test]
fn parse_fractional() {
    let d = dec_from_str("12.34").unwrap();
    assert!(!d.neg);
    assert_eq!(d.scale, 2);
    assert_eq!(d.mag, vec![4, 3, 2, 1]);
}

#[test]
fn parse_negative_fraction() {
    let d = dec_from_str("-0.5").unwrap();
    assert!(d.neg);
    assert_eq!(d.scale, 1);
    assert_eq!(d.mag, vec![5, 0]);
}

#[test]
fn parse_negative_zero_is_zero() {
    let d = dec_from_str("-0.0").unwrap();
    assert!(!d.neg);
}

#[test]
fn parse_rejects_garbage() {
    assert!(dec_from_str("abc").is_none());
    assert!(dec_from_str("").is_none());
    assert!(dec_from_str("-").is_none());
    assert!(dec_from_str("1.2.3").is_none());
    assert!(dec_from_str(".").is_none());
    assert!(dec_from_str("1e5").is_none());
}

#[test]
fn parse_accepts_bare_dot_forms() {
    let d = dec_from_str(".5").unwrap();
    assert_eq!(d.scale, 1);
    assert_eq!(d.mag, vec![5]);
    let e = dec_from_str("5.").unwrap();
    assert_eq!(e.scale, 0);
    assert_eq!(e.mag, vec![5]);
}

#[test]
fn addition_aligns_scales() {
    let a = dec_from_str("1.25").unwrap();
    let b = dec_from_str("2.5").unwrap();
    let s = dec_add(&a, &b);
    let expect = dec_from_str("3.75").unwrap();
    assert!(matches!(dec_cmp(&s, &expect), Cmp::Eq));
}

#[test]
fn addition_with_negative() {
    let a = dec_from_str("1.0").unwrap();
    let b = dec_from_str("-2.75").unwrap();
    let s = dec_add(&a, &b);
    let expect = dec_from_str("-1.75").unwrap();
    assert!(matches!(dec_cmp(&s, &expect), Cmp::Eq));
}

#[test]
fn multiplication_is_exact() {
    let a = dec_from_str("1.0211378960").unwrap();
    let b = dec_from_str("100").unwrap();
    let p = dec_mul(&a, &b);
    let expect = dec_from_str("102.11378960").unwrap();
    assert!(matches!(dec_cmp(&p, &expect), Cmp::Eq));
}

#[test]
fn multiplication_signs() {
    let a = dec_from_str("-2").unwrap();
    let b = dec_from_str("3").unwrap();
    let p = dec_mul(&a, &b);
    let expect = dec_from_str("-6").unwrap();
    assert!(matches!(dec_cmp(&p, &expect), Cmp::Eq));
}

#[test]
fn comparison_orders_values() {
    let a = dec_from_str("0.0000429088").unwrap();
    let b = dec_from_str("0.000043").unwrap();
    assert!(matches!(dec_cmp(&a, &b), Cmp::Lt));
    assert!(matches!(dec_cmp(&b, &a), Cmp::Gt));
    let c = dec_from_str("1.50").unwrap();
    let d = dec_from_str("1.5").unwrap();
    assert!(matches!(dec_cmp(&c, &d), Cmp::Eq));
}

#[test]
fn negation_flips_sign() {
    let a = dec_from_str("4.2").unwrap();
    let n = dec_neg(&a);
    assert!(n.neg);
    let z = dec_from_u64(0);
    let nz = dec_neg(&z);
    assert!(!nz.neg);
}

#[test]
fn from_u64_builds_digits() {
    let d = dec_from_u64(1000000000);
    assert_eq!(d.scale, 0);
    assert_eq!(d.mag.len(), 10);
    let e = dec_from_str("1000000000").unwrap();
    assert!(matches!(dec_cmp(&d, &e), Cmp::Eq));
}

#[test]
fn clone_copies_fields() {
    let a = dec_from_str("-12.5").unwrap();
    let b = dec_clone(&a);
    assert_eq!(a.neg, b.neg);
    assert_eq!(a.mag, b.mag);
    assert_eq!(a.scale, b.scale);
}
