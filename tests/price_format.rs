use sesters::amount::Amount;
use sesters::price_format::{parse_decimal, PriceFormat, PriceFormatError};

fn first_price(format: &PriceFormat, s: &str) -> Amount {
    format.captures_iter(s)[0].price()
}

#[test]
fn separator_duplicated_thousand_decimal() {
    assert!(PriceFormat::new(vec![',', '.'], vec!['.', ' ']).is_err());
}

#[test]
fn separators_must_be_disjoint() {
    assert_eq!(
        PriceFormat::new(vec![',', '.'], vec!['.', ' ']).unwrap_err(),
        PriceFormatError::SharedSeparator('.')
    );
    assert!(PriceFormat::new(vec![' '], vec![',', '.']).is_ok());
    assert!(PriceFormat::new(vec![], vec![]).is_ok());
    assert!(PriceFormat::new(vec!['\''], vec![',']).is_ok());
    assert_eq!(
        PriceFormat::new(vec!['5'], vec![',']).unwrap_err(),
        PriceFormatError::InvalidSeparator('5')
    );
    assert_eq!(
        PriceFormat::new(vec!['-'], vec![',']).unwrap_err(),
        PriceFormatError::InvalidSeparator('-')
    );
}

fn matches_whole(format: &PriceFormat, s: &str) -> bool {
    let ms = format.captures_iter(s);
    !ms.is_empty() && ms[0].start() == 0
}

#[test]
fn match_price_format_fr() {
    for s in ["1000", "345,12", "-10000", "-10 000,87", "189.13487"] {
        assert!(matches_whole(&PriceFormat::fr(), s), "{}", s);
    }
}

#[test]
fn match_price_format_us() {
    for s in ["1000", "345.12", "10000", "10,000.87", "189.13487"] {
        assert!(matches_whole(&PriceFormat::us(), s), "{}", s);
    }
}

#[test]
fn match_price_format_common() {
    for s in [
        "1000", "345.12", "10000", "10,000.87", "189.13487", "10 00", "3.4.5,12", "-10 0 00",
        "10 000,87",
    ] {
        assert!(matches_whole(&PriceFormat::common(), s), "{}", s);
    }
}

#[test]
fn extract_number_common() {
    let c = PriceFormat::common();
    let cases: Vec<(&str, i128, u32)> = vec![
        ("1000", 1000, 0),
        ("100", 100, 0),
        ("10", 10, 0),
        ("1", 1, 0),
        ("100.01", 10001, 2),
        ("100,01", 10001, 2),
        ("-100.01", -10001, 2),
        ("- 100.01", -10001, 2),
        ("-300,03", -30003, 2),
        ("-20 000.02", -2000002, 2),
        ("-40 000,04", -4000004, 2),
        ("50 000,05", 5000005, 2),
        ("7 00 0 00 0,0 7", 700000007, 2),
        ("-5 00 0 00 0,0 5", -500000005, 2),
    ];
    for (s, m, scale) in cases {
        assert_eq!(first_price(&c, s), Amount::new(m, scale), "{}", s);
    }
}

#[test]
fn spans_are_in_characters() {
    let c = PriceFormat::common();
    let ms = c.captures_iter("€€ 12 and -3,5");
    assert_eq!(ms.len(), 2);
    assert_eq!((ms[0].start(), ms[0].end()), (3, 6));
    assert_eq!(ms[0].price(), Amount::new(12, 0));
    assert_eq!((ms[1].start(), ms[1].end()), (10, 14));
    assert_eq!(ms[1].price(), Amount::new(-35, 1));
}

#[test]
fn scan_edge_cases() {
    let c = PriceFormat::common();
    assert!(c.captures_iter("").is_empty());
    assert!(c.captures_iter("no digits - here").is_empty());
    let ms = c.captures_iter("1.5.6");
    assert_eq!(ms.len(), 2);
    assert_eq!(ms[0].price(), Amount::new(15, 1));
    assert_eq!(ms[1].price(), Amount::new(6, 0));
    let ms = c.captures_iter("12..50");
    assert_eq!(ms[0].price(), Amount::new(125, 1));
    let ms = c.captures_iter("99999999999999999999999999999999999999999 7");
    assert_eq!(ms.len(), 0);
    let ms = c.captures_iter("1.000000000000000000000000000000000000000000000");
    assert_eq!(ms[0].price(), Amount::new(1, 0));
}

#[test]
fn plain_decimals() {
    assert_eq!(parse_decimal("1.1763"), Some(Amount::new(11763, 4)));
    assert_eq!(parse_decimal("-2"), Some(Amount::new(-2, 0)));
    assert_eq!(parse_decimal("1 000"), None);
    assert_eq!(parse_decimal("1e-7"), None);
    assert_eq!(parse_decimal(""), None);
}
