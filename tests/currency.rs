use sesters::amount::Amount;
use sesters::currency::{
    all_currencies, btc, chf, eur, existing_from_iso, gbp, jpy, usd, ConversionErrorKind, Currency,
    Pos, PriceTag,
};
use sesters::rate::Rate;

#[test]
fn static_currency_check() {
    for c in all_currencies().iter() {
        assert!(c.check());
    }
}

#[test]
fn static_currency_iso() {
    for c in all_currencies().iter() {
        assert_eq!(existing_from_iso(c.get_main_iso()), Some(*c));
    }
    assert_eq!(existing_from_iso("___"), None);
}

#[test]
fn registry_holds_the_six_currencies() {
    let isos: Vec<&str> = all_currencies().iter().map(|c| c.get_main_iso()).collect();
    assert_eq!(isos, vec!["BTC", "USD", "EUR", "GBP", "CHF", "JPY"]);
    assert_eq!(existing_from_iso("CHF"), Some(chf()));
    assert_eq!(existing_from_iso("JPY"), Some(jpy()));
    assert_eq!(existing_from_iso("XBT"), None);
    assert_eq!(existing_from_iso("usd"), None);
    assert_eq!(existing_from_iso(""), None);
}

#[test]
fn currency_fields() {
    let b = btc();
    assert_eq!(b.isos(), &["BTC", "XBT"]);
    assert_eq!(b.symbols(), &["₿", "฿", "Ƀ"]);
    assert_eq!(b.names(), &["Bitcoin"]);
    assert_eq!(b.pos(), Pos::After);
    assert_eq!(usd().pos(), Pos::Before);
    assert_eq!(Pos::default(), Pos::After);
    let c = Currency::new(&["x"], &["XXX"], &["Test"], Pos::Before);
    assert!(c.check());
    assert_eq!(c.get_main_iso(), "XXX");
    assert!(c != usd());
    assert!(eur() == eur());
}

#[test]
fn price_tag_renders_two_decimals() {
    assert_eq!(PriceTag::new(&eur(), Amount::new(15, 0)).to_string(), "EUR 15.00");
    assert_eq!(PriceTag::new(&usd(), Amount::new(135, 1)).to_string(), "USD 13.50");
    assert_eq!(PriceTag::new(&usd(), Amount::new(-12, 0)).to_string(), "USD -12.00");
    assert_eq!(PriceTag::new(&gbp(), Amount::new(176445, 4)).to_string(), "GBP 17.64");
    assert_eq!(PriceTag::new(&gbp(), Amount::new(176455, 4)).to_string(), "GBP 17.65");
    assert_eq!(PriceTag::new(&gbp(), Amount::new(1125, 3)).to_string(), "GBP 1.12");
    assert_eq!(PriceTag::new(&gbp(), Amount::new(1135, 3)).to_string(), "GBP 1.14");
    assert_eq!(PriceTag::new(&jpy(), Amount::new(0, 0)).to_string(), "JPY 0.00");
    assert_eq!(PriceTag::new(&btc(), Amount::new(12345678, 4)).to_string(), "BTC 1234.57");
}

#[test]
fn convert_multiplies_by_the_rate() {
    let p = PriceTag::new(&gbp(), Amount::new(15, 0));
    let r = Rate::new(&gbp(), &eur(), Amount::new(1176, 3), String::from("test"));
    let q = p.convert(&r).unwrap();
    assert_eq!(*q.currency(), eur());
    assert_eq!(q.amount(), Amount::new(1764, 2));
    assert_eq!(q.to_string(), "EUR 17.64");
}

#[test]
fn convert_rejects_another_currency() {
    let p = PriceTag::new(&usd(), Amount::new(15, 0));
    let r = Rate::new(&gbp(), &eur(), Amount::new(1176, 3), String::from("test"));
    let e = p.convert(&r).unwrap_err();
    assert_eq!(e.error_kind(), ConversionErrorKind::CurrencyMismatch);
    assert_eq!(*e.failed_price_tag(), p);
    assert_eq!(*e.failed_rate().src(), gbp());
}

#[test]
fn convert_reports_overflow() {
    let p = PriceTag::new(&usd(), Amount::new(i128::MAX, 0));
    let r = Rate::new(&usd(), &eur(), Amount::new(3, 0), String::from("test"));
    assert_eq!(p.convert(&r).unwrap_err().error_kind(), ConversionErrorKind::Overflow);
}

#[test]
fn parity_keeps_the_amount() {
    let p = PriceTag::new(&chf(), Amount::new(-25, 1));
    let r = Rate::parity(&chf());
    assert_eq!(r.provider(), "PARITY");
    assert_eq!(p.convert(&r).unwrap(), p);
}
