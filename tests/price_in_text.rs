use std::cmp::Ordering;

use sesters::amount::Amount;
use sesters::currency::{btc, eur, usd, Currency, PriceTag};
use sesters::price_format::PriceFormat;
use sesters::price_in_text::{Engine, EngineBuilder, PriceTagMatch};

fn tag(c: Currency, m: i128, scale: u32) -> PriceTag {
    PriceTag::new(&c, Amount::new(m, scale))
}

fn test_iso_usd_then_with_other(
    txt: &str,
    exp1_usd: &Option<PriceTag>,
    exp2_eur: &Option<PriceTag>,
    exp3_btc: &Option<PriceTag>,
) {
    let exp = match (exp1_usd, exp2_eur, exp3_btc) {
        (Some(e), None, None) => Some(*e),
        (None, Some(e), None) => Some(*e),
        (None, None, Some(e)) => Some(*e),
        (None, None, None) => None,
        _ => panic!("More than one value is Some"),
    };
    let mut engine_builder = EngineBuilder::new();
    engine_builder.by_iso(true).by_symbol(false);
    fn iso_engine(engine_builder: &EngineBuilder, currencies: &[Currency]) -> Engine {
        engine_builder.clone().currencies(currencies).clone().fire().unwrap()
    }
    assert_eq!(
        iso_engine(&engine_builder, &[usd()]).all_price_tags(txt).first(),
        exp1_usd.as_ref()
    );
    assert_eq!(
        iso_engine(&engine_builder, &[eur()]).all_price_tags(txt).first(),
        exp2_eur.as_ref()
    );
    assert_eq!(
        iso_engine(&engine_builder, &[btc()]).all_price_tags(txt).first(),
        exp3_btc.as_ref()
    );
    assert_eq!(
        iso_engine(&engine_builder, &[usd(), eur(), btc()])
            .all_price_tags(txt)
            .first()
            .cloned(),
        exp
    );
}

#[test]
fn iso_empty_string() {
    test_iso_usd_then_with_other(&format!(""), &None, &None, &None);
}

#[test]
fn iso_none() {
    test_iso_usd_then_with_other(&format!("13"), &None, &None, &None);
}

#[test]
fn iso_none_before() {
    test_iso_usd_then_with_other(&format!("OOO 13"), &None, &None, &None);
}

#[test]
fn iso_none_after() {
    test_iso_usd_then_with_other(&format!("13 OOO"), &None, &None, &None);
}

#[test]
fn iso_eur_before() {
    let currency_amount = Some(tag(eur(), 15, 0));
    test_iso_usd_then_with_other("EUR 15", &None, &currency_amount, &None);
}

#[test]
fn iso_before() {
    let currency_amount = Some(tag(usd(), 13, 0));
    test_iso_usd_then_with_other("USD 13", &currency_amount, &None, &None);
}

#[test]
fn iso_before_float() {
    let currency_amount = Some(tag(usd(), 135, 1));
    test_iso_usd_then_with_other("USD 13.5", &currency_amount, &None, &None);
}

#[test]
fn iso_before_null_amount() {
    let currency_amount = Some(tag(usd(), 0, 0));
    test_iso_usd_then_with_other(&format!("USD 0"), &currency_amount, &None, &None);
}

#[test]
fn iso_before_negative_amount() {
    let currency_amount = Some(tag(usd(), -12, 0));
    test_iso_usd_then_with_other(&format!("USD -12"), &currency_amount, &None, &None);
}

#[test]
fn single_currency_engine_finds_one_tag() {
    let mut b = EngineBuilder::new();
    b.currencies(&[eur()]);
    let engine = b.fire().unwrap();
    assert_eq!(engine.all_price_tags("EUR 15"), vec![tag(eur(), 15, 0)]);
}

fn check_spaces(txt: &str, pt: PriceTag) {
    let engine = Engine::new().unwrap();
    assert_eq!(*engine.all_price_tags(&txt.to_uppercase()).first().unwrap(), pt);
    assert_eq!(*engine.all_price_tags(&txt.to_lowercase()).first().unwrap(), pt);
    assert_eq!(*engine.all_price_tags(txt).first().unwrap(), pt);
}

#[test]
fn spaces() {
    for txt in ["1234 EUR", "EUR 1234", "1234%EUR", "EUR%1234", "1234EUR", "EUR1234", "1234 €", "1234€"] {
        check_spaces(txt, tag(eur(), 1234, 0));
    }
}

#[test]
fn spaces_comma() {
    let engine = Engine::new().unwrap();
    for txt in [
        "1234,5678 EUR",
        "EUR 1234,5678",
        "1234,5678%EUR",
        "EUR%1234,5678",
        "1234,5678EUR",
        "EUR1234,5678",
        "1234,5678 €",
        "1234,5678€",
    ] {
        assert_eq!(*engine.all_price_tags(txt).first().unwrap(), tag(eur(), 12345678, 4), "{}", txt);
    }
}

#[test]
fn multiline() {
    let engine = Engine::new().unwrap();
    for txt in [
        "1234,5678\nEUR",
        "EUR\n1234,5678",
        "some long text\n Lorem ipsum dolor sit amet, consectetur adipisicing elit, sed do eiusmod tempor incididunt ut labore et dolore magna aliqua. Ut enim ad minim veniam, quis nostrud exercitation ullamco laboris nisi ut aliquip ex ea commodo consequat.  \n1234,5678\nEUR\n Lorem ipsum dolor sit amet, consectetur adipisicing elit, sed do eiusmod tempor incididunt ut labore et dolore magna aliqua.",
        "1234,5678\n€",
        "€\n1234,5678",
    ] {
        assert_eq!(*engine.all_price_tags(txt).first().unwrap(), tag(eur(), 12345678, 4), "{}", txt);
    }
}

#[test]
fn gh_issue1_various_format() {
    let engine = Engine::new().unwrap();
    let cases = [
        ("12 USD", tag(usd(), 12, 0)),
        ("12 €", tag(eur(), 12, 0)),
        ("€ 32", tag(eur(), 32, 0)),
        ("EUR 4", tag(eur(), 4, 0)),
    ];
    for (txt, pt) in cases {
        assert_eq!(*engine.all_price_tags(txt).first().unwrap(), pt, "{}", txt);
    }
}

#[test]
fn case_insensitive_by_default() {
    let engine = Engine::new().unwrap();
    assert_eq!(engine.all_price_tags("12 eur"), vec![tag(eur(), 12, 0)]);
    assert_eq!(engine.all_price_tags("Eur 12"), vec![tag(eur(), 12, 0)]);
}

#[test]
fn case_sensitive_no_lowercase_iso() {
    for txt in ["12 usd", "12 eur", "usd 38", "eur 38"] {
        let mut engine_builder = EngineBuilder::new();
        engine_builder.case_insensitive(false);
        let engine = engine_builder.fire().unwrap();
        assert_eq!(engine.all_price_tags(txt), vec![], "{}", txt);
    }
}

#[test]
fn gh_issue1_ambiguous() {
    let pts = vec![tag(eur(), 12, 0), tag(usd(), 12, 0)];
    let engine = Engine::new().unwrap();
    assert_eq!(engine.all_price_tags("$ 12 €"), pts);
}

#[test]
fn multi_byte_symbol_like_ascii_code() {
    let mut b = EngineBuilder::new();
    b.currencies(&[eur()]);
    let engine = b.fire().unwrap();
    let by_symbol = engine.find("€€€ 5");
    let by_code = engine.find("EUR 5");
    assert_eq!(by_symbol.len(), 3);
    assert_eq!(by_code.len(), 1);
    assert_eq!(by_symbol[0].distance(), 1);
    assert_eq!(by_code[0].distance(), 1);
    assert_eq!(by_symbol[0].price_tag(), by_code[0].price_tag());
    let far = engine.find("€ 0123456789 5");
    assert!(far.iter().all(|m| m.distance() <= 10));
}

#[test]
fn window_limits_pairing() {
    let mut b = EngineBuilder::new();
    b.currencies(&[usd()]).window(3);
    let engine = b.fire().unwrap();
    assert_eq!(engine.all_price_tags("USD    12"), vec![]);
    assert_eq!(engine.all_price_tags("USD  12"), vec![tag(usd(), 12, 0)]);
    assert_eq!(engine.window_size(), 3);
}

#[test]
fn top_price_tags_truncates() {
    let engine = Engine::new().unwrap();
    assert_eq!(engine.top_price_tags(1, "$ 12 €"), vec![tag(eur(), 12, 0)]);
    assert_eq!(engine.top_price_tags(0, "$ 12 €"), vec![]);
    assert_eq!(engine.top_price_tags(5, "$ 12 €").len(), 2);
}

#[test]
fn ranking_prefers_near_then_expected_order() {
    let mut b = EngineBuilder::new();
    b.currencies(&[usd()]);
    let engine = b.fire().unwrap();
    // The number before the code is at distance 0, in the order that USD
    // expects; the one after it is at distance 1.
    let ms = engine.find("3 USD 7");
    assert_eq!(ms.len(), 2);
    assert_eq!(ms[0].price_tag(), tag(usd(), 3, 0));
    assert!(ms[0].correct_symbol_order());
    assert_eq!(ms[1].price_tag(), tag(usd(), 7, 0));
    assert!(!ms[1].correct_symbol_order());
}

#[test]
fn given_token_spans_are_paired() {
    let mut b = EngineBuilder::new();
    b.currencies(&[usd(), eur()]).price(PriceFormat::us());
    let engine = b.fire().unwrap();
    // "é" takes two bytes: the token at bytes 2..4 is the character 2.
    let text = "1 é 2";
    let tokens = vec![vec![], vec![(2, 4)]];
    let ms = engine.price_tag_matches_with(text, &tokens);
    assert_eq!(ms.len(), 2);
    assert_eq!(ms[0].price_tag(), tag(eur(), 1, 0));
    assert_eq!(ms[0].distance(), 0);
    assert_eq!(ms[1].price_tag(), tag(eur(), 2, 0));
    // A span that does not fall between characters is left out.
    let ms = engine.price_tag_matches_with(text, &vec![vec![(3, 4)], vec![]]);
    assert!(ms.is_empty());
}

#[test]
fn right_partial_ordering_array() {
    let (e, u, b) = (eur(), usd(), btc());
    let m = |a: i128, c: &Currency, d: usize, o: bool| PriceTagMatch::new(Amount::new(a, 0), c, d, o);
    let v = vec![
        m(1, &e, 0, true),
        m(1, &u, 0, true),
        m(3, &u, 0, true),
        m(3, &e, 0, true),
        m(-1, &e, 0, true),
        m(-1, &b, 0, true),
        m(1, &e, 0, false),
        m(1, &u, 0, false),
        m(3, &u, 0, false),
        m(3, &e, 0, false),
        m(-1, &e, 0, false),
        m(-1, &b, 0, false),
        m(1, &e, 1, true),
        m(1, &u, 1, true),
        m(3, &u, 1, true),
        m(3, &e, 1, true),
        m(-1, &e, 1, true),
        m(-1, &b, 1, true),
        m(1, &e, 1, false),
        m(1, &u, 1, false),
        m(3, &u, 1, false),
        m(3, &e, 1, false),
        m(-1, &e, 1, false),
        m(-1, &b, 1, false),
    ];
    for i in 0..v.len() - 1 {
        assert!(v[i] < v[i + 1] || (!(v[i] > v[i + 1] && v[i] != v[i + 1])));
        assert!(v[i] == v[i]);
    }
}

#[test]
fn right_partial_ordering() {
    let e = eur();
    let a1 = PriceTagMatch::new(Amount::new(1, 0), &e, 0, true);
    assert_eq!(a1.partial_cmp(&a1.clone()), Some(Ordering::Equal));
    let a2 = PriceTagMatch::new(Amount::new(1, 0), &e, 0, true);
    let a3 = PriceTagMatch::new(Amount::new(3, 0), &e, 0, true);
    assert_eq!(a1.partial_cmp(&a1), Some(Ordering::Equal));
    assert_eq!(a1.partial_cmp(&a2), Some(Ordering::Equal));
    assert_eq!(a1.partial_cmp(&a3), None);

    let a4 = PriceTagMatch::new(Amount::new(3, 0), &e, 1, true);
    assert_eq!(a4.partial_cmp(&a3), Some(Ordering::Greater));
    assert_eq!(a3.partial_cmp(&a4), Some(Ordering::Less));

    let a5 = PriceTagMatch::new(Amount::new(3, 0), &e, 1, false);
    assert_eq!(a4.partial_cmp(&a5), Some(Ordering::Less));
    assert_eq!(a5.partial_cmp(&a4), Some(Ordering::Greater));
}
