use sesters::amount::Amount;
use sesters::config::{destination_currencies, Config};
use sesters::convert::{conversion_lines, conversions_to_string};
use sesters::currency::{eur, gbp, usd, PriceTag};
use sesters::rate::Rate;
use sesters::api::{pair, CurrencyConverterApiCom, ExchangeRatesApiIo};

#[test]
fn conversions_string_test() {
    let multiple_groups = vec![
        vec![
            String::from("GBP 15.00 ➜ EUR 17.64"),
            String::from("GBP 15.00 ➜ USD 20.42"),
        ],
        vec![String::from("EUR 12.00 ➜ USD 13.89")],
        vec![String::from("USD 15.00 ➜ EUR 12.96")],
    ];

    assert_eq!(
        conversions_to_string(&multiple_groups),
        "\
GBP 15.00 ➜ EUR 17.64
GBP 15.00 ➜ USD 20.42

EUR 12.00 ➜ USD 13.89

USD 15.00 ➜ EUR 12.96\
    "
    )
}

#[test]
fn no_conversion_found() {
    assert_eq!(conversions_to_string(&vec![]), "No currency found.");
}

#[test]
fn lines_for_each_rate() {
    let p = PriceTag::new(&gbp(), Amount::new(15, 0));
    let rates = vec![
        Rate::new(&gbp(), &eur(), Amount::new(1176, 3), String::from("t")),
        Rate::parity(&gbp()),
        Rate::new(&usd(), &eur(), Amount::new(2, 0), String::from("t")),
        Rate::new(&gbp(), &usd(), Amount::new(13613, 4), String::from("t")),
    ];
    assert_eq!(
        conversion_lines(&p, &rates),
        vec![
            String::from("GBP 15.00 ➜ EUR 17.64"),
            String::from("GBP 15.00 ➜ USD 20.42"),
        ]
    );
}

#[test]
fn destination_currencies_skip_unknown_codes() {
    let isos = vec![String::from("EUR"), String::from("XYZ"), String::from("usd"), String::from("GBP")];
    assert_eq!(destination_currencies(&isos), vec![eur(), gbp()]);
    let cfg = Config::with_db_path(String::from("/tmp/db.sqlite3"));
    assert_eq!(destination_currencies(cfg.currencies()), vec![eur(), usd(), gbp()]);
    assert_eq!(cfg.db_path(), "/tmp/db.sqlite3");
    assert_eq!(cfg.file_version(), 0);
}

#[test]
fn rate_services() {
    let cfg = Config::with_db_path(String::from("db"));
    let a = CurrencyConverterApiCom::new(&cfg);
    assert_eq!(pair(&usd(), &eur()), "USD_EUR");
    let q = a.rate_query(&usd(), &eur());
    assert_eq!(q.url(), "https://free.currencyconverterapi.com/api/v6/convert");
    assert_eq!(
        q.params(),
        &vec![
            (String::from("q"), String::from("USD_EUR")),
            (String::from("compact"), String::from("ultra"))
        ]
    );
    let r = a.treat_result("0.9123", &usd(), &eur()).unwrap();
    assert_eq!(r.rate(), Amount::new(9123, 4));
    assert_eq!(r.provider(), "currencyconverterapi.com");
    assert!(a.treat_result("abc", &usd(), &eur()).is_none());
    let b = ExchangeRatesApiIo::new(&cfg);
    let q = b.rate_query(&gbp(), &eur());
    assert_eq!(q.url(), "https://api.exchangeratesapi.io/latest");
    assert_eq!(q.params(), &vec![(String::from("base"), String::from("GBP"))]);
    assert_eq!(b.provider_id(), "exchangeratesapi.io");
    assert_eq!(*b.treat_result("1.5", &gbp(), &eur()).unwrap().dst(), eur());
}
