//! The services that give exchange rates: what to ask them, and how to read
//! their answer once the rate is taken out of it.

use vstd::prelude::*;

use crate::config::Config;
use crate::currency::{Currency, CurrencyView};
use crate::price_format::{parse_decimal, parse_decimal_spec};
use crate::rate::{Rate, RateView};
use crate::text::{chars_of, string_of};

verus! {

/// A request to a rate service: an address and its query parameters.
pub struct RateQuery {
    url: String,
    params: Vec<(String, String)>,
}

/// Views of query parameters.
pub open spec fn params_view(v: Seq<(String, String)>) -> Seq<(Seq<char>, Seq<char>)> {
    v.map_values(|p: (String, String)| (p.0@, p.1@))
}

impl RateQuery {
    pub closed spec fn url_spec(&self) -> Seq<char> {
        self.url@
    }

    pub closed spec fn params_spec(&self) -> Seq<(Seq<char>, Seq<char>)> {
        params_view(self.params@)
    }

    /// Address of the service.
    pub fn url(&self) -> (r: &str)
        ensures
            r@ == self.url_spec(),
    {
        self.url.as_str()
    }

    /// Query parameters, name and value.
    pub fn params(&self) -> (r: &Vec<(String, String)>)
        ensures
            params_view(r@) == self.params_spec(),
    {
        &self.params
    }
}

/// `SRC_DST`, from the canonical ISO codes of two currencies.
pub open spec fn pair_spec(src: CurrencyView, dst: CurrencyView) -> Seq<char> {
    src.main_iso() + seq!['_'] + dst.main_iso()
}

/// The name of the pair of currencies `src` to `dst`, like `USD_EUR`.
pub fn pair(src: &Currency, dst: &Currency) -> (r: String)
    ensures
        r@ == pair_spec(src@, dst@),
{
    let mut v = chars_of(src.get_main_iso());
    v.push('_');
    let mut d = chars_of(dst.get_main_iso());
    v.append(&mut d);
    string_of(&v)
}

/// For <https://currencyconverterapi.com>.
pub struct CurrencyConverterApiCom {
    /// API key, if any
    key: String,
}

impl CurrencyConverterApiCom {
    /// The service, without a key.
    pub fn new(_config: &Config) -> (r: CurrencyConverterApiCom)
        ensures
            r.key_spec() == Seq::<char>::empty(),
    {
        CurrencyConverterApiCom { key: String::new() }
    }

    pub closed spec fn key_spec(&self) -> Seq<char> {
        self.key@
    }

    /// Identifier of the service.
    pub fn provider_id(&self) -> (r: String)
        ensures
            r@ == "currencyconverterapi.com"@,
    {
        String::from_str("currencyconverterapi.com")
    }

    /// The request for the rate from `src` to `dst`.
    pub fn rate_query(&self, src: &Currency, dst: &Currency) -> (r: RateQuery)
        ensures
            r.url_spec() == "https://free.currencyconverterapi.com/api/v6/convert"@,
            r.params_spec() == seq![("q"@, pair_spec(src@, dst@)), ("compact"@, "ultra"@)],
    {
        let params = vec![
            (String::from_str("q"), pair(src, dst)),
            (String::from_str("compact"), String::from_str("ultra")),
        ];
        let r = RateQuery {
            url: String::from_str("https://free.currencyconverterapi.com/api/v6/convert"),
            params,
        };
        assert(params_view(r.params@) =~= seq![("q"@, pair_spec(src@, dst@)), ("compact"@, "ultra"@)]);
        r
    }

    /// The rate from `src` to `dst`, given the number that the service
    /// answered for the pair, written as a plain decimal number.
    pub fn treat_result(&self, rate_text: &str, src: &Currency, dst: &Currency) -> (r: Option<Rate>)
        ensures
            r is Some <==> parse_decimal_spec(rate_text@) is Some,
            r matches Some(rate) ==> rate@ == (RateView {
                src: src@,
                dst: dst@,
                rate: parse_decimal_spec(rate_text@)->0,
                provider: "currencyconverterapi.com"@,
            }),
    {
        match parse_decimal(rate_text) {
            Some(a) => Some(Rate::new(src, dst, a, self.provider_id())),
            None => None,
        }
    }
}

/// For <https://exchangeratesapi.io/>.
pub struct ExchangeRatesApiIo {
    /// API key, if any
    key: String,
}

impl ExchangeRatesApiIo {
    /// The service, without a key.
    pub fn new(_config: &Config) -> (r: ExchangeRatesApiIo)
        ensures
            r.key_spec() == Seq::<char>::empty(),
    {
        ExchangeRatesApiIo { key: String::new() }
    }

    pub closed spec fn key_spec(&self) -> Seq<char> {
        self.key@
    }

    /// Identifier of the service.
    pub fn provider_id(&self) -> (r: String)
        ensures
            r@ == "exchangeratesapi.io"@,
    {
        String::from_str("exchangeratesapi.io")
    }

    /// The request for the rates from `src`; the service answers with the
    /// rates to every currency it knows.
    pub fn rate_query(&self, src: &Currency, _dst: &Currency) -> (r: RateQuery)
        ensures
            r.url_spec() == "https://api.exchangeratesapi.io/latest"@,
            r.params_spec() == seq![("base"@, src@.main_iso())],
    {
        let base = chars_of(src.get_main_iso());
        let params = vec![(String::from_str("base"), string_of(&base))];
        let r = RateQuery { url: String::from_str("https://api.exchangeratesapi.io/latest"), params };
        assert(params_view(r.params@) =~= seq![("base"@, src@.main_iso())]);
        r
    }

    /// The rate from `src` to `dst`, given the number that the service
    /// answered for `dst`, written as a plain decimal number.
    pub fn treat_result(&self, rate_text: &str, src: &Currency, dst: &Currency) -> (r: Option<Rate>)
        ensures
            r is Some <==> parse_decimal_spec(rate_text@) is Some,
            r matches Some(rate) ==> rate@ == (RateView {
                src: src@,
                dst: dst@,
                rate: parse_decimal_spec(rate_text@)->0,
                provider: "exchangeratesapi.io"@,
            }),
    {
        match parse_decimal(rate_text) {
            Some(a) => Some(Rate::new(src, dst, a, self.provider_id())),
            None => None,
        }
    }
}

} // verus!
