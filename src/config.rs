//! User configuration: target currencies, database location, rate services.

use vstd::prelude::*;

use crate::currency::{existing_from_iso, lookup_by_iso, Currency, CurrencyView};

verus! {

/// Keys for <https://www.currencyconverterapi.com/>.
pub struct CurrencyConverterApiCom {
    pub key: String,
}

impl Default for CurrencyConverterApiCom {
    fn default() -> (r: CurrencyConverterApiCom)
        ensures
            r.key@ == Seq::<char>::empty(),
    {
        CurrencyConverterApiCom { key: String::new() }
    }
}

/// Keys for <https://exchangeratesapi.io/>.
pub struct ExchangeRatesApiIo {
    /// API key, if any
    key: String,
}

impl ExchangeRatesApiIo {
    /// Settings with the given key.
    pub fn new(key: String) -> (r: ExchangeRatesApiIo)
        ensures
            r.key()@ == key@,
    {
        ExchangeRatesApiIo { key }
    }

    pub closed spec fn key(&self) -> String {
        self.key
    }

    /// The API key.
    pub fn api_key(&self) -> (r: &str)
        ensures
            r@ == self.key()@,
    {
        self.key.as_str()
    }
}

impl Default for ExchangeRatesApiIo {
    fn default() -> (r: ExchangeRatesApiIo)
        ensures
            r.key()@ == Seq::<char>::empty(),
    {
        ExchangeRatesApiIo { key: String::new() }
    }
}

/// Settings of the services that give exchange rates.
pub struct Apis {
    pub currency_converter_api_com: CurrencyConverterApiCom,
    pub exchange_rates_api_io: ExchangeRatesApiIo,
}

impl Default for Apis {
    fn default() -> (r: Apis)
        ensures
            r.currency_converter_api_com.key@ == Seq::<char>::empty(),
            r.exchange_rates_api_io.key()@ == Seq::<char>::empty(),
    {
        Apis {
            currency_converter_api_com: CurrencyConverterApiCom::default(),
            exchange_rates_api_io: ExchangeRatesApiIo::default(),
        }
    }
}

/// Configuration file.
pub struct Config {
    /// Version of the configuration file
    version: u8,
    /// ISO codes of the currencies to convert to
    currencies: Vec<String>,
    /// Path of the database; `~` is not expanded
    db_path: String,
    /// Services that give exchange rates
    apis: Apis,
}

/// Views of a list of strings.
pub open spec fn strings_view(v: Seq<String>) -> Seq<Seq<char>> {
    v.map_values(|s: String| s@)
}

impl Config {
    /// The default configuration, with the database at `db_path`: version
    /// 0, conversions to EUR, USD and GBP.
    pub fn with_db_path(db_path: String) -> (r: Config)
        ensures
            r.version_spec() == 0,
            strings_view(r.currencies_spec()@) == seq!["EUR"@, "USD"@, "GBP"@],
            r.db_path_spec()@ == db_path@,
    {
        let currencies = vec![String::from_str("EUR"), String::from_str("USD"), String::from_str("GBP")];
        let r = Config { version: 0, currencies, db_path, apis: Apis::default() };
        assert(strings_view(r.currencies@) =~= seq!["EUR"@, "USD"@, "GBP"@]);
        r
    }

    /// A configuration from its fields.
    pub fn from_parts(version: u8, currencies: Vec<String>, db_path: String, apis: Apis) -> (r: Config)
        ensures
            r.version_spec() == version,
            r.currencies_spec() == currencies,
            r.db_path_spec() == db_path,
            r.apis_spec() == apis,
    {
        Config { version, currencies, db_path, apis }
    }

    pub closed spec fn version_spec(&self) -> u8 {
        self.version
    }

    pub closed spec fn currencies_spec(&self) -> Vec<String> {
        self.currencies
    }

    pub closed spec fn apis_spec(&self) -> Apis {
        self.apis
    }

    /// Settings of the rate services.
    pub fn apis(&self) -> (r: &Apis)
        ensures
            *r == self.apis_spec(),
    {
        &self.apis
    }

    pub closed spec fn db_path_spec(&self) -> String {
        self.db_path
    }

    /// Version of the configuration file.
    pub fn file_version(&self) -> (r: u8)
        ensures
            r == self.version_spec(),
    {
        self.version
    }

    /// Path of the database.
    pub fn db_path(&self) -> (r: &String)
        ensures
            *r == self.db_path_spec(),
    {
        &self.db_path
    }

    /// ISO codes of the currencies to convert to.
    pub fn currencies(&self) -> (r: &Vec<String>)
        ensures
            *r == self.currencies_spec(),
    {
        &self.currencies
    }
}

/// The known currencies named by `isos`, in order; the codes of no known
/// currency are left out.
pub open spec fn known_currencies(isos: Seq<Seq<char>>) -> Seq<CurrencyView>
    decreases isos.len(),
{
    if isos.len() == 0 {
        seq![]
    } else {
        let rest = known_currencies(isos.drop_last());
        match lookup_by_iso(isos.last()) {
            Some(c) => rest.push(c),
            None => rest,
        }
    }
}

/// The known currencies named by the ISO codes `isos`, in order; unknown
/// codes are left out.
pub fn destination_currencies(isos: &Vec<String>) -> (r: Vec<Currency>)
    ensures
        r@.map_values(|c: Currency| c@) == known_currencies(strings_view(isos@)),
{
    let ghost iv = strings_view(isos@);
    let mut out: Vec<Currency> = Vec::new();
    let mut i: usize = 0;
    while i < isos.len()
        invariant
            i <= isos@.len(),
            iv == strings_view(isos@),
            out@.map_values(|c: Currency| c@) == known_currencies(iv.take(i as int)),
        decreases isos.len() - i,
    {
        assert(iv.take(i + 1).drop_last() =~= iv.take(i as int));
        assert(iv.take(i + 1).last() == isos@[i as int]@);
        let ghost prev = out@.map_values(|c: Currency| c@);
        match existing_from_iso(isos[i].as_str()) {
            Some(c) => {
                out.push(c);
                assert(out@.map_values(|c: Currency| c@) =~= prev.push(c@));
            },
            None => {},
        }
        i = i + 1;
    }
    assert(iv.take(isos@.len() as int) =~= iv);
    out
}

} // verus!
