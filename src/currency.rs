//! Currencies, the registry of known ones, and price tags.

use vstd::prelude::*;

use crate::amount::{normalize, render_2dp, Amount, AmountView, MAX_SCALE};
use crate::rate::Rate;
use crate::text::{chars_of, str_eq, string_of};

verus! {

/// Position of a currency's symbol against an amount.
#[derive(Debug, Clone, Copy, PartialEq, Eq, Structural)]
pub enum Pos {
    Before,
    After,
}

impl Default for Pos {
    fn default() -> (r: Pos)
        ensures
            r == Pos::After,
    {
        Pos::After
    }
}

/// What a currency is made of, as sequences of strings.
pub struct CurrencyView {
    pub symbols: Seq<Seq<char>>,
    pub isos: Seq<Seq<char>>,
    pub names: Seq<Seq<char>>,
    pub pos: Pos,
}

impl CurrencyView {
    /// Symbols, ISO codes and names are all non-empty lists.
    pub open spec fn wf(self) -> bool {
        self.symbols.len() > 0 && self.isos.len() > 0 && self.names.len() > 0
    }

    /// Canonical ISO code.
    pub open spec fn main_iso(self) -> Seq<char> {
        self.isos[0]
    }
}

/// Views of a list of strings.
pub open spec fn strs_view(s: Seq<&str>) -> Seq<Seq<char>> {
    s.map_values(|x: &str| x@)
}

/// A currency like the US dollar or the euro, with its symbols, ISO codes,
/// names and the usual position of its symbol.
#[derive(Debug, Clone, Copy)]
pub struct Currency {
    /// Symbols, like ₿, ฿ or Ƀ for Bitcoin
    symbols: &'static [&'static str],
    /// ISO 4217-like codes, the first one canonical, like BTC or XBT
    isos: &'static [&'static str],
    /// Human names
    names: &'static [&'static str],
    /// Where the symbol is displayed
    pos: Pos,
}

impl View for Currency {
    type V = CurrencyView;

    closed spec fn view(&self) -> CurrencyView {
        CurrencyView {
            symbols: strs_view(self.symbols@),
            isos: strs_view(self.isos@),
            names: strs_view(self.names@),
            pos: self.pos,
        }
    }
}

impl Currency {
    #[verifier::type_invariant]
    spec fn lists_non_empty(self) -> bool {
        self@.wf()
    }

    pub fn isos(&self) -> (r: &'static [&'static str])
        ensures
            strs_view(r@) == self@.isos,
    {
        self.isos
    }

    /// Canonical ISO code, like USD.
    pub fn get_main_iso(&self) -> (r: &'static str)
        ensures
            r@ == self@.main_iso(),
    {
        proof {
            use_type_invariant(self);
        }
        self.isos[0]
    }

    pub fn names(&self) -> (r: &'static [&'static str])
        ensures
            strs_view(r@) == self@.names,
    {
        self.names
    }

    pub fn symbols(&self) -> (r: &'static [&'static str])
        ensures
            strs_view(r@) == self@.symbols,
    {
        self.symbols
    }

    pub fn pos(&self) -> (r: Pos)
        ensures
            r == self@.pos,
    {
        self.pos
    }

    /// A currency from its lists, which must not be empty.
    pub fn new(
        symbols: &'static [&'static str],
        isos: &'static [&'static str],
        names: &'static [&'static str],
        pos: Pos,
    ) -> (r: Currency)
        requires
            symbols@.len() > 0,
            isos@.len() > 0,
            names@.len() > 0,
        ensures
            r@ == (CurrencyView {
                symbols: strs_view(symbols@),
                isos: strs_view(isos@),
                names: strs_view(names@),
                pos,
            }),
    {
        Currency { symbols, isos, names, pos }
    }

    /// Whether no list of the currency is empty.
    pub fn check(&self) -> (r: bool)
        ensures
            r == self@.wf(),
    {
        self.symbols.len() > 0 && self.isos.len() > 0 && self.names.len() > 0
    }
}

/// Whether two lists of strings hold the same strings, in the same order.
fn strs_eq(a: &[&str], b: &[&str]) -> (r: bool)
    ensures
        r == (strs_view(a@) == strs_view(b@)),
{
    if a.len() != b.len() {
        assert(strs_view(a@).len() != strs_view(b@).len());
        return false;
    }
    let mut i: usize = 0;
    while i < a.len()
        invariant
            i <= a@.len(),
            a@.len() == b@.len(),
            forall|k: int| 0 <= k < i ==> a@[k]@ == b@[k]@,
        decreases a.len() - i,
    {
        if !str_eq(a[i], b[i]) {
            assert(strs_view(a@)[i as int] != strs_view(b@)[i as int]);
            return false;
        }
        i = i + 1;
    }
    assert(strs_view(a@) =~= strs_view(b@));
    true
}

impl PartialEq for Currency {
    fn eq(&self, other: &Currency) -> (r: bool) {
        let r = self.pos == other.pos && strs_eq(self.symbols, other.symbols) && strs_eq(
            self.isos,
            other.isos,
        ) && strs_eq(self.names, other.names);
        r
    }
}

impl vstd::std_specs::cmp::PartialEqSpecImpl for Currency {
    open spec fn obeys_eq_spec() -> bool {
        true
    }

    open spec fn eq_spec(&self, other: &Currency) -> bool {
        self@ == other@
    }
}

/// Bitcoin.
pub fn btc() -> (r: Currency)
    ensures
        r@ == btc_spec(),
{
    let r = Currency {
        symbols: &["₿", "฿", "Ƀ"],
        isos: &["BTC", "XBT"],
        names: &["Bitcoin"],
        pos: Pos::After,
    };
    assert(r@.symbols =~= btc_spec().symbols);
    assert(r@.isos =~= btc_spec().isos);
    assert(r@.names =~= btc_spec().names);
    r
}

/// What [`btc`] returns.
pub open spec fn btc_spec() -> CurrencyView {
    CurrencyView {
        symbols: seq!["₿"@, "฿"@, "Ƀ"@],
        isos: seq!["BTC"@, "XBT"@],
        names: seq!["Bitcoin"@],
        pos: Pos::After,
    }
}

/// United States dollar.
pub fn usd() -> (r: Currency)
    ensures
        r@ == usd_spec(),
{
    let r = Currency {
        symbols: &["$"],
        isos: &["USD"],
        names: &["United States dollar"],
        pos: Pos::Before,
    };
    assert(r@.symbols =~= usd_spec().symbols);
    assert(r@.isos =~= usd_spec().isos);
    assert(r@.names =~= usd_spec().names);
    r
}

/// What [`usd`] returns.
pub open spec fn usd_spec() -> CurrencyView {
    CurrencyView {
        symbols: seq!["$"@],
        isos: seq!["USD"@],
        names: seq!["United States dollar"@],
        pos: Pos::Before,
    }
}

/// Euro.
pub fn eur() -> (r: Currency)
    ensures
        r@ == eur_spec(),
{
    let r = Currency {
        symbols: &["€"],
        isos: &["EUR"],
        names: &["Euro"],
        pos: Pos::After,
    };
    assert(r@.symbols =~= eur_spec().symbols);
    assert(r@.isos =~= eur_spec().isos);
    assert(r@.names =~= eur_spec().names);
    r
}

/// What [`eur`] returns.
pub open spec fn eur_spec() -> CurrencyView {
    CurrencyView {
        symbols: seq!["€"@],
        isos: seq!["EUR"@],
        names: seq!["Euro"@],
        pos: Pos::After,
    }
}

/// Pound sterling.
pub fn gbp() -> (r: Currency)
    ensures
        r@ == gbp_spec(),
{
    let r = Currency {
        symbols: &["£"],
        isos: &["GBP"],
        names: &["Pound sterling"],
        pos: Pos::Before,
    };
    assert(r@.symbols =~= gbp_spec().symbols);
    assert(r@.isos =~= gbp_spec().isos);
    assert(r@.names =~= gbp_spec().names);
    r
}

/// What [`gbp`] returns.
pub open spec fn gbp_spec() -> CurrencyView {
    CurrencyView {
        symbols: seq!["£"@],
        isos: seq!["GBP"@],
        names: seq!["Pound sterling"@],
        pos: Pos::Before,
    }
}

/// Swiss franc.
pub fn chf() -> (r: Currency)
    ensures
        r@ == chf_spec(),
{
    let r = Currency {
        symbols: &["CHF", "Fr.", "SFr.", "Fr.sv.", "₣"],
        isos: &["CHF"],
        names: &["Swiss Franc"],
        pos: Pos::Before,
    };
    assert(r@.symbols =~= chf_spec().symbols);
    assert(r@.isos =~= chf_spec().isos);
    assert(r@.names =~= chf_spec().names);
    r
}

/// What [`chf`] returns.
pub open spec fn chf_spec() -> CurrencyView {
    CurrencyView {
        symbols: seq!["CHF"@, "Fr."@, "SFr."@, "Fr.sv."@, "₣"@],
        isos: seq!["CHF"@],
        names: seq!["Swiss Franc"@],
        pos: Pos::Before,
    }
}

/// Japanese yen.
pub fn jpy() -> (r: Currency)
    ensures
        r@ == jpy_spec(),
{
    let r = Currency {
        symbols: &["¥", "円", "圓"],
        isos: &["JPY"],
        names: &["Yen"],
        pos: Pos::Before,
    };
    assert(r@.symbols =~= jpy_spec().symbols);
    assert(r@.isos =~= jpy_spec().isos);
    assert(r@.names =~= jpy_spec().names);
    r
}

/// What [`jpy`] returns.
pub open spec fn jpy_spec() -> CurrencyView {
    CurrencyView {
        symbols: seq!["¥"@, "円"@, "圓"@],
        isos: seq!["JPY"@],
        names: seq!["Yen"@],
        pos: Pos::Before,
    }
}

/// The known currencies.
pub open spec fn registry() -> Seq<CurrencyView> {
    seq![btc_spec(), usd_spec(), eur_spec(), gbp_spec(), chf_spec(), jpy_spec()]
}

/// The known currency whose canonical ISO code is `code`, if any.
pub open spec fn lookup_by_iso(code: Seq<char>) -> Option<CurrencyView> {
    if exists|i: int| 0 <= i < registry().len() && registry()[i].main_iso() == code {
        Some(registry()[choose|i: int| 0 <= i < registry().len() && registry()[i].main_iso() == code])
    } else {
        None
    }
}

/// All known currencies, in the order of [`registry`].
pub fn all_currencies() -> (r: Vec<Currency>)
    ensures
        r@.len() == registry().len(),
        forall|i: int| 0 <= i < r@.len() ==> r@[i]@ == registry()[i],
{
    let r = vec![btc(), usd(), eur(), gbp(), chf(), jpy()];
    r
}

/// The canonical ISO codes of the known currencies start with different
/// letters, none of them `_`.
proof fn lemma_main_iso_first_letters()
    ensures
        forall|i: int| 0 <= i < registry().len() ==> registry()[i].main_iso().len() == 3,
        forall|i: int, j: int|
            0 <= i < registry().len() && 0 <= j < registry().len() && i != j
                ==> registry()[i].main_iso()[0] != registry()[j].main_iso()[0],
        forall|i: int| 0 <= i < registry().len() ==> registry()[i].main_iso()[0] != '_',
{
    reveal_strlit("BTC");
    reveal_strlit("USD");
    reveal_strlit("EUR");
    reveal_strlit("GBP");
    reveal_strlit("CHF");
    reveal_strlit("JPY");
}

/// Get a known currency from its canonical ISO code.
pub fn existing_from_iso(code: &str) -> (r: Option<Currency>)
    ensures
        r is Some <==> lookup_by_iso(code@) is Some,
        r matches Some(c) ==> lookup_by_iso(code@) == Some(c@),
{
    let all = all_currencies();
    let mut i: usize = 0;
    while i < all.len()
        invariant
            i <= all.len(),
            all@.len() == registry().len(),
            forall|k: int| 0 <= k < all@.len() ==> all@[k]@ == registry()[k],
            forall|k: int| 0 <= k < i ==> registry()[k].main_iso() != code@,
        decreases all.len() - i,
    {
        if str_eq(code, all[i].get_main_iso()) {
            proof {
                lemma_main_iso_first_letters();
                let k = choose|k: int| 0 <= k < registry().len() && registry()[k].main_iso() == code@;
                assert(k == i);
            }
            return Some(all[i]);
        }
        i = i + 1;
    }
    None
}

/// Every known currency is found again from its canonical ISO code, and
/// `___` names none of them.
pub proof fn lemma_lookup_by_iso()
    ensures
        forall|i: int|
            0 <= i < registry().len() ==> lookup_by_iso(#[trigger] registry()[i].main_iso())
                == Some(registry()[i]),
        lookup_by_iso("___"@) is None,
{
    lemma_main_iso_first_letters();
    reveal_strlit("___");
    assert forall|i: int| 0 <= i < registry().len() implies lookup_by_iso(
        #[trigger] registry()[i].main_iso(),
    ) == Some(registry()[i]) by {
        let code = registry()[i].main_iso();
        let k = choose|k: int| 0 <= k < registry().len() && registry()[k].main_iso() == code;
        assert(k == i);
    }
    assert forall|i: int| 0 <= i < registry().len() implies registry()[i].main_iso() != "___"@ by {
        assert("___"@[0] == '_');
    }
}

/// Every known currency has non-empty lists.
pub proof fn lemma_registry_wf()
    ensures
        forall|i: int| 0 <= i < registry().len() ==> #[trigger] registry()[i].wf(),
{
}

} // verus!

verus! {

/// An amount of a currency, as found in a text.
#[derive(Debug, Clone, Copy)]
pub struct PriceTag {
    currency: Currency,
    amount: Amount,
}

/// What a price tag holds, as values.
pub struct PriceTagView {
    pub currency: CurrencyView,
    pub amount: AmountView,
}

impl View for PriceTag {
    type V = PriceTagView;

    closed spec fn view(&self) -> PriceTagView {
        PriceTagView { currency: self.currency@, amount: self.amount@ }
    }
}

/// A price tag written as its canonical ISO code, a space and the amount
/// with two decimal places, like `EUR 12.50`.
pub open spec fn price_tag_text(p: PriceTagView) -> Seq<char> {
    p.currency.main_iso() + seq![' '] + render_2dp(p.amount)
}

/// Why a conversion failed.
#[derive(Debug, Clone, Copy, PartialEq, Eq, Structural)]
pub enum ConversionErrorKind {
    /// The price tag is not in the source currency of the rate.
    CurrencyMismatch,
    /// The converted amount does not fit.
    Overflow,
}

/// Error when converting a price tag with a rate; it records the rate and
/// the price tag.
#[derive(Debug, Clone, Copy)]
pub struct ConversionError<'a> {
    kind: ConversionErrorKind,
    rate: &'a Rate,
    price_tag: &'a PriceTag,
}

impl<'a> ConversionError<'a> {
    /// New conversion error.
    pub fn new(kind: ConversionErrorKind, rate: &'a Rate, price_tag: &'a PriceTag) -> (r: ConversionError<'a>)
        ensures
            r.kind() == kind,
            r.rate()@ == rate@,
            r.price_tag()@ == price_tag@,
    {
        ConversionError { kind, rate, price_tag }
    }

    pub closed spec fn kind(&self) -> ConversionErrorKind {
        self.kind
    }

    pub closed spec fn rate(&self) -> &'a Rate {
        self.rate
    }

    pub closed spec fn price_tag(&self) -> &'a PriceTag {
        self.price_tag
    }

    /// Why the conversion failed.
    pub fn error_kind(&self) -> (r: ConversionErrorKind)
        ensures
            r == self.kind(),
    {
        self.kind
    }

    /// The rate that could not be applied.
    pub fn failed_rate(&self) -> (r: &'a Rate)
        ensures
            r@ == self.rate()@,
    {
        self.rate
    }

    /// The price tag that could not be converted.
    pub fn failed_price_tag(&self) -> (r: &'a PriceTag)
        ensures
            r@ == self.price_tag()@,
    {
        self.price_tag
    }
}

impl PriceTag {
    /// An amount of `currency`.
    pub fn new(currency: &Currency, amount: Amount) -> (r: PriceTag)
        ensures
            r@ == (PriceTagView { currency: currency@, amount: amount@ }),
    {
        PriceTag { currency: *currency, amount }
    }

    /// Currency of the price tag.
    pub fn currency(&self) -> (r: &Currency)
        ensures
            r@ == self@.currency,
    {
        &self.currency
    }

    /// Amount of the price tag.
    pub fn amount(&self) -> (r: Amount)
        ensures
            r@ == self@.amount,
    {
        self.amount
    }

    /// Convert the amount, in the source currency of `rate`, to the
    /// destination currency of `rate`: the amount is multiplied by the rate.
    /// Fails when the price tag is in another currency than the source one,
    /// or when the product does not fit.
    pub fn convert<'a>(&'a self, rate: &'a Rate) -> (r: Result<PriceTag, ConversionError<'a>>)
        ensures
            self@.currency != rate@.src <==> (r matches Err(e) && e.kind()
                == ConversionErrorKind::CurrencyMismatch),
            r matches Err(e) ==> e.rate()@ == rate@ && e.price_tag()@ == self@,
            r matches Ok(p) ==> p@.currency == rate@.dst && p@.amount == normalize(
                self@.amount.negative != rate@.rate.negative,
                self@.amount.mantissa * rate@.rate.mantissa,
                self@.amount.scale + rate@.rate.scale,
            ),
            self@.currency == rate@.src ==> (r is Ok <==> self@.amount.mantissa * rate@.rate.mantissa
                <= u128::MAX && normalize(
                self@.amount.negative != rate@.rate.negative,
                self@.amount.mantissa * rate@.rate.mantissa,
                self@.amount.scale + rate@.rate.scale,
            ).scale <= MAX_SCALE),
    {
        if self.currency != *rate.src() {
            return Err(ConversionError::new(ConversionErrorKind::CurrencyMismatch, rate, self));
        }
        match self.amount.checked_mul(&rate.rate()) {
            Some(a) => Ok(PriceTag::new(rate.dst(), a)),
            None => Err(ConversionError::new(ConversionErrorKind::Overflow, rate, self)),
        }
    }

    /// The price tag as its canonical ISO code and its amount with two
    /// decimal places, like `EUR 12.50`.
    pub fn to_string(&self) -> (r: String)
        ensures
            r@ == price_tag_text(self@),
    {
        let mut v = chars_of(self.currency.get_main_iso());
        v.push(' ');
        let mut a = self.amount.render_chars();
        v.append(&mut a);
        string_of(&v)
    }
}

impl PartialEq for PriceTag {
    fn eq(&self, other: &PriceTag) -> (r: bool) {
        let same_amount = self.amount.same_as(&other.amount);
        let same_currency = self.currency == other.currency;
        same_amount && same_currency
    }
}

impl vstd::std_specs::cmp::PartialEqSpecImpl for PriceTag {
    open spec fn obeys_eq_spec() -> bool {
        true
    }

    open spec fn eq_spec(&self, other: &PriceTag) -> bool {
        self@ == other@
    }
}

} // verus!
