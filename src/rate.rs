//! Exchange rates from a currency to another.

use vstd::prelude::*;

use crate::amount::{Amount, AmountView};
use crate::currency::{Currency, CurrencyView};

verus! {

/// Rate from a source currency to a destination currency: one unit of the
/// source is worth `rate` units of the destination.
#[derive(Debug, Clone)]
pub struct Rate {
    src: Currency,
    dst: Currency,
    rate: Amount,
    provider: String,
}

/// What a rate says, as values.
pub struct RateView {
    pub src: CurrencyView,
    pub dst: CurrencyView,
    pub rate: AmountView,
    pub provider: Seq<char>,
}

impl View for Rate {
    type V = RateView;

    closed spec fn view(&self) -> RateView {
        RateView { src: self.src@, dst: self.dst@, rate: self.rate@, provider: self.provider@ }
    }
}

impl Rate {
    /// A rate from `src` to `dst`, given by `provider`.
    pub fn new(src: &Currency, dst: &Currency, rate: Amount, provider: String) -> (r: Rate)
        ensures
            r@ == (RateView { src: src@, dst: dst@, rate: rate@, provider: provider@ }),
    {
        Rate { src: *src, dst: *dst, rate, provider }
    }

    /// The 1:1 rate from a currency to itself.
    pub fn parity(c: &Currency) -> (r: Rate)
        ensures
            r@.src == c@,
            r@.dst == c@,
            r@.rate == (AmountView { negative: false, mantissa: 1, scale: 0 }),
            r@.provider == "PARITY"@,
    {
        Rate { src: *c, dst: *c, rate: Amount::one(), provider: String::from_str("PARITY") }
    }

    /// Source currency.
    pub fn src(&self) -> (r: &Currency)
        ensures
            r@ == self@.src,
    {
        &self.src
    }

    /// Destination currency.
    pub fn dst(&self) -> (r: &Currency)
        ensures
            r@ == self@.dst,
    {
        &self.dst
    }

    /// Units of the destination currency for one unit of the source one.
    pub fn rate(&self) -> (r: Amount)
        ensures
            r@ == self@.rate,
    {
        self.rate
    }

    /// Service that gave the rate.
    pub fn provider(&self) -> (r: &str)
        ensures
            r@ == self@.provider,
    {
        self.provider.as_str()
    }
}

} // verus!
