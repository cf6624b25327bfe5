//! Locate price tags (a currency next to an amount) in free-form text and
//! convert them between currencies.
//!
//! - [`currency`]: currencies, the registry of known ones, price tags and
//!   their conversion;
//! - [`amount`]: exact decimal amounts;
//! - [`price_format`]: numbers written with thousand and decimal separators;
//! - [`price_in_text`]: the engine that pairs numbers with currencies;
//! - [`rate`], [`convert`], [`api`], [`config`]: exchange rates, the report
//!   of conversions, the requests to rate services and the configuration;
//! - [`text`]: characters and byte offsets of a text.

pub mod amount;
pub mod api;
pub mod config;
pub mod convert;
pub mod currency;
pub mod price_format;
pub mod price_in_text;
pub mod rate;
pub mod text;
