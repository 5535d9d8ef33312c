//! Client-side core of a signed futures-exchange REST API: request signing,
//! response normalization into domain records, and precision-derived
//! formatting of order fields.
//!
//! The exchange encodes prices and quantities as decimal strings; this crate
//! keeps them as exact scaled integers ([`decimal::Decimal`]) so that parsing,
//! zero tests and fixed-point rendering are all verified, instead of passing
//! through binary floating point.

pub mod account;
pub mod client;
pub mod decimal;
pub mod errors;
pub mod instrument;
pub mod json;
pub mod kline;
pub mod mode;
pub mod order;
pub mod signing;
pub mod trade;
