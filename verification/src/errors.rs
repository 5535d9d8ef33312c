//! Error values surfaced by parsing, formatting and request building.
//!
//! Transport failures (connection errors, non-2xx statuses) happen in the
//! unverified I/O shell around this library and never reach these variants.

use vstd::prelude::*;

verus! {

/// A required field of an account response, named so that a failed account
/// parse identifies exactly which field was missing or wrongly typed.
#[derive(Clone, Copy, Debug, PartialEq, Eq, Structural)]
pub enum AccountField {
    Assets,
    Positions,
    Asset,
    WalletBalance,
    AvailableBalance,
    UpdateTime,
    Symbol,
    UnrealizedProfit,
    Leverage,
    EntryPrice,
    PositionSide,
    PositionAmt,
}

/// A required field of an exchange-metadata response.
#[derive(Clone, Copy, Debug, PartialEq, Eq, Structural)]
pub enum InstrumentField {
    Symbols,
    Symbol,
    Status,
    ContractType,
    Filters,
    FilterType,
    TickSize,
    StepSize,
    MinQty,
}

/// The raw value found at a malformed candle index, as far as an owned
/// error can carry it: scalars and failing numeric strings whole, arrays and
/// objects by their kind alone.
#[derive(Clone, Debug, PartialEq, Eq)]
pub enum RawValue {
    /// The row ends before this index.
    Missing,
    Null,
    Bool(bool),
    Int(i64),
    /// A number that is not exactly a signed 64-bit integer.
    InexactNum,
    /// The string found there; for a numeric field, the text that did not
    /// parse as a plain decimal.
    Text(String),
    Arr,
    Obj,
}

/// Raw values compared by contents: a carried string by its characters.
pub open spec fn raw_value_eq(a: RawValue, b: RawValue) -> bool {
    match (a, b) {
        (RawValue::Text(x), RawValue::Text(y)) => x@ == y@,
        _ => a == b,
    }
}

/// Everything that can go wrong between a raw response body and a typed
/// result. There is no partial success: account and instrument parsing either
/// fully succeed or fail with the first offending field.
#[derive(Clone, Debug, PartialEq, Eq)]
pub enum ApiError {
    /// The response body was not the JSON shape the endpoint promises
    /// (not valid JSON at all, or its top level had the wrong type).
    MalformedJson,
    /// A candle row was missing the field at this index, or held the carried
    /// raw value of the wrong type there, or its close timestamp preceded
    /// its open one.
    MalformedCandle { index: usize, value: RawValue },
    /// An account response was missing this field or held a non-numeric
    /// value in it.
    MalformedAccount(AccountField),
    /// An exchange-metadata response was missing this field or held a value
    /// of the wrong type in it.
    MalformedInstrument(InstrumentField),
    /// A tick- or lot-size reference string was empty, so no fractional digit
    /// count can be derived from it.
    PrecisionError,
    /// A value could not be rendered at the requested precision because the
    /// scaled integer mantissa would exceed the representable range.
    NumberOverflow,
}

/// Errors compared by contents: like values, with a candle error's raw value
/// by its characters. Executable code can only clone the raw string it
/// reports, so its error equals the specified one in this sense.
pub open spec fn api_err_eq(a: ApiError, b: ApiError) -> bool {
    match (a, b) {
        (
            ApiError::MalformedCandle { index: i1, value: v1 },
            ApiError::MalformedCandle { index: i2, value: v2 },
        ) => i1 == i2 && raw_value_eq(v1, v2),
        _ => a == b,
    }
}

} // verus!
