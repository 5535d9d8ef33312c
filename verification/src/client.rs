//! The request/response core of the four exchange operations.
//!
//! Every operation is one network round trip. The I/O shell around this
//! library performs the HTTP call itself and hands the raw response body
//! back; everything on either side of the wire — the query parameters, the
//! signing, and the normalization of the response into domain records — is
//! built and checked here. Market-data and metadata requests are unsigned;
//! account and order requests are signed and carry the API key as the
//! `X-MBX-APIKEY` header, never as a query parameter.

use vstd::prelude::*;

use crate::account::{parse_account, spec_parse_account, Account, AccountView};
use crate::errors::{api_err_eq, ApiError};
use crate::instrument::{
    parse_instruments, spec_contains_str, spec_parse_instruments, InstrumentInfo,
    InstrumentInfoView,
};
use crate::json::{from_json_text, json_doc_of, JsonVal};
use crate::kline::{
    parse_api_klines, sorted_by_close, spec_parse_kline_rows, spec_sort_by_close, Kline,
};
use crate::signing::spec_pairs;

verus! {

pub open spec fn opt_view(o: Option<&str>) -> Option<Seq<char>> {
    match o {
        Some(s) => Some(s@),
        None => None,
    }
}

/// The query of a candle request: symbol and interval always, the time
/// bounds and the row limit only when the caller supplied them.
pub open spec fn spec_klines_params(
    symbol: Seq<char>,
    interval: Seq<char>,
    start_time: Option<Seq<char>>,
    end_time: Option<Seq<char>>,
    limit: Option<Seq<char>>,
) -> Seq<(Seq<char>, Seq<char>)> {
    let base = seq![("symbol"@, symbol), ("interval"@, interval)];
    let with_start = match start_time {
        Some(s) => base.push(("startTime"@, s)),
        None => base,
    };
    let with_end = match end_time {
        Some(s) => with_start.push(("endTime"@, s)),
        None => with_start,
    };
    match limit {
        Some(s) => with_end.push(("limit"@, s)),
        None => with_end,
    }
}

/// Build the query parameters of a candle request. Absent optional bounds
/// are simply omitted.
pub fn build_klines_params(
    symbol: &str,
    interval: &str,
    start_time: Option<&str>,
    end_time: Option<&str>,
    limit: Option<&str>,
) -> (ps: Vec<(String, String)>)
    ensures
        spec_pairs(ps@) == spec_klines_params(
            symbol@,
            interval@,
            opt_view(start_time),
            opt_view(end_time),
            opt_view(limit),
        ),
{
    let mut ps: Vec<(String, String)> = Vec::new();
    ps.push(("symbol".to_owned(), symbol.to_owned()));
    ps.push(("interval".to_owned(), interval.to_owned()));
    match start_time {
        Some(s) => {
            ps.push(("startTime".to_owned(), s.to_owned()));
        },
        None => {},
    }
    match end_time {
        Some(s) => {
            ps.push(("endTime".to_owned(), s.to_owned()));
        },
        None => {},
    }
    match limit {
        Some(s) => {
            ps.push(("limit".to_owned(), s.to_owned()));
        },
        None => {},
    }
    proof {
        assert(spec_pairs(ps@) =~= spec_klines_params(
            symbol@,
            interval@,
            opt_view(start_time),
            opt_view(end_time),
            opt_view(limit),
        ));
    }
    ps
}

/// What a market-data response body denotes: the candle rows of its JSON
/// array, parsed and sorted ascending by close timestamp; any body whose
/// document is not an array is [`ApiError::MalformedJson`], and a malformed
/// row fails the whole batch with its first error.
pub open spec fn spec_klines_of_text(text: Seq<char>) -> Result<Seq<Kline>, ApiError> {
    match json_doc_of(text) {
        Some(doc) => match doc {
            JsonVal::Arr(rows) => match spec_parse_kline_rows(rows@) {
                Ok(ks) => Ok(spec_sort_by_close(ks)),
                Err(e) => Err(e),
            },
            _ => Err(ApiError::MalformedJson),
        },
        None => Err(ApiError::MalformedJson),
    }
}

/// Normalize a market-data response body, exactly as [`spec_klines_of_text`]
/// reads it: every row of the array parsed and the batch sorted ascending by
/// close timestamp, or the first error.
pub fn parse_klines_response(text: &str) -> (r: Result<Vec<Kline>, ApiError>)
    ensures
        r matches Ok(ks) ==> spec_klines_of_text(text@) == Result::<Seq<Kline>, ApiError>::Ok(ks@)
            && sorted_by_close(ks@) && (forall|i: int|
            0 <= i < ks@.len() ==> #[trigger] ks@[i].wf()),
        r matches Err(e) ==> spec_klines_of_text(text@) matches Err(se) && api_err_eq(se, e),
{
    match from_json_text(text) {
        Some(doc) => match doc {
            JsonVal::Arr(rows) => parse_api_klines(&rows),
            _ => Err(ApiError::MalformedJson),
        },
        None => Err(ApiError::MalformedJson),
    }
}

/// What an account response body denotes: its JSON document parsed as an
/// account snapshot holding only active balances and positions; a body that
/// is not valid JSON is [`ApiError::MalformedJson`].
pub open spec fn spec_account_of_text(text: Seq<char>) -> Result<AccountView, ApiError> {
    match json_doc_of(text) {
        Some(doc) => spec_parse_account(doc),
        None => Err(ApiError::MalformedJson),
    }
}

/// Normalize an account response body, exactly as [`spec_account_of_text`]
/// reads it. Every kept asset has a non-zero available balance and every
/// kept position a non-zero amount.
pub fn parse_account_response(text: &str) -> (r: Result<Account, ApiError>)
    ensures
        match r {
            Ok(acc) => spec_account_of_text(text@) == Result::<AccountView, ApiError>::Ok(acc@),
            Err(e) => spec_account_of_text(text@) == Result::<AccountView, ApiError>::Err(e),
        },
        r matches Ok(acc) ==> (forall|i: int|
            0 <= i < acc@.assets.len() ==> #[trigger] acc@.assets[i].available_balance.mantissa
                != 0) && (forall|i: int|
            0 <= i < acc@.positions.len() ==> #[trigger] acc@.positions[i].position_amt.mantissa
                != 0),
{
    match from_json_text(text) {
        Some(doc) => parse_account(&doc),
        None => Err(ApiError::MalformedJson),
    }
}

/// What an exchange-metadata response body denotes: the instruments its
/// `symbols` listing keeps for the requested set; a body that is not valid
/// JSON is [`ApiError::MalformedJson`].
pub open spec fn spec_instruments_of_text(text: Seq<char>, requested: Seq<String>) -> Result<
    Seq<InstrumentInfoView>,
    ApiError,
> {
    match json_doc_of(text) {
        Some(doc) => spec_parse_instruments(doc, requested),
        None => Err(ApiError::MalformedJson),
    }
}

/// Normalize an exchange-metadata response body, exactly as
/// [`spec_instruments_of_text`] reads it. Every kept instrument carries a
/// requested symbol.
pub fn parse_instruments_response(text: &str, requested: &Vec<String>) -> (r: Result<
    Vec<InstrumentInfo>,
    ApiError,
>)
    ensures
        match r {
            Ok(infos) => spec_instruments_of_text(text@, requested@) == Result::<
                Seq<InstrumentInfoView>,
                ApiError,
            >::Ok(infos@.map_values(|i: InstrumentInfo| i@)),
            Err(e) => spec_instruments_of_text(text@, requested@) == Result::<
                Seq<InstrumentInfoView>,
                ApiError,
            >::Err(e),
        },
        r matches Ok(infos) ==> forall|x: int|
            0 <= x < infos@.len() ==> spec_contains_str(requested@, #[trigger] infos@[x]@.symbol),
{
    match from_json_text(text) {
        Some(doc) => parse_instruments(&doc, requested),
        None => Err(ApiError::MalformedJson),
    }
}

} // verus!
