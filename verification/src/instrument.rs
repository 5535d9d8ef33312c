//! Instrument metadata: tick size, lot size and minimum quantity.
//!
//! The exchange-metadata endpoint answers with a `symbols` array. Kept are
//! only entries that are actively trading (`status == "TRADING"`), perpetual
//! contracts (`contractType == "PERPETUAL"`), and in the caller's requested
//! set; requested symbols missing from the listing are simply absent from
//! the result. Tick and lot sizes stay in their original decimal-string
//! form, because the count of fractional digits in those strings is the
//! precision that order formatting derives.

use vstd::prelude::*;

use crate::account::{spec_obj_dec, spec_obj_str, obj_dec, obj_str};
use crate::decimal::Decimal;
use crate::errors::{ApiError, InstrumentField};
use crate::json::{obj_get, spec_obj_get, str_eq, JsonVal};

verus! {

/// Trading constraints of one instrument. `tick_size` and `lot_size` keep
/// the exchange's decimal-string spelling: `"0.010"` demands three
/// fractional digits, which a float could no longer tell from `"0.01"`.
#[derive(Clone, Debug, PartialEq)]
pub struct InstrumentInfo {
    pub symbol: String,
    pub tick_size: String,
    pub lot_size: String,
    pub min_qty: Decimal,
}

pub struct InstrumentInfoView {
    pub symbol: Seq<char>,
    pub tick_size: Seq<char>,
    pub lot_size: Seq<char>,
    pub min_qty: Decimal,
}

impl View for InstrumentInfo {
    type V = InstrumentInfoView;

    open spec fn view(&self) -> InstrumentInfoView {
        InstrumentInfoView {
            symbol: self.symbol@,
            tick_size: self.tick_size@,
            lot_size: self.lot_size@,
            min_qty: self.min_qty,
        }
    }
}

/// Whether the requested set holds a symbol reading `s`.
pub open spec fn spec_contains_str(set: Seq<String>, s: Seq<char>) -> bool {
    exists|i: int| 0 <= i < set.len() && #[trigger] set[i]@ == s
}

/// Membership of `s` in a list of symbols, by contents.
pub fn contains_str(set: &Vec<String>, s: &str) -> (r: bool)
    ensures
        r == spec_contains_str(set@, s@),
{
    let mut idx: usize = 0;
    while idx < set.len()
        invariant
            idx <= set.len(),
            forall|t: int| 0 <= t < idx ==> #[trigger] set@[t]@ != s@,
        decreases set.len() - idx,
    {
        if str_eq(set[idx].as_str(), s) {
            return true;
        }
        idx += 1;
    }
    false
}

/// The tick size, lot size and minimum quantity gathered from a `filters`
/// array, scanned left to right: the price filter supplies the tick size,
/// the lot-size filter the lot size and minimum quantity, later occurrences
/// overwrite earlier ones, and unrecognized filter kinds are ignored. A
/// filter without a `filterType` string, or a recognized filter missing its
/// payload, is an error.
pub open spec fn spec_scan_filters(fs: Seq<JsonVal>) -> Result<
    (Seq<char>, Seq<char>, Decimal),
    ApiError,
>
    decreases fs.len(),
{
    if fs.len() == 0 {
        Ok((Seq::empty(), Seq::empty(), Decimal { neg: false, mantissa: 0, scale: 0 }))
    } else {
        match spec_scan_filters(fs.drop_last()) {
            Err(e) => Err(e),
            Ok(acc) => spec_scan_one_filter(fs.last(), acc),
        }
    }
}

pub open spec fn spec_scan_one_filter(f: JsonVal, acc: (Seq<char>, Seq<char>, Decimal)) -> Result<
    (Seq<char>, Seq<char>, Decimal),
    ApiError,
> {
    match f {
        JsonVal::Obj(entries) => match spec_obj_str(entries@, "filterType"@) {
            None => Err(ApiError::MalformedInstrument(InstrumentField::FilterType)),
            Some(ft) => if ft == "PRICE_FILTER"@ {
                match spec_obj_str(entries@, "tickSize"@) {
                    None => Err(ApiError::MalformedInstrument(InstrumentField::TickSize)),
                    Some(tick) => Ok((tick, acc.1, acc.2)),
                }
            } else if ft == "LOT_SIZE"@ {
                match (spec_obj_str(entries@, "stepSize"@), spec_obj_dec(entries@, "minQty"@)) {
                    (None, _) => Err(ApiError::MalformedInstrument(InstrumentField::StepSize)),
                    (_, None) => Err(ApiError::MalformedInstrument(InstrumentField::MinQty)),
                    (Some(step), Some(min_qty)) => Ok((acc.0, step, min_qty)),
                }
            } else {
                Ok(acc)
            },
        },
        _ => Err(ApiError::MalformedInstrument(InstrumentField::FilterType)),
    }
}

fn scan_one_filter(f: &JsonVal, tick: String, lot: String, min_qty: Decimal) -> (r: Result<
    (String, String, Decimal),
    ApiError,
>)
    ensures
        match r {
            Ok(acc) => spec_scan_one_filter(*f, (tick@, lot@, min_qty)) == Result::<
                (Seq<char>, Seq<char>, Decimal),
                ApiError,
            >::Ok((acc.0@, acc.1@, acc.2)),
            Err(e) => spec_scan_one_filter(*f, (tick@, lot@, min_qty)) == Result::<
                (Seq<char>, Seq<char>, Decimal),
                ApiError,
            >::Err(e),
        },
{
    let entries = match f {
        JsonVal::Obj(entries) => entries,
        _ => {
            return Err(ApiError::MalformedInstrument(InstrumentField::FilterType));
        },
    };
    let ft = match obj_str(entries, "filterType") {
        Some(s) => s,
        None => {
            return Err(ApiError::MalformedInstrument(InstrumentField::FilterType));
        },
    };
    if str_eq(ft.as_str(), "PRICE_FILTER") {
        match obj_str(entries, "tickSize") {
            None => Err(ApiError::MalformedInstrument(InstrumentField::TickSize)),
            Some(new_tick) => Ok((new_tick, lot, min_qty)),
        }
    } else if str_eq(ft.as_str(), "LOT_SIZE") {
        let step = match obj_str(entries, "stepSize") {
            Some(s) => s,
            None => {
                return Err(ApiError::MalformedInstrument(InstrumentField::StepSize));
            },
        };
        match obj_dec(entries, "minQty") {
            None => Err(ApiError::MalformedInstrument(InstrumentField::MinQty)),
            Some(new_min) => Ok((tick, step, new_min)),
        }
    } else {
        Ok((tick, lot, min_qty))
    }
}

fn scan_filters(fs: &Vec<JsonVal>) -> (r: Result<(String, String, Decimal), ApiError>)
    ensures
        match r {
            Ok(acc) => spec_scan_filters(fs@) == Result::<
                (Seq<char>, Seq<char>, Decimal),
                ApiError,
            >::Ok((acc.0@, acc.1@, acc.2)),
            Err(e) => spec_scan_filters(fs@) == Result::<
                (Seq<char>, Seq<char>, Decimal),
                ApiError,
            >::Err(e),
        },
{
    let mut tick = String::new();
    let mut lot = String::new();
    let mut min_qty = Decimal::zero();
    let mut idx: usize = 0;
    proof {
        assert(fs@.take(0) =~= Seq::<JsonVal>::empty());
        assert(tick@ =~= Seq::<char>::empty());
        assert(lot@ =~= Seq::<char>::empty());
    }
    while idx < fs.len()
        invariant
            idx <= fs.len(),
            spec_scan_filters(fs@.take(idx as int)) == Result::<
                (Seq<char>, Seq<char>, Decimal),
                ApiError,
            >::Ok((tick@, lot@, min_qty)),
        decreases fs.len() - idx,
    {
        proof {
            assert(fs@.take(idx + 1).drop_last() =~= fs@.take(idx as int));
            assert(fs@.take(idx + 1).last() == fs@[idx as int]);
        }
        match scan_one_filter(&fs[idx], tick, lot, min_qty) {
            Err(e) => {
                proof {
                    lemma_filters_error(fs@, idx as int, e);
                }
                return Err(e);
            },
            Ok(acc) => {
                tick = acc.0;
                lot = acc.1;
                min_qty = acc.2;
            },
        }
        idx += 1;
    }
    proof {
        assert(fs@.take(fs.len() as int) =~= fs@);
    }
    Ok((tick, lot, min_qty))
}

proof fn lemma_filters_error(fs: Seq<JsonVal>, idx: int, e: ApiError)
    requires
        0 <= idx < fs.len(),
        spec_scan_filters(fs.take(idx)) matches Ok(acc) && spec_scan_one_filter(fs[idx], acc)
            == Result::<(Seq<char>, Seq<char>, Decimal), ApiError>::Err(e),
    ensures
        spec_scan_filters(fs) == Result::<(Seq<char>, Seq<char>, Decimal), ApiError>::Err(e),
    decreases fs.len(),
{
    if idx == fs.len() - 1 {
        assert(fs.take(idx) =~= fs.drop_last());
    } else {
        assert(fs.drop_last().take(idx) =~= fs.take(idx));
        lemma_filters_error(fs.drop_last(), idx, e);
    }
}

/// What one entry of the `symbols` array contributes: `Ok(Some(info))` for a
/// kept instrument, `Ok(None)` for one filtered out, an error for a
/// malformed entry. Mirroring the evaluation order of the filter condition,
/// `symbol` and `status` are always required, `contractType` only of
/// actively trading entries, and the `filters` array only of kept entries.
pub open spec fn spec_parse_symbol_entry(v: JsonVal, requested: Seq<String>) -> Result<
    Option<InstrumentInfoView>,
    ApiError,
> {
    match v {
        JsonVal::Obj(entries) => match spec_obj_str(entries@, "symbol"@) {
            None => Err(ApiError::MalformedInstrument(InstrumentField::Symbol)),
            Some(sym) => match spec_obj_str(entries@, "status"@) {
                None => Err(ApiError::MalformedInstrument(InstrumentField::Status)),
                Some(status) => if status != "TRADING"@ {
                    Ok(None)
                } else {
                    match spec_obj_str(entries@, "contractType"@) {
                        None => Err(ApiError::MalformedInstrument(InstrumentField::ContractType)),
                        Some(ct) => if ct != "PERPETUAL"@ {
                            Ok(None)
                        } else if !spec_contains_str(requested, sym) {
                            Ok(None)
                        } else {
                            match spec_obj_get(entries@, "filters"@) {
                                Some(JsonVal::Arr(fs)) => match spec_scan_filters(fs@) {
                                    Err(e) => Err(e),
                                    Ok(acc) => Ok(
                                        Some(
                                            InstrumentInfoView {
                                                symbol: sym,
                                                tick_size: acc.0,
                                                lot_size: acc.1,
                                                min_qty: acc.2,
                                            },
                                        ),
                                    ),
                                },
                                _ => Err(ApiError::MalformedInstrument(InstrumentField::Filters)),
                            }
                        },
                    }
                },
            },
        },
        _ => Err(ApiError::MalformedInstrument(InstrumentField::Symbol)),
    }
}

fn parse_symbol_entry(v: &JsonVal, requested: &Vec<String>) -> (r: Result<
    Option<InstrumentInfo>,
    ApiError,
>)
    ensures
        match r {
            Ok(Some(info)) => spec_parse_symbol_entry(*v, requested@) == Result::<
                Option<InstrumentInfoView>,
                ApiError,
            >::Ok(Some(info@)),
            Ok(None) => spec_parse_symbol_entry(*v, requested@) == Result::<
                Option<InstrumentInfoView>,
                ApiError,
            >::Ok(None),
            Err(e) => spec_parse_symbol_entry(*v, requested@) == Result::<
                Option<InstrumentInfoView>,
                ApiError,
            >::Err(e),
        },
{
    let entries = match v {
        JsonVal::Obj(entries) => entries,
        _ => {
            return Err(ApiError::MalformedInstrument(InstrumentField::Symbol));
        },
    };
    let symbol = match obj_str(entries, "symbol") {
        Some(s) => s,
        None => {
            return Err(ApiError::MalformedInstrument(InstrumentField::Symbol));
        },
    };
    let status = match obj_str(entries, "status") {
        Some(s) => s,
        None => {
            return Err(ApiError::MalformedInstrument(InstrumentField::Status));
        },
    };
    if !str_eq(status.as_str(), "TRADING") {
        return Ok(None);
    }
    let contract_type = match obj_str(entries, "contractType") {
        Some(s) => s,
        None => {
            return Err(ApiError::MalformedInstrument(InstrumentField::ContractType));
        },
    };
    if !str_eq(contract_type.as_str(), "PERPETUAL") {
        return Ok(None);
    }
    if !contains_str(requested, symbol.as_str()) {
        return Ok(None);
    }
    let fs = match obj_get(entries, "filters") {
        Some(JsonVal::Arr(fs)) => fs,
        _ => {
            return Err(ApiError::MalformedInstrument(InstrumentField::Filters));
        },
    };
    match scan_filters(fs) {
        Err(e) => Err(e),
        Ok((tick_size, lot_size, min_qty)) => Ok(
            Some(InstrumentInfo { symbol, tick_size, lot_size, min_qty }),
        ),
    }
}

/// The instruments kept from a `symbols` array, in listing order.
pub open spec fn spec_parse_symbol_entries(items: Seq<JsonVal>, requested: Seq<String>) -> Result<
    Seq<InstrumentInfoView>,
    ApiError,
>
    decreases items.len(),
{
    if items.len() == 0 {
        Ok(Seq::empty())
    } else {
        match spec_parse_symbol_entries(items.drop_last(), requested) {
            Err(e) => Err(e),
            Ok(prefix) => match spec_parse_symbol_entry(items.last(), requested) {
                Err(e) => Err(e),
                Ok(Some(info)) => Ok(prefix.push(info)),
                Ok(None) => Ok(prefix),
            },
        }
    }
}

/// What parsing a whole exchange-metadata response returns.
pub open spec fn spec_parse_instruments(v: JsonVal, requested: Seq<String>) -> Result<
    Seq<InstrumentInfoView>,
    ApiError,
> {
    match v {
        JsonVal::Obj(entries) => match spec_obj_get(entries@, "symbols"@) {
            Some(JsonVal::Arr(symbols)) => spec_parse_symbol_entries(symbols@, requested),
            _ => Err(ApiError::MalformedInstrument(InstrumentField::Symbols)),
        },
        _ => Err(ApiError::MalformedInstrument(InstrumentField::Symbols)),
    }
}

proof fn lemma_symbol_entries_error(
    items: Seq<JsonVal>,
    requested: Seq<String>,
    idx: int,
    e: ApiError,
)
    requires
        0 <= idx < items.len(),
        spec_parse_symbol_entries(items.take(idx), requested) is Ok,
        spec_parse_symbol_entry(items[idx], requested) == Result::<
            Option<InstrumentInfoView>,
            ApiError,
        >::Err(e),
    ensures
        spec_parse_symbol_entries(items, requested) == Result::<
            Seq<InstrumentInfoView>,
            ApiError,
        >::Err(e),
    decreases items.len(),
{
    if idx == items.len() - 1 {
        assert(items.take(idx) =~= items.drop_last());
    } else {
        assert(items.drop_last().take(idx) =~= items.take(idx));
        lemma_symbol_entries_error(items.drop_last(), requested, idx, e);
    }
}

/// Parse an exchange-metadata response, keeping only actively trading
/// perpetual instruments among the requested symbols. A malformed kept
/// entry fails the whole call; requested symbols absent from the listing
/// are simply not in the result.
pub fn parse_instruments(v: &JsonVal, requested: &Vec<String>) -> (r: Result<
    Vec<InstrumentInfo>,
    ApiError,
>)
    ensures
        match r {
            Ok(infos) => spec_parse_instruments(*v, requested@) == Result::<
                Seq<InstrumentInfoView>,
                ApiError,
            >::Ok(infos@.map_values(|i: InstrumentInfo| i@)),
            Err(e) => spec_parse_instruments(*v, requested@) == Result::<
                Seq<InstrumentInfoView>,
                ApiError,
            >::Err(e),
        },
        r matches Ok(infos) ==> forall|x: int|
            0 <= x < infos@.len() ==> spec_contains_str(requested@, #[trigger] infos@[x]@.symbol),
{
    let entries = match v {
        JsonVal::Obj(entries) => entries,
        _ => {
            return Err(ApiError::MalformedInstrument(InstrumentField::Symbols));
        },
    };
    let symbols = match obj_get(entries, "symbols") {
        Some(JsonVal::Arr(symbols)) => symbols,
        _ => {
            return Err(ApiError::MalformedInstrument(InstrumentField::Symbols));
        },
    };
    let mut infos: Vec<InstrumentInfo> = Vec::new();
    let mut idx: usize = 0;
    proof {
        assert(symbols@.take(0) =~= Seq::<JsonVal>::empty());
        assert(infos@.map_values(|i: InstrumentInfo| i@) =~= Seq::<InstrumentInfoView>::empty());
    }
    while idx < symbols.len()
        invariant
            idx <= symbols.len(),
            spec_parse_instruments(*v, requested@) == spec_parse_symbol_entries(
                symbols@,
                requested@,
            ),
            spec_parse_symbol_entries(symbols@.take(idx as int), requested@) == Result::<
                Seq<InstrumentInfoView>,
                ApiError,
            >::Ok(infos@.map_values(|i: InstrumentInfo| i@)),
        decreases symbols.len() - idx,
    {
        let ghost old_views = infos@.map_values(|i: InstrumentInfo| i@);
        proof {
            assert(symbols@.take(idx + 1).drop_last() =~= symbols@.take(idx as int));
            assert(symbols@.take(idx + 1).last() == symbols@[idx as int]);
        }
        match parse_symbol_entry(&symbols[idx], requested) {
            Err(e) => {
                proof {
                    lemma_symbol_entries_error(symbols@, requested@, idx as int, e);
                }
                return Err(e);
            },
            Ok(Some(info)) => {
                let ghost iv = info@;
                infos.push(info);
                proof {
                    assert(infos@.map_values(|i: InstrumentInfo| i@) =~= old_views.push(iv));
                }
            },
            Ok(None) => {},
        }
        idx += 1;
    }
    proof {
        assert(symbols@.take(symbols.len() as int) =~= symbols@);
        let views = infos@.map_values(|i: InstrumentInfo| i@);
        assert forall|x: int| 0 <= x < infos@.len() implies spec_contains_str(
            requested@,
            #[trigger] infos@[x]@.symbol,
        ) by {
            lemma_instruments_filtered(symbols@, requested@, views, x);
            assert(views[x] == infos@[x]@);
            assert(spec_contains_str(requested@, views[x].symbol));
        }
    }
    Ok(infos)
}

/// Look an instrument up by symbol: the last listed entry carrying it wins,
/// as it would in a map filled in listing order.
pub fn find_instrument<'a>(infos: &'a Vec<InstrumentInfo>, symbol: &str) -> (r: Option<
    &'a InstrumentInfo,
>)
    ensures
        match r {
            Some(info) => info@.symbol == symbol@ && (exists|i: int|
                0 <= i < infos@.len() && #[trigger] infos@[i]@ == info@ && (forall|j: int|
                    i < j < infos@.len() ==> #[trigger] infos@[j]@.symbol != symbol@)),
            None => forall|i: int| 0 <= i < infos@.len() ==> #[trigger] infos@[i]@.symbol != symbol@,
        },
{
    let mut idx: usize = infos.len();
    while idx > 0
        invariant
            idx <= infos.len(),
            forall|t: int| idx <= t < infos@.len() ==> #[trigger] infos@[t]@.symbol != symbol@,
        decreases idx,
    {
        idx -= 1;
        if str_eq(infos[idx].symbol.as_str(), symbol) {
            proof {
                let w: int = idx as int;
                assert(0 <= w < infos@.len());
                assert(infos@[w]@.symbol == infos[idx as int]@.symbol);
                assert(exists|i: int|
                    0 <= i < infos@.len() && infos@[i]@ == infos[idx as int]@ && (forall|j: int|
                        i < j < infos@.len() ==> #[trigger] infos@[j]@.symbol != symbol@)) by {
                    assert(infos@[w]@ == infos[idx as int]@);
                    assert(forall|j: int|
                        w < j < infos@.len() ==> #[trigger] infos@[j]@.symbol != symbol@);
                }
            }
            return Some(&infos[idx]);
        }
    }
    None
}

/// Only symbols that were requested, listed as actively trading, and of the
/// perpetual contract type appear in a parsed instrument listing: everything
/// kept traces back to a `symbols` entry whose `status` reads `TRADING`,
/// whose `contractType` reads `PERPETUAL`, and whose symbol the caller asked
/// for. A halted symbol is excluded even when requested, and a trading
/// perpetual is excluded when not requested.
pub proof fn lemma_instruments_filtered(
    items: Seq<JsonVal>,
    requested: Seq<String>,
    infos: Seq<InstrumentInfoView>,
    x: int,
)
    requires
        spec_parse_symbol_entries(items, requested) == Result::<
            Seq<InstrumentInfoView>,
            ApiError,
        >::Ok(infos),
        0 <= x < infos.len(),
    ensures
        spec_contains_str(requested, infos[x].symbol),
        exists|i: int|
            0 <= i < items.len() && #[trigger] spec_parse_symbol_entry(items[i], requested)
                == Result::<Option<InstrumentInfoView>, ApiError>::Ok(Some(infos[x]))
                && spec_entry_kept(items[i], requested),
    decreases items.len(),
{
    if items.len() > 0 {
        let prefix = spec_parse_symbol_entries(items.drop_last(), requested);
        match prefix {
            Ok(ps) => {
                if x < ps.len() {
                    lemma_instruments_filtered(items.drop_last(), requested, ps, x);
                    let i = choose|i: int|
                        0 <= i < items.drop_last().len() && #[trigger] spec_parse_symbol_entry(
                            items.drop_last()[i],
                            requested,
                        ) == Result::<Option<InstrumentInfoView>, ApiError>::Ok(Some(ps[x]))
                            && spec_entry_kept(items.drop_last()[i], requested);
                    assert(items[i] == items.drop_last()[i]);
                } else {
                    lemma_entry_kept(items.last(), requested, infos[x]);
                    assert(items[items.len() - 1] == items.last());
                }
            },
            Err(_) => {},
        }
    }
}

/// A kept `symbols` entry: present fields reading `TRADING`, `PERPETUAL`,
/// and a requested symbol.
pub open spec fn spec_entry_kept(v: JsonVal, requested: Seq<String>) -> bool {
    match v {
        JsonVal::Obj(entries) => {
            &&& spec_obj_str(entries@, "status"@) == Some("TRADING"@)
            &&& spec_obj_str(entries@, "contractType"@) == Some("PERPETUAL"@)
            &&& match spec_obj_str(entries@, "symbol"@) {
                Some(sym) => spec_contains_str(requested, sym),
                None => false,
            }
        },
        _ => false,
    }
}

proof fn lemma_entry_kept(v: JsonVal, requested: Seq<String>, info: InstrumentInfoView)
    requires
        spec_parse_symbol_entry(v, requested) == Result::<
            Option<InstrumentInfoView>,
            ApiError,
        >::Ok(Some(info)),
    ensures
        spec_entry_kept(v, requested),
        spec_contains_str(requested, info.symbol),
{
}

} // verus!
