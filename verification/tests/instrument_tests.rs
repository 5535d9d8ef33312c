use trade_utils::client::parse_instruments_response;
use trade_utils::decimal::Decimal;
use trade_utils::errors::{ApiError, InstrumentField};
use trade_utils::instrument::{find_instrument, InstrumentInfo};

fn requested(symbols: &[&str]) -> Vec<String> {
    symbols.iter().map(|s| s.to_string()).collect()
}

const LISTING: &str = r#"{
    "symbols": [
        {"symbol": "BTCUSDT", "status": "TRADING", "contractType": "PERPETUAL",
         "filters": [
            {"filterType": "PRICE_FILTER", "tickSize": "0.10"},
            {"filterType": "LOT_SIZE", "stepSize": "0.001", "minQty": "0.001"},
            {"filterType": "MARKET_LOT_SIZE", "stepSize": "9"}
         ]},
        {"symbol": "ETHUSDT", "status": "BREAK", "contractType": "PERPETUAL",
         "filters": []},
        {"symbol": "XRPUSDT", "status": "TRADING", "contractType": "PERPETUAL",
         "filters": [{"filterType": "PRICE_FILTER", "tickSize": "0.0001"}]},
        {"symbol": "DOGEUSDT", "status": "TRADING", "contractType": "CURRENT_QUARTER",
         "filters": []}
    ]
}"#;

#[test]
fn kept_instrument_retains_reference_strings() {
    let infos = parse_instruments_response(LISTING, &requested(&["BTCUSDT"])).unwrap();
    assert_eq!(infos.len(), 1);
    assert_eq!(infos[0].symbol, "BTCUSDT");
    assert_eq!(infos[0].tick_size, "0.10");
    assert_eq!(infos[0].lot_size, "0.001");
    assert_eq!(infos[0].min_qty.mantissa, 1);
    assert_eq!(infos[0].min_qty.scale, 3);
}

#[test]
fn halted_symbol_is_excluded_even_when_requested() {
    let infos =
        parse_instruments_response(LISTING, &requested(&["ETHUSDT", "BTCUSDT"])).unwrap();
    assert_eq!(infos.len(), 1);
    assert_eq!(infos[0].symbol, "BTCUSDT");
}

#[test]
fn trading_perpetual_not_requested_is_excluded() {
    // XRPUSDT is trading and perpetual, but the caller did not ask for it
    let infos = parse_instruments_response(LISTING, &requested(&["BTCUSDT"])).unwrap();
    assert!(infos.iter().all(|i| i.symbol != "XRPUSDT"));
    // a non-perpetual contract type is excluded too
    let infos2 = parse_instruments_response(LISTING, &requested(&["DOGEUSDT"])).unwrap();
    assert_eq!(infos2.len(), 0);
}

#[test]
fn absent_requested_symbols_are_not_an_error() {
    let infos = parse_instruments_response(LISTING, &requested(&["NOSUCHTHING"])).unwrap();
    assert_eq!(infos.len(), 0);
}

#[test]
fn malformed_listing_errors() {
    assert_eq!(
        parse_instruments_response(r#"{"noSymbols": []}"#, &requested(&["BTCUSDT"])),
        Err(ApiError::MalformedInstrument(InstrumentField::Symbols))
    );
    // a kept entry without a filters array
    let no_filters = r#"{"symbols": [
        {"symbol": "BTCUSDT", "status": "TRADING", "contractType": "PERPETUAL"}
    ]}"#;
    assert_eq!(
        parse_instruments_response(no_filters, &requested(&["BTCUSDT"])),
        Err(ApiError::MalformedInstrument(InstrumentField::Filters))
    );
    // a filter without a type
    let untyped_filter = r#"{"symbols": [
        {"symbol": "BTCUSDT", "status": "TRADING", "contractType": "PERPETUAL",
         "filters": [{"tickSize": "0.1"}]}
    ]}"#;
    assert_eq!(
        parse_instruments_response(untyped_filter, &requested(&["BTCUSDT"])),
        Err(ApiError::MalformedInstrument(InstrumentField::FilterType))
    );
    // a price filter without its tick size
    let no_tick = r#"{"symbols": [
        {"symbol": "BTCUSDT", "status": "TRADING", "contractType": "PERPETUAL",
         "filters": [{"filterType": "PRICE_FILTER"}]}
    ]}"#;
    assert_eq!(
        parse_instruments_response(no_tick, &requested(&["BTCUSDT"])),
        Err(ApiError::MalformedInstrument(InstrumentField::TickSize))
    );
    // a skipped entry needs no contract type: status short-circuits first
    let skipped = r#"{"symbols": [
        {"symbol": "ETHUSDT", "status": "BREAK"}
    ]}"#;
    assert_eq!(parse_instruments_response(skipped, &requested(&["ETHUSDT"])).unwrap().len(), 0);
}

#[test]
fn lookup_takes_the_last_match() {
    let twice = vec![
        InstrumentInfo {
            symbol: "BTCUSDT".to_string(),
            tick_size: "0.10".to_string(),
            lot_size: "1".to_string(),
            min_qty: Decimal { neg: false, mantissa: 1, scale: 0 },
        },
        InstrumentInfo {
            symbol: "BTCUSDT".to_string(),
            tick_size: "0.01".to_string(),
            lot_size: "0.1".to_string(),
            min_qty: Decimal { neg: false, mantissa: 1, scale: 1 },
        },
    ];
    let found = find_instrument(&twice, "BTCUSDT").unwrap();
    assert_eq!(found.tick_size, "0.01");
    assert_eq!(found.lot_size, "0.1");
}

#[test]
fn lookup_by_symbol() {
    let infos =
        parse_instruments_response(LISTING, &requested(&["BTCUSDT", "XRPUSDT"])).unwrap();
    assert_eq!(infos.len(), 2);
    let found = find_instrument(&infos, "XRPUSDT").unwrap();
    assert_eq!(found.tick_size, "0.0001");
    assert_eq!(found.lot_size, "");
    assert!(find_instrument(&infos, "ETHUSDT").is_none());
}
