use std::str::FromStr;

use trade_utils::decimal::{parse_decimal, Decimal};
use trade_utils::errors::ApiError;
use trade_utils::instrument::InstrumentInfo;
use trade_utils::mode::{parse_mode, Mode};
use trade_utils::order::{build_order_params, Order, OrderSide, OrderType, TimeInForce};
use trade_utils::trade::TradeSide;

fn instrument(tick: &str, lot: &str) -> InstrumentInfo {
    InstrumentInfo {
        symbol: "BTCUSDT".to_string(),
        tick_size: tick.to_string(),
        lot_size: lot.to_string(),
        min_qty: Decimal { neg: false, mantissa: 1, scale: 3 },
    }
}

fn owned(params: &[(&str, &str)]) -> Vec<(String, String)> {
    params.iter().map(|(k, v)| (k.to_string(), v.to_string())).collect()
}

#[test]
fn wire_spellings() {
    assert_eq!(OrderType::Market.param_value(), "MARKET");
    assert_eq!(OrderSide::Buy.param_value(), "BUY");
    assert_eq!(OrderSide::Sell.param_value(), "SELL");
    assert_eq!(TimeInForce::Gtc.param_value(), "GTC");
}

#[test]
fn market_order_shape() {
    let o = Order::market_order(
        "BTCUSDT".to_string(),
        OrderSide::Buy,
        parse_decimal("2.7").unwrap(),
    );
    assert_eq!(o.symbol, "BTCUSDT");
    assert_eq!(o.order_side, OrderSide::Buy);
    assert_eq!(o.order_type, OrderType::Market);
    assert!(o.time_in_force.is_none());
    assert!(o.price.is_none());
    assert!(!o.reduce_only);
}

#[test]
fn market_order_params_round_quantity_to_lot_precision() {
    // lot size "1" carries no dot, so the quantity gets zero fractional digits
    let o = Order::market_order(
        "BTCUSDT".to_string(),
        OrderSide::Buy,
        parse_decimal("2.7").unwrap(),
    );
    let ps = build_order_params(&o, &instrument("0.10", "1")).unwrap();
    assert_eq!(
        ps,
        owned(&[
            ("symbol", "BTCUSDT"),
            ("side", "BUY"),
            ("type", "MARKET"),
            ("reduceOnly", "false"),
            ("quantity", "3"),
        ])
    );
}

#[test]
fn limit_order_params_include_time_in_force_and_price() {
    let o = Order {
        symbol: "BTCUSDT".to_string(),
        size: parse_decimal("0.5").unwrap(),
        order_side: OrderSide::Sell,
        order_type: OrderType::Market,
        time_in_force: Some(TimeInForce::Gtc),
        price: Some(parse_decimal("1.2345").unwrap()),
        reduce_only: true,
    };
    // tick size "0.010" demands exactly three fractional digits of the price
    let ps = build_order_params(&o, &instrument("0.010", "0.001")).unwrap();
    assert_eq!(
        ps,
        owned(&[
            ("symbol", "BTCUSDT"),
            ("side", "SELL"),
            ("type", "MARKET"),
            ("reduceOnly", "true"),
            ("quantity", "0.500"),
            ("timeInForce", "GTC"),
            ("price", "1.235"),
        ])
    );
}

#[test]
fn empty_lot_size_is_a_precision_error() {
    let o = Order::market_order(
        "BTCUSDT".to_string(),
        OrderSide::Buy,
        parse_decimal("1").unwrap(),
    );
    assert_eq!(
        build_order_params(&o, &instrument("0.10", "")),
        Err(ApiError::PrecisionError)
    );
}

#[test]
fn empty_tick_size_fails_only_priced_orders() {
    let mut o = Order::market_order(
        "BTCUSDT".to_string(),
        OrderSide::Buy,
        parse_decimal("1").unwrap(),
    );
    // a market order never reads the tick size
    assert!(build_order_params(&o, &instrument("", "1")).is_ok());
    o.price = Some(parse_decimal("5").unwrap());
    assert_eq!(
        build_order_params(&o, &instrument("", "1")),
        Err(ApiError::PrecisionError)
    );
}

#[test]
fn trade_side_signs() {
    assert_eq!(TradeSide::Buy.value(), 1);
    assert_eq!(TradeSide::Sell.value(), -1);
    assert_eq!(TradeSide::Flat.value(), 0);
    assert_eq!(TradeSide::default(), TradeSide::Flat);
}

#[test]
fn mode_spellings() {
    assert_eq!(Mode::from_str("backtest"), Ok(Mode::Backtest));
    assert_eq!(Mode::from_str("b"), Ok(Mode::Backtest));
    assert_eq!(Mode::from_str("hypertune"), Ok(Mode::Hypertune));
    assert_eq!(Mode::from_str("h"), Ok(Mode::Hypertune));
    assert_eq!(Mode::from_str("live"), Ok(Mode::Live));
    assert_eq!(Mode::from_str("l"), Ok(Mode::Live));
    assert_eq!(Mode::from_str("zzz"), Err("Invalid mode: zzz".to_string()));
    // the trait impl is the contracted function
    assert_eq!(parse_mode("hypertune"), Ok(Mode::Hypertune));
    assert_eq!(parse_mode("Backtest"), Err("Invalid mode: Backtest".to_string()));
}
