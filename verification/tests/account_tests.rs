use trade_utils::client::parse_account_response;
use trade_utils::decimal::Decimal;
use trade_utils::errors::{AccountField, ApiError};

fn d(mantissa: u64, scale: u32) -> Decimal {
    Decimal { neg: false, mantissa, scale }
}

#[test]
fn zero_balances_are_excluded() {
    let text = r#"{
        "assets": [
            {"asset": "USDT", "walletBalance": "10.5", "availableBalance": "0", "updateTime": 1},
            {"asset": "BTC", "walletBalance": "5", "availableBalance": "5", "updateTime": 2}
        ],
        "positions": []
    }"#;
    let acc = parse_account_response(text).unwrap();
    assert_eq!(acc.assets.len(), 1);
    assert_eq!(acc.assets[0].asset, "BTC");
    assert_eq!(acc.assets[0].wallet_balance, d(5, 0));
    assert_eq!(acc.assets[0].available_balance, d(5, 0));
    assert_eq!(acc.assets[0].update_timestamp, 2);
    assert_eq!(acc.positions.len(), 0);
}

#[test]
fn zero_size_positions_are_excluded() {
    let text = r#"{
        "assets": [],
        "positions": [
            {"symbol": "BTCUSDT", "unrealizedProfit": "0.1", "leverage": "20",
             "entryPrice": "30000.5", "positionSide": "BOTH", "positionAmt": "0.000"},
            {"symbol": "ETHUSDT", "unrealizedProfit": "-2.5", "leverage": "10",
             "entryPrice": "2000", "positionSide": "BOTH", "positionAmt": "-1.5"}
        ]
    }"#;
    let acc = parse_account_response(text).unwrap();
    assert_eq!(acc.positions.len(), 1);
    let p = &acc.positions[0];
    assert_eq!(p.symbol, "ETHUSDT");
    assert_eq!(p.leverage, 10);
    assert_eq!(p.entry_price, d(2000, 0));
    assert_eq!(p.position_side, "BOTH");
    assert!(p.unrealized_profit.neg);
    assert!(p.position_amt.neg);
    assert_eq!(p.position_amt.mantissa, 15);
    assert_eq!(p.position_amt.scale, 1);
}

#[test]
fn missing_fields_fail_the_whole_call() {
    let no_assets = r#"{"positions": []}"#;
    assert_eq!(
        parse_account_response(no_assets),
        Err(ApiError::MalformedAccount(AccountField::Assets))
    );
    let no_positions = r#"{"assets": []}"#;
    assert_eq!(
        parse_account_response(no_positions),
        Err(ApiError::MalformedAccount(AccountField::Positions))
    );
    let bad_balance = r#"{
        "assets": [{"asset": "BTC", "walletBalance": 5, "availableBalance": "5", "updateTime": 2}],
        "positions": []
    }"#;
    assert_eq!(
        parse_account_response(bad_balance),
        Err(ApiError::MalformedAccount(AccountField::WalletBalance))
    );
    let bad_leverage = r#"{
        "assets": [],
        "positions": [{"symbol": "X", "unrealizedProfit": "0", "leverage": "abc",
                       "entryPrice": "1", "positionSide": "BOTH", "positionAmt": "1"}]
    }"#;
    assert_eq!(
        parse_account_response(bad_leverage),
        Err(ApiError::MalformedAccount(AccountField::Leverage))
    );
    assert_eq!(parse_account_response("]["), Err(ApiError::MalformedJson));
}

#[test]
fn usd_balance_is_the_usdt_available_balance() {
    let text = r#"{
        "assets": [
            {"asset": "BTC", "walletBalance": "1", "availableBalance": "1", "updateTime": 1},
            {"asset": "USDT", "walletBalance": "80.25", "availableBalance": "42.50", "updateTime": 1}
        ],
        "positions": []
    }"#;
    let acc = parse_account_response(text).unwrap();
    assert_eq!(acc.get_usd_balance(), d(4250, 2));
}

#[test]
fn usd_balance_defaults_to_zero() {
    let text = r#"{
        "assets": [
            {"asset": "BTC", "walletBalance": "1", "availableBalance": "1", "updateTime": 1}
        ],
        "positions": []
    }"#;
    let acc = parse_account_response(text).unwrap();
    assert!(acc.get_usd_balance().is_zero());
}
