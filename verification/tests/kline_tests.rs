use trade_utils::client::parse_klines_response;
use trade_utils::decimal::Decimal;
use trade_utils::errors::{ApiError, RawValue};
use trade_utils::json::JsonVal;
use trade_utils::kline::{parse_api_kline, parse_api_klines, Kline};

fn s(text: &str) -> JsonVal {
    JsonVal::Str(text.to_string())
}

fn row(open_ts: i64, open: &str, high: &str, low: &str, close: &str, close_ts: i64) -> JsonVal {
    JsonVal::Arr(vec![
        JsonVal::Int(open_ts),
        s(open),
        s(high),
        s(low),
        s(close),
        s("1000.0"), // volume, ignored
        JsonVal::Int(close_ts),
        s("50000.0"),
        JsonVal::Int(42),
        s("1.0"),
        s("2.0"),
        s("0"),
    ])
}

fn d(mantissa: u64, scale: u32) -> Decimal {
    Decimal { neg: false, mantissa, scale }
}

#[test]
fn parse_valid_row() {
    let k = parse_api_kline(&row(100, "1.5", "2.5", "0.5", "2.0", 200)).unwrap();
    assert_eq!(
        k,
        Kline {
            open_timestamp: 100,
            close_timestamp: 200,
            open: d(15, 1),
            high: d(25, 1),
            low: d(5, 1),
            close: d(20, 1),
        }
    );
}

#[test]
fn parse_row_errors_name_index_and_raw_value() {
    // not an array at all
    assert_eq!(
        parse_api_kline(&JsonVal::Null),
        Err(ApiError::MalformedCandle { index: 0, value: RawValue::Null })
    );
    // open time must be an integer; the error carries the string found there
    let bad0 = JsonVal::Arr(vec![s("100"), s("1"), s("2"), s("0"), s("1"), s("v"), JsonVal::Int(2)]);
    assert_eq!(
        parse_api_kline(&bad0),
        Err(ApiError::MalformedCandle { index: 0, value: RawValue::Text("100".to_string()) })
    );
    // a price must be a numeric string; the error carries the integer found
    let bad2 = JsonVal::Arr(vec![
        JsonVal::Int(1),
        s("1"),
        JsonVal::Int(2),
        s("0"),
        s("1"),
        s("v"),
        JsonVal::Int(2),
    ]);
    assert_eq!(
        parse_api_kline(&bad2),
        Err(ApiError::MalformedCandle { index: 2, value: RawValue::Int(2) })
    );
    // a non-numeric price string is carried whole
    let badnum = JsonVal::Arr(vec![
        JsonVal::Int(1),
        s("x"),
        s("2"),
        s("0"),
        s("1"),
        s("v"),
        JsonVal::Int(2),
    ]);
    assert_eq!(
        parse_api_kline(&badnum),
        Err(ApiError::MalformedCandle { index: 1, value: RawValue::Text("x".to_string()) })
    );
    // too short: index 6 is missing
    let short = JsonVal::Arr(vec![JsonVal::Int(1), s("1"), s("2"), s("0"), s("1"), s("v")]);
    assert_eq!(
        parse_api_kline(&short),
        Err(ApiError::MalformedCandle { index: 6, value: RawValue::Missing })
    );
    // close before open cannot be a candle; the close timestamp is carried
    assert_eq!(
        parse_api_kline(&row(300, "1", "2", "0", "1", 200)),
        Err(ApiError::MalformedCandle { index: 6, value: RawValue::Int(200) })
    );
}

#[test]
fn batch_is_sorted_strictly_ascending() {
    let rows = vec![
        row(250, "3", "3", "3", "3", 300),
        row(50, "1", "1", "1", "1", 100),
        row(150, "2", "2", "2", "2", 200),
    ];
    let ks = parse_api_klines(&rows).unwrap();
    let stamps: Vec<i64> = ks.iter().map(|k| k.close_timestamp).collect();
    assert_eq!(stamps, vec![100, 200, 300]);
    assert!(stamps.windows(2).all(|w| w[0] < w[1]));
}

#[test]
fn batch_fails_on_first_bad_row() {
    let rows = vec![
        row(1, "1", "1", "1", "1", 2),
        JsonVal::Bool(true),
        JsonVal::Null,
    ];
    assert_eq!(
        parse_api_klines(&rows),
        Err(ApiError::MalformedCandle { index: 0, value: RawValue::Bool(true) })
    );
}

#[test]
fn response_text_round_trip() {
    let text = r#"[[100,"1.5","2.5","0.5","2.0","1000",200,"5",42,"1","2","0"],
                   [200,"2.0","3.0","1.5","2.5","900",300,"5",41,"1","2","0"]]"#;
    let ks = parse_klines_response(text).unwrap();
    assert_eq!(ks.len(), 2);
    assert_eq!(ks[0].close_timestamp, 200);
    assert_eq!(ks[1].close_timestamp, 300);
    assert_eq!(ks[0].open, d(15, 1));
}

#[test]
fn response_text_must_be_a_json_array() {
    assert_eq!(parse_klines_response("not json"), Err(ApiError::MalformedJson));
    assert_eq!(parse_klines_response("{\"a\":1}"), Err(ApiError::MalformedJson));
}
