use hmac::{Hmac, KeyInit, Mac};
use sha2::Sha256;

use trade_utils::signing::{hash_signature, sign_with_timestamp};

fn reference_signature(secret: &str, payload: &str) -> String {
    let mut mac = Hmac::<Sha256>::new_from_slice(secret.as_bytes()).unwrap();
    mac.update(payload.as_bytes());
    hex::encode(mac.finalize().into_bytes())
}

fn pairs(items: &[(&str, &str)]) -> Vec<(String, String)> {
    items.iter().map(|(k, v)| (k.to_string(), v.to_string())).collect()
}

#[test]
fn signature_covers_the_exact_query_string() {
    let mut params = pairs(&[("symbol", "BTCUSDT"), ("side", "BUY")]);
    sign_with_timestamp(&mut params, "topsecret", 1700000000000);
    assert_eq!(params.len(), 4);
    assert_eq!(params[2], ("timestamp".to_string(), "1700000000000".to_string()));
    assert_eq!(params[3].0, "signature");
    let expected =
        reference_signature("topsecret", "symbol=BTCUSDT&side=BUY&timestamp=1700000000000");
    assert_eq!(params[3].1, expected);
}

#[test]
fn empty_parameter_list_signs_only_the_timestamp() {
    let mut params: Vec<(String, String)> = Vec::new();
    sign_with_timestamp(&mut params, "s3cr3t", 42);
    assert_eq!(params[0], ("timestamp".to_string(), "42".to_string()));
    assert_eq!(params[1].1, reference_signature("s3cr3t", "timestamp=42"));
}

#[test]
fn same_inputs_sign_identically() {
    let mut a = pairs(&[("symbol", "ETHUSDT"), ("type", "MARKET")]);
    let mut b = pairs(&[("symbol", "ETHUSDT"), ("type", "MARKET")]);
    sign_with_timestamp(&mut a, "k1", 1234567);
    sign_with_timestamp(&mut b, "k1", 1234567);
    assert_eq!(a, b);
}

#[test]
fn different_secrets_sign_differently() {
    let mut a = pairs(&[("symbol", "ETHUSDT")]);
    let mut b = pairs(&[("symbol", "ETHUSDT")]);
    sign_with_timestamp(&mut a, "k1", 1234567);
    sign_with_timestamp(&mut b, "k2", 1234567);
    assert_ne!(a.last().unwrap().1, b.last().unwrap().1);
}

#[test]
fn hash_signature_appends_timestamp_then_signature() {
    let mut params = pairs(&[("symbol", "BTCUSDT")]);
    let ts = hash_signature(&mut params, "topsecret");
    assert_eq!(params.len(), 3);
    assert_eq!(params[1].0, "timestamp");
    assert_eq!(params[1].1, ts.to_string());
    assert_eq!(params[2].0, "signature");
    // the signed timestamp is the sent timestamp
    let payload = format!("symbol=BTCUSDT&timestamp={}", ts);
    assert_eq!(params[2].1, reference_signature("topsecret", &payload));
    // hex: two lowercase digits per digest byte
    assert_eq!(params[2].1.len(), 64);
    assert!(params[2].1.chars().all(|c| c.is_ascii_hexdigit() && !c.is_ascii_uppercase()));
}
