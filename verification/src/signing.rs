//! Signed-request construction.
//!
//! A private endpoint call concatenates its parameters as `key=value&` in
//! order, appends `timestamp=<epoch ms>`, and authenticates that exact byte
//! string with HMAC-SHA256 under the account secret, hex-encoded. The
//! timestamp signed is the very timestamp sent, and the signature is
//! appended last, since it covers everything before it.

use vstd::prelude::*;
use vstd::utf8::encode_utf8;

use hmac::{Hmac, KeyInit, Mac};
use sha2::Sha256;

use crate::decimal::{digit_char, i64_to_string, spec_i64_digits};

verus! {

/// The parameter pairs by contents.
pub open spec fn spec_pairs(ps: Seq<(String, String)>) -> Seq<(Seq<char>, Seq<char>)> {
    ps.map_values(|p: (String, String)| (p.0@, p.1@))
}

/// The query prefix `k=v&` for each pair, in the order given.
pub open spec fn spec_query_prefix(params: Seq<(Seq<char>, Seq<char>)>) -> Seq<char>
    decreases params.len(),
{
    if params.len() == 0 {
        Seq::empty()
    } else {
        spec_query_prefix(params.drop_last()) + params.last().0 + "="@ + params.last().1 + "&"@
    }
}

/// The exact string the signature covers: every pair as `k=v&`, then
/// `timestamp=<ts>` with no trailing separator.
pub open spec fn spec_signing_payload(params: Seq<(Seq<char>, Seq<char>)>, ts: i64) -> Seq<char> {
    spec_query_prefix(params) + "timestamp="@ + spec_i64_digits(ts as int)
}

/// The HMAC-SHA256 digest: a function of key and message alone.
pub uninterp spec fn hmac_sha256_of(key: Seq<u8>, msg: Seq<u8>) -> Seq<u8>;

/// Relies on `hmac::Hmac` over `sha2::Sha256` (`new_from_slice`, `update`,
/// `finalize`): the MAC is a deterministic function of key and message
/// alone and is 32 bytes long; HMAC accepts keys of any length, so
/// `new_from_slice` never fails.
#[verifier::external_body]
fn hmac_sha256(key: &[u8], msg: &[u8]) -> (r: Vec<u8>)
    ensures
        r@ == hmac_sha256_of(key@, msg@),
        r@.len() == 32,
{
    let mut mac = Hmac::<Sha256>::new_from_slice(key).expect("HMAC accepts keys of any length");
    mac.update(msg);
    mac.finalize().into_bytes().to_vec()
}

pub open spec fn hex_digit(d: nat) -> char {
    if d < 10 {
        digit_char(d)
    } else if d == 10 {
        'a'
    } else if d == 11 {
        'b'
    } else if d == 12 {
        'c'
    } else if d == 13 {
        'd'
    } else if d == 14 {
        'e'
    } else {
        'f'
    }
}

/// Lowercase hexadecimal: two digits for each byte, high nibble first, in
/// input order.
pub open spec fn spec_hex_lower(data: Seq<u8>) -> Seq<char>
    decreases data.len(),
{
    if data.len() == 0 {
        Seq::empty()
    } else {
        spec_hex_lower(data.drop_last()) + seq![
            hex_digit((data.last() >> 4) as nat),
            hex_digit((data.last() & 0x0f) as nat),
        ]
    }
}

/// Relies on `hex::encode`: lowercase hexadecimal, two digits for each
/// byte, high nibble first, in input order.
#[verifier::external_body]
fn hex_encode(data: &[u8]) -> (r: String)
    ensures
        r@ == spec_hex_lower(data@),
{
    hex::encode(data)
}

/// Hex writes two characters for each byte.
pub proof fn lemma_hex_lower_len(data: Seq<u8>)
    ensures
        spec_hex_lower(data).len() == 2 * data.len(),
    decreases data.len(),
{
    if data.len() > 0 {
        lemma_hex_lower_len(data.drop_last());
    }
}

/// Relies on `chrono::Utc::now` and `timestamp_millis`: the current time as
/// milliseconds since the Unix epoch, by the system clock. Nothing is
/// assumed of the value.
#[verifier::external_body]
fn now_millis() -> i64 {
    chrono::Utc::now().timestamp_millis()
}

/// The hex signature a parameter list gets under a secret at a timestamp: a
/// function of exactly those three.
pub open spec fn spec_signature_hex(
    params: Seq<(Seq<char>, Seq<char>)>,
    secret: Seq<char>,
    ts: i64,
) -> Seq<char> {
    spec_hex_lower(
        hmac_sha256_of(encode_utf8(secret), encode_utf8(spec_signing_payload(params, ts))),
    )
}

/// Build the exact byte string to be signed.
fn build_query(params: &Vec<(String, String)>, ts: i64) -> (q: String)
    ensures
        q@ == spec_signing_payload(spec_pairs(params@), ts),
{
    let mut q = String::new();
    let mut idx: usize = 0;
    proof {
        assert(spec_pairs(params@.take(0)) =~= Seq::<(Seq<char>, Seq<char>)>::empty());
        assert(q@ =~= spec_query_prefix(spec_pairs(params@.take(0))));
    }
    while idx < params.len()
        invariant
            idx <= params.len(),
            q@ == spec_query_prefix(spec_pairs(params@.take(idx as int))),
        decreases params.len() - idx,
    {
        q.append(params[idx].0.as_str());
        q.append("=");
        q.append(params[idx].1.as_str());
        q.append("&");
        proof {
            let prev = spec_pairs(params@.take(idx as int));
            let cur = spec_pairs(params@.take(idx + 1));
            assert(cur =~= prev.push((params@[idx as int].0@, params@[idx as int].1@)));
            assert(cur.drop_last() =~= prev);
            assert(cur.last() == (params@[idx as int].0@, params@[idx as int].1@));
        }
        idx += 1;
    }
    proof {
        assert(params@.take(params.len() as int) =~= params@);
    }
    q.append("timestamp=");
    let ts_str = i64_to_string(ts);
    q.append(ts_str.as_str());
    q
}

/// Append `timestamp` and the signature over everything before it, with the
/// timestamp fixed by the caller. The signature — a function of the
/// parameter list, the secret and the timestamp alone, so equal inputs are
/// signed identically — is 64 characters of lowercase hex: the 32-byte
/// HMAC-SHA256 digest, two digits a byte.
pub fn sign_with_timestamp(params: &mut Vec<(String, String)>, secret_key: &str, ts: i64)
    ensures
        spec_pairs(final(params)@) == spec_pairs(old(params)@).push(
            ("timestamp"@, spec_i64_digits(ts as int)),
        ).push(("signature"@, spec_signature_hex(spec_pairs(old(params)@), secret_key@, ts))),
        spec_signature_hex(spec_pairs(old(params)@), secret_key@, ts).len() == 64,
{
    let payload = build_query(params, ts);
    let digest = hmac_sha256(secret_key.as_bytes(), payload.as_str().as_bytes());
    proof {
        lemma_hex_lower_len(digest@);
    }
    let signature = hex_encode(digest.as_slice());
    let ts_str = i64_to_string(ts);
    let ghost before = spec_pairs(params@);
    params.push(("timestamp".to_owned(), ts_str));
    let ghost with_ts = spec_pairs(params@);
    proof {
        assert(with_ts =~= before.push(("timestamp"@, spec_i64_digits(ts as int))));
    }
    params.push(("signature".to_owned(), signature));
    proof {
        assert(spec_pairs(params@) =~= with_ts.push(
            ("signature"@, spec_signature_hex(before, secret_key@, ts)),
        ));
    }
}

/// Append `timestamp` (the clock's current epoch milliseconds, also
/// returned) and then the 64-character lowercase-hex HMAC-SHA256 signature
/// computed under `secret_key` over the exact query string built from the
/// parameters and that same timestamp.
pub fn hash_signature(params: &mut Vec<(String, String)>, secret_key: &str) -> (ts: i64)
    ensures
        spec_pairs(final(params)@) == spec_pairs(old(params)@).push(
            ("timestamp"@, spec_i64_digits(ts as int)),
        ).push(("signature"@, spec_signature_hex(spec_pairs(old(params)@), secret_key@, ts))),
        spec_signature_hex(spec_pairs(old(params)@), secret_key@, ts).len() == 64,
{
    let ts = now_millis();
    sign_with_timestamp(params, secret_key, ts);
    ts
}

/// Signing is deterministic: equal parameter lists, equal secrets and equal
/// timestamps — as two signings within the same millisecond have — yield
/// the identical signature.
pub proof fn lemma_signature_deterministic(
    p1: Seq<(Seq<char>, Seq<char>)>,
    p2: Seq<(Seq<char>, Seq<char>)>,
    s1: Seq<char>,
    s2: Seq<char>,
    t1: i64,
    t2: i64,
)
    requires
        p1 == p2,
        s1 == s2,
        t1 == t2,
    ensures
        spec_signature_hex(p1, s1, t1) == spec_signature_hex(p2, s2, t2),
{
}

} // verus!
