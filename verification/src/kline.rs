//! Candles (klines): parsing raw exchange rows and ordering batches.
//!
//! The market-data endpoint answers with an array of 12-element rows; a row
//! carries the open time at index 0, the open/high/low/close prices as
//! numeric strings at indices 1 through 4, and the close time at index 6.
//! Anything missing or wrongly typed fails with the offending index; a parsed
//! batch is returned sorted ascending by close timestamp.

use vstd::prelude::*;

use crate::decimal::{spec_parse_decimal, parse_decimal, Decimal};
use crate::errors::{api_err_eq, raw_value_eq, ApiError, RawValue};
use crate::json::JsonVal;

verus! {

/// One fixed-interval OHLC summary. Timestamps are epoch milliseconds;
/// prices are exact decimals. A candle parsed from the exchange always
/// satisfies [`Kline::wf`]: it closes no earlier than it opens.
#[derive(Clone, Copy, Debug, PartialEq, Eq, Structural)]
pub struct Kline {
    pub open_timestamp: i64,
    pub close_timestamp: i64,
    pub open: Decimal,
    pub high: Decimal,
    pub low: Decimal,
    pub close: Decimal,
}

impl Kline {
    pub open spec fn wf(self) -> bool {
        self.close_timestamp >= self.open_timestamp
    }
}

/// What an error can carry of one raw value: scalars and strings whole,
/// containers by kind.
pub open spec fn spec_raw_of(v: JsonVal) -> RawValue {
    match v {
        JsonVal::Null => RawValue::Null,
        JsonVal::Bool(b) => RawValue::Bool(b),
        JsonVal::Int(n) => RawValue::Int(n),
        JsonVal::InexactNum => RawValue::InexactNum,
        JsonVal::Str(s) => RawValue::Text(s),
        JsonVal::Arr(_) => RawValue::Arr,
        JsonVal::Obj(_) => RawValue::Obj,
    }
}

fn raw_of(v: &JsonVal) -> (r: RawValue)
    ensures
        raw_value_eq(spec_raw_of(*v), r),
{
    match v {
        JsonVal::Null => RawValue::Null,
        JsonVal::Bool(b) => RawValue::Bool(*b),
        JsonVal::Int(n) => RawValue::Int(*n),
        JsonVal::InexactNum => RawValue::InexactNum,
        JsonVal::Str(s) => RawValue::Text(s.clone()),
        JsonVal::Arr(_) => RawValue::Arr,
        JsonVal::Obj(_) => RawValue::Obj,
    }
}

/// The raw value at index `i` of a row, [`RawValue::Missing`] past its end.
pub open spec fn spec_raw_at(items: Seq<JsonVal>, i: int) -> RawValue {
    if 0 <= i < items.len() {
        spec_raw_of(items[i])
    } else {
        RawValue::Missing
    }
}

fn raw_at(items: &Vec<JsonVal>, i: usize) -> (r: RawValue)
    ensures
        raw_value_eq(spec_raw_at(items@, i as int), r),
{
    if i < items.len() {
        raw_of(&items[i])
    } else {
        RawValue::Missing
    }
}

/// The integer at index `i`, if the row holds one there.
pub open spec fn spec_int_at(items: Seq<JsonVal>, i: int) -> Option<i64> {
    if 0 <= i < items.len() {
        match items[i] {
            JsonVal::Int(n) => Some(n),
            _ => None,
        }
    } else {
        None
    }
}

/// The decimal behind the numeric string at index `i`, if the row holds a
/// parseable one there.
pub open spec fn spec_dec_at(items: Seq<JsonVal>, i: int) -> Option<Decimal> {
    if 0 <= i < items.len() {
        match items[i] {
            JsonVal::Str(s) => spec_parse_decimal(s@),
            _ => None,
        }
    } else {
        None
    }
}

/// What parsing one raw candle row returns: the typed candle, or the first
/// offending index together with the raw value found there. Index 6 is also
/// charged, with the close timestamp as the raw value, when the close
/// timestamp precedes the open one, since such a row cannot be a candle. A
/// row that is no array at all is charged at index 0 with its own kind.
pub open spec fn spec_parse_api_kline(row: JsonVal) -> Result<Kline, ApiError> {
    match row {
        JsonVal::Arr(items) => spec_parse_kline_items(items@),
        _ => Err(ApiError::MalformedCandle { index: 0, value: spec_raw_of(row) }),
    }
}

pub open spec fn spec_parse_kline_items(items: Seq<JsonVal>) -> Result<Kline, ApiError> {
    match (spec_int_at(items, 0), spec_dec_at(items, 1), spec_dec_at(items, 2), spec_dec_at(
        items,
        3,
    ), spec_dec_at(items, 4), spec_int_at(items, 6)) {
        (None, _, _, _, _, _) => Err(
            ApiError::MalformedCandle { index: 0, value: spec_raw_at(items, 0) },
        ),
        (_, None, _, _, _, _) => Err(
            ApiError::MalformedCandle { index: 1, value: spec_raw_at(items, 1) },
        ),
        (_, _, None, _, _, _) => Err(
            ApiError::MalformedCandle { index: 2, value: spec_raw_at(items, 2) },
        ),
        (_, _, _, None, _, _) => Err(
            ApiError::MalformedCandle { index: 3, value: spec_raw_at(items, 3) },
        ),
        (_, _, _, _, None, _) => Err(
            ApiError::MalformedCandle { index: 4, value: spec_raw_at(items, 4) },
        ),
        (_, _, _, _, _, None) => Err(
            ApiError::MalformedCandle { index: 6, value: spec_raw_at(items, 6) },
        ),
        (
            Some(open_timestamp),
            Some(open),
            Some(high),
            Some(low),
            Some(close),
            Some(close_timestamp),
        ) => {
            if close_timestamp >= open_timestamp {
                Ok(Kline { open_timestamp, close_timestamp, open, high, low, close })
            } else {
                Err(
                    ApiError::MalformedCandle {
                        index: 6,
                        value: RawValue::Int(close_timestamp),
                    },
                )
            }
        },
    }
}

fn int_at(items: &Vec<JsonVal>, i: usize) -> (r: Option<i64>)
    ensures
        r == spec_int_at(items@, i as int),
{
    if i < items.len() {
        match &items[i] {
            JsonVal::Int(n) => Some(*n),
            _ => None,
        }
    } else {
        None
    }
}

fn dec_at(items: &Vec<JsonVal>, i: usize) -> (r: Option<Decimal>)
    ensures
        r == spec_dec_at(items@, i as int),
{
    if i < items.len() {
        match &items[i] {
            JsonVal::Str(s) => parse_decimal(s.as_str()),
            _ => None,
        }
    } else {
        None
    }
}

/// Parse one raw exchange candle row: open time at index 0, prices as
/// numeric strings at indices 1 to 4, close time at index 6. Fails with
/// [`ApiError::MalformedCandle`] naming the first offending index and the
/// raw value found there, never defaulting a field.
pub fn parse_api_kline(row: &JsonVal) -> (r: Result<Kline, ApiError>)
    ensures
        r matches Ok(k) ==> spec_parse_api_kline(*row) == Result::<Kline, ApiError>::Ok(k)
            && k.wf(),
        r matches Err(e) ==> spec_parse_api_kline(*row) matches Err(se) && api_err_eq(se, e),
{
    match row {
        JsonVal::Arr(items) => {
            let open_timestamp = match int_at(items, 0) {
                Some(v) => v,
                None => {
                    return Err(ApiError::MalformedCandle { index: 0, value: raw_at(items, 0) });
                },
            };
            let open = match dec_at(items, 1) {
                Some(v) => v,
                None => {
                    return Err(ApiError::MalformedCandle { index: 1, value: raw_at(items, 1) });
                },
            };
            let high = match dec_at(items, 2) {
                Some(v) => v,
                None => {
                    return Err(ApiError::MalformedCandle { index: 2, value: raw_at(items, 2) });
                },
            };
            let low = match dec_at(items, 3) {
                Some(v) => v,
                None => {
                    return Err(ApiError::MalformedCandle { index: 3, value: raw_at(items, 3) });
                },
            };
            let close = match dec_at(items, 4) {
                Some(v) => v,
                None => {
                    return Err(ApiError::MalformedCandle { index: 4, value: raw_at(items, 4) });
                },
            };
            let close_timestamp = match int_at(items, 6) {
                Some(v) => v,
                None => {
                    return Err(ApiError::MalformedCandle { index: 6, value: raw_at(items, 6) });
                },
            };
            if close_timestamp >= open_timestamp {
                Ok(Kline { open_timestamp, close_timestamp, open, high, low, close })
            } else {
                Err(
                    ApiError::MalformedCandle {
                        index: 6,
                        value: RawValue::Int(close_timestamp),
                    },
                )
            }
        },
        _ => Err(ApiError::MalformedCandle { index: 0, value: raw_of(row) }),
    }
}

/// Close timestamps never decrease along the batch.
pub open spec fn sorted_by_close(s: Seq<Kline>) -> bool {
    forall|i: int, j: int|
        0 <= i < j < s.len() ==> #[trigger] s[i].close_timestamp <= #[trigger] s[
            j
        ].close_timestamp
}

/// `k` inserted into `s` in front of the first element with an equal or
/// later close timestamp.
pub open spec fn spec_insert_by_close(k: Kline, s: Seq<Kline>) -> Seq<Kline>
    decreases s.len(),
{
    if s.len() == 0 {
        seq![k]
    } else if k.close_timestamp <= s[0].close_timestamp {
        seq![k] + s
    } else {
        seq![s[0]] + spec_insert_by_close(k, s.drop_first())
    }
}

/// Insertion sort of a candle batch by close timestamp.
pub open spec fn spec_sort_by_close(s: Seq<Kline>) -> Seq<Kline>
    decreases s.len(),
{
    if s.len() == 0 {
        Seq::empty()
    } else {
        spec_insert_by_close(s.last(), spec_sort_by_close(s.drop_last()))
    }
}

pub proof fn lemma_insert_by_close_sorted(k: Kline, s: Seq<Kline>)
    requires
        sorted_by_close(s),
    ensures
        sorted_by_close(spec_insert_by_close(k, s)),
        spec_insert_by_close(k, s).len() == s.len() + 1,
    decreases s.len(),
{
    if s.len() == 0 {
    } else if k.close_timestamp <= s[0].close_timestamp {
        let r = seq![k] + s;
        assert forall|i: int, j: int| 0 <= i < j < r.len() implies #[trigger] r[i].close_timestamp
            <= #[trigger] r[j].close_timestamp by {
            if i > 0 {
                assert(s[i - 1].close_timestamp <= s[j - 1].close_timestamp);
            } else if j > 0 {
                assert(k.close_timestamp <= s[0].close_timestamp);
                if j > 1 {
                    assert(s[0].close_timestamp <= s[j - 1].close_timestamp);
                }
            }
        }
    } else {
        assert(sorted_by_close(s.drop_first())) by {
            assert forall|i: int, j: int|
                0 <= i < j < s.drop_first().len() implies #[trigger] s.drop_first()[
                i
            ].close_timestamp <= #[trigger] s.drop_first()[j].close_timestamp by {
                assert(s[i + 1].close_timestamp <= s[j + 1].close_timestamp);
            }
        }
        lemma_insert_by_close_sorted(k, s.drop_first());
        let inner = spec_insert_by_close(k, s.drop_first());
        let r = seq![s[0]] + inner;
        assert forall|i: int, j: int| 0 <= i < j < r.len() implies #[trigger] r[i].close_timestamp
            <= #[trigger] r[j].close_timestamp by {
            if i > 0 {
                assert(inner[i - 1].close_timestamp <= inner[j - 1].close_timestamp);
            } else {
                // the head is at most every element of the inserted tail:
                // each of them is either `k` (which is later here) or a tail
                // element of `s`
                assert(s[0].close_timestamp <= inner[j - 1].close_timestamp) by {
                    lemma_insert_members(k, s.drop_first(), j - 1);
                    if inner[j - 1] != k {
                        let t = choose|t: int|
                            0 <= t < s.drop_first().len() && s.drop_first()[t] == inner[j - 1];
                        assert(s[t + 1] == inner[j - 1]);
                        assert(s[0].close_timestamp <= s[t + 1].close_timestamp);
                    }
                }
            }
        }
    }
}

/// Every element of an insertion result is the inserted candle or one of the
/// original elements.
pub proof fn lemma_insert_members(k: Kline, s: Seq<Kline>, x: int)
    requires
        0 <= x < spec_insert_by_close(k, s).len(),
    ensures
        spec_insert_by_close(k, s)[x] == k || exists|t: int|
            0 <= t < s.len() && s[t] == spec_insert_by_close(k, s)[x],
    decreases s.len(),
{
    if s.len() == 0 {
    } else if k.close_timestamp <= s[0].close_timestamp {
        if x > 0 {
            assert(s[x - 1] == spec_insert_by_close(k, s)[x]);
        }
    } else {
        if x == 0 {
            assert(s[0] == spec_insert_by_close(k, s)[0]);
        } else {
            lemma_insert_members(k, s.drop_first(), x - 1);
            let r = spec_insert_by_close(k, s.drop_first());
            if r[x - 1] != k {
                let t = choose|t: int| 0 <= t < s.drop_first().len() && s.drop_first()[t] == r[x
                    - 1];
                assert(s[t + 1] == spec_insert_by_close(k, s)[x]);
            }
        }
    }
}

pub proof fn lemma_sort_by_close_sorted(s: Seq<Kline>)
    ensures
        sorted_by_close(spec_sort_by_close(s)),
        spec_sort_by_close(s).len() == s.len(),
    decreases s.len(),
{
    if s.len() > 0 {
        lemma_sort_by_close_sorted(s.drop_last());
        lemma_insert_by_close_sorted(s.last(), spec_sort_by_close(s.drop_last()));
    }
}

/// How many candles of `s` close at `t`.
pub open spec fn count_close(s: Seq<Kline>, t: i64) -> nat
    decreases s.len(),
{
    if s.len() == 0 {
        0
    } else {
        count_close(s.drop_first(), t) + if s[0].close_timestamp == t {
            1 as nat
        } else {
            0 as nat
        }
    }
}

pub proof fn lemma_count_close_push(s: Seq<Kline>, k: Kline, t: i64)
    ensures
        count_close(s.push(k), t) == count_close(s, t) + if k.close_timestamp == t {
            1 as nat
        } else {
            0 as nat
        },
    decreases s.len(),
{
    if s.len() == 0 {
        assert(s.push(k).drop_first() =~= Seq::<Kline>::empty());
        assert(s.push(k)[0] == k);
        assert(s.push(k).len() == 1);
        assert(count_close(s.push(k), t) == count_close(s.push(k).drop_first(), t) + if s.push(k)[
            0
        ].close_timestamp == t {
            1 as nat
        } else {
            0 as nat
        });
        assert(count_close(Seq::<Kline>::empty(), t) == 0);
    } else {
        assert(s.push(k).drop_first() =~= s.drop_first().push(k));
        assert(s.push(k)[0] == s[0]);
        lemma_count_close_push(s.drop_first(), k, t);
        assert(count_close(s.push(k), t) == count_close(s.push(k).drop_first(), t) + if s.push(k)[
            0
        ].close_timestamp == t {
            1 as nat
        } else {
            0 as nat
        });
        assert(count_close(s, t) == count_close(s.drop_first(), t) + if s[0].close_timestamp == t {
            1 as nat
        } else {
            0 as nat
        });
    }
}

pub proof fn lemma_insert_count(k: Kline, s: Seq<Kline>, t: i64)
    ensures
        count_close(spec_insert_by_close(k, s), t) == count_close(s, t) + if k.close_timestamp
            == t {
            1 as nat
        } else {
            0 as nat
        },
    decreases s.len(),
{
    if s.len() == 0 {
        assert(seq![k].drop_first() =~= Seq::<Kline>::empty());
        assert(count_close(seq![k], t) == count_close(seq![k].drop_first(), t) + if seq![k][
            0
        ].close_timestamp == t {
            1 as nat
        } else {
            0 as nat
        });
        assert(count_close(Seq::<Kline>::empty(), t) == 0);
    } else if k.close_timestamp <= s[0].close_timestamp {
        let r = seq![k] + s;
        assert(r.drop_first() =~= s);
        assert(r[0] == k);
        assert(count_close(r, t) == count_close(r.drop_first(), t) + if r[0].close_timestamp
            == t {
            1 as nat
        } else {
            0 as nat
        });
    } else {
        lemma_insert_count(k, s.drop_first(), t);
        let r = seq![s[0]] + spec_insert_by_close(k, s.drop_first());
        assert(r.drop_first() =~= spec_insert_by_close(k, s.drop_first()));
        assert(r[0] == s[0]);
        assert(count_close(r, t) == count_close(r.drop_first(), t) + if r[0].close_timestamp
            == t {
            1 as nat
        } else {
            0 as nat
        });
        assert(count_close(s, t) == count_close(s.drop_first(), t) + if s[0].close_timestamp == t {
            1 as nat
        } else {
            0 as nat
        });
    }
}

pub proof fn lemma_sort_count(s: Seq<Kline>, t: i64)
    ensures
        count_close(spec_sort_by_close(s), t) == count_close(s, t),
    decreases s.len(),
{
    if s.len() > 0 {
        lemma_sort_count(s.drop_last(), t);
        lemma_insert_count(s.last(), spec_sort_by_close(s.drop_last()), t);
        lemma_count_close_push(s.drop_last(), s.last(), t);
        assert(s.drop_last().push(s.last()) =~= s);
    }
}

pub proof fn lemma_count_at_least_one(s: Seq<Kline>, i: int, t: i64)
    requires
        0 <= i < s.len(),
        s[i].close_timestamp == t,
    ensures
        count_close(s, t) >= 1,
    decreases s.len(),
{
    if i > 0 {
        lemma_count_at_least_one(s.drop_first(), i - 1, t);
    }
}

pub proof fn lemma_count_at_least_two(s: Seq<Kline>, i: int, j: int, t: i64)
    requires
        0 <= i < j < s.len(),
        s[i].close_timestamp == t,
        s[j].close_timestamp == t,
    ensures
        count_close(s, t) >= 2,
    decreases s.len(),
{
    if i == 0 {
        lemma_count_at_least_one(s.drop_first(), j - 1, t);
    } else {
        lemma_count_at_least_two(s.drop_first(), i - 1, j - 1, t);
    }
}

pub proof fn lemma_distinct_count(s: Seq<Kline>, t: i64)
    requires
        forall|i: int, j: int|
            0 <= i < j < s.len() ==> #[trigger] s[i].close_timestamp != #[trigger] s[
                j
            ].close_timestamp,
    ensures
        count_close(s, t) <= 1,
    decreases s.len(),
{
    if s.len() > 0 {
        let d = s.drop_first();
        assert(forall|i: int, j: int|
            0 <= i < j < d.len() ==> #[trigger] d[i].close_timestamp != #[trigger] d[
                j
            ].close_timestamp) by {
            assert forall|i: int, j: int|
                0 <= i < j < d.len() implies #[trigger] d[i].close_timestamp != #[trigger] d[
                j
            ].close_timestamp by {
                assert(s[i + 1].close_timestamp != s[j + 1].close_timestamp);
            }
        }
        lemma_distinct_count(d, t);
        if s[0].close_timestamp == t {
            assert(count_close(d, t) == 0) by {
                if count_close(d, t) > 0 {
                    lemma_count_positive_member(d, t);
                    let w = choose|w: int| 0 <= w < d.len() && d[w].close_timestamp == t;
                    assert(s[0].close_timestamp != s[w + 1].close_timestamp);
                }
            }
        }
    }
}

pub proof fn lemma_count_positive_member(s: Seq<Kline>, t: i64)
    requires
        count_close(s, t) > 0,
    ensures
        exists|w: int| 0 <= w < s.len() && #[trigger] s[w].close_timestamp == t,
    decreases s.len(),
{
    if s.len() > 0 {
        if s[0].close_timestamp == t {
            assert(s[0].close_timestamp == t);
        } else {
            lemma_count_positive_member(s.drop_first(), t);
            let w = choose|w: int|
                0 <= w < s.drop_first().len() && #[trigger] s.drop_first()[w].close_timestamp == t;
            assert(s[w + 1].close_timestamp == t);
        }
    }
}

/// A batch of candles with pairwise-distinct close timestamps comes back
/// from sorting strictly ascending by close timestamp.
pub proof fn lemma_sort_strictly_ascending(s: Seq<Kline>)
    requires
        forall|i: int, j: int|
            0 <= i < j < s.len() ==> #[trigger] s[i].close_timestamp != #[trigger] s[
                j
            ].close_timestamp,
    ensures
        forall|i: int, j: int|
            0 <= i < j < spec_sort_by_close(s).len() ==> #[trigger] spec_sort_by_close(s)[
                i
            ].close_timestamp < #[trigger] spec_sort_by_close(s)[j].close_timestamp,
{
    lemma_sort_by_close_sorted(s);
    let r = spec_sort_by_close(s);
    assert forall|i: int, j: int| 0 <= i < j < r.len() implies #[trigger] r[i].close_timestamp
        < #[trigger] r[j].close_timestamp by {
        assert(r[i].close_timestamp <= r[j].close_timestamp);
        if r[i].close_timestamp == r[j].close_timestamp {
            let t = r[i].close_timestamp;
            lemma_count_at_least_two(r, i, j, t);
            lemma_sort_count(s, t);
            lemma_distinct_count(s, t);
        }
    }
}

/// Exec insertion sort matching [`spec_sort_by_close`].
fn sort_klines(input: Vec<Kline>) -> (out: Vec<Kline>)
    ensures
        out@ == spec_sort_by_close(input@),
{
    let mut out: Vec<Kline> = Vec::new();
    let mut idx: usize = 0;
    proof {
        assert(input@.take(0) =~= Seq::<Kline>::empty());
    }
    while idx < input.len()
        invariant
            idx <= input.len(),
            out@ == spec_sort_by_close(input@.take(idx as int)),
        decreases input.len() - idx,
    {
        let k = input[idx];
        let mut j: usize = 0;
        while j < out.len() && out[j].close_timestamp < k.close_timestamp
            invariant
                j <= out.len(),
                forall|t: int| 0 <= t < j ==> #[trigger] out@[t].close_timestamp < k.close_timestamp,
            decreases out.len() - j,
        {
            j += 1;
        }
        let ghost old_out = out@;
        out.insert(j, k);
        proof {
            lemma_insert_at(old_out, k, j as int);
            assert(input@.take(idx + 1).drop_last() =~= input@.take(idx as int));
            assert(input@.take(idx + 1).last() == input@[idx as int]);
        }
        idx += 1;
    }
    proof {
        assert(input@.take(input.len() as int) =~= input@);
    }
    out
}

/// Inserting in front of the first element with an equal-or-later close
/// timestamp is one sequence insertion at that scan position.
proof fn lemma_insert_at(s: Seq<Kline>, k: Kline, j: int)
    requires
        0 <= j <= s.len(),
        forall|t: int| 0 <= t < j ==> #[trigger] s[t].close_timestamp < k.close_timestamp,
        j < s.len() ==> s[j].close_timestamp >= k.close_timestamp,
    ensures
        spec_insert_by_close(k, s) == s.insert(j, k),
    decreases s.len(),
{
    if s.len() == 0 {
        assert(seq![k] =~= s.insert(0, k));
    } else if k.close_timestamp <= s[0].close_timestamp {
        assert(j == 0) by {
            if j > 0 {
                assert(s[0].close_timestamp < k.close_timestamp);
            }
        }
        assert(seq![k] + s =~= s.insert(0, k));
    } else {
        assert(j >= 1) by {
            if j == 0 {
                assert(s[0].close_timestamp >= k.close_timestamp);
            }
        }
        let d = s.drop_first();
        assert(forall|t: int|
            0 <= t < j - 1 ==> #[trigger] d[t].close_timestamp < k.close_timestamp) by {
            assert forall|t: int|
                0 <= t < j - 1 implies #[trigger] d[t].close_timestamp < k.close_timestamp by {
                assert(s[t + 1].close_timestamp < k.close_timestamp);
            }
        }
        lemma_insert_at(d, k, j - 1);
        assert(seq![s[0]] + d.insert(j - 1, k) =~= s.insert(j, k));
    }
}

/// What parsing a whole batch of raw rows returns: every row parsed in
/// order, or the first row error.
pub open spec fn spec_parse_kline_rows(rows: Seq<JsonVal>) -> Result<Seq<Kline>, ApiError>
    decreases rows.len(),
{
    if rows.len() == 0 {
        Ok(Seq::empty())
    } else {
        match spec_parse_kline_rows(rows.drop_last()) {
            Err(e) => Err(e),
            Ok(ks) => match spec_parse_api_kline(rows.last()) {
                Err(e) => Err(e),
                Ok(k) => Ok(ks.push(k)),
            },
        }
    }
}

proof fn lemma_rows_error(rows: Seq<JsonVal>, idx: int, e: ApiError)
    requires
        0 <= idx < rows.len(),
        spec_parse_kline_rows(rows.take(idx)) is Ok,
        spec_parse_api_kline(rows[idx]) == Result::<Kline, ApiError>::Err(e),
    ensures
        spec_parse_kline_rows(rows) == Result::<Seq<Kline>, ApiError>::Err(e),
    decreases rows.len(),
{
    if idx == rows.len() - 1 {
        assert(rows.take(idx) =~= rows.drop_last());
    } else {
        assert(rows.drop_last().take(idx) =~= rows.take(idx));
        lemma_rows_error(rows.drop_last(), idx, e);
    }
}

/// Every candle of a fully parsed batch is well formed.
pub proof fn lemma_rows_all_wf(rows: Seq<JsonVal>, ks: Seq<Kline>)
    requires
        spec_parse_kline_rows(rows) == Result::<Seq<Kline>, ApiError>::Ok(ks),
    ensures
        forall|i: int| 0 <= i < ks.len() ==> #[trigger] ks[i].wf(),
    decreases rows.len(),
{
    if rows.len() > 0 {
        let prefix = spec_parse_kline_rows(rows.drop_last());
        match prefix {
            Ok(ps) => {
                lemma_rows_all_wf(rows.drop_last(), ps);
                assert forall|i: int| 0 <= i < ks.len() implies #[trigger] ks[i].wf() by {
                    if i < ps.len() {
                        assert(ps[i].wf());
                    }
                }
            },
            Err(_) => {},
        }
    }
}

/// Sorting keeps every candle well formed.
pub proof fn lemma_sort_all_wf(s: Seq<Kline>)
    requires
        forall|i: int| 0 <= i < s.len() ==> #[trigger] s[i].wf(),
    ensures
        forall|i: int| 0 <= i < spec_sort_by_close(s).len() ==> #[trigger] spec_sort_by_close(s)[
            i
        ].wf(),
    decreases s.len(),
{
    if s.len() > 0 {
        lemma_sort_all_wf(s.drop_last());
        let inner = spec_sort_by_close(s.drop_last());
        assert forall|i: int|
            0 <= i < spec_insert_by_close(s.last(), inner).len() implies #[trigger] spec_insert_by_close(
            s.last(),
            inner,
        )[i].wf() by {
            lemma_insert_members(s.last(), inner, i);
            if spec_insert_by_close(s.last(), inner)[i] != s.last() {
                let t = choose|t: int|
                    0 <= t < inner.len() && inner[t] == spec_insert_by_close(s.last(), inner)[i];
                assert(inner[t].wf());
            }
        }
    }
}

/// Parse a raw batch of candle rows and return it sorted ascending by close
/// timestamp. Any malformed row fails the whole call with the first error.
pub fn parse_api_klines(rows: &Vec<JsonVal>) -> (r: Result<Vec<Kline>, ApiError>)
    ensures
        match r {
            Ok(ks) => spec_parse_kline_rows(rows@) matches Ok(s) && ks@ == spec_sort_by_close(s)
                && sorted_by_close(ks@) && forall|i: int|
                0 <= i < ks@.len() ==> #[trigger] ks@[i].wf(),
            Err(e) => spec_parse_kline_rows(rows@) matches Err(se) && api_err_eq(se, e),
        },
{
    let mut parsed: Vec<Kline> = Vec::new();
    let mut idx: usize = 0;
    proof {
        assert(rows@.take(0) =~= Seq::<JsonVal>::empty());
    }
    while idx < rows.len()
        invariant
            idx <= rows.len(),
            spec_parse_kline_rows(rows@.take(idx as int)) == Result::<Seq<Kline>, ApiError>::Ok(
                parsed@,
            ),
        decreases rows.len() - idx,
    {
        match parse_api_kline(&rows[idx]) {
            Ok(k) => {
                parsed.push(k);
                proof {
                    assert(rows@.take(idx + 1).drop_last() =~= rows@.take(idx as int));
                    assert(rows@.take(idx + 1).last() == rows@[idx as int]);
                }
            },
            Err(e) => {
                proof {
                    match spec_parse_api_kline(rows@[idx as int]) {
                        Err(se) => {
                            lemma_rows_error(rows@, idx as int, se);
                        },
                        Ok(_) => {},
                    }
                }
                return Err(e);
            },
        }
        idx += 1;
    }
    proof {
        assert(rows@.take(rows.len() as int) =~= rows@);
        lemma_rows_all_wf(rows@, parsed@);
        lemma_sort_by_close_sorted(parsed@);
        lemma_sort_all_wf(parsed@);
    }
    let out = sort_klines(parsed);
    Ok(out)
}

} // verus!
