//! Account snapshots: balances and open positions.
//!
//! The signed account endpoint answers with an object holding `assets` and
//! `positions` arrays. Parsing keeps only active holdings — assets with a
//! non-zero available balance and positions with a non-zero amount — and
//! fails the whole call on the first missing or non-numeric required field.

use vstd::prelude::*;

use crate::decimal::{spec_parse_decimal, spec_parse_u64, parse_decimal, parse_u64_digits, Decimal};
use crate::errors::{AccountField, ApiError};
use crate::json::{obj_get, spec_obj_get, str_eq, JsonVal};

verus! {

/// One wallet asset with a non-zero available balance.
#[derive(Clone, Debug, PartialEq)]
pub struct Asset {
    pub asset: String,
    pub wallet_balance: Decimal,
    pub available_balance: Decimal,
    pub update_timestamp: i64,
}

pub struct AssetView {
    pub asset: Seq<char>,
    pub wallet_balance: Decimal,
    pub available_balance: Decimal,
    pub update_timestamp: i64,
}

impl View for Asset {
    type V = AssetView;

    open spec fn view(&self) -> AssetView {
        AssetView {
            asset: self.asset@,
            wallet_balance: self.wallet_balance,
            available_balance: self.available_balance,
            update_timestamp: self.update_timestamp,
        }
    }
}

/// One open position with a non-zero signed amount.
#[derive(Clone, Debug, PartialEq)]
pub struct Position {
    pub symbol: String,
    pub unrealized_profit: Decimal,
    pub leverage: u64,
    pub entry_price: Decimal,
    pub position_side: String,
    pub position_amt: Decimal,
}

pub struct PositionView {
    pub symbol: Seq<char>,
    pub unrealized_profit: Decimal,
    pub leverage: u64,
    pub entry_price: Decimal,
    pub position_side: Seq<char>,
    pub position_amt: Decimal,
}

impl View for Position {
    type V = PositionView;

    open spec fn view(&self) -> PositionView {
        PositionView {
            symbol: self.symbol@,
            unrealized_profit: self.unrealized_profit,
            leverage: self.leverage,
            entry_price: self.entry_price,
            position_side: self.position_side@,
            position_amt: self.position_amt,
        }
    }
}

/// A freshly parsed account snapshot: only active holdings, rebuilt on every
/// account query, never cached.
#[derive(Debug, PartialEq)]
pub struct Account {
    pub assets: Vec<Asset>,
    pub positions: Vec<Position>,
}

pub struct AccountView {
    pub assets: Seq<AssetView>,
    pub positions: Seq<PositionView>,
}

impl View for Account {
    type V = AccountView;

    open spec fn view(&self) -> AccountView {
        AccountView {
            assets: self.assets@.map_values(|a: Asset| a@),
            positions: self.positions@.map_values(|p: Position| p@),
        }
    }
}

/// The string under `key`, if the object holds one there.
pub open spec fn spec_obj_str(entries: Seq<(String, JsonVal)>, key: Seq<char>) -> Option<
    Seq<char>,
> {
    match spec_obj_get(entries, key) {
        Some(JsonVal::Str(s)) => Some(s@),
        _ => None,
    }
}

/// The decimal behind the numeric string under `key`, if parseable.
pub open spec fn spec_obj_dec(entries: Seq<(String, JsonVal)>, key: Seq<char>) -> Option<Decimal> {
    match spec_obj_get(entries, key) {
        Some(JsonVal::Str(s)) => spec_parse_decimal(s@),
        _ => None,
    }
}

/// The integer under `key`, if the object holds one there.
pub open spec fn spec_obj_int(entries: Seq<(String, JsonVal)>, key: Seq<char>) -> Option<i64> {
    match spec_obj_get(entries, key) {
        Some(JsonVal::Int(n)) => Some(n),
        _ => None,
    }
}

/// The unsigned integer behind the digit string under `key`, if parseable.
pub open spec fn spec_obj_u64(entries: Seq<(String, JsonVal)>, key: Seq<char>) -> Option<u64> {
    match spec_obj_get(entries, key) {
        Some(JsonVal::Str(s)) => spec_parse_u64(s@),
        _ => None,
    }
}

pub fn obj_str(entries: &Vec<(String, JsonVal)>, key: &str) -> (r: Option<String>)
    ensures
        match r {
            Some(s) => spec_obj_str(entries@, key@) == Some(s@),
            None => spec_obj_str(entries@, key@) is None,
        },
{
    match obj_get(entries, key) {
        Some(JsonVal::Str(s)) => Some(s.clone()),
        _ => None,
    }
}

pub fn obj_dec(entries: &Vec<(String, JsonVal)>, key: &str) -> (r: Option<Decimal>)
    ensures
        r == spec_obj_dec(entries@, key@),
{
    match obj_get(entries, key) {
        Some(JsonVal::Str(s)) => parse_decimal(s.as_str()),
        _ => None,
    }
}

pub fn obj_int(entries: &Vec<(String, JsonVal)>, key: &str) -> (r: Option<i64>)
    ensures
        r == spec_obj_int(entries@, key@),
{
    match obj_get(entries, key) {
        Some(JsonVal::Int(n)) => Some(*n),
        _ => None,
    }
}

pub fn obj_u64(entries: &Vec<(String, JsonVal)>, key: &str) -> (r: Option<u64>)
    ensures
        r == spec_obj_u64(entries@, key@),
{
    match obj_get(entries, key) {
        Some(JsonVal::Str(s)) => parse_u64_digits(s.as_str()),
        _ => None,
    }
}

/// What parsing one entry of the `assets` array returns.
pub open spec fn spec_parse_asset(v: JsonVal) -> Result<AssetView, ApiError> {
    match v {
        JsonVal::Obj(entries) => {
            match (spec_obj_str(entries@, "asset"@), spec_obj_dec(entries@, "walletBalance"@),
            spec_obj_dec(entries@, "availableBalance"@), spec_obj_int(entries@, "updateTime"@)) {
                (None, _, _, _) => Err(ApiError::MalformedAccount(AccountField::Asset)),
                (_, None, _, _) => Err(ApiError::MalformedAccount(AccountField::WalletBalance)),
                (_, _, None, _) => Err(ApiError::MalformedAccount(AccountField::AvailableBalance)),
                (_, _, _, None) => Err(ApiError::MalformedAccount(AccountField::UpdateTime)),
                (
                    Some(asset),
                    Some(wallet_balance),
                    Some(available_balance),
                    Some(update_timestamp),
                ) => Ok(AssetView { asset, wallet_balance, available_balance, update_timestamp }),
            }
        },
        _ => Err(ApiError::MalformedAccount(AccountField::Asset)),
    }
}

fn parse_asset(v: &JsonVal) -> (r: Result<Asset, ApiError>)
    ensures
        match r {
            Ok(a) => spec_parse_asset(*v) == Result::<AssetView, ApiError>::Ok(a@),
            Err(e) => spec_parse_asset(*v) == Result::<AssetView, ApiError>::Err(e),
        },
{
    match v {
        JsonVal::Obj(entries) => {
            let asset = match obj_str(entries, "asset") {
                Some(s) => s,
                None => {
                    return Err(ApiError::MalformedAccount(AccountField::Asset));
                },
            };
            let wallet_balance = match obj_dec(entries, "walletBalance") {
                Some(d) => d,
                None => {
                    return Err(ApiError::MalformedAccount(AccountField::WalletBalance));
                },
            };
            let available_balance = match obj_dec(entries, "availableBalance") {
                Some(d) => d,
                None => {
                    return Err(ApiError::MalformedAccount(AccountField::AvailableBalance));
                },
            };
            let update_timestamp = match obj_int(entries, "updateTime") {
                Some(n) => n,
                None => {
                    return Err(ApiError::MalformedAccount(AccountField::UpdateTime));
                },
            };
            Ok(Asset { asset, wallet_balance, available_balance, update_timestamp })
        },
        _ => Err(ApiError::MalformedAccount(AccountField::Asset)),
    }
}

/// What parsing one entry of the `positions` array returns.
pub open spec fn spec_parse_position(v: JsonVal) -> Result<PositionView, ApiError> {
    match v {
        JsonVal::Obj(entries) => {
            match (spec_obj_str(entries@, "symbol"@), spec_obj_dec(entries@, "unrealizedProfit"@),
            spec_obj_u64(entries@, "leverage"@), spec_obj_dec(entries@, "entryPrice"@),
            spec_obj_str(entries@, "positionSide"@), spec_obj_dec(entries@, "positionAmt"@)) {
                (None, _, _, _, _, _) => Err(ApiError::MalformedAccount(AccountField::Symbol)),
                (_, None, _, _, _, _) => Err(
                    ApiError::MalformedAccount(AccountField::UnrealizedProfit),
                ),
                (_, _, None, _, _, _) => Err(ApiError::MalformedAccount(AccountField::Leverage)),
                (_, _, _, None, _, _) => Err(ApiError::MalformedAccount(AccountField::EntryPrice)),
                (_, _, _, _, None, _) => Err(
                    ApiError::MalformedAccount(AccountField::PositionSide),
                ),
                (_, _, _, _, _, None) => Err(ApiError::MalformedAccount(AccountField::PositionAmt)),
                (
                    Some(symbol),
                    Some(unrealized_profit),
                    Some(leverage),
                    Some(entry_price),
                    Some(position_side),
                    Some(position_amt),
                ) => Ok(
                    PositionView {
                        symbol,
                        unrealized_profit,
                        leverage,
                        entry_price,
                        position_side,
                        position_amt,
                    },
                ),
            }
        },
        _ => Err(ApiError::MalformedAccount(AccountField::Symbol)),
    }
}

fn parse_position(v: &JsonVal) -> (r: Result<Position, ApiError>)
    ensures
        match r {
            Ok(p) => spec_parse_position(*v) == Result::<PositionView, ApiError>::Ok(p@),
            Err(e) => spec_parse_position(*v) == Result::<PositionView, ApiError>::Err(e),
        },
{
    match v {
        JsonVal::Obj(entries) => {
            let symbol = match obj_str(entries, "symbol") {
                Some(s) => s,
                None => {
                    return Err(ApiError::MalformedAccount(AccountField::Symbol));
                },
            };
            let unrealized_profit = match obj_dec(entries, "unrealizedProfit") {
                Some(d) => d,
                None => {
                    return Err(ApiError::MalformedAccount(AccountField::UnrealizedProfit));
                },
            };
            let leverage = match obj_u64(entries, "leverage") {
                Some(n) => n,
                None => {
                    return Err(ApiError::MalformedAccount(AccountField::Leverage));
                },
            };
            let entry_price = match obj_dec(entries, "entryPrice") {
                Some(d) => d,
                None => {
                    return Err(ApiError::MalformedAccount(AccountField::EntryPrice));
                },
            };
            let position_side = match obj_str(entries, "positionSide") {
                Some(s) => s,
                None => {
                    return Err(ApiError::MalformedAccount(AccountField::PositionSide));
                },
            };
            let position_amt = match obj_dec(entries, "positionAmt") {
                Some(d) => d,
                None => {
                    return Err(ApiError::MalformedAccount(AccountField::PositionAmt));
                },
            };
            Ok(
                Position {
                    symbol,
                    unrealized_profit,
                    leverage,
                    entry_price,
                    position_side,
                    position_amt,
                },
            )
        },
        _ => Err(ApiError::MalformedAccount(AccountField::Symbol)),
    }
}

/// Parse the `assets` array, keeping only non-zero available balances.
pub open spec fn spec_parse_assets(items: Seq<JsonVal>) -> Result<Seq<AssetView>, ApiError>
    decreases items.len(),
{
    if items.len() == 0 {
        Ok(Seq::empty())
    } else {
        match spec_parse_assets(items.drop_last()) {
            Err(e) => Err(e),
            Ok(prefix) => match spec_parse_asset(items.last()) {
                Err(e) => Err(e),
                Ok(a) => if a.available_balance.mantissa != 0 {
                    Ok(prefix.push(a))
                } else {
                    Ok(prefix)
                },
            },
        }
    }
}

/// Parse the `positions` array, keeping only non-zero position amounts.
pub open spec fn spec_parse_positions(items: Seq<JsonVal>) -> Result<Seq<PositionView>, ApiError>
    decreases items.len(),
{
    if items.len() == 0 {
        Ok(Seq::empty())
    } else {
        match spec_parse_positions(items.drop_last()) {
            Err(e) => Err(e),
            Ok(prefix) => match spec_parse_position(items.last()) {
                Err(e) => Err(e),
                Ok(p) => if p.position_amt.mantissa != 0 {
                    Ok(prefix.push(p))
                } else {
                    Ok(prefix)
                },
            },
        }
    }
}

/// What parsing a whole account response returns: the `assets` and
/// `positions` arrays must both be present, and every entry of each must
/// parse; kept are only active holdings.
pub open spec fn spec_parse_account_arrays(assets: Seq<JsonVal>, positions: Seq<JsonVal>) -> Result<
    AccountView,
    ApiError,
> {
    match spec_parse_assets(assets) {
        Err(e) => Err(e),
        Ok(a) => match spec_parse_positions(positions) {
            Err(e) => Err(e),
            Ok(p) => Ok(AccountView { assets: a, positions: p }),
        },
    }
}

pub open spec fn spec_parse_account(v: JsonVal) -> Result<AccountView, ApiError> {
    match v {
        JsonVal::Obj(entries) => match spec_obj_get(entries@, "assets"@) {
            Some(JsonVal::Arr(assets)) => match spec_obj_get(entries@, "positions"@) {
                Some(JsonVal::Arr(positions)) => spec_parse_account_arrays(assets@, positions@),
                _ => Err(ApiError::MalformedAccount(AccountField::Positions)),
            },
            _ => Err(ApiError::MalformedAccount(AccountField::Assets)),
        },
        _ => Err(ApiError::MalformedAccount(AccountField::Assets)),
    }
}

proof fn lemma_assets_error(items: Seq<JsonVal>, idx: int, e: ApiError)
    requires
        0 <= idx < items.len(),
        spec_parse_assets(items.take(idx)) is Ok,
        spec_parse_asset(items[idx]) == Result::<AssetView, ApiError>::Err(e),
    ensures
        spec_parse_assets(items) == Result::<Seq<AssetView>, ApiError>::Err(e),
    decreases items.len(),
{
    if idx == items.len() - 1 {
        assert(items.take(idx) =~= items.drop_last());
    } else {
        assert(items.drop_last().take(idx) =~= items.take(idx));
        lemma_assets_error(items.drop_last(), idx, e);
    }
}

proof fn lemma_positions_error(items: Seq<JsonVal>, idx: int, e: ApiError)
    requires
        0 <= idx < items.len(),
        spec_parse_positions(items.take(idx)) is Ok,
        spec_parse_position(items[idx]) == Result::<PositionView, ApiError>::Err(e),
    ensures
        spec_parse_positions(items) == Result::<Seq<PositionView>, ApiError>::Err(e),
    decreases items.len(),
{
    if idx == items.len() - 1 {
        assert(items.take(idx) =~= items.drop_last());
    } else {
        assert(items.drop_last().take(idx) =~= items.take(idx));
        lemma_positions_error(items.drop_last(), idx, e);
    }
}

/// Parse an account response. Either every required field of every entry is
/// present and numeric and the filtered snapshot comes back whole, or the
/// first offending field fails the call — never a partial snapshot.
pub fn parse_account(v: &JsonVal) -> (r: Result<Account, ApiError>)
    ensures
        match r {
            Ok(acc) => spec_parse_account(*v) == Result::<AccountView, ApiError>::Ok(acc@),
            Err(e) => spec_parse_account(*v) == Result::<AccountView, ApiError>::Err(e),
        },
        r matches Ok(acc) ==> (forall|i: int|
            0 <= i < acc@.assets.len() ==> #[trigger] acc@.assets[i].available_balance.mantissa
                != 0) && (forall|i: int|
            0 <= i < acc@.positions.len() ==> #[trigger] acc@.positions[i].position_amt.mantissa
                != 0),
{
    let entries = match v {
        JsonVal::Obj(entries) => entries,
        _ => {
            return Err(ApiError::MalformedAccount(AccountField::Assets));
        },
    };
    let asset_items = match obj_get(entries, "assets") {
        Some(JsonVal::Arr(items)) => items,
        _ => {
            return Err(ApiError::MalformedAccount(AccountField::Assets));
        },
    };
    let position_items = match obj_get(entries, "positions") {
        Some(JsonVal::Arr(items)) => items,
        _ => {
            return Err(ApiError::MalformedAccount(AccountField::Positions));
        },
    };
    let mut assets: Vec<Asset> = Vec::new();
    let mut idx: usize = 0;
    proof {
        assert(asset_items@.take(0) =~= Seq::<JsonVal>::empty());
        assert(assets@.map_values(|a: Asset| a@) =~= Seq::<AssetView>::empty());
    }
    while idx < asset_items.len()
        invariant
            idx <= asset_items.len(),
            spec_parse_account(*v) == spec_parse_account_arrays(asset_items@, position_items@),
            spec_parse_assets(asset_items@.take(idx as int)) == Result::<
                Seq<AssetView>,
                ApiError,
            >::Ok(assets@.map_values(|a: Asset| a@)),
        decreases asset_items.len() - idx,
    {
        let ghost old_views = assets@.map_values(|a: Asset| a@);
        match parse_asset(&asset_items[idx]) {
            Err(e) => {
                proof {
                    lemma_assets_error(asset_items@, idx as int, e);
                }
                return Err(e);
            },
            Ok(a) => {
                proof {
                    assert(asset_items@.take(idx + 1).drop_last() =~= asset_items@.take(idx as int));
                    assert(asset_items@.take(idx + 1).last() == asset_items@[idx as int]);
                }
                if !a.available_balance.is_zero() {
                    let ghost av = a@;
                    assets.push(a);
                    proof {
                        assert(assets@.map_values(|x: Asset| x@) =~= old_views.push(av));
                    }
                }
            },
        }
        idx += 1;
    }
    proof {
        assert(asset_items@.take(asset_items.len() as int) =~= asset_items@);
    }
    let mut positions: Vec<Position> = Vec::new();
    let mut pdx: usize = 0;
    proof {
        assert(position_items@.take(0) =~= Seq::<JsonVal>::empty());
        assert(positions@.map_values(|p: Position| p@) =~= Seq::<PositionView>::empty());
    }
    while pdx < position_items.len()
        invariant
            pdx <= position_items.len(),
            spec_parse_account(*v) == spec_parse_account_arrays(asset_items@, position_items@),
            spec_parse_assets(asset_items@) == Result::<Seq<AssetView>, ApiError>::Ok(
                assets@.map_values(|a: Asset| a@),
            ),
            spec_parse_positions(position_items@.take(pdx as int)) == Result::<
                Seq<PositionView>,
                ApiError,
            >::Ok(positions@.map_values(|p: Position| p@)),
        decreases position_items.len() - pdx,
    {
        let ghost old_views = positions@.map_values(|p: Position| p@);
        match parse_position(&position_items[pdx]) {
            Err(e) => {
                proof {
                    lemma_positions_error(position_items@, pdx as int, e);
                }
                return Err(e);
            },
            Ok(p) => {
                proof {
                    assert(position_items@.take(pdx + 1).drop_last() =~= position_items@.take(
                        pdx as int,
                    ));
                    assert(position_items@.take(pdx + 1).last() == position_items@[pdx as int]);
                }
                if !p.position_amt.is_zero() {
                    let ghost pv = p@;
                    positions.push(p);
                    proof {
                        assert(positions@.map_values(|x: Position| x@) =~= old_views.push(pv));
                    }
                }
            },
        }
        pdx += 1;
    }
    proof {
        assert(position_items@.take(position_items.len() as int) =~= position_items@);
        lemma_assets_active(asset_items@, assets@.map_values(|a: Asset| a@));
        lemma_positions_active(position_items@, positions@.map_values(|p: Position| p@));
    }
    Ok(Account { assets, positions })
}

/// A parsed snapshot reflects only active holdings: every asset it keeps
/// has a non-zero available balance.
pub proof fn lemma_assets_active(items: Seq<JsonVal>, assets: Seq<AssetView>)
    requires
        spec_parse_assets(items) == Result::<Seq<AssetView>, ApiError>::Ok(assets),
    ensures
        forall|i: int| 0 <= i < assets.len() ==> #[trigger] assets[i].available_balance.mantissa != 0,
    decreases items.len(),
{
    if items.len() > 0 {
        match spec_parse_assets(items.drop_last()) {
            Ok(prefix) => {
                lemma_assets_active(items.drop_last(), prefix);
                assert forall|i: int|
                    0 <= i < assets.len() implies #[trigger] assets[i].available_balance.mantissa
                    != 0 by {
                    if i < prefix.len() {
                        assert(prefix[i].available_balance.mantissa != 0);
                    }
                }
            },
            Err(_) => {},
        }
    }
}

/// A parsed snapshot reflects only active holdings: every position it keeps
/// has a non-zero amount.
pub proof fn lemma_positions_active(items: Seq<JsonVal>, positions: Seq<PositionView>)
    requires
        spec_parse_positions(items) == Result::<Seq<PositionView>, ApiError>::Ok(positions),
    ensures
        forall|i: int| 0 <= i < positions.len() ==> #[trigger] positions[i].position_amt.mantissa != 0,
    decreases items.len(),
{
    if items.len() > 0 {
        match spec_parse_positions(items.drop_last()) {
            Ok(prefix) => {
                lemma_positions_active(items.drop_last(), prefix);
                assert forall|i: int|
                    0 <= i < positions.len() implies #[trigger] positions[i].position_amt.mantissa
                    != 0 by {
                    if i < prefix.len() {
                        assert(prefix[i].position_amt.mantissa != 0);
                    }
                }
            },
            Err(_) => {},
        }
    }
}

/// The available balance of the `USDT` asset; zero when the snapshot holds
/// no such asset.
pub open spec fn spec_usd_balance(assets: Seq<AssetView>) -> Decimal
    decreases assets.len(),
{
    if assets.len() == 0 {
        Decimal { neg: false, mantissa: 0, scale: 0 }
    } else if assets[0].asset == "USDT"@ {
        assets[0].available_balance
    } else {
        spec_usd_balance(assets.drop_first())
    }
}

impl Account {
    /// The available balance of the first `USDT` asset of the snapshot, or
    /// zero when none is held.
    pub fn get_usd_balance(&self) -> (r: Decimal)
        ensures
            r == spec_usd_balance(self@.assets),
    {
        let mut idx: usize = 0;
        proof {
            assert(self@.assets.skip(0) =~= self@.assets);
        }
        while idx < self.assets.len()
            invariant
                idx <= self.assets.len(),
                self@.assets.len() == self.assets.len(),
                spec_usd_balance(self@.assets.skip(idx as int)) == spec_usd_balance(self@.assets),
            decreases self.assets.len() - idx,
        {
            proof {
                assert(self@.assets[idx as int] == self.assets@[idx as int]@);
            }
            if str_eq(self.assets[idx].asset.as_str(), "USDT") {
                return self.assets[idx].available_balance;
            }
            proof {
                assert(self@.assets.skip(idx as int).drop_first() =~= self@.assets.skip(idx + 1));
                assert(self@.assets.skip(idx as int)[0] == self@.assets[idx as int]);
            }
            idx += 1;
        }
        Decimal::zero()
    }
}

} // verus!
