//! Orders and their exchange-ready parameter sets.
//!
//! Order quantity is always rendered against the instrument's lot size and
//! an optional limit price against its tick size, both before signing, since
//! the formatted strings are part of the signed parameter set.

use vstd::prelude::*;

use crate::decimal::{
    format_decimal, precision_of, spec_format_decimal, spec_precision_of, Decimal,
};
use crate::errors::ApiError;
use crate::instrument::InstrumentInfo;
use crate::signing::spec_pairs;

verus! {

#[derive(Clone, Copy, Debug, PartialEq, Eq, Structural)]
pub enum OrderType {
    Market,
}

impl OrderType {
    pub open spec fn spec_param_value(self) -> Seq<char> {
        match self {
            OrderType::Market => "MARKET"@,
        }
    }

    /// The spelling the order endpoint expects for this order type.
    pub fn param_value(&self) -> (r: &'static str)
        ensures
            r@ == self.spec_param_value(),
    {
        match self {
            OrderType::Market => "MARKET",
        }
    }
}

#[derive(Clone, Copy, Debug, PartialEq, Eq, Structural)]
pub enum OrderSide {
    Buy,
    Sell,
}

impl OrderSide {
    pub open spec fn spec_param_value(self) -> Seq<char> {
        match self {
            OrderSide::Buy => "BUY"@,
            OrderSide::Sell => "SELL"@,
        }
    }

    /// The spelling the order endpoint expects for this side.
    pub fn param_value(&self) -> (r: &'static str)
        ensures
            r@ == self.spec_param_value(),
    {
        match self {
            OrderSide::Buy => "BUY",
            OrderSide::Sell => "SELL",
        }
    }
}

#[derive(Clone, Copy, Debug, PartialEq, Eq, Structural)]
pub enum TimeInForce {
    Gtc,
}

impl TimeInForce {
    pub open spec fn spec_param_value(self) -> Seq<char> {
        match self {
            TimeInForce::Gtc => "GTC"@,
        }
    }

    /// The spelling the order endpoint expects for this time-in-force.
    pub fn param_value(&self) -> (r: &'static str)
        ensures
            r@ == self.spec_param_value(),
    {
        match self {
            TimeInForce::Gtc => "GTC",
        }
    }
}

/// One order, built by the caller per submission and never persisted here.
/// `size` is the quantity; `price` is present only for limit-priced orders.
pub struct Order {
    pub symbol: String,
    pub size: Decimal,
    pub order_side: OrderSide,
    pub order_type: OrderType,
    pub time_in_force: Option<TimeInForce>,
    pub price: Option<Decimal>,
    pub reduce_only: bool,
}

pub struct OrderView {
    pub symbol: Seq<char>,
    pub size: Decimal,
    pub order_side: OrderSide,
    pub order_type: OrderType,
    pub time_in_force: Option<TimeInForce>,
    pub price: Option<Decimal>,
    pub reduce_only: bool,
}

impl View for Order {
    type V = OrderView;

    open spec fn view(&self) -> OrderView {
        OrderView {
            symbol: self.symbol@,
            size: self.size,
            order_side: self.order_side,
            order_type: self.order_type,
            time_in_force: self.time_in_force,
            price: self.price,
            reduce_only: self.reduce_only,
        }
    }
}

impl Order {
    /// A market order: no limit price, no time-in-force, not reduce-only.
    pub fn market_order(symbol: String, order_side: OrderSide, size: Decimal) -> (r: Order)
        ensures
            r@ == (OrderView {
                symbol: symbol@,
                size,
                order_side,
                order_type: OrderType::Market,
                time_in_force: None,
                price: None,
                reduce_only: false,
            }),
    {
        Order {
            symbol,
            order_side,
            size,
            order_type: OrderType::Market,
            time_in_force: None,
            price: None,
            reduce_only: false,
        }
    }
}

pub open spec fn spec_bool_str(b: bool) -> Seq<char> {
    if b {
        "true"@
    } else {
        "false"@
    }
}

/// The parameter set an order submits, in signing order: symbol, side,
/// type, reduce-only, the quantity rendered at the lot-size precision, then
/// an optional time-in-force and an optional price rendered at the
/// tick-size precision. An empty lot- or tick-size reference is a
/// [`ApiError::PrecisionError`]; a value too large for its precision is a
/// [`ApiError::NumberOverflow`].
pub open spec fn spec_build_order_params(
    o: OrderView,
    lot_size: Seq<char>,
    tick_size: Seq<char>,
) -> Result<Seq<(Seq<char>, Seq<char>)>, ApiError> {
    match spec_precision_of(lot_size) {
        None => Err(ApiError::PrecisionError),
        Some(lp) => match spec_format_decimal(o.size, lp) {
            None => Err(ApiError::NumberOverflow),
            Some(qty) => {
                let base = seq![
                    ("symbol"@, o.symbol),
                    ("side"@, o.order_side.spec_param_value()),
                    ("type"@, o.order_type.spec_param_value()),
                    ("reduceOnly"@, spec_bool_str(o.reduce_only)),
                    ("quantity"@, qty),
                ];
                let with_tif = match o.time_in_force {
                    Some(tif) => base.push(("timeInForce"@, tif.spec_param_value())),
                    None => base,
                };
                match o.price {
                    None => Ok(with_tif),
                    Some(px) => match spec_precision_of(tick_size) {
                        None => Err(ApiError::PrecisionError),
                        Some(tp) => match spec_format_decimal(px, tp) {
                            None => Err(ApiError::NumberOverflow),
                            Some(ps) => Ok(with_tif.push(("price"@, ps))),
                        },
                    },
                }
            },
        },
    }
}

/// A built order's quantity carries exactly the fractional-digit count its
/// lot size demands: none and no dot at precision zero, else a dot followed
/// by exactly that many digits — whichever way rounding went.
pub proof fn lemma_order_quantity_precision(
    o: OrderView,
    lot_size: Seq<char>,
    tick_size: Seq<char>,
    ps: Seq<(Seq<char>, Seq<char>)>,
)
    requires
        spec_build_order_params(o, lot_size, tick_size) == Result::<
            Seq<(Seq<char>, Seq<char>)>,
            ApiError,
        >::Ok(ps),
    ensures
        spec_precision_of(lot_size) matches Some(lp) && ps.len() >= 5 && ps[4].0 == "quantity"@
            && (lp == 0 ==> forall|i: int| 0 <= i < ps[4].1.len() ==> #[trigger] ps[4].1[i] != '.')
            && (lp > 0 ==> ps[4].1.len() > lp && ps[4].1[ps[4].1.len() - 1 - lp] == '.'),
{
    let lp = spec_precision_of(lot_size).unwrap();
    let qty = spec_format_decimal(o.size, lp).unwrap();
    crate::decimal::lemma_format_fraction_digits(o.size, lp, qty);
}

/// A built order's price, when one is present, carries exactly the
/// fractional-digit count its tick size demands, and stands last in the
/// parameter set.
pub proof fn lemma_order_price_precision(
    o: OrderView,
    lot_size: Seq<char>,
    tick_size: Seq<char>,
    ps: Seq<(Seq<char>, Seq<char>)>,
)
    requires
        spec_build_order_params(o, lot_size, tick_size) == Result::<
            Seq<(Seq<char>, Seq<char>)>,
            ApiError,
        >::Ok(ps),
        o.price is Some,
    ensures
        spec_precision_of(tick_size) matches Some(tp) && ps.len() >= 6 && ps.last().0 == "price"@
            && (tp == 0 ==> forall|i: int|
            0 <= i < ps.last().1.len() ==> #[trigger] ps.last().1[i] != '.') && (tp > 0
            ==> ps.last().1.len() > tp && ps.last().1[ps.last().1.len() - 1 - tp] == '.'),
{
    let tp = spec_precision_of(tick_size).unwrap();
    let px = spec_format_decimal(o.price.unwrap(), tp).unwrap();
    crate::decimal::lemma_format_fraction_digits(o.price.unwrap(), tp, px);
}

/// Build the order's parameter set against its instrument's lot and tick
/// sizes, rendering quantity and price with exactly the precision those
/// reference strings carry. This runs before signing, so the signature
/// covers the formatted strings.
pub fn build_order_params(order: &Order, instrument_info: &InstrumentInfo) -> (r: Result<
    Vec<(String, String)>,
    ApiError,
>)
    ensures
        match r {
            Ok(ps) => spec_build_order_params(
                order@,
                instrument_info@.lot_size,
                instrument_info@.tick_size,
            ) == Result::<Seq<(Seq<char>, Seq<char>)>, ApiError>::Ok(spec_pairs(ps@)),
            Err(e) => spec_build_order_params(
                order@,
                instrument_info@.lot_size,
                instrument_info@.tick_size,
            ) == Result::<Seq<(Seq<char>, Seq<char>)>, ApiError>::Err(e),
        },
{
    let lot_precision = match precision_of(instrument_info.lot_size.as_str()) {
        Ok(p) => p,
        Err(e) => {
            return Err(e);
        },
    };
    let quantity = match format_decimal(&order.size, lot_precision) {
        Ok(q) => q,
        Err(e) => {
            return Err(e);
        },
    };
    let mut params: Vec<(String, String)> = Vec::new();
    params.push(("symbol".to_owned(), order.symbol.clone()));
    params.push(("side".to_owned(), order.order_side.param_value().to_owned()));
    params.push(("type".to_owned(), order.order_type.param_value().to_owned()));
    let reduce_only = if order.reduce_only {
        "true"
    } else {
        "false"
    };
    params.push(("reduceOnly".to_owned(), reduce_only.to_owned()));
    params.push(("quantity".to_owned(), quantity));
    match &order.time_in_force {
        Some(tif) => {
            params.push(("timeInForce".to_owned(), tif.param_value().to_owned()));
        },
        None => {},
    }
    match &order.price {
        Some(px) => {
            let tick_precision = match precision_of(instrument_info.tick_size.as_str()) {
                Ok(p) => p,
                Err(e) => {
                    return Err(e);
                },
            };
            let price = match format_decimal(px, tick_precision) {
                Ok(s) => s,
                Err(e) => {
                    return Err(e);
                },
            };
            params.push(("price".to_owned(), price));
        },
        None => {},
    }
    proof {
        let expected = spec_build_order_params(
            order@,
            instrument_info@.lot_size,
            instrument_info@.tick_size,
        );
        assert(expected matches Ok(s) && spec_pairs(params@) =~= s);
    }
    Ok(params)
}

} // verus!
