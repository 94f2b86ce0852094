//! Orders and the trades that matching them produces.

use crate::decimal::{Decimal, DecimalView};
use vstd::prelude::*;

verus! {

/// The side of the market an order is on.
#[derive(Clone, Copy, Debug, PartialEq, Eq, Structural)]
pub enum Side {
    /// An order to buy.
    Bid,
    /// An order to sell.
    Ask,
}

impl Side {
    /// The side that orders of this side trade against.
    pub open spec fn opposite(self) -> Side {
        match self {
            Side::Bid => Side::Ask,
            Side::Ask => Side::Bid,
        }
    }
}

/// A limit order. The identifier is the caller's and is not inspected; the
/// timestamp is carried along and plays no part in matching.
#[derive(Clone, Debug)]
pub struct Order {
    id: String,
    price: Decimal,
    quantity: Decimal,
    side: Side,
    timestamp: u64,
}

/// The view of an [`Order`]: what contracts say of it.
pub ghost struct OrderView {
    pub id: Seq<char>,
    pub price: DecimalView,
    pub quantity: DecimalView,
    pub side: Side,
    pub timestamp: u64,
}

impl OrderView {
    /// Price and quantity are decimals.
    pub open spec fn wf(self) -> bool {
        self.price.wf() && self.quantity.wf()
    }

    /// The same order with another quantity.
    pub open spec fn with_quantity(self, quantity: DecimalView) -> OrderView {
        OrderView { quantity, ..self }
    }
}

impl View for Order {
    type V = OrderView;

    closed spec fn view(&self) -> OrderView {
        OrderView {
            id: self.id@,
            price: self.price@,
            quantity: self.quantity@,
            side: self.side,
            timestamp: self.timestamp,
        }
    }
}

impl Order {
    /// An order as the caller describes it. Nothing is validated.
    pub fn new(id: String, price: Decimal, quantity: Decimal, side: Side, timestamp: u64) -> (order:
        Order)
        ensures
            order@ == (OrderView {
                id: id@,
                price: price@,
                quantity: quantity@,
                side,
                timestamp,
            }),
    {
        Order { id, price, quantity, side, timestamp }
    }

    /// The caller's identifier of the order.
    pub fn id(&self) -> (id: &String)
        ensures
            id@ == self@.id,
    {
        &self.id
    }

    /// The limit price.
    pub fn price(&self) -> (price: Decimal)
        ensures
            price@ == self@.price,
    {
        self.price
    }

    /// The quantity that is still open.
    pub fn quantity(&self) -> (quantity: Decimal)
        ensures
            quantity@ == self@.quantity,
    {
        self.quantity
    }

    /// The side of the market.
    pub fn side(&self) -> (side: Side)
        ensures
            side == self@.side,
    {
        self.side
    }

    /// The time of entry, as the caller gave it.
    pub fn timestamp(&self) -> (timestamp: u64)
        ensures
            timestamp == self@.timestamp,
    {
        self.timestamp
    }

    /// Replaces the quantity that is still open.
    pub(crate) fn set_quantity(&mut self, quantity: Decimal)
        ensures
            final(self)@ == old(self)@.with_quantity(quantity@),
    {
        self.quantity = quantity;
    }
}

/// One execution: a resting order (the maker) filled by an incoming one (the
/// taker), at the maker's price.
#[derive(Debug)]
pub struct Trade {
    maker_order_id: String,
    taker_order_id: String,
    price: Decimal,
    quantity: Decimal,
}

/// The view of a [`Trade`].
pub ghost struct TradeView {
    pub maker_order_id: Seq<char>,
    pub taker_order_id: Seq<char>,
    pub price: DecimalView,
    pub quantity: DecimalView,
}

impl View for Trade {
    type V = TradeView;

    closed spec fn view(&self) -> TradeView {
        TradeView {
            maker_order_id: self.maker_order_id@,
            taker_order_id: self.taker_order_id@,
            price: self.price@,
            quantity: self.quantity@,
        }
    }
}

/// The trade in which `taker` takes `quantity` from `maker`.
pub open spec fn execution(maker: OrderView, taker: OrderView, quantity: DecimalView) -> TradeView {
    TradeView {
        maker_order_id: maker.id,
        taker_order_id: taker.id,
        price: maker.price,
        quantity,
    }
}

/// The quantity that `trades` moved in all, in units of 10^-28.
pub open spec fn traded_units(trades: Seq<TradeView>) -> int
    decreases trades.len(),
{
    if trades.len() == 0 {
        0
    } else {
        trades[0].quantity.units() + traded_units(trades.drop_first())
    }
}

impl Trade {
    /// Records that `taker` took `quantity` from `maker`.
    pub(crate) fn between(maker: &Order, taker: &Order, quantity: Decimal) -> (trade: Trade)
        ensures
            trade@ == execution(maker@, taker@, quantity@),
    {
        Trade {
            maker_order_id: maker.id.clone(),
            taker_order_id: taker.id.clone(),
            price: maker.price,
            quantity,
        }
    }

    /// The identifier of the resting order.
    pub fn maker_order_id(&self) -> (id: &String)
        ensures
            id@ == self@.maker_order_id,
    {
        &self.maker_order_id
    }

    /// The identifier of the incoming order.
    pub fn taker_order_id(&self) -> (id: &String)
        ensures
            id@ == self@.taker_order_id,
    {
        &self.taker_order_id
    }

    /// The price of the execution: that of the resting order.
    pub fn price(&self) -> (price: Decimal)
        ensures
            price@ == self@.price,
    {
        self.price
    }

    /// The quantity that changed hands.
    pub fn quantity(&self) -> (quantity: Decimal)
        ensures
            quantity@ == self@.quantity,
    {
        self.quantity
    }
}

} // verus!
