//! The order book: an ask ladder, a bid ladder, and the one operation that
//! changes them.

use crate::decimal::{Decimal, DecimalView};
use crate::ladder::{
    lemma_levels_hold_orders, lemma_place_front, lemma_sweep_leaves_no_match, trade_views, Ladder,
    LadderView,
};
use crate::order::{Order, OrderView, Side, Trade, TradeView};
use vstd::prelude::*;

verus! {

/// The resting orders of both sides.
#[derive(Debug)]
pub struct OrderBook {
    asks: Ladder,
    bids: Ladder,
}

/// The view of an [`OrderBook`]. Each ladder runs from its best price
/// outward: the asks from the lowest price up, the bids from the highest
/// price down.
pub ghost struct BookView {
    pub asks: LadderView,
    pub bids: LadderView,
}

/// What adding an order does.
pub ghost struct Added {
    /// The book afterwards.
    pub book: BookView,
    /// The trades, earliest first.
    pub trades: Seq<TradeView>,
    /// The quantity that the order had open when matching ended. It rests in
    /// the book where it is positive.
    pub left: DecimalView,
}

impl BookView {
    /// The book without orders.
    pub open spec fn empty() -> BookView {
        BookView {
            asks: LadderView { side: Side::Ask, levels: Seq::empty() },
            bids: LadderView { side: Side::Bid, levels: Seq::empty() },
        }
    }

    /// Where both sides hold orders, the best bid is below the best ask.
    pub open spec fn not_crossed(self) -> bool {
        self.asks.levels.len() > 0 && self.bids.levels.len() > 0
            ==> self.bids.levels[0].price.units() < self.asks.levels[0].price.units()
    }

    /// No price level is without orders.
    pub open spec fn no_empty_level(self) -> bool {
        &&& forall|i: int|
            0 <= i < self.asks.levels.len() ==> (#[trigger] self.asks.levels[i]).orders.len() > 0
        &&& forall|i: int|
            0 <= i < self.bids.levels.len() ==> (#[trigger] self.bids.levels[i]).orders.len() > 0
    }

    /// Each ladder is well-formed for its side, and the book is not crossed.
    pub open spec fn wf(self) -> bool {
        &&& self.asks.side == Side::Ask
        &&& self.bids.side == Side::Bid
        &&& self.asks.wf()
        &&& self.bids.wf()
        &&& self.not_crossed()
    }

    /// The ladder on which orders of side `side` rest.
    pub open spec fn own(self, side: Side) -> LadderView {
        match side {
            Side::Bid => self.bids,
            Side::Ask => self.asks,
        }
    }

    /// The ladder that orders of side `side` trade against.
    pub open spec fn facing(self, side: Side) -> LadderView {
        self.own(side.opposite())
    }

    /// Adding `order`: it is matched against the ladder of the other side,
    /// and what it has left is put to rest on the ladder of its own.
    pub open spec fn add_order(self, order: OrderView) -> Added {
        let sweep = self.facing(order.side).sweep(order);
        let rested = self.own(order.side).rest(order.with_quantity(sweep.left));
        Added {
            book: match order.side {
                Side::Bid => BookView { asks: sweep.ladder, bids: rested },
                Side::Ask => BookView { asks: rested, bids: sweep.ladder },
            },
            trades: sweep.trades,
            left: sweep.left,
        }
    }
}

impl View for OrderBook {
    type V = BookView;

    closed spec fn view(&self) -> BookView {
        BookView { asks: self.asks@, bids: self.bids@ }
    }
}

impl OrderBook {
    /// An empty book.
    pub fn new() -> (book: OrderBook)
        ensures
            book@ == BookView::empty(),
            book@.wf(),
    {
        OrderBook { asks: Ladder::new(Side::Ask), bids: Ladder::new(Side::Bid) }
    }

    /// The asks, from the lowest price up.
    pub fn asks(&self) -> (asks: &Ladder)
        ensures
            asks@ == self@.asks,
    {
        &self.asks
    }

    /// The bids, from the highest price down.
    pub fn bids(&self) -> (bids: &Ladder)
        ensures
            bids@ == self@.bids,
    {
        &self.bids
    }

    /// The lowest price at which an ask rests, if any does.
    pub fn best_ask(&self) -> (price: Option<Decimal>)
        ensures
            price is Some <==> self@.asks.levels.len() > 0,
            price is Some ==> price.unwrap()@ == self@.asks.levels[0].price,
    {
        self.asks.best_price()
    }

    /// The highest price at which a bid rests, if any does.
    pub fn best_bid(&self) -> (price: Option<Decimal>)
        ensures
            price is Some <==> self@.bids.levels.len() > 0,
            price is Some ==> price.unwrap()@ == self@.bids.levels[0].price,
    {
        self.bids.best_price()
    }

    /// Adds `order` to the book. It trades with the resting orders of the
    /// other side, best price first and oldest first at each price, at their
    /// prices, for as long as it has quantity open and the best price is
    /// within its limit. What it then has left rests in the book; an order
    /// without a positive quantity does nothing. Returns the trades in the
    /// order in which they were made.
    pub fn add_order(&mut self, order: Order) -> (trades: Vec<Trade>)
        requires
            old(self)@.wf(),
            order@.wf(),
        ensures
            final(self)@ == old(self)@.add_order(order@).book,
            trade_views(trades@) == old(self)@.add_order(order@).trades,
            final(self)@.wf(),
            final(self)@.not_crossed(),
            final(self)@.no_empty_level(),
    {
        match order.side() {
            Side::Bid => self.match_bid_order(order),
            Side::Ask => self.match_ask_order(order),
        }
    }

    /// Matches a bid against the asks, lowest price first, and rests what is
    /// left of it among the bids.
    fn match_bid_order(&mut self, bid: Order) -> (trades: Vec<Trade>)
        requires
            old(self)@.wf(),
            bid@.wf(),
            bid@.side == Side::Bid,
        ensures
            final(self)@ == old(self)@.add_order(bid@).book,
            trade_views(trades@) == old(self)@.add_order(bid@).trades,
            final(self)@.wf(),
            final(self)@.no_empty_level(),
    {
        let ghost before = self@;
        let ghost incoming = bid@;
        let mut bid = bid;
        let trades = self.asks.sweep(&mut bid);
        self.bids.rest(bid);
        proof {
            lemma_sweep_leaves_no_match(before.asks, incoming);
            lemma_place_front(before.bids, bid@);
            lemma_levels_hold_orders(self@.asks);
            lemma_levels_hold_orders(self@.bids);
        }
        trades
    }

    /// Matches an ask against the bids, highest price first, and rests what
    /// is left of it among the asks.
    fn match_ask_order(&mut self, ask: Order) -> (trades: Vec<Trade>)
        requires
            old(self)@.wf(),
            ask@.wf(),
            ask@.side == Side::Ask,
        ensures
            final(self)@ == old(self)@.add_order(ask@).book,
            trade_views(trades@) == old(self)@.add_order(ask@).trades,
            final(self)@.wf(),
            final(self)@.no_empty_level(),
    {
        let ghost before = self@;
        let ghost incoming = ask@;
        let mut ask = ask;
        let trades = self.bids.sweep(&mut ask);
        self.asks.rest(ask);
        proof {
            lemma_sweep_leaves_no_match(before.bids, incoming);
            lemma_place_front(before.asks, ask@);
            lemma_levels_hold_orders(self@.asks);
            lemma_levels_hold_orders(self@.bids);
        }
        trades
    }
}

} // verus!
