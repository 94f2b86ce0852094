//! One side of the book: price levels from the best price outward, each a
//! queue of resting orders in the order of their arrival.

use crate::decimal::{greater_than, lemma_units_sign, minimum, subtract, Decimal, DecimalView};
use crate::order::{execution, Order, OrderView, Side, Trade, TradeView};
use std::collections::VecDeque;
use vstd::prelude::*;

verus! {

/// On a ladder of side `side`, price `p` is strictly better than `q`: lower
/// for asks, higher for bids.
pub open spec fn better(side: Side, p: DecimalView, q: DecimalView) -> bool {
    match side {
        Side::Ask => p.units() < q.units(),
        Side::Bid => p.units() > q.units(),
    }
}

/// `taker` may trade at `price`: a bid at its limit or below, an ask at its
/// limit or above.
pub open spec fn within_limit(taker: OrderView, price: DecimalView) -> bool {
    match taker.side {
        Side::Bid => price.units() <= taker.price.units(),
        Side::Ask => price.units() >= taker.price.units(),
    }
}

/// The resting orders of one price, oldest first.
#[derive(Debug)]
pub struct Level {
    price: Decimal,
    orders: VecDeque<Order>,
}

/// The view of a [`Level`].
pub ghost struct LevelView {
    pub price: DecimalView,
    pub orders: Seq<OrderView>,
}

impl LevelView {
    /// The level is not empty, and each of its orders is of side `side`, at
    /// the level's price, and has a positive quantity.
    pub open spec fn wf(self, side: Side) -> bool {
        &&& self.price.wf()
        &&& self.orders.len() > 0
        &&& forall|k: int|
            0 <= k < self.orders.len() ==> {
                &&& (#[trigger] self.orders[k]).wf()
                &&& self.orders[k].side == side
                &&& self.orders[k].price.units() == self.price.units()
                &&& self.orders[k].quantity.units() > 0
            }
    }
}

impl View for Level {
    type V = LevelView;

    closed spec fn view(&self) -> LevelView {
        LevelView { price: self.price@, orders: self.orders@.map_values(|o: Order| o@) }
    }
}

impl Level {
    /// The price that the orders of this level share.
    pub fn price(&self) -> (price: Decimal)
        ensures
            price@ == self@.price,
    {
        self.price
    }

    /// The number of orders that rest at this level.
    pub fn len(&self) -> (n: usize)
        ensures
            n == self@.orders.len(),
    {
        self.orders.len()
    }

    /// The order at position `i` of the queue; the oldest is at 0.
    pub fn order(&self, i: usize) -> (order: &Order)
        requires
            i < self@.orders.len(),
        ensures
            order@ == self@.orders[i as int],
    {
        &self.orders[i]
    }
}

/// The outcome of matching an incoming order against a ladder.
pub ghost struct Sweep {
    /// The ladder afterwards.
    pub ladder: LadderView,
    /// The quantity of the incoming order that is still open.
    pub left: DecimalView,
    /// The trades, earliest first.
    pub trades: Seq<TradeView>,
}

/// The view of a [`Ladder`]: its side, and its levels from the best
/// price outward.
pub ghost struct LadderView {
    pub side: Side,
    pub levels: Seq<LevelView>,
}

impl LadderView {
    /// Every level is well-formed, and each level's price is strictly better
    /// than the next one's.
    pub open spec fn wf(self) -> bool {
        &&& forall|i: int| 0 <= i < self.levels.len() ==> (#[trigger] self.levels[i]).wf(self.side)
        &&& forall|i: int, j: int|
            0 <= i < j < self.levels.len() ==> better(
                self.side,
                (#[trigger] self.levels[i]).price,
                (#[trigger] self.levels[j]).price,
            )
    }

    /// The incoming order `taker` can trade with the order at the front:
    /// it has quantity left, and the best price is within its limit.
    pub open spec fn fillable(self, taker: OrderView) -> bool {
        &&& taker.quantity.units() > 0
        &&& self.levels.len() > 0
        &&& self.levels[0].orders.len() > 0
        &&& within_limit(taker, self.levels[0].price)
    }

    /// The order that is matched next: the oldest one at the best price.
    pub open spec fn front(self) -> OrderView {
        self.levels[0].orders[0]
    }

    /// The ladder without its front order, and without the best level where
    /// that order was its last.
    pub open spec fn without_front(self) -> LadderView {
        let queue = self.levels[0].orders.drop_first();
        if queue.len() == 0 {
            LadderView { levels: self.levels.drop_first(), ..self }
        } else {
            LadderView {
                levels: self.levels.update(0, LevelView { orders: queue, ..self.levels[0] }),
                ..self
            }
        }
    }

    /// The ladder with `quantity` left open in its front order.
    pub open spec fn with_front_quantity(self, quantity: DecimalView) -> LadderView {
        let queue = self.levels[0].orders.update(0, self.front().with_quantity(quantity));
        LadderView {
            levels: self.levels.update(0, LevelView { orders: queue, ..self.levels[0] }),
            ..self
        }
    }

    /// The ladder once its front order has traded and has `left` open: the
    /// order stays in place while that is positive, and leaves otherwise.
    pub open spec fn settle_front(self, left: DecimalView) -> LadderView {
        if left.units() > 0 {
            self.with_front_quantity(left)
        } else {
            self.without_front()
        }
    }

    /// The first position from `i` on whose level is not strictly better
    /// than `price`, or the number of levels where every one of them is.
    pub open spec fn rank_from(self, price: DecimalView, i: nat) -> nat
        decreases self.levels.len() - i,
    {
        if i < self.levels.len() && better(self.side, self.levels[i as int].price, price) {
            self.rank_from(price, i + 1)
        } else {
            i
        }
    }

    /// Where `price` belongs among the levels: behind every level with a
    /// strictly better price.
    pub open spec fn rank(self, price: DecimalView) -> nat {
        self.rank_from(price, 0)
    }

    /// The ladder with `order` added: at the back of the level of its price,
    /// or as a new level of its own where there is none.
    pub open spec fn place(self, order: OrderView) -> LadderView {
        let k = self.rank(order.price) as int;
        if k < self.levels.len() && self.levels[k].price.units() == order.price.units() {
            let queue = self.levels[k].orders.push(order);
            LadderView {
                levels: self.levels.update(k, LevelView { orders: queue, ..self.levels[k] }),
                ..self
            }
        } else {
            LadderView {
                levels: self.levels.insert(k, LevelView { price: order.price, orders: seq![order] }),
                ..self
            }
        }
    }

    /// The ladder after `order` has been left to rest: it is placed where it
    /// has a positive quantity, and dropped otherwise.
    pub open spec fn rest(self, order: OrderView) -> LadderView {
        if order.quantity.units() > 0 {
            self.place(order)
        } else {
            self
        }
    }

    /// The resting orders in the order in which they are matched: level by
    /// level from the best price, and within a level from the oldest.
    pub open spec fn queue(self) -> Seq<OrderView>
        decreases self.levels.len(),
    {
        if self.levels.len() == 0 {
            Seq::empty()
        } else {
            self.levels[0].orders + (LadderView {
                levels: self.levels.drop_first(),
                ..self
            }).queue()
        }
    }

    /// Matching `taker` against this ladder.
    ///
    /// While `taker` can trade with the front order, it does. Where it asks
    /// for more than the front order has, that order is filled and leaves,
    /// and matching goes on with what `taker` has left. Otherwise `taker` is
    /// filled, and the front order keeps what it has left, if anything.
    /// Every trade is at the resting order's price.
    pub open spec fn sweep(self, taker: OrderView) -> Sweep
        decreases self.levels.len(), self.levels[0].orders.len(),
    {
        if !self.fillable(taker) {
            Sweep { ladder: self, left: taker.quantity, trades: Seq::empty() }
        } else {
            let maker = self.front();
            if taker.quantity.units() > maker.quantity.units() {
                let left = taker.quantity.minus(maker.quantity);
                let rest = self.without_front().sweep(taker.with_quantity(left));
                Sweep {
                    ladder: rest.ladder,
                    left: rest.left,
                    trades: seq![execution(maker, taker, maker.quantity)] + rest.trades,
                }
            } else {
                Sweep {
                    ladder: self.settle_front(maker.quantity.minus(taker.quantity)),
                    left: taker.quantity.minus(taker.quantity),
                    trades: seq![execution(maker, taker, taker.quantity)],
                }
            }
        }
    }
}

impl LadderView {
    /// Every quantity that rests on the ladder is written with `scale`
    /// digits after the point.
    pub open spec fn quantities_have_scale(self, scale: nat) -> bool {
        forall|i: int, k: int|
            0 <= i < self.levels.len() && 0 <= k < self.levels[i].orders.len() ==> (
            #[trigger] self.levels[i].orders[k]).quantity.scale == scale
    }

    /// No subtraction rounds what `taker` has left while it is matched
    /// against this ladder.
    pub open spec fn sweep_is_exact(self, taker: OrderView) -> bool
        decreases self.levels.len(), self.levels[0].orders.len(),
    {
        if self.fillable(taker) && taker.quantity.units() > self.front().quantity.units() {
            let left = taker.quantity.minus(self.front().quantity);
            &&& taker.quantity.minus_is_exact(self.front().quantity)
            &&& self.without_front().sweep_is_exact(taker.with_quantity(left))
        } else {
            true
        }
    }
}

/// One side of the book.
#[derive(Debug)]
pub struct Ladder {
    side: Side,
    levels: VecDeque<Level>,
}

impl View for Ladder {
    type V = LadderView;

    closed spec fn view(&self) -> LadderView {
        LadderView { side: self.side, levels: self.levels@.map_values(|l: Level| l@) }
    }
}

/// The views of the trades in `trades`.
pub open spec fn trade_views(trades: Seq<Trade>) -> Seq<TradeView> {
    trades.map_values(|t: Trade| t@)
}

impl Ladder {
    /// An empty ladder for orders of side `side`.
    pub fn new(side: Side) -> (ladder: Ladder)
        ensures
            ladder@ == (LadderView { side, levels: Seq::empty() }),
    {
        let ladder = Ladder { side, levels: VecDeque::new() };
        assert(ladder@.levels =~= Seq::empty());
        ladder
    }

    /// The side whose orders rest here.
    pub fn side(&self) -> (side: Side)
        ensures
            side == self@.side,
    {
        self.side
    }

    /// The number of price levels.
    pub fn len(&self) -> (n: usize)
        ensures
            n == self@.levels.len(),
    {
        self.levels.len()
    }

    /// Whether no order rests here.
    pub fn is_empty(&self) -> (r: bool)
        ensures
            r == (self@.levels.len() == 0),
    {
        self.levels.len() == 0
    }

    /// Level `i`, counted from the best price.
    pub fn level(&self, i: usize) -> (level: &Level)
        requires
            i < self@.levels.len(),
        ensures
            level@ == self@.levels[i as int],
    {
        &self.levels[i]
    }

    /// The best price on this ladder, if an order rests here.
    pub fn best_price(&self) -> (price: Option<Decimal>)
        ensures
            price is Some <==> self@.levels.len() > 0,
            price is Some ==> price.unwrap()@ == self@.levels[0].price,
    {
        if self.levels.len() == 0 {
            None
        } else {
            Some(self.price_at(0))
        }
    }
}

/// Whether `taker` may trade at `price`.
fn accepts(taker: &Order, price: Decimal) -> (r: bool)
    requires
        taker@.wf(),
        price@.wf(),
    ensures
        r == within_limit(taker@, price@),
{
    match taker.side() {
        Side::Bid => !greater_than(price, taker.price()),
        Side::Ask => !greater_than(taker.price(), price),
    }
}

impl Ladder {
    /// Whether `taker` can trade with the front order of this ladder.
    pub fn can_fill(&self, taker: &Order) -> (r: bool)
        requires
            self@.wf(),
            taker@.wf(),
        ensures
            r == self@.fillable(taker@),
    {
        if !greater_than(taker.quantity(), Decimal::zero()) {
            return false;
        }
        if self.levels.len() == 0 {
            return false;
        }
        let best = &self.levels[0];
        assert(best@ == self@.levels[0]);
        accepts(taker, best.price)
    }

    /// The quantity that the front order has open.
    pub fn front_quantity(&self) -> (quantity: Decimal)
        requires
            self@.wf(),
            self@.levels.len() > 0,
        ensures
            quantity@ == self@.front().quantity,
    {
        let best = &self.levels[0];
        assert(best@ == self@.levels[0]);
        assert(best@.wf(self@.side));
        let maker = &best.orders[0];
        assert(maker@ == best@.orders[0]);
        maker.quantity()
    }

    /// Records that `taker` took `quantity` from the front order, which has
    /// `maker_left` open after it. The front order stays in place with that
    /// quantity while it is positive; otherwise it leaves the ladder, and
    /// its level with it where the level is then empty.
    pub fn fill_front(&mut self, taker: &Order, quantity: Decimal, maker_left: Decimal) -> (trade:
        Trade)
        requires
            old(self)@.wf(),
            old(self)@.levels.len() > 0,
            maker_left@.wf(),
        ensures
            trade@ == execution(old(self)@.front(), taker@, quantity@),
            final(self)@ == old(self)@.settle_front(maker_left@),
            final(self)@.wf(),
    {
        let ghost before = self@;
        assert(before.levels[0].wf(before.side));
        let mut level = self.levels.pop_front().unwrap();
        assert(level@ == before.levels[0]);
        let ghost tail = self.levels@.map_values(|l: Level| l@);
        assert(tail =~= before.levels.drop_first());
        let mut maker = level.orders.pop_front().unwrap();
        assert(maker@ == before.front());
        let ghost queue = level.orders@.map_values(|o: Order| o@);
        assert(queue =~= before.levels[0].orders.drop_first());
        let trade = Trade::between(&maker, taker, quantity);
        if greater_than(maker_left, Decimal::zero()) {
            maker.set_quantity(maker_left);
            level.orders.push_front(maker);
            assert(level@.orders =~= before.levels[0].orders.update(
                0,
                before.front().with_quantity(maker_left@),
            ));
        }
        if level.orders.len() > 0 {
            self.levels.push_front(level);
            assert(self@.levels =~= before.levels.update(0, level@));
        }
        assert(self@.levels =~= before.settle_front(maker_left@).levels);
        trade
    }

    /// Matches `taker` against this ladder: fills it from the front orders
    /// for as long as it has quantity left and the best price is within its
    /// limit. The quantity that `taker` still has open is written back to it;
    /// the trades are returned, earliest first.
    pub fn sweep(&mut self, taker: &mut Order) -> (trades: Vec<Trade>)
        requires
            old(self)@.wf(),
            old(taker)@.wf(),
        ensures
            final(self)@.wf(),
            final(taker)@.wf(),
            final(self)@ == old(self)@.sweep(old(taker)@).ladder,
            final(taker)@ == old(taker)@.with_quantity(old(self)@.sweep(old(taker)@).left),
            trade_views(trades@) == old(self)@.sweep(old(taker)@).trades,
    {
        let ghost start = self@;
        let ghost incoming = taker@;
        let mut trades: Vec<Trade> = Vec::new();
        assert(trade_views(trades@) =~= Seq::empty());
        while self.can_fill(taker)
            invariant
                self@.wf(),
                taker@.wf(),
                taker@ == incoming.with_quantity(taker@.quantity),
                start.sweep(incoming).ladder == self@.sweep(taker@).ladder,
                start.sweep(incoming).left == self@.sweep(taker@).left,
                start.sweep(incoming).trades == trade_views(trades@) + self@.sweep(taker@).trades,
            decreases
                    self@.levels.len(),
                    self@.levels[0].orders.len(),
                    (if taker@.quantity.units() > 0 { 1nat } else { 0nat }),
        {
            let ghost ladder = self@;
            let ghost before = taker@;
            let ghost maker = self@.front();
            let ghost done = trade_views(trades@);
            assert(ladder.levels[0].wf(ladder.side));
            assert(maker.wf() && maker.quantity.units() > 0);
            let taker_quantity = taker.quantity();
            let maker_quantity = self.front_quantity();
            let quantity = minimum(taker_quantity, maker_quantity);
            proof {
                lemma_units_sign(taker_quantity@);
                lemma_units_sign(maker_quantity@);
            }
            let taker_left = subtract(taker_quantity, quantity);
            let maker_left = subtract(maker_quantity, quantity);
            let trade = self.fill_front(taker, quantity, maker_left);
            taker.set_quantity(taker_left);
            trades.push(trade);
            proof {
                assert(trade_views(trades@) =~= done.push(trade@));
                lemma_units_sign(taker_left@);
                lemma_units_sign(maker_left@);
                if before.quantity.units() > maker.quantity.units() {
                    assert(quantity@ == maker.quantity);
                    assert(maker_left@.mantissa == 0);
                    assert(taker_left@ == before.quantity.minus(maker.quantity));
                    assert(self@ == ladder.without_front());
                    assert(taker@ == before.with_quantity(taker_left@));
                    assert(done + ladder.sweep(before).trades =~= done.push(trade@) + self@.sweep(
                        taker@,
                    ).trades);
                } else {
                    assert(quantity@ == before.quantity);
                    assert(taker_left@.mantissa == 0);
                    assert(maker_left@ == maker.quantity.minus(before.quantity));
                    assert(!self@.fillable(taker@));
                    assert(done + ladder.sweep(before).trades =~= done.push(trade@) + self@.sweep(
                        taker@,
                    ).trades);
                }
            }
        }
        assert(trade_views(trades@) + self@.sweep(taker@).trades =~= trade_views(trades@));
        trades
    }
}

/// Whether `p` is strictly better than `q` on a ladder of side `side`.
fn improves(side: Side, p: Decimal, q: Decimal) -> (r: bool)
    requires
        p@.wf(),
        q@.wf(),
    ensures
        r == better(side, p@, q@),
{
    match side {
        Side::Ask => greater_than(q, p),
        Side::Bid => greater_than(p, q),
    }
}

impl Ladder {
    /// The price of level `i`, counted from the best.
    pub fn price_at(&self, i: usize) -> (price: Decimal)
        requires
            i < self@.levels.len(),
        ensures
            price@ == self@.levels[i as int].price,
    {
        let level = &self.levels[i];
        assert(level@ == self@.levels[i as int]);
        level.price
    }

    /// Leaves `order` to rest on this ladder, behind the orders that are
    /// already at its price. An order without a positive quantity is dropped.
    pub fn rest(&mut self, order: Order)
        requires
            old(self)@.wf(),
            order@.wf(),
            order@.side == old(self)@.side,
        ensures
            final(self)@ == old(self)@.rest(order@),
            final(self)@.wf(),
    {
        if !greater_than(order.quantity(), Decimal::zero()) {
            return ;
        }
        let ghost before = self@;
        let price = order.price();
        let mut i: usize = 0;
        while i < self.levels.len() && improves(self.side, self.price_at(i), price)
            invariant
                self@ == before,
                before.wf(),
                price@.wf(),
                i <= before.levels.len(),
                before.rank_from(price@, i as nat) == before.rank(price@),
                forall|j: int|
                    0 <= j < i ==> better(
                        before.side,
                        (#[trigger] before.levels[j]).price,
                        price@,
                    ),
            decreases before.levels.len() - i,
        {
            i = i + 1;
        }
        assert(before.rank(price@) == i);
        if i < self.levels.len() && !improves(self.side, price, self.price_at(i)) {
            let mut level = self.levels.remove(i).unwrap();
            assert(level@ == before.levels[i as int]);
            assert(level@.wf(before.side));
            level.orders.push_back(order);
            assert(level@.orders =~= before.levels[i as int].orders.push(order@));
            self.levels.insert(i, level);
            assert(self@.levels =~= before.levels.update(i as int, level@));
        } else {
            let mut orders: VecDeque<Order> = VecDeque::new();
            orders.push_back(order);
            let level = Level { price, orders };
            assert(level@.orders =~= seq![order@]);
            self.levels.insert(i, level);
            assert(self@.levels =~= before.levels.insert(i as int, level@));
            assert(self@.wf()) by {
                assert forall|a: int, b: int| 0 <= a < b < self@.levels.len() implies better(
                    self@.side,
                    (#[trigger] self@.levels[a]).price,
                    (#[trigger] self@.levels[b]).price,
                ) by {
                    if b == i {
                        assert(better(before.side, before.levels[a].price, price@));
                    } else if a == i {
                        assert(b - 1 >= i);
                        if b - 1 > i {
                            assert(better(
                                before.side,
                                before.levels[i as int].price,
                                before.levels[b - 1].price,
                            ));
                        }
                    } else if a < i && b > i {
                        assert(better(
                            before.side,
                            before.levels[a].price,
                            before.levels[b - 1].price,
                        ));
                    } else if b < i {
                        assert(better(before.side, before.levels[a].price, before.levels[b].price));
                    } else {
                        assert(better(
                            before.side,
                            before.levels[a - 1].price,
                            before.levels[b - 1].price,
                        ));
                    }
                }
            }
        }
    }
}

/// Taking the front order away keeps a ladder well-formed.
pub proof fn lemma_without_front_wf(ladder: LadderView)
    requires
        ladder.wf(),
        ladder.levels.len() > 0,
    ensures
        ladder.without_front().wf(),
{
    let after = ladder.without_front();
    assert(ladder.levels[0].wf(ladder.side));
    assert forall|i: int| 0 <= i < after.levels.len() implies (#[trigger] after.levels[i]).wf(
        after.side,
    ) by {
        if ladder.levels[0].orders.len() == 1 {
            assert(ladder.levels[i + 1].wf(ladder.side));
        } else if i == 0 {
            assert forall|k: int| 0 <= k < after.levels[0].orders.len() implies (
            #[trigger] after.levels[0].orders[k]).wf() && after.levels[0].orders[k].side
                == after.side && after.levels[0].orders[k].price.units()
                == after.levels[0].price.units() && after.levels[0].orders[k].quantity.units()
                > 0 by {
                assert(after.levels[0].orders[k] == ladder.levels[0].orders[k + 1]);
            }
        } else {
            assert(ladder.levels[i].wf(ladder.side));
        }
    }
    assert forall|i: int, j: int| 0 <= i < j < after.levels.len() implies better(
        after.side,
        (#[trigger] after.levels[i]).price,
        (#[trigger] after.levels[j]).price,
    ) by {
        if ladder.levels[0].orders.len() == 1 {
            assert(better(ladder.side, ladder.levels[i + 1].price, ladder.levels[j + 1].price));
        } else {
            assert(better(ladder.side, ladder.levels[i].price, ladder.levels[j].price));
        }
    }
}

/// After matching, the best price on the ladder is no better than it was,
/// and an incoming order that still has quantity open finds no price within
/// its limit.
pub proof fn lemma_sweep_leaves_no_match(ladder: LadderView, taker: OrderView)
    requires
        ladder.wf(),
    ensures
        ladder.sweep(taker).ladder.side == ladder.side,
        ladder.sweep(taker).ladder.levels.len() > 0 ==> ladder.levels.len() > 0 && !better(
            ladder.side,
            ladder.sweep(taker).ladder.levels[0].price,
            ladder.levels[0].price,
        ),
        !ladder.sweep(taker).ladder.fillable(taker.with_quantity(ladder.sweep(taker).left)),
    decreases ladder.levels.len(), ladder.levels[0].orders.len(),
{
    if ladder.fillable(taker) {
        let maker = ladder.front();
        let next = ladder.without_front();
        lemma_without_front_wf(ladder);
        if next.levels.len() > 0 && ladder.levels[0].orders.len() == 1 {
            assert(better(ladder.side, ladder.levels[0].price, ladder.levels[1].price));
        }
        if taker.quantity.units() > maker.quantity.units() {
            let left = taker.quantity.minus(maker.quantity);
            lemma_sweep_leaves_no_match(next, taker.with_quantity(left));
            assert(taker.with_quantity(left).with_quantity(ladder.sweep(taker).left)
                == taker.with_quantity(ladder.sweep(taker).left));
        } else {
            lemma_units_sign(taker.quantity);
            lemma_units_sign(taker.quantity.minus(taker.quantity));
        }
    }
}

/// After an order has been placed, the best price is its own or the one
/// that was the best before.
pub proof fn lemma_place_front(ladder: LadderView, order: OrderView)
    ensures
        ladder.place(order).side == ladder.side,
        ladder.place(order).levels.len() > 0,
        ladder.place(order).levels[0].price.units() == order.price.units() || (
        ladder.levels.len() > 0 && ladder.place(order).levels[0].price == ladder.levels[0].price),
{
    lemma_rank_bound(ladder, order.price, 0);
}

/// A rank is a position in the ladder, or the one behind its last level.
pub proof fn lemma_rank_bound(ladder: LadderView, price: DecimalView, i: nat)
    requires
        i <= ladder.levels.len(),
    ensures
        i <= ladder.rank_from(price, i) <= ladder.levels.len(),
    decreases ladder.levels.len() - i,
{
    if i < ladder.levels.len() && better(ladder.side, ladder.levels[i as int].price, price) {
        lemma_rank_bound(ladder, price, i + 1);
    }
}

/// On a well-formed ladder every level holds an order.
pub proof fn lemma_levels_hold_orders(ladder: LadderView)
    requires
        ladder.wf(),
    ensures
        forall|i: int|
            0 <= i < ladder.levels.len() ==> (#[trigger] ladder.levels[i]).orders.len() > 0,
{
    assert forall|i: int| 0 <= i < ladder.levels.len() implies (
    #[trigger] ladder.levels[i]).orders.len() > 0 by {
        assert(ladder.levels[i].wf(ladder.side));
    }
}

} // verus!
