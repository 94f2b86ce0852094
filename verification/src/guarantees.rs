//! What holds of every call of `add_order`: theorems about
//! [`BookView::add_order`](crate::book::BookView::add_order), which the
//! contract of `OrderBook::add_order` equates with what the call does.
//!
//! The theorems come first; the lemmas about a single ladder, from which
//! they follow, stand below them.

use crate::book::BookView;
use crate::decimal::{lemma_aligned_minus_exact, DecimalView};
use crate::ladder::{
    better, lemma_levels_hold_orders, lemma_place_front, lemma_rank_bound,
    lemma_sweep_leaves_no_match, lemma_without_front_wf, within_limit, LadderView,
};
use crate::order::{traded_units, OrderView, Side, TradeView};
use vstd::prelude::*;

verus! {

/// `trade` was made by `taker` with the resting order `maker`, at the price
/// of `maker`.
pub open spec fn made_with(trade: TradeView, maker: OrderView, taker: OrderView) -> bool {
    &&& trade.maker_order_id == maker.id
    &&& trade.taker_order_id == taker.id
    &&& trade.price == maker.price
}

/// `after` is what stands behind the first `n` orders of `before`, led by
/// the last of those `n` with some quantity left where it is still there.
pub open spec fn is_rest_of_queue(after: Seq<OrderView>, before: Seq<OrderView>, n: int) -> bool {
    ||| after =~= before.skip(n)
    ||| n > 0 && after.len() > 0 && after =~= seq![
        before[n - 1].with_quantity(after[0].quantity),
    ] + before.skip(n)
}

/// `after` is `before` with `order` added at the back of the level at
/// position `k`, which is a level of its own where `before` had none at
/// the price of `order`; no other level differs.
pub open spec fn joined_at_back(after: LadderView, before: LadderView, order: OrderView, k: int) -> bool {
    &&& 0 <= k < after.levels.len()
    &&& after.levels[k].price.units() == order.price.units()
    &&& after.levels[k].orders.last() == order
    &&& forall|i: int| 0 <= i < k ==> after.levels[i] == before.levels[i]
    &&& if after.levels.len() == before.levels.len() {
        &&& after.levels[k].orders.drop_last() == before.levels[k].orders
        &&& forall|i: int| k < i < before.levels.len() ==> after.levels[i] == before.levels[i]
    } else {
        &&& after.levels.len() == before.levels.len() + 1
        &&& after.levels[k].orders == seq![order]
        &&& forall|i: int| k <= i < before.levels.len() ==> after.levels[i + 1] == before.levels[i]
        &&& forall|i: int|
            0 <= i < before.levels.len() ==> (#[trigger] before.levels[i]).price.units()
                != order.price.units()
    }
}

/// Quantity is conserved. Where the order comes with a quantity that is not
/// negative and no subtraction rounds what it has left, the quantities of
/// its trades and the quantity it has left add up to the quantity it came
/// with; so the trades never move more than that. What it has left is what
/// rests in the book, if anything does.
pub proof fn quantity_is_conserved(book: BookView, order: OrderView)
    requires
        book.wf(),
        order.quantity.units() >= 0,
        book.facing(order.side).sweep_is_exact(order),
    ensures
        traded_units(book.add_order(order).trades) + book.add_order(order).left.units()
            == order.quantity.units(),
        0 <= traded_units(book.add_order(order).trades) <= order.quantity.units(),
        book.add_order(order).left.units() >= 0,
        book.add_order(order).book.own(order.side) == book.own(order.side).rest(
            order.with_quantity(book.add_order(order).left),
        ),
        book.add_order(order).left.units() == 0 ==> book.add_order(order).book.own(order.side)
            == book.own(order.side),
{
    lemma_sweep_conserves(book.facing(order.side), order);
}

/// Quantities of one scale never round. Where every quantity in the book
/// and that of the order are written with the same number of digits after
/// the point, no subtraction of the call rounds, and every quantity in the
/// book afterwards is written with that number of digits too.
pub proof fn one_scale_never_rounds(book: BookView, order: OrderView)
    requires
        book.asks.quantities_have_scale(order.quantity.scale),
        book.bids.quantities_have_scale(order.quantity.scale),
    ensures
        book.facing(order.side).sweep_is_exact(order),
        book.add_order(order).left.scale == order.quantity.scale,
        book.add_order(order).book.asks.quantities_have_scale(order.quantity.scale),
        book.add_order(order).book.bids.quantities_have_scale(order.quantity.scale),
{
    lemma_one_scale_is_exact(book.facing(order.side), order);
    lemma_place_keeps_scale(
        book.own(order.side),
        order.with_quantity(book.add_order(order).left),
    );
}

/// Trades are made at the maker's price. The i-th trade of a call is made
/// with the i-th order in the queue of the other side, at the price of that
/// resting order, and names the incoming order as its taker.
pub proof fn trades_at_maker_price(book: BookView, order: OrderView)
    requires
        book.wf(),
    ensures
        book.add_order(order).trades.len() <= book.facing(order.side).queue().len(),
        forall|i: int|
            0 <= i < book.add_order(order).trades.len() ==> made_with(
                #[trigger] book.add_order(order).trades[i],
                book.facing(order.side).queue()[i],
                order,
            ),
{
    lemma_sweep_follows_queue(book.facing(order.side), order);
}

/// Better prices are matched first. Every trade of a call is at a price
/// within the order's limit; the prices of a bid's trades never fall from
/// one trade to the next, and those of an ask's trades never rise.
pub proof fn prices_in_priority_order(book: BookView, order: OrderView)
    requires
        book.wf(),
    ensures
        forall|i: int|
            0 <= i < book.add_order(order).trades.len() ==> within_limit(
                order,
                (#[trigger] book.add_order(order).trades[i]).price,
            ),
        order.side == Side::Bid ==> forall|i: int, j: int|
            0 <= i < j < book.add_order(order).trades.len() ==> (
            #[trigger] book.add_order(order).trades[i]).price.units() <= (
            #[trigger] book.add_order(order).trades[j]).price.units(),
        order.side == Side::Ask ==> forall|i: int, j: int|
            0 <= i < j < book.add_order(order).trades.len() ==> (
            #[trigger] book.add_order(order).trades[i]).price.units() >= (
            #[trigger] book.add_order(order).trades[j]).price.units(),
{
    let ladder = book.facing(order.side);
    lemma_sweep_prices(ladder, order);
    let trades = ladder.sweep(order).trades;
    assert forall|i: int, j: int| 0 <= i < j < trades.len() implies !better(
        ladder.side,
        (#[trigger] trades[j]).price,
        (#[trigger] trades[i]).price,
    ) by {}
}

/// Resting orders are taken in the order of their arrival. A call goes down
/// the queue of the other side from its front and passes over no order:
/// every trade but the last takes all that its resting order has, and the
/// orders behind those that traded stay as they were, behind the last of
/// them where that one has quantity left.
pub proof fn makers_in_arrival_order(book: BookView, order: OrderView)
    requires
        book.wf(),
    ensures
        forall|i: int|
            0 <= i < book.add_order(order).trades.len() ==> (
            #[trigger] book.add_order(order).trades[i]).maker_order_id == book.facing(
                order.side,
            ).queue()[i].id,
        forall|i: int|
            0 <= i < book.add_order(order).trades.len() - 1 ==> (
            #[trigger] book.add_order(order).trades[i]).quantity == book.facing(
                order.side,
            ).queue()[i].quantity,
        is_rest_of_queue(
            book.add_order(order).book.facing(order.side).queue(),
            book.facing(order.side).queue(),
            book.add_order(order).trades.len() as int,
        ),
{
    lemma_sweep_follows_queue(book.facing(order.side), order);
}

/// The queue at a price is in the order of arrival. What is left of an
/// order rests at the back of the level of its price, behind the orders
/// that were there, which keep their order; no other level changes.
pub proof fn rest_joins_back(book: BookView, order: OrderView)
    requires
        book.wf(),
    ensures
        book.add_order(order).left.units() > 0 ==> joined_at_back(
            book.add_order(order).book.own(order.side),
            book.own(order.side),
            order.with_quantity(book.add_order(order).left),
            book.own(order.side).rank(order.price) as int,
        ),
{
    if book.add_order(order).left.units() > 0 {
        lemma_rest_joins_back(
            book.own(order.side),
            order.with_quantity(book.add_order(order).left),
        );
    }
}

/// The book is never left crossed. After a call on a book that is not
/// crossed, the best bid is below the best ask wherever both sides hold
/// orders.
pub proof fn never_crossed(book: BookView, order: OrderView)
    requires
        book.wf(),
    ensures
        book.add_order(order).book.not_crossed(),
{
    let sweep = book.facing(order.side).sweep(order);
    lemma_sweep_leaves_no_match(book.facing(order.side), order);
    lemma_place_front(book.own(order.side), order.with_quantity(sweep.left));
    if sweep.ladder.levels.len() > 0 {
        assert(sweep.ladder.levels[0].orders.len() > 0) by {
            lemma_sweep_leaves_no_empty_level(book.facing(order.side), order);
        }
    }
}

/// No empty level is kept. After a call, every price level of either side
/// holds at least one order.
pub proof fn no_level_left_empty(book: BookView, order: OrderView)
    requires
        book.wf(),
    ensures
        book.add_order(order).book.no_empty_level(),
{
    let sweep = book.facing(order.side).sweep(order);
    let own = book.own(order.side);
    let rested = order.with_quantity(sweep.left);
    lemma_sweep_leaves_no_empty_level(book.facing(order.side), order);
    lemma_levels_hold_orders(own);
    lemma_rank_bound(own, order.price, 0);
    let after = own.rest(rested);
    assert forall|i: int| 0 <= i < after.levels.len() implies (#[trigger] after.levels[i]).orders.len()
        > 0 by {
        let k = own.rank(order.price) as int;
        if sweep.left.units() > 0 {
            if after.levels.len() == own.levels.len() {
                if i != k {
                    assert(after.levels[i] == own.levels[i]);
                }
            } else if i < k {
                assert(after.levels[i] == own.levels[i]);
            } else if i > k {
                assert(after.levels[i] == own.levels[i - 1]);
            }
        }
    }
}

/// The queue of a ladder starts with its front order; behind it comes the
/// queue of the ladder without that order.
proof fn lemma_queue_unfolds(ladder: LadderView)
    requires
        ladder.levels.len() > 0,
        ladder.levels[0].orders.len() > 0,
    ensures
        ladder.queue() =~= seq![ladder.front()] + ladder.without_front().queue(),
{
    let tail = LadderView { levels: ladder.levels.drop_first(), ..ladder };
    let next = ladder.without_front();
    if ladder.levels[0].orders.len() == 1 {
        assert(ladder.levels[0].orders =~= seq![ladder.front()]);
        assert(next == tail);
    } else {
        assert(next.levels.drop_first() =~= ladder.levels.drop_first());
        assert(ladder.levels[0].orders =~= seq![ladder.front()] + next.levels[0].orders);
    }
}

/// A new quantity for the front order changes the first entry of the queue
/// and nothing else.
proof fn lemma_queue_with_front_quantity(ladder: LadderView, quantity: DecimalView)
    requires
        ladder.levels.len() > 0,
        ladder.levels[0].orders.len() > 0,
    ensures
        ladder.with_front_quantity(quantity).queue() =~= ladder.queue().update(
            0,
            ladder.front().with_quantity(quantity),
        ),
{
    let after = ladder.with_front_quantity(quantity);
    assert(after.levels.drop_first() =~= ladder.levels.drop_first());
    assert(after.levels[0].orders =~= ladder.levels[0].orders.update(
        0,
        ladder.front().with_quantity(quantity),
    ));
}

/// The trades of a sweep go down the queue: the i-th trade is made with the
/// i-th resting order, at that order's price, and every trade but the last
/// takes all that its resting order has. The queue afterwards is what stood
/// behind the orders that traded, led by the last of them where it has
/// quantity left.
pub proof fn lemma_sweep_follows_queue(ladder: LadderView, taker: OrderView)
    ensures
        ladder.sweep(taker).trades.len() <= ladder.queue().len(),
        forall|i: int|
            0 <= i < ladder.sweep(taker).trades.len() ==> made_with(
                #[trigger] ladder.sweep(taker).trades[i],
                ladder.queue()[i],
                taker,
            ),
        forall|i: int|
            0 <= i < ladder.sweep(taker).trades.len() - 1 ==> (
            #[trigger] ladder.sweep(taker).trades[i]).quantity == ladder.queue()[i].quantity,
        is_rest_of_queue(
            ladder.sweep(taker).ladder.queue(),
            ladder.queue(),
            ladder.sweep(taker).trades.len() as int,
        ),
    decreases ladder.levels.len(), ladder.levels[0].orders.len(),
{
    let queue = ladder.queue();
    let sweep = ladder.sweep(taker);
    if ladder.fillable(taker) {
        let maker = ladder.front();
        let next = ladder.without_front();
        lemma_queue_unfolds(ladder);
        assert(next.queue() =~= queue.skip(1));
        if taker.quantity.units() > maker.quantity.units() {
            let onward = taker.with_quantity(taker.quantity.minus(maker.quantity));
            let rest = next.sweep(onward);
            lemma_sweep_follows_queue(next, onward);
            let n = sweep.trades.len() as int;
            assert(n == rest.trades.len() + 1);
            assert forall|i: int| 0 <= i < n implies made_with(
                #[trigger] sweep.trades[i],
                queue[i],
                taker,
            ) by {
                if i > 0 {
                    assert(sweep.trades[i] == rest.trades[i - 1]);
                    assert(next.queue()[i - 1] == queue[i]);
                }
            }
            assert forall|i: int| 0 <= i < n - 1 implies (#[trigger] sweep.trades[i]).quantity
                == queue[i].quantity by {
                if i > 0 {
                    assert(sweep.trades[i] == rest.trades[i - 1]);
                    assert(next.queue()[i - 1] == queue[i]);
                }
            }
            assert(next.queue().skip(n - 1) =~= queue.skip(n));
            if n - 1 > 0 {
                assert(next.queue()[n - 2] == queue[n - 1]);
            }
        } else {
            let left = maker.quantity.minus(taker.quantity);
            if left.units() > 0 {
                lemma_queue_with_front_quantity(ladder, left);
                assert(sweep.ladder.queue() =~= seq![queue[0].with_quantity(left)] + queue.skip(1));
                assert(sweep.ladder.queue()[0].quantity == left);
            }
        }
    } else {
        assert(queue.skip(0) =~= queue);
    }
}

/// Every trade of a sweep is at a price within the incoming order's limit
/// and no better than the ladder's best, and no trade is at a better price
/// than an earlier one.
pub proof fn lemma_sweep_prices(ladder: LadderView, taker: OrderView)
    requires
        ladder.wf(),
    ensures
        forall|i: int|
            0 <= i < ladder.sweep(taker).trades.len() ==> within_limit(
                taker,
                (#[trigger] ladder.sweep(taker).trades[i]).price,
            ) && !better(ladder.side, ladder.sweep(taker).trades[i].price, ladder.levels[0].price),
        forall|i: int, j: int|
            0 <= i < j < ladder.sweep(taker).trades.len() ==> !better(
                ladder.side,
                (#[trigger] ladder.sweep(taker).trades[j]).price,
                (#[trigger] ladder.sweep(taker).trades[i]).price,
            ),
    decreases ladder.levels.len(), ladder.levels[0].orders.len(),
{
    let sweep = ladder.sweep(taker);
    if ladder.fillable(taker) {
        let maker = ladder.front();
        assert(ladder.levels[0].wf(ladder.side));
        assert(maker.price.units() == ladder.levels[0].price.units());
        if taker.quantity.units() > maker.quantity.units() {
            let next = ladder.without_front();
            let onward = taker.with_quantity(taker.quantity.minus(maker.quantity));
            let rest = next.sweep(onward);
            lemma_without_front_wf(ladder);
            lemma_sweep_prices(next, onward);
            if next.levels.len() > 0 && ladder.levels[0].orders.len() == 1 {
                assert(better(ladder.side, ladder.levels[0].price, ladder.levels[1].price));
            }
            assert forall|i: int| 0 <= i < sweep.trades.len() implies within_limit(
                taker,
                (#[trigger] sweep.trades[i]).price,
            ) && !better(ladder.side, sweep.trades[i].price, ladder.levels[0].price) by {
                if i > 0 {
                    assert(sweep.trades[i] == rest.trades[i - 1]);
                }
            }
            assert forall|i: int, j: int| 0 <= i < j < sweep.trades.len() implies !better(
                ladder.side,
                (#[trigger] sweep.trades[j]).price,
                (#[trigger] sweep.trades[i]).price,
            ) by {
                assert(sweep.trades[j] == rest.trades[j - 1]);
                if i > 0 {
                    assert(sweep.trades[i] == rest.trades[i - 1]);
                }
            }
        }
    }
}

/// The sum over `seq![first] + rest` is the first quantity plus the sum over
/// `rest`.
proof fn lemma_traded_units_unfolds(first: TradeView, rest: Seq<TradeView>)
    ensures
        traded_units(seq![first] + rest) == first.quantity.units() + traded_units(rest),
{
    assert((seq![first] + rest).drop_first() =~= rest);
}

/// Where no subtraction rounds, the quantities of the trades of a sweep and
/// the quantity that the incoming order has left add up to the quantity it
/// came with, and neither is negative.
pub proof fn lemma_sweep_conserves(ladder: LadderView, taker: OrderView)
    requires
        ladder.wf(),
        taker.quantity.units() >= 0,
        ladder.sweep_is_exact(taker),
    ensures
        traded_units(ladder.sweep(taker).trades) + ladder.sweep(taker).left.units()
            == taker.quantity.units(),
        traded_units(ladder.sweep(taker).trades) >= 0,
        ladder.sweep(taker).left.units() >= 0,
    decreases ladder.levels.len(), ladder.levels[0].orders.len(),
{
    let sweep = ladder.sweep(taker);
    if ladder.fillable(taker) {
        let maker = ladder.front();
        assert(ladder.levels[0].wf(ladder.side));
        assert(maker.quantity.units() > 0);
        if taker.quantity.units() > maker.quantity.units() {
            let next = ladder.without_front();
            let onward = taker.with_quantity(taker.quantity.minus(maker.quantity));
            lemma_without_front_wf(ladder);
            lemma_sweep_conserves(next, onward);
            lemma_traded_units_unfolds(sweep.trades[0], next.sweep(onward).trades);
            assert(sweep.trades =~= seq![sweep.trades[0]] + next.sweep(onward).trades);
        } else {
            lemma_aligned_minus_exact(taker.quantity, taker.quantity);
            lemma_traded_units_unfolds(sweep.trades[0], Seq::empty());
            assert(sweep.trades =~= seq![sweep.trades[0]] + Seq::<TradeView>::empty());
            assert(traded_units(Seq::<TradeView>::empty()) == 0);
        }
    } else {
        assert(traded_units(sweep.trades) == 0);
    }
}

/// Taking the front order away leaves the scale of the other quantities as
/// it is.
proof fn lemma_without_front_keeps_scale(ladder: LadderView, scale: nat)
    requires
        ladder.levels.len() > 0,
        ladder.levels[0].orders.len() > 0,
        ladder.quantities_have_scale(scale),
    ensures
        ladder.without_front().quantities_have_scale(scale),
{
    let next = ladder.without_front();
    assert forall|i: int, k: int|
        0 <= i < next.levels.len() && 0 <= k < next.levels[i].orders.len() implies (
    #[trigger] next.levels[i].orders[k]).quantity.scale == scale by {
        if ladder.levels[0].orders.len() == 1 {
            assert(next.levels[i].orders[k] == ladder.levels[i + 1].orders[k]);
        } else if i == 0 {
            assert(next.levels[i].orders[k] == ladder.levels[0].orders[k + 1]);
        } else {
            assert(next.levels[i].orders[k] == ladder.levels[i].orders[k]);
        }
    }
}

/// Where the incoming order and every resting order write their quantity
/// with one scale, no subtraction of the sweep rounds, and the quantities
/// that are left have that scale too.
pub proof fn lemma_one_scale_is_exact(ladder: LadderView, taker: OrderView)
    requires
        ladder.quantities_have_scale(taker.quantity.scale),
    ensures
        ladder.sweep_is_exact(taker),
        ladder.sweep(taker).left.scale == taker.quantity.scale,
        ladder.sweep(taker).ladder.quantities_have_scale(taker.quantity.scale),
    decreases ladder.levels.len(), ladder.levels[0].orders.len(),
{
    let scale = taker.quantity.scale;
    if ladder.fillable(taker) {
        let maker = ladder.front();
        assert(maker == ladder.levels[0].orders[0]);
        lemma_without_front_keeps_scale(ladder, scale);
        if taker.quantity.units() > maker.quantity.units() {
            lemma_aligned_minus_exact(taker.quantity, maker.quantity);
            lemma_one_scale_is_exact(
                ladder.without_front(),
                taker.with_quantity(taker.quantity.minus(maker.quantity)),
            );
        } else {
            let left = maker.quantity.minus(taker.quantity);
            let after = ladder.with_front_quantity(left);
            assert forall|i: int, k: int|
                0 <= i < after.levels.len() && 0 <= k < after.levels[i].orders.len() implies (
            #[trigger] after.levels[i].orders[k]).quantity.scale == scale by {
                if i == 0 && k == 0 {
                } else {
                    assert(after.levels[i].orders[k] == ladder.levels[i].orders[k]);
                }
            }
        }
    }
}

/// Placing an order of the ladder's scale keeps that scale.
proof fn lemma_place_keeps_scale(ladder: LadderView, order: OrderView)
    requires
        ladder.quantities_have_scale(order.quantity.scale),
    ensures
        ladder.rest(order).quantities_have_scale(order.quantity.scale),
{
    let k = ladder.rank(order.price) as int;
    let after = ladder.place(order);
    lemma_rank_bound(ladder, order.price, 0);
    assert forall|i: int, j: int|
        0 <= i < after.levels.len() && 0 <= j < after.levels[i].orders.len() implies (
    #[trigger] after.levels[i].orders[j]).quantity.scale == order.quantity.scale by {
        if after.levels.len() == ladder.levels.len() {
            if i == k && j == ladder.levels[k].orders.len() {
            } else {
                assert(after.levels[i].orders[j] == ladder.levels[i].orders[j]);
            }
        } else if i < k {
            assert(after.levels[i].orders[j] == ladder.levels[i].orders[j]);
        } else if i > k {
            assert(after.levels[i].orders[j] == ladder.levels[i - 1].orders[j]);
        }
    }
}

/// Every level ahead of the rank of `price` has a strictly better price, and
/// the level at the rank, if there is one, has not.
proof fn lemma_rank_splits(ladder: LadderView, price: DecimalView, i: nat)
    requires
        i <= ladder.levels.len(),
    ensures
        forall|j: int|
            i <= j < ladder.rank_from(price, i) ==> better(
                ladder.side,
                (#[trigger] ladder.levels[j]).price,
                price,
            ),
        ladder.rank_from(price, i) < ladder.levels.len() ==> !better(
            ladder.side,
            ladder.levels[ladder.rank_from(price, i) as int].price,
            price,
        ),
    decreases ladder.levels.len() - i,
{
    lemma_rank_bound(ladder, price, i);
    if i < ladder.levels.len() && better(ladder.side, ladder.levels[i as int].price, price) {
        lemma_rank_splits(ladder, price, i + 1);
    }
}

/// An order that is left to rest joins the back of the queue at its price:
/// the orders that were at that price stay ahead of it, in their order, and
/// no other level changes. Where no level had its price, it makes one of its
/// own.
pub proof fn lemma_rest_joins_back(ladder: LadderView, order: OrderView)
    requires
        ladder.wf(),
        order.quantity.units() > 0,
    ensures
        joined_at_back(ladder.rest(order), ladder, order, ladder.rank(order.price) as int),
{
    let k = ladder.rank(order.price) as int;
    let after = ladder.rest(order);
    lemma_rank_bound(ladder, order.price, 0);
    lemma_rank_splits(ladder, order.price, 0);
    if k < ladder.levels.len() && ladder.levels[k].price.units() == order.price.units() {
        assert(after.levels[k].orders.drop_last() =~= ladder.levels[k].orders);
    } else {
        assert forall|i: int| 0 <= i < ladder.levels.len() implies (
        #[trigger] ladder.levels[i]).price.units() != order.price.units() by {
            if i < k {
                assert(better(ladder.side, ladder.levels[i].price, order.price));
            } else if i > k {
                assert(better(ladder.side, ladder.levels[k].price, ladder.levels[i].price));
            }
        }
    }
}

/// After matching, no level of the ladder is without orders.
proof fn lemma_sweep_leaves_no_empty_level(ladder: LadderView, taker: OrderView)
    requires
        ladder.wf(),
    ensures
        forall|i: int|
            0 <= i < ladder.sweep(taker).ladder.levels.len() ==> (
            #[trigger] ladder.sweep(taker).ladder.levels[i]).orders.len() > 0,
    decreases ladder.levels.len(), ladder.levels[0].orders.len(),
{
    let after = ladder.sweep(taker).ladder;
    if ladder.fillable(taker) {
        let maker = ladder.front();
        lemma_without_front_wf(ladder);
        lemma_levels_hold_orders(ladder.without_front());
        if taker.quantity.units() > maker.quantity.units() {
            lemma_sweep_leaves_no_empty_level(
                ladder.without_front(),
                taker.with_quantity(taker.quantity.minus(maker.quantity)),
            );
        } else {
            assert forall|i: int| 0 <= i < after.levels.len() implies (
            #[trigger] after.levels[i]).orders.len() > 0 by {
                if maker.quantity.minus(taker.quantity).units() > 0 && i > 0 {
                    assert(ladder.levels[i].wf(ladder.side));
                }
            }
        }
    } else {
        lemma_levels_hold_orders(ladder);
    }
}

} // verus!
