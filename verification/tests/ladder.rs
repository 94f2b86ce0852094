use order_book::{Decimal, Ladder, Order, Side};

fn dec(mantissa: i128, scale: u32) -> Decimal {
    Decimal::new(mantissa, scale).unwrap()
}

fn order(id: &str, side: Side, price: i128, quantity: i128) -> Order {
    Order::new(id.to_string(), dec(price, 0), dec(quantity, 0), side, 0)
}

fn asks(orders: &[(&str, i128, i128)]) -> Ladder {
    let mut ladder = Ladder::new(Side::Ask);
    for (id, price, quantity) in orders {
        ladder.rest(order(id, Side::Ask, *price, *quantity));
    }
    ladder
}

fn shape(ladder: &Ladder) -> Vec<(i128, Vec<(String, i128)>)> {
    (0..ladder.len())
        .map(|i| {
            let level = ladder.level(i);
            let queue: Vec<(String, i128)> = (0..level.len())
                .map(|k| (level.order(k).id().clone(), level.order(k).quantity().mantissa()))
                .collect();
            (level.price().mantissa(), queue)
        })
        .collect()
}

fn entry(price: i128, queue: &[(&str, i128)]) -> (i128, Vec<(String, i128)>) {
    (price, queue.iter().map(|(id, quantity)| (id.to_string(), *quantity)).collect())
}

#[test]
fn new_ladder_is_empty() {
    let ladder = Ladder::new(Side::Bid);
    assert_eq!(ladder.side(), Side::Bid);
    assert_eq!(ladder.len(), 0);
    assert!(ladder.is_empty());
    assert!(ladder.best_price().is_none());
    assert!(!ladder.can_fill(&order("t", Side::Ask, 1, 1)));
}

#[test]
fn rest_keeps_asks_ascending() {
    let ladder = asks(&[("a", 11, 1), ("b", 10, 2), ("c", 12, 3), ("d", 11, 4), ("e", 10, 5)]);
    assert_eq!(
        shape(&ladder),
        vec![
            entry(10, &[("b", 2), ("e", 5)]),
            entry(11, &[("a", 1), ("d", 4)]),
            entry(12, &[("c", 3)]),
        ]
    );
    assert_eq!(ladder.best_price().unwrap().mantissa(), 10);
    assert_eq!(ladder.price_at(0).mantissa(), 10);
    assert_eq!(ladder.price_at(1).mantissa(), 11);
    assert_eq!(ladder.price_at(2).mantissa(), 12);
    assert!(!ladder.is_empty());
}

#[test]
fn rest_keeps_bids_descending() {
    let mut ladder = Ladder::new(Side::Bid);
    for (id, price) in [("a", 11i128), ("b", 10), ("c", 12), ("d", 11)] {
        ladder.rest(order(id, Side::Bid, price, 1));
    }
    assert_eq!(
        shape(&ladder),
        vec![entry(12, &[("c", 1)]), entry(11, &[("a", 1), ("d", 1)]), entry(10, &[("b", 1)])]
    );
    assert_eq!(ladder.best_price().unwrap().mantissa(), 12);
}

#[test]
fn rest_drops_an_order_without_quantity() {
    let mut ladder = asks(&[("a", 10, 1)]);
    ladder.rest(order("zero", Side::Ask, 9, 0));
    ladder.rest(order("minus", Side::Ask, 9, -1));
    assert_eq!(shape(&ladder), vec![entry(10, &[("a", 1)])]);
}

#[test]
fn can_fill_needs_quantity_and_a_price_within_the_limit() {
    let ladder = asks(&[("a", 10, 1)]);
    assert!(ladder.can_fill(&order("t", Side::Bid, 10, 1)));
    assert!(ladder.can_fill(&order("t", Side::Bid, 11, 1)));
    assert!(!ladder.can_fill(&order("t", Side::Bid, 9, 1)));
    assert!(!ladder.can_fill(&order("t", Side::Bid, 11, 0)));
    assert!(!ladder.can_fill(&order("t", Side::Bid, 11, -2)));
    let mut bids = Ladder::new(Side::Bid);
    bids.rest(order("b", Side::Bid, 10, 1));
    assert!(bids.can_fill(&order("t", Side::Ask, 10, 1)));
    assert!(bids.can_fill(&order("t", Side::Ask, 9, 1)));
    assert!(!bids.can_fill(&order("t", Side::Ask, 11, 1)));
}

#[test]
fn front_quantity_is_that_of_the_oldest_at_the_best_price() {
    let ladder = asks(&[("a", 11, 1), ("b", 10, 2), ("c", 10, 3)]);
    assert_eq!(ladder.front_quantity().mantissa(), 2);
}

#[test]
fn fill_front_keeps_an_order_that_has_quantity_left() {
    let mut ladder = asks(&[("a", 10, 5), ("b", 10, 2), ("c", 11, 1)]);
    let taker = order("t", Side::Bid, 12, 3);
    let trade = ladder.fill_front(&taker, dec(3, 0), dec(2, 0));
    assert_eq!(trade.maker_order_id(), "a");
    assert_eq!(trade.taker_order_id(), "t");
    assert_eq!(trade.price().mantissa(), 10);
    assert_eq!(trade.quantity().mantissa(), 3);
    assert_eq!(
        shape(&ladder),
        vec![entry(10, &[("a", 2), ("b", 2)]), entry(11, &[("c", 1)])]
    );
}

#[test]
fn fill_front_removes_an_order_that_has_nothing_left() {
    let mut ladder = asks(&[("a", 10, 5), ("b", 10, 2), ("c", 11, 1)]);
    let taker = order("t", Side::Bid, 12, 9);
    let trade = ladder.fill_front(&taker, dec(5, 0), dec(0, 0));
    assert_eq!(trade.maker_order_id(), "a");
    assert_eq!(trade.quantity().mantissa(), 5);
    assert_eq!(shape(&ladder), vec![entry(10, &[("b", 2)]), entry(11, &[("c", 1)])]);
    let trade = ladder.fill_front(&taker, dec(2, 0), dec(0, 3));
    assert_eq!(trade.maker_order_id(), "b");
    assert_eq!(shape(&ladder), vec![entry(11, &[("c", 1)])]);
    let trade = ladder.fill_front(&taker, dec(1, 0), dec(-1, 0));
    assert_eq!(trade.maker_order_id(), "c");
    assert_eq!(trade.price().mantissa(), 11);
    assert!(ladder.is_empty());
}

#[test]
fn sweep_writes_back_what_the_taker_has_left() {
    let mut ladder = asks(&[("a", 10, 5), ("b", 10, 2), ("c", 11, 1), ("d", 13, 1)]);
    let mut taker = order("t", Side::Bid, 12, 10);
    let trades = ladder.sweep(&mut taker);
    assert_eq!(trades.len(), 3);
    assert_eq!(trades[0].maker_order_id(), "a");
    assert_eq!(trades[1].maker_order_id(), "b");
    assert_eq!(trades[2].maker_order_id(), "c");
    assert_eq!(trades[2].price().mantissa(), 11);
    assert_eq!(taker.quantity().mantissa(), 2);
    assert_eq!(taker.price().mantissa(), 12);
    assert_eq!(taker.id(), "t");
    assert_eq!(shape(&ladder), vec![entry(13, &[("d", 1)])]);
}

#[test]
fn sweep_leaves_the_taker_at_zero_when_it_is_filled() {
    let mut ladder = asks(&[("a", 10, 5)]);
    let mut taker = order("t", Side::Bid, 12, 4);
    let trades = ladder.sweep(&mut taker);
    assert_eq!(trades.len(), 1);
    assert_eq!(trades[0].quantity().mantissa(), 4);
    assert_eq!(taker.quantity().mantissa(), 0);
    assert_eq!(shape(&ladder), vec![entry(10, &[("a", 1)])]);
}

#[test]
fn sweep_without_a_match_changes_nothing() {
    let mut ladder = asks(&[("a", 10, 5)]);
    let mut taker = order("t", Side::Bid, 9, 4);
    let trades = ladder.sweep(&mut taker);
    assert!(trades.is_empty());
    assert_eq!(taker.quantity().mantissa(), 4);
    assert_eq!(shape(&ladder), vec![entry(10, &[("a", 5)])]);
}
