use order_book::{Decimal, Ladder, Order, OrderBook, Side, Trade};

fn dec(mantissa: i128, scale: u32) -> Decimal {
    Decimal::new(mantissa, scale).unwrap()
}

fn value(d: Decimal) -> rust_decimal::Decimal {
    rust_decimal::Decimal::from_i128_with_scale(d.mantissa(), d.scale())
}

fn next(state: &mut u64) -> u64 {
    *state = state.wrapping_mul(6364136223846793005).wrapping_add(1442695040888963407);
    *state >> 33
}

fn assert_ladder_is_sound(ladder: &Ladder, side: Side) {
    assert_eq!(ladder.side(), side);
    for i in 0..ladder.len() {
        let level = ladder.level(i);
        assert!(level.len() > 0);
        for k in 0..level.len() {
            let order = level.order(k);
            assert_eq!(order.side(), side);
            assert_eq!(value(order.price()), value(level.price()));
            assert!(value(order.quantity()) > rust_decimal::Decimal::ZERO);
        }
        if i + 1 < ladder.len() {
            let here = value(level.price());
            let there = value(ladder.level(i + 1).price());
            match side {
                Side::Ask => assert!(here < there),
                Side::Bid => assert!(here > there),
            }
        }
    }
}

fn assert_book_is_sound(book: &OrderBook) {
    assert_ladder_is_sound(book.asks(), Side::Ask);
    assert_ladder_is_sound(book.bids(), Side::Bid);
    if let (Some(bid), Some(ask)) = (book.best_bid(), book.best_ask()) {
        assert!(value(bid) < value(ask));
    }
}

fn resting_quantity(ladder: &Ladder, id: &str) -> rust_decimal::Decimal {
    let mut total = rust_decimal::Decimal::ZERO;
    for i in 0..ladder.len() {
        let level = ladder.level(i);
        for k in 0..level.len() {
            if level.order(k).id() == id {
                total += value(level.order(k).quantity());
            }
        }
    }
    total
}

fn traded(trades: &[Trade]) -> rust_decimal::Decimal {
    let mut total = rust_decimal::Decimal::ZERO;
    for trade in trades {
        total += value(trade.quantity());
    }
    total
}

// A plain model of the book: each side a list of (price, quantity, id) in
// the order in which the orders are matched.
struct Model {
    asks: Vec<(i128, i128, String)>,
    bids: Vec<(i128, i128, String)>,
}

impl Model {
    fn add(&mut self, id: &str, side: Side, price: i128, quantity: i128) -> Vec<(String, i128, i128)> {
        let mut left = quantity;
        let mut trades = Vec::new();
        let (facing, own) = match side {
            Side::Bid => (&mut self.asks, &mut self.bids),
            Side::Ask => (&mut self.bids, &mut self.asks),
        };
        while left > 0 && !facing.is_empty() {
            let within = match side {
                Side::Bid => facing[0].0 <= price,
                Side::Ask => facing[0].0 >= price,
            };
            if !within {
                break;
            }
            let take = left.min(facing[0].1);
            trades.push((facing[0].2.clone(), facing[0].0, take));
            left -= take;
            facing[0].1 -= take;
            if facing[0].1 == 0 {
                facing.remove(0);
            }
        }
        if left > 0 {
            let at = own
                .iter()
                .position(|resting| match side {
                    Side::Bid => resting.0 < price,
                    Side::Ask => resting.0 > price,
                })
                .unwrap_or(own.len());
            own.insert(at, (price, left, id.to_string()));
        }
        trades
    }
}

fn flat(ladder: &Ladder) -> Vec<(i128, i128, String)> {
    let mut out = Vec::new();
    for i in 0..ladder.len() {
        let level = ladder.level(i);
        for k in 0..level.len() {
            let order = level.order(k);
            out.push((order.price().mantissa(), order.quantity().mantissa(), order.id().clone()));
        }
    }
    out
}

#[test]
fn book_follows_a_plain_model() {
    let mut state: u64 = 7;
    let mut book = OrderBook::new();
    let mut model = Model { asks: Vec::new(), bids: Vec::new() };
    for n in 0..3000u32 {
        let side = if next(&mut state) % 2 == 0 { Side::Bid } else { Side::Ask };
        let price = 90 + (next(&mut state) % 21) as i128;
        let quantity = (next(&mut state) % 25) as i128 - 2;
        let id = format!("o{}", n);
        let order = Order::new(id.clone(), dec(price, 0), dec(quantity, 0), side, n as u64);
        let trades = book.add_order(order);
        let expected = model.add(&id, side, price, quantity);
        let got: Vec<(String, i128, i128)> = trades
            .iter()
            .map(|t| (t.maker_order_id().clone(), t.price().mantissa(), t.quantity().mantissa()))
            .collect();
        assert_eq!(got, expected);
        for trade in &trades {
            assert_eq!(trade.taker_order_id(), &id);
            assert_eq!(trade.price().scale(), 0);
            assert_eq!(trade.quantity().scale(), 0);
        }
        assert_eq!(flat(book.asks()), model.asks);
        assert_eq!(flat(book.bids()), model.bids);
        assert_book_is_sound(&book);
    }
}

#[test]
fn quantity_is_conserved_with_mixed_scales() {
    let mut state: u64 = 11;
    let mut book = OrderBook::new();
    for n in 0..2000u32 {
        let side = if next(&mut state) % 2 == 0 { Side::Bid } else { Side::Ask };
        let price_scale = (next(&mut state) % 3) as u32;
        let price = (950 + (next(&mut state) % 100) as i128) * 10i128.pow(price_scale) / 10;
        let quantity_scale = (next(&mut state) % 5) as u32;
        let quantity = 1 + (next(&mut state) % 100_000) as i128;
        let id = format!("o{}", n);
        let original = dec(quantity, quantity_scale);
        let order = Order::new(id.clone(), dec(price, price_scale), original, side, 0);
        let trades = book.add_order(order);
        let own = match side {
            Side::Bid => book.bids(),
            Side::Ask => book.asks(),
        };
        let rested = resting_quantity(own, &id);
        assert!(traded(&trades) <= value(original));
        assert_eq!(traded(&trades) + rested, value(original));
        for pair in trades.windows(2) {
            match side {
                Side::Bid => assert!(value(pair[0].price()) <= value(pair[1].price())),
                Side::Ask => assert!(value(pair[0].price()) >= value(pair[1].price())),
            }
        }
        for trade in &trades {
            match side {
                Side::Bid => assert!(value(trade.price()) <= value(dec(price, price_scale))),
                Side::Ask => assert!(value(trade.price()) >= value(dec(price, price_scale))),
            }
            assert!(value(trade.quantity()) > rust_decimal::Decimal::ZERO);
        }
        assert_book_is_sound(&book);
    }
    assert!(!book.asks().is_empty() || !book.bids().is_empty());
}

#[test]
fn conservation_can_fail_where_a_subtraction_rounds() {
    let huge = dec(79_228_162_514_264_337_593_543_950_335, 0);
    let half = dec(5, 1);
    let mut book = OrderBook::new();
    book.add_order(Order::new("m".to_string(), dec(1, 0), half, Side::Ask, 0));
    let trades = book.add_order(Order::new("t".to_string(), dec(1, 0), huge, Side::Bid, 0));
    assert_eq!(trades.len(), 1);
    let rested = resting_quantity(book.bids(), "t");
    let expected = value(huge) - value(half);
    assert_eq!(rested, expected);
    assert_eq!(expected.scale(), 0);
    assert_eq!(rested.mantissa() * 10 + 5 != huge.mantissa() * 10, true);
    assert_book_is_sound(&book);
}
