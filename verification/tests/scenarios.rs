use order_book::{Decimal, Order, OrderBook, Side};

fn dec(mantissa: i128, scale: u32) -> Decimal {
    Decimal::new(mantissa, scale).unwrap()
}

fn order(id: &str, side: Side, price: i128, quantity: i128) -> Order {
    Order::new(id.to_string(), dec(price, 0), dec(quantity, 0), side, 0)
}

fn book_after_a() -> OrderBook {
    let mut book = OrderBook::new();
    let trades = book.add_order(order("B1", Side::Bid, 10, 5));
    assert!(trades.is_empty());
    book
}

fn book_after_b() -> OrderBook {
    let mut book = book_after_a();
    let trades = book.add_order(order("A1", Side::Ask, 9, 3));
    assert_eq!(trades.len(), 1);
    book
}

#[test]
fn new_book_is_empty() {
    let book = OrderBook::new();
    assert!(book.asks().is_empty());
    assert!(book.bids().is_empty());
    assert_eq!(book.asks().len(), 0);
    assert_eq!(book.bids().len(), 0);
    assert!(book.best_ask().is_none());
    assert!(book.best_bid().is_none());
    assert_eq!(book.asks().side(), Side::Ask);
    assert_eq!(book.bids().side(), Side::Bid);
}

#[test]
fn bid_on_empty_book_rests() {
    let mut book = OrderBook::new();
    let trades = book.add_order(order("B1", Side::Bid, 10, 5));
    assert!(trades.is_empty());
    assert!(book.asks().is_empty());
    assert_eq!(book.bids().len(), 1);
    let level = book.bids().level(0);
    assert_eq!(level.price().mantissa(), 10);
    assert_eq!(level.price().scale(), 0);
    assert_eq!(level.len(), 1);
    assert_eq!(level.order(0).id(), "B1");
    assert_eq!(level.order(0).quantity().mantissa(), 5);
    assert_eq!(level.order(0).quantity().scale(), 0);
    assert_eq!(level.order(0).side(), Side::Bid);
}

#[test]
fn ask_below_bid_trades_at_bid_price() {
    let mut book = book_after_a();
    let trades = book.add_order(order("A1", Side::Ask, 9, 3));
    assert_eq!(trades.len(), 1);
    assert_eq!(trades[0].maker_order_id(), "B1");
    assert_eq!(trades[0].taker_order_id(), "A1");
    assert_eq!(trades[0].price().mantissa(), 10);
    assert_eq!(trades[0].price().scale(), 0);
    assert_eq!(trades[0].quantity().mantissa(), 3);
    assert_eq!(trades[0].quantity().scale(), 0);
    assert_eq!(book.bids().len(), 1);
    assert_eq!(book.bids().level(0).price().mantissa(), 10);
    assert_eq!(book.bids().level(0).len(), 1);
    assert_eq!(book.bids().level(0).order(0).id(), "B1");
    assert_eq!(book.bids().level(0).order(0).quantity().mantissa(), 2);
    assert!(book.asks().is_empty());
}

#[test]
fn ask_at_bid_price_empties_the_level() {
    let mut book = book_after_b();
    let trades = book.add_order(order("A2", Side::Ask, 10, 2));
    assert_eq!(trades.len(), 1);
    assert_eq!(trades[0].maker_order_id(), "B1");
    assert_eq!(trades[0].taker_order_id(), "A2");
    assert_eq!(trades[0].price().mantissa(), 10);
    assert_eq!(trades[0].quantity().mantissa(), 2);
    assert!(book.bids().is_empty());
    assert!(book.asks().is_empty());
    assert!(book.best_bid().is_none());
    assert!(book.best_ask().is_none());
}

#[test]
fn bid_below_ask_does_not_trade() {
    let mut book = OrderBook::new();
    let first = book.add_order(order("B", Side::Bid, 9, 1));
    let second = book.add_order(order("A", Side::Ask, 10, 1));
    assert!(first.is_empty());
    assert!(second.is_empty());
    assert_eq!(book.bids().len(), 1);
    assert_eq!(book.asks().len(), 1);
    assert_eq!(book.best_bid().unwrap().mantissa(), 9);
    assert_eq!(book.best_ask().unwrap().mantissa(), 10);
    assert_eq!(book.bids().level(0).order(0).id(), "B");
    assert_eq!(book.asks().level(0).order(0).id(), "A");
}

#[test]
fn zero_quantity_is_discarded() {
    let mut book = OrderBook::new();
    let trades = book.add_order(order("B2", Side::Bid, 10, 0));
    assert!(trades.is_empty());
    assert!(book.bids().is_empty());
    assert!(book.asks().is_empty());
}
