//! The matching core of a continuous double-auction order book.
//!
//! Incoming limit orders are matched against the resting orders of the
//! opposite side by price, then by arrival; what is left of an order rests in
//! the book. Prices and quantities are exact decimals, whose arithmetic is
//! done by the `rust_decimal` crate.

pub mod book;
pub mod decimal;
pub mod guarantees;
pub mod ladder;
pub mod order;

pub use book::OrderBook;
pub use decimal::Decimal;
pub use ladder::{Ladder, Level};
pub use order::{Order, Side, Trade};
