//! Verified core of a trading-portfolio backend.
//!
//! The library models the service's ledger as plain data: accounts,
//! sessions, a registry of currencies and trading pairs, and the
//! `portfolio -> position -> quotation -> balance` hierarchy together with
//! the orders placed against it.  Every operation carries a contract and
//! is verified; the HTTP surface and the durable storage engine live
//! outside the library and hand it plain values.
//!
//! - [`accounts`]: the identity store and the login decision.
//! - [`session`]: session tokens, their cookie and storage encodings, and
//!   the store that validates them.
//! - [`pairs`]: the trading-pair resolver.
//! - [`ledger`]: the portfolio hierarchy -- atomic creation and removal.
//! - [`orders`]: order placement against owned positions, and listing.
//! - [`views`]: the portfolio read-back view.
//! - [`errors`]: the error taxonomy; [`types`]: the response envelope.
//! - [`numstr`], [`strutil`], [`find`]: decimal codecs, string helpers,
//!   and the first-match machinery the table scans are proved with.

pub mod accounts;
pub mod errors;
pub mod find;
pub mod ledger;
pub mod numstr;
pub mod orders;
pub mod pairs;
pub mod session;
pub mod strutil;
pub mod types;
pub mod views;
