//! An event-sourced personal investment ledger.
//!
//! Domain events (stock purchases, price observations, dividend payments) are
//! appended to an event store and replayed through pure projections to build
//! a portfolio dashboard and a chronological journal.  Money values use an
//! exact fixed-point decimal so that repeated additions never drift.

pub mod aggregate;
pub mod cqrs;
pub mod codec;
pub mod event_store;
pub mod date_utils;
pub mod portfolio;
pub mod decimal;
pub mod events;
pub mod journal;
pub mod dashboard;
pub mod value_objects;
