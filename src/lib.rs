//! A single-market limit order matching engine over fixed-capacity storage.
//!
//! The book keeps resting orders of each side in price-time priority, the event
//! queue is a bounded ring of fill and out events, and every call either applies
//! in full or leaves the market untouched.

pub mod types;
pub mod event_queue;
pub mod book;
pub mod market;
pub mod laws;
