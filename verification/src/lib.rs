//! Reconstruction of a two-sided order book from a market-data stream.
//!
//! A stream opens with one snapshot of the resting orders and one of the
//! completed executions, and goes on with incremental updates. This crate
//! holds the rules of that reconstruction: how a raw message is classified
//! and framed, how its records become typed values, how the book and the
//! execution count change, and what the session expects next.

pub mod book;
pub mod decimal;
pub mod decode;
pub mod envelope;
pub mod error;
pub mod executions;
pub mod models;
pub mod pipeline;
pub mod render;
pub mod session;
