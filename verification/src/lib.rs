//! A fixed-memory histogram of integer values over a wide range, with a
//! relative precision that is the same at every magnitude.

pub mod base;
pub mod bucket_strategies;
pub mod count;
pub mod error;
pub mod histogram;
pub mod index;
pub mod iterator;
pub mod laws;
pub mod layout;
pub mod percentile;
pub mod percentile_strategy;
pub mod serialization;
pub mod state;
pub mod strategies;
pub mod varint;
