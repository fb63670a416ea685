//! Aggregation of fallible outcomes that keeps every failure.
//!
//! A sequence of results is reduced to one [`Validation`]: the success
//! values of all of them, or the failure values of all that failed.

pub mod aggregate;
pub mod collector;
pub mod laws;
pub mod model;
pub mod outcome;
mod phases;

pub use crate::collector::Collector;
pub use crate::outcome::Validation;
