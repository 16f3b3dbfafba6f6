//! A declarative query engine over time-stamped sensor readings.
//!
//! A caller composes an [`expression::Expression`] tree out of constants,
//! single-point lookups anchored in time, range lookups and n-ary
//! arithmetic/boolean nodes, and the engine turns it into a single answer in
//! three stages: planning (the minimal distinct set of store requests),
//! resolution (answering each request from the measurement store) and
//! reduction (the typed fold over the tree). Every stage is specified and
//! verified against a mathematical model of the store.

pub mod clock;
pub mod engine;
pub mod expression;
pub mod laws;
pub mod plan;
pub mod records;
pub mod reduce;
pub mod resolve;
pub mod store;
