//! A read-only store of quotations and the calls that serve it.
//!
//! [`database`] holds the data model and the store: loading a dataset,
//! drawing a bounded sample with an optional exact-match filter on one
//! attribute, and listing the distinct values of an attribute.
//! [`handlers`] adapts those calls to the service's entry points and decides
//! the status of each answer.
pub mod database;
pub mod distinct;
pub mod foreign;
pub mod handlers;
pub mod sampling;
