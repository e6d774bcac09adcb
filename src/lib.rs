//! A library of named text snippets ("aliases"): an ordered alias store, a
//! fuzzy ranking of aliases against a query, and the decisions that keep a
//! single running instance.

pub mod order;
pub mod config;
pub mod ranking;
pub mod activation;
