//! Synthetic data and the benchmark suites.
pub mod args;
pub mod args_laws;
pub mod corpus;
pub mod laws;
pub mod rows;
pub mod suite;
pub mod workload;
