//! Phenotype similarity scoring of genes, calibrated against simulated null
//! distributions.
pub mod common;
pub mod error;
pub mod phenomizer;
pub mod query;
pub mod query_result;
pub mod ranking;
pub mod server;
pub mod simulate;
pub mod store;

pub use crate::error::Error;
