//! Queries over code units: selectors, filters, query compression, and the ranking
//! and fusion of what retrieval finds.
pub mod compress;
pub mod contracts;
pub mod filter;
pub mod fusion;
pub mod rank;
pub mod tasks;
pub mod unit;
