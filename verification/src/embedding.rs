//! Embedding models: what a model promises, how inputs are rendered for it, how
//! work is packed into batches, and how a model reference is resolved.
pub mod backend;
pub mod batches;
pub mod catalog;
pub mod config;
pub mod contract;
pub mod hash;
pub mod locked;
pub mod messages;
pub mod onnx;
pub mod parts;
pub mod render;
pub mod resolve;
pub mod tokenize;
pub mod tokens;
