pub mod text;
pub mod model;
pub mod hashing;
pub mod json;
pub mod indexer;
pub mod order;
pub mod text_map;
pub mod utf8;
pub mod names;
pub mod embedding;
pub mod query;
pub mod search;
pub mod path;
pub mod config;
pub mod source;
pub mod source_fs;
pub mod replace;
pub mod lsp;
pub mod lines;
pub mod daemon;
pub mod cli;
