//! Indexing: source providers, document staging, entity identity, the run
//! machine and the embedding of pending texts.
pub mod builder;
pub mod embed;
pub mod embed_run;
pub mod entities;
pub mod fingerprint;
pub mod identity;
pub mod provider;
pub mod settings;
pub mod stage;
pub mod manifest;
pub mod messages;
pub mod owner;
pub mod policy;
pub mod recover;
pub mod run;
