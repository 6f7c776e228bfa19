//! The daemon: its protocol, the retrieval pipeline it shares with direct searches,
//! and the rules by which it answers.
pub mod frame;
pub mod jobs;
pub mod options;
pub mod pipeline;
pub mod protocol;
pub mod rules;
