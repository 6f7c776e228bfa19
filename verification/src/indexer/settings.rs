//! What an indexing run is configured with.
use crate::text::clone_texts;
use vstd::prelude::*;

verus! {

/// How much representation text a published unit keeps.
#[derive(Debug, Clone, Copy, PartialEq, Eq, Structural)]
pub enum RetentionMode {
    Full,
    Report,
    Minimal,
}

impl RetentionMode {
    /// The text that stands for the mode in the database.
    pub open spec fn token(self) -> Seq<char> {
        match self {
            RetentionMode::Full => "full"@,
            RetentionMode::Report => "report"@,
            RetentionMode::Minimal => "minimal"@,
        }
    }

    pub fn as_str(self) -> (r: &'static str)
        ensures
            r@ == self.token(),
    {
        match self {
            RetentionMode::Full => "full",
            RetentionMode::Report => "report",
            RetentionMode::Minimal => "minimal",
        }
    }
}

/// Filesystem convenience configuration retained for the common case.
#[derive(Debug)]
pub struct ProjectSpec {
    pub label: String,
    pub source_dir: String,
    pub exclude: Vec<String>,
}

/// Provider-independent indexing settings.
#[derive(Debug)]
pub struct IndexSettings {
    pub enabled_languages: Vec<String>,
    pub body_node_count_threshold: usize,
    pub max_body_chars: usize,
    pub retention: RetentionMode,
}

impl Clone for IndexSettings {
    fn clone(&self) -> (r: Self)
        ensures
            r.enabled_languages@ == self.enabled_languages@,
            r.body_node_count_threshold == self.body_node_count_threshold,
            r.max_body_chars == self.max_body_chars,
            r.retention == self.retention,
    {
        Self {
            enabled_languages: clone_texts(&self.enabled_languages),
            body_node_count_threshold: self.body_node_count_threshold,
            max_body_chars: self.max_body_chars,
            retention: self.retention,
        }
    }
}

/// Settings together with the filesystem projects that they apply to.
#[derive(Debug)]
pub struct IndexOptions {
    pub projects: Vec<ProjectSpec>,
    pub enabled_languages: Vec<String>,
    pub body_node_count_threshold: usize,
    pub max_body_chars: usize,
    pub retention: RetentionMode,
}

impl IndexOptions {
    pub fn settings(&self) -> (r: IndexSettings)
        ensures
            r.enabled_languages@ == self.enabled_languages@,
            r.body_node_count_threshold == self.body_node_count_threshold,
            r.max_body_chars == self.max_body_chars,
            r.retention == self.retention,
    {
        IndexSettings {
            enabled_languages: clone_texts(&self.enabled_languages),
            body_node_count_threshold: self.body_node_count_threshold,
            max_body_chars: self.max_body_chars,
            retention: self.retention,
        }
    }
}

/// Identity of a representation producer and its configuration.
#[derive(Debug)]
pub struct EnricherIdentity {
    pub producer: String,
    pub version: String,
    pub config_fingerprint: String,
}

} // verus!
