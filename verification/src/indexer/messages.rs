//! What is said where an index or an embedding run is refused or fails.
use crate::indexer::builder::{ResumeRefusal, RunRefusal};
use crate::indexer::embed::SpaceMismatch;
use crate::indexer::embed_run::EmbedFault;
use crate::indexer::provider::DocumentFault;
use crate::indexer::recover::{RecoveryFault, RecoveryLocation};
use crate::indexer::run::RunFault;
use crate::model::EmbeddingSpaceIdentity;
use crate::text::{debug_literal, debug_quote, decimal, decimal_text, signed_decimal, signed_text};
use vstd::prelude::*;
use vstd::string::*;

verus! {

/// What is said of a run that cannot begin.
pub fn refusal_message(refusal: &RunRefusal) -> (r: String)
    ensures
        r@ == match refusal {
            RunRefusal::NoProjects => "no source projects were selected"@,
            RunRefusal::EmptyLabel => "project labels cannot be empty"@,
            RunRefusal::DuplicateLabel(label) => "duplicate source project label "@
                + debug_literal(label@),
            RunRefusal::NoAttempts => "document retry attempts must be positive"@,
        },
{
    match refusal {
        RunRefusal::NoProjects => "no source projects were selected".to_owned(),
        RunRefusal::EmptyLabel => "project labels cannot be empty".to_owned(),
        RunRefusal::DuplicateLabel(label) => {
            let mut text = "duplicate source project label ".to_owned();
            text.append(debug_quote(label.as_str()).as_str());
            text
        },
        RunRefusal::NoAttempts => "document retry attempts must be positive".to_owned(),
    }
}

/// What is said of a stored run that cannot be continued.
pub fn resume_message(refusal: ResumeRefusal, run_id: i64) -> (r: String)
    ensures
        r@ == match refusal {
            ResumeRefusal::DifferentScope => "run "@ + signed_decimal(run_id as int)
                + " has a different project scope"@,
            ResumeRefusal::IncompatibleConfiguration => "run "@ + signed_decimal(run_id as int)
                + " has incompatible indexing configuration"@,
        },
{
    match refusal {
        ResumeRefusal::DifferentScope => {
            let mut text = "run ".to_owned();
            text.append(signed_text(run_id).as_str());
            text.append(" has a different project scope");
            text
        },
        ResumeRefusal::IncompatibleConfiguration => {
            let mut text = "run ".to_owned();
            text.append(signed_text(run_id).as_str());
            text.append(" has incompatible indexing configuration");
            text
        },
    }
}

/// What is said of a setting that the database holds otherwise.
pub fn setting_message(key: &str, stored: &str, expected: &str) -> (r: String)
    ensures
        r@ == "setting `"@ + key@ + "` is fixed once the database is published: stored "@
            + debug_literal(stored@) + ", config now says "@ + debug_literal(expected@)
            + ". Delete the database file to reindex with new settings."@,
{
    let mut text = "setting `".to_owned();
    text.append(key);
    text.append("` is fixed once the database is published: stored ");
    text.append(debug_quote(stored).as_str());
    text.append(", config now says ");
    text.append(debug_quote(expected).as_str());
    text.append(". Delete the database file to reindex with new settings.");
    text
}

/// What is said of a project that is indexed from another place.
pub fn locator_message(label: &str, stored: &str, locator: &str) -> (r: String)
    ensures
        r@ == "project "@ + debug_literal(label@) + " is already indexed from "@
            + debug_literal(stored@) + "; its source locator cannot change to "@
            + debug_literal(locator@),
{
    let mut text = "project ".to_owned();
    text.append(debug_quote(label).as_str());
    text.append(" is already indexed from ");
    text.append(debug_quote(stored).as_str());
    text.append("; its source locator cannot change to ");
    text.append(debug_quote(locator).as_str());
    text
}

/// What is said of a list of documents that cannot be indexed.
pub open spec fn document_fault_text(fault: DocumentFault) -> Seq<char> {
    match fault {
        DocumentFault::EmptyId => "source provider returned an empty document id"@,
        DocumentFault::EmptyPath => "source provider returned an empty relative path"@,
        DocumentFault::DuplicateId(id) => "source provider returned duplicate document id "@
            + debug_literal(id@),
        DocumentFault::DuplicatePath(path) => "source provider returned duplicate relative path "@
            + debug_literal(path@),
    }
}

/// The words for a list of documents that cannot be indexed.
pub fn document_message(fault: &DocumentFault) -> (r: String)
    ensures
        r@ == document_fault_text(*fault),
{
    match fault {
        DocumentFault::EmptyId => "source provider returned an empty document id".to_owned(),
        DocumentFault::EmptyPath => "source provider returned an empty relative path".to_owned(),
        DocumentFault::DuplicateId(id) => {
            let mut text = "source provider returned duplicate document id ".to_owned();
            text.append(debug_quote(id.as_str()).as_str());
            text
        },
        DocumentFault::DuplicatePath(path) => {
            let mut text = "source provider returned duplicate relative path ".to_owned();
            text.append(debug_quote(path.as_str()).as_str());
            text
        },
    }
}

/// What is said of a run that has to stop.
pub fn run_message(fault: &RunFault) -> (r: String)
    ensures
        r@ == match fault {
            RunFault::Documents(fault) => document_fault_text(*fault),
            RunFault::UnconfiguredProject(label) => "run refers to unconfigured project "@
                + debug_literal(label@),
            RunFault::NoInputFingerprint => "pending document has no input fingerprint"@,
        },
{
    match fault {
        RunFault::Documents(fault) => document_message(fault),
        RunFault::UnconfiguredProject(label) => {
            let mut text = "run refers to unconfigured project ".to_owned();
            text.append(debug_quote(label.as_str()).as_str());
            text
        },
        RunFault::NoInputFingerprint => "pending document has no input fingerprint".to_owned(),
    }
}

/// What is said of a space that an embedder cannot fill.
pub fn space_message(mismatch: SpaceMismatch, space: &EmbeddingSpaceIdentity) -> (r: String)
    ensures
        r@ == match mismatch {
            SpaceMismatch::Model => "embedder identity does not match embedding space "@
                + space.id@,
            SpaceMismatch::InputTransform => "embedding space "@ + space.id@
                + " requests unsupported input transform "@
                + debug_literal(space.input_transform@),
        },
{
    match mismatch {
        SpaceMismatch::Model => {
            let mut text = "embedder identity does not match embedding space ".to_owned();
            text.append(space.id.as_str());
            text
        },
        SpaceMismatch::InputTransform => {
            let mut text = "embedding space ".to_owned();
            text.append(space.id.as_str());
            text.append(" requests unsupported input transform ");
            text.append(debug_quote(space.input_transform.as_str()).as_str());
            text
        },
    }
}

/// What is said of a source that texts cannot be recovered from.
pub fn recovery_message(fault: &RecoveryFault, location: &RecoveryLocation) -> (r: String)
    ensures
        r@ == match *fault {
            RecoveryFault::NotUtf8 => "cached source "@ + location.source_hash@
                + " is not UTF-8"@,
            RecoveryFault::Source(message) => message@,
            RecoveryFault::HashMismatch => "source cache hash mismatch for "@
                + location.source_document_id@,
        },
{
    match fault {
        RecoveryFault::NotUtf8 => {
            let mut text = "cached source ".to_owned();
            text.append(location.source_hash.as_str());
            text.append(" is not UTF-8");
            text
        },
        RecoveryFault::Source(message) => message.clone(),
        RecoveryFault::HashMismatch => {
            let mut text = "source cache hash mismatch for ".to_owned();
            text.append(location.source_document_id.as_str());
            text
        },
    }
}

/// What is said of an embedding run that has to stop.
pub fn embed_message(fault: EmbedFault, model: &str) -> (r: String)
    ensures
        r@ == match fault {
            EmbedFault::VectorCount { returned, inputs } => "embedder returned "@
                + decimal(returned as nat) + " vectors for "@ + decimal(inputs as nat)
                + " inputs"@,
            EmbedFault::Dimensions { returned, expected } => "model "@ + model@ + " returned "@
                + decimal(returned as nat) + " dimensions, expected "@ + decimal(expected as nat),
            EmbedFault::Overflow => "the counts of the embedding run no longer fit"@,
        },
{
    match fault {
        EmbedFault::VectorCount { returned, inputs } => {
            let mut text = "embedder returned ".to_owned();
            text.append(decimal_text(returned as u64).as_str());
            text.append(" vectors for ");
            text.append(decimal_text(inputs as u64).as_str());
            text.append(" inputs");
            text
        },
        EmbedFault::Dimensions { returned, expected } => {
            let mut text = "model ".to_owned();
            text.append(model);
            text.append(" returned ");
            text.append(decimal_text(returned as u64).as_str());
            text.append(" dimensions, expected ");
            text.append(decimal_text(expected as u64).as_str());
            text
        },
        EmbedFault::Overflow => "the counts of the embedding run no longer fit".to_owned(),
    }
}

} // verus!
