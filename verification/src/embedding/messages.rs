//! What is said where a model cannot be found, read or used.
use crate::embedding::backend::DeviceError;
use crate::embedding::catalog::{CatalogRefusal, ProviderResolution};
use crate::embedding::config::EmbeddingConfig;
use crate::embedding::contract::{ModelContract, PairedPrompts, PromptContract};
use crate::embedding::render::RenderError;
use crate::embedding::resolve::{
    HashMismatch, PreflightError, RefError, ResolveError, ResolvedModel,
};
use crate::text::{debug_literal, debug_quote, decimal, decimal_text, join, joined, views};
use crate::text_map::TextMap;
use vstd::prelude::*;
use vstd::string::*;

verus! {

/// What is said of a reference that cannot be read.
pub fn reference_message(error: RefError, value: &str) -> (r: String)
    ensures
        r@ == match error {
            RefError::Empty => "no model configured; pass a model reference such as `hf:Qwen/Qwen3-Embedding-0.6B`, `dir:/path/to/model`, or `fastembed:BGESmallENV15`"@,
            RefError::Malformed => "malformed HuggingFace reference "@ + debug_literal(value@)
                + ": expected hf:owner/name[@revision]"@,
        },
{
    match error {
        RefError::Empty => "no model configured; pass a model reference such as `hf:Qwen/Qwen3-Embedding-0.6B`, `dir:/path/to/model`, or `fastembed:BGESmallENV15`".to_owned(),
        RefError::Malformed => {
            let mut text = "malformed HuggingFace reference ".to_owned();
            text.append(debug_quote(value).as_str());
            text.append(": expected hf:owner/name[@revision]");
            text
        },
    }
}

/// What is said of a model whose own configuration does not say enough. An unknown
/// pooling is the one that the override names.
pub fn resolve_message(error: ResolveError, origin: &str, pooling: &str) -> (r: String)
    ensures
        r@ == match error {
            ResolveError::UnknownPooling => "unknown pooling override "@ + debug_literal(pooling@),
            ResolveError::NoPooling => origin@
                + " does not declare a pooling strategy (no 1_Pooling/config.json); add a codeindex.toml with `pooling = \"mean\"|\"cls\"|\"last_token\"`"@,
            ResolveError::NoDimensions => origin@
                + " does not declare output dimensions; add `native_dimensions` to codeindex.toml"@,
            ResolveError::NoSequenceLength => origin@
                + " does not declare a maximum sequence length; add `max_sequence_length` to codeindex.toml"@,
            ResolveError::NoArchitecture => origin@ + " config.json declares no architecture"@,
        },
{
    match error {
        ResolveError::UnknownPooling => {
            let mut text = "unknown pooling override ".to_owned();
            text.append(debug_quote(pooling).as_str());
            text
        },
        ResolveError::NoPooling => {
            let mut text = origin.to_owned();
            text.append(" does not declare a pooling strategy (no 1_Pooling/config.json); add a codeindex.toml with `pooling = \"mean\"|\"cls\"|\"last_token\"`");
            text
        },
        ResolveError::NoDimensions => {
            let mut text = origin.to_owned();
            text.append(" does not declare output dimensions; add `native_dimensions` to codeindex.toml");
            text
        },
        ResolveError::NoSequenceLength => {
            let mut text = origin.to_owned();
            text.append(" does not declare a maximum sequence length; add `max_sequence_length` to codeindex.toml");
            text
        },
        ResolveError::NoArchitecture => {
            let mut text = origin.to_owned();
            text.append(" config.json declares no architecture");
            text
        },
    }
}

/// What is said of a file that is not the one that was locked.
pub fn changed_message(mismatch: &HashMismatch, path: &str, origin: &str) -> (r: String)
    ensures
        r@ == path@ + " from "@ + origin@ + " no longer matches the locked hash (locked "@
            + mismatch.locked@ + ", got "@ + mismatch.found@
            + "); the upstream file changed. Delete codeindex.lock.json to re-trust it."@,
{
    let mut text = path.to_owned();
    text.append(" from ");
    text.append(origin);
    text.append(" no longer matches the locked hash (locked ");
    text.append(mismatch.locked.as_str());
    text.append(", got ");
    text.append(mismatch.found.as_str());
    text.append("); the upstream file changed. Delete codeindex.lock.json to re-trust it.");
    text
}

/// What is said of a file that a repository does not have.
pub fn missing_message(origin: &str, path: &str) -> (r: String)
    ensures
        r@ == origin@ + " has no "@ + path@,
{
    let mut text = origin.to_owned();
    text.append(" has no ");
    text.append(path);
    text
}

/// What is said of a name that stands in a catalog and leads to no repository.
pub fn no_repository_message(name: &str) -> (r: String)
    ensures
        r@ == "model reference "@ + debug_literal(name@)
            + " is a backend catalog name and has no repository to resolve"@,
{
    let mut text = "model reference ".to_owned();
    text.append(debug_quote(name).as_str());
    text.append(" is a backend catalog name and has no repository to resolve");
    text
}

/// What is said of weights whose header cannot be read.
pub fn preflight_message(error: &PreflightError, path: &str, declared: u64) -> (r: String)
    ensures
        r@ == match error {
            PreflightError::Fetch(message) => message@,
            PreflightError::TooShort => path@ + " is too short to be safetensors"@,
            PreflightError::Implausible => path@ + " declares an implausible "@
                + decimal(declared as nat) + "-byte safetensors header"@,
            PreflightError::Vanished => path@ + " vanished between preflight reads"@,
            PreflightError::Truncated => path@ + " returned a truncated safetensors header"@,
            PreflightError::NotAnObject => "parsing safetensors header of "@ + path@,
        },
{
    match error {
        PreflightError::Fetch(message) => message.clone(),
        PreflightError::TooShort => {
            let mut text = path.to_owned();
            text.append(" is too short to be safetensors");
            text
        },
        PreflightError::Implausible => {
            let mut text = path.to_owned();
            text.append(" declares an implausible ");
            text.append(decimal_text(declared as u64).as_str());
            text.append("-byte safetensors header");
            text
        },
        PreflightError::Vanished => {
            let mut text = path.to_owned();
            text.append(" vanished between preflight reads");
            text
        },
        PreflightError::Truncated => {
            let mut text = path.to_owned();
            text.append(" returned a truncated safetensors header");
            text
        },
        PreflightError::NotAnObject => {
            let mut text = "parsing safetensors header of ".to_owned();
            text.append(path);
            text
        },
    }
}

/// The names of a model's task profiles, in order.
pub open spec fn profile_names(tasks: TextMap<PairedPrompts>) -> Seq<Seq<char>> {
    Seq::new(tasks.entries@.len(), |i: int| tasks.entries@[i].0@)
}

fn names_of(tasks: &TextMap<PairedPrompts>) -> (r: Vec<String>)
    ensures
        views(r@) == profile_names(*tasks),
{
    let mut names: Vec<String> = Vec::new();
    let mut i: usize = 0;
    while i < tasks.entries.len()
        invariant
            i <= tasks.entries@.len(),
            names@.len() == i,
            forall|j: int| 0 <= j < i ==> (#[trigger] names@[j])@ == tasks.entries@[j].0@,
        decreases tasks.entries@.len() - i,
    {
        names.push(tasks.entries[i].0.clone());
        i += 1;
    }
    assert(views(names@) =~= profile_names(*tasks));
    names
}

/// The task profiles that a model has, as a list in words.
pub open spec fn listed_profiles(prompts: PromptContract) -> Seq<char> {
    match prompts {
        PromptContract::PairedTask { tasks } => joined(profile_names(tasks), ", "@),
        _ => Seq::empty(),
    }
}

fn list_profiles(prompts: &PromptContract) -> (r: String)
    ensures
        r@ == listed_profiles(*prompts),
{
    match prompts {
        PromptContract::PairedTask { tasks } => join(&names_of(tasks), ", "),
        _ => String::new(),
    }
}

/// What is said of an input that cannot be rendered.
pub fn render_message(error: RenderError, contract: &ModelContract, task: &str) -> (r: String)
    ensures
        r@ == match error {
            RenderError::DocumentPromptRequired => "model "@ + contract.model@
                + " renders documents per task profile; the embedding space must set a document-side prompt"@,
            RenderError::Symmetric => "model "@ + contract.model@
                + " is symmetric and does not accept task instructions"@,
            RenderError::InstructionRequired => "model "@ + contract.model@
                + " requires a task instruction for queries and defines no default"@,
            RenderError::FixedPrefix => "model "@ + contract.model@
                + " has a fixed query prefix and does not accept task instructions"@,
            RenderError::ProfileRequired => "model "@ + contract.model@
                + " requires a task profile for queries; available: "@
                + listed_profiles(contract.prompts),
            RenderError::UnknownProfile => "model "@ + contract.model@ + " has no task profile "@
                + debug_literal(task@),
        },
{
    match error {
        RenderError::DocumentPromptRequired => {
            let mut text = "model ".to_owned();
            text.append(contract.model.as_str());
            text.append(" renders documents per task profile; the embedding space must set a document-side prompt");
            text
        },
        RenderError::Symmetric => {
            let mut text = "model ".to_owned();
            text.append(contract.model.as_str());
            text.append(" is symmetric and does not accept task instructions");
            text
        },
        RenderError::InstructionRequired => {
            let mut text = "model ".to_owned();
            text.append(contract.model.as_str());
            text.append(" requires a task instruction for queries and defines no default");
            text
        },
        RenderError::FixedPrefix => {
            let mut text = "model ".to_owned();
            text.append(contract.model.as_str());
            text.append(" has a fixed query prefix and does not accept task instructions");
            text
        },
        RenderError::ProfileRequired => {
            let mut text = "model ".to_owned();
            text.append(contract.model.as_str());
            text.append(" requires a task profile for queries; available: ");
            text.append(list_profiles(&contract.prompts).as_str());
            text
        },
        RenderError::UnknownProfile => {
            let mut text = "model ".to_owned();
            text.append(contract.model.as_str());
            text.append(" has no task profile ");
            text.append(debug_quote(task).as_str());
            text
        },
    }
}

/// What is said of an output width that a model cannot give.
pub fn width_message(width: usize, native: usize) -> (r: String)
    ensures
        r@ == "output_dimensions "@ + decimal(width as nat) + " is outside 1..="@
            + decimal(native as nat),
{
    let mut text = "output_dimensions ".to_owned();
    text.append(decimal_text(width as u64).as_str());
    text.append(" is outside 1..=");
    text.append(decimal_text(native as u64).as_str());
    text
}

/// What is said of a backend that is not known.
pub fn backend_message(backend: &str) -> (r: String)
    ensures
        r@ == "unsupported embedding backend "@ + debug_literal(backend@),
{
    let mut text = "unsupported embedding backend ".to_owned();
    text.append(debug_quote(backend).as_str());
    text
}

/// What is said of a pooling that the catalog backend cannot execute.
pub fn pooling_message(pooling: &str, dir: &str) -> (r: String)
    ensures
        r@ == "unsupported pooling "@ + debug_literal(pooling@) + " for the custom model in "@
            + dir@ + ": the fastembed backend supports \"mean\" and \"cls\" only"@,
{
    let mut text = "unsupported pooling ".to_owned();
    text.append(debug_quote(pooling).as_str());
    text.append(" for the custom model in ");
    text.append(dir);
    text.append(": the fastembed backend supports \"mean\" and \"cls\" only");
    text
}

/// What is said of a catalog model that cannot be used. The pooling and the directory
/// are those of its files.
pub fn catalog_message(refusal: CatalogRefusal, config: &EmbeddingConfig, name: &str, pooling: &str, dir: &str) -> (r: String)
    ensures
        r@ == match refusal {
            CatalogRefusal::QuantizedCustom => "`quantized: true` has no effect on a custom model; point `custom` at a quantized ONNX export instead"@,
            CatalogRefusal::QuantizedManaged => "`quantized: true` is not supported for managed model "@
                + name@ + ": only an fp32 artifact is pinned"@,
            CatalogRefusal::UnsupportedPooling => "unsupported pooling "@
                + debug_literal(pooling@) + " for the custom model in "@ + dir@
                + ": the fastembed backend supports \"mean\" and \"cls\" only"@,
            CatalogRefusal::UnknownModel => "unsupported fastembed model "@
                + debug_literal(config.model@) + " (quantized="@
                + (if config.quantized { "true"@ } else { "false"@ }) + ")"@,
        },
{
    match refusal {
        CatalogRefusal::QuantizedCustom => "`quantized: true` has no effect on a custom model; point `custom` at a quantized ONNX export instead".to_owned(),
        CatalogRefusal::QuantizedManaged => {
            let mut text = "`quantized: true` is not supported for managed model ".to_owned();
            text.append(name);
            text.append(": only an fp32 artifact is pinned");
            text
        },
        CatalogRefusal::UnsupportedPooling => {
            let mut text = "unsupported pooling ".to_owned();
            text.append(debug_quote(pooling).as_str());
            text.append(" for the custom model in ");
            text.append(dir);
            text.append(": the fastembed backend supports \"mean\" and \"cls\" only");
            text
        },
        CatalogRefusal::UnknownModel => {
            let mut text = "unsupported fastembed model ".to_owned();
            text.append(debug_quote(config.model.as_str()).as_str());
            text.append(" (quantized=");
            text.append(if config.quantized { "true" } else { "false" });
            text.append(")");
            text
        },
    }
}

/// What is said of a device that cannot be had.
pub fn device_message(error: DeviceError, provider: &str) -> (r: String)
    ensures
        r@ == match error {
            DeviceError::NotCompiled => "execution provider "@ + debug_literal(provider@)
                + " is not compiled into this binary; rebuild with `--features candle-"@
                + provider@ + "`"@,
            DeviceError::Unknown => "the candle backend does not understand execution provider "@
                + debug_literal(provider@),
        },
{
    match error {
        DeviceError::NotCompiled => {
            let mut text = "execution provider ".to_owned();
            text.append(debug_quote(provider).as_str());
            text.append(" is not compiled into this binary; rebuild with `--features candle-");
            text.append(provider);
            text.append("`");
            text
        },
        DeviceError::Unknown => {
            let mut text = "the candle backend does not understand execution provider ".to_owned();
            text.append(debug_quote(provider).as_str());
            text
        },
    }
}

/// What is said of an accelerator that is not ready. One that is ready needs no word.
pub fn provider_message(resolution: ProviderResolution, wanted: &str) -> (r: String)
    ensures
        r@ == match resolution {
            ProviderResolution::Ready => ""@,
            ProviderResolution::Unavailable => "execution provider "@ + debug_literal(wanted@)
                + " is not available: ONNX Runtime was not built with it, or this platform cannot run it"@,
            ProviderResolution::NotCompiled => "execution provider "@ + debug_literal(wanted@)
                + " is not compiled into this binary; rebuild with `cargo build --features "@
                + wanted@ + "` or use the "@ + wanted@ + " release artifact"@,
        },
{
    match resolution {
        ProviderResolution::Ready => "".to_owned(),
        ProviderResolution::Unavailable => {
            let mut text = "execution provider ".to_owned();
            text.append(debug_quote(wanted).as_str());
            text.append(" is not available: ONNX Runtime was not built with it, or this platform cannot run it");
            text
        },
        ProviderResolution::NotCompiled => {
            let mut text = "execution provider ".to_owned();
            text.append(debug_quote(wanted).as_str());
            text.append(" is not compiled into this binary; rebuild with `cargo build --features ");
            text.append(wanted);
            text.append("` or use the ");
            text.append(wanted);
            text.append(" release artifact");
            text
        },
    }
}

/// What a run that needs its accelerator is refused with.
pub fn required_message(message: &str) -> (r: String)
    ensures
        r@ == message@
            + " — set `embedding.execution_provider: cpu`, or `embedding.provider_mode: auto` to fall back automatically"@,
{
    let mut text = message.to_owned();
    text.append(" — set `embedding.execution_provider: cpu`, or `embedding.provider_mode: auto` to fall back automatically");
    text
}

/// What a run that falls back is warned with.
pub fn fallback_message(message: &str) -> (r: String)
    ensures
        r@ == "warning: "@ + message@ + "; falling back to cpu"@,
{
    let mut text = "warning: ".to_owned();
    text.append(message);
    text.append("; falling back to cpu");
    text
}

/// What is said of a model that the built-in backends cannot execute.
pub fn no_backend_message(resolved: &ResolvedModel, candle: bool, fastembed: bool) -> (r: String)
    ensures
        r@ == "model "@ + resolved.contract.model@ + " resolved (pooling: "@
            + resolved.contract.pooling.token() + ", "@
            + decimal(resolved.contract.native_dimensions as nat) + " dims, architectures: ["@
            + joined(views(resolved.architectures@), ", "@) + "], weights: ["@
            + joined(views(resolved.weight_files@), ", "@)
            + "]) but no backend in this build can execute it. Last-token safetensors models need the `candle` feature"@
            + (if candle { " (enabled, but this model's architecture or weights did not match)"@ } else { " (not enabled)"@ })
            + "; mean/cls ONNX exports need the `fastembed` feature"@
            + (if fastembed { " (enabled, but no compatible ONNX artifact was found)"@ } else { " (not enabled)"@ })
            + "."@,
{
    let mut text = "model ".to_owned();
    text.append(resolved.contract.model.as_str());
    text.append(" resolved (pooling: ");
    text.append(resolved.contract.pooling.as_str());
    text.append(", ");
    text.append(decimal_text(resolved.contract.native_dimensions as u64).as_str());
    text.append(" dims, architectures: [");
    text.append(join(&resolved.architectures, ", ").as_str());
    text.append("], weights: [");
    text.append(join(&resolved.weight_files, ", ").as_str());
    text.append("]) but no backend in this build can execute it. Last-token safetensors models need the `candle` feature");
    text.append(if candle { " (enabled, but this model's architecture or weights did not match)" } else { " (not enabled)" });
    text.append("; mean/cls ONNX exports need the `fastembed` feature");
    text.append(if fastembed { " (enabled, but no compatible ONNX artifact was found)" } else { " (not enabled)" });
    text.append(".");
    text
}

} // verus!
