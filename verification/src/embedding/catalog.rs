//! The catalog backend: custom, managed and catalog ONNX models.
use crate::embedding::config::{
    CustomModelConfig, EmbeddingConfig, ManagedFile, ManagedModel, ProviderMode,
};
use crate::embedding::contract::{ModelContract, Pooling, PromptContract};
use crate::embedding::resolve::bytes_hash;
use crate::hashing::{hex, sha256};
use crate::text::{concat, join_path, opt_view, path_joined, same};
use vstd::bytes::{spec_u64_to_le_bytes, u64_to_le_bytes};
use vstd::prelude::*;
use vstd::string::*;
use vstd::utf8::encode_utf8;

verus! {

/// A model of the catalog.
#[derive(Debug, Clone, Copy, PartialEq, Eq, Structural)]
pub enum CatalogModel {
    BGESmallENV15,
    BGESmallENV15Q,
    BGEBaseENV15,
    BGEBaseENV15Q,
    JinaEmbeddingsV2BaseCode,
    AllMiniLML6V2,
    AllMiniLML6V2Q,
    GTEBaseENV15,
    GTEBaseENV15Q,
    SnowflakeArcticEmbedM,
    SnowflakeArcticEmbedMQ,
    SnowflakeArcticEmbedMLong,
    SnowflakeArcticEmbedMLongQ,
    NomicEmbedTextV15,
    NomicEmbedTextV15Q,
}

/// The catalog model for a configured name; the variants whose names end in `Q`
/// are quantized.
pub open spec fn catalog_entry(name: Seq<char>, quantized: bool) -> Option<CatalogModel> {
    if name == "BGESmallENV15"@ {
        if quantized {
            Some(CatalogModel::BGESmallENV15Q)
        } else {
            Some(CatalogModel::BGESmallENV15)
        }
    } else if name == "BGEBaseENV15"@ {
        if quantized {
            Some(CatalogModel::BGEBaseENV15Q)
        } else {
            Some(CatalogModel::BGEBaseENV15)
        }
    } else if name == "JinaEmbeddingsV2BaseCode"@ {
        if quantized {
            None
        } else {
            Some(CatalogModel::JinaEmbeddingsV2BaseCode)
        }
    } else if name == "AllMiniLML6V2"@ {
        if quantized {
            Some(CatalogModel::AllMiniLML6V2Q)
        } else {
            Some(CatalogModel::AllMiniLML6V2)
        }
    } else if name == "GTEBaseENV15"@ {
        if quantized {
            Some(CatalogModel::GTEBaseENV15Q)
        } else {
            Some(CatalogModel::GTEBaseENV15)
        }
    } else if name == "SnowflakeArcticEmbedM"@ {
        if quantized {
            Some(CatalogModel::SnowflakeArcticEmbedMQ)
        } else {
            Some(CatalogModel::SnowflakeArcticEmbedM)
        }
    } else if name == "SnowflakeArcticEmbedMLong"@ {
        if quantized {
            Some(CatalogModel::SnowflakeArcticEmbedMLongQ)
        } else {
            Some(CatalogModel::SnowflakeArcticEmbedMLong)
        }
    } else if name == "NomicEmbedTextV15"@ {
        if quantized {
            Some(CatalogModel::NomicEmbedTextV15Q)
        } else {
            Some(CatalogModel::NomicEmbedTextV15)
        }
    } else {
        None
    }
}

/// Map a configured model name and quantization to the catalog variant.
pub fn catalog_model(name: &str, quantized: bool) -> (r: Option<CatalogModel>)
    ensures
        r == catalog_entry(name@, quantized),
{
    if same(name, "BGESmallENV15") {
        if quantized {
            Some(CatalogModel::BGESmallENV15Q)
        } else {
            Some(CatalogModel::BGESmallENV15)
        }
    } else if same(name, "BGEBaseENV15") {
        if quantized {
            Some(CatalogModel::BGEBaseENV15Q)
        } else {
            Some(CatalogModel::BGEBaseENV15)
        }
    } else if same(name, "JinaEmbeddingsV2BaseCode") {
        if quantized {
            None
        } else {
            Some(CatalogModel::JinaEmbeddingsV2BaseCode)
        }
    } else if same(name, "AllMiniLML6V2") {
        if quantized {
            Some(CatalogModel::AllMiniLML6V2Q)
        } else {
            Some(CatalogModel::AllMiniLML6V2)
        }
    } else if same(name, "GTEBaseENV15") {
        if quantized {
            Some(CatalogModel::GTEBaseENV15Q)
        } else {
            Some(CatalogModel::GTEBaseENV15)
        }
    } else if same(name, "SnowflakeArcticEmbedM") {
        if quantized {
            Some(CatalogModel::SnowflakeArcticEmbedMQ)
        } else {
            Some(CatalogModel::SnowflakeArcticEmbedM)
        }
    } else if same(name, "SnowflakeArcticEmbedMLong") {
        if quantized {
            Some(CatalogModel::SnowflakeArcticEmbedMLongQ)
        } else {
            Some(CatalogModel::SnowflakeArcticEmbedMLong)
        }
    } else if same(name, "NomicEmbedTextV15") {
        if quantized {
            Some(CatalogModel::NomicEmbedTextV15Q)
        } else {
            Some(CatalogModel::NomicEmbedTextV15)
        }
    } else {
        None
    }
}

/// Prompt contract from a pair of literal role prefixes; both empty means the
/// model is symmetric.
pub fn prefix_prompts(query_prefix: &str, document_prefix: &str) -> (r: PromptContract)
    ensures
        query_prefix@.len() == 0 && document_prefix@.len() == 0 ==> r == PromptContract::Symmetric,
        query_prefix@.len() > 0 || document_prefix@.len() > 0 ==> {
            &&& r matches PromptContract::RolePrefixes { query, document }
            &&& query@ == query_prefix@
            &&& document@ == document_prefix@
        },
{
    if query_prefix.is_empty() && document_prefix.is_empty() {
        PromptContract::Symmetric
    } else {
        PromptContract::RolePrefixes {
            query: query_prefix.to_owned(),
            document: document_prefix.to_owned(),
        }
    }
}

/// Parse a configured pooling name, restricted to what the catalog backend can
/// actually execute.
pub fn parse_supported_pooling(value: &str) -> (r: Option<Pooling>)
    ensures
        r == if value@ == "mean"@ {
            Some(Pooling::Mean)
        } else if value@ == "cls"@ {
            Some(Pooling::Cls)
        } else {
            None
        },
{
    if same(value, "mean") {
        Some(Pooling::Mean)
    } else if same(value, "cls") {
        Some(Pooling::Cls)
    } else {
        None
    }
}

/// One file as it enters an identity: its name, its length and its bytes, each
/// closed by a zero byte.
pub open spec fn framed(name: Seq<char>, bytes: Seq<u8>) -> Seq<u8> {
    encode_utf8(name) + seq![0u8] + spec_u64_to_le_bytes(bytes.len() as u64) + seq![0u8] + bytes
}

/// The four tokenizer files as they enter an identity.
pub open spec fn tokenizer_frames(files: TokenizerFiles) -> Seq<u8> {
    framed("tokenizer.json"@, files.tokenizer@) + framed("config.json"@, files.config@) + framed(
        "special_tokens_map.json"@,
        files.special_tokens_map@,
    ) + framed("tokenizer_config.json"@, files.tokenizer_config@)
}

/// The files that make up a tokenizer.
#[derive(Debug)]
pub struct TokenizerFiles {
    pub tokenizer: Vec<u8>,
    pub config: Vec<u8>,
    pub special_tokens_map: Vec<u8>,
    pub tokenizer_config: Vec<u8>,
}

fn push_bytes(out: &mut Vec<u8>, bytes: &[u8])
    ensures
        final(out)@ == old(out)@ + bytes@,
{
    let ghost start = out@;
    let mut i: usize = 0;
    assert(start + bytes@.take(0) =~= start);
    while i < bytes.len()
        invariant
            i <= bytes@.len(),
            out@ == start + bytes@.take(i as int),
        decreases bytes@.len() - i,
    {
        assert((start + bytes@.take(i as int)).push(bytes@[i as int]) =~= start + bytes@.take(
            i + 1,
        ));
        out.push(bytes[i]);
        i += 1;
    }
    assert(bytes@.take(i as int) =~= bytes@);
}

fn push_frame(out: &mut Vec<u8>, name: &str, bytes: &[u8])
    ensures
        final(out)@ == old(out)@ + framed(name@, bytes@),
{
    let ghost start = out@;
    push_bytes(out, name.as_bytes());
    out.push(0);
    push_bytes(out, u64_to_le_bytes(bytes.len() as u64).as_slice());
    out.push(0);
    push_bytes(out, bytes);
    assert(out@ =~= start + framed(name@, bytes@));
}

/// The hashes of a custom model: of its tokenizer files, and of its weights.
pub fn custom_artifact_hashes(onnx: &[u8], files: &TokenizerFiles) -> (r: (String, String))
    ensures
        r.0@ == bytes_hash(tokenizer_frames(*files)),
        r.1@ == bytes_hash(onnx@),
{
    let model_hash = hex(&sha256(onnx));
    let mut frames: Vec<u8> = Vec::new();
    push_frame(&mut frames, "tokenizer.json", files.tokenizer.as_slice());
    push_frame(&mut frames, "config.json", files.config.as_slice());
    push_frame(&mut frames, "special_tokens_map.json", files.special_tokens_map.as_slice());
    push_frame(&mut frames, "tokenizer_config.json", files.tokenizer_config.as_slice());
    assert(frames@ =~= tokenizer_frames(*files));
    (hex(&sha256(frames.as_slice())), model_hash)
}

/// How the catalog backend loads the configured model.
#[derive(Debug, Clone, Copy, PartialEq, Eq, Structural)]
pub enum CatalogPlan {
    /// A custom model, with its pooling.
    Custom(Pooling),
    /// A managed model, with its pooling.
    Managed(Pooling),
    Catalog(CatalogModel),
}

/// Why the catalog backend cannot load the configured model.
#[derive(Debug, Clone, Copy, PartialEq, Eq, Structural)]
pub enum CatalogRefusal {
    /// A custom model cannot be asked to be quantized.
    QuantizedCustom,
    /// A managed model is pinned unquantized.
    QuantizedManaged,
    /// The pooling is not one that the backend executes.
    UnsupportedPooling,
    /// The catalog has no such model.
    UnknownModel,
}

/// The pooling that a name stands for, among those that the backend executes.
pub open spec fn supported_pooling(value: Seq<char>) -> Option<Pooling> {
    if value == "mean"@ {
        Some(Pooling::Mean)
    } else if value == "cls"@ {
        Some(Pooling::Cls)
    } else {
        None
    }
}

/// How the configured model is loaded: a custom model first, then a managed one,
/// then a catalog model.
pub open spec fn planned(config: EmbeddingConfig, managed: Option<ManagedModel>) -> Result<
    CatalogPlan,
    CatalogRefusal,
> {
    if config.custom is Some {
        if config.quantized {
            Err(CatalogRefusal::QuantizedCustom)
        } else {
            match supported_pooling(config.custom->0.pooling@) {
                Some(pooling) => Ok(CatalogPlan::Custom(pooling)),
                None => Err(CatalogRefusal::UnsupportedPooling),
            }
        }
    } else if managed is Some {
        if config.quantized {
            Err(CatalogRefusal::QuantizedManaged)
        } else {
            match supported_pooling(managed->0.pooling@) {
                Some(pooling) => Ok(CatalogPlan::Managed(pooling)),
                None => Err(CatalogRefusal::UnsupportedPooling),
            }
        }
    } else {
        match catalog_entry(config.model@, config.quantized) {
            Some(model) => Ok(CatalogPlan::Catalog(model)),
            None => Err(CatalogRefusal::UnknownModel),
        }
    }
}

/// Decides how the configured model is loaded.
pub fn plan_model(config: &EmbeddingConfig, managed: Option<&ManagedModel>) -> (r: Result<
    CatalogPlan,
    CatalogRefusal,
>)
    ensures
        r == planned(
            *config,
            match managed {
                Some(model) => Some(*model),
                None => None,
            },
        ),
{
    if let Some(custom) = &config.custom {
        if config.quantized {
            return Err(CatalogRefusal::QuantizedCustom);
        }
        return match parse_supported_pooling(custom.pooling.as_str()) {
            Some(pooling) => Ok(CatalogPlan::Custom(pooling)),
            None => Err(CatalogRefusal::UnsupportedPooling),
        };
    }
    if let Some(model) = managed {
        if config.quantized {
            return Err(CatalogRefusal::QuantizedManaged);
        }
        return match parse_supported_pooling(model.pooling.as_str()) {
            Some(pooling) => Ok(CatalogPlan::Managed(pooling)),
            None => Err(CatalogRefusal::UnsupportedPooling),
        };
    }
    match catalog_model(config.model.as_str(), config.quantized) {
        Some(model) => Ok(CatalogPlan::Catalog(model)),
        None => Err(CatalogRefusal::UnknownModel),
    }
}

/// The contract of a custom model. It does not depend on where the files lie:
/// the hashes pin the exact artifact bytes.
pub fn custom_contract(
    config: &EmbeddingConfig,
    custom: &CustomModelConfig,
    pooling: Pooling,
    tokenizer_hash: String,
    model_hash: String,
) -> (r: ModelContract)
    ensures
        r.model@ == config.model@,
        opt_view(r.revision) == Some("custom:"@ + custom.onnx_file@),
        r.model_hash == Some(model_hash),
        r.tokenizer_hash == Some(tokenizer_hash),
        r.pooling == pooling,
        r.normalize == config.normalize,
        r.native_dimensions == custom.dimensions,
        r.max_sequence_length == custom.max_length,
        r.prompts == PromptContract::Symmetric,
        r.quantization is None,
{
    ModelContract {
        model: config.model.clone(),
        revision: Some(concat("custom:", custom.onnx_file.as_str())),
        model_hash: Some(model_hash),
        tokenizer_hash: Some(tokenizer_hash),
        pooling,
        normalize: config.normalize,
        native_dimensions: custom.dimensions,
        max_sequence_length: custom.max_length,
        prompts: PromptContract::Symmetric,
        quantization: None,
    }
}

/// The contract of a managed model.
pub fn managed_contract(
    config: &EmbeddingConfig,
    managed: &ManagedModel,
    pooling: Pooling,
    tokenizer_hash: String,
    model_hash: String,
) -> (r: ModelContract)
    ensures
        r.model@ == config.model@,
        opt_view(r.revision) == Some("managed:"@ + managed.repo@ + "@"@ + managed.revision@),
        r.model_hash == Some(model_hash),
        r.tokenizer_hash == Some(tokenizer_hash),
        r.pooling == pooling,
        r.normalize == config.normalize,
        r.native_dimensions == managed.dimensions,
        r.max_sequence_length == managed.max_length,
        managed.query_prefix@.len() == 0 && managed.document_prefix@.len() == 0 ==> r.prompts
            == PromptContract::Symmetric,
        managed.query_prefix@.len() > 0 || managed.document_prefix@.len() > 0 ==> {
            &&& r.prompts matches PromptContract::RolePrefixes { query, document }
            &&& query@ == managed.query_prefix@
            &&& document@ == managed.document_prefix@
        },
        r.quantization is None,
{
    let mut revision = concat("managed:", managed.repo.as_str());
    revision.append("@");
    revision.append(managed.revision.as_str());
    ModelContract {
        model: config.model.clone(),
        revision: Some(revision),
        model_hash: Some(model_hash),
        tokenizer_hash: Some(tokenizer_hash),
        pooling,
        normalize: config.normalize,
        native_dimensions: managed.dimensions,
        max_sequence_length: managed.max_length,
        prompts: prefix_prompts(managed.query_prefix.as_str(), managed.document_prefix.as_str()),
        quantization: None,
    }
}

/// The contract of a catalog model, given its width and code in the catalog.
/// Catalog models carry their pooling inside the backend's own per-model
/// configuration, and are truncated to 512 tokens.
pub fn catalog_contract(config: &EmbeddingConfig, dimensions: usize, model_code: &str) -> (r:
    ModelContract)
    ensures
        r.model@ == config.model@,
        opt_view(r.revision) == Some(model_code@),
        r.model_hash is None,
        r.tokenizer_hash is None,
        r.pooling == Pooling::ModelDefined,
        r.normalize == config.normalize,
        r.native_dimensions == dimensions,
        r.max_sequence_length == 512,
        r.prompts == PromptContract::Symmetric,
        opt_view(r.quantization) == if config.quantized {
            Some("quantized"@)
        } else {
            None
        },
{
    ModelContract {
        model: config.model.clone(),
        revision: Some(model_code.to_owned()),
        model_hash: None,
        tokenizer_hash: None,
        pooling: Pooling::ModelDefined,
        normalize: config.normalize,
        native_dimensions: dimensions,
        max_sequence_length: 512,
        prompts: PromptContract::Symmetric,
        quantization: if config.quantized {
            Some("quantized".to_owned())
        } else {
            None
        },
    }
}

/// What became of a requested accelerator.
#[derive(Debug, Clone, Copy, PartialEq, Eq, Structural)]
pub enum ProviderResolution {
    /// Ready to register on the session.
    Ready,
    /// Compiled in, but the runtime lacks it or the platform cannot run it.
    Unavailable,
    /// Not compiled into this binary.
    NotCompiled,
}

/// The execution provider that takes effect.
#[derive(Debug, Clone, Copy, PartialEq, Eq, Structural)]
pub enum ProviderChoice {
    Cpu,
    Accelerator,
    /// The accelerator could not be had and the processor takes its place.
    FallbackToCpu(ProviderResolution),
}

/// The provider that takes effect. A requested accelerator that is missing or
/// unavailable is an error where it is required, and replaced by the processor
/// where it is not.
pub fn resolve_providers(
    wanted: &str,
    mode: ProviderMode,
    resolution: ProviderResolution,
) -> (r: Result<ProviderChoice, ProviderResolution>)
    ensures
        r == if wanted@ == "cpu"@ {
            Ok::<ProviderChoice, ProviderResolution>(ProviderChoice::Cpu)
        } else if resolution == ProviderResolution::Ready {
            Ok(ProviderChoice::Accelerator)
        } else if mode == ProviderMode::Require {
            Err(resolution)
        } else {
            Ok(ProviderChoice::FallbackToCpu(resolution))
        },
{
    if same(wanted, "cpu") {
        return Ok(ProviderChoice::Cpu);
    }
    match resolution {
        ProviderResolution::Ready => Ok(ProviderChoice::Accelerator),
        _ => if mode == ProviderMode::Require {
            Err(resolution)
        } else {
            Ok(ProviderChoice::FallbackToCpu(resolution))
        },
    }
}

/// The name that is recorded for the provider that took effect: never the
/// requested accelerator where it fell back to the processor.
pub fn effective_provider(wanted: &str, choice: ProviderChoice) -> (r: String)
    ensures
        r@ == if choice == ProviderChoice::Accelerator {
            wanted@
        } else {
            "cpu"@
        },
{
    match choice {
        ProviderChoice::Accelerator => wanted.to_owned(),
        _ => "cpu".to_owned(),
    }
}

/// Whether an on-disk file already matches the pinned size and hash.
pub fn managed_file_ok(file: &ManagedFile, size: u64, sha256: &str) -> (r: bool)
    ensures
        r == (size == file.size && sha256@ == file.sha256@),
{
    size == file.size && same(sha256, file.sha256.as_str())
}

/// What is said of a download with another hash than is pinned.
pub open spec fn bad_download_text(
    path: Seq<char>,
    got: Seq<char>,
    expected: Seq<char>,
) -> Seq<char> {
    "downloaded "@ + path + " has hash "@ + got + ", expected "@ + expected
        + " — refusing to use it"@
}

/// Checks the hash of a download: a file that moved, was damaged or was tampered
/// with is refused.
pub fn check_download(file: &ManagedFile, got: &str) -> (r: Result<(), String>)
    ensures
        match r {
            Ok(()) => got@ == file.sha256@,
            Err(message) => got@ != file.sha256@ && message@ == bad_download_text(
                file.path@,
                got@,
                file.sha256@,
            ),
        },
{
    if same(got, file.sha256.as_str()) {
        return Ok(());
    }
    let mut text = concat("downloaded ", file.path.as_str());
    text.append(" has hash ");
    text.append(got);
    text.append(", expected ");
    text.append(file.sha256.as_str());
    text.append(" — refusing to use it");
    Err(text)
}

/// The address of a managed model's file.
pub fn managed_file_url(managed: &ManagedModel, file: &ManagedFile) -> (r: String)
    ensures
        r@ == "https://huggingface.co/"@ + managed.repo@ + "/resolve/"@ + managed.revision@ + "/"@
            + file.path@,
{
    let mut out = "https://huggingface.co/".to_owned();
    out.append(managed.repo.as_str());
    out.append("/resolve/");
    out.append(managed.revision.as_str());
    out.append("/");
    out.append(file.path.as_str());
    out
}

/// The cache directory: the configured one, else the one from the environment,
/// else the default.
pub fn resolve_cache_dir(
    configured: &Option<String>,
    environment: &Option<String>,
    default: &str,
) -> (r: String)
    ensures
        r@ == match (*configured, *environment) {
            (Some(dir), _) => dir@,
            (None, Some(dir)) => dir@,
            (None, None) => default@,
        },
{
    match configured {
        Some(dir) => dir.clone(),
        None => match environment {
            Some(dir) => dir.clone(),
            None => default.to_owned(),
        },
    }
}

/// Directory a managed model's files materialize into, beside the catalog cache.
pub fn managed_model_dir(catalog_parent: Option<&str>, catalog: &str, managed: &ManagedModel) -> (r:
    String)
    ensures
        r@ == path_joined(
            path_joined(
                match catalog_parent {
                    Some(parent) => parent@,
                    None => catalog@,
                },
                "custom"@,
            ),
            managed.cache_id@,
        ),
{
    let root = match catalog_parent {
        Some(parent) => parent,
        None => catalog,
    };
    join_path(join_path(root, "custom").as_str(), managed.cache_id.as_str())
}

/// The directories below a cache base in which models may lie: that of this
/// application, then that of its predecessor, whose downloads are read through.
pub fn cache_candidates(base: &str) -> (r: (String, String))
    ensures
        r.0@ == path_joined(path_joined(base@, "codeindex"@), "models"@),
        r.1@ == path_joined(path_joined(base@, "decombine"@), "models"@),
{
    (
        join_path(join_path(base, "codeindex").as_str(), "models"),
        join_path(join_path(base, "decombine").as_str(), "models"),
    )
}

/// The default cache: the first candidate that exists, else the first; the
/// working directory's where there is no base.
pub fn default_cache_dir(base: Option<&str>, first_exists: bool, second_exists: bool) -> (r: String)
    ensures
        r@ == match base {
            None => ".codeindex-models"@,
            Some(base) => if !first_exists && second_exists {
                path_joined(path_joined(base@, "decombine"@), "models"@)
            } else {
                path_joined(path_joined(base@, "codeindex"@), "models"@)
            },
        },
{
    match base {
        None => ".codeindex-models".to_owned(),
        Some(base) => {
            let (first, second) = cache_candidates(base);
            if !first_exists && second_exists {
                second
            } else {
                first
            }
        },
    }
}

/// Each model of the catalog goes by a name of its own, and it is quantized exactly where
/// that is asked for.
pub proof fn catalog_models_have_names(name: Seq<char>, quantized: bool)
    ensures
        match catalog_entry(name, quantized) {
            Some(CatalogModel::BGESmallENV15) => !quantized && name == "BGESmallENV15"@,
            Some(CatalogModel::BGESmallENV15Q) => quantized && name == "BGESmallENV15"@,
            Some(CatalogModel::BGEBaseENV15) => !quantized && name == "BGEBaseENV15"@,
            Some(CatalogModel::BGEBaseENV15Q) => quantized && name == "BGEBaseENV15"@,
            Some(CatalogModel::JinaEmbeddingsV2BaseCode) => !quantized && name
                == "JinaEmbeddingsV2BaseCode"@,
            Some(CatalogModel::AllMiniLML6V2) => !quantized && name == "AllMiniLML6V2"@,
            Some(CatalogModel::AllMiniLML6V2Q) => quantized && name == "AllMiniLML6V2"@,
            Some(CatalogModel::GTEBaseENV15) => !quantized && name == "GTEBaseENV15"@,
            Some(CatalogModel::GTEBaseENV15Q) => quantized && name == "GTEBaseENV15"@,
            Some(CatalogModel::SnowflakeArcticEmbedM) => !quantized && name
                == "SnowflakeArcticEmbedM"@,
            Some(CatalogModel::SnowflakeArcticEmbedMQ) => quantized && name
                == "SnowflakeArcticEmbedM"@,
            Some(CatalogModel::SnowflakeArcticEmbedMLong) => !quantized && name
                == "SnowflakeArcticEmbedMLong"@,
            Some(CatalogModel::SnowflakeArcticEmbedMLongQ) => quantized && name
                == "SnowflakeArcticEmbedMLong"@,
            Some(CatalogModel::NomicEmbedTextV15) => !quantized && name == "NomicEmbedTextV15"@,
            Some(CatalogModel::NomicEmbedTextV15Q) => quantized && name == "NomicEmbedTextV15"@,
            None => true,
        },
        catalog_entry(name, true) is Some ==> catalog_entry(name, false) is Some,
        catalog_entry(name, false) is Some && name != "JinaEmbeddingsV2BaseCode"@
            ==> catalog_entry(name, true) is Some,
{
}

/// A model that is not quantized is found by each of the catalog's names.
pub proof fn every_catalog_name_is_known(name: Seq<char>)
    requires
        ({
            ||| name == "BGESmallENV15"@
            ||| name == "BGEBaseENV15"@
            ||| name == "JinaEmbeddingsV2BaseCode"@
            ||| name == "AllMiniLML6V2"@
            ||| name == "GTEBaseENV15"@
            ||| name == "SnowflakeArcticEmbedM"@
            ||| name == "SnowflakeArcticEmbedMLong"@
            ||| name == "NomicEmbedTextV15"@
        }),
    ensures
        catalog_entry(name, false) is Some,
{
}

/// A pooling that is supported is the one that is named.
pub proof fn a_supported_pooling_is_the_named_one(value: Seq<char>)
    ensures
        supported_pooling(value) matches Some(pooling) ==> pooling.token() == value && (pooling
            == Pooling::Mean || pooling == Pooling::Cls),
        value == Pooling::Mean.token() || value == Pooling::Cls.token() ==> supported_pooling(value)
            is Some,
{
}

/// A custom model is preferred to a managed one, and that to the catalog. Neither of the
/// first two is quantized, and each pools as it says; the catalog is asked for what it has.
pub proof fn a_custom_model_is_preferred(config: EmbeddingConfig, managed: Option<ManagedModel>)
    ensures
        match planned(config, managed) {
            Ok(CatalogPlan::Custom(pooling)) => config.custom is Some && !config.quantized
                && pooling.token() == config.custom->0.pooling@,
            Ok(CatalogPlan::Managed(pooling)) => config.custom is None && managed is Some
                && !config.quantized && pooling.token() == managed->0.pooling@,
            Ok(CatalogPlan::Catalog(model)) => config.custom is None && managed is None && Some(
                model,
            ) == catalog_entry(config.model@, config.quantized),
            Err(CatalogRefusal::QuantizedCustom) => config.custom is Some && config.quantized,
            Err(CatalogRefusal::QuantizedManaged) => config.custom is None && managed is Some
                && config.quantized,
            Err(CatalogRefusal::UnsupportedPooling) => !config.quantized,
            Err(CatalogRefusal::UnknownModel) => config.custom is None && managed is None
                && catalog_entry(config.model@, config.quantized) is None,
        },
{
}

/// A frame tells its bytes apart from those of any other frame of its name, whatever stands
/// behind them.
pub proof fn frames_tell_bytes_apart(
    name: Seq<char>,
    a: Seq<u8>,
    b: Seq<u8>,
    after_a: Seq<u8>,
    after_b: Seq<u8>,
)
    requires
        a.len() <= u64::MAX && b.len() <= u64::MAX,
        framed(name, a) + after_a == framed(name, b) + after_b,
    ensures
        a == b,
        after_a == after_b,
{
    vstd::bytes::lemma_auto_spec_u64_to_from_le_bytes();
    let at = encode_utf8(name).len() as int + 1;
    let (left, right) = (framed(name, a) + after_a, framed(name, b) + after_b);
    let (size_a, size_b) = (
        spec_u64_to_le_bytes(a.len() as u64),
        spec_u64_to_le_bytes(b.len() as u64),
    );
    assert(left.subrange(at, at + 8) =~= size_a);
    assert(right.subrange(at, at + 8) =~= size_b);
    assert(vstd::bytes::spec_u64_from_le_bytes(size_a) == a.len() as u64);
    assert(vstd::bytes::spec_u64_from_le_bytes(size_b) == b.len() as u64);
    assert(a.len() == b.len());
    assert(left.subrange(at + 9, at + 9 + a.len()) =~= a);
    assert(right.subrange(at + 9, at + 9 + a.len()) =~= b);
    assert(left.skip(at + 9 + a.len()) =~= after_a);
    assert(right.skip(at + 9 + a.len()) =~= after_b);
}

/// What is hashed of a tokenizer tells each of its files apart.
pub proof fn tokenizer_frames_tell_files_apart(a: TokenizerFiles, b: TokenizerFiles)
    requires
        tokenizer_frames(a) == tokenizer_frames(b),
    ensures
        a.tokenizer@ == b.tokenizer@,
        a.config@ == b.config@,
        a.special_tokens_map@ == b.special_tokens_map@,
        a.tokenizer_config@ == b.tokenizer_config@,
{
    file_lengths_fit(a);
    file_lengths_fit(b);
    let tail_a = framed("special_tokens_map.json"@, a.special_tokens_map@) + framed(
        "tokenizer_config.json"@,
        a.tokenizer_config@,
    );
    let tail_b = framed("special_tokens_map.json"@, b.special_tokens_map@) + framed(
        "tokenizer_config.json"@,
        b.tokenizer_config@,
    );
    let rest_a = framed("config.json"@, a.config@) + tail_a;
    let rest_b = framed("config.json"@, b.config@) + tail_b;
    assert(tokenizer_frames(a) =~= framed("tokenizer.json"@, a.tokenizer@) + rest_a);
    assert(tokenizer_frames(b) =~= framed("tokenizer.json"@, b.tokenizer@) + rest_b);
    frames_tell_bytes_apart("tokenizer.json"@, a.tokenizer@, b.tokenizer@, rest_a, rest_b);
    frames_tell_bytes_apart("config.json"@, a.config@, b.config@, tail_a, tail_b);
    let (end_a, end_b) = (
        framed("tokenizer_config.json"@, a.tokenizer_config@),
        framed("tokenizer_config.json"@, b.tokenizer_config@),
    );
    frames_tell_bytes_apart(
        "special_tokens_map.json"@,
        a.special_tokens_map@,
        b.special_tokens_map@,
        end_a,
        end_b,
    );
    assert(end_a =~= end_a + Seq::<u8>::empty());
    assert(end_b =~= end_b + Seq::<u8>::empty());
    frames_tell_bytes_apart(
        "tokenizer_config.json"@,
        a.tokenizer_config@,
        b.tokenizer_config@,
        Seq::empty(),
        Seq::empty(),
    );
}

proof fn file_lengths_fit(files: TokenizerFiles)
    ensures
        files.tokenizer@.len() <= u64::MAX,
        files.config@.len() <= u64::MAX,
        files.special_tokens_map@.len() <= u64::MAX,
        files.tokenizer_config@.len() <= u64::MAX,
{
    assert(files.tokenizer.len() == files.tokenizer@.len());
    assert(files.config.len() == files.config@.len());
    assert(files.special_tokens_map.len() == files.special_tokens_map@.len());
    assert(files.tokenizer_config.len() == files.tokenizer_config@.len());
}

/// The processor is always to be had. An accelerator is used where it is ready; where it is
/// not, a run that requires it fails and any other goes on without.
pub proof fn a_required_accelerator_is_not_replaced(
    wanted: &str,
    mode: ProviderMode,
    resolution: ProviderResolution,
    r: Result<ProviderChoice, ProviderResolution>,
)
    requires
        call_ensures(resolve_providers, (wanted, mode, resolution), r),
    ensures
        wanted@ == "cpu"@ ==> r == Ok::<ProviderChoice, ProviderResolution>(ProviderChoice::Cpu),
        r == Ok::<ProviderChoice, ProviderResolution>(ProviderChoice::Accelerator) ==> resolution
            == ProviderResolution::Ready,
        r is Err ==> mode == ProviderMode::Require && resolution != ProviderResolution::Ready,
        wanted@ != "cpu"@ && mode == ProviderMode::Require && resolution
            != ProviderResolution::Ready ==> r is Err,
{
}

/// A file is taken for the managed one only with its size and its hash.
pub proof fn a_managed_file_has_its_hash(file: ManagedFile, size: u64, sha256: &str, r: bool)
    requires
        call_ensures(managed_file_ok, (&file, size, sha256), r),
    ensures
        r <==> size == file.size && sha256@ == file.sha256@,
{
}

/// A managed model is prompted as it is pinned: its query prefix stands before queries and
/// its document prefix before documents. It keeps its width, its length and its revision.
pub proof fn a_managed_model_is_prompted_as_pinned(
    config: EmbeddingConfig,
    managed: ManagedModel,
    pooling: Pooling,
    tokenizer_hash: String,
    model_hash: String,
    r: ModelContract,
    text: Seq<char>,
)
    requires
        call_ensures(
            managed_contract,
            (&config, &managed, pooling, tokenizer_hash, model_hash),
            r,
        ),
    ensures
        crate::embedding::render::rendered(
            r.prompts,
            crate::embedding::render::EmbeddingRole::Query,
            None,
            None,
            text,
        ) == Ok::<Seq<char>, crate::embedding::render::RenderError>(managed.query_prefix@ + text),
        crate::embedding::render::rendered(
            r.prompts,
            crate::embedding::render::EmbeddingRole::Document,
            None,
            None,
            text,
        ) == Ok::<Seq<char>, crate::embedding::render::RenderError>(
            managed.document_prefix@ + text,
        ),
        r.native_dimensions == managed.dimensions && r.max_sequence_length == managed.max_length,
        r.pooling == pooling && r.normalize == config.normalize,
        r.model_hash == Some(model_hash) && r.tokenizer_hash == Some(tokenizer_hash),
{
    crate::embedding::render::a_text_follows_its_prompt(r.prompts, None, None, text);
    if managed.query_prefix@.len() == 0 && managed.document_prefix@.len() == 0 {
        assert(managed.query_prefix@ + text =~= text);
        assert(managed.document_prefix@ + text =~= text);
    }
}

/// A custom model is prompted with nothing but the text, and is known by its files and what
/// the configuration says of it; a model of the catalog gives its vector itself.
pub proof fn a_custom_model_is_known_by_its_files(
    config: EmbeddingConfig,
    custom: CustomModelConfig,
    pooling: Pooling,
    tokenizer_hash: String,
    model_hash: String,
    own: ModelContract,
    dimensions: usize,
    model_code: &str,
    catalog: ModelContract,
)
    requires
        call_ensures(custom_contract, (&config, &custom, pooling, tokenizer_hash, model_hash), own),
        call_ensures(catalog_contract, (&config, dimensions, model_code), catalog),
    ensures
        own.prompts is Symmetric && catalog.prompts is Symmetric,
        own.pooling == pooling && catalog.pooling == Pooling::ModelDefined,
        own.native_dimensions == custom.dimensions && catalog.native_dimensions == dimensions,
        own.max_sequence_length == custom.max_length,
        own.model_hash == Some(model_hash) && own.tokenizer_hash == Some(tokenizer_hash),
        catalog.quantization is Some <==> config.quantized,
        own.normalize == config.normalize && catalog.normalize == config.normalize,
{
}

/// Models are cached where the configuration says, else where the environment does, else
/// where they are by default; the older of two places is used only where it alone is there.
pub proof fn models_are_cached_where_they_are_told_to(
    configured: Option<String>,
    environment: Option<String>,
    default: &str,
    r: String,
    base: &str,
    first_exists: bool,
    second_exists: bool,
    place: String,
)
    requires
        call_ensures(resolve_cache_dir, (&configured, &environment, default), r),
        call_ensures(default_cache_dir, (Some(base), first_exists, second_exists), place),
    ensures
        configured matches Some(dir) ==> r@ == dir@,
        configured is None ==> (environment matches Some(dir) ==> r@ == dir@),
        configured is None && environment is None ==> r@ == default@,
        first_exists || !second_exists ==> place@ == path_joined(
            path_joined(base@, "codeindex"@),
            "models"@,
        ),
        !first_exists && second_exists ==> place@ == path_joined(
            path_joined(base@, "decombine"@),
            "models"@,
        ),
{
}

} // verus!
