//! What an embedding run is configured with.
use vstd::prelude::*;

verus! {

/// Whether a requested accelerator may be replaced by the processor.
#[derive(Debug, Clone, Copy, PartialEq, Eq, Structural)]
pub enum ProviderMode {
    Auto,
    Require,
}

/// A locally exported ONNX model.
#[derive(Debug)]
pub struct CustomModelConfig {
    pub dir: String,
    pub onnx_file: String,
    pub dimensions: usize,
    pub pooling: String,
    pub max_length: usize,
}

/// One pinned file of a managed model.
#[derive(Debug)]
pub struct ManagedFile {
    pub path: String,
    pub size: u64,
    pub sha256: String,
}

/// A model whose files are pinned by hash.
#[derive(Debug)]
pub struct ManagedModel {
    pub name: String,
    pub repo: String,
    pub revision: String,
    pub cache_id: String,
    pub onnx_file: String,
    pub dimensions: usize,
    pub pooling: String,
    pub max_length: usize,
    pub query_prefix: String,
    pub document_prefix: String,
    pub files: Vec<ManagedFile>,
}

/// The configuration of an embedding model and of the work it is given.
#[derive(Debug)]
pub struct EmbeddingConfig {
    pub backend: String,
    pub model: String,
    pub custom: Option<CustomModelConfig>,
    pub cache_dir: Option<String>,
    pub quantized: bool,
    pub normalize: bool,
    pub execution_provider: String,
    pub provider_mode: ProviderMode,
    pub batch_size: usize,
    pub max_batch_chars: usize,
    pub max_batch_token_area: usize,
    pub pending_page_size: usize,
    pub max_body_chars: usize,
}

} // verus!
