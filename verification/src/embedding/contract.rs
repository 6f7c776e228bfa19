//! What an embedding model promises.
use crate::text::same;
use crate::text_map::TextMap;
use vstd::prelude::*;
use vstd::string::*;

verus! {

/// How token states become one vector.
#[derive(Debug, Clone, Copy, PartialEq, Eq, Structural)]
pub enum Pooling {
    Mean,
    Cls,
    LastToken,
    /// The model itself gives the vector.
    ModelDefined,
}

impl Pooling {
    /// The name of the pooling.
    pub open spec fn token(self) -> Seq<char> {
        match self {
            Pooling::Mean => "mean"@,
            Pooling::Cls => "cls"@,
            Pooling::LastToken => "last_token"@,
            Pooling::ModelDefined => "model_defined"@,
        }
    }

    pub fn as_str(self) -> (r: &'static str)
        ensures
            r@ == self.token(),
    {
        match self {
            Pooling::Mean => "mean",
            Pooling::Cls => "cls",
            Pooling::LastToken => "last_token",
            Pooling::ModelDefined => "model_defined",
        }
    }

    /// The pooling that has the name, if one has.
    pub fn parse(name: &str) -> (r: Option<Pooling>)
        ensures
            match r {
                Some(pooling) => pooling.token() == name@,
                None => forall|pooling: Pooling| #[trigger] pooling.token() != name@,
            },
    {
        if same(name, "mean") {
            Some(Pooling::Mean)
        } else if same(name, "cls") {
            Some(Pooling::Cls)
        } else if same(name, "last_token") {
            Some(Pooling::LastToken)
        } else if same(name, "model_defined") {
            Some(Pooling::ModelDefined)
        } else {
            assert forall|pooling: Pooling| #[trigger] pooling.token() != name@ by {
                match pooling {
                    Pooling::Mean => {},
                    Pooling::Cls => {},
                    Pooling::LastToken => {},
                    Pooling::ModelDefined => {},
                }
            }
            None
        }
    }
}

/// The prompts of one task profile.
#[derive(Debug, Clone)]
pub struct PairedPrompts {
    pub query: String,
    pub document: String,
}

/// How a model wants its inputs rendered.
#[derive(Debug, Clone)]
pub enum PromptContract {
    /// Both sides are embedded verbatim.
    Symmetric,
    /// Queries are put into a template together with an instruction.
    QueryInstruction { query_template: String, default_instruction: Option<String> },
    /// Each side has a fixed prefix.
    RolePrefixes { query: String, document: String },
    /// Each side has a prefix per task profile.
    PairedTask { tasks: TextMap<PairedPrompts> },
}

/// A query-side task.
#[derive(Debug, Clone)]
pub struct EmbeddingTask {
    pub id: String,
    pub instruction: String,
}

impl EmbeddingTask {
    pub fn new(id: &str, instruction: &str) -> (r: Self)
        ensures
            r.id@ == id@,
            r.instruction@ == instruction@,
    {
        Self { id: id.to_owned(), instruction: instruction.to_owned() }
    }
}

/// The semantic identity of a model. Two models with the same contract give
/// comparable vectors.
#[derive(Debug, Clone)]
pub struct ModelContract {
    pub model: String,
    pub revision: Option<String>,
    pub model_hash: Option<String>,
    pub tokenizer_hash: Option<String>,
    pub pooling: Pooling,
    pub normalize: bool,
    pub native_dimensions: usize,
    pub max_sequence_length: usize,
    pub prompts: PromptContract,
    pub quantization: Option<String>,
}

/// Where and by what a model is executed. Never compared.
#[derive(Debug, Clone)]
pub struct ExecutionInfo {
    pub backend: String,
    pub backend_version: String,
    pub runtime_version: Option<String>,
    pub execution_provider: String,
    pub cache_path: Option<String>,
}

} // verus!
