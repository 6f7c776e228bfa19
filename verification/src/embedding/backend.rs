//! Which backend executes a model.
use crate::embedding::config::EmbeddingConfig;
use crate::embedding::contract::Pooling;
use crate::embedding::resolve::{reference, ModelRef, RefError, RefView, ResolvedModel};
use crate::text::{ends_with, list_holds, same, trimmed, views};
use vstd::prelude::*;
use vstd::string::*;

verus! {

/// How the configured model is built.
#[derive(Debug)]
pub enum BackendRoute {
    /// By the catalog backend: a custom model, or a catalog or managed name.
    Catalog,
    /// By whichever backend can run what the reference resolves to.
    Resolved(ModelRef),
}

/// Why no backend can be built.
#[derive(Debug, Clone, Copy, PartialEq, Eq, Structural)]
pub enum RouteError {
    UnsupportedBackend,
    Reference(RefError),
}

/// Which way a configured model is built: a custom model and a catalog name by
/// the catalog backend, a repository or directory by resolution.
pub fn route_backend(config: &EmbeddingConfig) -> (r: Result<BackendRoute, RouteError>)
    ensures
        config.backend@ != "fastembed"@ ==> r matches Err(RouteError::UnsupportedBackend),
        config.backend@ == "fastembed"@ && config.custom is Some ==> r matches Ok(
            BackendRoute::Catalog,
        ),
        config.backend@ == "fastembed"@ && config.custom is None ==> match reference(
            config.model@,
        ) {
            None => r matches Err(RouteError::Reference(error)) && (error == RefError::Empty
                <==> trimmed(config.model@).len() == 0),
            Some(RefView::Named(_)) => r matches Ok(BackendRoute::Catalog),
            Some(found) => r matches Ok(BackendRoute::Resolved(reference)) && reference@ == found,
        },
{
    if !same(config.backend.as_str(), "fastembed") {
        return Err(RouteError::UnsupportedBackend);
    }
    if config.custom.is_some() {
        return Ok(BackendRoute::Catalog);
    }
    match ModelRef::parse(config.model.as_str()) {
        Err(error) => Err(RouteError::Reference(error)),
        Ok(ModelRef::Named(_)) => Ok(BackendRoute::Catalog),
        Ok(found) => Ok(BackendRoute::Resolved(found)),
    }
}

/// The first file with the ending, or the number of files.
pub open spec fn file_position(files: Seq<String>, ending: Seq<char>) -> int
    decreases files.len(),
{
    if files.len() == 0 || ending.is_suffix_of(files[0]@) {
        0
    } else {
        1 + file_position(files.drop_first(), ending)
    }
}

fn find_file(files: &Vec<String>, ending: &str) -> (r: Option<usize>)
    ensures
        match r {
            Some(i) => i == file_position(files@, ending@) && i < files@.len(),
            None => file_position(files@, ending@) == files@.len(),
        },
{
    let mut i: usize = 0;
    assert(files@.skip(0) =~= files@);
    while i < files.len()
        invariant
            i <= files@.len(),
            file_position(files@, ending@) == i + file_position(files@.skip(i as int), ending@),
        decreases files@.len() - i,
    {
        if ends_with(files[i].as_str(), ending) {
            return Some(i);
        }
        assert(files@.skip(i as int).drop_first() =~= files@.skip(i + 1));
        i += 1;
    }
    None
}

/// The backends that this build has.
#[derive(Debug, Clone, Copy, PartialEq, Eq, Structural)]
pub struct BackendSupport {
    pub candle: bool,
    pub fastembed: bool,
}

/// The backend that executes a resolved model, with its weight file's position
/// among the weight files.
#[derive(Debug, Clone, Copy, PartialEq, Eq, Structural)]
pub enum Execution {
    Candle { weights: usize },
    Fastembed { weights: usize },
    Neither,
}

/// Any of the architectures is one that the candle backend implements.
pub open spec fn supported(architectures: Seq<Seq<char>>) -> bool {
    architectures.contains("Qwen3Model"@) || architectures.contains("Qwen3ForCausalLM"@)
}

/// Whether the resolved model's architecture is one that the candle backend
/// implements.
pub fn supports_architectures(architectures: &Vec<String>) -> (r: bool)
    ensures
        r == supported(views(architectures@)),
{
    list_holds(architectures, "Qwen3Model") || list_holds(architectures, "Qwen3ForCausalLM")
}

/// Whether a safetensors tensor listing looks like an export that the candle
/// backend can load, so that an incompatible artifact is rejected before its
/// download starts.
pub fn compatible_tensor_names(names: &Vec<String>) -> (r: bool)
    ensures
        r == (views(names@).contains("embed_tokens.weight"@) || views(names@).contains(
            "model.embed_tokens.weight"@,
        )),
{
    list_holds(names, "embed_tokens.weight") || list_holds(names, "model.embed_tokens.weight")
}

/// The backend that can execute a model: candle for last-token safetensors
/// models of a supported architecture, else fastembed for mean and class-token
/// ONNX exports.
pub open spec fn execution_for(
    pooling: Pooling,
    architectures: Seq<Seq<char>>,
    weight_files: Seq<String>,
    support: BackendSupport,
) -> Execution {
    let safetensors = file_position(weight_files, ".safetensors"@);
    let onnx = file_position(weight_files, ".onnx"@);
    if support.candle && safetensors < weight_files.len() && pooling == Pooling::LastToken
        && supported(architectures) {
        Execution::Candle { weights: safetensors as usize }
    } else if support.fastembed && onnx < weight_files.len() && (pooling == Pooling::Mean || pooling
        == Pooling::Cls) {
        Execution::Fastembed { weights: onnx as usize }
    } else {
        Execution::Neither
    }
}

/// Picks the backend that executes a resolved model.
pub fn resolved_backend(resolved: &ResolvedModel, support: BackendSupport) -> (r: Execution)
    ensures
        r == execution_for(
            resolved.contract.pooling,
            views(resolved.architectures@),
            resolved.weight_files@,
            support,
        ),
        match r {
            Execution::Candle { weights } => weights < resolved.weight_files@.len(),
            Execution::Fastembed { weights } => weights < resolved.weight_files@.len(),
            Execution::Neither => true,
        },
{
    let pooling = resolved.contract.pooling;
    if support.candle && pooling == Pooling::LastToken && supports_architectures(
        &resolved.architectures,
    ) {
        if let Some(weights) = find_file(&resolved.weight_files, ".safetensors") {
            return Execution::Candle { weights };
        }
    }
    if support.fastembed && (pooling == Pooling::Mean || pooling == Pooling::Cls) {
        if let Some(weights) = find_file(&resolved.weight_files, ".onnx") {
            return Execution::Fastembed { weights };
        }
    }
    Execution::Neither
}

/// The files that a backend needs beside the weights.
pub fn companion_files(execution: Execution) -> (r: Vec<&'static str>)
    ensures
        execution is Candle ==> r@.len() == 2 && r@[0]@ == "tokenizer.json"@ && r@[1]@
            == "config.json"@,
        execution is Fastembed ==> r@.len() == 4 && r@[0]@ == "tokenizer.json"@ && r@[1]@
            == "config.json"@ && r@[2]@ == "special_tokens_map.json"@ && r@[3]@
            == "tokenizer_config.json"@,
        execution is Neither ==> r@.len() == 0,
{
    match execution {
        Execution::Candle { weights: _ } => vec!["tokenizer.json", "config.json"],
        Execution::Fastembed { weights: _ } => vec![
            "tokenizer.json",
            "config.json",
            "special_tokens_map.json",
            "tokenizer_config.json",
        ],
        Execution::Neither => Vec::new(),
    }
}

/// What a space's effective width makes of a vector of `width` entries.
#[derive(Debug, Clone, Copy, PartialEq, Eq, Structural)]
pub enum Projection {
    /// The vector is used as it is.
    Keep,
    /// The leading entries are kept, and the vector is normalized again.
    Truncate { width: usize },
}

/// Decides how a native-width vector is projected to a space's effective width.
/// A width of zero or above the native one is an error.
pub fn output_projection(width: usize, output_dimensions: Option<usize>) -> (r: Result<
    Projection,
    usize,
>)
    ensures
        r == match output_dimensions {
            None => Ok::<Projection, usize>(Projection::Keep),
            Some(dims) => if dims == 0 || dims > width {
                Err(dims)
            } else if dims < width {
                Ok(Projection::Truncate { width: dims })
            } else {
                Ok(Projection::Keep)
            },
        },
{
    match output_dimensions {
        None => Ok(Projection::Keep),
        Some(dims) => if dims == 0 || dims > width {
            Err(dims)
        } else if dims < width {
            Ok(Projection::Truncate { width: dims })
        } else {
            Ok(Projection::Keep)
        },
    }
}

/// One provider's readiness, as reported by `doctor`.
#[derive(Debug)]
pub struct ProviderDiag {
    pub name: &'static str,
    /// This binary was built with the provider.
    pub compiled: bool,
    /// The runtime was built with support for the provider (`None` when not
    /// compiled in, so it cannot be queried).
    pub available: Option<bool>,
    /// The provider can run on this platform at all.
    pub platform_supported: Option<bool>,
}

/// The status of each accelerator provider in a build without accelerators.
pub fn accelerator_diagnostics() -> (r: Vec<ProviderDiag>)
    ensures
        r@.len() == 4,
        r@[0].name@ == "cuda"@,
        r@[1].name@ == "directml"@,
        r@[2].name@ == "coreml"@,
        r@[3].name@ == "openvino"@,
        forall|i: int|
            0 <= i < 4 ==> !(#[trigger] r@[i]).compiled && r@[i].available is None
                && r@[i].platform_supported is None,
{
    let names: Vec<&'static str> = vec!["cuda", "directml", "coreml", "openvino"];
    let mut out: Vec<ProviderDiag> = Vec::new();
    let mut i: usize = 0;
    while i < names.len()
        invariant
            i <= names@.len(),
            out@.len() == i,
            forall|j: int|
                0 <= j < i ==> (#[trigger] out@[j]).name@ == names@[j]@ && !out@[j].compiled
                    && out@[j].available is None && out@[j].platform_supported is None,
        decreases names@.len() - i,
    {
        out.push(
            ProviderDiag {
                name: names[i],
                compiled: false,
                available: None,
                platform_supported: None,
            },
        );
        i += 1;
    }
    out
}

/// The device on which the candle backend runs.
#[derive(Debug, Clone, Copy, PartialEq, Eq, Structural)]
pub enum CandleDevice {
    Cpu,
    Cuda,
    Metal,
}

/// Why a device cannot be had.
#[derive(Debug, Clone, Copy, PartialEq, Eq, Structural)]
pub enum DeviceError {
    /// The device is not compiled into this binary.
    NotCompiled,
    /// The name stands for no device.
    Unknown,
}

/// The device for a configured execution provider.
pub fn select_device(provider: &str, cuda: bool, metal: bool) -> (r: Result<
    CandleDevice,
    DeviceError,
>)
    ensures
        r == if provider@ == "cpu"@ {
            Ok::<CandleDevice, DeviceError>(CandleDevice::Cpu)
        } else if provider@ == "cuda"@ {
            if cuda {
                Ok(CandleDevice::Cuda)
            } else {
                Err(DeviceError::NotCompiled)
            }
        } else if provider@ == "metal"@ {
            if metal {
                Ok(CandleDevice::Metal)
            } else {
                Err(DeviceError::NotCompiled)
            }
        } else {
            Err(DeviceError::Unknown)
        },
{
    if same(provider, "cpu") {
        Ok(CandleDevice::Cpu)
    } else if same(provider, "cuda") {
        if cuda {
            Ok(CandleDevice::Cuda)
        } else {
            Err(DeviceError::NotCompiled)
        }
    } else if same(provider, "metal") {
        if metal {
            Ok(CandleDevice::Metal)
        } else {
            Err(DeviceError::NotCompiled)
        }
    } else {
        Err(DeviceError::Unknown)
    }
}

/// The first `n` tokens, or all of them.
pub open spec fn head(ids: Seq<u32>, n: int) -> Seq<u32> {
    if n < ids.len() {
        ids.take(n)
    } else {
        ids
    }
}

fn push_head(out: &mut Vec<u32>, ids: &Vec<u32>, n: usize)
    ensures
        final(out)@ == old(out)@ + head(ids@, n as int),
{
    let ghost start = out@;
    let count: usize = if n < ids.len() {
        n
    } else {
        ids.len()
    };
    let mut i: usize = 0;
    assert(start + ids@.take(0) =~= start);
    while i < count
        invariant
            i <= count <= ids@.len(),
            out@ == start + ids@.take(i as int),
        decreases count - i,
    {
        assert((start + ids@.take(i as int)).push(ids@[i as int]) =~= start + ids@.take(i + 1));
        out.push(ids[i]);
        i += 1;
    }
    assert(n >= ids@.len() ==> ids@.take(count as int) =~= ids@);
}

/// Token ids for one rendered input: truncated to leave room for the terminal
/// token, whose hidden state is the embedding. Nothing comes back for an input
/// without tokens.
pub fn input_ids(tokens: &Vec<u32>, max_sequence_length: usize, terminal: Option<u32>) -> (r: Option<
    Vec<u32>,
>)
    ensures
        ({
            let budget = if max_sequence_length >= 2 {
                max_sequence_length - 1
            } else {
                1
            };
            let ids = match terminal {
                Some(id) => head(tokens@, budget).push(id),
                None => head(tokens@, budget),
            };
            match r {
                Some(out) => out@ == ids && ids.len() > 0,
                None => ids.len() == 0,
            }
        }),
{
    let budget: usize = if max_sequence_length >= 2 {
        max_sequence_length - 1
    } else {
        1
    };
    let mut ids: Vec<u32> = Vec::new();
    push_head(&mut ids, tokens, budget);
    assert(ids@ =~= head(tokens@, budget as int));
    if let Some(id) = terminal {
        ids.push(id);
    }
    if ids.len() == 0 {
        return None;
    }
    Some(ids)
}

/// The token ids of one judgement: the prefix, as much of the body as the budget
/// leaves room for, and the suffix. At least sixteen tokens of the body are kept.
pub fn judgement_ids(prefix: &Vec<u32>, body: &Vec<u32>, suffix: &Vec<u32>, max_tokens: usize) -> (r:
    Vec<u32>)
    ensures
        ({
            let room = max_tokens - (prefix@.len() + suffix@.len());
            let budget = if room >= 16 {
                room
            } else {
                16
            };
            r@ == prefix@ + head(body@, budget) + suffix@
        }),
{
    let budget: usize = if max_tokens >= prefix.len() && max_tokens - prefix.len() >= suffix.len()
        && max_tokens - prefix.len() - suffix.len() >= 16 {
        max_tokens - prefix.len() - suffix.len()
    } else {
        16
    };
    let mut ids: Vec<u32> = Vec::new();
    push_head(&mut ids, prefix, prefix.len());
    assert(ids@ =~= prefix@);
    push_head(&mut ids, body, budget);
    push_head(&mut ids, suffix, suffix.len());
    ids
}

/// The text that is judged.
pub open spec fn judged_text(
    instruction: Seq<char>,
    query: Seq<char>,
    document: Seq<char>,
) -> Seq<char> {
    "<Instruct>: "@ + instruction + "\n<Query>: "@ + query + "\n<Document>: "@ + document
}

/// The text that is judged.
pub fn judgement_text(instruction: &str, query: &str, document: &str) -> (r: String)
    ensures
        r@ == judged_text(instruction@, query@, document@),
{
    let mut out = "<Instruct>: ".to_owned();
    out.append(instruction);
    out.append("\n<Query>: ");
    out.append(query);
    out.append("\n<Document>: ");
    out.append(document);
    out
}

/// A model that pools by its last token runs on the weights that the first safetensors
/// file holds, where its architecture is one that is built in; a model that pools by the
/// mean or the class token runs on the first ONNX file. No model runs on weights that it
/// does not have, nor on a backend that pools otherwise.
pub proof fn models_run_where_they_pool_rightly(
    pooling: Pooling,
    architectures: Seq<Seq<char>>,
    weight_files: Seq<String>,
    support: BackendSupport,
)
    requires
        weight_files.len() <= usize::MAX,
    ensures
        match execution_for(pooling, architectures, weight_files, support) {
            Execution::Candle { weights } => {
                &&& support.candle && pooling == Pooling::LastToken
                &&& weights < weight_files.len()
                &&& ".safetensors"@.is_suffix_of(weight_files[weights as int]@)
                &&& forall|i: int|
                    0 <= i < weights ==> !".safetensors"@.is_suffix_of((#[trigger] weight_files[i])@)
                &&& architectures.contains("Qwen3Model"@) || architectures.contains(
                    "Qwen3ForCausalLM"@,
                )
            },
            Execution::Fastembed { weights } => {
                &&& support.fastembed && (pooling == Pooling::Mean || pooling == Pooling::Cls)
                &&& weights < weight_files.len()
                &&& ".onnx"@.is_suffix_of(weight_files[weights as int]@)
                &&& forall|i: int|
                    0 <= i < weights ==> !".onnx"@.is_suffix_of((#[trigger] weight_files[i])@)
            },
            Execution::Neither => {
                &&& support.fastembed && (pooling == Pooling::Mean || pooling == Pooling::Cls)
                    ==> forall|i: int|
                    0 <= i < weight_files.len() ==> !".onnx"@.is_suffix_of(
                        (#[trigger] weight_files[i])@,
                    )
                &&& support.candle && pooling == Pooling::LastToken && (architectures.contains(
                    "Qwen3Model"@,
                ) || architectures.contains("Qwen3ForCausalLM"@)) ==> forall|i: int|
                    0 <= i < weight_files.len() ==> !".safetensors"@.is_suffix_of(
                        (#[trigger] weight_files[i])@,
                    )
            },
        },
{
    the_first_file_is_found(weight_files, ".safetensors"@);
    the_first_file_is_found(weight_files, ".onnx"@);
}

/// The file that is found is the first that ends as asked for.
pub proof fn the_first_file_is_found(files: Seq<String>, ending: Seq<char>)
    ensures
        0 <= file_position(files, ending) <= files.len(),
        file_position(files, ending) < files.len() ==> ending.is_suffix_of(
            files[file_position(files, ending)]@,
        ),
        forall|i: int|
            0 <= i < file_position(files, ending) ==> !ending.is_suffix_of((#[trigger] files[i])@),
    decreases files.len(),
{
    if files.len() > 0 && !ending.is_suffix_of(files[0]@) {
        let rest = files.drop_first();
        the_first_file_is_found(rest, ending);
        assert forall|i: int| 0 <= i < file_position(files, ending) implies !ending.is_suffix_of(
            (#[trigger] files[i])@,
        ) by {
            if i > 0 {
                assert(rest[i - 1] == files[i]);
            }
        }
    }
}

/// A vector is cut only to a width that it has, and left alone where none is asked for or it
/// has that width.
pub proof fn vectors_are_cut_to_what_they_have(
    width: usize,
    output_dimensions: Option<usize>,
    r: Result<Projection, usize>,
)
    requires
        call_ensures(output_projection, (width, output_dimensions), r),
    ensures
        output_dimensions is None ==> r == Ok::<Projection, usize>(Projection::Keep),
        output_dimensions matches Some(dims) ==> (r is Err <==> dims == 0 || dims > width) && (
        0 < dims < width ==> r == Ok::<Projection, usize>(Projection::Truncate { width: dims })) && (
        dims == width && dims > 0 ==> r == Ok::<Projection, usize>(Projection::Keep)),
{
}

/// A device is used only where it was built in, and the processor always is.
pub proof fn devices_are_built_in(
    provider: &str,
    cuda: bool,
    metal: bool,
    r: Result<CandleDevice, DeviceError>,
)
    requires
        call_ensures(select_device, (provider, cuda, metal), r),
    ensures
        provider@ == "cpu"@ ==> r == Ok::<CandleDevice, DeviceError>(CandleDevice::Cpu),
        r == Ok::<CandleDevice, DeviceError>(CandleDevice::Cuda) ==> cuda && provider@ == "cuda"@,
        r == Ok::<CandleDevice, DeviceError>(CandleDevice::Metal) ==> metal && provider@
            == "metal"@,
        r == Err::<CandleDevice, DeviceError>(DeviceError::Unknown) ==> provider@ != "cpu"@
            && provider@ != "cuda"@ && provider@ != "metal"@,
        r == Ok::<CandleDevice, DeviceError>(CandleDevice::Cpu) ==> provider@ == "cpu"@,
{
}

/// What is judged is told in order: what is asked, the query, and the document at the end.
pub proof fn a_judgement_is_asked_in_order(
    instruction: Seq<char>,
    query: Seq<char>,
    document: Seq<char>,
)
    ensures
        ({
            let text = judged_text(instruction, query, document);
            &&& ("<Instruct>: "@ + instruction).is_prefix_of(text)
            &&& crate::text::has(text, "<Query>: "@ + query)
            &&& ("<Document>: "@ + document).is_suffix_of(text)
        }),
{
    let text = judged_text(instruction, query, document);
    reveal_strlit("\n<Query>: ");
    reveal_strlit("<Query>: ");
    reveal_strlit("\n<Document>: ");
    reveal_strlit("<Document>: ");
    assert("\n<Query>: "@ =~= seq!['\n'] + "<Query>: "@);
    assert("\n<Document>: "@ =~= seq!['\n'] + "<Document>: "@);
    let first = "<Instruct>: "@ + instruction;
    let asked = "<Query>: "@ + query;
    let last = "<Document>: "@ + document;
    assert(text =~= (first + seq!['\n']) + asked + (seq!['\n'] + last));
    crate::text::a_text_is_in_what_surrounds_it(first + seq!['\n'], asked, seq!['\n'] + last);
    assert(text.subrange(0, first.len() as int) =~= first);
    assert(text.subrange(text.len() - last.len(), text.len() as int) =~= last);
}

/// Only the backend that is there is asked for, and a custom model needs no reference; a
/// catalog's name goes to the catalog, and any other reference is resolved.
pub proof fn references_are_routed(config: EmbeddingConfig, r: Result<BackendRoute, RouteError>)
    requires
        call_ensures(route_backend, (&config,), r),
    ensures
        r is Ok ==> config.backend@ == "fastembed"@,
        config.backend@ == "fastembed"@ && config.custom is Some ==> r is Ok && r->Ok_0 is Catalog,
        r is Ok && r->Ok_0 is Resolved ==> config.custom is None && reference(config.model@) == Some(
            r->Ok_0->Resolved_0@,
        ) && !(r->Ok_0->Resolved_0@ is Named),
{
}

} // verus!
