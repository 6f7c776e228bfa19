use codeindex::embedding::backend::{
    accelerator_diagnostics, companion_files, compatible_tensor_names, input_ids, judgement_ids,
    judgement_text, output_projection, resolved_backend, route_backend, select_device,
    supports_architectures, BackendRoute, BackendSupport, CandleDevice, DeviceError, Execution,
    Projection, RouteError,
};
use codeindex::embedding::catalog::{
    cache_candidates, catalog_contract, catalog_model, check_download, custom_artifact_hashes,
    custom_contract, default_cache_dir, effective_provider, managed_contract, managed_file_ok,
    managed_file_url, managed_model_dir, parse_supported_pooling, plan_model, prefix_prompts,
    resolve_cache_dir, resolve_providers, CatalogModel, CatalogPlan, CatalogRefusal,
    ProviderChoice, ProviderResolution, TokenizerFiles,
};
use codeindex::embedding::config::{
    CustomModelConfig, EmbeddingConfig, ManagedFile, ManagedModel, ProviderMode,
};
use codeindex::embedding::contract::{ModelContract, Pooling, PromptContract};
use codeindex::embedding::hash::{token_counts, HashEmbedder};
use codeindex::embedding::locked::{locked_versions, reported_version};
use codeindex::embedding::messages::{
    backend_message, catalog_message, device_message, fallback_message, no_backend_message,
    pooling_message, provider_message, required_message, width_message,
};
use codeindex::embedding::render::EmbedRequest;
use codeindex::embedding::resolve::{ModelRef, RefError, ResolvedModel};

fn config(model: &str) -> EmbeddingConfig {
    EmbeddingConfig {
        backend: "fastembed".into(),
        model: model.into(),
        custom: None,
        cache_dir: None,
        quantized: false,
        normalize: true,
        execution_provider: "cpu".into(),
        provider_mode: ProviderMode::Auto,
        batch_size: 32,
        max_batch_chars: 1000,
        max_batch_token_area: 1000,
        pending_page_size: 100,
        max_body_chars: 1000,
    }
}

fn custom() -> CustomModelConfig {
    CustomModelConfig {
        dir: "/m".into(),
        onnx_file: "onnx/model.onnx".into(),
        dimensions: 768,
        pooling: "mean".into(),
        max_length: 2048,
    }
}

fn managed() -> ManagedModel {
    ManagedModel {
        name: "CodeRankEmbed".into(),
        repo: "org/repo".into(),
        revision: "r1".into(),
        cache_id: "code-rank".into(),
        onnx_file: "onnx/model.onnx".into(),
        dimensions: 768,
        pooling: "cls".into(),
        max_length: 512,
        query_prefix: "q: ".into(),
        document_prefix: "".into(),
        files: vec![ManagedFile { path: "a.json".into(), size: 3, sha256: "abc".into() }],
    }
}

fn files() -> TokenizerFiles {
    TokenizerFiles {
        tokenizer: br#"{"tokenizer":true}"#.to_vec(),
        config: br#"{"model_type":"nomic_bert"}"#.to_vec(),
        special_tokens_map: br#"{}"#.to_vec(),
        tokenizer_config: br#"{}"#.to_vec(),
    }
}

#[test]
fn custom_artifact_hashes_track_model_and_tokenizer_bytes() {
    let (tokenizer_hash, model_hash) = custom_artifact_hashes(b"fp32", &files());

    let (same_tokenizer_hash, changed_model_hash) = custom_artifact_hashes(b"int8", &files());
    assert_eq!(same_tokenizer_hash, tokenizer_hash);
    assert_ne!(changed_model_hash, model_hash);

    let mut changed = files();
    changed.tokenizer_config = br#"{"padding_side":"left"}"#.to_vec();
    let (changed_tokenizer_hash, _) = custom_artifact_hashes(b"int8", &changed);
    assert_ne!(changed_tokenizer_hash, tokenizer_hash);
}

#[test]
fn catalog_names_know_their_quantized_form() {
    assert_eq!(catalog_model("BGESmallENV15", false), Some(CatalogModel::BGESmallENV15));
    assert_eq!(catalog_model("BGESmallENV15", true), Some(CatalogModel::BGESmallENV15Q));
    assert_eq!(catalog_model("JinaEmbeddingsV2BaseCode", true), None);
    assert_eq!(catalog_model("unknown", false), None);
}

#[test]
fn plans_and_refusals() {
    let mut named = config("BGESmallENV15");
    assert_eq!(
        plan_model(&named, None).unwrap(),
        CatalogPlan::Catalog(CatalogModel::BGESmallENV15)
    );
    assert_eq!(
        plan_model(&named, Some(&managed())).unwrap(),
        CatalogPlan::Managed(Pooling::Cls)
    );
    named.quantized = true;
    assert_eq!(
        plan_model(&named, Some(&managed())).unwrap_err(),
        CatalogRefusal::QuantizedManaged
    );
    named.custom = Some(custom());
    assert_eq!(plan_model(&named, None).unwrap_err(), CatalogRefusal::QuantizedCustom);
    named.quantized = false;
    assert_eq!(plan_model(&named, None).unwrap(), CatalogPlan::Custom(Pooling::Mean));
    named.custom.as_mut().unwrap().pooling = "last_token".into();
    assert_eq!(plan_model(&named, None).unwrap_err(), CatalogRefusal::UnsupportedPooling);
    let unknown = config("nope");
    assert_eq!(plan_model(&unknown, None).unwrap_err(), CatalogRefusal::UnknownModel);
    assert_eq!(
        catalog_message(CatalogRefusal::UnknownModel, &unknown, "", "", ""),
        "unsupported fastembed model \"nope\" (quantized=false)"
    );
    assert_eq!(
        catalog_message(CatalogRefusal::UnsupportedPooling, &unknown, "", "max", "/m"),
        pooling_message("max", "/m")
    );
    assert_eq!(parse_supported_pooling("cls"), Some(Pooling::Cls));
    assert_eq!(parse_supported_pooling("last_token"), None);
}

#[test]
fn contracts_follow_their_plan() {
    let named = config("BGESmallENV15");
    let catalog = catalog_contract(&named, 384, "code");
    assert_eq!(catalog.model, "BGESmallENV15");
    assert_eq!(catalog.native_dimensions, 384);
    assert_eq!(catalog.revision.as_deref(), Some("code"));
    let own = custom_contract(&named, &custom(), Pooling::Mean, "t".into(), "m".into());
    assert_eq!(own.native_dimensions, 768);
    assert_eq!(own.max_sequence_length, 2048);
    assert_eq!(own.model_hash.as_deref(), Some("m"));
    assert_eq!(own.tokenizer_hash.as_deref(), Some("t"));
    let pinned = managed_contract(&named, &managed(), Pooling::Cls, "t".into(), "m".into());
    assert_eq!(pinned.native_dimensions, 768);
    assert!(matches!(
        pinned.prompts,
        PromptContract::RolePrefixes { query, .. } if query == "q: "
    ));
    assert!(matches!(prefix_prompts("", ""), PromptContract::Symmetric));
}

#[test]
fn accelerators_fall_back_or_are_required() {
    assert_eq!(
        resolve_providers("cpu", ProviderMode::Require, ProviderResolution::NotCompiled).unwrap(),
        ProviderChoice::Cpu
    );
    assert_eq!(
        resolve_providers("cuda", ProviderMode::Auto, ProviderResolution::Ready).unwrap(),
        ProviderChoice::Accelerator
    );
    let fallen =
        resolve_providers("cuda", ProviderMode::Auto, ProviderResolution::Unavailable).unwrap();
    assert_eq!(fallen, ProviderChoice::FallbackToCpu(ProviderResolution::Unavailable));
    assert_eq!(effective_provider("cuda", fallen), "cpu");
    assert_eq!(effective_provider("cuda", ProviderChoice::Accelerator), "cuda");
    let refused =
        resolve_providers("cuda", ProviderMode::Require, ProviderResolution::NotCompiled);
    assert_eq!(refused.unwrap_err(), ProviderResolution::NotCompiled);
    let message = provider_message(ProviderResolution::NotCompiled, "cuda");
    assert_eq!(
        message,
        "execution provider \"cuda\" is not compiled into this binary; rebuild with `cargo build \
         --features cuda` or use the cuda release artifact"
    );
    assert_eq!(fallback_message("m"), "warning: m; falling back to cpu");
    assert_eq!(
        required_message("m"),
        "m — set `embedding.execution_provider: cpu`, or `embedding.provider_mode: auto` to fall \
         back automatically"
    );
}

#[test]
fn managed_files_are_pinned() {
    let model = managed();
    let file = &model.files[0];
    assert!(managed_file_ok(file, 3, "abc"));
    assert!(!managed_file_ok(file, 4, "abc"));
    assert!(!managed_file_ok(file, 3, "abd"));
    assert_eq!(
        managed_file_url(&model, file),
        "https://huggingface.co/org/repo/resolve/r1/a.json"
    );
    assert!(check_download(file, "abc").is_ok());
    assert_eq!(
        check_download(file, "xyz").unwrap_err(),
        "downloaded a.json has hash xyz, expected abc — refusing to use it"
    );
}

#[test]
fn caches_are_found_in_order() {
    assert_eq!(resolve_cache_dir(&Some("/c".into()), &Some("/e".into()), "/d"), "/c");
    assert_eq!(resolve_cache_dir(&None, &Some("/e".into()), "/d"), "/e");
    assert_eq!(resolve_cache_dir(&None, &None, "/d"), "/d");
    let (first, second) = cache_candidates("/base");
    assert_ne!(first, second);
    assert_eq!(default_cache_dir(Some("/base"), true, true), first);
    assert_eq!(default_cache_dir(Some("/base"), false, true), second);
    assert_eq!(default_cache_dir(Some("/base"), false, false), first);
    assert!(managed_model_dir(Some("/base"), "/base/x", &managed()).ends_with("code-rank"));
}

#[test]
fn references_route_to_a_backend() {
    assert!(matches!(
        route_backend(&config("BGESmallENV15")),
        Ok(BackendRoute::Catalog)
    ));
    assert!(matches!(
        route_backend(&config("hf:a/b")),
        Ok(BackendRoute::Resolved(ModelRef::HuggingFace { .. }))
    ));
    let mut other = config("x");
    other.backend = "remote".into();
    assert!(matches!(route_backend(&other), Err(RouteError::UnsupportedBackend)));
    assert_eq!(backend_message("remote"), "unsupported embedding backend \"remote\"");
    assert!(matches!(
        route_backend(&config("")),
        Err(RouteError::Reference(RefError::Empty))
    ));
}

fn resolved(pooling: Pooling, architecture: &str, weights: &str) -> ResolvedModel {
    ResolvedModel {
        contract: ModelContract {
            model: "hf:a/b".into(),
            revision: None,
            model_hash: None,
            tokenizer_hash: None,
            pooling,
            normalize: true,
            native_dimensions: 8,
            max_sequence_length: 16,
            prompts: PromptContract::Symmetric,
            quantization: None,
        },
        local_dir: "/c".into(),
        weight_files: vec![weights.into()],
        architectures: vec![architecture.into()],
    }
}

#[test]
fn weights_decide_who_executes() {
    let both = BackendSupport { candle: true, fastembed: true };
    let none = BackendSupport { candle: false, fastembed: false };
    let qwen = resolved(Pooling::LastToken, "Qwen3Model", "model.safetensors");
    let execution = resolved_backend(&qwen, both);
    assert_eq!(execution, Execution::Candle { weights: 0 });
    assert!(companion_files(execution).contains(&"tokenizer.json"));
    let bert = resolved(Pooling::Mean, "BertModel", "onnx/model.onnx");
    assert_eq!(resolved_backend(&bert, both), Execution::Fastembed { weights: 0 });
    assert_eq!(resolved_backend(&bert, none), Execution::Neither);
    assert_eq!(resolved_backend(&qwen, none), Execution::Neither);
    assert_eq!(
        no_backend_message(&qwen, false, true),
        "model hf:a/b resolved (pooling: last_token, 8 dims, architectures: [Qwen3Model], \
         weights: [model.safetensors]) but no backend in this build can execute it. Last-token \
         safetensors models need the `candle` feature (not enabled); mean/cls ONNX exports need \
         the `fastembed` feature (enabled, but no compatible ONNX artifact was found)."
    );
    assert!(supports_architectures(&vec!["Qwen3ForCausalLM".to_string()]));
    assert!(!supports_architectures(&vec!["BertModel".to_string()]));
    assert!(compatible_tensor_names(&vec!["model.embed_tokens.weight".to_string()]));
    assert!(!compatible_tensor_names(&vec!["layers.0".to_string()]));
}

#[test]
fn output_dimension_projection_truncates_and_renormalizes() {
    // A projected vector is truncated and renormalized over what is left.
    fn apply(vector: &mut Vec<f32>, dimensions: Option<usize>) -> Result<(), usize> {
        if let Projection::Truncate { width } = output_projection(vector.len(), dimensions)? {
            vector.truncate(width);
            let norm = vector.iter().map(|v| (*v as f64) * (*v as f64)).sum::<f64>().sqrt();
            for value in vector.iter_mut() {
                *value = (*value as f64 / norm) as f32;
            }
        }
        Ok(())
    }
    let mut vector = vec![3.0_f32, 4.0, 100.0, -7.0];
    apply(&mut vector, Some(2)).unwrap();
    assert_eq!(vector.len(), 2);
    assert!((vector[0] - 0.6).abs() < 1e-6);
    assert!((vector[1] - 0.8).abs() < 1e-6);

    let mut untouched = vec![1.0_f32, 2.0];
    apply(&mut untouched, None).unwrap();
    assert_eq!(untouched, vec![1.0, 2.0]);

    let mut too_wide = vec![1.0_f32, 2.0];
    assert!(apply(&mut too_wide, Some(3)).is_err());
    assert_eq!(width_message(3, 2), "output_dimensions 3 is outside 1..=2");
}

#[test]
fn devices_must_be_compiled_in() {
    assert_eq!(select_device("cpu", false, false), Ok(CandleDevice::Cpu));
    assert_eq!(select_device("cuda", true, false), Ok(CandleDevice::Cuda));
    assert_eq!(select_device("cuda", false, false), Err(DeviceError::NotCompiled));
    assert_eq!(select_device("metal", false, true), Ok(CandleDevice::Metal));
    assert_eq!(select_device("tpu", true, true), Err(DeviceError::Unknown));
    assert_eq!(
        device_message(DeviceError::NotCompiled, "metal"),
        "execution provider \"metal\" is not compiled into this binary; rebuild with `--features \
         candle-metal`"
    );
    assert_eq!(accelerator_diagnostics().len(), 4);
}

#[test]
fn ids_leave_room_for_the_terminal_token() {
    assert_eq!(input_ids(&vec![1, 2, 3], 3, Some(9)), Some(vec![1, 2, 9]));
    assert_eq!(input_ids(&vec![1, 2, 3], 10, None), Some(vec![1, 2, 3]));
    assert_eq!(input_ids(&vec![], 10, Some(9)), Some(vec![9]));
    assert_eq!(input_ids(&vec![], 10, None), None);
    assert_eq!(input_ids(&vec![1, 2], 0, Some(9)), Some(vec![1, 9]));
}

#[test]
fn judgements_keep_their_frame() {
    let body: Vec<u32> = (0..40).collect();
    let ids = judgement_ids(&vec![100], &body, &vec![200], 22);
    assert_eq!(ids.len(), 22);
    assert_eq!(ids[0], 100);
    assert_eq!(ids[21], 200);
    // At least sixteen tokens of the body stay.
    assert_eq!(judgement_ids(&vec![100], &body, &vec![200], 4).len(), 18);
    assert_eq!(
        judgement_text("i", "q", "d"),
        "<Instruct>: i\n<Query>: q\n<Document>: d"
    );
}

#[test]
fn hashed_tokens_fall_into_buckets() {
    let counts = token_counts("alpha beta alpha", 64);
    assert_eq!(counts.len(), 64);
    assert_eq!(counts.iter().sum::<u64>(), 3);
    assert!(counts.contains(&2));
    // Only letters and digits make up tokens.
    assert_eq!(token_counts("alpha-beta; alpha!", 64), counts);
    assert!(token_counts("-- !", 0).is_empty());
    let embedder = HashEmbedder::new(64);
    assert_eq!(embedder.contract.native_dimensions, 64);
    let inputs = vec!["alpha beta alpha"];
    let rows = embedder.count_inputs(&EmbedRequest::documents(&inputs, None)).unwrap();
    assert_eq!(rows, vec![counts]);
}

#[test]
fn lock_files_name_versions() {
    let lock = "[[package]]\nname = \"a\"\nversion = \"1.0\"\n\n[[package]]\nname = \"b\"\nversion = \"2.0\"\n\n[[package]]\nname = \"a\"\nversion = \"1.1\"\n";
    assert_eq!(locked_versions(lock, "a"), vec!["1.0".to_string(), "1.1".to_string()]);
    assert_eq!(reported_version(&locked_versions(lock, "a")), "1.0+1.1");
    assert_eq!(reported_version(&locked_versions(lock, "b")), "2.0");
    assert_eq!(reported_version(&locked_versions(lock, "c")), "unknown");
}
