use codeindex::embedding::contract::{Pooling, PromptContract};
use codeindex::embedding::messages::{
    changed_message, missing_message, no_repository_message, preflight_message, reference_message,
    resolve_message,
};
use codeindex::embedding::resolve::{
    default_model_root, fetch_file, fetcher_for, finish_preflight, locked_hash, materialize_files,
    model_cache_dir,
    pooling_config_path, preflight_safetensors, prompt_contract, range_header, resolve_model,
    resolve_semantics, verify_or_record, weight_candidates, DeclaredLimit, FetchError,
    FetchSource, HfConfig, ManifestOverride, ModelLockfile, ModelRef,
    ModuleEntry, PoolingConfig, PreflightError, RefError, RepoFetcher, RepoMetadata, ResolveError,
    WeightsPresent, LOCKFILE_NAME,
};
use codeindex::hashing::hex;
use codeindex::text_map::TextMap;
use std::collections::BTreeMap;

struct MapFetcher(BTreeMap<&'static str, Vec<u8>>);

impl RepoFetcher for MapFetcher {
    fn fetch(&self, path: &str) -> Result<Option<Vec<u8>>, String> {
        if path == "broken" {
            return Err("no route".into());
        }
        Ok(self.0.get(path).cloned())
    }
    fn fetch_prefix(&self, path: &str, limit: usize) -> Result<Option<Vec<u8>>, String> {
        Ok(self.0.get(path).map(|bytes| bytes[..bytes.len().min(limit)].to_vec()))
    }
    fn origin(&self) -> String {
        "test://repo".into()
    }
}

fn lockfile() -> ModelLockfile {
    ModelLockfile { origin: "test://repo".into(), files: TextMap::new() }
}

/// What the configuration files of Qwen/Qwen3-Embedding-0.6B hold.
fn qwen3_like_metadata() -> RepoMetadata {
    RepoMetadata {
        config: HfConfig {
            architectures: vec!["Qwen3Model".into()],
            max_position_embeddings: Some(32768),
            hidden_size: Some(1024),
        },
        model_max_length: Some(DeclaredLimit { floor: 32768, ceil: 32768 }),
        modules: Some(vec![
            ModuleEntry {
                path: "".into(),
                module_type: "sentence_transformers.models.Transformer".into(),
            },
            ModuleEntry {
                path: "1_Pooling".into(),
                module_type: "sentence_transformers.models.Pooling".into(),
            },
            ModuleEntry {
                path: "2_Normalize".into(),
                module_type: "sentence_transformers.models.Normalize".into(),
            },
        ]),
        pooling: PoolingConfig {
            word_embedding_dimension: Some(1024),
            pooling_mode_cls_token: false,
            pooling_mode_mean_tokens: false,
            pooling_mode_lasttoken: true,
        },
        query_prompt: Some(
            "Instruct: Given a web search query, retrieve relevant passages that answer the query\nQuery:"
                .into(),
        ),
        document_prompt: Some("".into()),
        manifest: ManifestOverride::default(),
    }
}

fn bert_metadata(max_position_embeddings: Option<usize>, manifest: ManifestOverride) -> RepoMetadata {
    RepoMetadata {
        config: HfConfig {
            architectures: vec!["BertModel".into()],
            max_position_embeddings,
            hidden_size: Some(384),
        },
        model_max_length: None,
        modules: None,
        pooling: PoolingConfig {
            word_embedding_dimension: None,
            pooling_mode_cls_token: false,
            pooling_mode_mean_tokens: false,
            pooling_mode_lasttoken: false,
        },
        query_prompt: None,
        document_prompt: None,
        manifest,
    }
}

#[test]
fn model_ref_grammar() {
    assert_eq!(
        ModelRef::parse("hf:Qwen/Qwen3-Embedding-0.6B").unwrap(),
        ModelRef::HuggingFace { repo: "Qwen/Qwen3-Embedding-0.6B".into(), revision: None }
    );
    assert_eq!(
        ModelRef::parse("Qwen/Qwen3-Embedding-0.6B@abc123").unwrap(),
        ModelRef::HuggingFace {
            repo: "Qwen/Qwen3-Embedding-0.6B".into(),
            revision: Some("abc123".into())
        }
    );
    assert_eq!(
        ModelRef::parse("dir:/models/exported").unwrap(),
        ModelRef::Directory("/models/exported".into())
    );
    assert_eq!(
        ModelRef::parse("fastembed:BGESmallENV15").unwrap(),
        ModelRef::Named("BGESmallENV15".into())
    );
    assert_eq!(
        ModelRef::parse("CodeRankEmbed").unwrap(),
        ModelRef::Named("CodeRankEmbed".into())
    );
    assert!(ModelRef::parse("").is_err());
    assert!(ModelRef::parse("hf:not-a-repo").is_err());
}

#[test]
fn refused_references_say_why() {
    assert_eq!(ModelRef::parse("").unwrap_err(), RefError::Empty);
    assert_eq!(ModelRef::parse("hf:not-a-repo").unwrap_err(), RefError::Malformed);
    assert_eq!(
        reference_message(RefError::Malformed, "hf:not-a-repo"),
        "malformed HuggingFace reference \"hf:not-a-repo\": expected hf:owner/name[@revision]"
    );
    assert!(reference_message(RefError::Empty, "").starts_with("no model configured"));
    assert_eq!(
        no_repository_message("BGE"),
        "model reference \"BGE\" is a backend catalog name and has no repository to resolve"
    );
}

#[test]
fn qwen3_configuration_resolves_to_instruction_contract() {
    let reference = ModelRef::parse("hf:Qwen/Qwen3-Embedding-0.6B").unwrap();
    let mut locked = lockfile();
    verify_or_record(&mut locked, "tokenizer.json", br#"{"fake":"tokenizer"}"#).unwrap();
    let metadata = qwen3_like_metadata();
    assert_eq!(
        pooling_config_path(metadata.modules.as_ref().unwrap()).as_deref(),
        Some("1_Pooling/config.json")
    );
    let present = WeightsPresent { safetensors: true, onnx_below: false, onnx: false };
    let resolved = resolve_model(&reference, metadata, present, &locked, "/cache").unwrap();

    let contract = &resolved.contract;
    assert_eq!(contract.model, "hf:Qwen/Qwen3-Embedding-0.6B");
    assert_eq!(contract.pooling, Pooling::LastToken);
    assert!(contract.normalize);
    assert_eq!(contract.native_dimensions, 1024);
    assert_eq!(contract.max_sequence_length, 32768);
    match &contract.prompts {
        PromptContract::QueryInstruction { query_template, default_instruction } => {
            assert_eq!(query_template, "Instruct: {instruction}\nQuery:{query}");
            assert_eq!(
                default_instruction.as_deref(),
                Some(
                    "Given a web search query, retrieve relevant passages that answer the \
                     query"
                )
            );
        }
        other => panic!("expected QueryInstruction, got {other:?}"),
    }
    assert_eq!(resolved.weight_files, vec!["model.safetensors".to_string()]);
    assert!(contract.tokenizer_hash.is_some());
}

#[test]
fn lockfile_detects_upstream_changes() {
    let mut locked = lockfile();
    let upstream = MapFetcher(BTreeMap::from([(
        "config.json",
        br#"{"architectures":["Qwen3Model"]}"#.to_vec(),
    )]));
    fetch_file(&upstream, None, &mut locked, "config.json").unwrap();

    // Same content is accepted again.
    let again = fetch_file(
        &upstream,
        Some(br#"{"architectures":["Qwen3Model"]}"#.to_vec()),
        &mut locked,
        "config.json",
    );
    assert!(!again.unwrap().unwrap().fresh);

    // Upstream changing under the lock is rejected.
    let tampered = MapFetcher(BTreeMap::from([(
        "config.json",
        br#"{"architectures":["Evil"],"hidden_size":8}"#.to_vec(),
    )]));
    match fetch_file(&tampered, None, &mut locked, "config.json") {
        Err(FetchError::Changed(mismatch)) => {
            let error = changed_message(&mismatch, "config.json", "test://repo");
            assert!(error.contains("no longer matches the locked hash"), "{error}");
            assert!(error.contains(LOCKFILE_NAME), "{error}");
            assert_ne!(mismatch.locked, mismatch.found);
        }
        other => panic!("expected a changed file, got {other:?}"),
    }
}

#[test]
fn missing_pooling_asks_for_manifest_override() {
    let metadata = bert_metadata(None, ManifestOverride::default());
    let error = resolve_semantics(&metadata).unwrap_err();
    assert_eq!(error, ResolveError::NoPooling);
    let message = resolve_message(error, "test://repo", "");
    assert!(message.contains("codeindex.toml"), "{message}");
}

#[test]
fn manifest_override_fills_gaps() {
    let manifest = ManifestOverride {
        pooling: Some("mean".into()),
        query_prefix: Some("query: ".into()),
        document_prefix: Some("passage: ".into()),
        ..ManifestOverride::default()
    };
    let metadata = bert_metadata(Some(512), manifest);
    let semantics = resolve_semantics(&metadata).unwrap();
    assert_eq!(semantics.pooling, Pooling::Mean);
    assert_eq!(semantics.native_dimensions, 384);
    match &semantics.prompts {
        PromptContract::RolePrefixes { query, document } => {
            assert_eq!(query, "query: ");
            assert_eq!(document, "passage: ");
        }
        other => panic!("expected RolePrefixes, got {other:?}"),
    }
}

#[test]
fn every_gap_has_its_error() {
    let with = |pooling: Option<&str>| ManifestOverride {
        pooling: pooling.map(|name| name.into()),
        ..ManifestOverride::default()
    };
    assert_eq!(
        resolve_semantics(&bert_metadata(Some(512), with(Some("median")))).unwrap_err(),
        ResolveError::UnknownPooling
    );
    let mut no_width = bert_metadata(Some(512), with(Some("cls")));
    no_width.config.hidden_size = None;
    assert_eq!(resolve_semantics(&no_width).unwrap_err(), ResolveError::NoDimensions);
    assert_eq!(
        resolve_semantics(&bert_metadata(None, with(Some("cls")))).unwrap_err(),
        ResolveError::NoSequenceLength
    );
    let reference = ModelRef::parse("hf:a/b").unwrap();
    let mut nameless = qwen3_like_metadata();
    nameless.config.architectures = Vec::new();
    assert!(resolve_semantics(&nameless).is_ok());
    let none = WeightsPresent { safetensors: false, onnx_below: false, onnx: false };
    let refused = resolve_model(&reference, nameless, none, &lockfile(), "/c");
    assert_eq!(refused.unwrap_err(), ResolveError::NoArchitecture);
    let refused = resolve_model(
        &reference,
        bert_metadata(None, ManifestOverride::default()),
        none,
        &lockfile(),
        "/c",
    );
    assert_eq!(refused.unwrap_err(), ResolveError::NoPooling);
    let both = WeightsPresent { safetensors: false, onnx_below: true, onnx: true };
    assert_eq!(both.files(), vec!["onnx/model.onnx".to_string(), "model.onnx".to_string()]);
    assert_eq!(
        resolve_message(ResolveError::UnknownPooling, "o", "median"),
        "unknown pooling override \"median\""
    );
}

#[test]
fn absurd_limits_count_as_unset() {
    let mut metadata = qwen3_like_metadata();
    metadata.model_max_length = Some(DeclaredLimit { floor: u64::MAX, ceil: u64::MAX });
    metadata.config.max_position_embeddings = Some(4096);
    assert_eq!(resolve_semantics(&metadata).unwrap().max_sequence_length, 4096);
    // The smaller of two declared limits counts.
    metadata.model_max_length = Some(DeclaredLimit { floor: 512, ceil: 512 });
    assert_eq!(resolve_semantics(&metadata).unwrap().max_sequence_length, 512);
}

#[test]
fn prompts_without_instruction_are_prefixes() {
    let mut metadata = qwen3_like_metadata();
    metadata.query_prompt = Some("query: ".into());
    metadata.document_prompt = Some("passage: ".into());
    assert!(matches!(
        prompt_contract(&metadata),
        PromptContract::RolePrefixes { query, document } if query == "query: " && document == "passage: "
    ));
    metadata.query_prompt = None;
    metadata.document_prompt = None;
    assert!(matches!(prompt_contract(&metadata), PromptContract::Symmetric));
}

#[test]
fn locks_record_what_they_have_not_seen() {
    let mut locked = lockfile();
    assert_eq!(locked_hash(&locked, "a"), None);
    verify_or_record(&mut locked, "a", b"abc").unwrap();
    assert_eq!(
        locked_hash(&locked, "a").as_deref(),
        Some("ba7816bf8f01cfea414140de5dae2223b00361a396177a9cb410ff61f20015ad")
    );
    verify_or_record(&mut locked, "a", b"abc").unwrap();
    assert_eq!(verify_or_record(&mut locked, "a", b"abd").unwrap_err().locked.len(), 64);
}

#[test]
fn materializing_needs_every_file() {
    let fetcher = MapFetcher(BTreeMap::from([("a", b"1".to_vec())]));
    let mut locked = lockfile();
    let files = materialize_files(&fetcher, vec![None], &mut locked, &vec!["a"]).unwrap();
    assert!(files[0].fresh);
    assert_eq!(files[0].bytes, b"1".to_vec());
    match materialize_files(&fetcher, vec![None, None], &mut locked, &vec!["a", "b"]) {
        Err(FetchError::Missing(path)) => {
            assert_eq!(path, "b");
            assert_eq!(missing_message("test://repo", &path), "test://repo has no b");
        }
        other => panic!("expected a missing file, got {other:?}"),
    }
    assert!(matches!(
        materialize_files(&fetcher, vec![None], &mut locked, &vec!["broken"]),
        Err(FetchError::Fetch(message)) if message == "no route"
    ));
}

fn safetensors(header: &str) -> Vec<u8> {
    let mut bytes = (header.len() as u64).to_le_bytes().to_vec();
    bytes.extend_from_slice(header.as_bytes());
    bytes
}

#[test]
fn headers_name_the_tensors() {
    let header = r#"{"__metadata__":{"format":"pt"},"b":{"dtype":"BF16","shape":[2],"data_offsets":[8,12]},"a":{"dtype":"F32","shape":[2],"data_offsets":[0,8]}}"#;
    let fetcher = MapFetcher(BTreeMap::from([("w", safetensors(header))]));
    let found = preflight_safetensors(&fetcher, "w").unwrap().unwrap();
    assert_eq!(found.tensor_names, vec!["a".to_string(), "b".to_string()]);
    assert_eq!(found.dtypes, vec!["F32".to_string(), "BF16".to_string()]);
    assert_eq!(found.declared_size, 8 + header.len() as u64 + 12);
    assert!(preflight_safetensors(&fetcher, "absent").unwrap().is_none());
}

#[test]
fn bad_headers_are_refused() {
    let fetcher = MapFetcher(BTreeMap::from([
        ("short", vec![1, 2, 3]),
        ("huge", u64::MAX.to_le_bytes().to_vec()),
        ("cut", {
            let mut bytes = safetensors("{}");
            bytes.pop();
            bytes
        }),
        ("list", safetensors("[]")),
    ]));
    assert!(matches!(preflight_safetensors(&fetcher, "short"), Err(PreflightError::TooShort)));
    assert!(matches!(preflight_safetensors(&fetcher, "huge"), Err(PreflightError::Implausible)));
    assert!(matches!(preflight_safetensors(&fetcher, "cut"), Err(PreflightError::Truncated)));
    assert!(matches!(preflight_safetensors(&fetcher, "list"), Err(PreflightError::NotAnObject)));
    assert_eq!(
        preflight_message(&PreflightError::TooShort, "short", 0),
        "short is too short to be safetensors"
    );
    assert_eq!(
        preflight_message(&PreflightError::Implausible, "huge", 99),
        "huge declares an implausible 99-byte safetensors header"
    );
}

#[test]
fn headers_may_vanish_between_reads() {
    assert!(matches!(finish_preflight(2, Ok(None)), Err(PreflightError::Vanished)));
    assert!(matches!(
        finish_preflight(2, Err("offline".into())),
        Err(PreflightError::Fetch(message)) if message == "offline"
    ));
    let found = finish_preflight(2, Ok(Some(safetensors("{}")))).unwrap().unwrap();
    assert!(found.tensor_names.is_empty());
    assert_eq!(found.declared_size, 10);
    // A size that no number holds is held at the largest.
    let header = format!(r#"{{"a":{{"data_offsets":[0,{}]}}}}"#, u64::MAX);
    let bytes = safetensors(&header);
    let found = finish_preflight(header.len(), Ok(Some(bytes))).unwrap().unwrap();
    assert_eq!(found.declared_size, u64::MAX);
}

#[test]
fn repositories_have_addresses() {
    let reference = ModelRef::parse("hf:a/b@r1").unwrap();
    match fetcher_for(&reference) {
        Some(FetchSource::HuggingFace(fetcher)) => {
            assert_eq!(fetcher.url("x.json"), "https://huggingface.co/a/b/resolve/r1/x.json");
            assert_eq!(fetcher.origin(), "hf:a/b@r1");
        }
        _ => panic!("expected a repository"),
    }
    assert!(fetcher_for(&ModelRef::Named("x".into())).is_none());
    let unpinned = fetcher_for(&ModelRef::parse("hf:a/b").unwrap()).unwrap();
    assert_eq!(unpinned.origin(), "hf:a/b@main");
    let local = fetcher_for(&ModelRef::parse("dir:/models/x").unwrap()).unwrap();
    assert_eq!(local.origin(), "dir:/models/x");
    assert_eq!(range_header(8), "bytes=0-7");
    assert_eq!(weight_candidates()[0], "model.safetensors");
}

#[test]
fn caches_lie_under_the_model_root() {
    let root = default_model_root(Some("/x"), Some("/home/u"));
    assert_eq!(root, "/x/codeindex/models");
    assert_eq!(default_model_root(None, Some("/home/u")), "/home/u/.cache/codeindex/models");
    let first = model_cache_dir(&root, &ModelRef::parse("hf:a/b").unwrap());
    let second = model_cache_dir(&root, &ModelRef::parse("hf:a/b@r1").unwrap());
    assert_eq!(first, "/x/codeindex/models/hf/a--b");
    assert_eq!(second, "/x/codeindex/models/hf/a--b--r1");
    let named = model_cache_dir(&root, &ModelRef::Named("x:y".into()));
    assert_eq!(named, "/x/codeindex/models/named/x-y");
}

#[test]
fn bytes_are_written_in_hexadecimal() {
    assert_eq!(hex(&[0, 15, 255]), "000fff");
}
