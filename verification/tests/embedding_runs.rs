use codeindex::embedding::tokens::TokenStats;
use codeindex::indexer::embed::{
    add_recovered, batch_progress, check_space, default_space_id, merge_stats, sort_longest_first,
    split_page, EmbedStats, PendingText, SpaceMismatch,
};
use codeindex::indexer::embed_run::{
    token_report, EmbedAction, EmbedEvent, EmbedFault, EmbedLimits, EmbedMachine, MeasuredText,
};
use codeindex::indexer::messages::{embed_message, recovery_message, space_message};
use codeindex::indexer::provider::{
    LanguageExtension, LanguageRegistry, MemorySource, SourceProviderCatalog,
};
use codeindex::indexer::recover::{
    collect_recovered, recovery_source, source_matches, RecoveryFault, RecoveryLocation,
};
use codeindex::hashing::{sha256_hex, tagged_hash};
use codeindex::model::{
    EmbeddingSpaceId, EmbeddingSpaceIdentity, EntityKind, ExtractedEntity, LanguageId,
    ModelIdentity, Representation, RepresentationKind, SourceSpan,
};
use codeindex::text_map::TextMap;

fn identity(model: &str) -> ModelIdentity {
    ModelIdentity {
        backend: "hash".into(),
        backend_version: "1".into(),
        runtime_version: None,
        model: model.into(),
        revision: None,
        dimensions: 4,
        tokenizer_hash: None,
        model_hash: None,
        normalize: true,
        execution_provider: "cpu".into(),
        quantization: None,
        cache_path: None,
    }
}

fn limits() -> EmbedLimits {
    EmbedLimits {
        batch_size: 2,
        max_batch_chars: 1000,
        max_batch_token_area: 1_000_000,
        max_sequence_length: 16,
        dimensions: 4,
    }
}

fn row(hash: &str, text: Option<&str>) -> PendingText {
    PendingText { hash: hash.into(), text: text.map(|own| own.into()) }
}

#[test]
fn a_page_is_embedded_in_batches() {
    let mut run = EmbedMachine::new(limits(), 3);
    let page = vec![row("1", Some("a")), row("2", None), row("3", Some("ccc")), row("4", Some("b"))];
    assert_eq!(run.step(EmbedEvent::Page(page)), EmbedAction::Recover);
    assert_eq!(run.step(EmbedEvent::Recovered(vec![None])), EmbedAction::CountTokens);
    assert_eq!(run.stats.unresolved, 1);
    let counts = vec![Some(1), Some(5), Some(2)];
    assert_eq!(
        run.step(EmbedEvent::Counted(counts)),
        EmbedAction::Embed { from: 0, to: 2 }
    );
    // The longest come first.
    assert_eq!(run.items[0].0, "3");
    assert_eq!(run.items[1].0, "4");
    assert!(matches!(run.step(EmbedEvent::Vectors(vec![4, 4])), EmbedAction::Store { .. }));
    assert_eq!(run.step(EmbedEvent::Stored), EmbedAction::Embed { from: 2, to: 3 });
    let progress = batch_progress(&EmbeddingSpaceId::new("code"), &run.stats, 2);
    assert_eq!((progress.embedded, progress.batches, progress.current_batch), (2, 1, 2));
    assert!(matches!(run.step(EmbedEvent::Vectors(vec![4])), EmbedAction::Store { .. }));
    assert_eq!(run.step(EmbedEvent::Stored), EmbedAction::LoadPage);
    assert_eq!(run.after_hash.as_deref(), Some("4"));
    assert_eq!(run.step(EmbedEvent::Page(Vec::new())), EmbedAction::Done);
    assert_eq!(run.stats.embedded, 3);
    assert_eq!(run.stats.batches, 2);
}

#[test]
fn misfits_stop_the_run() {
    let mut run = EmbedMachine::new(limits(), 1);
    run.step(EmbedEvent::Page(vec![row("1", Some("a")), row("2", Some("b"))]));
    run.step(EmbedEvent::Counted(vec![Some(1), Some(1)]));
    assert_eq!(
        run.step(EmbedEvent::Vectors(vec![4])),
        EmbedAction::Fail(EmbedFault::VectorCount { returned: 1, inputs: 2 })
    );
    assert_eq!(
        embed_message(EmbedFault::VectorCount { returned: 1, inputs: 2 }, "m"),
        "embedder returned 1 vectors for 2 inputs"
    );
    assert_eq!(
        embed_message(EmbedFault::Dimensions { returned: 3, expected: 4 }, "m"),
        "model m returned 3 dimensions, expected 4"
    );
    assert_eq!(run.step(EmbedEvent::Stored), EmbedAction::Rejected);
}

#[test]
fn vectors_before_a_misfit_are_kept() {
    let mut run = EmbedMachine::new(limits(), 2);
    run.step(EmbedEvent::Page(vec![row("1", Some("a")), row("2", Some("b"))]));
    run.step(EmbedEvent::Counted(vec![Some(1), Some(1)]));
    assert!(matches!(run.step(EmbedEvent::Vectors(vec![4, 3])), EmbedAction::Store { .. }));
    assert_eq!(
        run.step(EmbedEvent::Stored),
        EmbedAction::Fail(EmbedFault::Dimensions { returned: 3, expected: 4 })
    );
    assert_eq!(run.stats.embedded, 1);
}

#[test]
fn spaces_must_fit_their_model() {
    let id = EmbeddingSpaceId::new("code");
    let mut space =
        EmbeddingSpaceIdentity::new(id, RepresentationKind::Implementation, identity("a"));
    assert!(check_space(&identity("a"), &space).is_ok());
    let other = check_space(&identity("b"), &space).unwrap_err();
    assert_eq!(other, SpaceMismatch::Model);
    assert_eq!(
        space_message(other, &space),
        "embedder identity does not match embedding space code"
    );
    space.input_transform = "summary".into();
    assert_eq!(check_space(&identity("a"), &space).unwrap_err(), SpaceMismatch::InputTransform);
    assert_eq!(
        space_message(SpaceMismatch::InputTransform, &space),
        "embedding space code requests unsupported input transform \"summary\""
    );
    assert_eq!(default_space_id(&RepresentationKind::Body), "default/body");
}

#[test]
fn pages_are_split_and_filled_up() {
    let (mut resolved, missing) = split_page(&vec![row("1", Some("a")), row("2", None)]);
    assert_eq!(missing, vec!["2".to_string()]);
    assert_eq!(add_recovered(&mut resolved, &missing, &vec![Some("b".into())]), 0);
    assert_eq!(resolved.len(), 2);
    assert_eq!(add_recovered(&mut resolved, &missing, &vec![None]), 1);
    let sorted = sort_longest_first(&resolved, &vec![Some(1), None], 100);
    assert_eq!(sorted.len(), 2);
    assert!(source_matches("abc", &sha256_hex("abc")));
    assert!(!source_matches("abd", &sha256_hex("abc")));
    assert_ne!(tagged_hash("x:", "a"), tagged_hash("y:", "a"));
}

fn entity_with(content: &str, hash: &str) -> ExtractedEntity {
    ExtractedEntity {
        language: LanguageId::from("rust"),
        kind: EntityKind::Function,
        name: "f".into(),
        scope: None,
        span: SourceSpan::new(0, 1, 1, 1),
        body_span: None,
        body_node_count: 1,
        source_hash: "s".into(),
        normalized_body_hash: "n".into(),
        representations: vec![Representation::new(RepresentationKind::Body, content, hash)],
    }
}

#[test]
fn recovered_texts_are_the_wanted_ones() {
    let mut recovered = TextMap::new();
    let wanted = vec!["wanted".to_string()];
    let entities =
        vec![entity_with("first", "wanted"), entity_with("x", "y"), entity_with("last", "wanted")];
    collect_recovered(&mut recovered, &entities, &RepresentationKind::Body, &wanted);
    assert_eq!(recovered.get("wanted").map(|text| text.as_str()), Some("last"));
    assert!(recovered.get("y").is_none());
    let other = RepresentationKind::Implementation;
    collect_recovered(&mut recovered, &vec![entity_with("no", "wanted")], &other, &wanted);
    assert_eq!(recovered.get("wanted").map(|text| text.as_str()), Some("last"));
}

#[test]
fn sources_are_recovered_from_the_cache_or_the_provider() {
    let location = |source: &str| RecoveryLocation {
        project_label: "p".into(),
        source_document_id: "a.rs".into(),
        relative_path: "a.rs".into(),
        language_id: "rust".into(),
        source_hash: sha256_hex(source),
    };
    let languages = LanguageRegistry {
        extensions: vec![LanguageExtension { extension: "rs".into(), language_id: "rust".into() }],
    };
    let mut memory = MemorySource::new("memory", languages);
    memory.insert("a.rs", "fn a() {}".into());
    let mut catalog = SourceProviderCatalog::new();
    catalog.insert("p", &memory);
    let wanted = location("fn a() {}");
    let absent: Option<&SourceProviderCatalog<'_, MemorySource>> = None;
    let cached = Some(b"fn a() {}".to_vec());
    assert_eq!(recovery_source(&wanted, cached, absent).unwrap().unwrap(), "fn a() {}");
    assert!(recovery_source(&wanted, None, absent).unwrap().is_none());
    assert_eq!(recovery_source(&wanted, None, Some(&catalog)).unwrap().unwrap(), "fn a() {}");
    let changed = recovery_source(&location("fn b() {}"), None, Some(&catalog)).unwrap_err();
    assert!(matches!(changed, RecoveryFault::HashMismatch));
    assert_eq!(recovery_message(&changed, &wanted), "source cache hash mismatch for a.rs");
    let binary = recovery_source(&wanted, Some(vec![0xff]), absent).unwrap_err();
    assert!(matches!(binary, RecoveryFault::NotUtf8));
    assert_eq!(
        recovery_message(&binary, &wanted),
        format!("cached source {} is not UTF-8", wanted.source_hash)
    );
    let elsewhere = RecoveryLocation { project_label: "q".into(), ..location("fn a() {}") };
    assert!(recovery_source(&elsewhere, None, Some(&catalog)).unwrap().is_none());
}

#[test]
fn stats_add_up() {
    let mut all = EmbedStats::default();
    let mut one = EmbedStats::default();
    one.embedded = 3;
    one.batches = 1;
    let mut tokens = TokenStats::default();
    tokens.record_length(5);
    one.tokens = tokens;
    merge_stats(&mut all, &one);
    merge_stats(&mut all, &one);
    assert_eq!((all.embedded, all.batches, all.tokens.count()), (6, 2, 2));
}

#[test]
fn reports_are_per_language() {
    let text = |language: &str, tokens: Option<usize>| MeasuredText {
        language: language.into(),
        tokens,
    };
    let report = token_report(&vec![
        text("rust", Some(5)),
        text("go", Some(2)),
        text("rust", None),
        text("rust", Some(7)),
    ]);
    assert_eq!(report.len(), 2);
    assert_eq!(report[0].language, "go");
    assert_eq!(report[1].language, "rust");
    assert_eq!(report[1].stats.count(), 2);
    assert_eq!(report[1].stats.max(), 7);
}
