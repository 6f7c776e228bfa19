use codeindex::model::{EntityId, EntityVersionId};
use codeindex::query::compress::compress_query;
use codeindex::query::contracts::contract_diff;
use codeindex::query::filter::{ClauseFault, TestsPolicy, WhereFilter};
use codeindex::query::fusion::{reciprocal_rank_fusion, RankedList};
use codeindex::query::rank::{rank_candidates, Score, ScoredIndex};
use codeindex::query::tasks::task_preset;
use codeindex::query::unit::{looks_like_test, unit_id, unit_line};
use codeindex::search::CodeUnitRef;

fn unit(path: &str) -> CodeUnitRef {
    CodeUnitRef {
        id: 1,
        entity_id: EntityId::new("e"),
        entity_version_id: EntityVersionId::new("v"),
        project_label: "main".into(),
        relative_path: path.into(),
        language_id: "rust".into(),
        kind: "function".into(),
        name: "parse".into(),
        scope: Some("Parser".into()),
        start_byte: 10,
        end_byte: 90,
        start_line: 2,
        end_line: 9,
        body_node_count: 20,
        normalized_body_hash: "body".into(),
        display_source: None,
        implementation: None,
    }
}

fn score(value: f32) -> Score {
    Score { bits: value.to_bits() }
}

fn number(score: Score) -> f32 {
    f32::from_bits(score.bits)
}

#[test]
fn selectors_and_filters_are_deterministic() {
    let value = unit("src/parser.rs");
    assert_eq!(unit_id(&value), unit_id(&value));
    assert!(
        WhereFilter::parse(Some("path=src/** scope=Parser min_nodes=10"))
            .unwrap()
            .matches(&value)
    );
    assert!(!WhereFilter::parse(Some("path=tests/**")).unwrap().matches(&value));
}

#[test]
fn test_likeness_and_policy_filtering() {
    let mut test_unit = unit("src/walk.rs");
    test_unit.scope = Some("tests".into());
    let plain = unit("src/walk.rs");
    assert!(looks_like_test(&test_unit));
    assert!(!looks_like_test(&plain));
    let by_path = unit("tests/integration.rs");
    assert!(looks_like_test(&by_path));

    let mut filter = WhereFilter::parse(None).unwrap();
    assert!(filter.matches(&test_unit), "default includes tests");
    filter.set_tests_policy(TestsPolicy::Exclude);
    assert!(!filter.matches(&test_unit));
    assert!(filter.matches(&plain));

    let only = WhereFilter::parse(Some("tests=only")).unwrap();
    assert_eq!(only.tests_policy(), Some(TestsPolicy::Only));
    assert!(only.matches(&test_unit));
    assert!(!only.matches(&plain));
}

#[test]
fn narrative_queries_compress_to_distinctive_terms() {
    let paragraph = "I am building a larger application and want to avoid a global \
                     application object. The pattern I read about creates the application \
                     inside a function so that configuration can be passed in, multiple \
                     instances can exist for testing, and extensions get initialized \
                     against whichever instance is current. Where is that implemented?";
    let compressed = compress_query(paragraph, 16, 25).unwrap();
    assert!(compressed.contains("application"));
    assert!(!compressed.contains("factory"), "no invented terms");
    assert!(!compressed.contains("the "), "stopwords stripped");
    assert!(compressed.split_whitespace().count() <= 16);
    // Compact queries stay untouched.
    assert_eq!(compress_query("parse command line flags", 16, 25), None);
    assert_eq!(
        compress_query(
            "walk the directory tree while respecting gitignore rules",
            16,
            25
        ),
        None
    );
    // No least number of words still refuses no-op compression.
    assert_eq!(compress_query("parse command line flags", 16, 0), None);
}

fn rrf(terms: &Vec<(Score, usize)>) -> Score {
    let mut sum = 0.0_f32;
    for (weight, place) in terms {
        sum += number(*weight) / *place as f32;
    }
    score(sum)
}

#[test]
fn rrf_fuses_ranked_lists_deterministically() {
    let fused = reciprocal_rank_fusion(
        &vec![
            RankedList { source: "dense".into(), weight: score(1.0), indices: vec![7, 3, 9] },
            RankedList { source: "lexical".into(), weight: score(1.0), indices: vec![3, 11] },
        ],
        60,
        &rrf,
    );
    // 3 appears in both lists (ranks 2 and 1) and must win.
    assert_eq!(fused[0].index, 3);
    assert_eq!(fused[0].contributions.len(), 2);
    // 7 (dense#1) beats 11 (lexical#2) and 9 (dense#3).
    assert_eq!(fused[1].index, 7);
    let expected = 1.0 / 62.0 + 1.0 / 61.0;
    assert!((number(fused[0].score) - expected).abs() < 1e-6);
}

#[test]
fn candidate_ranking_is_stable() {
    // The similarities of [0.5, 0.5] and [1.0, 0.0] to [1.0, 0.0].
    let ranked = rank_candidates(
        &vec![
            ScoredIndex { index: 1, score: score(0.5) },
            ScoredIndex { index: 0, score: score(1.0) },
        ],
        score(-1.0),
    );
    assert_eq!(ranked[0].index, 0);
    assert_eq!(ranked[1].index, 1);
}

#[test]
fn ties_and_thresholds() {
    let ranked = rank_candidates(
        &vec![
            ScoredIndex { index: 5, score: score(0.25) },
            ScoredIndex { index: 2, score: score(0.25) },
            ScoredIndex { index: 9, score: score(-0.5) },
            ScoredIndex { index: 4, score: score(0.75) },
        ],
        score(0.0),
    );
    let order: Vec<usize> = ranked.iter().map(|found| found.index).collect();
    assert_eq!(order, vec![4, 2, 5]);
    assert!(score(0.0).at_least(score(-0.0)));
    assert!(!score(f32::NAN).at_least(score(-1.0)));
    assert!(score(1.0).key() < score(2.0).key());
    assert!(score(-2.0).key() < score(-1.0).key());
}

#[test]
fn bad_clauses_say_what_is_wrong() {
    let fault = |text: &str| WhereFilter::parse(Some(text)).unwrap_err().fault;
    assert_eq!(fault("kind"), ClauseFault::Malformed);
    assert_eq!(fault("colour=red"), ClauseFault::UnknownKey);
    assert_eq!(fault("path=["), ClauseFault::InvalidGlob);
    let nested = |depth: usize| format!("path={}a{}", "{".repeat(depth), "}".repeat(depth));
    assert!(WhereFilter::parse(Some(&nested(1000))).is_ok());
    assert_eq!(fault(&nested(1001)), ClauseFault::InvalidGlob);
    assert_eq!(fault("min_nodes=many"), ClauseFault::NotANumber);
    assert_eq!(fault("tests=maybe"), ClauseFault::UnknownPolicy);
    assert_eq!(
        WhereFilter::parse(Some("colour=red")).unwrap_err().message(),
        "unknown --where key \"colour\" (supported: project, language, kind, name, scope, path, \
         min_nodes, tests)"
    );
    assert_eq!(
        WhereFilter::parse(Some("tests=maybe")).unwrap_err().message(),
        "tests wants include|exclude|only, got \"maybe\""
    );
}

#[test]
fn clauses_of_one_key_are_alternatives() {
    let filter = WhereFilter::parse(Some("kind=method kind=function language=rust")).unwrap();
    assert!(filter.matches(&unit("a.rs")));
    assert_eq!(
        filter.clauses().clone(),
        vec![
            "kind=method".to_string(),
            "kind=function".to_string(),
            "language=rust".to_string()
        ]
    );
    let mut other = unit("a.rs");
    other.language_id = "go".into();
    assert!(!filter.matches(&other));
    assert!(WhereFilter::default().matches(&other));
}

#[test]
fn units_have_a_line() {
    let value = unit("src/parser.rs");
    let selector = unit_id(&value);
    assert!(selector.starts_with("unit:"), "{selector}");
    assert_eq!(
        unit_line(&value),
        format!("{selector} main:src/parser.rs:2-9 function parse (Parser)")
    );
}

#[test]
fn changed_contracts_are_named() {
    let pair = |name: &str, value: &str| (name.to_string(), value.to_string());
    let stored = vec![pair("model", "a"), pair("pooling", "mean")];
    assert!(contract_diff(&stored, &stored).is_empty());
    let current = vec![pair("model", "b"), pair("pooling", "mean")];
    assert_eq!(contract_diff(&stored, &current), vec!["model (a -> b)".to_string()]);
    let shorter = vec![pair("model", "a")];
    assert_eq!(
        contract_diff(&stored, &shorter),
        vec!["pooling (mean -> null)".to_string()]
    );
    assert_eq!(
        contract_diff(&shorter, &stored),
        vec!["pooling (null -> mean)".to_string()]
    );
}

#[test]
fn presets_have_instructions() {
    assert_eq!(
        task_preset("code-search"),
        Some("Given a code search query, retrieve relevant code implementations")
    );
    assert_eq!(task_preset("no such task"), None);
}
