use codeindex::config::registry::Registry;
use codeindex::config::settings::{default_db_path, ProjectConfig, TaskConfig};
use codeindex::daemon::frame::{
    content_length, read_frame, step_header, write_frame, FrameFault, HeaderEvent, MAX_FRAME_BYTES,
};
use codeindex::daemon::jobs::{is_fresh, resolve_project, FileStamp, JobBoard};
use codeindex::daemon::pipeline::{
    apply_tests_policy, hybrid_search, job_settings, lexical_positions, paused_text, plan_hybrid,
    shape_results, summary_text, Compress, HybridOptions, HybridOutcome, JobSummary, LexicalHit,
    Retrieval, FULL_WEIGHT, GRAPH_WEIGHT,
};
use codeindex::daemon::protocol::{
    accept_response, malformed_request, respond, SearchParams, DEFAULT_LIMIT,
};
use codeindex::daemon::rules::{
    added_job, check_reindex, choose_space, dispatch, purge_dir, resolve_task, AddedJob, Method,
};
use codeindex::json::Json;
use codeindex::model::{EmbeddingSpaceId, EntityId, EntityVersionId};
use codeindex::path::parent_path;
use codeindex::query::filter::{TestsPolicy, WhereFilter};
use codeindex::query::rank::Score;
use codeindex::query::unit::unit_id;
use codeindex::search::{CodeUnitRef, RelationRecord, SearchIndex};

#[test]
fn frames_round_trip() {
    let mut buffer = write_frame(&br#"{"id":1}"#.to_vec());
    buffer.extend(write_frame(&br#"{"id":2}"#.to_vec()));
    let (first, taken) = read_frame(&buffer).unwrap().unwrap();
    assert_eq!(first, br#"{"id":1}"#);
    let rest = buffer[taken..].to_vec();
    let (second, taken) = read_frame(&rest).unwrap().unwrap();
    assert_eq!(second, br#"{"id":2}"#);
    assert!(read_frame(&rest[taken..].to_vec()).unwrap().is_none());
}

#[test]
fn header_case_is_insensitive_and_garbage_is_rejected() {
    let cursor = b"content-length: 2\r\nX-Other: y\r\n\r\nok".to_vec();
    assert_eq!(read_frame(&cursor).unwrap().unwrap().0, b"ok");
    let bad = b"Content-Type: json\r\n\r\n{}".to_vec();
    assert!(read_frame(&bad).is_err());
    let truncated = b"Content-Length: 5\r\n".to_vec();
    assert!(read_frame(&truncated).is_err());
}

#[test]
fn every_bad_frame_has_its_fault() {
    let fault = |bytes: &[u8]| read_frame(&bytes.to_vec()).unwrap_err();
    assert_eq!(fault(b"Content-Length: 5\r\n"), FrameFault::ClosedMidHeader);
    assert_eq!(fault(b"A: b\r\n\r\n"), FrameFault::MissingLength);
    assert_eq!(fault(b"A: \xff\r\n\r\n"), FrameFault::NonUtf8Header);
    assert_eq!(fault(b"Content-Length: 5\r\n\r\nab"), FrameFault::ClosedMidPayload);
    assert_eq!(fault(&[b'x'; 5000]), FrameFault::OversizedHeader);
    let large = format!("Content-Length: {}\r\n\r\n", MAX_FRAME_BYTES + 1);
    assert_eq!(fault(large.as_bytes()), FrameFault::TooLarge);
}

#[test]
fn headers_are_read_byte_by_byte() {
    let mut header = Vec::new();
    assert_eq!(step_header(&mut header, None), HeaderEvent::End);
    for byte in b"Content-Length: 3\r\n\r" {
        assert_eq!(step_header(&mut header, Some(*byte)), HeaderEvent::More);
    }
    assert_eq!(step_header(&mut header, Some(b'\n')), HeaderEvent::Payload(3));
    assert_eq!(content_length(&b"Content-Length: 3\r\n\r\n".to_vec()), Ok(3));
}

#[test]
fn answers_reach_their_request() {
    let response = respond(4, Ok(Json::Whole(7)));
    assert!(matches!(accept_response(4, response), Ok(Json::Whole(7))));
    let failed = respond(4, Err("broken".into()));
    assert_eq!(accept_response(4, failed).unwrap_err(), "broken");
    let foreign = respond(5, Ok(Json::Null));
    assert!(accept_response(4, foreign).is_err());
    assert!(malformed_request("eof").error.unwrap().contains("eof"));
    assert_eq!(SearchParams::default().limit, 0);
    assert_eq!(DEFAULT_LIMIT, 10);
}

#[test]
fn jobs_run_and_finish() {
    let mut board = JobBoard::new();
    assert!(!board.job_running("a"));
    board.set_job("a", "indexing", "1/2");
    assert!(board.job_running("a"));
    assert_eq!(board.job("a").unwrap().detail, "1/2");
    board.finish_job("a", Some("disk full".into()));
    assert!(!board.job_running("a"));
    assert_eq!(board.job("a").unwrap().error.as_deref(), Some("disk full"));
    board.forget("a");
    assert!(board.job("a").is_none());
}

#[test]
fn projects_are_resolved() {
    let mut registry = Registry::default();
    assert!(resolve_project(&registry, None, None).is_err());
    registry.register("/t/a", "a", "/a.db".into());
    registry.register("/t/b", "b", "/b.db".into());
    assert_eq!(resolve_project(&registry, Some("b"), None).unwrap().label, "b");
    assert_eq!(resolve_project(&registry, None, Some("/t/a/src")).unwrap().label, "a");
    assert!(resolve_project(&registry, Some("c"), None).is_err());
}

#[test]
fn caches_are_fresh_while_nothing_changes() {
    let stamp = |size: u64| FileStamp { path: "p".into(), modified_ns: 1, size };
    assert!(is_fresh(&vec![stamp(1)], &vec![stamp(1)]));
    assert!(!is_fresh(&vec![stamp(1)], &vec![stamp(2)]));
    assert!(!is_fresh(&vec![stamp(1)], &vec![]));
}

#[test]
fn methods_have_names() {
    assert_eq!(dispatch("daemon.ping"), Ok(Method::Ping));
    assert_eq!(dispatch("search"), Ok(Method::Search));
    assert_eq!(dispatch("nope").unwrap_err(), "unknown method \"nope\"");
}

#[test]
fn one_job_at_a_time() {
    assert_eq!(added_job(true, true), AddedJob::AlreadyIndexing);
    assert_eq!(added_job(false, true).as_str(), "reindexing");
    assert_eq!(added_job(false, false), AddedJob::Indexing);
    assert!(check_reindex("a", false).is_ok());
    assert_eq!(check_reindex("a", true).unwrap_err(), "project \"a\" is already indexing");
}

#[test]
fn only_owned_directories_are_purged() {
    let db = default_db_path("/data", "/t/a");
    let dir = purge_dir("/data", "/t/a", &db).unwrap();
    assert_eq!(Some(dir), parent_path(&db));
    assert_eq!(purge_dir("/data", "/t/a", "/t/a/own.db"), None);
    assert_eq!(parent_path("/"), None);
}

#[test]
fn spaces_and_tasks_are_chosen() {
    let stored = vec!["only".to_string()];
    assert_eq!(choose_space(Some("x"), Some("y"), &stored).as_deref(), Some("x"));
    assert_eq!(choose_space(None, Some("y"), &stored).as_deref(), Some("y"));
    assert_eq!(choose_space(None, None, &stored).as_deref(), Some("only"));
    assert_eq!(choose_space(None, None, &vec!["a".into(), "b".into()]), None);

    let mut config = ProjectConfig::default();
    config.tasks.insert("own".into(), TaskConfig { instruction: "do".into() });
    assert_eq!(resolve_task(&config, Some("own"), None).unwrap().unwrap().instruction, "do");
    assert_eq!(resolve_task(&config, Some("own"), Some("x")).unwrap().unwrap().id, "custom");
    assert!(resolve_task(&config, None, None).unwrap().is_none());
    assert!(resolve_task(&config, Some("zzz"), None).unwrap_err().contains("\"zzz\""));
}

fn unit(name: &str) -> CodeUnitRef {
    CodeUnitRef {
        id: 1,
        entity_id: EntityId::new(&format!("e-{name}")),
        entity_version_id: EntityVersionId::new(&format!("v-{name}")),
        project_label: "main".into(),
        relative_path: "lib.rs".into(),
        language_id: "rust".into(),
        kind: "function".into(),
        name: name.into(),
        scope: None,
        start_byte: 1,
        end_byte: 2,
        start_line: 3,
        end_line: 4,
        body_node_count: 10,
        normalized_body_hash: name.into(),
        display_source: None,
        implementation: None,
    }
}

fn index() -> SearchIndex {
    SearchIndex {
        units: vec![unit("a"), unit("b"), unit("c")],
        relations: vec![RelationRecord {
            from_entity_id: EntityId::new("e-b"),
            to_entity_id: Some(EntityId::new("e-c")),
            to_symbol: "c".into(),
            kind: "calls".into(),
            resolution: "exact".into(),
            provenance: "lsp:x".into(),
        }],
        spaces: Vec::new(),
    }
}

fn options(retrieval: Retrieval) -> HybridOptions {
    HybridOptions {
        query: "find it".into(),
        task: None,
        space: Some(EmbeddingSpaceId::new("code")),
        filter: WhereFilter::default(),
        limit: 2,
        retrieval,
        compress: Compress::Auto,
        graph: true,
    }
}

fn rrf(terms: &Vec<(Score, usize)>) -> Score {
    let sum: f32 = terms.iter().map(|(w, place)| f32::from_bits(w.bits) / *place as f32).sum();
    Score { bits: sum.to_bits() }
}

#[test]
fn plans_follow_the_retrieval() {
    let hybrid = plan_hybrid(&options(Retrieval::Hybrid), true).unwrap();
    assert!(hybrid.dense && hybrid.lexical);
    assert_eq!(hybrid.candidates, 50);
    assert_eq!(hybrid.compressed, None);
    assert!(plan_hybrid(&options(Retrieval::Dense), false).is_err());
    let lexical = plan_hybrid(&options(Retrieval::Lexical), false).unwrap();
    assert!(!lexical.dense && lexical.lexical);
    let dense = plan_hybrid(&options(Retrieval::Dense), true).unwrap();
    assert!(dense.dense && !dense.lexical);
    // Without a space only the text index is left.
    for retrieval in [Retrieval::Hybrid, Retrieval::Dense] {
        let spaceless = HybridOptions { space: None, ..options(retrieval) };
        let plan = plan_hybrid(&spaceless, false).unwrap();
        assert!(!plan.dense && plan.lexical);
    }
    assert_eq!(Retrieval::parse("dense"), Ok(Retrieval::Dense));
    assert!(Retrieval::parse("x").is_err());
    assert_eq!(Compress::parse("always"), Ok(Compress::Always));
    assert_eq!(Compress::Off.as_str(), "off");
}

#[test]
fn lists_and_relations_are_fused() {
    let index = index();
    let fused = hybrid_search(
        &index,
        &options(Retrieval::Hybrid),
        vec![1, 0],
        Vec::new(),
        vec![1],
        50,
        &rrf,
    );
    // b stands first in both lists; c is reached from it alone.
    assert_eq!(fused[0].index, 1);
    assert_eq!(fused[1].index, 0);
    assert_eq!(fused[2].index, 2);
    assert_eq!(f32::from_bits(FULL_WEIGHT), 1.0);
    assert_eq!(f32::from_bits(GRAPH_WEIGHT), 0.5);
    let expected: f32 = 1.0 / 61.0 + 1.0 / 61.0;
    assert!((f32::from_bits(fused[0].score.bits) - expected).abs() < 1e-6);

    let outcome = HybridOutcome { fused, compressed_query: None };
    let shaped = shape_results(
        &index,
        &outcome,
        &options(Retrieval::Hybrid),
        &vec![(1, Score { bits: 0.9_f32.to_bits() })],
    );
    assert_eq!(shaped.matched, 3);
    assert_eq!(shaped.hits.len(), 2);
    assert_eq!(shaped.hits[0].name, "b");
    assert_eq!(shaped.hits[0].lines, (3, 4));
    assert_eq!(shaped.hits[0].selector, unit_id(&index.units[1]));
    assert!(shaped.hits[0].rerank_score.is_some());
    assert!(shaped.hits[1].rerank_score.is_none());
    assert_eq!(shaped.space.as_deref(), Some("code"));
}

#[test]
fn lexical_hits_are_found_among_the_units() {
    let hits = vec![
        LexicalHit { project_label: "main".into(), entity_version_id: "v-c".into() },
        LexicalHit { project_label: "main".into(), entity_version_id: "gone".into() },
        LexicalHit { project_label: "main".into(), entity_version_id: "v-a".into() },
    ];
    let units = index().units;
    assert_eq!(lexical_positions(&units, &hits, &WhereFilter::default(), 10), vec![2, 0]);
    assert_eq!(lexical_positions(&units, &hits, &WhereFilter::default(), 1), vec![2]);
}

#[test]
fn tests_are_left_out_unless_asked_for() {
    let mut filter = WhereFilter::default();
    apply_tests_policy(&mut filter, None).unwrap();
    assert_eq!(filter.tests_policy(), Some(TestsPolicy::Exclude));
    let mut explicit = WhereFilter::parse(Some("tests=only")).unwrap();
    apply_tests_policy(&mut explicit, Some("include")).unwrap();
    assert_eq!(explicit.tests_policy(), Some(TestsPolicy::Only));
    let mut bad = WhereFilter::default();
    assert_eq!(
        apply_tests_policy(&mut bad, Some("maybe")).unwrap_err(),
        "unknown tests policy \"maybe\" (include|exclude|only)"
    );
}

#[test]
fn jobs_are_summed_up() {
    let summary = JobSummary { units: 12, embedded_spaces: vec![("code".into(), 5)] };
    assert_eq!(summary_text(&summary), "12 units, code: 5 embedded");
    assert_eq!(paused_text(3, &None), "index run 3 paused: unspecified");
    let bundled = vec!["rust".to_string()];
    assert_eq!(job_settings(&None, &bundled).enabled_languages, bundled);
    assert_eq!(job_settings(&None, &bundled).max_body_chars, 10_000);
}
