use codeindex::cli::{
    check_dense, choose_project, direct_task, enabled_languages, envelope_line, exit_code,
    judged_head, parse_project, parse_space, rerank_order, resume_policy_for, revision_trust_for,
    search_tests, RetentionArgument,
};
use codeindex::config::registry::Registry;
use codeindex::config::settings::ProjectConfig;
use codeindex::daemon::pipeline::Retrieval;
use codeindex::indexer::builder::{IndexOutcome, IndexReport, IndexRunState, IndexRunStatus};
use codeindex::indexer::policy::{ResumePolicy, RevisionTrust};
use codeindex::indexer::settings::RetentionMode;
use codeindex::model::{EntityId, EntityVersionId};
use codeindex::query::fusion::FusedIndex;
use codeindex::query::rank::Score;
use codeindex::search::CodeUnitRef;

#[test]
fn arguments_are_read() {
    let space = parse_space("code=implementation").unwrap();
    assert_eq!((space.id.as_str(), space.channel.as_str()), ("code", "implementation"));
    assert_eq!(
        parse_space("code").unwrap_err(),
        "expected ID=CHANNEL, e.g. code=implementation"
    );
    assert_eq!(
        parse_space("=x").unwrap_err(),
        "space id and channel must both be non-empty"
    );
    let project = parse_project("a=/p=q").unwrap();
    assert_eq!((project.label.as_str(), project.path.as_str()), ("a", "/p=q"));
    assert_eq!(parse_project("a").unwrap_err(), "expected LABEL=PATH");
    assert_eq!(RetentionMode::from(RetentionArgument::Minimal), RetentionMode::Minimal);
}

#[test]
fn lines_are_enveloped() {
    assert_eq!(
        envelope_line("hit", "[1]".into()),
        r#"{"version":1,"event":"hit","data":[1]}"#
    );
    assert_eq!(
        envelope_line("a\"b", "{}".into()),
        r#"{"version":1,"event":"a\"b","data":{}}"#
    );
}

#[test]
fn policies_follow_the_flags() {
    assert_eq!(resume_policy_for(Some(3), true), ResumePolicy::Run(3));
    assert_eq!(resume_policy_for(None, true), ResumePolicy::New);
    assert_eq!(resume_policy_for(None, false), ResumePolicy::Auto);
    assert_eq!(revision_trust_for(true), RevisionTrust::TrustAdvisory);
    assert_eq!(revision_trust_for(false), RevisionTrust::VerifyContent);
    let bundled = vec!["rust".to_string(), "go".to_string()];
    assert_eq!(enabled_languages(&Vec::new(), &bundled), bundled);
    assert_eq!(enabled_languages(&vec!["c".into()], &bundled), vec!["c".to_string()]);
    assert_eq!(search_tests(true, Some("exclude")).as_deref(), Some("include"));
    assert_eq!(search_tests(false, Some("exclude")).as_deref(), Some("exclude"));
    assert_eq!(search_tests(false, None), None);
}

fn paused(reason: Option<&str>) -> IndexOutcome {
    IndexOutcome::Paused(IndexRunStatus {
        run_id: 1,
        state: IndexRunState::Paused,
        scope: Vec::new(),
        config_fingerprint: "f".into(),
        pause_reason: reason.map(|text| text.into()),
        refresh_round: 0,
        documents_ready: 0,
        documents_total: 0,
    })
}

#[test]
fn outcomes_have_exit_codes() {
    let committed = IndexOutcome::Committed(IndexReport {
        run_id: 1,
        generation: 1,
        refresh_rounds: 1,
        reused_documents: 0,
        projects: Vec::new(),
    });
    assert_eq!(exit_code(&committed), 0);
    assert_eq!(exit_code(&paused(Some("user_interrupt"))), 130);
    assert_eq!(exit_code(&paused(Some("source_changed"))), 2);
    assert_eq!(exit_code(&paused(None)), 2);
}

#[test]
fn a_search_chooses_its_project() {
    let mut registry = Registry::default();
    registry.register("/t/a", "a", "/a.db".into());
    assert_eq!(choose_project(&registry, Some("a"), None, "/x").unwrap().label, "a");
    assert_eq!(choose_project(&registry, None, Some("/t/a"), "/x").unwrap().label, "a");
    assert_eq!(
        choose_project(&registry, None, Some("/t/z"), "/x").unwrap_err(),
        "/t/z is not registered; run `codeindex add /t/z`"
    );
    assert!(choose_project(&registry, Some("z"), None, "/t/a").is_err());
    assert!(check_dense(Retrieval::Dense, false).is_err());
    assert!(check_dense(Retrieval::Hybrid, false).is_ok());
    let config = ProjectConfig::default();
    let task = direct_task(&config, Some("code-search"), Some("mine")).unwrap().unwrap();
    assert_eq!(task.id, "code-search");
    assert_eq!(direct_task(&config, None, Some("mine")).unwrap().unwrap().id, "custom");
}

fn hit(index: usize, score: f32) -> FusedIndex {
    FusedIndex { index, score: Score { bits: score.to_bits() }, contributions: Vec::new() }
}

fn unit(implementation: Option<&str>, display: Option<&str>) -> CodeUnitRef {
    CodeUnitRef {
        id: 1,
        entity_id: EntityId::new("e"),
        entity_version_id: EntityVersionId::new("v"),
        project_label: "main".into(),
        relative_path: "lib.rs".into(),
        language_id: "rust".into(),
        kind: "function".into(),
        name: "f".into(),
        scope: None,
        start_byte: 1,
        end_byte: 2,
        start_line: 3,
        end_line: 4,
        body_node_count: 10,
        normalized_body_hash: "h".into(),
        display_source: display.map(|text| text.into()),
        implementation: implementation.map(|text| text.into()),
    }
}

#[test]
fn judged_hits_come_first() {
    let units = vec![unit(Some("one"), None), unit(None, Some("two")), unit(None, None)];
    let hits = vec![hit(2, 0.9), hit(1, 0.8), hit(0, 0.7)];
    let judged = judged_head(&units, &hits, 3);
    assert_eq!(judged, vec![(1, "two".to_string()), (0, "one".to_string())]);
    assert!(judged_head(&units, &hits, 1).is_empty());
    let scores = vec![
        (1usize, Score { bits: 0.1_f32.to_bits() }),
        (0usize, Score { bits: 0.2_f32.to_bits() }),
    ];
    // What was judged stands before what was not, each by its score.
    assert_eq!(rerank_order(&hits, &scores), vec![2, 1, 0]);
}
