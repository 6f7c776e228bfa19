use codeindex::hashing::sha256_hex;
use codeindex::indexer::builder::{
    accept_stored_run, check_run, failure_to_store, run_entry, run_request, select_projects,
    validate_immutable_settings, IndexRunBuilder, IndexRunState, IndexRunStatus, ResumeRefusal,
    RunEntry, RunRefusal, RunRequest, SettingsConflict,
};
use codeindex::indexer::entities::{check_spans, complete_representations};
use codeindex::indexer::identity::{assign_identity, apply_retention, CodeUnit};
use codeindex::indexer::manifest::{
    action_for, DocumentAction, DocumentState, FileRecord, StagedDocument,
};
use codeindex::indexer::messages::{
    document_message, locator_message, refusal_message, resume_message, run_message,
    setting_message,
};
use codeindex::indexer::owner::{owner_token, token_of};
use codeindex::indexer::policy::{
    RefreshMode, RefreshPolicy, ResumePolicy, RetryBackoff, RetryPolicy, RevisionTrust,
};
use codeindex::indexer::provider::{
    stable_outcome, validate_documents, DocumentFault, FileSystemSource, LanguageExtension,
    LanguageRegistry, MemorySource, SourceDocument, SourceProject, SourceProvider,
    SourceProviderCatalog, SourceRevision, StableRead,
};
use codeindex::indexer::run::{PauseReason, RunAction, RunEvent, RunFault, RunMachine};
use codeindex::indexer::settings::{IndexSettings, RetentionMode};
use codeindex::indexer::stage::{innermost_unit, attribute_references, RawReference};
use codeindex::model::{
    EntityId, EntityKind, ExtractedEntity, LanguageId, Representation, RepresentationKind,
    SourceSpan,
};
use codeindex::names::find_declared_name;

fn languages() -> LanguageRegistry {
    LanguageRegistry {
        extensions: vec![LanguageExtension { extension: "rs".into(), language_id: "rust".into() }],
    }
}

fn settings() -> IndexSettings {
    IndexSettings {
        enabled_languages: vec!["rust".into()],
        body_node_count_threshold: 1,
        max_body_chars: 10_000,
        retention: RetentionMode::Full,
    }
}

#[test]
fn memory_source_filters_languages_and_reads_by_stable_id() {
    let mut source = MemorySource::new("memory://test", languages());
    source.insert("src/lib.rs", "fn answer() -> i32 { 42 }".into());
    source.insert("README.md", "ignored".into());
    let enabled = vec!["rust".to_string()];
    let documents = source.documents(&enabled).unwrap();
    assert_eq!(documents.len(), 1);
    assert_eq!(documents[0].id, "src/lib.rs");
    assert!(source.read(&documents[0]).unwrap().contains("answer"));
}

#[test]
fn declared_name_erasure_respects_word_boundaries() {
    // `add` inside the receiver type `adder` must not match; the real
    // declared name after the receiver must.
    assert_eq!(find_declared_name("func (a *adder) add(", "add"), Some(16));
    assert_eq!(find_declared_name("fn addr(", "add"), None);
    assert_eq!(find_declared_name("fn add(", "add"), Some(3));
    assert_eq!(find_declared_name("", "add"), None);
    // An occurrence counts though it overlaps one that does not stand alone.
    assert_eq!(find_declared_name("xa-a-a", "a-a"), Some(3));
    assert_eq!(find_declared_name("xa-a-a", ""), None);
}

#[test]
fn spans_are_cut_between_characters() {
    let source = "fn pi() { \"π\" }";
    let fits = function(source, "pi", "h");
    assert!(check_spans(&fits, source));
    let within = source.find('π').unwrap() + 1;
    let mut split = function(source, "pi", "h");
    split.body_span = Some(SourceSpan::new(within, source.len(), 1, 1));
    assert!(!check_spans(&split, source));
    split.body_span = Some(SourceSpan::new(0, source.len() + 1, 1, 1));
    assert!(!check_spans(&split, source));
    split.body_span = None;
    assert!(check_spans(&split, source));
}

/// One function, as a frontend extracts it.
fn function(source: &str, name: &str, body_hash: &str) -> ExtractedEntity {
    let open = source.find('{').unwrap();
    ExtractedEntity {
        language: LanguageId::from("rust"),
        kind: EntityKind::Function,
        name: name.into(),
        scope: None,
        span: SourceSpan::new(0, source.len(), 1, 1),
        body_span: Some(SourceSpan::new(open, source.len(), 1, 1)),
        body_node_count: 12,
        source_hash: sha256_hex(source),
        normalized_body_hash: body_hash.into(),
        representations: vec![Representation::new(
            RepresentationKind::FullSource,
            source,
            &sha256_hex(source),
        )],
    }
}

fn prior(entity: &ExtractedEntity, id: &EntityId) -> CodeUnit {
    CodeUnit {
        kind: entity.kind.as_str().into(),
        scope: entity.scope.clone(),
        name: entity.name.clone(),
        normalized_body_hash: entity.normalized_body_hash.clone(),
        entity_id: id.clone(),
    }
}

#[test]
fn rename_preserves_entity_identity_through_body_channel() {
    let body = "same body";
    let alpha = function(
        "fn alpha(a: i32, b: i32) -> i32 { let sum = a + b; sum * 2 }",
        "alpha",
        body,
    );
    let before = assign_identity("main", "lib.rs", &Vec::new(), &vec![alpha], 1);
    let alpha = function(
        "fn alpha(a: i32, b: i32) -> i32 { let sum = a + b; sum * 2 }",
        "alpha",
        body,
    );
    let beta = function(
        "fn beta(a: i32, b: i32) -> i32 { let sum = a + b; sum * 2 }",
        "beta",
        body,
    );
    let stored = vec![prior(&alpha, &before[0].entity_id)];
    let after = assign_identity("main", "lib.rs", &stored, &vec![beta], 2);
    assert_eq!(before[0].entity_id, after[0].entity_id);
    assert_ne!(before[0].entity_version_id, after[0].entity_version_id);
}

#[test]
fn ambiguous_bodies_get_new_identities() {
    let known = |name: &str, id: &str| {
        prior(&function(&format!("fn {name}() {{ x }}"), name, "body"), &EntityId::new(id))
    };
    let renamed = || vec![function("fn c() { x }", "c", "body")];
    let one = assign_identity("main", "lib.rs", &vec![known("a", "ent:a")], &renamed(), 2);
    assert_eq!(one[0].entity_id.as_str(), "ent:a");
    // Two known units have the body of the renamed one.
    let stored = vec![known("a", "ent:a"), known("b", "ent:b")];
    let two = assign_identity("main", "lib.rs", &stored, &renamed(), 2);
    assert_ne!(two[0].entity_id.as_str(), "ent:a");
    assert_ne!(two[0].entity_id.as_str(), "ent:b");
    // A unit that kept its name keeps its identity.
    let kept = vec![function("fn b() { y }", "b", "other")];
    let named = assign_identity("main", "lib.rs", &stored, &kept, 2);
    assert_eq!(named[0].entity_id.as_str(), "ent:b");
}

#[test]
fn body_and_name_erased_channels_are_materialized() {
    let source = "fn parse_flags(input: &str) -> usize { input.len() }";
    let mut unit = function(source, "parse_flags", "body");
    complete_representations(source, &mut unit, &|text: &str| text.to_string());
    assert!(unit.representation(&RepresentationKind::Body).is_some());
    assert_eq!(unit.representation_text(&RepresentationKind::Body), Some("{ input.len() }"));
    assert!(
        unit.representation(&RepresentationKind::BodyWithoutDeclaredName)
            .unwrap()
            .content
            .contains("<declared-name>")
    );
}

#[test]
fn retention_drops_texts() {
    let source = "fn f() { x }";
    let mut units = assign_identity(
        "main",
        "lib.rs",
        &Vec::new(),
        &vec![function(source, "f", "body")],
        1,
    );
    apply_retention(&mut units, RetentionMode::Full);
    assert!(units[0].representations.iter().all(|item| item.content.is_some()));
    apply_retention(&mut units, RetentionMode::Minimal);
    assert!(units[0].representations.iter().all(|item| item.content.is_none()));
}

#[test]
fn references_belong_to_the_innermost_unit() {
    let outer = function("fn outer() { fn inner() { call() } }", "outer", "o");
    let mut inner = function("fn inner() { call() }", "inner", "i");
    inner.span = SourceSpan::new(13, 34, 1, 1);
    let units = assign_identity("main", "lib.rs", &Vec::new(), &vec![outer, inner], 1);
    assert_eq!(innermost_unit(&units, 26), Some(1));
    assert_eq!(innermost_unit(&units, 3), Some(0));
    assert_eq!(innermost_unit(&units, 400), None);
    let raw = vec![
        RawReference {
            callee_symbol: "call".into(),
            call_snippet: "call()".into(),
            start_byte: 26,
            start_line: 1,
        },
        RawReference {
            callee_symbol: "far".into(),
            call_snippet: "far()".into(),
            start_byte: 400,
            start_line: 9,
        },
    ];
    let staged = attribute_references(&raw, &units);
    assert_eq!(staged.len(), 1);
    assert_eq!(staged[0].caller_unit_ordinal, 1);
}

/// A journal in memory, for one project.
struct Journal {
    rows: Vec<StagedDocument>,
    live: Vec<FileRecord>,
    opened: usize,
    waits: usize,
}

impl Journal {
    fn new() -> Self {
        Journal { rows: Vec::new(), live: Vec::new(), opened: 0, waits: 0 }
    }

    fn reconcile(&mut self, machine: &RunMachine, project: usize) -> bool {
        let mut changed = false;
        for seen in &machine.refreshes[project].observations {
            let known = self.rows.iter().any(|row| {
                row.source_document_id == seen.source_document_id
                    && row.input_fingerprint.as_deref() == Some(seen.input_fingerprint.as_str())
            });
            if known {
                continue;
            }
            changed = true;
            self.rows.retain(|row| row.source_document_id != seen.source_document_id);
            self.rows.push(StagedDocument {
                project_label: machine.projects[project].label.clone(),
                source_document_id: seen.source_document_id.clone(),
                state: if seen.action == DocumentAction::Upsert {
                    DocumentState::Pending
                } else {
                    DocumentState::Ready
                },
                source_revision_json: Some(seen.source_revision_json.clone()),
                observed_source_hash: Some(seen.observed_source_hash.clone()),
                input_fingerprint: Some(seen.input_fingerprint.clone()),
            });
        }
        changed
    }

    fn set(&mut self, row: &StagedDocument, state: DocumentState) {
        for own in &mut self.rows {
            if own.source_document_id == row.source_document_id {
                own.state = state;
            }
        }
    }

    fn publish(&mut self, machine: &RunMachine) {
        self.live = machine.refreshes[0]
            .documents
            .iter()
            .map(|document| FileRecord {
                source_document_id: document.id.clone(),
                source_revision: document.revision.opaque.clone(),
                relative_path: document.relative_path.clone(),
                language_id: document.language_id.clone(),
                mtime_ns: 0,
                size: 0,
                source_hash: machine
                    .refreshes[0]
                    .observations
                    .iter()
                    .find(|seen| seen.source_document_id == document.id)
                    .unwrap()
                    .observed_source_hash
                    .clone(),
            })
            .collect();
        self.rows.clear();
    }
}

/// Carries a run through; `cancel_after` cancels it once that many documents were
/// opened, `churn` changes a document each time the sources settle.
fn drive(
    machine: &mut RunMachine,
    source: &mut MemorySource,
    journal: &mut Journal,
    cancel_after: Option<usize>,
    churn: bool,
) -> RunAction {
    let mut event = RunEvent::Done;
    for _ in 0..1000 {
        let cancelled = cancel_after.map_or(false, |limit| journal.opened >= limit);
        let action = machine.step(event, cancelled);
        event = match action {
            RunAction::LoadStaged | RunAction::Select => RunEvent::Staged(journal.rows.clone()),
            RunAction::List { .. } => {
                let documents = source.documents(&vec!["rust".to_string()]).unwrap();
                let revisions =
                    documents.iter().map(|document| document.revision.opaque.clone()).collect();
                RunEvent::Listed { documents, revisions, live: clone_live(&journal.live) }
            }
            RunAction::Read { document, .. } => {
                read(source, &machine.current.documents[document])
            }
            RunAction::Open { project, document, .. } => {
                journal.opened += 1;
                read(source, &machine.refreshes[project].documents[document])
            }
            RunAction::Reconcile { project } => {
                RunEvent::Reconciled(journal.reconcile(machine, project))
            }
            RunAction::Checkpoint { position } => {
                journal.set(&machine.pending[position], DocumentState::Ready);
                RunEvent::Done
            }
            RunAction::Publish => {
                journal.publish(machine);
                RunEvent::Done
            }
            RunAction::Settle { .. } => {
                journal.waits += 1;
                if churn {
                    source.insert("a.rs", format!("fn a() {{ {} }}", journal.waits));
                }
                RunEvent::Done
            }
            RunAction::CountRound
            | RunAction::EnterProcessing
            | RunAction::Prepare { .. }
            | RunAction::BackOff { .. }
            | RunAction::ResetPending { .. }
            | RunAction::RetryLater { .. }
            | RunAction::RecordFailure { .. } => RunEvent::Done,
            RunAction::Pause(_) | RunAction::Fail | RunAction::Committed | RunAction::Rejected => {
                return action;
            }
        };
    }
    panic!("the run does not end");
}

fn clone_live(live: &Vec<FileRecord>) -> Vec<FileRecord> {
    live.iter()
        .map(|file| FileRecord {
            source_document_id: file.source_document_id.clone(),
            source_revision: file.source_revision.clone(),
            relative_path: file.relative_path.clone(),
            language_id: file.language_id.clone(),
            mtime_ns: file.mtime_ns,
            size: file.size,
            source_hash: file.source_hash.clone(),
        })
        .collect()
}

fn read(source: &MemorySource, document: &SourceDocument) -> RunEvent {
    match source.stable_read(document) {
        Ok(read) => RunEvent::Read(read),
        Err(message) => RunEvent::NotRead(message),
    }
}

fn machine(source: &MemorySource, journal: &Journal, refresh: RefreshPolicy) -> RunMachine {
    let projects = vec![SourceProject { label: "main".into(), provider: source }];
    let builder = IndexRunBuilder::new(&settings(), &projects).refresh_policy(refresh);
    builder.plan().unwrap();
    builder.machine("config".into(), &journal.rows)
}

#[test]
fn indexes_memory_source_without_filesystem_assumptions() {
    let mut source = MemorySource::new("memory://workspace", languages());
    source.insert(
        "src/lib.rs",
        "fn add(a: i32, b: i32) -> i32 { let value = a + b; value }".into(),
    );
    let mut journal = Journal::new();
    let mut run = machine(&source, &journal, RefreshPolicy::default());
    assert_eq!(drive(&mut run, &mut source, &mut journal, None, false), RunAction::Committed);
    assert_eq!(journal.opened, 1);
    assert_eq!(journal.live[0].source_document_id, "src/lib.rs");
}

#[test]
fn deleting_a_document_removes_its_units_on_reindex() {
    let mut source = MemorySource::new("memory://delete", languages());
    source.insert("a.rs", "fn alpha(a: i32) -> i32 { let x = a + 1; x * 2 }".into());
    source.insert("b.rs", "fn beta(b: i32) -> i32 { let y = b - 1; y * 3 }".into());
    let mut journal = Journal::new();
    let mut run = machine(&source, &journal, RefreshPolicy::default());
    drive(&mut run, &mut source, &mut journal, None, false);
    assert_eq!(journal.live.len(), 2);

    source.remove("b.rs");
    let mut run = machine(&source, &journal, RefreshPolicy::default());
    assert_eq!(drive(&mut run, &mut source, &mut journal, None, false), RunAction::Committed);
    let removed = run.refreshes[0]
        .observations
        .iter()
        .filter(|seen| seen.action == DocumentAction::Delete)
        .count();
    assert_eq!(removed, 1, "the deleted document must be reported");
    assert_eq!(journal.live.len(), 1);
    // The document that stayed the same was not opened again.
    assert_eq!(journal.opened, 2);
}

#[test]
fn cancellation_preserves_ready_documents_and_resume_reuses_them() {
    let mut source = MemorySource::new("memory://cancel", languages());
    source.insert("a.rs", "fn a() { 1 }".into());
    source.insert("b.rs", "fn b() { 2 }".into());
    let mut journal = Journal::new();
    let mut run = machine(&source, &journal, RefreshPolicy::default());
    assert_eq!(
        drive(&mut run, &mut source, &mut journal, Some(1), false),
        RunAction::Pause(PauseReason::UserInterrupt)
    );
    let ready = journal.rows.iter().filter(|row| row.state == DocumentState::Ready).count();
    assert_eq!(ready, 1);
    assert!(journal.live.is_empty());

    let mut run = machine(&source, &journal, RefreshPolicy::default());
    assert_eq!(drive(&mut run, &mut source, &mut journal, None, false), RunAction::Committed);
    // Only the other document had to be opened.
    assert_eq!(journal.opened, 2);
    assert_eq!(journal.live.len(), 2);
}

#[test]
fn changing_sources_pause_a_run_that_is_told_to() {
    let mut source = MemorySource::new("memory://churn", languages());
    source.insert("a.rs", "fn a() { 0 }".into());
    let mut journal = Journal::new();
    let policy = RefreshPolicy { mode: RefreshMode::PauseOnChange, ..RefreshPolicy::default() };
    // A processing pass lies behind the run, and a document has changed since.
    journal.rows.push(StagedDocument {
        project_label: "main".into(),
        source_document_id: "b.rs".into(),
        state: DocumentState::Ready,
        source_revision_json: None,
        observed_source_hash: None,
        input_fingerprint: Some("old".into()),
    });
    let mut run = machine(&source, &journal, policy);
    assert!(run.completed_pass);
    assert_eq!(
        drive(&mut run, &mut source, &mut journal, None, false),
        RunAction::Pause(PauseReason::SourceChanged)
    );
}

#[test]
fn unreadable_lists_stop_the_run() {
    let source = MemorySource::new("memory://x", languages());
    let mut run = machine(&source, &Journal::new(), RefreshPolicy::default());
    assert_eq!(run.step(RunEvent::Done, false), RunAction::LoadStaged);
    assert_eq!(run.step(RunEvent::Done, false), RunAction::Rejected);
    assert_eq!(run.step(RunEvent::Staged(Vec::new()), false), RunAction::List { project: 0 });
    assert_eq!(
        run.step(RunEvent::NotListed("down".into()), false),
        RunAction::Pause(PauseReason::ProviderError)
    );
    assert_eq!(run.error.as_deref(), Some("down"));

    let mut run = machine(&source, &Journal::new(), RefreshPolicy::default());
    run.step(RunEvent::Done, false);
    run.step(RunEvent::Staged(Vec::new()), false);
    let bad = SourceDocument {
        id: "".into(),
        relative_path: "a.rs".into(),
        language_id: "rust".into(),
        revision: SourceRevision::new("1"),
    };
    let event = RunEvent::Listed {
        documents: vec![bad],
        revisions: vec!["1".into()],
        live: Vec::new(),
    };
    assert_eq!(run.step(event, false), RunAction::Fail);
    assert_eq!(
        run_message(run.fault.as_ref().unwrap()),
        "source provider returned an empty document id"
    );
    assert_eq!(
        run_message(&RunFault::UnconfiguredProject("x".into())),
        "run refers to unconfigured project \"x\""
    );
}

fn document(id: &str, path: &str) -> SourceDocument {
    SourceDocument {
        id: id.into(),
        relative_path: path.into(),
        language_id: "rust".into(),
        revision: SourceRevision::new("r"),
    }
}

#[test]
fn document_lists_are_validated() {
    assert!(validate_documents(&vec![document("1", "a"), document("2", "b")]).is_ok());
    let fault = |list: Vec<SourceDocument>| validate_documents(&list).unwrap_err();
    assert_eq!(fault(vec![document("", "a")]), DocumentFault::EmptyId);
    assert_eq!(fault(vec![document("1", "")]), DocumentFault::EmptyPath);
    assert_eq!(
        fault(vec![document("1", "a"), document("1", "b")]),
        DocumentFault::DuplicateId("1".into())
    );
    let path = fault(vec![document("1", "a"), document("2", "a")]);
    assert_eq!(path, DocumentFault::DuplicatePath("a".into()));
    assert_eq!(
        document_message(&path),
        "source provider returned duplicate relative path \"a\""
    );
}

#[test]
fn runs_are_checked_before_they_begin() {
    let labels = |names: &[&str]| names.iter().map(|name| name.to_string()).collect::<Vec<_>>();
    assert!(check_run(&labels(&["a", "b"]), 1).is_ok());
    assert_eq!(check_run(&labels(&[]), 1).unwrap_err(), RunRefusal::NoProjects);
    assert_eq!(check_run(&labels(&[""]), 1).unwrap_err(), RunRefusal::EmptyLabel);
    let twice = check_run(&labels(&["a", "a"]), 1).unwrap_err();
    assert_eq!(twice, RunRefusal::DuplicateLabel("a".into()));
    assert_eq!(refusal_message(&twice), "duplicate source project label \"a\"");
    assert_eq!(check_run(&labels(&["a"]), 0).unwrap_err(), RunRefusal::NoAttempts);
    assert_eq!(select_projects(&labels(&["a", "b"]), Some("b")).unwrap(), vec![1]);
    assert_eq!(select_projects(&labels(&["a", "b"]), None).unwrap(), vec![0, 1]);
    assert_eq!(
        select_projects(&labels(&["a"]), Some("z")).unwrap_err(),
        "no configured project labeled \"z\""
    );
}

#[test]
fn stored_runs_must_fit() {
    let status = IndexRunStatus {
        run_id: 7,
        state: IndexRunState::Paused,
        scope: vec!["main".into()],
        config_fingerprint: "f".into(),
        pause_reason: None,
        refresh_round: 0,
        documents_ready: 0,
        documents_total: 0,
    };
    assert!(accept_stored_run(&status, &vec!["main".into()], "f").is_ok());
    let scope = accept_stored_run(&status, &vec!["other".into()], "f").unwrap_err();
    assert_eq!(scope, ResumeRefusal::DifferentScope);
    assert_eq!(resume_message(scope, 7), "run 7 has a different project scope");
    assert_eq!(
        accept_stored_run(&status, &vec!["main".into()], "g").unwrap_err(),
        ResumeRefusal::IncompatibleConfiguration
    );
    assert_eq!(run_request(ResumePolicy::Run(7)), RunRequest::Stored(7));
    assert_eq!(run_request(ResumePolicy::New), RunRequest::CreateOrResume { force_new: true });
    assert_eq!(run_request(ResumePolicy::Auto), RunRequest::CreateOrResume { force_new: false });
    assert_eq!(run_entry(IndexRunState::Committed), RunEntry::Republish);
    assert_eq!(run_entry(IndexRunState::Paused), RunEntry::Claim);
    assert_eq!(failure_to_store(Some(IndexRunState::Ready), "m"), None);
    assert_eq!(
        failure_to_store(Some(IndexRunState::Running), "m").as_deref(),
        Some(r#"{"kind":"indexing_failure","message":"m"}"#)
    );
}

#[test]
fn published_settings_are_fixed() {
    let some = |text: &str| Some(text.to_string());
    let own = |text: &str| text.to_string();
    assert!(validate_immutable_settings(
        &vec![some("1"), None],
        &vec![own("1"), own("2")],
        &vec![None],
        &vec![own("/a")],
    )
    .is_ok());
    assert_eq!(
        validate_immutable_settings(&vec![some("1")], &vec![own("2")], &vec![], &vec![]),
        Err(SettingsConflict::Setting { position: 0 })
    );
    assert_eq!(
        validate_immutable_settings(&vec![], &vec![], &vec![some("/a")], &vec![own("/b")]),
        Err(SettingsConflict::Locator { position: 0 })
    );
    assert_eq!(
        setting_message("k", "1", "2"),
        "setting `k` is fixed once the database is published: stored \"1\", config now says \
         \"2\". Delete the database file to reindex with new settings."
    );
    assert_eq!(
        locator_message("p", "/a", "/b"),
        "project \"p\" is already indexed from \"/a\"; its source locator cannot change to \"/b\""
    );
}

#[test]
fn observations_ask_for_the_least_work() {
    let listed = document("1", "a.rs");
    assert_eq!(action_for(None, &listed, "h"), DocumentAction::Upsert);
    let live = FileRecord {
        source_document_id: "1".into(),
        source_revision: "r".into(),
        relative_path: "a.rs".into(),
        language_id: "rust".into(),
        mtime_ns: 0,
        size: 0,
        source_hash: "h".into(),
    };
    assert_eq!(action_for(Some(&live), &listed, "h"), DocumentAction::Unchanged);
    assert_eq!(action_for(Some(&live), &listed, "other"), DocumentAction::Upsert);
}

#[test]
fn waits_grow_to_a_ceiling() {
    let backoff = RetryBackoff { initial_millis: 25, maximum_millis: 100 };
    let delays: Vec<u64> = (0..5).map(|attempt| backoff.delay(attempt)).collect();
    assert!(delays.windows(2).all(|pair| pair[0] <= pair[1]), "{delays:?}");
    assert_eq!(*delays.last().unwrap(), 100);
    assert_eq!(RetryPolicy::default().document_attempts_per_invocation, 1);
    assert_eq!(RevisionTrust::default(), RevisionTrust::VerifyContent);
}

#[test]
fn reads_must_be_stable() {
    let one = SourceRevision::new("1");
    let two = SourceRevision::new("2");
    assert!(matches!(
        stable_outcome(&one, &one, one.clone(), "x".into()),
        StableRead::Content { source, .. } if source == "x"
    ));
    assert!(matches!(
        stable_outcome(&one, &one, two.clone(), "x".into()),
        StableRead::Changed
    ));
    assert!(matches!(stable_outcome(&one, &two, two.clone(), "x".into()), StableRead::Changed));
}

#[test]
fn catalogs_read_for_their_projects() {
    let mut source = MemorySource::new("memory://x", languages());
    source.insert("a.rs", "fn a() {}".into());
    let mut catalog = SourceProviderCatalog::new();
    catalog.insert("main", &source);
    assert_eq!(
        catalog.read("main", "a.rs", "a.rs", "rust").unwrap().as_deref(),
        Some("fn a() {}")
    );
    assert_eq!(catalog.read("other", "a.rs", "a.rs", "rust").unwrap(), None);
    assert_eq!(catalog.read("main", "gone", "gone.rs", "rust").unwrap(), None);
    let files = FileSystemSource::new("/r").with_excludes(vec!["x".into()]);
    assert_ne!(files.fingerprint(), FileSystemSource::new("/r").fingerprint());
}

#[test]
fn tokens_are_hexadecimal() {
    assert_eq!(token_of(0), "00000000000000000000000000000000");
    assert_eq!(token_of(0xab), "000000000000000000000000000000ab");
    assert_eq!(token_of(u128::MAX), "f".repeat(32));
    let token = owner_token();
    assert_eq!(token.len(), 32);
    assert!(token.chars().all(|c| c.is_ascii_hexdigit()));
    assert_ne!(token, owner_token());
}
