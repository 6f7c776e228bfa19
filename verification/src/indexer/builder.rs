//! Setting up a run: what it covers, which earlier run it continues, and what a
//! published index fixes for good.
use crate::indexer::manifest::{any_ready, DocumentState, StagedDocument};
use crate::indexer::policy::{
    RefreshMode, RefreshPolicy, ResumePolicy, RetryBackoff, RetryPolicy, RevisionTrust,
};
use crate::indexer::provider::{RevisionSemantics, SourceProject, SourceProvider};
use crate::indexer::run::{failure_object, failure_text, RunMachine, RunProject, RunStage};
use crate::indexer::settings::{EnricherIdentity, IndexSettings};
use crate::order::{is_sort_order, sort_order};
use crate::text::{decimal, decimal_text, opt_view, same, views};
use vstd::prelude::*;
use vstd::string::*;

verus! {

/// The phase of a run that progress reports name.
#[derive(Debug, Clone, Copy, PartialEq, Eq, Structural)]
pub enum IndexRunPhase {
    Refreshing,
    Processing,
    Ready,
}

/// The state in which a run is stored.
#[derive(Debug, Clone, Copy, PartialEq, Eq, Structural)]
pub enum IndexRunState {
    Running,
    Paused,
    Ready,
    Committed,
    Failed,
    Superseded,
}

/// A run as it is stored.
#[derive(Debug)]
pub struct IndexRunStatus {
    pub run_id: i64,
    pub state: IndexRunState,
    pub scope: Vec<String>,
    pub config_fingerprint: String,
    pub pause_reason: Option<String>,
    pub refresh_round: u64,
    pub documents_ready: u64,
    pub documents_total: u64,
}

/// What one project gained and lost by a publication.
#[derive(Debug)]
pub struct ProjectIndexReport {
    pub label: String,
    pub indexed: usize,
    pub skipped: usize,
    pub removed: usize,
    pub units: usize,
    pub total_units: usize,
}

/// What a publication did.
#[derive(Debug)]
pub struct IndexReport {
    pub run_id: i64,
    pub generation: i64,
    pub refresh_rounds: u64,
    pub reused_documents: u64,
    pub projects: Vec<ProjectIndexReport>,
}

/// How a run ended.
#[derive(Debug)]
pub enum IndexOutcome {
    Committed(IndexReport),
    Paused(IndexRunStatus),
}

/// One progress report.
#[derive(Debug)]
pub struct IndexProgress {
    pub run_id: i64,
    pub phase: IndexRunPhase,
    pub project_label: Option<String>,
    pub source_document_id: Option<String>,
    pub ready_documents: u64,
    pub total_documents: u64,
    pub refresh_round: u64,
}

/// The two sides of a document's checkpoint.
#[derive(Debug, Clone, Copy, PartialEq, Eq, Structural)]
pub enum DocumentCheckpointStep {
    Before,
    After,
}

/// A run that was paused.
#[derive(Debug)]
pub struct IndexPausedError(pub IndexRunStatus);

impl IndexPausedError {
    /// The text of the error.
    pub fn message(&self) -> (r: String)
        ensures
            r@ == "index run "@ + crate::text::signed_decimal(self.0.run_id as int) + " paused ("@
                + (match self.0.pause_reason {
                Some(reason) => reason@,
                None => "unspecified"@,
            }) + ")"@,
    {
        let mut out = "index run ".to_owned();
        out.append(crate::text::signed_text(self.0.run_id).as_str());
        out.append(" paused (");
        match &self.0.pause_reason {
            Some(reason) => out.append(reason.as_str()),
            None => out.append("unspecified"),
        }
        out.append(")");
        out
    }
}

/// A run that failed.
#[derive(Debug)]
pub struct IndexRunFailure {
    pub run_id: i64,
    pub source: String,
}

impl IndexRunFailure {
    /// The text of the error.
    pub fn message(&self) -> (r: String)
        ensures
            r@ == "index run "@ + crate::text::signed_decimal(self.run_id as int) + " failed: "@
                + self.source@,
    {
        let mut out = "index run ".to_owned();
        out.append(crate::text::signed_text(self.run_id).as_str());
        out.append(" failed: ");
        out.append(self.source.as_str());
        out
    }
}

/// Statistics of one project in an indexing call.
#[derive(Debug)]
pub struct ProjectStats {
    pub label: String,
    pub indexed: usize,
    pub skipped: usize,
    pub removed: usize,
    pub failed: usize,
    pub units: usize,
    pub total_units: usize,
}

/// The statistics that a report gives of each project, in order.
pub fn project_stats(report: &IndexReport) -> (r: Vec<ProjectStats>)
    ensures
        r@.len() == report.projects@.len(),
        forall|i: int|
            0 <= i < r@.len() ==> {
                let project = report.projects@[i];
                &&& (#[trigger] r@[i]).label@ == project.label@
                &&& r@[i].indexed == project.indexed
                &&& r@[i].skipped == project.skipped
                &&& r@[i].removed == project.removed
                &&& r@[i].failed == 0
                &&& r@[i].units == project.units
                &&& r@[i].total_units == project.total_units
            },
{
    let mut out: Vec<ProjectStats> = Vec::new();
    let mut i: usize = 0;
    while i < report.projects.len()
        invariant
            i <= report.projects@.len(),
            out@.len() == i,
            forall|j: int|
                0 <= j < i ==> {
                    let project = report.projects@[j];
                    &&& (#[trigger] out@[j]).label@ == project.label@
                    &&& out@[j].indexed == project.indexed
                    &&& out@[j].skipped == project.skipped
                    &&& out@[j].removed == project.removed
                    &&& out@[j].failed == 0
                    &&& out@[j].units == project.units
                    &&& out@[j].total_units == project.total_units
                },
        decreases report.projects@.len() - i,
    {
        let project = &report.projects[i];
        out.push(
            ProjectStats {
                label: project.label.clone(),
                indexed: project.indexed,
                skipped: project.skipped,
                removed: project.removed,
                failed: 0,
                units: project.units,
                total_units: project.total_units,
            },
        );
        i += 1;
    }
    out
}

/// The positions of the labels that are selected, in order.
pub open spec fn selected_positions(labels: Seq<Seq<char>>, only: Option<Seq<char>>) -> Seq<usize>
    decreases labels.len(),
{
    if labels.len() == 0 {
        Seq::empty()
    } else {
        let rest = selected_positions(labels.drop_last(), only);
        if only is None || labels.last() == only->0 {
            rest.push((labels.len() - 1) as usize)
        } else {
            rest
        }
    }
}

/// Selects all projects, or those with one label. A label that no project has is
/// an error.
pub fn select_projects(labels: &Vec<String>, only_label: Option<&str>) -> (r: Result<
    Vec<usize>,
    String,
>)
    ensures
        ({
            let only = match only_label {
                Some(label) => Some(label@),
                None => None,
            };
            let positions = selected_positions(views(labels@), only);
            match r {
                Ok(selected) => selected@ == positions && (only is Some ==> positions.len() > 0),
                Err(message) => only is Some && positions.len() == 0 && message@
                    == "no configured project labeled "@ + crate::text::debug_literal(only->0),
            }
        }),
{
    let ghost only = match only_label {
        Some(label) => Some(label@),
        None => None,
    };
    let mut out: Vec<usize> = Vec::new();
    let mut i: usize = 0;
    while i < labels.len()
        invariant
            i <= labels@.len(),
            only == match only_label {
                Some(label) => Some(label@),
                None => None::<Seq<char>>,
            },
            out@ == selected_positions(views(labels@).take(i as int), only),
        decreases labels@.len() - i,
    {
        assert(views(labels@).take(i + 1).drop_last() =~= views(labels@).take(i as int));
        let chosen = match only_label {
            None => true,
            Some(label) => same(labels[i].as_str(), label),
        };
        if chosen {
            out.push(i);
        }
        i += 1;
    }
    assert(views(labels@).take(i as int) =~= views(labels@));
    if let Some(label) = only_label {
        if out.len() == 0 {
            let mut message = "no configured project labeled ".to_owned();
            message.append(crate::text::debug_quote(label).as_str());
            return Err(message);
        }
    }
    Ok(out)
}

/// Why a run is not set up.
#[derive(Debug, PartialEq, Eq)]
pub enum RunRefusal {
    NoProjects,
    EmptyLabel,
    DuplicateLabel(String),
    NoAttempts,
}

/// The labels are not empty, and no two are equal.
pub open spec fn labels_valid(labels: Seq<Seq<char>>) -> bool {
    &&& forall|i: int| 0 <= i < labels.len() ==> (#[trigger] labels[i]).len() > 0
    &&& forall|i: int, j: int|
        0 <= i < j < labels.len() ==> #[trigger] labels[i] != #[trigger] labels[j]
}

/// What a run is refused for, where it is: no project at all; else the first
/// label that is empty or repeated; else a policy that allows no attempt.
pub open spec fn refused_for(
    labels: Seq<Seq<char>>,
    attempts: u32,
    refusal: RunRefusal,
) -> bool {
    match refusal {
        RunRefusal::NoProjects => labels.len() == 0,
        RunRefusal::EmptyLabel => exists|i: int|
            0 <= i < labels.len() && #[trigger] labels_valid(labels.take(i)) && labels[i].len()
                == 0,
        RunRefusal::DuplicateLabel(label) => exists|i: int|
            0 <= i < labels.len() && #[trigger] labels_valid(labels.take(i)) && labels[i].len() > 0
                && labels.take(i).contains(labels[i]) && label@ == labels[i],
        RunRefusal::NoAttempts => labels.len() > 0 && labels_valid(labels) && attempts == 0,
    }
}

/// Checks the labels and the retry policy of a run.
pub fn check_run(labels: &Vec<String>, attempts: u32) -> (r: Result<(), RunRefusal>)
    ensures
        r is Ok <==> labels@.len() > 0 && labels_valid(views(labels@)) && attempts > 0,
        r matches Err(refusal) ==> refused_for(views(labels@), attempts, refusal),
{
    let ghost texts = views(labels@);
    if labels.len() == 0 {
        return Err(RunRefusal::NoProjects);
    }
    let mut i: usize = 0;
    while i < labels.len()
        invariant
            i <= labels@.len(),
            texts == views(labels@),
            labels_valid(texts.take(i as int)),
        decreases labels@.len() - i,
    {
        let label = labels[i].as_str();
        if label.is_empty() {
            assert(texts[i as int].len() == 0);
            return Err(RunRefusal::EmptyLabel);
        }
        let mut j: usize = 0;
        while j < i
            invariant
                j <= i < labels@.len(),
                label@ == texts[i as int],
                texts == views(labels@),
                labels_valid(texts.take(i as int)),
                label@.len() > 0,
                forall|k: int| 0 <= k < j ==> #[trigger] texts[k] != label@,
            decreases i - j,
        {
            if same(labels[j].as_str(), label) {
                let refusal = RunRefusal::DuplicateLabel(labels[i].clone());
                assert(texts.take(i as int)[j as int] == texts[i as int]);
                assert(labels_valid(texts.take(i as int)));
                assert(refused_for(texts, attempts, refusal));
                assert(!labels_valid(texts)) by {
                    assert(texts[j as int] == texts[i as int]);
                }
                return Err(refusal);
            }
            j += 1;
        }
        assert(labels_valid(texts.take(i + 1))) by {
            let longer = texts.take(i + 1);
            assert forall|a: int, b: int| 0 <= a < b < longer.len() implies #[trigger] longer[a]
                != #[trigger] longer[b] by {
                if b < i {
                    assert(texts.take(i as int)[a] != texts.take(i as int)[b]);
                } else {
                    assert(texts[a] != label@);
                }
            }
            assert forall|a: int| 0 <= a < longer.len() implies (#[trigger] longer[a]).len()
                > 0 by {
                if a < i {
                    assert(texts.take(i as int)[a].len() > 0);
                }
            }
        }
        i += 1;
    }
    assert(texts.take(i as int) =~= texts);
    if attempts == 0 {
        return Err(RunRefusal::NoAttempts);
    }
    Ok(())
}

/// A provider of a run, by what identifies it.
#[derive(Debug)]
pub struct ProviderIdentity {
    pub label: String,
    pub locator: String,
    pub fingerprint: String,
}

/// What a run covers.
#[derive(Debug)]
pub struct RunPlan {
    /// The project labels in dictionary order.
    pub scope: Vec<String>,
    /// The providers in the order of their labels.
    pub providers: Vec<ProviderIdentity>,
}

/// The labels of a list of projects.
pub open spec fn project_labels<P: SourceProvider + ?Sized>(
    projects: Seq<SourceProject<'_, P>>,
) -> Seq<Seq<char>> {
    Seq::new(projects.len(), |i: int| projects[i].label@)
}

/// The identity is what the project's provider says of itself.
pub open spec fn identifies<P: SourceProvider + ?Sized>(
    identity: ProviderIdentity,
    project: SourceProject<'_, P>,
) -> bool {
    &&& identity.label@ == project.label@
    &&& call_ensures(P::project_locator, (project.provider,), identity.locator)
    &&& call_ensures(P::provider_fingerprint, (project.provider,), identity.fingerprint)
}

/// The run's project is set up by what its provider says of itself.
pub open spec fn sets_up<P: SourceProvider + ?Sized>(
    run: RunProject,
    project: SourceProject<'_, P>,
    trust: RevisionTrust,
) -> bool {
    &&& run.label@ == project.label@
    &&& call_ensures(P::provider_fingerprint, (project.provider,), run.provider_fingerprint)
    &&& exists|semantics: RevisionSemantics| #[trigger]
        call_ensures(P::revision_semantics, (project.provider,), semantics) && run.may_trust == (
        semantics == RevisionSemantics::Authoritative || trust == RevisionTrust::TrustAdvisory)
}

/// An indexing run that is being set up.
pub struct IndexRunBuilder<'a, P: SourceProvider + ?Sized> {
    pub settings: IndexSettings,
    pub projects: &'a Vec<SourceProject<'a, P>>,
    pub enrichers: Vec<EnricherIdentity>,
    pub resume_policy: ResumePolicy,
    pub refresh_policy: RefreshPolicy,
    pub retry_policy: RetryPolicy,
    pub revision_trust: RevisionTrust,
    pub lease_seconds: u64,
}

impl<'a, P: SourceProvider + ?Sized> IndexRunBuilder<'a, P> {
    pub fn new(settings: &IndexSettings, projects: &'a Vec<SourceProject<'a, P>>) -> (r: Self)
        ensures
            r.settings.enabled_languages@ == settings.enabled_languages@,
            r.settings.body_node_count_threshold == settings.body_node_count_threshold,
            r.settings.max_body_chars == settings.max_body_chars,
            r.settings.retention == settings.retention,
            r.projects == projects,
            r.enrichers@.len() == 0,
            r.resume_policy == ResumePolicy::Auto,
            r.revision_trust == RevisionTrust::VerifyContent,
            r.retry_policy == (RetryPolicy {
                document_attempts_per_invocation: 1,
                backoff: RetryBackoff { initial_millis: 25, maximum_millis: 1_000 },
            }),
            r.refresh_policy == (RefreshPolicy {
                mode: RefreshMode::Automatic,
                settle_delay_millis: 20,
                retry_backoff: RetryBackoff { initial_millis: 25, maximum_millis: 1_000 },
            }),
            r.lease_seconds == 30,
    {
        Self {
            settings: settings.clone(),
            projects,
            enrichers: Vec::new(),
            resume_policy: ResumePolicy::Auto,
            refresh_policy: RefreshPolicy::default(),
            retry_policy: RetryPolicy::default(),
            revision_trust: RevisionTrust::VerifyContent,
            lease_seconds: 30,
        }
    }

    pub fn with_enrichers(self, enrichers: Vec<EnricherIdentity>) -> (r: Self)
        ensures
            r == (Self { enrichers, ..self }),
    {
        Self { enrichers, ..self }
    }

    pub fn resume_policy(self, policy: ResumePolicy) -> (r: Self)
        ensures
            r == (Self { resume_policy: policy, ..self }),
    {
        Self { resume_policy: policy, ..self }
    }

    pub fn refresh_policy(self, policy: RefreshPolicy) -> (r: Self)
        ensures
            r == (Self { refresh_policy: policy, ..self }),
    {
        Self { refresh_policy: policy, ..self }
    }

    pub fn retry_policy(self, policy: RetryPolicy) -> (r: Self)
        ensures
            r == (Self { retry_policy: policy, ..self }),
    {
        Self { retry_policy: policy, ..self }
    }

    pub fn revision_trust(self, trust: RevisionTrust) -> (r: Self)
        ensures
            r == (Self { revision_trust: trust, ..self }),
    {
        Self { revision_trust: trust, ..self }
    }

    /// The lease that a run is claimed with, at least one second.
    pub fn lease_seconds(self, seconds: u64) -> (r: Self)
        ensures
            r == (Self {
                lease_seconds: if seconds >= 1 {
                    seconds
                } else {
                    1
                },
                ..self
            }),
    {
        let lease: u64 = if seconds >= 1 {
            seconds
        } else {
            1
        };
        Self { lease_seconds: lease, ..self }
    }

    /// The labels of the run's projects, in order.
    pub fn labels(&self) -> (r: Vec<String>)
        ensures
            views(r@) == project_labels(self.projects@),
    {
        let mut out: Vec<String> = Vec::new();
        let mut i: usize = 0;
        while i < self.projects.len()
            invariant
                i <= self.projects@.len(),
                out@.len() == i,
                forall|j: int| 0 <= j < i ==> (#[trigger] out@[j])@ == self.projects@[j].label@,
            decreases self.projects@.len() - i,
        {
            out.push(self.projects[i].label.clone());
            i += 1;
        }
        assert(views(out@) =~= project_labels(self.projects@));
        out
    }

    /// Checks the run and lists what it covers, in the order of the labels.
    pub fn plan(&self) -> (r: Result<RunPlan, RunRefusal>)
        ensures
            ({
                let labels = project_labels(self.projects@);
                let attempts = self.retry_policy.document_attempts_per_invocation;
                match r {
                    Err(refusal) => refused_for(labels, attempts, refusal),
                    Ok(plan) => {
                        &&& labels.len() > 0
                        &&& labels_valid(labels)
                        &&& attempts > 0
                        &&& plan.providers@.len() == plan.scope@.len()
                        &&& exists|order: Seq<usize>|
                            #![trigger is_sort_order(order, labels, labels.len() as int)]
                            {
                                &&& is_sort_order(order, labels, labels.len() as int)
                                &&& plan.scope@.len() == labels.len()
                                &&& forall|i: int|
                                    0 <= i < labels.len() ==> (#[trigger] plan.scope@[i])@
                                        == labels[order[i] as int] && identifies(
                                        plan.providers@[i],
                                        self.projects@[order[i] as int],
                                    )
                            }
                    },
                }
            }),
            r is Ok <==> self.projects@.len() > 0 && labels_valid(project_labels(self.projects@))
                && self.retry_policy.document_attempts_per_invocation > 0,
    {
        let labels = self.labels();
        match check_run(&labels, self.retry_policy.document_attempts_per_invocation) {
            Err(refusal) => {
                return Err(refusal);
            },
            Ok(()) => {},
        }
        let order = sort_order(&labels);
        let mut scope: Vec<String> = Vec::new();
        let mut providers: Vec<ProviderIdentity> = Vec::new();
        let ghost texts = views(labels@);
        assert(texts.len() == project_labels(self.projects@).len());
        let mut i: usize = 0;
        while i < order.len()
            invariant
                i <= order@.len() == labels@.len(),
                labels@.len() == self.projects@.len(),
                texts == views(labels@),
                texts == project_labels(self.projects@),
                is_sort_order(order@, texts, labels@.len() as int),
                scope@.len() == i,
                providers@.len() == i,
                forall|j: int|
                    0 <= j < i ==> (#[trigger] scope@[j])@ == texts[order@[j] as int]
                        && identifies(providers@[j], self.projects@[order@[j] as int]),
            decreases order@.len() - i,
        {
            assert(0 <= order@[i as int] < labels@.len());
            let project = &self.projects[order[i]];
            assert(project.label@ == texts[order@[i as int] as int]);
            scope.push(project.label.clone());
            let identity = ProviderIdentity {
                label: project.label.clone(),
                locator: project.provider.project_locator(),
                fingerprint: project.provider.provider_fingerprint(),
            };
            assert(identifies(identity, *project));
            providers.push(identity);
            i += 1;
        }
        Ok(RunPlan { scope, providers })
    }

    /// The machine that carries the run through, given the journal rows that an
    /// earlier invocation left.
    pub fn machine(&self, config_fingerprint: String, staged: &Vec<StagedDocument>) -> (r:
        RunMachine)
        requires
            self.projects@.len() > 0,
            labels_valid(project_labels(self.projects@)),
            self.retry_policy.document_attempts_per_invocation > 0,
        ensures
            r.wf(),
            r.stage == RunStage::Idle,
            r.config_fingerprint == config_fingerprint,
            r.refresh_policy == self.refresh_policy,
            r.retry_policy == self.retry_policy,
            r.completed_pass == exists|i: int|
                0 <= i < staged@.len() && (#[trigger] staged@[i]).state == DocumentState::Ready,
            r.projects@.len() == self.projects@.len(),
            forall|i: int|
                0 <= i < r.projects@.len() ==> sets_up(
                    #[trigger] r.projects@[i],
                    self.projects@[i],
                    self.revision_trust,
                ),
    {
        let mut projects: Vec<RunProject> = Vec::new();
        let mut i: usize = 0;
        while i < self.projects.len()
            invariant
                i <= self.projects@.len(),
                projects@.len() == i,
                forall|j: int|
                    0 <= j < i ==> sets_up(
                        #[trigger] projects@[j],
                        self.projects@[j],
                        self.revision_trust,
                    ),
            decreases self.projects@.len() - i,
        {
            let project = &self.projects[i];
            let semantics = project.provider.revision_semantics();
            assert(call_ensures(P::revision_semantics, (project.provider,), semantics));
            let own = RunProject {
                label: project.label.clone(),
                provider_fingerprint: project.provider.provider_fingerprint(),
                may_trust: may_trust_revisions(semantics, self.revision_trust),
            };
            assert(sets_up(own, *project, self.revision_trust));
            projects.push(own);
            i += 1;
        }
        assert forall|a: int, b: int| 0 <= a < b < projects@.len() implies (
        #[trigger] projects@[a]).label@ != (#[trigger] projects@[b]).label@ by {
            let labels = project_labels(self.projects@);
            assert(labels[a] != labels[b]);
        }
        RunMachine::new(
            projects,
            config_fingerprint,
            self.refresh_policy,
            self.retry_policy,
            any_ready(staged),
        )
    }

    /// The settings that are fixed once a corpus is first published.
    pub fn immutable_settings(&self) -> (r: Vec<(&'static str, String)>)
        ensures
            fixed_settings(r@, self.settings),
    {
        vec![
            (
                "index.body_node_count_threshold",
                decimal_text(self.settings.body_node_count_threshold as u64),
            ),
            ("index.retention", self.settings.retention.as_str().to_owned()),
            (
                "embedding.max_body_chars",
                decimal_text(self.settings.max_body_chars as u64),
            ),
        ]
    }
}

/// Whether an equal revision stands for equal content: the provider says so, or
/// the run was told to take its word.
pub fn may_trust_revisions(semantics: RevisionSemantics, trust: RevisionTrust) -> (r: bool)
    ensures
        r == (semantics == RevisionSemantics::Authoritative || trust
            == RevisionTrust::TrustAdvisory),
{
    semantics == RevisionSemantics::Authoritative || trust == RevisionTrust::TrustAdvisory
}

/// The names and values of the settings that publication fixes.
pub open spec fn fixed_settings(
    list: Seq<(&'static str, String)>,
    settings: IndexSettings,
) -> bool {
    &&& list.len() == 3
    &&& list[0].0@ == "index.body_node_count_threshold"@
    &&& list[0].1@ == decimal(settings.body_node_count_threshold as nat)
    &&& list[1].0@ == "index.retention"@
    &&& list[1].1@ == settings.retention.token()
    &&& list[2].0@ == "embedding.max_body_chars"@
    &&& list[2].1@ == decimal(settings.max_body_chars as nat)
}

/// What keeps a run off an existing database.
#[derive(Debug, Clone, Copy, PartialEq, Eq, Structural)]
pub enum SettingsConflict {
    /// A fixed setting is stored with another value.
    Setting { position: usize },
    /// A project is indexed from another place.
    Locator { position: usize },
}

/// The stored value, where there is one, is the expected one.
pub open spec fn agrees(stored: Option<String>, expected: Seq<char>) -> bool {
    stored is Some ==> stored->0@ == expected
}

fn first_conflict(stored: &Vec<Option<String>>, expected: &Vec<String>) -> (r: Option<usize>)
    requires
        stored@.len() == expected@.len(),
    ensures
        match r {
            Some(i) => i < stored@.len() && !agrees(stored@[i as int], expected@[i as int]@)
                && forall|j: int|
                0 <= j < i ==> agrees(#[trigger] stored@[j], expected@[j]@),
            None => forall|j: int|
                0 <= j < stored@.len() ==> agrees(#[trigger] stored@[j], expected@[j]@),
        },
{
    let mut i: usize = 0;
    while i < stored.len()
        invariant
            i <= stored@.len() == expected@.len(),
            forall|j: int| 0 <= j < i ==> agrees(#[trigger] stored@[j], expected@[j]@),
        decreases stored@.len() - i,
    {
        if let Some(value) = &stored[i] {
            if !same(value.as_str(), expected[i].as_str()) {
                return Some(i);
            }
        }
        i += 1;
    }
    None
}

/// Holds the run's fixed settings and its projects' locators against what is
/// stored: the first setting that differs is reported, else the first project
/// that is indexed from another place.
pub fn validate_immutable_settings(
    stored: &Vec<Option<String>>,
    expected: &Vec<String>,
    stored_locators: &Vec<Option<String>>,
    locators: &Vec<String>,
) -> (r: Result<(), SettingsConflict>)
    requires
        stored@.len() == expected@.len(),
        stored_locators@.len() == locators@.len(),
    ensures
        match r {
            Ok(()) => true,
            Err(SettingsConflict::Setting { position }) => position < stored@.len() && !agrees(
                stored@[position as int],
                expected@[position as int]@,
            ) && forall|j: int|
                0 <= j < position ==> agrees(#[trigger] stored@[j], expected@[j]@),
            Err(SettingsConflict::Locator { position }) => {
                &&& forall|j: int|
                    0 <= j < stored@.len() ==> agrees(#[trigger] stored@[j], expected@[j]@)
                &&& position < stored_locators@.len()
                &&& !agrees(stored_locators@[position as int], locators@[position as int]@)
                &&& forall|j: int|
                    0 <= j < position ==> agrees(#[trigger] stored_locators@[j], locators@[j]@)
            },
        },
        r is Ok <==> (forall|j: int|
            0 <= j < stored@.len() ==> agrees(#[trigger] stored@[j], expected@[j]@)) && (forall|
            j: int,
        |
            0 <= j < stored_locators@.len() ==> agrees(
                #[trigger] stored_locators@[j],
                locators@[j]@,
            )),
{
    if let Some(position) = first_conflict(stored, expected) {
        return Err(SettingsConflict::Setting { position });
    }
    if let Some(position) = first_conflict(stored_locators, locators) {
        return Err(SettingsConflict::Locator { position });
    }
    Ok(())
}

/// Which stored run an indexing call asks for.
#[derive(Debug, Clone, Copy, PartialEq, Eq, Structural)]
pub enum RunRequest {
    /// The run with the id.
    Stored(i64),
    /// A resumable run of the same scope and configuration, or a new one.
    CreateOrResume { force_new: bool },
}

/// Which stored run a policy asks for.
pub fn run_request(policy: ResumePolicy) -> (r: RunRequest)
    ensures
        r == match policy {
            ResumePolicy::Run(run_id) => RunRequest::Stored(run_id),
            ResumePolicy::New => RunRequest::CreateOrResume { force_new: true },
            ResumePolicy::Auto => RunRequest::CreateOrResume { force_new: false },
        },
{
    match policy {
        ResumePolicy::Run(run_id) => RunRequest::Stored(run_id),
        ResumePolicy::New => RunRequest::CreateOrResume { force_new: true },
        ResumePolicy::Auto => RunRequest::CreateOrResume { force_new: false },
    }
}

/// Why a stored run is not continued.
#[derive(Debug, Clone, Copy, PartialEq, Eq, Structural)]
pub enum ResumeRefusal {
    DifferentScope,
    IncompatibleConfiguration,
}

/// Whether a stored run can be continued: it must have the same scope and the
/// same configuration.
pub fn accept_stored_run(
    status: &IndexRunStatus,
    scope: &Vec<String>,
    config_fingerprint: &str,
) -> (r: Result<(), ResumeRefusal>)
    ensures
        r == if views(status.scope@) != views(scope@) {
            Err::<(), ResumeRefusal>(ResumeRefusal::DifferentScope)
        } else if status.config_fingerprint@ != config_fingerprint@ {
            Err(ResumeRefusal::IncompatibleConfiguration)
        } else {
            Ok(())
        },
{
    if !crate::text::same_texts(&status.scope, scope) {
        return Err(ResumeRefusal::DifferentScope);
    }
    if !same(status.config_fingerprint.as_str(), config_fingerprint) {
        return Err(ResumeRefusal::IncompatibleConfiguration);
    }
    Ok(())
}

/// What is done with the run that was found.
#[derive(Debug, Clone, Copy, PartialEq, Eq, Structural)]
pub enum RunEntry {
    /// It is published already: report it again.
    Republish,
    /// Claim it and carry it through.
    Claim,
}

/// What is done with a run in the given state.
pub fn run_entry(state: IndexRunState) -> (r: RunEntry)
    ensures
        r == if state == IndexRunState::Committed {
            RunEntry::Republish
        } else {
            RunEntry::Claim
        },
{
    if state == IndexRunState::Committed {
        RunEntry::Republish
    } else {
        RunEntry::Claim
    }
}

/// The failure to store for a run that ended in an error. A run that is still
/// running has failed for good; one that is ready stays ready, so that its
/// publication can be tried again.
pub fn failure_to_store(state: Option<IndexRunState>, message: &str) -> (r: Option<String>)
    ensures
        opt_view(r) == if state == Some(IndexRunState::Running) {
            Some(failure_object("indexing_failure"@, message@))
        } else {
            None
        },
{
    match state {
        Some(IndexRunState::Running) => Some(failure_text("indexing_failure", message)),
        _ => None,
    }
}

/// The projects that are selected are those with the label that is asked for, all of them
/// where none is, in their order.
pub proof fn labelled_projects_are_selected(
    labels: Seq<Seq<char>>,
    only: Option<Seq<char>>,
    k: usize,
)
    requires
        k < labels.len() <= usize::MAX,
    ensures
        selected_positions(labels, only).contains(k) <==> only is None || labels[k as int] == only->0,
        forall|i: int|
            0 <= i < selected_positions(labels, only).len() ==> #[trigger] selected_positions(
                labels,
                only,
            )[i] < labels.len(),
        forall|i: int, j: int|
            0 <= i < j < selected_positions(labels, only).len() ==> #[trigger] selected_positions(
                labels,
                only,
            )[i] < #[trigger] selected_positions(labels, only)[j],
    decreases labels.len(),
{
    let front = labels.drop_last();
    let (before, after) = (selected_positions(front, only), selected_positions(labels, only));
    if front.len() > 0 {
        labelled_projects_are_selected(
            front,
            only,
            if k < front.len() {
                k
            } else {
                0
            },
        );
    } else {
        assert(before.len() == 0);
    }
    if k < front.len() {
        assert(front[k as int] == labels[k as int]);
        if before.contains(k) {
            let i = choose|i: int| 0 <= i < before.len() && before[i] == k;
            assert(after[i] == k);
        }
        if after.contains(k) {
            let i = choose|i: int| 0 <= i < after.len() && after[i] == k;
            assert(before[i] == k);
        }
    } else if after.len() > before.len() {
        assert(after[before.len() as int] == k);
    } else if after.contains(k) {
        let i = choose|i: int| 0 <= i < after.len() && after[i] == k;
        assert(before[i] < front.len());
    }
}

/// A revision is taken for content only where its provider vouches for it or the run was
/// told to take its word.
pub proof fn revisions_are_trusted_by_leave(
    semantics: RevisionSemantics,
    trust: RevisionTrust,
    r: bool,
)
    requires
        call_ensures(may_trust_revisions, (semantics, trust), r),
    ensures
        !r <==> semantics == RevisionSemantics::Advisory && trust == RevisionTrust::VerifyContent,
{
}

/// A stored run is taken up again only for the same projects and the same configuration.
pub proof fn only_the_same_run_is_taken_up(
    status: IndexRunStatus,
    scope: Vec<String>,
    config_fingerprint: &str,
    r: Result<(), ResumeRefusal>,
)
    requires
        call_ensures(accept_stored_run, (&status, &scope, config_fingerprint), r),
    ensures
        r is Ok <==> views(status.scope@) == views(scope@) && status.config_fingerprint@
            == config_fingerprint@,
        r == Err::<(), ResumeRefusal>(ResumeRefusal::DifferentScope) <==> views(status.scope@)
            != views(scope@),
{
}

/// A run is resumed by its id, or begun anew where that is asked for, or either.
pub proof fn a_policy_decides_what_is_requested(policy: ResumePolicy, r: RunRequest)
    requires
        call_ensures(run_request, (policy,), r),
    ensures
        policy matches ResumePolicy::Run(id) ==> r == RunRequest::Stored(id),
        !(policy is Run) ==> r is CreateOrResume && (r->force_new <==> policy is New),
{
}

/// A run trusts the revisions of a project where its provider vouches for them or where it
/// was told to, and of no other.
pub proof fn a_run_is_set_up_from_its_project<P: SourceProvider + ?Sized>(
    run: RunProject,
    project: SourceProject<'_, P>,
    trust: RevisionTrust,
)
    requires
        sets_up(run, project, trust),
    ensures
        run.label@ == project.label@,
        trust == RevisionTrust::TrustAdvisory ==> run.may_trust,
        trust == RevisionTrust::VerifyContent && run.may_trust ==> call_ensures(
            P::revision_semantics,
            (project.provider,),
            RevisionSemantics::Authoritative,
        ),
{
}

/// The settings that an index is fixed to are told by name, each with its own value.
pub proof fn fixed_settings_are_told_by_name(
    list: Seq<(&'static str, String)>,
    settings: IndexSettings,
    other: IndexSettings,
)
    requires
        fixed_settings(list, settings),
        fixed_settings(list, other),
    ensures
        settings.body_node_count_threshold == other.body_node_count_threshold,
        settings.max_body_chars == other.max_body_chars,
        settings.retention.token() == other.retention.token(),
        list[0].0@ == "index.body_node_count_threshold"@,
        list[1].0@ == "index.retention"@,
        list[2].0@ == "embedding.max_body_chars"@,
{
    crate::text::decimal_reads_back(settings.body_node_count_threshold as nat);
    crate::text::decimal_reads_back(other.body_node_count_threshold as nat);
    crate::text::decimal_reads_back(settings.max_body_chars as nat);
    crate::text::decimal_reads_back(other.max_body_chars as nat);
}

/// A run is refused only for what it lacks: projects, labels, labels of their own, or tries.
pub proof fn a_refused_run_lacks_something(
    labels: Seq<Seq<char>>,
    attempts: u32,
    refusal: RunRefusal,
)
    requires
        refused_for(labels, attempts, refusal),
    ensures
        labels.len() == 0 || attempts == 0 || !labels_valid(labels),
        refusal is NoProjects <==> labels.len() == 0,
        refusal is NoAttempts ==> attempts == 0,
{
    if refusal is EmptyLabel {
        let i = choose|i: int|
            0 <= i < labels.len() && #[trigger] labels_valid(labels.take(i)) && labels[i].len()
                == 0;
        assert(labels[i].len() == 0);
    }
    if refusal is DuplicateLabel {
        let i = choose|i: int|
            0 <= i < labels.len() && #[trigger] labels_valid(labels.take(i)) && labels[i].len() > 0
                && labels.take(i).contains(labels[i]);
        let j = choose|j: int| 0 <= j < i && labels.take(i)[j] == labels[i];
        assert(labels[j] == labels[i]);
    }
}

/// A run that was committed is reported again and not run again, and any other is claimed. A
/// failure is stored only for a run that was running.
pub proof fn a_committed_run_is_not_run_again(
    state: IndexRunState,
    entry: RunEntry,
    before: Option<IndexRunState>,
    message: &str,
    stored: Option<String>,
)
    requires
        call_ensures(run_entry, (state,), entry),
        call_ensures(failure_to_store, (before, message), stored),
    ensures
        entry is Republish <==> state is Committed,
        stored is Some <==> before == Some(IndexRunState::Running),
{
}

/// The statistics of a project are those of its report.
pub proof fn statistics_are_those_of_the_report(
    report: IndexReport,
    r: Vec<ProjectStats>,
    i: int,
)
    requires
        call_ensures(project_stats, (&report,), r),
        0 <= i < report.projects@.len(),
    ensures
        r@.len() == report.projects@.len(),
        r@[i].label@ == report.projects@[i].label@,
        r@[i].indexed == report.projects@[i].indexed && r@[i].skipped == report.projects@[i].skipped,
        r@[i].removed == report.projects@[i].removed && r@[i].failed == 0,
        r@[i].units == report.projects@[i].units && r@[i].total_units
            == report.projects@[i].total_units,
{
}

} // verus!
