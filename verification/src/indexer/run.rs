//! The resumable run as a machine: it is told what the outside world did and
//! answers with the next thing to do.
use crate::hashing::{sha256_hex, text_hash};
use crate::indexer::manifest::{
    pending_rows, select_pending, append_deletions, find_staged, find_live, is_manifest, known_hash,
    lists_gone, live_file, observation, observes, staged_row, trusted_hash, DocumentState,
    FileRecord, ManifestDocument, ManifestScope, StagedDocument,
};
use crate::indexer::policy::{RefreshMode, RefreshPolicy, RetryPolicy};
use crate::indexer::provider::{
    documents_valid, reported_fault, validate_documents, DocumentFault, SourceDocument, StableRead,
};
use crate::json::{json_literal, member_views, object_text, quote, write_object};
use crate::text::{opt_view, same};
use vstd::prelude::*;
use vstd::string::*;

verus! {

/// One project of a run.
#[derive(Debug, PartialEq, Eq)]
pub struct RunProject {
    pub label: String,
    pub provider_fingerprint: String,
    /// An equal revision stands for equal content: the provider says so, or the
    /// run was told to take its word.
    pub may_trust: bool,
}

/// Why a run stops before it is published.
#[derive(Debug, Clone, Copy, PartialEq, Eq, Structural)]
pub enum PauseReason {
    UserInterrupt,
    ProviderError,
    SourceChanged,
    DocumentError,
}

impl PauseReason {
    /// The text that is stored with a paused run.
    pub open spec fn token(self) -> Seq<char> {
        match self {
            PauseReason::UserInterrupt => "user_interrupt"@,
            PauseReason::ProviderError => "provider_error"@,
            PauseReason::SourceChanged => "source_changed"@,
            PauseReason::DocumentError => "document_error"@,
        }
    }

    pub fn as_str(self) -> (r: &'static str)
        ensures
            r@ == self.token(),
    {
        match self {
            PauseReason::UserInterrupt => "user_interrupt",
            PauseReason::ProviderError => "provider_error",
            PauseReason::SourceChanged => "source_changed",
            PauseReason::DocumentError => "document_error",
        }
    }
}

/// Why a run fails for good.
#[derive(Debug, PartialEq, Eq)]
pub enum RunFault {
    /// A provider's document list cannot be indexed.
    Documents(DocumentFault),
    /// The journal names a project that the run does not have.
    UnconfiguredProject(String),
    /// A pending row carries no fingerprint of its inputs.
    NoInputFingerprint,
}

/// Where a run stands.
#[derive(Debug, Clone, Copy, PartialEq, Eq, Structural)]
pub enum RunStage {
    /// A refresh is about to begin.
    Idle,
    /// Waits for the journal rows before a refresh.
    Loading,
    /// Waits for a provider's document list.
    Listing { project: usize },
    /// Waits for the content of a document whose hash is not known.
    Reading { project: usize, document: usize },
    /// Waits for the journal to take in a project's manifest.
    Reconciling { project: usize },
    /// Waits for the refresh round to be counted.
    Counting,
    /// Waits for the sources to settle.
    Settling,
    /// Waits for the journal rows after a refresh.
    Selecting,
    /// Waits for the journal to enter the processing phase.
    Entering,
    /// Waits for the content of a pending document.
    Opening { position: usize, project: usize, document: usize },
    /// Waits for a pending document to be prepared.
    Preparing { position: usize },
    /// Waits for a prepared document to be checkpointed.
    Saving { position: usize },
    /// Waits for a document's failure to be recorded.
    Failing,
    /// Waits for publication.
    Publishing,
    Finished,
}

/// What the outside world did.
#[derive(Debug)]
pub enum RunEvent {
    /// The last action was carried out and has no result.
    Done,
    /// The journal rows of the run.
    Staged(Vec<StagedDocument>),
    /// A provider's documents, the JSON text of each one's revision, and the
    /// project's live files.
    Listed { documents: Vec<SourceDocument>, revisions: Vec<String>, live: Vec<FileRecord> },
    /// A provider could not list its documents.
    NotListed(String),
    /// What a stable read gave.
    Read(StableRead),
    /// A document could not be read.
    NotRead(String),
    /// The manifest was taken in; whether it changed the journal.
    Reconciled(bool),
    /// The document could not be prepared.
    NotPrepared(String),
}

/// What the outside world is to do next.
#[derive(Debug, Clone, Copy, PartialEq, Eq, Structural)]
pub enum RunAction {
    /// Enter the refreshing phase and load the journal rows.
    LoadStaged,
    /// List the documents and the live files of a project.
    List { project: usize },
    /// Read a listed document to learn its hash.
    Read { project: usize, document: usize },
    /// Wait, then report.
    BackOff { millis: u64 },
    /// Reconcile the journal with the manifest of a project.
    Reconcile { project: usize },
    /// Count a refresh round.
    CountRound,
    /// Wait for the sources to settle.
    Settle { millis: u64 },
    /// Load the journal rows.
    Select,
    /// Enter the processing phase.
    EnterProcessing,
    /// Mark a pending document as begun and read it.
    Open { position: usize, project: usize, document: usize },
    /// Set the document back to pending.
    ResetPending { position: usize },
    /// Set the document back to pending and wait.
    RetryLater { position: usize, millis: u64 },
    /// Prepare a document whose content was read.
    Prepare { position: usize },
    /// Checkpoint the prepared document.
    Checkpoint { position: usize },
    /// Record the document's failure.
    RecordFailure { position: usize },
    /// Pause the run.
    Pause(PauseReason),
    /// Fail the run.
    Fail,
    /// Mark the run ready and publish it.
    Publish,
    /// Nothing is left: the run is published.
    Committed,
    /// The event does not answer the last action.
    Rejected,
}

/// How often a document has failed in this invocation.
#[derive(Debug, PartialEq, Eq)]
pub struct DocumentAttempts {
    pub project_label: String,
    pub source_document_id: String,
    pub count: u32,
}

/// The failures of one document so far.
pub open spec fn attempts_of(list: Seq<DocumentAttempts>, label: Seq<char>, id: Seq<char>) -> nat
    decreases list.len(),
{
    if list.len() == 0 {
        0
    } else if list[0].project_label@ == label && list[0].source_document_id@ == id {
        list[0].count as nat
    } else {
        attempts_of(list.drop_first(), label, id)
    }
}

/// Every count is below the limit.
pub open spec fn attempts_below(list: Seq<DocumentAttempts>, limit: u32) -> bool {
    forall|i: int| 0 <= i < list.len() ==> (#[trigger] list[i]).count < limit
}

proof fn attempts_of_update(
    list: Seq<DocumentAttempts>,
    i: int,
    entry: DocumentAttempts,
    label: Seq<char>,
    id: Seq<char>,
)
    requires
        0 <= i < list.len(),
        list[i].project_label@ == entry.project_label@,
        list[i].source_document_id@ == entry.source_document_id@,
        forall|j: int|
            0 <= j < i ==> !((#[trigger] list[j]).project_label@ == entry.project_label@
                && list[j].source_document_id@ == entry.source_document_id@),
    ensures
        attempts_of(list.update(i, entry), label, id) == if entry.project_label@ == label
            && entry.source_document_id@ == id {
            entry.count as nat
        } else {
            attempts_of(list, label, id)
        },
    decreases list.len(),
{
    if i > 0 {
        assert(list.update(i, entry).drop_first() =~= list.drop_first().update(i - 1, entry));
        assert forall|j: int| 0 <= j < i - 1 implies !((
        #[trigger] list.drop_first()[j]).project_label@ == entry.project_label@
            && list.drop_first()[j].source_document_id@ == entry.source_document_id@) by {
            assert(list.drop_first()[j] == list[j + 1]);
        }
        attempts_of_update(list.drop_first(), i - 1, entry, label, id);
    } else {
        assert(list.update(i, entry).drop_first() =~= list.drop_first());
    }
}

proof fn attempts_of_push(
    list: Seq<DocumentAttempts>,
    entry: DocumentAttempts,
    label: Seq<char>,
    id: Seq<char>,
)
    requires
        forall|j: int|
            0 <= j < list.len() ==> !((#[trigger] list[j]).project_label@ == entry.project_label@
                && list[j].source_document_id@ == entry.source_document_id@),
    ensures
        attempts_of(list.push(entry), label, id) == if entry.project_label@ == label
            && entry.source_document_id@ == id {
            entry.count as nat
        } else {
            attempts_of(list, label, id)
        },
    decreases list.len(),
{
    if list.len() > 0 {
        assert(list.push(entry).drop_first() =~= list.drop_first().push(entry));
        assert forall|j: int| 0 <= j < list.drop_first().len() implies !((
        #[trigger] list.drop_first()[j]).project_label@ == entry.project_label@
            && list.drop_first()[j].source_document_id@ == entry.source_document_id@) by {
            assert(list.drop_first()[j] == list[j + 1]);
        }
        attempts_of_push(list.drop_first(), entry, label, id);
    } else {
        reveal_with_fuel(attempts_of, 2);
    }
}

proof fn attempts_of_absent(list: Seq<DocumentAttempts>, label: Seq<char>, id: Seq<char>)
    requires
        forall|j: int|
            0 <= j < list.len() ==> !((#[trigger] list[j]).project_label@ == label
                && list[j].source_document_id@ == id),
    ensures
        attempts_of(list, label, id) == 0,
    decreases list.len(),
{
    if list.len() > 0 {
        assert forall|j: int| 0 <= j < list.drop_first().len() implies !((
        #[trigger] list.drop_first()[j]).project_label@ == label
            && list.drop_first()[j].source_document_id@ == id) by {
            assert(list.drop_first()[j] == list[j + 1]);
        }
        attempts_of_absent(list.drop_first(), label, id);
    }
}

proof fn attempts_of_at(list: Seq<DocumentAttempts>, i: int)
    requires
        0 <= i < list.len(),
        forall|j: int|
            0 <= j < i ==> !((#[trigger] list[j]).project_label@ == list[i].project_label@
                && list[j].source_document_id@ == list[i].source_document_id@),
    ensures
        attempts_of(list, list[i].project_label@, list[i].source_document_id@) == list[i].count,
{
    attempts_of_update(list, i, list[i], list[i].project_label@, list[i].source_document_id@);
    assert(list.update(i, list[i]) =~= list);
}

/// Counts one more failure of a document and returns the new count.
pub fn count_attempt(list: &mut Vec<DocumentAttempts>, label: &str, id: &str, limit: u32) -> (r:
    u32)
    requires
        attempts_below(old(list)@, limit),
        limit > 0,
    ensures
        r == attempts_of(old(list)@, label@, id@) + 1,
        r <= limit,
        r < limit ==> attempts_below(final(list)@, limit),
        forall|l: Seq<char>, d: Seq<char>| #[trigger]
            attempts_of(final(list)@, l, d) == if l == label@ && d == id@ {
                r as nat
            } else {
                attempts_of(old(list)@, l, d)
            },
{
    let ghost before = list@;
    let mut i: usize = 0;
    while i < list.len()
        invariant
            i <= list@.len(),
            list@ == before,
            attempts_below(before, limit),
            *old(list) == *list,
            limit > 0,
            forall|j: int|
                0 <= j < i ==> !((#[trigger] before[j]).project_label@ == label@
                    && before[j].source_document_id@ == id@),
        decreases list@.len() - i,
    {
        if same(list[i].project_label.as_str(), label) && same(
            list[i].source_document_id.as_str(),
            id,
        ) {
            let count: u32 = list[i].count + 1;
            let entry = DocumentAttempts {
                project_label: label.to_owned(),
                source_document_id: id.to_owned(),
                count,
            };
            proof {
                attempts_of_at(before, i as int);
                assert forall|l: Seq<char>, d: Seq<char>| #[trigger]
                    attempts_of(before.update(i as int, entry), l, d) == if l == label@ && d
                        == id@ {
                        count as nat
                    } else {
                        attempts_of(before, l, d)
                    } by {
                    attempts_of_update(before, i as int, entry, l, d);
                }
            }
            list.set(i, entry);
            return count;
        }
        i += 1;
    }
    let entry = DocumentAttempts {
        project_label: label.to_owned(),
        source_document_id: id.to_owned(),
        count: 1,
    };
    proof {
        attempts_of_absent(before, label@, id@);
        assert forall|l: Seq<char>, d: Seq<char>| #[trigger]
            attempts_of(before.push(entry), l, d) == if l == label@ && d == id@ {
                1nat
            } else {
                attempts_of(before, l, d)
            } by {
            attempts_of_push(before, entry, l, d);
        }
    }
    list.push(entry);
    1
}

/// What is known of one project in the current refresh.
#[derive(Debug)]
pub struct ProjectRefresh {
    pub documents: Vec<SourceDocument>,
    /// The JSON text of each document's revision.
    pub revisions: Vec<String>,
    pub live: Vec<FileRecord>,
    pub observations: Vec<ManifestDocument>,
}

/// A project's refresh is complete: a valid document list, one observation for
/// each document and one deletion for each live document that is gone.
pub open spec fn complete(scope: ManifestScope, refresh: ProjectRefresh) -> bool {
    &&& documents_valid(refresh.documents@)
    &&& refresh.revisions@.len() == refresh.documents@.len()
    &&& exists|gone: Seq<usize>| #[trigger]
        is_manifest(
            refresh.observations@,
            scope,
            refresh.documents@,
            refresh.revisions@,
            refresh.live@,
            gone,
        )
}

/// A project is observed up to document `upto`.
pub open spec fn observed(scope: ManifestScope, refresh: ProjectRefresh, upto: int) -> bool {
    &&& documents_valid(refresh.documents@)
    &&& refresh.revisions@.len() == refresh.documents@.len()
    &&& refresh.observations@.len() == upto
    &&& 0 <= upto <= refresh.documents@.len()
    &&& forall|i: int|
        0 <= i < upto ==> observes(
            #[trigger] refresh.observations@[i],
            scope,
            refresh.documents@[i],
            refresh.revisions@[i]@,
            refresh.live@,
            refresh.observations@[i].observed_source_hash@,
        )
}

/// An index run between two actions.
#[derive(Debug)]
pub struct RunMachine {
    pub projects: Vec<RunProject>,
    pub config_fingerprint: String,
    pub refresh_policy: RefreshPolicy,
    pub retry_policy: RetryPolicy,
    pub stage: RunStage,
    /// A processing pass has ended, in this invocation or an earlier one.
    pub completed_pass: bool,
    /// Refreshes in a row that were given up because a source moved.
    pub refresh_attempt: u32,
    pub attempts: Vec<DocumentAttempts>,
    /// The journal rows before the current refresh.
    pub staged: Vec<StagedDocument>,
    /// The project that is being observed.
    pub current: ProjectRefresh,
    /// The projects that are fully observed.
    pub refreshes: Vec<ProjectRefresh>,
    /// The current refresh changed the journal.
    pub changed: bool,
    /// The rows that wait to be processed.
    pub pending: Vec<StagedDocument>,
    /// The hash of the pending document that was read last.
    pub source_hash: String,
    /// The error that goes with a pause.
    pub error: Option<String>,
    /// Why the run failed.
    pub fault: Option<RunFault>,
}

impl RunMachine {
    /// The fingerprints that project `p`'s observations share.
    pub open spec fn scope(self, p: int) -> ManifestScope {
        ManifestScope {
            config: self.config_fingerprint@,
            provider: self.projects@[p].provider_fingerprint@,
        }
    }

    /// Row `k` of the pending rows belongs to document `d` of project `p`.
    pub open spec fn row_is(self, k: int, p: int, d: int) -> bool {
        &&& 0 <= k < self.pending@.len()
        &&& 0 <= p < self.projects@.len()
        &&& p < self.refreshes@.len()
        &&& 0 <= d < self.refreshes@[p].documents@.len()
        &&& self.projects@[p].label@ == self.pending@[k].project_label@
        &&& self.refreshes@[p].documents@[d].id@ == self.pending@[k].source_document_id@
    }

    /// What holds of a run between any two actions.
    pub open spec fn wf(self) -> bool {
        &&& self.projects@.len() > 0
        &&& self.retry_policy.document_attempts_per_invocation > 0
        &&& forall|i: int, j: int|
            0 <= i < j < self.projects@.len() ==> (#[trigger] self.projects@[i]).label@ != (
            #[trigger] self.projects@[j]).label@
        &&& self.refreshes@.len() <= self.projects@.len()
        &&& forall|p: int|
            0 <= p < self.refreshes@.len() ==> complete(self.scope(p), #[trigger] self.refreshes@[p])
        &&& forall|k: int|
            0 <= k < self.pending@.len() ==> (#[trigger] self.pending@[k]).state
                == DocumentState::Pending
        &&& !(self.stage is Failing || self.stage is Finished) ==> attempts_below(
            self.attempts@,
            self.retry_policy.document_attempts_per_invocation,
        )
        &&& match self.stage {
            RunStage::Listing { project } => project < self.projects@.len()
                && self.refreshes@.len() == project,
            RunStage::Reading { project, document } => project < self.projects@.len()
                && self.refreshes@.len() == project && document < self.current.documents@.len()
                && observed(self.scope(project as int), self.current, document as int),
            RunStage::Reconciling { project } => project < self.projects@.len()
                && self.refreshes@.len() == self.projects@.len(),
            RunStage::Counting | RunStage::Settling | RunStage::Selecting | RunStage::Entering =>
            self.refreshes@.len() == self.projects@.len(),
            RunStage::Opening { position, project, document } => self.refreshes@.len()
                == self.projects@.len() && self.row_is(
                position as int,
                project as int,
                document as int,
            ),
            RunStage::Preparing { position } | RunStage::Saving { position } => position
                < self.pending@.len() && self.refreshes@.len() == self.projects@.len(),
            _ => true,
        }
    }

    /// The hash of document `i` of the current project, where it is known
    /// without reading.
    pub open spec fn hash_known(self, p: int, i: int) -> Option<Seq<char>> {
        let document = self.current.documents@[i];
        known_hash(
            self.projects@[p].may_trust,
            live_file(self.current.live@, document.id@),
            staged_row(self.staged@, self.projects@[p].label@, document.id@),
            document,
            self.current.revisions@[i]@,
        )
    }

    /// The first document at or after `from` whose hash is not known, or the
    /// number of documents.
    pub open spec fn next_unknown(self, p: int, from: int) -> int
        decreases self.current.documents@.len() - from,
    {
        if from < self.current.documents@.len() && self.hash_known(p, from) is Some {
            self.next_unknown(p, from + 1)
        } else {
            from
        }
    }

    /// A refresh begins, unless the run was cancelled.
    pub open spec fn at_top(self, cancelled: bool, post: Self, action: RunAction) -> bool {
        if cancelled {
            &&& action == RunAction::Pause(PauseReason::UserInterrupt)
            &&& post == (Self { stage: RunStage::Finished, ..self })
        } else {
            &&& action == RunAction::LoadStaged
            &&& post == (Self { stage: RunStage::Loading, ..self })
        }
    }

    /// `after` continues `before` with the observations of the documents
    /// `from..to`, taken by their known hashes.
    pub open spec fn continues(
        self,
        p: int,
        before: Seq<ManifestDocument>,
        after: Seq<ManifestDocument>,
        to: int,
    ) -> bool {
        &&& before.len() <= to <= after.len()
        &&& after.take(before.len() as int) == before
        &&& forall|i: int|
            before.len() <= i < to ==> observes(
                #[trigger] after[i],
                self.scope(p),
                self.current.documents@[i],
                self.current.revisions@[i]@,
                self.current.live@,
                self.hash_known(p, i)->0,
            )
    }

    /// The documents of the current project are walked on from the one after
    /// `before`: those whose hash is known are observed, the first one whose hash
    /// is not known is read; after the last the project is complete and the next
    /// one is listed, or the manifests are reconciled. A cancelled run stops at
    /// the first document.
    pub open spec fn walked(
        self,
        p: int,
        before: Seq<ManifestDocument>,
        cancelled: bool,
        post: Self,
        action: RunAction,
    ) -> bool {
        let from = before.len() as int;
        let to = self.next_unknown(p, from);
        if cancelled && from < self.current.documents@.len() {
            &&& action == RunAction::Pause(PauseReason::UserInterrupt)
            &&& post.current.observations@ == before
            &&& post == (Self { stage: RunStage::Finished, current: post.current, ..self })
        } else if to < self.current.documents@.len() {
            &&& action == RunAction::Read { project: p as usize, document: to as usize }
            &&& post.current == (ProjectRefresh {
                observations: post.current.observations,
                ..self.current
            })
            &&& self.continues(p, before, post.current.observations@, to)
            &&& post.current.observations@.len() == to
            &&& post == (Self {
                stage: RunStage::Reading { project: p as usize, document: to as usize },
                current: post.current,
                ..self
            })
        } else {
            let last = p + 1 == self.projects@.len();
            &&& post.refreshes@.len() == p + 1
            &&& post.refreshes@.take(p) == self.refreshes@
            &&& post.refreshes@[p] == (ProjectRefresh {
                observations: post.refreshes@[p].observations,
                ..self.current
            })
            &&& self.continues(p, before, post.refreshes@[p].observations@, to)
            &&& complete(self.scope(p), post.refreshes@[p])
            &&& action == if last {
                RunAction::Reconcile { project: 0 }
            } else {
                RunAction::List { project: (p + 1) as usize }
            }
            &&& post == (Self {
                stage: if last {
                    RunStage::Reconciling { project: 0 }
                } else {
                    RunStage::Listing { project: (p + 1) as usize }
                },
                current: post.current,
                refreshes: post.refreshes,
                refresh_attempt: if last {
                    0
                } else {
                    self.refresh_attempt
                },
                changed: if last {
                    false
                } else {
                    self.changed
                },
                ..self
            })
        }
    }

    proof fn next_unknown_bounds(self, p: int, from: int)
        requires
            0 <= from <= self.current.documents@.len(),
        ensures
            from <= self.next_unknown(p, from) <= self.current.documents@.len(),
        decreases self.current.documents@.len() - from,
    {
        if from < self.current.documents@.len() && self.hash_known(p, from) is Some {
            self.next_unknown_bounds(p, from + 1);
        }
    }

    proof fn next_unknown_same(self, other: Self, p: int, from: int)
        requires
            self.projects == other.projects,
            self.staged == other.staged,
            self.current.documents == other.current.documents,
            self.current.revisions == other.current.revisions,
            self.current.live == other.current.live,
        ensures
            self.next_unknown(p, from) == other.next_unknown(p, from),
        decreases self.current.documents@.len() - from,
    {
        if from < self.current.documents@.len() && self.hash_known(p, from) is Some {
            self.next_unknown_same(other, p, from + 1);
        }
    }

    proof fn walked_keeps_wf(
        self,
        p: int,
        before: Seq<ManifestDocument>,
        cancelled: bool,
        post: Self,
        action: RunAction,
    )
        requires
            self.wf(),
            self.stage is Listing || self.stage is Reading,
            0 <= p < self.projects@.len(),
            self.refreshes@.len() == p,
            before.len() <= self.current.documents@.len(),
            self.walked(p, before, cancelled, post, action),
            post.stage matches RunStage::Reading { project, document }
                ==> observed(self.scope(p), post.current, document as int),
        ensures
            post.wf(),
    {
        self.next_unknown_bounds(p, before.len() as int);
        assert(self.projects@.len() == self.projects.len());
        assert(self.current.documents@.len() == self.current.documents.len());
        assert forall|q: int| 0 <= q < post.refreshes@.len() implies complete(
            post.scope(q),
            #[trigger] post.refreshes@[q],
        ) by {
            assert(post.scope(q) == self.scope(q));
            if q < p {
                assert(post.refreshes@.take(p)[q] == self.refreshes@[q]);
            }
        }
        if let RunStage::Reading { project, document } = post.stage {
            assert(post.scope(p) == self.scope(p));
        }
    }

    fn top(&mut self, cancelled: bool) -> (action: RunAction)
        ensures
            old(self).at_top(cancelled, *final(self), action),
    {
        if cancelled {
            self.stage = RunStage::Finished;
            RunAction::Pause(PauseReason::UserInterrupt)
        } else {
            self.stage = RunStage::Loading;
            RunAction::LoadStaged
        }
    }

    #[verifier::rlimit(40)]
    fn walk(&mut self, p: usize, cancelled: bool) -> (action: RunAction)
        requires
            p < old(self).projects@.len(),
            old(self).refreshes@.len() == p,
            observed(
                old(self).scope(p as int),
                old(self).current,
                old(self).current.observations@.len() as int,
            ),
        ensures
            old(self).walked(
                p as int,
                old(self).current.observations@,
                cancelled,
                *final(self),
                action,
            ),
            final(self).stage matches RunStage::Reading { project, document }
                ==> observed(old(self).scope(p as int), final(self).current, document as int),
    {
        let ghost pre = *self;
        let ghost before = self.current.observations@;
        let start: usize = self.current.observations.len();
        if cancelled && start < self.current.documents.len() {
            self.stage = RunStage::Finished;
            return RunAction::Pause(PauseReason::UserInterrupt);
        }
        let mut i: usize = start;
        let documents: usize = self.current.documents.len();
        assert(self.current.observations@.take(before.len() as int) =~= before);
        while i < documents
            invariant
                start <= i <= documents,
                pre == *old(self),
                !(cancelled && start < documents),
                p < pre.projects@.len(),
                before.len() == start,
                pre.current.observations@ == before,
                observed(pre.scope(p as int), pre.current, start as int),
                documents == pre.current.documents@.len(),
                observed(pre.scope(p as int), self.current, i as int),
                self.current == (ProjectRefresh {
                    observations: self.current.observations,
                    ..pre.current
                }),
                *self == (Self { current: self.current, ..pre }),
                pre.continues(p as int, before, self.current.observations@, i as int),
                pre.next_unknown(p as int, start as int) == pre.next_unknown(p as int, i as int),
            decreases documents - i,
        {
            let document = &self.current.documents[i];
            let live = find_live(&self.current.live, document.id.as_str());
            let row = find_staged(
                &self.staged,
                self.projects[p].label.as_str(),
                document.id.as_str(),
            );
            let known = trusted_hash(
                self.projects[p].may_trust,
                live,
                row,
                document,
                self.current.revisions[i].as_str(),
            );
            match known {
                None => {
                    assert(pre.hash_known(p as int, i as int) is None);
                    self.stage = RunStage::Reading { project: p, document: i };
                    return RunAction::Read { project: p, document: i };
                },
                Some(hash) => {
                    assert(pre.hash_known(p as int, i as int) == Some(hash@));
                    let seen = observation(
                        self.config_fingerprint.as_str(),
                        self.projects[p].provider_fingerprint.as_str(),
                        document,
                        self.current.revisions[i].as_str(),
                        &self.current.live,
                        hash,
                    );
                    let ghost previous = self.current.observations@;
                    self.current.observations.push(seen);
                    assert(self.current.observations@.take(start as int) =~= previous.take(
                        start as int,
                    ));
                    i += 1;
                },
            }
        }
        let ghost known = self.current.observations@;
        append_deletions(
            &mut self.current.observations,
            self.config_fingerprint.as_str(),
            self.projects[p].provider_fingerprint.as_str(),
            &self.current.documents,
            &self.current.live,
        );
        let mut finished = ProjectRefresh {
            documents: Vec::new(),
            revisions: Vec::new(),
            live: Vec::new(),
            observations: Vec::new(),
        };
        std::mem::swap(&mut finished, &mut self.current);
        proof {
            let n = pre.current.documents@.len() as int;
            let gone = choose|gone: Seq<usize>|
                #![trigger lists_gone(gone, pre.current.live@, pre.current.documents@, pre.current.live@.len() as int)]
                {
                    &&& lists_gone(
                        gone,
                        pre.current.live@,
                        pre.current.documents@,
                        pre.current.live@.len() as int,
                    )
                    &&& finished.observations@.len() == n + gone.len()
                    &&& finished.observations@.take(n) == known
                    &&& forall|g: int|
                        0 <= g < gone.len() ==> crate::indexer::manifest::deletes(
                            finished.observations@[n + g],
                            pre.scope(p as int),
                            pre.current.live@[(#[trigger] gone[g]) as int],
                        )
                };
            assert forall|i: int| 0 <= i < n implies #[trigger] finished.observations@[i] == known[i] by {
                assert(finished.observations@.take(n)[i] == known[i]);
            }
            assert(is_manifest(
                finished.observations@,
                pre.scope(p as int),
                pre.current.documents@,
                pre.current.revisions@,
                pre.current.live@,
                gone,
            ));
            assert(finished.documents == pre.current.documents);
            assert(finished.revisions == pre.current.revisions);
            assert(finished.live == pre.current.live);
            assert(complete(pre.scope(p as int), finished));
            assert(finished.observations@.take(start as int) =~= known.take(start as int));
        }
        self.refreshes.push(finished);
        assert(self.refreshes@.take(p as int) =~= pre.refreshes@);
        if p < self.projects.len() - 1 {
            self.stage = RunStage::Listing { project: p + 1 };
            RunAction::List { project: p + 1 }
        } else {
            self.refresh_attempt = 0;
            self.changed = false;
            self.stage = RunStage::Reconciling { project: 0 };
            RunAction::Reconcile { project: 0 }
        }
    }

    /// Some project has the label of pending row `k`.
    pub open spec fn project_known(self, k: int) -> bool {
        exists|p: int|
            0 <= p < self.projects@.len() && (#[trigger] self.projects@[p]).label@
                == self.pending@[k].project_label@
    }

    /// Pending row `k` belongs to a project of the run that no longer lists the
    /// document: the next refresh turns the row into a deletion.
    pub open spec fn skipped(self, k: int) -> bool {
        self.project_known(k) && forall|p: int, d: int| !#[trigger] self.row_is(k, p, d)
    }

    /// The first pending row at or after `k` that is not skipped.
    pub open spec fn next_open(self, k: int) -> int
        decreases self.pending@.len() - k,
    {
        if k < self.pending@.len() && self.skipped(k) {
            self.next_open(k + 1)
        } else {
            k
        }
    }

    /// The pending rows are gone through from row `k`: the first one whose
    /// document is still listed is opened; after the last the pass is complete
    /// and a refresh begins. A cancelled run stops at the first row.
    pub open spec fn opened(self, k: int, cancelled: bool, post: Self, action: RunAction) -> bool {
        let j = self.next_open(k);
        if cancelled && k < self.pending@.len() {
            &&& action == RunAction::Pause(PauseReason::UserInterrupt)
            &&& post == (Self { stage: RunStage::Finished, ..self })
        } else if j >= self.pending@.len() {
            (Self { completed_pass: true, ..self }).at_top(cancelled, post, action)
        } else if self.project_known(j) {
            action matches RunAction::Open { position, project, document } && {
                &&& position == j
                &&& self.row_is(j, project as int, document as int)
                &&& post == (Self {
                    stage: RunStage::Opening { position, project, document },
                    ..self
                })
            }
        } else {
            &&& action == RunAction::Fail
            &&& post.fault matches Some(RunFault::UnconfiguredProject(label))
            &&& label@ == self.pending@[j].project_label@
            &&& post == (Self { stage: RunStage::Finished, fault: post.fault, ..self })
        }
    }

    fn open(&mut self, from: usize, cancelled: bool) -> (action: RunAction)
        requires
            from <= old(self).pending@.len(),
            old(self).refreshes@.len() == old(self).projects@.len(),
            forall|i: int, j: int|
                0 <= i < j < old(self).projects@.len() ==> (
                #[trigger] old(self).projects@[i]).label@ != (
                #[trigger] old(self).projects@[j]).label@,
        ensures
            old(self).opened(from as int, cancelled, *final(self), action),
    {
        if cancelled && from < self.pending.len() {
            self.stage = RunStage::Finished;
            return RunAction::Pause(PauseReason::UserInterrupt);
        }
        let ghost pre = *self;
        let mut k: usize = from;
        while k < self.pending.len()
            invariant
                from <= k <= self.pending@.len(),
                *self == pre,
                pre == *old(self),
                !(cancelled && from < pre.pending@.len()),
                pre.refreshes@.len() == pre.projects@.len(),
                forall|i: int, j: int|
                    0 <= i < j < pre.projects@.len() ==> (#[trigger] pre.projects@[i]).label@ != (
                    #[trigger] pre.projects@[j]).label@,
                pre.next_open(from as int) == pre.next_open(k as int),
            decreases self.pending@.len() - k,
        {
            let mut p: usize = 0;
            while p < self.projects.len() && !same(
                self.projects[p].label.as_str(),
                self.pending[k].project_label.as_str(),
            )
                invariant
                    k < self.pending@.len(),
                    p <= self.projects@.len(),
                    *self == pre,
                    forall|q: int|
                        0 <= q < p ==> (#[trigger] pre.projects@[q]).label@
                            != pre.pending@[k as int].project_label@,
                decreases self.projects@.len() - p,
            {
                p += 1;
            }
            if p == self.projects.len() {
                assert(!pre.project_known(k as int));
                self.fault = Some(
                    RunFault::UnconfiguredProject(self.pending[k].project_label.clone()),
                );
                self.stage = RunStage::Finished;
                return RunAction::Fail;
            }
            assert(pre.project_known(k as int));
            let mut d: usize = 0;
            while d < self.refreshes[p].documents.len() && !same(
                self.refreshes[p].documents[d].id.as_str(),
                self.pending[k].source_document_id.as_str(),
            )
                invariant
                    k < self.pending@.len(),
                    p < self.projects@.len() == self.refreshes@.len(),
                    d <= self.refreshes@[p as int].documents@.len(),
                    *self == pre,
                    forall|e: int|
                        0 <= e < d ==> (#[trigger] pre.refreshes@[p as int].documents@[e]).id@
                            != pre.pending@[k as int].source_document_id@,
                decreases self.refreshes@[p as int].documents@.len() - d,
            {
                d += 1;
            }
            if d < self.refreshes[p].documents.len() {
                assert(pre.row_is(k as int, p as int, d as int));
                self.stage = RunStage::Opening { position: k, project: p, document: d };
                return RunAction::Open { position: k, project: p, document: d };
            }
            assert(pre.skipped(k as int)) by {
                assert forall|q: int, e: int| !#[trigger] pre.row_is(k as int, q, e) by {
                    if pre.row_is(k as int, q, e) {
                        assert(pre.projects@[q].label@ == pre.projects@[p as int].label@);
                        assert(q == p);
                        assert(pre.refreshes@[p as int].documents@[e].id@
                            != pre.pending@[k as int].source_document_id@);
                    }
                }
            }
            k += 1;
        }
        self.completed_pass = true;
        self.top(cancelled)
    }
}

/// The JSON text that is stored with a document's failure.
pub open spec fn failure_object(kind: Seq<char>, message: Seq<char>) -> Seq<char> {
    object_text(seq![("kind"@, json_literal(kind)), ("message"@, json_literal(message))])
}

/// Writes the JSON text that is stored with a failure.
pub fn failure_text(kind: &str, message: &str) -> (r: String)
    ensures
        r@ == failure_object(kind@, message@),
{
    let members: Vec<(&str, String)> = vec![("kind", quote(kind)), ("message", quote(message))];
    let r = write_object(&members);
    assert(member_views(members@) =~= seq![
        ("kind"@, json_literal(kind@)),
        ("message"@, json_literal(message@)),
    ]);
    r
}

impl RunMachine {
    /// The failures of the document of pending row `k` so far.
    pub open spec fn failures(self, k: int) -> nat {
        attempts_of(
            self.attempts@,
            self.pending@[k].project_label@,
            self.pending@[k].source_document_id@,
        )
    }

    /// The content hash of document `d` is now known to be `hash`.
    pub open spec fn learned(
        self,
        p: int,
        d: int,
        hash: Seq<char>,
        cancelled: bool,
        post: Self,
        action: RunAction,
    ) -> bool {
        exists|m: ManifestDocument|
            #![trigger self.current.observations@.push(m)]
            {
                &&& observes(
                    m,
                    self.scope(p),
                    self.current.documents@[d],
                    self.current.revisions@[d]@,
                    self.current.live@,
                    hash,
                )
                &&& self.walked(p, self.current.observations@.push(m), cancelled, post, action)
            }
    }

    /// What a run does when the last action has been carried out.
    pub open spec fn done(self, cancelled: bool, post: Self, action: RunAction) -> bool {
        match self.stage {
            RunStage::Idle => self.at_top(cancelled, post, action),
            RunStage::Counting => if self.refresh_policy.mode == RefreshMode::PauseOnChange {
                &&& action == RunAction::Pause(PauseReason::SourceChanged)
                &&& post == (Self { stage: RunStage::Finished, ..self })
            } else {
                &&& action == RunAction::Settle {
                    millis: self.refresh_policy.settle_delay_millis,
                }
                &&& post == (Self { stage: RunStage::Settling, ..self })
            },
            RunStage::Settling => {
                &&& action == RunAction::Select
                &&& post == (Self { stage: RunStage::Selecting, ..self })
            },
            RunStage::Entering => self.opened(0, cancelled, post, action),
            RunStage::Preparing { position } => {
                &&& action == RunAction::Checkpoint { position }
                &&& post == (Self { stage: RunStage::Saving { position }, ..self })
            },
            RunStage::Saving { position } => self.opened(position + 1, cancelled, post, action),
            RunStage::Failing => {
                &&& action == RunAction::Pause(PauseReason::DocumentError)
                &&& post == (Self { stage: RunStage::Finished, ..self })
            },
            RunStage::Publishing => {
                &&& action == RunAction::Committed
                &&& post == (Self { stage: RunStage::Finished, ..self })
            },
            _ => self.rejects(post, action),
        }
    }

    /// The event does not answer the last action: nothing changes.
    pub open spec fn rejects(self, post: Self, action: RunAction) -> bool {
        action == RunAction::Rejected && post == self
    }

    /// What a run does with the journal rows. Before a refresh they are kept and
    /// the first project is listed. After a refresh those that are pending are
    /// processed; where none is, the run is published if this refresh changed
    /// nothing and a processing pass has ended, and refreshed once more if not.
    pub open spec fn rows_loaded(
        self,
        rows: Vec<StagedDocument>,
        cancelled: bool,
        post: Self,
        action: RunAction,
    ) -> bool {
        match self.stage {
            RunStage::Loading => {
                &&& action == RunAction::List { project: 0 }
                &&& post.refreshes@.len() == 0
                &&& post == (Self {
                    stage: RunStage::Listing { project: 0 },
                    staged: rows,
                    refreshes: post.refreshes,
                    ..self
                })
            },
            RunStage::Selecting => {
                &&& post.pending@ == pending_rows(rows@)
                &&& if post.pending@.len() > 0 {
                    &&& action == RunAction::EnterProcessing
                    &&& post == (Self {
                        stage: RunStage::Entering,
                        pending: post.pending,
                        ..self
                    })
                } else if self.changed || !self.completed_pass {
                    (Self { completed_pass: true, pending: post.pending, ..self }).at_top(
                        cancelled,
                        post,
                        action,
                    )
                } else if cancelled {
                    &&& action == RunAction::Pause(PauseReason::UserInterrupt)
                    &&& post == (Self {
                        stage: RunStage::Finished,
                        pending: post.pending,
                        ..self
                    })
                } else {
                    &&& action == RunAction::Publish
                    &&& post == (Self {
                        stage: RunStage::Publishing,
                        pending: post.pending,
                        ..self
                    })
                }
            },
            _ => self.rejects(post, action),
        }
    }

    /// What a run does with a provider's document list.
    pub open spec fn listed(
        self,
        documents: Vec<SourceDocument>,
        revisions: Vec<String>,
        live: Vec<FileRecord>,
        cancelled: bool,
        post: Self,
        action: RunAction,
    ) -> bool {
        match self.stage {
            RunStage::Listing { project } => if revisions@.len() != documents@.len() {
                self.rejects(post, action)
            } else if documents_valid(documents@) {
                let seen = ProjectRefresh {
                    documents,
                    revisions,
                    live,
                    observations: self.current.observations,
                };
                (Self { current: seen, ..self }).walked(
                    project as int,
                    Seq::empty(),
                    cancelled,
                    post,
                    action,
                )
            } else {
                &&& action == RunAction::Fail
                &&& post.fault matches Some(RunFault::Documents(fault))
                &&& exists|i: int|
                    0 <= i < documents@.len() && documents_valid(documents@.take(i))
                        && #[trigger] reported_fault(documents@, i, fault)
                &&& post == (Self { stage: RunStage::Finished, fault: post.fault, ..self })
            },
            _ => self.rejects(post, action),
        }
    }

    /// What a run does with the content of a document. While it refreshes, the
    /// content gives the hash; a document that has moved on makes it give the
    /// refresh up, wait, and begin again. While it processes, content that is no
    /// longer what was observed sends the row back; other content is prepared.
    pub open spec fn read(
        self,
        read: StableRead,
        cancelled: bool,
        post: Self,
        action: RunAction,
    ) -> bool {
        match self.stage {
            RunStage::Reading { project, document } => match read {
                StableRead::Content { source, revision } if revision.same_as(
                    &self.current.documents@[document as int].revision,
                ) => self.learned(
                    project as int,
                    document as int,
                    text_hash(source@),
                    cancelled,
                    post,
                    action,
                ),
                _ => {
                    let attempt = if self.refresh_attempt < u32::MAX {
                        (self.refresh_attempt + 1) as u32
                    } else {
                        u32::MAX
                    };
                    &&& action matches RunAction::BackOff { millis }
                    &&& millis == self.refresh_policy.retry_backoff.wait(attempt)
                    &&& post == (Self {
                        stage: RunStage::Idle,
                        refresh_attempt: attempt,
                        ..self
                    })
                },
            },
            RunStage::Opening { position, project, document } => {
                let row = self.pending@[position as int];
                match read {
                    StableRead::Content { source, revision } if revision.same_as(
                        &self.refreshes@[project as int].documents@[document as int].revision,
                    ) && opt_view(row.observed_source_hash) == Some(text_hash(source@)) => if (
                    row.input_fingerprint is None) {
                        &&& action == RunAction::Fail
                        &&& post == (Self {
                            stage: RunStage::Finished,
                            fault: Some(RunFault::NoInputFingerprint),
                            ..self
                        })
                    } else {
                        &&& action == RunAction::Prepare { position }
                        &&& post.source_hash@ == text_hash(source@)
                        &&& post == (Self {
                            stage: RunStage::Preparing { position },
                            source_hash: post.source_hash,
                            ..self
                        })
                    },
                    _ => {
                        &&& action == RunAction::ResetPending { position }
                        &&& post == (Self { stage: RunStage::Idle, completed_pass: true, ..self })
                    },
                }
            },
            _ => self.rejects(post, action),
        }
    }

    /// What a run does when a document cannot be read. While it refreshes, the
    /// document is observed with a marker in place of its hash. While it
    /// processes, the document is tried again later as long as its failures stay
    /// below the limit; the failure that reaches the limit is recorded.
    pub open spec fn not_read(
        self,
        message: Seq<char>,
        cancelled: bool,
        post: Self,
        action: RunAction,
    ) -> bool {
        match self.stage {
            RunStage::Reading { project, document } => self.learned(
                project as int,
                document as int,
                "<read-error>"@,
                cancelled,
                post,
                action,
            ),
            RunStage::Opening { position, .. } => {
                let row = self.pending@[position as int];
                let count = self.failures(position as int) + 1;
                &&& forall|l: Seq<char>, d: Seq<char>| #[trigger]
                    attempts_of(post.attempts@, l, d) == if l == row.project_label@ && d
                        == row.source_document_id@ {
                        count
                    } else {
                        attempts_of(self.attempts@, l, d)
                    }
                &&& if count < self.retry_policy.document_attempts_per_invocation {
                    &&& action matches RunAction::RetryLater { position: at, millis }
                    &&& at == position
                    &&& millis == self.retry_policy.backoff.wait(count as u32)
                    &&& post == (Self {
                        stage: RunStage::Idle,
                        completed_pass: true,
                        attempts: post.attempts,
                        ..self
                    })
                } else {
                    &&& action == RunAction::RecordFailure { position }
                    &&& opt_view(post.error) == Some(failure_object("document_read"@, message))
                    &&& post == (Self {
                        stage: RunStage::Failing,
                        attempts: post.attempts,
                        error: post.error,
                        ..self
                    })
                }
            },
            _ => self.rejects(post, action),
        }
    }

    /// What a run does when a project's manifest has been taken in: the next
    /// one follows; after the last, a change that comes after a processing pass
    /// counts as a refresh round.
    pub open spec fn reconciled(self, changed: bool, post: Self, action: RunAction) -> bool {
        match self.stage {
            RunStage::Reconciling { project } => {
                let any = self.changed || changed;
                let (next, stage) = if project + 1 < self.projects@.len() {
                    (
                        RunAction::Reconcile { project: (project + 1) as usize },
                        RunStage::Reconciling { project: (project + 1) as usize },
                    )
                } else if any && self.completed_pass {
                    (RunAction::CountRound, RunStage::Counting)
                } else {
                    (RunAction::Select, RunStage::Selecting)
                };
                action == next && post == (Self { stage, changed: any, ..self })
            },
            _ => self.rejects(post, action),
        }
    }

    /// One step of a run.
    pub open spec fn stepped(
        self,
        event: RunEvent,
        cancelled: bool,
        post: Self,
        action: RunAction,
    ) -> bool {
        match event {
            RunEvent::Done => self.done(cancelled, post, action),
            RunEvent::Staged(rows) => self.rows_loaded(rows, cancelled, post, action),
            RunEvent::Listed { documents, revisions, live } => self.listed(
                documents,
                revisions,
                live,
                cancelled,
                post,
                action,
            ),
            RunEvent::NotListed(message) => if self.stage is Listing {
                &&& action == RunAction::Pause(PauseReason::ProviderError)
                &&& post == (Self { stage: RunStage::Finished, error: Some(message), ..self })
            } else {
                self.rejects(post, action)
            },
            RunEvent::Read(read) => self.read(read, cancelled, post, action),
            RunEvent::NotRead(message) => self.not_read(message@, cancelled, post, action),
            RunEvent::Reconciled(changed) => self.reconciled(changed, post, action),
            RunEvent::NotPrepared(message) => match self.stage {
                RunStage::Preparing { position } => {
                    &&& action == RunAction::RecordFailure { position }
                    &&& opt_view(post.error) == Some(
                        failure_object("document_processing"@, message@),
                    )
                    &&& post == (Self { stage: RunStage::Failing, error: post.error, ..self })
                },
                _ => self.rejects(post, action),
            },
        }
    }

    /// A run at its beginning.
    pub fn new(
        projects: Vec<RunProject>,
        config_fingerprint: String,
        refresh_policy: RefreshPolicy,
        retry_policy: RetryPolicy,
        completed_pass: bool,
    ) -> (r: Self)
        requires
            projects@.len() > 0,
            retry_policy.document_attempts_per_invocation > 0,
            forall|i: int, j: int|
                0 <= i < j < projects@.len() ==> (#[trigger] projects@[i]).label@ != (
                #[trigger] projects@[j]).label@,
        ensures
            r.wf(),
            r.stage == RunStage::Idle,
            r.projects == projects,
            r.config_fingerprint == config_fingerprint,
            r.refresh_policy == refresh_policy,
            r.retry_policy == retry_policy,
            r.completed_pass == completed_pass,
            r.refresh_attempt == 0,
            r.attempts@.len() == 0,
            r.error is None,
            r.fault is None,
    {
        Self {
            projects,
            config_fingerprint,
            refresh_policy,
            retry_policy,
            stage: RunStage::Idle,
            completed_pass,
            refresh_attempt: 0,
            attempts: Vec::new(),
            staged: Vec::new(),
            current: ProjectRefresh {
                documents: Vec::new(),
                revisions: Vec::new(),
                live: Vec::new(),
                observations: Vec::new(),
            },
            refreshes: Vec::new(),
            changed: false,
            pending: Vec::new(),
            source_hash: String::new(),
            error: None,
            fault: None,
        }
    }

    fn on_done(&mut self, cancelled: bool) -> (action: RunAction)
        requires
            old(self).wf(),
        ensures
            old(self).done(cancelled, *final(self), action),
            final(self).wf(),
    {
        match self.stage {
            RunStage::Idle => self.top(cancelled),
            RunStage::Counting => {
                if self.refresh_policy.mode == RefreshMode::PauseOnChange {
                    self.stage = RunStage::Finished;
                    RunAction::Pause(PauseReason::SourceChanged)
                } else {
                    self.stage = RunStage::Settling;
                    RunAction::Settle { millis: self.refresh_policy.settle_delay_millis }
                }
            },
            RunStage::Settling => {
                self.stage = RunStage::Selecting;
                RunAction::Select
            },
            RunStage::Entering => self.open(0, cancelled),
            RunStage::Preparing { position } => {
                self.stage = RunStage::Saving { position };
                RunAction::Checkpoint { position }
            },
            RunStage::Saving { position } => {
                assert(self.pending@.len() == self.pending.len());
                self.open(position + 1, cancelled)
            },
            RunStage::Failing => {
                self.stage = RunStage::Finished;
                RunAction::Pause(PauseReason::DocumentError)
            },
            RunStage::Publishing => {
                self.stage = RunStage::Finished;
                RunAction::Committed
            },
            _ => RunAction::Rejected,
        }
    }

    fn on_staged(&mut self, rows: Vec<StagedDocument>, cancelled: bool) -> (action: RunAction)
        requires
            old(self).wf(),
        ensures
            old(self).rows_loaded(rows, cancelled, *final(self), action),
            final(self).wf(),
    {
        match self.stage {
            RunStage::Loading => {
                self.staged = rows;
                self.refreshes = Vec::new();
                self.stage = RunStage::Listing { project: 0 };
                RunAction::List { project: 0 }
            },
            RunStage::Selecting => {
                self.pending = select_pending(&rows);
                if self.pending.len() > 0 {
                    self.stage = RunStage::Entering;
                    RunAction::EnterProcessing
                } else if self.changed || !self.completed_pass {
                    self.completed_pass = true;
                    self.top(cancelled)
                } else if cancelled {
                    self.stage = RunStage::Finished;
                    RunAction::Pause(PauseReason::UserInterrupt)
                } else {
                    self.stage = RunStage::Publishing;
                    RunAction::Publish
                }
            },
            _ => RunAction::Rejected,
        }
    }

    fn on_listed(
        &mut self,
        documents: Vec<SourceDocument>,
        revisions: Vec<String>,
        live: Vec<FileRecord>,
        cancelled: bool,
    ) -> (action: RunAction)
        requires
            old(self).wf(),
        ensures
            old(self).listed(documents, revisions, live, cancelled, *final(self), action),
            final(self).wf(),
    {
        match self.stage {
            RunStage::Listing { project } => {
                if revisions.len() != documents.len() {
                    return RunAction::Rejected;
                }
                match validate_documents(&documents) {
                    Err(fault) => {
                        self.fault = Some(RunFault::Documents(fault));
                        self.stage = RunStage::Finished;
                        RunAction::Fail
                    },
                    Ok(()) => {
                        let ghost pre = *self;
                        let observations: Vec<ManifestDocument> = Vec::new();
                        self.current = ProjectRefresh { documents, revisions, live, observations };
                        let ghost mid = *self;
                        let action = self.walk(project, cancelled);
                        proof {
                            let seen = RunMachine {
                                current: ProjectRefresh {
                                    observations: pre.current.observations,
                                    ..mid.current
                                },
                                ..mid
                            };
                            mid.next_unknown_same(seen, project as int, 0);
                            assert(observations@ =~= Seq::<ManifestDocument>::empty());
                            mid.walked_keeps_wf(
                                project as int,
                                observations@,
                                cancelled,
                                *self,
                                action,
                            );
                        }
                        action
                    },
                }
            },
            _ => RunAction::Rejected,
        }
    }

    fn learn(&mut self, p: usize, d: usize, hash: String, cancelled: bool) -> (action: RunAction)
        requires
            old(self).wf(),
            old(self).stage == (RunStage::Reading { project: p, document: d }),
        ensures
            old(self).learned(p as int, d as int, hash@, cancelled, *final(self), action),
            final(self).wf(),
    {
        let ghost pre = *self;
        let seen = observation(
            self.config_fingerprint.as_str(),
            self.projects[p].provider_fingerprint.as_str(),
            &self.current.documents[d],
            self.current.revisions[d].as_str(),
            &self.current.live,
            hash,
        );
        self.current.observations.push(seen);
        let ghost mid = *self;
        assert(mid.current.observations@ == pre.current.observations@.push(seen));
        let action = self.walk(p, cancelled);
        proof {
            let before = mid.current.observations@;
            mid.next_unknown_same(pre, p as int, before.len() as int);
            assert(pre.walked(p as int, before, cancelled, *self, action));
            pre.walked_keeps_wf(p as int, before, cancelled, *self, action);
        }
        action
    }

    fn on_read(&mut self, read: StableRead, cancelled: bool) -> (action: RunAction)
        requires
            old(self).wf(),
        ensures
            old(self).read(read, cancelled, *final(self), action),
            final(self).wf(),
    {
        match self.stage {
            RunStage::Reading { project, document } => {
                if let StableRead::Content { source, revision } = &read {
                    if revision.is_same(&self.current.documents[document].revision) {
                        let hash = sha256_hex(source.as_str());
                        return self.learn(project, document, hash, cancelled);
                    }
                }
                if self.refresh_attempt < u32::MAX {
                    self.refresh_attempt = self.refresh_attempt + 1;
                }
                self.stage = RunStage::Idle;
                RunAction::BackOff {
                    millis: self.refresh_policy.retry_backoff.delay(self.refresh_attempt),
                }
            },
            RunStage::Opening { position, project, document } => {
                if let StableRead::Content { source, revision } = &read {
                    let hash = sha256_hex(source.as_str());
                    let listed = &self.refreshes[project].documents[document];
                    let unchanged = match &self.pending[position].observed_source_hash {
                        Some(observed) => same(observed.as_str(), hash.as_str()),
                        None => false,
                    };
                    if revision.is_same(&listed.revision) && unchanged {
                        if self.pending[position].input_fingerprint.is_none() {
                            self.fault = Some(RunFault::NoInputFingerprint);
                            self.stage = RunStage::Finished;
                            return RunAction::Fail;
                        }
                        self.source_hash = hash;
                        self.stage = RunStage::Preparing { position };
                        return RunAction::Prepare { position };
                    }
                }
                self.completed_pass = true;
                self.stage = RunStage::Idle;
                RunAction::ResetPending { position }
            },
            _ => RunAction::Rejected,
        }
    }

    fn on_not_read(&mut self, message: &str, cancelled: bool) -> (action: RunAction)
        requires
            old(self).wf(),
        ensures
            old(self).not_read(message@, cancelled, *final(self), action),
            final(self).wf(),
    {
        match self.stage {
            RunStage::Reading { project, document } => self.learn(
                project,
                document,
                "<read-error>".to_owned(),
                cancelled,
            ),
            RunStage::Opening { position, project: _, document: _ } => {
                let limit: u32 = self.retry_policy.document_attempts_per_invocation;
                let count: u32 = count_attempt(
                    &mut self.attempts,
                    self.pending[position].project_label.as_str(),
                    self.pending[position].source_document_id.as_str(),
                    limit,
                );
                if count < limit {
                    self.completed_pass = true;
                    self.stage = RunStage::Idle;
                    RunAction::RetryLater {
                        position,
                        millis: self.retry_policy.backoff.delay(count),
                    }
                } else {
                    self.error = Some(failure_text("document_read", message));
                    self.stage = RunStage::Failing;
                    RunAction::RecordFailure { position }
                }
            },
            _ => RunAction::Rejected,
        }
    }

    /// Takes in what the outside world did and says what it is to do next.
    /// `cancelled` tells whether the run has been cancelled by now.
    pub fn step(&mut self, event: RunEvent, cancelled: bool) -> (action: RunAction)
        requires
            old(self).wf(),
        ensures
            old(self).stepped(event, cancelled, *final(self), action),
            final(self).wf(),
    {
        match event {
            RunEvent::Done => self.on_done(cancelled),
            RunEvent::Staged(rows) => self.on_staged(rows, cancelled),
            RunEvent::Listed { documents, revisions, live } => self.on_listed(
                documents,
                revisions,
                live,
                cancelled,
            ),
            RunEvent::NotListed(message) => match self.stage {
                RunStage::Listing { project: _ } => {
                    self.error = Some(message);
                    self.stage = RunStage::Finished;
                    RunAction::Pause(PauseReason::ProviderError)
                },
                _ => RunAction::Rejected,
            },
            RunEvent::Read(read) => self.on_read(read, cancelled),
            RunEvent::NotRead(message) => self.on_not_read(message.as_str(), cancelled),
            RunEvent::Reconciled(changed) => match self.stage {
                RunStage::Reconciling { project } => {
                    self.changed = self.changed || changed;
                    if project < self.projects.len() - 1 {
                        self.stage = RunStage::Reconciling { project: project + 1 };
                        RunAction::Reconcile { project: project + 1 }
                    } else if self.changed && self.completed_pass {
                        self.stage = RunStage::Counting;
                        RunAction::CountRound
                    } else {
                        self.stage = RunStage::Selecting;
                        RunAction::Select
                    }
                },
                _ => RunAction::Rejected,
            },
            RunEvent::NotPrepared(message) => match self.stage {
                RunStage::Preparing { position } => {
                    self.error = Some(failure_text("document_processing", message.as_str()));
                    self.stage = RunStage::Failing;
                    RunAction::RecordFailure { position }
                },
                _ => RunAction::Rejected,
            },
        }
    }
}

/// A run is published only from a refresh that changed nothing, with no row left
/// pending, after a processing pass has ended, and never once it is cancelled.
pub proof fn only_a_settled_run_is_published(
    pre: RunMachine,
    event: RunEvent,
    cancelled: bool,
    post: RunMachine,
)
    requires
        pre.stepped(event, cancelled, post, RunAction::Publish),
    ensures
        pre.stage == RunStage::Selecting,
        event matches RunEvent::Staged(rows) && pending_rows(rows@).len() == 0,
        !pre.changed,
        pre.completed_pass,
        !cancelled,
{
}

/// Once it is cancelled a run begins no refresh, reads no document, opens no
/// document and publishes nothing.
pub proof fn a_cancelled_run_begins_nothing(
    pre: RunMachine,
    event: RunEvent,
    post: RunMachine,
    action: RunAction,
)
    requires
        pre.stepped(event, true, post, action),
    ensures
        action != RunAction::LoadStaged,
        action != RunAction::Publish,
        !(action is Read),
        !(action is Open),
{
    if let RunEvent::Listed { documents, revisions, live } = event {
        if let RunStage::Listing { project } = pre.stage {
            let seen = RunMachine {
                current: ProjectRefresh {
                    documents,
                    revisions,
                    live,
                    observations: pre.current.observations,
                },
                ..pre
            };
            assert(seen.next_unknown(project as int, 0) >= 0) by {
                seen.next_unknown_bounds(project as int, 0);
            }
        }
    }
    if let RunStage::Reading { project, document } = pre.stage {
        assert forall|before: Seq<ManifestDocument>|
            #![trigger pre.walked(project as int, before, true, post, action)]
            pre.walked(project as int, before, true, post, action) implies !(action is Read) by {
            if before.len() >= pre.current.documents@.len() {
                assert(pre.next_unknown(project as int, before.len() as int) == before.len());
            }
        }
    }
}

/// The manifest that is reconciled is complete: the provider's list is valid,
/// every document on it is observed once and in order, and every live document
/// that is not on it is deleted.
pub proof fn only_complete_manifests_are_reconciled(
    pre: RunMachine,
    event: RunEvent,
    cancelled: bool,
    post: RunMachine,
    project: usize,
)
    requires
        pre.wf(),
        post.wf(),
        pre.stepped(event, cancelled, post, RunAction::Reconcile { project }),
    ensures
        project < post.refreshes@.len(),
        complete(post.scope(project as int), post.refreshes@[project as int]),
{
}

/// A document that cannot be read is tried again only while its failures are
/// below the limit, and its failure is recorded when they reach it.
pub proof fn document_attempts_are_limited(
    pre: RunMachine,
    message: String,
    cancelled: bool,
    post: RunMachine,
    action: RunAction,
)
    requires
        pre.wf(),
        pre.stepped(RunEvent::NotRead(message), cancelled, post, action),
    ensures
        pre.stage matches RunStage::Opening { position, .. } ==> {
            let limit = pre.retry_policy.document_attempts_per_invocation;
            &&& post.failures(position as int) == pre.failures(position as int) + 1
            &&& action is RetryLater <==> post.failures(position as int) < limit
            &&& action is RecordFailure <==> post.failures(position as int) >= limit
        },
{
}

/// A finished run takes in nothing more.
pub proof fn a_finished_run_stays_finished(
    pre: RunMachine,
    event: RunEvent,
    cancelled: bool,
    post: RunMachine,
    action: RunAction,
)
    requires
        pre.stage == RunStage::Finished,
        pre.stepped(event, cancelled, post, action),
    ensures
        post == pre,
        action == RunAction::Rejected,
{
}

/// No step changes what a run was set up with.
pub proof fn a_run_keeps_its_setup(
    pre: RunMachine,
    event: RunEvent,
    cancelled: bool,
    post: RunMachine,
    action: RunAction,
)
    requires
        pre.stepped(event, cancelled, post, action),
    ensures
        post.projects == pre.projects,
        post.config_fingerprint == pre.config_fingerprint,
        post.refresh_policy == pre.refresh_policy,
        post.retry_policy == pre.retry_policy,
{
}

/// Only content that is what the journal waits for is prepared: it has the revision of the
/// listed document and the hash of the pending row, which carries a fingerprint.
pub proof fn only_expected_content_is_prepared(
    pre: RunMachine,
    event: RunEvent,
    cancelled: bool,
    post: RunMachine,
    position: usize,
)
    requires
        pre.wf(),
        pre.stepped(event, cancelled, post, RunAction::Prepare { position }),
    ensures
        pre.stage is Opening,
        event is Read && event->Read_0 is Content,
        ({
            let row = pre.pending@[position as int];
            let (project, document) = (
                pre.stage->Opening_project as int,
                pre.stage->Opening_document as int,
            );
            let listed = pre.refreshes@[project].documents@[document];
            let source = event->Read_0->Content_source;
            &&& position == pre.stage->Opening_position
            &&& listed.id@ == row.source_document_id@
            &&& pre.projects@[project].label@ == row.project_label@
            &&& event->Read_0->Content_revision.same_as(&listed.revision)
            &&& opt_view(row.observed_source_hash) == Some(text_hash(source@))
            &&& row.input_fingerprint is Some
            &&& post.source_hash@ == text_hash(source@)
        }),
{
    match pre.stage {
        RunStage::Opening { position: at, project, document } => {
            assert(pre.row_is(at as int, project as int, document as int));
        },
        _ => {},
    }
}

/// Content that is not what the journal waits for sends its document back to be observed
/// anew, and a source that moves while it is observed starts the refresh over after a wait.
pub proof fn moved_sources_are_observed_anew(
    pre: RunMachine,
    read: StableRead,
    cancelled: bool,
    post: RunMachine,
    action: RunAction,
)
    requires
        pre.wf(),
        pre.stepped(RunEvent::Read(read), cancelled, post, action),
    ensures
        pre.stage matches RunStage::Opening { position, project, document } ==> {
            let listed = pre.refreshes@[project as int].documents@[document as int];
            let row = pre.pending@[position as int];
            !(read matches StableRead::Content { source, revision } && revision.same_as(
                &listed.revision,
            ) && opt_view(row.observed_source_hash) == Some(text_hash(source@))) ==> {
                &&& action == RunAction::ResetPending { position }
                &&& post.stage == RunStage::Idle && post.completed_pass
                &&& post.attempts == pre.attempts
            }
        },
        pre.stage matches RunStage::Reading { project, document } ==> {
            let listed = pre.current.documents@[document as int];
            !(read matches StableRead::Content { source, revision } && revision.same_as(
                &listed.revision,
            )) ==> {
                &&& action is BackOff && post.stage == RunStage::Idle
                &&& pre.refresh_attempt < u32::MAX ==> post.refresh_attempt == pre.refresh_attempt
                    + 1
                &&& action->BackOff_millis == pre.refresh_policy.retry_backoff.wait(
                    post.refresh_attempt,
                )
            }
        },
{
}

/// A run that pauses says why: it was cancelled, a provider could not list its documents, a
/// document failed, or the sources changed and the run is to pause on that.
pub proof fn a_pause_has_its_cause(
    pre: RunMachine,
    event: RunEvent,
    cancelled: bool,
    post: RunMachine,
    reason: PauseReason,
)
    requires
        pre.stepped(event, cancelled, post, RunAction::Pause(reason)),
    ensures
        post.stage == RunStage::Finished,
        match reason {
            PauseReason::UserInterrupt => cancelled,
            PauseReason::ProviderError => pre.stage is Listing && event is NotListed && post.error
                == Some(event->NotListed_0),
            PauseReason::SourceChanged => pre.stage == RunStage::Counting
                && pre.refresh_policy.mode == RefreshMode::PauseOnChange,
            PauseReason::DocumentError => pre.stage == RunStage::Failing,
        },
{
}

/// A run ends with a pause, a failure or a commit, and with nothing else; each of them ends
/// it.
pub proof fn a_run_ends_with_an_outcome(
    pre: RunMachine,
    event: RunEvent,
    cancelled: bool,
    post: RunMachine,
    action: RunAction,
)
    requires
        pre.stage != RunStage::Finished,
        pre.stepped(event, cancelled, post, action),
    ensures
        post.stage == RunStage::Finished <==> action is Pause || action is Fail || action
            == RunAction::Committed,
        action == RunAction::Committed ==> pre.stage == RunStage::Publishing && event
            == RunEvent::Done,
        action == RunAction::Fail ==> post.fault is Some,
{
}

/// Projects are listed and reconciled one after the other, from the first to the last, and
/// no manifest is taken in before every project is observed.
pub proof fn projects_follow_one_another(
    pre: RunMachine,
    event: RunEvent,
    cancelled: bool,
    post: RunMachine,
    action: RunAction,
)
    requires
        pre.wf(),
        post.wf(),
        pre.stepped(event, cancelled, post, action),
    ensures
        action matches RunAction::List { project } ==> post.refreshes@.len() == project && (project
            > 0 ==> pre.refreshes@.len() == project - 1),
        action matches RunAction::Reconcile { project } ==> {
            &&& post.refreshes@.len() == post.projects@.len()
            &&& project > 0 ==> pre.stage == RunStage::Reconciling {
                project: (project - 1) as usize,
            } && event is Reconciled
        },
        event is Reconciled && pre.stage is Reconciling && !(action is Reconcile)
            ==> pre.stage->Reconciling_project + 1 == pre.projects@.len(),
{
    assert(pre.projects.len() == pre.projects@.len());
}

/// A manifest that changes the journal is remembered for the refresh, however the others
/// turn out; only a change after a finished pass counts as a round, and only a round makes
/// the run wait or pause.
pub proof fn a_change_is_remembered(
    pre: RunMachine,
    event: RunEvent,
    cancelled: bool,
    post: RunMachine,
    action: RunAction,
)
    requires
        pre.stepped(event, cancelled, post, action),
    ensures
        pre.stage is Reconciling && event is Reconciled ==> (post.changed <==> pre.changed
            || event->Reconciled_0),
        action == RunAction::CountRound ==> post.changed && pre.completed_pass,
        pre.stage is Reconciling && event is Reconciled && post.changed && pre.completed_pass
            ==> action is Reconcile || action == RunAction::CountRound,
        action is Settle ==> pre.stage == RunStage::Counting && pre.refresh_policy.mode
            != RefreshMode::PauseOnChange && action->Settle_millis
            == pre.refresh_policy.settle_delay_millis,
{
}

/// The rows are opened in their order. A row that is passed over belongs to a project of the
/// run which no longer lists the document.
pub proof fn rows_are_opened_in_order(
    pre: RunMachine,
    event: RunEvent,
    cancelled: bool,
    post: RunMachine,
    action: RunAction,
    k: int,
)
    requires
        pre.wf(),
        pre.stepped(event, cancelled, post, action),
        action matches RunAction::Open { position, .. } && k < position,
        pre.stage is Saving ==> k > pre.stage->Saving_position,
        k >= 0,
    ensures
        pre.stage is Saving || pre.stage == RunStage::Entering,
        post.pending == pre.pending,
        pre.project_known(k),
        forall|p: int, d: int| !#[trigger] pre.row_is(k, p, d),
{
    let start = if pre.stage is Saving {
        pre.stage->Saving_position + 1
    } else {
        0
    };
    passed_over(pre, start, k);
}

proof fn passed_over(machine: RunMachine, from: int, k: int)
    requires
        from <= k < machine.next_open(from),
    ensures
        machine.skipped(k),
    decreases machine.pending@.len() - from,
{
    if from < machine.pending@.len() && machine.skipped(from) && k > from {
        passed_over(machine, from + 1, k);
    }
}

/// The document that was read is the one that is prepared, checkpointed or recorded as
/// failed: a row keeps its position through its steps.
pub proof fn a_row_keeps_its_position(
    pre: RunMachine,
    event: RunEvent,
    cancelled: bool,
    post: RunMachine,
    action: RunAction,
)
    requires
        pre.stepped(event, cancelled, post, action),
    ensures
        action matches RunAction::Checkpoint { position } ==> pre.stage == (RunStage::Preparing {
            position,
        }) && event == RunEvent::Done && post.stage == (RunStage::Saving { position }),
        action matches RunAction::RecordFailure { position } ==> {
            ||| pre.stage == (RunStage::Preparing { position }) && event is NotPrepared
            ||| pre.stage is Opening && pre.stage->Opening_position == position && event is NotRead
        },
        action matches RunAction::RetryLater { position, .. } ==> pre.stage is Opening
            && pre.stage->Opening_position == position && event is NotRead,
        action is RecordFailure ==> post.stage == RunStage::Failing && post.error is Some,
{
}

/// A document that is read while it is observed is remembered with the hash of what was
/// read, and one that cannot be read with a mark that is no hash; the documents before it
/// are remembered as they were.
pub proof fn what_is_read_is_remembered(
    pre: RunMachine,
    event: RunEvent,
    cancelled: bool,
    post: RunMachine,
    project: usize,
    document: usize,
)
    requires
        pre.wf(),
        pre.stage is Reading,
        event is NotRead || event is Read,
        pre.stepped(event, cancelled, post, RunAction::Read { project, document }),
    ensures
        project == pre.stage->Reading_project && document > pre.stage->Reading_document,
        ({
            let at = pre.stage->Reading_document as int;
            let seen = post.current.observations@;
            &&& seen.len() == document
            &&& seen.take(at) == pre.current.observations@
            &&& seen[at].source_document_id@ == pre.current.documents@[at].id@
            &&& event is NotRead ==> seen[at].observed_source_hash@ == "<read-error>"@
            &&& event matches RunEvent::Read(StableRead::Content { source, revision })
                ==> seen[at].observed_source_hash@ == text_hash(source@)
        }),
{
    let at = pre.stage->Reading_document as int;
    let p = pre.stage->Reading_project as int;
    let before = pre.current.observations@;
    assert(pre.current.documents.len() == pre.current.documents@.len());
    let hash = match event {
        RunEvent::Read(StableRead::Content { source, revision }) => text_hash(source@),
        _ => "<read-error>"@,
    };
    let m = choose|m: ManifestDocument|
        #![trigger pre.current.observations@.push(m)]
        {
            &&& observes(
                m,
                pre.scope(p),
                pre.current.documents@[at],
                pre.current.revisions@[at]@,
                pre.current.live@,
                hash,
            )
            &&& pre.walked(
                p,
                pre.current.observations@.push(m),
                cancelled,
                post,
                RunAction::Read { project, document },
            )
        };
    let seen = post.current.observations@;
    assert(seen.take(at + 1) == before.push(m));
    assert(seen[at] == seen.take(at + 1)[at]);
    assert(seen.take(at) =~= seen.take(at + 1).take(at));
    assert(before.push(m).take(at) =~= before);
    walking_goes_on(pre, p, at + 1);
}

proof fn walking_goes_on(machine: RunMachine, p: int, from: int)
    ensures
        machine.next_unknown(p, from) >= from,
    decreases machine.current.documents@.len() - from,
{
    if from < machine.current.documents@.len() && machine.hash_known(p, from) is Some {
        walking_goes_on(machine, p, from + 1);
    }
}

/// A document is read only where its hash is not known, and none before it is passed over
/// for want of one.
pub proof fn only_unknown_documents_are_read(machine: RunMachine, p: int, from: int, k: int)
    requires
        from <= k,
    ensures
        k < machine.next_unknown(p, from) ==> machine.hash_known(p, k) is Some,
        machine.next_unknown(p, from) < machine.current.documents@.len() ==> machine.hash_known(
            p,
            machine.next_unknown(p, from),
        ) is None,
    decreases machine.current.documents@.len() - from,
{
    if from < machine.current.documents@.len() && machine.hash_known(p, from) is Some {
        only_unknown_documents_are_read(
            machine,
            p,
            from + 1,
            if k > from {
                k
            } else {
                from + 1
            },
        );
    }
}

/// A pass over the rows that has ended is remembered, and so is one that was broken off to
/// observe the sources anew; nothing makes the run forget it.
pub proof fn an_ended_pass_is_remembered(
    pre: RunMachine,
    event: RunEvent,
    cancelled: bool,
    post: RunMachine,
    action: RunAction,
)
    requires
        pre.stepped(event, cancelled, post, action),
    ensures
        pre.completed_pass ==> post.completed_pass,
        action == RunAction::LoadStaged && pre.stage != RunStage::Idle ==> post.completed_pass,
        action is RetryLater || action is ResetPending ==> post.completed_pass,
        !pre.completed_pass && post.completed_pass ==> pre.stage == RunStage::Selecting
            || pre.stage == RunStage::Entering || pre.stage is Saving || pre.stage is Opening,
{
}

/// The tries of a refresh begin anew when every project was observed, and failures of a
/// document are counted only where it could not be read.
pub proof fn tries_are_counted_where_they_are_made(
    pre: RunMachine,
    event: RunEvent,
    cancelled: bool,
    post: RunMachine,
    action: RunAction,
)
    requires
        pre.stepped(event, cancelled, post, action),
    ensures
        action == (RunAction::Reconcile { project: 0 }) && !(pre.stage is Reconciling)
            ==> post.refresh_attempt == 0 && !post.changed,
        !(event is NotRead) ==> post.attempts == pre.attempts,
        event is NotRead && !(pre.stage is Opening) ==> post.attempts == pre.attempts,
        post.refresh_attempt > pre.refresh_attempt ==> action is BackOff,
{
}

/// A row waits to be retried as long as its failures ask for, and the refresh as long as its
/// tries do.
pub proof fn waits_grow_with_the_tries(
    pre: RunMachine,
    event: RunEvent,
    cancelled: bool,
    post: RunMachine,
    action: RunAction,
)
    requires
        pre.wf(),
        pre.stepped(event, cancelled, post, action),
    ensures
        action matches RunAction::RetryLater { position, millis } ==> millis
            == pre.retry_policy.backoff.wait(post.failures(position as int) as u32),
        action matches RunAction::BackOff { millis } ==> millis
            == pre.refresh_policy.retry_backoff.wait(post.refresh_attempt),
{
}

} // verus!
