//! The manifest of one project: what each document's observation is, what
//! publication has to do with it, and which live documents are gone.
use crate::hashing::{sha256_hex, text_hash};
use crate::indexer::provider::{SourceDocument, SourceRevision};
use crate::json::{json_literal, member_views, object_text, quote, write_object};
use crate::text::{
    clone_opt, decimal, decimal_text, lex_less, lex_less_is_strict_order, opt_view, precedes, same,
    signed_decimal, signed_text,
};
use vstd::prelude::*;
use vstd::string::*;

verus! {

/// What publication has to do with one document.
#[derive(Debug, Clone, Copy, PartialEq, Eq, Structural)]
pub enum DocumentAction {
    Upsert,
    Metadata,
    Unchanged,
    Delete,
}

/// A document as it was last published.
#[derive(Debug, PartialEq, Eq)]
pub struct FileRecord {
    pub source_document_id: String,
    pub source_revision: String,
    pub relative_path: String,
    pub language_id: String,
    pub mtime_ns: i64,
    pub size: i64,
    pub source_hash: String,
}

/// How far the journal has got with one document.
#[derive(Debug, Clone, Copy, PartialEq, Eq, Structural)]
pub enum DocumentState {
    Pending,
    Processing,
    Ready,
    Failed,
}

/// One journal row of a run.
#[derive(Debug, PartialEq, Eq)]
pub struct StagedDocument {
    pub project_label: String,
    pub source_document_id: String,
    pub state: DocumentState,
    pub source_revision_json: Option<String>,
    pub observed_source_hash: Option<String>,
    pub input_fingerprint: Option<String>,
}

impl Clone for StagedDocument {
    fn clone(&self) -> (r: Self)
        ensures
            r == *self,
    {
        Self {
            project_label: self.project_label.clone(),
            source_document_id: self.source_document_id.clone(),
            state: self.state,
            source_revision_json: clone_opt(&self.source_revision_json),
            observed_source_hash: clone_opt(&self.observed_source_hash),
            input_fingerprint: clone_opt(&self.input_fingerprint),
        }
    }
}

/// The rows that wait to be processed, in order.
pub open spec fn pending_rows(rows: Seq<StagedDocument>) -> Seq<StagedDocument> {
    rows.filter(|row: StagedDocument| row.state == DocumentState::Pending)
}

/// Selects the rows that wait to be processed.
pub fn select_pending(rows: &Vec<StagedDocument>) -> (r: Vec<StagedDocument>)
    ensures
        r@ == pending_rows(rows@),
        forall|k: int| 0 <= k < r@.len() ==> (#[trigger] r@[k]).state == DocumentState::Pending,
{
    let mut out: Vec<StagedDocument> = Vec::new();
    let mut i: usize = 0;
    proof {
        reveal(Seq::filter);
    }
    while i < rows.len()
        invariant
            i <= rows@.len(),
            out@ == pending_rows(rows@.take(i as int)),
            forall|k: int|
                0 <= k < out@.len() ==> (#[trigger] out@[k]).state == DocumentState::Pending,
        decreases rows@.len() - i,
    {
        proof {
            reveal(Seq::filter);
            assert(rows@.take(i + 1).drop_last() =~= rows@.take(i as int));
        }
        if rows[i].state == DocumentState::Pending {
            out.push(rows[i].clone());
        }
        i += 1;
    }
    assert(rows@.take(i as int) =~= rows@);
    out
}

/// Whether any row is ready.
pub fn any_ready(rows: &Vec<StagedDocument>) -> (r: bool)
    ensures
        r == exists|i: int|
            0 <= i < rows@.len() && (#[trigger] rows@[i]).state == DocumentState::Ready,
{
    let mut i: usize = 0;
    while i < rows.len()
        invariant
            i <= rows@.len(),
            forall|j: int| 0 <= j < i ==> (#[trigger] rows@[j]).state != DocumentState::Ready,
        decreases rows@.len() - i,
    {
        if rows[i].state == DocumentState::Ready {
            return true;
        }
        i += 1;
    }
    false
}

/// One observation of a project's manifest.
#[derive(Debug, PartialEq, Eq)]
pub struct ManifestDocument {
    pub source_document_id: String,
    pub relative_path: String,
    pub language_id: String,
    pub source_revision_json: String,
    pub observed_source_hash: String,
    pub input_fingerprint: String,
    pub action: DocumentAction,
}

/// The live file and the document agree on everything a provider reports
/// before its content is read.
pub open spec fn same_observation(file: FileRecord, document: SourceDocument) -> bool {
    &&& file.source_revision@ == document.revision.opaque@
    &&& file.relative_path@ == document.relative_path@
    &&& file.language_id@ == document.language_id@
}

/// Whether the live file was published from this very observation.
pub fn same_live_observation(file: &FileRecord, document: &SourceDocument) -> (r: bool)
    ensures
        r == same_observation(*file, *document),
{
    file.source_revision == document.revision.opaque && file.relative_path
        == document.relative_path && file.language_id == document.language_id
}

/// A document is re-extracted when it is new, moved, of another language or of
/// other content; re-stamped when only its revision metadata differs; and left
/// alone otherwise.
pub open spec fn required_action(
    live: Option<FileRecord>,
    document: SourceDocument,
    source_hash: Seq<char>,
) -> DocumentAction {
    match live {
        None => DocumentAction::Upsert,
        Some(file) => if file.relative_path@ != document.relative_path@ || file.language_id@
            != document.language_id@ || file.source_hash@ != source_hash {
            DocumentAction::Upsert
        } else if file.source_revision@ != document.revision.opaque@ || file.mtime_ns
            != document.revision.modified_ns.unwrap_or(0) || file.size
            != document.revision.size.unwrap_or(0) as i64 {
            DocumentAction::Metadata
        } else {
            DocumentAction::Unchanged
        },
    }
}

/// What publication has to do with `document`.
pub fn action_for(
    live: Option<&FileRecord>,
    document: &SourceDocument,
    source_hash: &str,
) -> (r: DocumentAction)
    ensures
        r == required_action(
            match live {
                Some(file) => Some(*file),
                None => None,
            },
            *document,
            source_hash@,
        ),
{
    match live {
        None => DocumentAction::Upsert,
        Some(file) => {
            if !same(file.relative_path.as_str(), document.relative_path.as_str()) || !same(
                file.language_id.as_str(),
                document.language_id.as_str(),
            ) {
                return DocumentAction::Upsert;
            }
            if !same(file.source_hash.as_str(), source_hash) {
                return DocumentAction::Upsert;
            }
            if !same(file.source_revision.as_str(), document.revision.opaque.as_str())
                || file.mtime_ns != document.revision.modified_ns.unwrap_or(0) || file.size
                != document.revision.size.unwrap_or(0) as i64 {
                DocumentAction::Metadata
            } else {
                DocumentAction::Unchanged
            }
        },
    }
}

/// The last row of `files` with the id, which is the one that counts.
pub open spec fn live_file(files: Seq<FileRecord>, id: Seq<char>) -> Option<FileRecord>
    decreases files.len(),
{
    if files.len() == 0 {
        None
    } else if files.last().source_document_id@ == id {
        Some(files.last())
    } else {
        live_file(files.drop_last(), id)
    }
}

/// Looks up a live file by document id.
pub fn find_live<'a>(files: &'a Vec<FileRecord>, id: &str) -> (r: Option<&'a FileRecord>)
    ensures
        match r {
            Some(file) => live_file(files@, id@) == Some(*file),
            None => live_file(files@, id@) is None,
        },
{
    let mut n: usize = files.len();
    assert(files@.take(n as int) =~= files@);
    while n > 0
        invariant
            n <= files@.len(),
            live_file(files@, id@) == live_file(files@.take(n as int), id@),
        decreases n,
    {
        if same(files[n - 1].source_document_id.as_str(), id) {
            return Some(&files[n - 1]);
        }
        assert(files@.take(n as int).drop_last() =~= files@.take(n - 1));
        n -= 1;
    }
    None
}

/// The journal row of a document: the last one with the label and the id.
pub open spec fn staged_row(
    rows: Seq<StagedDocument>,
    label: Seq<char>,
    id: Seq<char>,
) -> Option<StagedDocument>
    decreases rows.len(),
{
    if rows.len() == 0 {
        None
    } else if rows.last().project_label@ == label && rows.last().source_document_id@ == id {
        Some(rows.last())
    } else {
        staged_row(rows.drop_last(), label, id)
    }
}

/// Looks up a journal row by project label and document id.
pub fn find_staged<'a>(rows: &'a Vec<StagedDocument>, label: &str, id: &str) -> (r: Option<
    &'a StagedDocument,
>)
    ensures
        match r {
            Some(row) => staged_row(rows@, label@, id@) == Some(*row),
            None => staged_row(rows@, label@, id@) is None,
        },
{
    let mut n: usize = rows.len();
    assert(rows@.take(n as int) =~= rows@);
    while n > 0
        invariant
            n <= rows@.len(),
            staged_row(rows@, label@, id@) == staged_row(rows@.take(n as int), label@, id@),
        decreases n,
    {
        if same(rows[n - 1].project_label.as_str(), label) && same(
            rows[n - 1].source_document_id.as_str(),
            id,
        ) {
            return Some(&rows[n - 1]);
        }
        assert(rows@.take(n as int).drop_last() =~= rows@.take(n - 1));
        n -= 1;
    }
    None
}

/// The hash that stands for a document without reading it: where revisions may
/// be trusted, that of the live file with the same observation, else that of a
/// journal row made at the same revision.
pub open spec fn known_hash(
    may_trust: bool,
    live: Option<FileRecord>,
    staged: Option<StagedDocument>,
    document: SourceDocument,
    revision_json: Seq<char>,
) -> Option<Seq<char>> {
    if !may_trust {
        None
    } else if live is Some && same_observation(live->0, document) {
        Some(live->0.source_hash@)
    } else if staged is Some && opt_view(staged->0.source_revision_json) == Some(revision_json) {
        opt_view(staged->0.observed_source_hash)
    } else {
        None
    }
}

/// The hash that may be used without reading the document.
pub fn trusted_hash(
    may_trust: bool,
    live: Option<&FileRecord>,
    staged: Option<&StagedDocument>,
    document: &SourceDocument,
    revision_json: &str,
) -> (r: Option<String>)
    ensures
        opt_view(r) == known_hash(
            may_trust,
            match live {
                Some(file) => Some(*file),
                None => None,
            },
            match staged {
                Some(row) => Some(*row),
                None => None,
            },
            *document,
            revision_json@,
        ),
{
    if !may_trust {
        return None;
    }
    if let Some(file) = live {
        if same_live_observation(file, document) {
            return Some(file.source_hash.clone());
        }
    }
    if let Some(row) = staged {
        if let Some(json) = &row.source_revision_json {
            if same(json.as_str(), revision_json) {
                return clone_opt(&row.observed_source_hash);
            }
        }
    }
    None
}

/// The JSON text of a revision, members in the order of their names.
pub open spec fn revision_object(revision: SourceRevision) -> Seq<char> {
    object_text(
        seq![
            (
                "modified_ns"@,
                match revision.modified_ns {
                    Some(ns) => signed_decimal(ns as int),
                    None => "null"@,
                },
            ),
            ("opaque"@, json_literal(revision.opaque@)),
            (
                "size"@,
                match revision.size {
                    Some(size) => decimal(size as nat),
                    None => "null"@,
                },
            ),
        ],
    )
}

fn revision_text(revision: &SourceRevision) -> (r: String)
    ensures
        r@ == revision_object(*revision),
{
    let modified = match revision.modified_ns {
        Some(ns) => signed_text(ns),
        None => "null".to_owned(),
    };
    let size = match revision.size {
        Some(size) => decimal_text(size),
        None => "null".to_owned(),
    };
    let members: Vec<(&str, String)> = vec![
        ("modified_ns", modified),
        ("opaque", quote(revision.opaque.as_str())),
        ("size", size),
    ];
    let r = write_object(&members);
    assert(member_views(members@) =~= seq![
        (
            "modified_ns"@,
            match revision.modified_ns {
                Some(ns) => signed_decimal(ns as int),
                None => "null"@,
            },
        ),
        ("opaque"@, json_literal(revision.opaque@)),
        (
            "size"@,
            match revision.size {
                Some(size) => decimal(size as nat),
                None => "null"@,
            },
        ),
    ]);
    r
}

/// The identity of everything that determines a document's staged work: the
/// configuration, the provider, the document as observed, and its content.
pub open spec fn input_identity(
    config: Seq<char>,
    provider: Seq<char>,
    document: SourceDocument,
    source_hash: Seq<char>,
) -> Seq<char> {
    text_hash(
        object_text(
            seq![
                ("config"@, json_literal(config)),
                ("id"@, json_literal(document.id@)),
                ("language"@, json_literal(document.language_id@)),
                ("path"@, json_literal(document.relative_path@)),
                ("provider"@, json_literal(provider)),
                ("revision"@, revision_object(document.revision)),
                ("source_hash"@, json_literal(source_hash)),
            ],
        ),
    )
}

/// The fingerprint of a document's inputs.
pub fn document_fingerprint(
    config_fingerprint: &str,
    provider_fingerprint: &str,
    document: &SourceDocument,
    source_hash: &str,
) -> (r: String)
    ensures
        r@ == input_identity(config_fingerprint@, provider_fingerprint@, *document, source_hash@),
{
    let members: Vec<(&str, String)> = vec![
        ("config", quote(config_fingerprint)),
        ("id", quote(document.id.as_str())),
        ("language", quote(document.language_id.as_str())),
        ("path", quote(document.relative_path.as_str())),
        ("provider", quote(provider_fingerprint)),
        ("revision", revision_text(&document.revision)),
        ("source_hash", quote(source_hash)),
    ];
    let text = write_object(&members);
    assert(member_views(members@) =~= seq![
        ("config"@, json_literal(config_fingerprint@)),
        ("id"@, json_literal(document.id@)),
        ("language"@, json_literal(document.language_id@)),
        ("path"@, json_literal(document.relative_path@)),
        ("provider"@, json_literal(provider_fingerprint@)),
        ("revision"@, revision_object(document.revision)),
        ("source_hash"@, json_literal(source_hash@)),
    ]);
    sha256_hex(text.as_str())
}

/// The identity of a deletion.
pub open spec fn deletion_identity(
    config: Seq<char>,
    provider: Seq<char>,
    id: Seq<char>,
) -> Seq<char> {
    text_hash(
        object_text(
            seq![
                ("config"@, json_literal(config)),
                ("deleted"@, "true"@),
                ("id"@, json_literal(id)),
                ("provider"@, json_literal(provider)),
            ],
        ),
    )
}

fn deletion_fingerprint(config_fingerprint: &str, provider_fingerprint: &str, id: &str) -> (r:
    String)
    ensures
        r@ == deletion_identity(config_fingerprint@, provider_fingerprint@, id@),
{
    let members: Vec<(&str, String)> = vec![
        ("config", quote(config_fingerprint)),
        ("deleted", "true".to_owned()),
        ("id", quote(id)),
        ("provider", quote(provider_fingerprint)),
    ];
    let text = write_object(&members);
    assert(member_views(members@) =~= seq![
        ("config"@, json_literal(config_fingerprint@)),
        ("deleted"@, "true"@),
        ("id"@, json_literal(id@)),
        ("provider"@, json_literal(provider_fingerprint@)),
    ]);
    sha256_hex(text.as_str())
}

/// `m` is the observation of `document` with the given content hash.
pub open spec fn observes(
    m: ManifestDocument,
    scope: ManifestScope,
    document: SourceDocument,
    revision_json: Seq<char>,
    live: Seq<FileRecord>,
    hash: Seq<char>,
) -> bool {
    &&& m.source_document_id@ == document.id@
    &&& m.relative_path@ == document.relative_path@
    &&& m.language_id@ == document.language_id@
    &&& m.source_revision_json@ == revision_json
    &&& m.observed_source_hash@ == hash
    &&& m.input_fingerprint@ == input_identity(scope.config, scope.provider, document, hash)
    &&& m.action == required_action(live_file(live, document.id@), document, hash)
}

/// `m` is the deletion of a live file.
pub open spec fn deletes(m: ManifestDocument, scope: ManifestScope, file: FileRecord) -> bool {
    &&& m.source_document_id@ == file.source_document_id@
    &&& m.relative_path@ == file.relative_path@
    &&& m.language_id@ == file.language_id@
    &&& m.source_revision_json@ == json_literal(file.source_revision@)
    &&& m.observed_source_hash@.len() == 0
    &&& m.input_fingerprint@ == deletion_identity(
        scope.config,
        scope.provider,
        file.source_document_id@,
    )
    &&& m.action == DocumentAction::Delete
}

/// The fingerprints that every observation of one project shares.
pub struct ManifestScope {
    pub config: Seq<char>,
    pub provider: Seq<char>,
}

/// Builds the observation of one document.
pub fn observation(
    config_fingerprint: &str,
    provider_fingerprint: &str,
    document: &SourceDocument,
    revision_json: &str,
    live: &Vec<FileRecord>,
    source_hash: String,
) -> (r: ManifestDocument)
    ensures
        observes(
            r,
            (ManifestScope { config: config_fingerprint@, provider: provider_fingerprint@ }),
            *document,
            revision_json@,
            live@,
            source_hash@,
        ),
{
    let action = action_for(
        find_live(live, document.id.as_str()),
        document,
        source_hash.as_str(),
    );
    let input_fingerprint = document_fingerprint(
        config_fingerprint,
        provider_fingerprint,
        document,
        source_hash.as_str(),
    );
    ManifestDocument {
        source_document_id: document.id.clone(),
        relative_path: document.relative_path.clone(),
        language_id: document.language_id.clone(),
        source_revision_json: revision_json.to_owned(),
        observed_source_hash: source_hash,
        input_fingerprint,
        action,
    }
}

/// Some document has the id.
pub open spec fn lists_id(documents: Seq<SourceDocument>, id: Seq<char>) -> bool {
    exists|i: int| 0 <= i < documents.len() && (#[trigger] documents[i]).id@ == id
}

/// Live row `k` is a deletion: no document has its id, and no later row has it.
pub open spec fn is_gone(live: Seq<FileRecord>, documents: Seq<SourceDocument>, k: int) -> bool {
    &&& 0 <= k < live.len()
    &&& !lists_id(documents, live[k].source_document_id@)
    &&& forall|j: int|
        k < j < live.len() ==> (#[trigger] live[j]).source_document_id@
            != live[k].source_document_id@
}

/// `gone` lists exactly the live rows below `upto` that are deletions, in
/// dictionary order of their ids.
pub open spec fn lists_gone(
    gone: Seq<usize>,
    live: Seq<FileRecord>,
    documents: Seq<SourceDocument>,
    upto: int,
) -> bool {
    &&& forall|g: int|
        0 <= g < gone.len() ==> (#[trigger] gone[g]) < upto && is_gone(
            live,
            documents,
            gone[g] as int,
        )
    &&& forall|k: int|
        0 <= k < upto && #[trigger] is_gone(live, documents, k) ==> exists|g: int|
            0 <= g < gone.len() && #[trigger] gone[g] == k
    &&& forall|g: int, h: int|
        0 <= g < h < gone.len() ==> lex_less(
            live[(#[trigger] gone[g]) as int].source_document_id@,
            live[(#[trigger] gone[h]) as int].source_document_id@,
        )
}

fn has_id(documents: &Vec<SourceDocument>, id: &str) -> (r: bool)
    ensures
        r == lists_id(documents@, id@),
{
    let mut i: usize = 0;
    while i < documents.len()
        invariant
            i <= documents@.len(),
            forall|j: int| 0 <= j < i ==> (#[trigger] documents@[j]).id@ != id@,
        decreases documents@.len() - i,
    {
        if same(documents[i].id.as_str(), id) {
            return true;
        }
        i += 1;
    }
    false
}

fn gone_at(live: &Vec<FileRecord>, documents: &Vec<SourceDocument>, k: usize) -> (r: bool)
    requires
        k < live@.len(),
    ensures
        r == is_gone(live@, documents@, k as int),
{
    if has_id(documents, live[k].source_document_id.as_str()) {
        return false;
    }
    let rows: usize = live.len();
    let mut j: usize = k + 1;
    while j < rows
        invariant
            k < j <= rows == live@.len(),
            forall|m: int|
                k < m < j ==> (#[trigger] live@[m]).source_document_id@
                    != live@[k as int].source_document_id@,
        decreases live@.len() - j,
    {
        if same(live[j].source_document_id.as_str(), live[k].source_document_id.as_str()) {
            return false;
        }
        j += 1;
    }
    true
}

/// The live rows that no document replaces, in dictionary order of their ids.
pub fn deleted_rows(live: &Vec<FileRecord>, documents: &Vec<SourceDocument>) -> (r: Vec<usize>)
    ensures
        lists_gone(r@, live@, documents@, live@.len() as int),
{
    let mut gone: Vec<usize> = Vec::new();
    let mut k: usize = 0;
    while k < live.len()
        invariant
            k <= live@.len(),
            lists_gone(gone@, live@, documents@, k as int),
        decreases live@.len() - k,
    {
        if gone_at(live, documents, k) {
            let id = live[k].source_document_id.as_str();
            let mut at: usize = 0;
            while at < gone.len() && precedes(live[gone[at]].source_document_id.as_str(), id)
                invariant
                    at <= gone@.len(),
                    k < live@.len(),
                    id@ == live@[k as int].source_document_id@,
                    lists_gone(gone@, live@, documents@, k as int),
                    forall|g: int|
                        0 <= g < at ==> lex_less(
                            live@[(#[trigger] gone@[g]) as int].source_document_id@,
                            id@,
                        ),
                decreases gone@.len() - at,
            {
                at += 1;
            }
            let ghost before = gone@;
            proof {
                assert forall|g: int| at <= g < before.len() implies lex_less(
                    id@,
                    live@[(#[trigger] before[g]) as int].source_document_id@,
                ) by {
                    let other = live@[before[g] as int].source_document_id@;
                    let first = live@[before[at as int] as int].source_document_id@;
                    assert(is_gone(live@, documents@, before[g] as int));
                    assert(is_gone(live@, documents@, before[at as int] as int));
                    lex_less_is_strict_order(id@, first, other);
                    lex_less_is_strict_order(first, id@, other);
                }
            }
            gone.insert(at, k);
            proof {
                assert(gone@ =~= before.insert(at as int, k));
                assert forall|j: int| 0 <= j < k + 1 && #[trigger] is_gone(
                    live@,
                    documents@,
                    j,
                ) implies exists|g: int| 0 <= g < gone@.len() && #[trigger] gone@[g] == j by {
                    if j == k {
                        assert(gone@[at as int] == j);
                    } else {
                        let g = choose|g: int| 0 <= g < before.len() && #[trigger] before[g] == j;
                        if g < at {
                            assert(gone@[g] == j);
                        } else {
                            assert(gone@[g + 1] == j);
                        }
                    }
                }
            }
        }
        k += 1;
    }
    gone
}

/// `manifest` is the whole observation of a project: one row for each document,
/// in order, and after them one deletion for each live document that is gone, in
/// the order of `gone`.
pub open spec fn is_manifest(
    manifest: Seq<ManifestDocument>,
    scope: ManifestScope,
    documents: Seq<SourceDocument>,
    revisions: Seq<String>,
    live: Seq<FileRecord>,
    gone: Seq<usize>,
) -> bool {
    &&& manifest.len() == documents.len() + gone.len()
    &&& lists_gone(gone, live, documents, live.len() as int)
    &&& forall|i: int|
        0 <= i < documents.len() ==> observes(
            #[trigger] manifest[i],
            scope,
            documents[i],
            revisions[i]@,
            live,
            manifest[i].observed_source_hash@,
        )
    &&& forall|g: int|
        0 <= g < gone.len() ==> deletes(
            manifest[documents.len() + g],
            scope,
            live[(#[trigger] gone[g]) as int],
        )
}

/// Appends the deletions to the observations of a project's documents.
pub fn append_deletions(
    manifest: &mut Vec<ManifestDocument>,
    config_fingerprint: &str,
    provider_fingerprint: &str,
    documents: &Vec<SourceDocument>,
    live: &Vec<FileRecord>,
)
    ensures
        exists|gone: Seq<usize>|
            #![trigger lists_gone(gone, live@, documents@, live@.len() as int)]
            {
                &&& lists_gone(gone, live@, documents@, live@.len() as int)
                &&& final(manifest)@.len() == old(manifest)@.len() + gone.len()
                &&& final(manifest)@.take(old(manifest)@.len() as int) == old(manifest)@
                &&& forall|g: int|
                    0 <= g < gone.len() ==> deletes(
                        final(manifest)@[old(manifest)@.len() + g],
                        (ManifestScope {
                            config: config_fingerprint@,
                            provider: provider_fingerprint@,
                        }),
                        live@[(#[trigger] gone[g]) as int],
                    )
            },
{
    let gone = deleted_rows(live, documents);
    let ghost start = manifest@;
    let ghost scope = ManifestScope {
        config: config_fingerprint@,
        provider: provider_fingerprint@,
    };
    let mut g: usize = 0;
    while g < gone.len()
        invariant
            g <= gone@.len(),
            lists_gone(gone@, live@, documents@, live@.len() as int),
            scope == (ManifestScope {
                config: config_fingerprint@,
                provider: provider_fingerprint@,
            }),
            manifest@.len() == start.len() + g,
            manifest@.take(start.len() as int) == start,
            forall|h: int|
                0 <= h < g ==> deletes(
                    manifest@[start.len() + h],
                    scope,
                    live@[(#[trigger] gone@[h]) as int],
                ),
        decreases gone@.len() - g,
    {
        let file = &live[gone[g]];
        let row = ManifestDocument {
            source_document_id: file.source_document_id.clone(),
            relative_path: file.relative_path.clone(),
            language_id: file.language_id.clone(),
            source_revision_json: quote(file.source_revision.as_str()),
            observed_source_hash: String::new(),
            input_fingerprint: deletion_fingerprint(
                config_fingerprint,
                provider_fingerprint,
                file.source_document_id.as_str(),
            ),
            action: DocumentAction::Delete,
        };
        let ghost previous = manifest@;
        manifest.push(row);
        assert(manifest@.take(start.len() as int) =~= previous.take(start.len() as int));
        g += 1;
    }
}

/// A document's hash is taken over without reading only where the provider reports the
/// very revision that the hash was recorded under: the live file's, with the same path
/// and language, or the journal row's.
pub proof fn a_hash_is_taken_over_only_at_its_revision(
    may_trust: bool,
    live: Option<FileRecord>,
    staged: Option<StagedDocument>,
    document: SourceDocument,
    revision_json: Seq<char>,
)
    ensures
        known_hash(may_trust, live, staged, document, revision_json) matches Some(hash)
            ==> may_trust && ((live is Some && live->0.source_revision@
            == document.revision.opaque@ && live->0.relative_path@ == document.relative_path@
            && live->0.language_id@ == document.language_id@ && live->0.source_hash@ == hash) || (
        staged is Some && staged->0.source_revision_json is Some
            && staged->0.source_revision_json->0@ == revision_json
            && staged->0.observed_source_hash is Some && staged->0.observed_source_hash->0@
            == hash)),
{
}

/// A document that is listed at a revision that neither the live file nor the journal
/// has is always read, and so is every document of a provider whose revisions are not to
/// be trusted.
pub proof fn an_unknown_revision_is_read(
    may_trust: bool,
    live: Option<FileRecord>,
    staged: Option<StagedDocument>,
    document: SourceDocument,
    revision_json: Seq<char>,
)
    requires
        !may_trust || ((live is Some ==> live->0.source_revision@ != document.revision.opaque@) && (
        staged is Some && staged->0.source_revision_json is Some
            ==> staged->0.source_revision_json->0@ != revision_json)),
    ensures
        known_hash(may_trust, live, staged, document, revision_json) is None,
{
}

/// A document that is listed as it was published need not be read.
pub proof fn a_known_revision_need_not_be_read(
    live: FileRecord,
    staged: Option<StagedDocument>,
    document: SourceDocument,
    revision_json: Seq<char>,
)
    requires
        live.source_revision@ == document.revision.opaque@,
        live.relative_path@ == document.relative_path@,
        live.language_id@ == document.language_id@,
    ensures
        known_hash(true, Some(live), staged, document, revision_json) == Some(live.source_hash@),
{
}

/// What is new, has other content, another path or another language is extracted again,
/// and nothing else is. What is left alone is in every respect as it was published.
pub proof fn changed_documents_are_extracted_again(
    live: Option<FileRecord>,
    document: SourceDocument,
    hash: Seq<char>,
)
    ensures
        ({
            let action = required_action(live, document, hash);
            &&& action != DocumentAction::Delete
            &&& (action == DocumentAction::Upsert) == (live is None || live->0.source_hash@ != hash
                || live->0.relative_path@ != document.relative_path@ || live->0.language_id@
                != document.language_id@)
            &&& action == DocumentAction::Unchanged ==> live is Some && live->0.source_hash@ == hash
                && live->0.source_revision@ == document.revision.opaque@ && live->0.mtime_ns
                == document.revision.modified_ns.unwrap_or(0) && live->0.size
                == document.revision.size.unwrap_or(0) as i64
            &&& action == DocumentAction::Metadata ==> live is Some && (live->0.source_revision@
                != document.revision.opaque@ || live->0.mtime_ns
                != document.revision.modified_ns.unwrap_or(0) || live->0.size
                != document.revision.size.unwrap_or(0) as i64)
        }),
{
}

/// The file that counts for an id is the last that has it; there is none where no file
/// has it.
pub proof fn the_last_live_file_counts(files: Seq<FileRecord>, id: Seq<char>)
    ensures
        match live_file(files, id) {
            Some(file) => exists|k: int|
                {
                    &&& 0 <= k < files.len()
                    &&& #[trigger] files[k] == file
                    &&& file.source_document_id@ == id
                    &&& forall|j: int|
                        k < j < files.len() ==> (#[trigger] files[j]).source_document_id@ != id
                },
            None => forall|j: int|
                0 <= j < files.len() ==> (#[trigger] files[j]).source_document_id@ != id,
        },
    decreases files.len(),
{
    if files.len() > 0 {
        let front = files.drop_last();
        the_last_live_file_counts(front, id);
        if files.last().source_document_id@ == id {
            assert(files[files.len() - 1] == files.last());
        } else {
            if live_file(front, id) is Some {
                let k = choose|k: int|
                    {
                        &&& 0 <= k < front.len()
                        &&& #[trigger] front[k] == live_file(front, id)->0
                        &&& forall|j: int|
                            k < j < front.len() ==> (#[trigger] front[j]).source_document_id@ != id
                    };
                assert(files[k] == front[k]);
                assert forall|j: int| k < j < files.len() implies (
                #[trigger] files[j]).source_document_id@ != id by {
                    if j < front.len() {
                        assert(front[j] == files[j]);
                    }
                }
            } else {
                assert forall|j: int| 0 <= j < files.len() implies (
                #[trigger] files[j]).source_document_id@ != id by {
                    if j < front.len() {
                        assert(front[j] == files[j]);
                    }
                }
            }
        }
    }
}

/// The journal row that counts for a document is the last of its project and id.
pub proof fn the_last_journal_row_counts(
    rows: Seq<StagedDocument>,
    label: Seq<char>,
    id: Seq<char>,
)
    ensures
        match staged_row(rows, label, id) {
            Some(row) => exists|k: int|
                {
                    &&& 0 <= k < rows.len()
                    &&& #[trigger] rows[k] == row
                    &&& row.project_label@ == label && row.source_document_id@ == id
                    &&& forall|j: int|
                        k < j < rows.len() ==> !((#[trigger] rows[j]).project_label@ == label
                            && rows[j].source_document_id@ == id)
                },
            None => forall|j: int|
                0 <= j < rows.len() ==> !((#[trigger] rows[j]).project_label@ == label
                    && rows[j].source_document_id@ == id),
        },
    decreases rows.len(),
{
    if rows.len() > 0 {
        let front = rows.drop_last();
        the_last_journal_row_counts(front, label, id);
        let last = rows.last();
        if last.project_label@ == label && last.source_document_id@ == id {
            assert(rows[rows.len() - 1] == last);
        } else if staged_row(front, label, id) is Some {
            let k = choose|k: int|
                {
                    &&& 0 <= k < front.len()
                    &&& #[trigger] front[k] == staged_row(front, label, id)->0
                    &&& forall|j: int|
                        k < j < front.len() ==> !((#[trigger] front[j]).project_label@ == label
                            && front[j].source_document_id@ == id)
                };
            assert(rows[k] == front[k]);
            assert forall|j: int| k < j < rows.len() implies !((
            #[trigger] rows[j]).project_label@ == label && rows[j].source_document_id@ == id) by {
                if j < front.len() {
                    assert(front[j] == rows[j]);
                }
            }
        } else {
            assert forall|j: int| 0 <= j < rows.len() implies !((
            #[trigger] rows[j]).project_label@ == label && rows[j].source_document_id@ == id) by {
                if j < front.len() {
                    assert(front[j] == rows[j]);
                }
            }
        }
    }
}

/// A manifest has one row for each listed document, which never deletes, and deletes each
/// live document that is no longer listed, and no other.
pub proof fn a_manifest_deletes_what_is_no_longer_listed(
    manifest: Seq<ManifestDocument>,
    scope: ManifestScope,
    documents: Seq<SourceDocument>,
    revisions: Seq<String>,
    live: Seq<FileRecord>,
    gone: Seq<usize>,
    k: int,
)
    requires
        is_manifest(manifest, scope, documents, revisions, live, gone),
        0 <= k < live.len(),
    ensures
        forall|i: int|
            0 <= i < documents.len() ==> (#[trigger] manifest[i]).source_document_id@
                == documents[i].id@ && manifest[i].action != DocumentAction::Delete,
        (forall|i: int|
            0 <= i < documents.len() ==> (#[trigger] documents[i]).id@
                != live[k].source_document_id@) ==> exists|m: int|
            0 <= m < manifest.len() && (#[trigger] manifest[m]).action == DocumentAction::Delete
                && manifest[m].source_document_id@ == live[k].source_document_id@,
        forall|m: int, i: int|
            0 <= m < manifest.len() && (#[trigger] manifest[m]).action == DocumentAction::Delete
                && 0 <= i < documents.len() ==> (#[trigger] documents[i]).id@
                != manifest[m].source_document_id@,
        forall|m: int, n: int|
            0 <= m < n < manifest.len() && (#[trigger] manifest[m]).action
                == DocumentAction::Delete && (#[trigger] manifest[n]).action
                == DocumentAction::Delete ==> manifest[m].source_document_id@
                != manifest[n].source_document_id@,
{
    let count = documents.len() as int;
    if forall|i: int|
        0 <= i < documents.len() ==> (#[trigger] documents[i]).id@ != live[k].source_document_id@ {
        let last = last_with_id(live, k);
        assert(is_gone(live, documents, last));
        let g = choose|g: int| 0 <= g < gone.len() && #[trigger] gone[g] == last;
        assert(deletes(manifest[count + g], scope, live[gone[g] as int]));
        assert(manifest[count + g].action == DocumentAction::Delete);
    }
    assert forall|m: int, i: int|
        0 <= m < manifest.len() && (#[trigger] manifest[m]).action == DocumentAction::Delete && 0
            <= i < documents.len() implies (#[trigger] documents[i]).id@
        != manifest[m].source_document_id@ by {
        if m >= count {
            let g = m - count;
            assert(deletes(manifest[count + g], scope, live[gone[g] as int]));
            assert(is_gone(live, documents, gone[g] as int));
        }
    }
    assert forall|m: int, n: int|
        0 <= m < n < manifest.len() && (#[trigger] manifest[m]).action == DocumentAction::Delete
            && (#[trigger] manifest[n]).action
            == DocumentAction::Delete implies manifest[m].source_document_id@
        != manifest[n].source_document_id@ by {
        let g = m - count;
        let h = n - count;
        if m < count {
            assert(manifest[m].action != DocumentAction::Delete);
        }
        assert(deletes(manifest[count + g], scope, live[gone[g] as int]));
        assert(deletes(manifest[count + h], scope, live[gone[h] as int]));
        let (a, b) = (
            live[gone[g] as int].source_document_id@,
            live[gone[h] as int].source_document_id@,
        );
        assert(lex_less(a, b));
        lex_less_is_strict_order(a, b, a);
    }
}

/// The last row with the id of row `k`.
proof fn last_with_id(live: Seq<FileRecord>, k: int) -> (last: int)
    requires
        0 <= k < live.len(),
    ensures
        k <= last < live.len(),
        live[last].source_document_id@ == live[k].source_document_id@,
        forall|j: int|
            last < j < live.len() ==> (#[trigger] live[j]).source_document_id@
                != live[last].source_document_id@,
    decreases live.len() - k,
{
    if exists|j: int|
        k < j < live.len() && (#[trigger] live[j]).source_document_id@
            == live[k].source_document_id@ {
        let j = choose|j: int|
            k < j < live.len() && (#[trigger] live[j]).source_document_id@
                == live[k].source_document_id@;
        last_with_id(live, j)
    } else {
        k
    }
}

/// The rows that wait are all of those that are pending, and no others.
pub proof fn pending_rows_wait(rows: Seq<StagedDocument>, row: StagedDocument)
    ensures
        pending_rows(rows).contains(row) == (rows.contains(row) && row.state
            == DocumentState::Pending),
    decreases rows.len(),
{
    reveal(Seq::filter);
    if rows.len() > 0 {
        let front = rows.drop_last();
        pending_rows_wait(front, row);
        let before = pending_rows(front);
        let after = pending_rows(rows);
        if before.contains(row) {
            let i = choose|i: int| 0 <= i < before.len() && before[i] == row;
            assert(after[i] == row);
        }
        if front.contains(row) {
            let i = choose|i: int| 0 <= i < front.len() && front[i] == row;
            assert(rows[i] == row);
        }
        if rows.last() == row && row.state == DocumentState::Pending {
            assert(after[after.len() - 1] == row);
        }
        if rows.contains(row) && !front.contains(row) {
            let i = choose|i: int| 0 <= i < rows.len() && rows[i] == row;
            if i < front.len() {
                assert(front[i] == row);
            }
        }
        if after.contains(row) && !before.contains(row) {
            let i = choose|i: int| 0 <= i < after.len() && after[i] == row;
            if i < before.len() {
                assert(before[i] == row);
            }
            assert(rows[rows.len() - 1] == row);
        }
    }
}

/// What a document is known by names everything that its work depends on: the configuration,
/// the provider, the document's id, language and path, its revision and its content.
pub proof fn a_document_is_known_by_everything(
    config: Seq<char>,
    provider: Seq<char>,
    document: SourceDocument,
    source_hash: Seq<char>,
)
    ensures
        exists|text: Seq<char>|
            {
                &&& input_identity(config, provider, document, source_hash) == #[trigger] text_hash(
                    text,
                )
                &&& crate::text::has(text, json_literal(config))
                &&& crate::text::has(text, json_literal(provider))
                &&& crate::text::has(text, json_literal(document.id@))
                &&& crate::text::has(text, json_literal(document.language_id@))
                &&& crate::text::has(text, json_literal(document.relative_path@))
                &&& crate::text::has(text, json_literal(source_hash))
                &&& crate::text::has(text, json_literal(document.revision.opaque@))
                &&& document.revision.size is Some ==> crate::text::has(
                    text,
                    decimal(document.revision.size->0 as nat),
                )
                &&& document.revision.modified_ns is Some ==> crate::text::has(
                    text,
                    signed_decimal(document.revision.modified_ns->0 as int),
                )
            },
{
    let revision = document.revision;
    let members = seq![
        ("config"@, json_literal(config)),
        ("id"@, json_literal(document.id@)),
        ("language"@, json_literal(document.language_id@)),
        ("path"@, json_literal(document.relative_path@)),
        ("provider"@, json_literal(provider)),
        ("revision"@, revision_object(revision)),
        ("source_hash"@, json_literal(source_hash)),
    ];
    let text = object_text(members);
    crate::json::every_member_is_in_an_object(members, 0);
    crate::json::every_member_is_in_an_object(members, 1);
    crate::json::every_member_is_in_an_object(members, 2);
    crate::json::every_member_is_in_an_object(members, 3);
    crate::json::every_member_is_in_an_object(members, 4);
    crate::json::every_member_is_in_an_object(members, 5);
    crate::json::every_member_is_in_an_object(members, 6);
    let modified = match revision.modified_ns {
        Some(ns) => signed_decimal(ns as int),
        None => "null"@,
    };
    let size = match revision.size {
        Some(size) => decimal(size as nat),
        None => "null"@,
    };
    let of_revision = seq![
        ("modified_ns"@, modified),
        ("opaque"@, json_literal(revision.opaque@)),
        ("size"@, size),
    ];
    assert(of_revision =~= seq![
        (
            "modified_ns"@,
            match revision.modified_ns {
                Some(ns) => signed_decimal(ns as int),
                None => "null"@,
            },
        ),
        ("opaque"@, json_literal(revision.opaque@)),
        (
            "size"@,
            match revision.size {
                Some(size) => decimal(size as nat),
                None => "null"@,
            },
        ),
    ]);
    crate::json::every_member_is_in_an_object(of_revision, 0);
    crate::json::every_member_is_in_an_object(of_revision, 1);
    crate::json::every_member_is_in_an_object(of_revision, 2);
    crate::text::parts_of_parts_are_parts(text, revision_object(revision), modified);
    crate::text::parts_of_parts_are_parts(
        text,
        revision_object(revision),
        json_literal(revision.opaque@),
    );
    crate::text::parts_of_parts_are_parts(text, revision_object(revision), size);
    assert(input_identity(config, provider, document, source_hash) == text_hash(text));
}

/// What a deletion is known by names the configuration, the provider and the document.
pub proof fn a_deletion_is_known_by_its_document(
    config: Seq<char>,
    provider: Seq<char>,
    id: Seq<char>,
)
    ensures
        exists|text: Seq<char>|
            {
                &&& deletion_identity(config, provider, id) == #[trigger] text_hash(text)
                &&& crate::text::has(text, json_literal(config))
                &&& crate::text::has(text, json_literal(provider))
                &&& crate::text::has(text, json_literal(id))
            },
{
    let members = seq![
        ("config"@, json_literal(config)),
        ("deleted"@, "true"@),
        ("id"@, json_literal(id)),
        ("provider"@, json_literal(provider)),
    ];
    crate::json::every_member_is_in_an_object(members, 0);
    crate::json::every_member_is_in_an_object(members, 2);
    crate::json::every_member_is_in_an_object(members, 3);
    assert(deletion_identity(config, provider, id) == text_hash(object_text(members)));
}

/// A row of a manifest tells of its document what was observed, and one that deletes tells
/// of the file that goes.
pub proof fn a_row_tells_what_was_observed(
    m: ManifestDocument,
    scope: ManifestScope,
    document: SourceDocument,
    revision_json: Seq<char>,
    live: Seq<FileRecord>,
    hash: Seq<char>,
    file: FileRecord,
)
    ensures
        observes(m, scope, document, revision_json, live, hash) ==> {
            &&& m.source_document_id@ == document.id@
            &&& m.relative_path@ == document.relative_path@
            &&& m.language_id@ == document.language_id@
            &&& m.source_revision_json@ == revision_json
            &&& m.observed_source_hash@ == hash
            &&& m.action != DocumentAction::Delete
        },
        deletes(m, scope, file) ==> {
            &&& m.action == DocumentAction::Delete
            &&& m.source_document_id@ == file.source_document_id@
            &&& m.relative_path@ == file.relative_path@
            &&& m.language_id@ == file.language_id@
            &&& m.observed_source_hash@.len() == 0
        },
{
    changed_documents_are_extracted_again(live_file(live, document.id@), document, hash);
}

} // verus!
