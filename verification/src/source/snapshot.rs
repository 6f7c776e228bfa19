//! What workspaces and their snapshots offer.
use crate::source::document::{
    same_document, DocumentDescriptor, DocumentQuery, SnapshotConsistency, SnapshotRequest,
    SourceCapabilities, SourceChange, SourceCheckpoint, SourceContent, SourceError, SourceErrorKind,
    WorkspaceDescriptor,
};
use crate::source::ids::{DocumentId, RevisionToken, SnapshotId, WorkspaceId};
use crate::text::{concat, debug_literal, debug_quote, same};
use vstd::prelude::*;
use vstd::string::*;

verus! {

/// What is said of a document that is not there.
pub open spec fn unknown_text(id: Seq<char>) -> Seq<char> {
    "unknown source document "@ + id
}

/// What is said of a document at another revision.
pub open spec fn stale_text(id: Seq<char>, actual: Seq<char>, expected: Seq<char>) -> Seq<char> {
    "source document "@ + id + " is at revision "@ + actual + ", expected "@ + expected
}

/// The error for a document that is not there.
pub fn unknown_document(id: &DocumentId) -> (r: SourceError)
    ensures
        r.says(SourceErrorKind::NotFound, unknown_text(id@)),
{
    SourceError::not_found(concat("unknown source document ", id.as_str()))
}

/// Checks the revision of a document.
pub fn check_revision(id: &DocumentId, actual: &RevisionToken, expected: &RevisionToken) -> (r:
    Result<(), SourceError>)
    ensures
        match r {
            Ok(()) => actual@ == expected@,
            Err(error) => actual@ != expected@ && error.says(
                SourceErrorKind::StaleRevision,
                stale_text(id@, actual@, expected@),
            ),
        },
{
    if same(actual.as_str(), expected.as_str()) {
        return Ok(());
    }
    let mut text = concat("source document ", id.as_str());
    text.append(" is at revision ");
    text.append(actual.as_str());
    text.append(", expected ");
    text.append(expected.as_str());
    Err(SourceError::stale(text))
}

/// The first document with the id.
pub open spec fn document_at(documents: Seq<DocumentDescriptor>, id: Seq<char>, at: int) -> bool {
    &&& 0 <= at < documents.len()
    &&& documents[at].id@ == id
    &&& forall|j: int| 0 <= j < at ==> (#[trigger] documents[j]).id@ != id
}

/// What is found of the documents: the first with the id, if there is one.
pub open spec fn is_found(
    documents: Seq<DocumentDescriptor>,
    id: Seq<char>,
    found: Option<DocumentDescriptor>,
) -> bool {
    match found {
        Some(document) => exists|at: int|
            #[trigger] document_at(documents, id, at) && same_document(document, documents[at]),
        None => forall|j: int| 0 <= j < documents.len() ==> (#[trigger] documents[j]).id@ != id,
    }
}

/// The first document with the id, where there is one.
pub fn find_document(documents: &Vec<DocumentDescriptor>, id: &DocumentId) -> (r: Option<usize>)
    ensures
        match r {
            Some(at) => document_at(documents@, id@, at as int),
            None => forall|j: int| 0 <= j < documents@.len() ==> (#[trigger] documents@[j]).id@ != id@,
        },
{
    let mut i: usize = 0;
    while i < documents.len()
        invariant
            i <= documents@.len(),
            forall|j: int| 0 <= j < i ==> (#[trigger] documents@[j]).id@ != id@,
        decreases documents@.len() - i,
    {
        if same(documents[i].id.as_str(), id.as_str()) {
            return Some(i);
        }
        i += 1;
    }
    None
}

/// A fixed view of a workspace's documents.
pub trait SourceSnapshot {
    fn id(&self) -> &SnapshotId;

    fn workspace_id(&self) -> &WorkspaceId;

    fn consistency(&self) -> SnapshotConsistency;

    fn checkpoint(&self) -> (r: Option<&SourceCheckpoint>)
        default_ensures
            r is None,
    {
        None
    }

    /// The documents that the query asks for.
    fn documents(&self, query: &DocumentQuery) -> Result<Vec<DocumentDescriptor>, SourceError>;

    /// The document with the id, if there is one.
    fn document(&self, id: &DocumentId) -> (r: Result<Option<DocumentDescriptor>, SourceError>)
        default_ensures
            match r {
                Ok(found) => exists|query: DocumentQuery, documents: Vec<DocumentDescriptor>|
                    {
                        &&& query.asks_for_all()
                        &&& #[trigger] call_ensures(
                            Self::documents,
                            (self, &query),
                            Ok::<Vec<DocumentDescriptor>, SourceError>(documents),
                        )
                        &&& is_found(documents@, id@, found)
                    },
                Err(error) => exists|query: DocumentQuery|
                    query.asks_for_all() && #[trigger] call_ensures(
                        Self::documents,
                        (self, &query),
                        Err::<Vec<DocumentDescriptor>, SourceError>(error),
                    ),
            },
    {
        let query = DocumentQuery::all();
        match self.documents(&query) {
            Err(error) => Err(error),
            Ok(documents) => match find_document(&documents, id) {
                Some(at) => {
                    let found = documents[at].clone();
                    assert(is_found(documents@, id@, Some(found)));
                    Ok(Some(found))
                },
                None => {
                    assert(is_found(documents@, id@, None));
                    Ok(None)
                },
            },
        }
    }

    fn read(&self, document: &DocumentDescriptor) -> Result<SourceContent, SourceError>;

    /// Reads a document by its id, at the expected revision only.
    fn read_by_id(&self, id: &DocumentId, expected: &RevisionToken) -> (r: Result<
        SourceContent,
        SourceError,
    >)
        default_ensures
            exists|found: Result<Option<DocumentDescriptor>, SourceError>| #[trigger]
                call_ensures(Self::document, (self, id), found) && match found {
                    Err(error) => r == Err::<SourceContent, SourceError>(error),
                    Ok(None) => r matches Err(error) && error.says(
                        SourceErrorKind::NotFound,
                        unknown_text(id@),
                    ),
                    Ok(Some(document)) => if document.version.token@ == expected@ {
                        call_ensures(Self::read, (self, &document), r)
                    } else {
                        r matches Err(error) && error.says(
                            SourceErrorKind::StaleRevision,
                            stale_text(id@, document.version.token@, expected@),
                        )
                    },
                },
    {
        let found = self.document(id);
        assert(call_ensures(Self::document, (self, id), found));
        match found {
            Err(error) => Err(error),
            Ok(None) => Err(unknown_document(id)),
            Ok(Some(document)) => match check_revision(id, &document.version.token, expected) {
                Err(error) => Err(error),
                Ok(()) => self.read(&document),
            },
        }
    }

    /// Reads several documents, each for itself.
    fn read_batch(&self, documents: &Vec<DocumentDescriptor>) -> (r: Vec<
        Result<SourceContent, SourceError>,
    >)
        ensures
            r@.len() == documents@.len(),
        default_ensures
            forall|i: int|
                0 <= i < documents@.len() ==> call_ensures(
                    Self::read,
                    (self, &documents@[i]),
                    #[trigger] r@[i],
                ),
    {
        let mut out: Vec<Result<SourceContent, SourceError>> = Vec::new();
        let mut i: usize = 0;
        while i < documents.len()
            invariant
                i <= documents@.len(),
                out@.len() == i,
                forall|j: int|
                    0 <= j < i ==> call_ensures(
                        Self::read,
                        (self, &documents@[j]),
                        #[trigger] out@[j],
                    ),
            decreases documents@.len() - i,
        {
            out.push(self.read(&documents[i]));
            i += 1;
        }
        out
    }
}

/// Where snapshots come from.
pub trait SourceWorkspace {
    type Snapshot: SourceSnapshot;

    fn descriptor(&self) -> WorkspaceDescriptor;

    fn capabilities(&self) -> (r: SourceCapabilities)
        default_ensures
            r == (SourceCapabilities {
                streaming_enumeration: true,
                batch_read: false,
                exact_revision_reads: false,
                change_feed: false,
            }),
    {
        SourceCapabilities {
            streaming_enumeration: true,
            batch_read: false,
            exact_revision_reads: false,
            change_feed: false,
        }
    }

    fn open_snapshot(&self, request: &SnapshotRequest) -> Result<Self::Snapshot, SourceError>;

    fn changes_since(&self, checkpoint: &SourceCheckpoint, query: &DocumentQuery) -> (r: Result<
        Option<Vec<SourceChange>>,
        SourceError,
    >)
        default_ensures
            r == Ok::<Option<Vec<SourceChange>>, SourceError>(None),
    {
        Ok(None)
    }
}

/// An earlier document has the id.
pub open spec fn id_repeats(documents: Seq<DocumentDescriptor>, at: int) -> bool {
    exists|j: int| 0 <= j < at && (#[trigger] documents[j]).id@ == documents[at].id@
}

/// An earlier document has the path.
pub open spec fn path_repeats(documents: Seq<DocumentDescriptor>, at: int) -> bool {
    exists|j: int|
        0 <= j < at && (#[trigger] documents[j]).location.logical_path@
            == documents[at].location.logical_path@
}

/// What is wrong with a document's place in a listing.
pub open spec fn listing_fault(documents: Seq<DocumentDescriptor>, at: int) -> Option<Seq<char>> {
    let document = documents[at];
    if document.id@.len() == 0 {
        Some("source snapshot returned an empty document id"@)
    } else if document.location.logical_path@.len() == 0 {
        Some("source snapshot returned an empty logical path"@)
    } else if id_repeats(documents, at) {
        Some("source snapshot returned duplicate document id "@ + document.id@)
    } else if path_repeats(documents, at) {
        Some(
            "source snapshot returned duplicate logical path "@ + debug_literal(
                document.location.logical_path@,
            ),
        )
    } else {
        None
    }
}

/// Checks a document's place in a listing: its id and its path are there and new.
pub fn check_listed(documents: &Vec<DocumentDescriptor>, at: usize) -> (r: Result<(), SourceError>)
    requires
        at < documents@.len(),
    ensures
        match r {
            Ok(()) => listing_fault(documents@, at as int) is None,
            Err(error) => listing_fault(documents@, at as int) is Some && error.says(
                SourceErrorKind::InvalidData,
                listing_fault(documents@, at as int)->0,
            ),
        },
{
    let document = &documents[at];
    if document.id.as_str().is_empty() {
        return Err(
            SourceError::invalid("source snapshot returned an empty document id".to_owned()),
        );
    }
    if document.location.logical_path.as_str().is_empty() {
        return Err(
            SourceError::invalid("source snapshot returned an empty logical path".to_owned()),
        );
    }
    let mut path_taken = false;
    let mut i: usize = 0;
    while i < at
        invariant
            i <= at < documents@.len(),
            *document == documents@[at as int],
            forall|j: int| 0 <= j < i ==> (#[trigger] documents@[j]).id@ != document.id@,
            path_taken == exists|j: int|
                0 <= j < i && (#[trigger] documents@[j]).location.logical_path@
                    == document.location.logical_path@,
            document.id@.len() > 0,
            document.location.logical_path@.len() > 0,
        decreases at - i,
    {
        if same(documents[i].id.as_str(), document.id.as_str()) {
            assert(id_repeats(documents@, at as int));
            return Err(
                SourceError::invalid(
                    concat("source snapshot returned duplicate document id ", document.id.as_str()),
                ),
            );
        }
        if same(
            documents[i].location.logical_path.as_str(),
            document.location.logical_path.as_str(),
        ) {
            path_taken = true;
        }
        i += 1;
    }
    if path_taken {
        return Err(
            SourceError::invalid(
                concat(
                    "source snapshot returned duplicate logical path ",
                    debug_quote(document.location.logical_path.as_str()).as_str(),
                ),
            ),
        );
    }
    Ok(())
}

/// What is said of a read at another revision than was listed.
pub open spec fn misread_text(actual: Seq<char>, id: Seq<char>, expected: Seq<char>) -> Seq<char> {
    "source snapshot read revision "@ + actual + " for "@ + id + ", expected "@ + expected
}

/// Checks that what was read is at the listed revision.
pub fn check_read(document: &DocumentDescriptor, content: &SourceContent) -> (r: Result<
    (),
    SourceError,
>)
    ensures
        match r {
            Ok(()) => content.observed_version.token@ == document.version.token@,
            Err(error) => content.observed_version.token@ != document.version.token@ && error.says(
                SourceErrorKind::StaleRevision,
                misread_text(
                    content.observed_version.token@,
                    document.id@,
                    document.version.token@,
                ),
            ),
        },
{
    if same(content.observed_version.token.as_str(), document.version.token.as_str()) {
        return Ok(());
    }
    let mut text = concat(
        "source snapshot read revision ",
        content.observed_version.token.as_str(),
    );
    text.append(" for ");
    text.append(document.id.as_str());
    text.append(", expected ");
    text.append(document.version.token.as_str());
    Err(SourceError::stale(text))
}

/// The snapshot may list these documents when it is asked for all.
pub open spec fn may_list<S: SourceSnapshot>(
    snapshot: &S,
    listed: Result<Vec<DocumentDescriptor>, SourceError>,
) -> bool {
    exists|query: DocumentQuery|
        query.asks_for_all() && #[trigger] call_ensures(S::documents, (snapshot, &query), listed)
}

/// The snapshot may read this of a document.
pub open spec fn may_read<S: SourceSnapshot>(
    snapshot: &S,
    document: &DocumentDescriptor,
    content: Result<SourceContent, SourceError>,
) -> bool {
    call_ensures(S::read, (snapshot, document), content)
}

/// The snapshot may read the document at the listed revision.
pub open spec fn reads_as_listed<S: SourceSnapshot>(
    snapshot: &S,
    document: &DocumentDescriptor,
) -> bool {
    exists|content: SourceContent|
        #[trigger] may_read(snapshot, document, Ok(content)) && content.observed_version.token@
            == document.version.token@
}

/// The snapshot may list valid documents and read each at the listed revision.
pub open spec fn may_be_valid<S: SourceSnapshot>(snapshot: &S) -> bool {
    exists|documents: Vec<DocumentDescriptor>|
        {
            &&& #[trigger] may_list(snapshot, Ok(documents))
            &&& documents_pass(snapshot, documents@, documents@.len() as int)
        }
}

/// Listing the documents may fail with the error.
pub open spec fn may_fail_to_list<S: SourceSnapshot>(snapshot: &S, error: SourceError) -> bool {
    may_list(snapshot, Err(error))
}

/// A listed document may give the error: it is out of place, or else it cannot be read
/// or is read at another revision. One that is out of place gives that error alone.
pub open spec fn document_fails<S: SourceSnapshot>(
    snapshot: &S,
    documents: Seq<DocumentDescriptor>,
    at: int,
    error: SourceError,
) -> bool {
    match listing_fault(documents, at) {
        Some(text) => error.says(SourceErrorKind::InvalidData, text),
        None => {
            ||| may_read(snapshot, &documents[at], Err(error))
            ||| exists|content: SourceContent|
                {
                    &&& #[trigger] may_read(snapshot, &documents[at], Ok(content))
                    &&& content.observed_version.token@ != documents[at].version.token@
                    &&& error.says(
                        SourceErrorKind::StaleRevision,
                        misread_text(
                            content.observed_version.token@,
                            documents[at].id@,
                            documents[at].version.token@,
                        ),
                    )
                }
        },
    }
}

/// The documents before a position are in place and may be read at the listed
/// revision.
pub open spec fn documents_pass<S: SourceSnapshot>(
    snapshot: &S,
    documents: Seq<DocumentDescriptor>,
    until: int,
) -> bool {
    &&& forall|i: int| 0 <= i < until ==> #[trigger] listing_fault(documents, i) is None
    &&& forall|i: int| 0 <= i < until ==> reads_as_listed(snapshot, &#[trigger] documents[i])
}

/// The first of the documents that the snapshot may list that does not pass may give
/// the error.
pub open spec fn a_document_fails<S: SourceSnapshot>(snapshot: &S, error: SourceError) -> bool {
    exists|documents: Vec<DocumentDescriptor>, at: int|
        {
            &&& #[trigger] may_list(snapshot, Ok(documents))
            &&& 0 <= at < documents@.len()
            &&& documents_pass(snapshot, documents@, at)
            &&& #[trigger] document_fails(snapshot, documents@, at, error)
        }
}

/// Checks a snapshot: every document has an id and a path of its own and can be
/// read at the listed revision.
pub fn validate_snapshot<S: SourceSnapshot>(snapshot: &S) -> (r: Result<(), SourceError>)
    ensures
        match r {
            Ok(()) => may_be_valid(snapshot),
            Err(error) => may_fail_to_list(snapshot, error) || a_document_fails(snapshot, error),
        },
{
    let query = DocumentQuery::all();
    let documents = match snapshot.documents(&query) {
        Ok(documents) => documents,
        Err(error) => {
            assert(may_list(snapshot, Err(error)));
            return Err(error);
        },
    };
    assert(may_list(snapshot, Ok(documents)));
    let mut i: usize = 0;
    while i < documents.len()
        invariant
            i <= documents@.len(),
            may_list(snapshot, Ok(documents)),
            documents_pass(snapshot, documents@, i as int),
        decreases documents@.len() - i,
    {
        match check_listed(&documents, i) {
            Ok(()) => {},
            Err(error) => {
                assert(document_fails(snapshot, documents@, i as int, error));
                return Err(error);
            },
        }
        let content = match snapshot.read(&documents[i]) {
            Ok(content) => content,
            Err(error) => {
                assert(may_read(snapshot, &documents@[i as int], Err(error)));
                assert(document_fails(snapshot, documents@, i as int, error));
                return Err(error);
            },
        };
        assert(may_read(snapshot, &documents@[i as int], Ok(content)));
        match check_read(&documents[i], &content) {
            Ok(()) => {},
            Err(error) => {
                assert(document_fails(snapshot, documents@, i as int, error));
                return Err(error);
            },
        }
        assert(reads_as_listed(snapshot, &documents@[i as int]));
        i += 1;
    }
    assert(may_be_valid(snapshot));
    Ok(())
}

/// A listing is sound exactly where each document has an id and a path that no document
/// before it has.
pub proof fn sound_listings_repeat_nothing(documents: Seq<DocumentDescriptor>)
    requires
        forall|at: int|
            0 <= at < documents.len() ==> #[trigger] listing_fault(documents, at) is None,
    ensures
        forall|i: int|
            0 <= i < documents.len() ==> (#[trigger] documents[i]).id@.len() > 0
                && documents[i].location.logical_path@.len() > 0,
        forall|i: int, j: int|
            0 <= i < j < documents.len() ==> (#[trigger] documents[i]).id@ != (
            #[trigger] documents[j]).id@ && documents[i].location.logical_path@
                != documents[j].location.logical_path@,
{
    assert forall|i: int| 0 <= i < documents.len() implies (#[trigger] documents[i]).id@.len() > 0
        && documents[i].location.logical_path@.len() > 0 by {
        assert(listing_fault(documents, i) is None);
    }
    assert forall|i: int, j: int| 0 <= i < j < documents.len() implies (#[trigger] documents[i]).id@
        != (#[trigger] documents[j]).id@ && documents[i].location.logical_path@
        != documents[j].location.logical_path@ by {
        assert(listing_fault(documents, j) is None);
    }
}

/// A document that has an id and a path of its own is not faulted.
pub proof fn a_document_of_its_own_is_sound(documents: Seq<DocumentDescriptor>, at: int)
    requires
        0 <= at < documents.len(),
        documents[at].id@.len() > 0,
        documents[at].location.logical_path@.len() > 0,
        forall|j: int|
            0 <= j < at ==> (#[trigger] documents[j]).id@ != documents[at].id@
                && documents[j].location.logical_path@ != documents[at].location.logical_path@,
    ensures
        listing_fault(documents, at) is None,
{
}

/// A document that is found has the id that was asked for, and none is found only where no
/// document has it.
pub proof fn a_document_is_found_by_its_id(
    documents: Seq<DocumentDescriptor>,
    id: Seq<char>,
    found: Option<DocumentDescriptor>,
)
    requires
        is_found(documents, id, found),
    ensures
        found matches Some(document) ==> document.id@ == id && exists|i: int|
            0 <= i < documents.len() && same_document(document, #[trigger] documents[i]),
        found is None <==> forall|j: int|
            0 <= j < documents.len() ==> (#[trigger] documents[j]).id@ != id,
{
    if found is Some {
        let at = choose|at: int| #[trigger]
            document_at(documents, id, at) && same_document(found->0, documents[at]);
        assert(same_document(found->0, documents[at]));
        assert(documents[at].id@ == id);
    }
}

/// A read is at a revision or it is stale: what was read counts only with the revision at
/// which the document is listed.
pub proof fn a_stale_read_is_refused(
    document: DocumentDescriptor,
    content: SourceContent,
    r: Result<(), SourceError>,
)
    requires
        call_ensures(check_read, (&document, &content), r),
    ensures
        r is Ok <==> content.observed_version.token@ == document.version.token@,
        r is Err ==> r->Err_0.kind == SourceErrorKind::StaleRevision && !r->Err_0.retryable,
{
}

} // verus!
