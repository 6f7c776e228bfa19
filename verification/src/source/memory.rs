//! A workspace held in memory.
use crate::source::document::{
    same_document, same_documents, DocumentDescriptor, DocumentLocation, DocumentMetadata,
    DocumentQuery, DocumentVersion, LanguageHint, RevisionGuarantee, SnapshotConsistency,
    SnapshotRequest, SourceCapabilities, SourceCheckpoint, SourceContent, SourceError,
    SourceErrorKind, SourceKind, WorkspaceDescriptor,
};
use crate::source::ids::{DocumentId, RevisionToken, SnapshotId, SourceRootId, WorkspaceId};
use crate::source::snapshot::{
    check_revision, stale_text, unknown_document, unknown_text, SourceSnapshot, SourceWorkspace,
};
use crate::text::{concat, decimal, decimal_text};
use crate::text_map::{key_at, keys_sorted, TextMap};
use vstd::bytes::{spec_u64_to_le_bytes, u64_to_le_bytes};
use vstd::prelude::*;
use vstd::string::*;

verus! {

/// A document and its content.
#[derive(Debug)]
pub struct MemoryDocument {
    pub descriptor: DocumentDescriptor,
    pub bytes: Vec<u8>,
}

/// Two documents say and hold the same.
pub open spec fn same_memory(a: MemoryDocument, b: MemoryDocument) -> bool {
    same_document(a.descriptor, b.descriptor) && a.bytes@ == b.bytes@
}

impl Clone for MemoryDocument {
    fn clone(&self) -> (r: Self)
        ensures
            same_memory(r, *self),
    {
        MemoryDocument { descriptor: self.descriptor.clone(), bytes: clone_bytes(&self.bytes) }
    }
}

/// The documents stand under their ids.
pub open spec fn keyed_by_id(entries: Seq<(String, MemoryDocument)>) -> bool {
    forall|i: int|
        0 <= i < entries.len() ==> (#[trigger] entries[i]).1.descriptor.id@ == entries[i].0@
}

/// The token of the revision with the number.
pub open spec fn memory_token(sequence: nat) -> Seq<char> {
    "memory:"@ + decimal(sequence)
}

fn token_of(sequence: u64) -> (r: RevisionToken)
    ensures
        r@ == memory_token(sequence as nat),
{
    RevisionToken::new(concat("memory:", decimal_text(sequence).as_str()).as_str())
}

/// A workspace whose documents are held in memory. Every change gets the next
/// revision number.
#[derive(Debug)]
pub struct MemoryWorkspace {
    pub descriptor: WorkspaceDescriptor,
    pub root: SourceRootId,
    pub sequence: u64,
    pub documents: TextMap<MemoryDocument>,
}

/// The document is what was put in at the revision.
pub open spec fn is_inserted(
    document: MemoryDocument,
    id: DocumentId,
    root: SourceRootId,
    path: Seq<char>,
    content: Seq<u8>,
    hint: LanguageHint,
    sequence: nat,
) -> bool {
    let descriptor = document.descriptor;
    &&& document.bytes@ == content
    &&& descriptor.id == id
    &&& descriptor.location.root == root
    &&& descriptor.location.logical_path@ == path
    &&& descriptor.location.display_uri is None
    &&& descriptor.version.token@ == memory_token(sequence)
    &&& descriptor.version.guarantee == RevisionGuarantee::ContentIdentity
    &&& descriptor.version.modified_at is None
    &&& descriptor.version.size == Some(content.len() as u64)
    &&& descriptor.version.content_hash is None
    &&& descriptor.language_hint == hint
    &&& !descriptor.metadata.generated
    &&& !descriptor.metadata.vendor
    &&& !descriptor.metadata.test
    &&& descriptor.metadata.attributes.entries@.len() == 0
}

/// The document is another one, moved to the path at the revision.
pub open spec fn is_moved(
    document: MemoryDocument,
    from: MemoryDocument,
    path: Seq<char>,
    sequence: nat,
) -> bool {
    let (now, before) = (document.descriptor, from.descriptor);
    &&& document.bytes == from.bytes
    &&& now.id == before.id
    &&& now.location.root == before.location.root
    &&& now.location.logical_path@ == path
    &&& now.location.display_uri == before.location.display_uri
    &&& now.version.token@ == memory_token(sequence)
    &&& now.version.guarantee == before.version.guarantee
    &&& now.version.modified_at == before.version.modified_at
    &&& now.version.size == before.version.size
    &&& now.version.content_hash == before.version.content_hash
    &&& now.language_hint == before.language_hint
    &&& now.metadata == before.metadata
}

proof fn keyed_map(map: TextMap<MemoryDocument>, key: Seq<char>)
    requires
        map.wf(),
        keyed_by_id(map.entries@),
        map@.contains_key(key),
    ensures
        map@[key].descriptor.id@ == key,
{
    let i = choose|i: int| key_at(map.entries@, i, key);
    map.entry_is_mapped(i);
}

proof fn map_keyed(map: TextMap<MemoryDocument>)
    requires
        map.wf(),
        forall|key: Seq<char>|
            #[trigger] map@.contains_key(key) ==> map@[key].descriptor.id@ == key,
    ensures
        keyed_by_id(map.entries@),
{
    assert forall|i: int| 0 <= i < map.entries@.len() implies (
    #[trigger] map.entries@[i]).1.descriptor.id@ == map.entries@[i].0@ by {
        map.entry_is_mapped(i);
    }
}

impl MemoryWorkspace {
    pub open spec fn wf(self) -> bool {
        self.documents.wf() && keyed_by_id(self.documents.entries@)
    }

    pub fn new(id: &str) -> (r: Self)
        ensures
            r.wf(),
            r.sequence == 0,
            r.root@ == "root"@,
            r.documents@ == Map::<Seq<char>, MemoryDocument>::empty(),
            r.descriptor.id@ == id@,
            r.descriptor.display_name@ == id@,
            r.descriptor.source_kind is Memory,
            r.descriptor.redacted_locator is Some,
            r.descriptor.redacted_locator->0@ == id@,
    {
        let documents: TextMap<MemoryDocument> = TextMap::new();
        proof {
            map_keyed(documents);
        }
        MemoryWorkspace {
            descriptor: WorkspaceDescriptor {
                id: WorkspaceId::new(id),
                display_name: id.to_owned(),
                source_kind: SourceKind::Memory,
                redacted_locator: Some(id.to_owned()),
            },
            root: SourceRootId::new("root"),
            sequence: 0,
            documents,
        }
    }

    /// Puts a document in under its path.
    pub fn insert(&mut self, logical_path: &str, content: Vec<u8>) -> (r: DocumentId)
        requires
            old(self).wf(),
            old(self).sequence < u64::MAX,
        ensures
            final(self).wf(),
            r@ == logical_path@,
            final(self).took(
                *old(self),
                r,
                logical_path@,
                content@,
                LanguageHint::Unknown,
            ),
    {
        self.insert_with_id(
            DocumentId::new(logical_path),
            logical_path,
            content,
            LanguageHint::Unknown,
        )
    }

    /// Puts a document in under its path, with a hint at its language.
    pub fn insert_with_language(
        &mut self,
        logical_path: &str,
        content: Vec<u8>,
        language_hint: LanguageHint,
    ) -> (r: DocumentId)
        requires
            old(self).wf(),
            old(self).sequence < u64::MAX,
        ensures
            final(self).wf(),
            r@ == logical_path@,
            final(self).took(*old(self), r, logical_path@, content@, language_hint),
    {
        self.insert_with_id(DocumentId::new(logical_path), logical_path, content, language_hint)
    }

    /// The workspace took a document in and is otherwise as it was.
    pub open spec fn took(
        self,
        before: MemoryWorkspace,
        id: DocumentId,
        path: Seq<char>,
        content: Seq<u8>,
        hint: LanguageHint,
    ) -> bool {
        &&& self.descriptor == before.descriptor
        &&& self.root == before.root
        &&& self.sequence == before.sequence + 1
        &&& self.documents@.contains_key(id@)
        &&& self.documents@ == before.documents@.insert(id@, self.documents@[id@])
        &&& is_inserted(
            self.documents@[id@],
            id,
            before.root,
            path,
            content,
            hint,
            self.sequence as nat,
        )
    }

    /// Puts a document in under an id; what stood there is replaced.
    pub fn insert_with_id(
        &mut self,
        id: DocumentId,
        logical_path: &str,
        content: Vec<u8>,
        language_hint: LanguageHint,
    ) -> (r: DocumentId)
        requires
            old(self).wf(),
            old(self).sequence < u64::MAX,
        ensures
            final(self).wf(),
            r == id,
            final(self).took(*old(self), id, logical_path@, content@, language_hint),
    {
        let ghost before = self.documents;
        self.sequence = self.sequence + 1;
        let mut version = DocumentVersion::new(
            token_of(self.sequence),
            RevisionGuarantee::ContentIdentity,
        );
        version.size = Some(content.len() as u64);
        let descriptor = DocumentDescriptor {
            id: id.clone(),
            location: DocumentLocation {
                root: self.root.clone(),
                logical_path: logical_path.to_owned(),
                display_uri: None,
            },
            version,
            language_hint,
            metadata: DocumentMetadata::default(),
        };
        let document = MemoryDocument { descriptor, bytes: content };
        self.documents.insert(id.as_str().to_owned(), document);
        proof {
            assert forall|key: Seq<char>|
                #[trigger] self.documents@.contains_key(
                    key,
                ) implies self.documents@[key].descriptor.id@ == key by {
                if key != id@ {
                    keyed_map(before, key);
                }
            }
            map_keyed(self.documents);
        }
        id
    }

    /// Takes a document out; says whether it was there.
    pub fn remove(&mut self, id: &DocumentId) -> (r: bool)
        requires
            old(self).wf(),
        ensures
            final(self).wf(),
            r == old(self).documents@.contains_key(id@),
            final(self).documents@ == old(self).documents@.remove(id@),
            final(self).descriptor == old(self).descriptor,
            final(self).root == old(self).root,
            final(self).sequence == old(self).sequence,
    {
        let ghost before = self.documents;
        let taken = self.documents.remove(id.as_str()).is_some();
        proof {
            assert forall|key: Seq<char>|
                #[trigger] self.documents@.contains_key(
                    key,
                ) implies self.documents@[key].descriptor.id@ == key by {
                keyed_map(before, key);
            }
            map_keyed(self.documents);
        }
        taken
    }

    /// Moves a document to another path. Its revision changes, its content does not.
    pub fn move_document(&mut self, id: &DocumentId, logical_path: &str) -> (r: Result<
        (),
        SourceError,
    >)
        requires
            old(self).wf(),
            old(self).sequence < u64::MAX,
        ensures
            final(self).wf(),
            final(self).descriptor == old(self).descriptor,
            final(self).root == old(self).root,
            match r {
                Ok(()) => {
                    &&& old(self).documents@.contains_key(id@)
                    &&& final(self).sequence == old(self).sequence + 1
                    &&& final(self).documents@ == old(self).documents@.insert(
                        id@,
                        final(self).documents@[id@],
                    )
                    &&& is_moved(
                        final(self).documents@[id@],
                        old(self).documents@[id@],
                        logical_path@,
                        final(self).sequence as nat,
                    )
                },
                Err(error) => {
                    &&& !old(self).documents@.contains_key(id@)
                    &&& *final(self) == *old(self)
                    &&& error.says(SourceErrorKind::NotFound, unknown_text(id@))
                },
            },
    {
        let ghost before = self.documents;
        if self.documents.get(id.as_str()).is_none() {
            return Err(unknown_document(id));
        }
        self.sequence = self.sequence + 1;
        if let Some(stored) = self.documents.remove(id.as_str()) {
            let old_version = stored.descriptor.version;
            let document = MemoryDocument {
                descriptor: DocumentDescriptor {
                    id: stored.descriptor.id,
                    location: DocumentLocation {
                        root: stored.descriptor.location.root,
                        logical_path: logical_path.to_owned(),
                        display_uri: stored.descriptor.location.display_uri,
                    },
                    version: DocumentVersion {
                        token: token_of(self.sequence),
                        guarantee: old_version.guarantee,
                        modified_at: old_version.modified_at,
                        size: old_version.size,
                        content_hash: old_version.content_hash,
                    },
                    language_hint: stored.descriptor.language_hint,
                    metadata: stored.descriptor.metadata,
                },
                bytes: stored.bytes,
            };
            proof {
                keyed_map(before, id@);
            }
            self.documents.insert(id.as_str().to_owned(), document);
            proof {
                assert(self.documents@ =~= before@.insert(id@, document));
                assert forall|key: Seq<char>|
                    #[trigger] self.documents@.contains_key(
                        key,
                    ) implies self.documents@[key].descriptor.id@ == key by {
                    if key != id@ {
                        keyed_map(before, key);
                    }
                }
                map_keyed(self.documents);
            }
        }
        Ok(())
    }
}

/// The entries hold the same documents under the same ids.
pub open spec fn same_entries(
    a: Seq<(String, MemoryDocument)>,
    b: Seq<(String, MemoryDocument)>,
) -> bool {
    &&& a.len() == b.len()
    &&& forall|i: int|
        0 <= i < a.len() ==> (#[trigger] a[i]).0 == b[i].0 && same_memory(a[i].1, b[i].1)
}

impl SourceWorkspace for MemoryWorkspace {
    type Snapshot = MemorySnapshot;

    fn descriptor(&self) -> (r: WorkspaceDescriptor)
        ensures
            r == self.descriptor,
    {
        self.descriptor.clone()
    }

    fn capabilities(&self) -> (r: SourceCapabilities)
        ensures
            r == (SourceCapabilities {
                streaming_enumeration: true,
                batch_read: true,
                exact_revision_reads: true,
                change_feed: false,
            }),
    {
        SourceCapabilities {
            streaming_enumeration: true,
            batch_read: true,
            exact_revision_reads: true,
            change_feed: false,
        }
    }

    fn open_snapshot(&self, request: &SnapshotRequest) -> (r: Result<MemorySnapshot, SourceError>)
        ensures
            r is Ok,
            r->Ok_0.is_of(*self),
    {
        let mut entries: Vec<(String, MemoryDocument)> = Vec::new();
        let mut i: usize = 0;
        while i < self.documents.entries.len()
            invariant
                i <= self.documents.entries@.len(),
                same_entries(entries@, self.documents.entries@.take(i as int)),
            decreases self.documents.entries@.len() - i,
        {
            let entry = &self.documents.entries[i];
            let ghost before = entries@;
            entries.push((entry.0.clone(), entry.1.clone()));
            i += 1;
            assert forall|j: int| 0 <= j < entries@.len() implies (#[trigger] entries@[j]).0
                == self.documents.entries@.take(i as int)[j].0 && same_memory(
                entries@[j].1,
                self.documents.entries@.take(i as int)[j].1,
            ) by {
                if j < i - 1 {
                    assert(entries@[j] == before[j]);
                    assert(self.documents.entries@.take(i - 1)[j]
                        == self.documents.entries@.take(i as int)[j]);
                }
            }
        }
        assert(self.documents.entries@.take(i as int) =~= self.documents.entries@);
        let mut id = concat(self.descriptor.id.as_str(), "@");
        id.append(decimal_text(self.sequence).as_str());
        Ok(
            MemorySnapshot {
                id: SnapshotId::new(id.as_str()),
                workspace_id: self.descriptor.id.clone(),
                documents: TextMap { entries },
                checkpoint: SourceCheckpoint {
                    workspace: self.descriptor.id.clone(),
                    token: u64_to_le_bytes(self.sequence),
                },
            },
        )
    }
}

/// The documents of a workspace at one revision.
#[derive(Debug)]
pub struct MemorySnapshot {
    pub id: SnapshotId,
    pub workspace_id: WorkspaceId,
    pub documents: TextMap<MemoryDocument>,
    pub checkpoint: SourceCheckpoint,
}

/// The descriptors that the query selects.
pub open spec fn selected(
    entries: Seq<(String, MemoryDocument)>,
    query: DocumentQuery,
) -> Seq<DocumentDescriptor>
    decreases entries.len(),
{
    if entries.len() == 0 {
        Seq::empty()
    } else {
        let before = selected(entries.drop_last(), query);
        let last = entries.last().1.descriptor;
        if query.selects(last) {
            before.push(last)
        } else {
            before
        }
    }
}

/// The content is what the document holds.
pub open spec fn is_content(content: SourceContent, document: MemoryDocument) -> bool {
    &&& content.bytes@ == document.bytes@
    &&& content.observed_version == document.descriptor.version
    &&& content.encoding_hint is Some
    &&& content.encoding_hint->0@ == "utf-8"@
}

impl MemorySnapshot {
    pub open spec fn wf(self) -> bool {
        self.documents.wf() && keyed_by_id(self.documents.entries@)
    }

    /// The snapshot holds the workspace as it is.
    pub open spec fn is_of(self, workspace: MemoryWorkspace) -> bool {
        &&& same_entries(self.documents.entries@, workspace.documents.entries@)
        &&& self.workspace_id == workspace.descriptor.id
        &&& self.id@ == workspace.descriptor.id@ + "@"@ + decimal(workspace.sequence as nat)
        &&& self.checkpoint.workspace == workspace.descriptor.id
        &&& self.checkpoint.token@ == spec_u64_to_le_bytes(workspace.sequence)
    }
}

fn clone_bytes(bytes: &Vec<u8>) -> (r: Vec<u8>)
    ensures
        r@ == bytes@,
{
    let mut out: Vec<u8> = Vec::new();
    let mut i: usize = 0;
    while i < bytes.len()
        invariant
            i <= bytes@.len(),
            out@ == bytes@.take(i as int),
        decreases bytes@.len() - i,
    {
        out.push(bytes[i]);
        i += 1;
        assert(out@ =~= bytes@.take(i as int));
    }
    assert(bytes@.take(i as int) =~= bytes@);
    out
}

impl SourceSnapshot for MemorySnapshot {
    fn id(&self) -> (r: &SnapshotId)
        ensures
            *r == self.id,
    {
        &self.id
    }

    fn workspace_id(&self) -> (r: &WorkspaceId)
        ensures
            *r == self.workspace_id,
    {
        &self.workspace_id
    }

    fn consistency(&self) -> (r: SnapshotConsistency)
        ensures
            r == SnapshotConsistency::Immutable,
    {
        SnapshotConsistency::Immutable
    }

    fn checkpoint(&self) -> (r: Option<&SourceCheckpoint>)
        ensures
            r == Some(&self.checkpoint),
    {
        Some(&self.checkpoint)
    }

    fn documents(&self, query: &DocumentQuery) -> (r: Result<Vec<DocumentDescriptor>, SourceError>)
        ensures
            r is Ok,
            same_documents(r->Ok_0@, selected(self.documents.entries@, *query)),
    {
        let ghost entries = self.documents.entries@;
        let mut out: Vec<DocumentDescriptor> = Vec::new();
        let mut i: usize = 0;
        while i < self.documents.entries.len()
            invariant
                i <= entries.len(),
                entries == self.documents.entries@,
                same_documents(out@, selected(entries.take(i as int), *query)),
            decreases entries.len() - i,
        {
            assert(entries.take(i + 1).drop_last() =~= entries.take(i as int));
            let descriptor = &self.documents.entries[i].1.descriptor;
            if query.matches(descriptor) {
                out.push(descriptor.clone());
            }
            i += 1;
        }
        assert(entries.take(i as int) =~= entries);
        Ok(out)
    }

    fn document(&self, id: &DocumentId) -> (r: Result<Option<DocumentDescriptor>, SourceError>)
        ensures
            r is Ok,
            match r->Ok_0 {
                Some(document) => self.documents@.contains_key(id@) && (self.wf()
                    ==> same_document(document, self.documents@[id@].descriptor)),
                None => !self.documents@.contains_key(id@),
            },
    {
        match self.documents.find(id.as_str()) {
            Some(document) => Ok(Some(document.descriptor.clone())),
            None => Ok(None),
        }
    }

    fn read(&self, document: &DocumentDescriptor) -> (r: Result<SourceContent, SourceError>)
        ensures
            r is Err && !self.documents@.contains_key(document.id@) ==> r->Err_0.says(
                SourceErrorKind::NotFound,
                unknown_text(document.id@),
            ),
            r is Ok ==> self.documents@.contains_key(document.id@),
            self.wf() && self.documents@.contains_key(document.id@) ==> {
                let stored = self.documents@[document.id@];
                let token = stored.descriptor.version.token@;
                match r {
                    Ok(content) => token == document.version.token@ && is_content(
                        content,
                        stored,
                    ),
                    Err(error) => token != document.version.token@ && error.says(
                        SourceErrorKind::StaleRevision,
                        stale_text(document.id@, token, document.version.token@),
                    ),
                }
            },
    {
        match self.documents.find(document.id.as_str()) {
            None => Err(unknown_document(&document.id)),
            Some(stored) => match check_revision(
                &document.id,
                &stored.descriptor.version.token,
                &document.version.token,
            ) {
                Err(error) => Err(error),
                Ok(()) => Ok(
                    SourceContent {
                        bytes: clone_bytes(&stored.bytes),
                        observed_version: stored.descriptor.version.clone(),
                        encoding_hint: Some("utf-8".to_owned()),
                    },
                ),
            },
        }
    }
}

/// A snapshot of a well-formed workspace is well-formed, and what it holds under an
/// id is what the workspace held.
pub proof fn a_snapshot_keeps_the_workspace(
    workspace: MemoryWorkspace,
    snapshot: MemorySnapshot,
    id: Seq<char>,
)
    requires
        workspace.wf(),
        snapshot.is_of(workspace),
    ensures
        snapshot.wf(),
        snapshot.documents@.contains_key(id) == workspace.documents@.contains_key(id),
        workspace.documents@.contains_key(id) ==> same_memory(
            snapshot.documents@[id],
            workspace.documents@[id],
        ),
{
    let own = snapshot.documents.entries@;
    let from = workspace.documents.entries@;
    assert(keys_sorted(own)) by {
        assert forall|i: int, j: int| 0 <= i < j < own.len() implies crate::text::lex_less(
            (#[trigger] own[i]).0@,
            (#[trigger] own[j]).0@,
        ) by {
            assert(own[i].0 == from[i].0 && own[j].0 == from[j].0);
            assert(crate::text::lex_less(from[i].0@, from[j].0@));
        }
    }
    assert forall|i: int| 0 <= i < own.len() implies (#[trigger] own[i]).1.descriptor.id@
        == own[i].0@ by {
        assert(own[i].0 == from[i].0 && same_memory(own[i].1, from[i].1));
        assert(from[i].1.descriptor.id@ == from[i].0@);
    }
    if workspace.documents@.contains_key(id) {
        let i = choose|i: int| key_at(from, i, id);
        assert(own[i].0 == from[i].0);
        assert(key_at(own, i, id));
        snapshot.documents.entry_is_mapped(i);
        workspace.documents.entry_is_mapped(i);
    }
    if snapshot.documents@.contains_key(id) {
        let i = choose|i: int| key_at(own, i, id);
        assert(own[i].0 == from[i].0);
        assert(key_at(from, i, id));
    }
}

/// A snapshot is not touched by what happens to the workspace after it was opened:
/// a document that was there is read at the revision and with the content that it
/// had then.
pub proof fn snapshots_are_immutable(
    workspace: MemoryWorkspace,
    snapshot: MemorySnapshot,
    document: DocumentDescriptor,
    read: SourceContent,
)
    requires
        workspace.wf(),
        snapshot.is_of(workspace),
        workspace.documents@.contains_key(document.id@),
        same_document(document, workspace.documents@[document.id@].descriptor),
        is_content(read, snapshot.documents@[document.id@]),
    ensures
        is_content(read, workspace.documents@[document.id@]),
        document.version.token@ == snapshot.documents@[document.id@].descriptor.version.token@,
{
    a_snapshot_keeps_the_workspace(workspace, snapshot, document.id@);
}

/// What was put in last under an id is what is there.
pub proof fn the_last_insertion_counts(
    before: MemoryWorkspace,
    after: MemoryWorkspace,
    id: DocumentId,
    path: Seq<char>,
    content: Seq<u8>,
    hint: LanguageHint,
    other: Seq<char>,
)
    requires
        after.took(before, id, path, content, hint),
        other != id@,
    ensures
        after.documents@[id@].bytes@ == content,
        after.documents@.contains_key(other) == before.documents@.contains_key(other),
        before.documents@.contains_key(other) ==> after.documents@[other]
            == before.documents@[other],
{
}

/// What a query selects of a workspace is listed, and nothing else, in the order of the ids.
pub proof fn a_listing_holds_what_is_selected(
    entries: Seq<(String, MemoryDocument)>,
    query: DocumentQuery,
    k: int,
)
    requires
        0 <= k < entries.len(),
    ensures
        query.selects(entries[k].1.descriptor) ==> selected(entries, query).contains(
            entries[k].1.descriptor,
        ),
        selected(entries, query).len() <= entries.len(),
        forall|i: int|
            0 <= i < selected(entries, query).len() ==> query.selects(
                #[trigger] selected(entries, query)[i],
            ),
    decreases entries.len(),
{
    let front = entries.drop_last();
    let (before, after) = (selected(front, query), selected(entries, query));
    let own = entries[k].1.descriptor;
    if front.len() > 0 {
        a_listing_holds_what_is_selected(
            front,
            query,
            if k < front.len() {
                k
            } else {
                0
            },
        );
    } else {
        assert(before.len() == 0);
    }
    if query.selects(own) {
        if k < front.len() {
            assert(front[k] == entries[k]);
            let i = choose|i: int| 0 <= i < before.len() && before[i] == own;
            assert(after[i] == own);
        } else {
            assert(after[after.len() - 1] == own);
        }
    }
    assert forall|i: int| 0 <= i < after.len() implies query.selects(#[trigger] after[i]) by {
        if i < before.len() {
            assert(after[i] == before[i]);
        }
    }
}

/// Each change of a workspace gives its document a revision that no other change gave.
pub proof fn revisions_are_not_given_twice(earlier: nat, later: nat)
    requires
        earlier < later,
    ensures
        memory_token(earlier) != memory_token(later),
{
    if memory_token(earlier) == memory_token(later) {
        let at = "memory:"@.len() as int;
        assert(memory_token(earlier).skip(at) =~= decimal(earlier));
        assert(memory_token(later).skip(at) =~= decimal(later));
        crate::text::decimal_reads_back(earlier);
        crate::text::decimal_reads_back(later);
    }
}

/// A document that moves keeps its content and its id, and is found at its new path with a
/// new revision.
pub proof fn a_moved_document_keeps_its_content(
    document: MemoryDocument,
    from: MemoryDocument,
    path: Seq<char>,
    sequence: nat,
)
    requires
        is_moved(document, from, path, sequence),
    ensures
        document.bytes@ == from.bytes@,
        document.descriptor.id@ == from.descriptor.id@,
        document.descriptor.location.logical_path@ == path,
        document.descriptor.version.token@ == memory_token(sequence),
        document.descriptor.version.size == from.descriptor.version.size,
{
}

/// What is inserted is told of as it was given.
pub proof fn an_inserted_document_is_what_was_given(
    document: MemoryDocument,
    id: DocumentId,
    root: SourceRootId,
    path: Seq<char>,
    content: Seq<u8>,
    hint: LanguageHint,
    sequence: nat,
)
    requires
        is_inserted(document, id, root, path, content, hint, sequence),
    ensures
        document.bytes@ == content,
        document.descriptor.id == id,
        document.descriptor.location.logical_path@ == path,
        document.descriptor.location.root == root,
        document.descriptor.language_hint == hint,
        document.descriptor.version.token@ == memory_token(sequence),
        content.len() <= u64::MAX ==> document.descriptor.version.size == Some(content.len() as u64),
{
}

} // verus!
