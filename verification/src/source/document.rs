//! Documents and what is known of them.
use crate::source::ids::{ContentHash, DocumentId, RevisionToken, SourceRootId, WorkspaceId};
use crate::text::{clone_opt, concat, list_holds, starts_with, views};
use crate::text_map::TextMap;
use crate::utf8::{read_utf8, utf8_error_text};
use vstd::prelude::*;
use vstd::string::*;
use vstd::utf8::{decode_utf8, valid_utf8};

verus! {

#[derive(Debug)]
pub enum SourceKind {
    FileSystem,
    Memory,
    Git,
    ObjectStore,
    Database,
    Archive,
    Editor,
    Generated,
    Custom(String),
}

#[derive(Debug, Clone, Copy, PartialEq, Eq, Structural)]
pub enum RevisionGuarantee {
    ContentIdentity,
    MetadataHint,
}

#[derive(Debug, Clone, Copy, PartialEq, Eq, Structural)]
pub enum SnapshotConsistency {
    BestEffort,
    Validated,
    Transactional,
    Immutable,
}

impl SnapshotConsistency {
    /// How much is promised.
    pub open spec fn strength(self) -> nat {
        match self {
            SnapshotConsistency::BestEffort => 0,
            SnapshotConsistency::Validated => 1,
            SnapshotConsistency::Transactional => 2,
            SnapshotConsistency::Immutable => 3,
        }
    }

    fn rank(self) -> (r: u8)
        ensures
            r == self.strength(),
    {
        match self {
            SnapshotConsistency::BestEffort => 0,
            SnapshotConsistency::Validated => 1,
            SnapshotConsistency::Transactional => 2,
            SnapshotConsistency::Immutable => 3,
        }
    }

    /// The weaker of two promises.
    pub fn weaker(self, other: SnapshotConsistency) -> (r: SnapshotConsistency)
        ensures
            r == if other.strength() < self.strength() {
                other
            } else {
                self
            },
    {
        if other.rank() < self.rank() {
            other
        } else {
            self
        }
    }
}

#[derive(Debug)]
pub enum LanguageHint {
    Known(String),
    FileExtension(String),
    MediaType(String),
    Shebang(String),
    Unknown,
}

impl Default for LanguageHint {
    fn default() -> (r: Self)
        ensures
            r is Unknown,
    {
        LanguageHint::Unknown
    }
}

impl Clone for LanguageHint {
    fn clone(&self) -> (r: Self)
        ensures
            r == *self,
    {
        match self {
            LanguageHint::Known(text) => LanguageHint::Known(text.clone()),
            LanguageHint::FileExtension(text) => LanguageHint::FileExtension(text.clone()),
            LanguageHint::MediaType(text) => LanguageHint::MediaType(text.clone()),
            LanguageHint::Shebang(text) => LanguageHint::Shebang(text.clone()),
            LanguageHint::Unknown => LanguageHint::Unknown,
        }
    }
}

#[derive(Debug)]
pub struct DocumentMetadata {
    pub generated: bool,
    pub vendor: bool,
    pub test: bool,
    pub attributes: TextMap<String>,
}

/// Two metadata say the same.
pub open spec fn same_metadata(a: DocumentMetadata, b: DocumentMetadata) -> bool {
    &&& a.generated == b.generated
    &&& a.vendor == b.vendor
    &&& a.test == b.test
    &&& a.attributes.entries@ == b.attributes.entries@
}

impl Default for DocumentMetadata {
    fn default() -> (r: Self)
        ensures
            !r.generated,
            !r.vendor,
            !r.test,
            r.attributes.entries@.len() == 0,
    {
        DocumentMetadata {
            generated: false,
            vendor: false,
            test: false,
            attributes: TextMap { entries: Vec::new() },
        }
    }
}

impl Clone for DocumentMetadata {
    fn clone(&self) -> (r: Self)
        ensures
            same_metadata(r, *self),
    {
        let mut entries: Vec<(String, String)> = Vec::new();
        let mut i: usize = 0;
        while i < self.attributes.entries.len()
            invariant
                i <= self.attributes.entries@.len(),
                entries@ == self.attributes.entries@.take(i as int),
            decreases self.attributes.entries@.len() - i,
        {
            let entry = &self.attributes.entries[i];
            entries.push((entry.0.clone(), entry.1.clone()));
            i += 1;
            assert(entries@ =~= self.attributes.entries@.take(i as int));
        }
        assert(entries@ =~= self.attributes.entries@);
        DocumentMetadata {
            generated: self.generated,
            vendor: self.vendor,
            test: self.test,
            attributes: TextMap { entries },
        }
    }
}

#[derive(Debug)]
pub struct WorkspaceDescriptor {
    pub id: WorkspaceId,
    pub display_name: String,
    pub source_kind: SourceKind,
    pub redacted_locator: Option<String>,
}

impl WorkspaceDescriptor {
    /// The locator that is persisted: the redacted one, else the id.
    pub fn persisted_locator(&self) -> (r: String)
        ensures
            r@ == match self.redacted_locator {
                Some(locator) => locator@,
                None => self.id@,
            },
    {
        match &self.redacted_locator {
            Some(locator) => locator.clone(),
            None => self.id.as_str().to_owned(),
        }
    }
}

impl Clone for SourceKind {
    fn clone(&self) -> (r: Self)
        ensures
            r == *self,
    {
        match self {
            SourceKind::FileSystem => SourceKind::FileSystem,
            SourceKind::Memory => SourceKind::Memory,
            SourceKind::Git => SourceKind::Git,
            SourceKind::ObjectStore => SourceKind::ObjectStore,
            SourceKind::Database => SourceKind::Database,
            SourceKind::Archive => SourceKind::Archive,
            SourceKind::Editor => SourceKind::Editor,
            SourceKind::Generated => SourceKind::Generated,
            SourceKind::Custom(name) => SourceKind::Custom(name.clone()),
        }
    }
}

impl Clone for WorkspaceDescriptor {
    fn clone(&self) -> (r: Self)
        ensures
            r == *self,
    {
        WorkspaceDescriptor {
            id: self.id.clone(),
            display_name: self.display_name.clone(),
            source_kind: self.source_kind.clone(),
            redacted_locator: clone_opt(&self.redacted_locator),
        }
    }
}

#[derive(Debug)]
pub struct DocumentLocation {
    pub root: SourceRootId,
    pub logical_path: String,
    pub display_uri: Option<String>,
}

impl Clone for DocumentLocation {
    fn clone(&self) -> (r: Self)
        ensures
            r == *self,
    {
        DocumentLocation {
            root: self.root.clone(),
            logical_path: self.logical_path.clone(),
            display_uri: clone_opt(&self.display_uri),
        }
    }
}

#[derive(Debug)]
pub struct DocumentVersion {
    pub token: RevisionToken,
    pub guarantee: RevisionGuarantee,
    /// Nanoseconds from the beginning of 1970, below zero for what was earlier.
    pub modified_at: Option<i128>,
    pub size: Option<u64>,
    pub content_hash: Option<ContentHash>,
}

impl DocumentVersion {
    pub fn new(token: RevisionToken, guarantee: RevisionGuarantee) -> (r: Self)
        ensures
            r == (DocumentVersion {
                token,
                guarantee,
                modified_at: None,
                size: None,
                content_hash: None,
            }),
    {
        DocumentVersion { token, guarantee, modified_at: None, size: None, content_hash: None }
    }
}

impl Clone for DocumentVersion {
    fn clone(&self) -> (r: Self)
        ensures
            r == *self,
    {
        let content_hash = match &self.content_hash {
            Some(hash) => Some(hash.clone()),
            None => None,
        };
        DocumentVersion {
            token: self.token.clone(),
            guarantee: self.guarantee,
            modified_at: self.modified_at,
            size: self.size,
            content_hash,
        }
    }
}

#[derive(Debug)]
pub struct DocumentDescriptor {
    pub id: DocumentId,
    pub location: DocumentLocation,
    pub version: DocumentVersion,
    pub language_hint: LanguageHint,
    pub metadata: DocumentMetadata,
}

/// Two descriptors say the same.
pub open spec fn same_document(a: DocumentDescriptor, b: DocumentDescriptor) -> bool {
    &&& a.id == b.id
    &&& a.location == b.location
    &&& a.version == b.version
    &&& a.language_hint == b.language_hint
    &&& same_metadata(a.metadata, b.metadata)
}

/// Two lists of descriptors say the same.
pub open spec fn same_documents(a: Seq<DocumentDescriptor>, b: Seq<DocumentDescriptor>) -> bool {
    &&& a.len() == b.len()
    &&& forall|i: int| 0 <= i < a.len() ==> same_document(#[trigger] a[i], b[i])
}

impl Clone for DocumentDescriptor {
    fn clone(&self) -> (r: Self)
        ensures
            same_document(r, *self),
    {
        DocumentDescriptor {
            id: self.id.clone(),
            location: self.location.clone(),
            version: self.version.clone(),
            language_hint: self.language_hint.clone(),
            metadata: self.metadata.clone(),
        }
    }
}

#[derive(Debug)]
pub struct SourceCheckpoint {
    pub workspace: WorkspaceId,
    pub token: Vec<u8>,
}

#[derive(Debug)]
pub struct SnapshotRequest {
    pub checkpoint: Option<SourceCheckpoint>,
}

impl Default for SnapshotRequest {
    fn default() -> (r: Self)
        ensures
            r.checkpoint is None,
    {
        SnapshotRequest { checkpoint: None }
    }
}

/// Which documents are asked for.
#[derive(Debug)]
pub struct DocumentQuery {
    pub language_ids: Vec<String>,
    pub path_prefixes: Vec<String>,
    pub include_generated: bool,
    pub include_vendor: bool,
}

impl Default for DocumentQuery {
    fn default() -> (r: Self)
        ensures
            r.language_ids@.len() == 0,
            r.path_prefixes@.len() == 0,
            !r.include_generated,
            !r.include_vendor,
    {
        DocumentQuery {
            language_ids: Vec::new(),
            path_prefixes: Vec::new(),
            include_generated: false,
            include_vendor: false,
        }
    }
}

impl DocumentQuery {
    /// The query leaves nothing out.
    pub open spec fn asks_for_all(self) -> bool {
        &&& self.language_ids@.len() == 0
        &&& self.path_prefixes@.len() == 0
        &&& self.include_generated
        &&& self.include_vendor
    }

    /// The document is asked for.
    pub open spec fn selects(self, document: DocumentDescriptor) -> bool {
        &&& self.include_generated || !document.metadata.generated
        &&& self.include_vendor || !document.metadata.vendor
        &&& self.path_prefixes@.len() == 0 || exists|i: int|
            0 <= i < self.path_prefixes@.len() && (#[trigger] self.path_prefixes@[i])@.is_prefix_of(
                document.location.logical_path@,
            )
        &&& self.language_ids@.len() == 0 || match document.language_hint {
            LanguageHint::Known(language) => views(self.language_ids@).contains(language@),
            _ => true,
        }
    }

    pub fn all() -> (r: Self)
        ensures
            r.asks_for_all(),
    {
        DocumentQuery {
            language_ids: Vec::new(),
            path_prefixes: Vec::new(),
            include_generated: true,
            include_vendor: true,
        }
    }

    /// Whether the document is asked for. A language that is only hinted at rules
    /// nothing out.
    pub fn matches(&self, document: &DocumentDescriptor) -> (r: bool)
        ensures
            r == self.selects(*document),
    {
        if !self.include_generated && document.metadata.generated {
            return false;
        }
        if !self.include_vendor && document.metadata.vendor {
            return false;
        }
        if self.path_prefixes.len() > 0 {
            let mut found = false;
            let mut i: usize = 0;
            while i < self.path_prefixes.len() && !found
                invariant
                    i <= self.path_prefixes@.len(),
                    found == exists|j: int|
                        0 <= j < i && (#[trigger] self.path_prefixes@[j])@.is_prefix_of(
                            document.location.logical_path@,
                        ),
                decreases self.path_prefixes@.len() - i,
            {
                if starts_with(
                    document.location.logical_path.as_str(),
                    self.path_prefixes[i].as_str(),
                ) {
                    found = true;
                }
                i += 1;
            }
            if !found {
                return false;
            }
        }
        if self.language_ids.len() == 0 {
            return true;
        }
        match &document.language_hint {
            LanguageHint::Known(language) => list_holds(&self.language_ids, language.as_str()),
            _ => true,
        }
    }
}

#[derive(Debug, Clone, Copy, PartialEq, Eq, Structural)]
pub struct SourceCapabilities {
    pub streaming_enumeration: bool,
    pub batch_read: bool,
    pub exact_revision_reads: bool,
    pub change_feed: bool,
}

impl Default for SourceCapabilities {
    fn default() -> (r: Self)
        ensures
            r == (SourceCapabilities {
                streaming_enumeration: false,
                batch_read: false,
                exact_revision_reads: false,
                change_feed: false,
            }),
    {
        SourceCapabilities {
            streaming_enumeration: false,
            batch_read: false,
            exact_revision_reads: false,
            change_feed: false,
        }
    }
}

#[derive(Debug)]
pub enum SourceChange {
    Upsert(DocumentDescriptor),
    Remove(DocumentId),
    Move { id: DocumentId, new_location: DocumentLocation, version: DocumentVersion },
}

#[derive(Debug, Clone, Copy, PartialEq, Eq, Structural)]
pub enum SourceErrorKind {
    NotFound,
    StaleRevision,
    PermissionDenied,
    RateLimited,
    Unavailable,
    InvalidData,
    Unsupported,
    Other,
}

#[derive(Debug)]
pub struct SourceError {
    pub kind: SourceErrorKind,
    pub message: String,
    pub retryable: bool,
}

impl SourceError {
    /// The error is of the kind, says the text and is not to be tried again.
    pub open spec fn says(self, kind: SourceErrorKind, text: Seq<char>) -> bool {
        self.kind == kind && self.message@ == text && !self.retryable
    }

    pub fn new(kind: SourceErrorKind, message: String) -> (r: Self)
        ensures
            r == (SourceError { kind, message, retryable: false }),
    {
        SourceError { kind, message, retryable: false }
    }

    /// The error, marked as worth another try or not.
    pub fn retryable(self, retryable: bool) -> (r: Self)
        ensures
            r == (SourceError { retryable, ..self }),
    {
        SourceError { kind: self.kind, message: self.message, retryable }
    }

    pub fn kind(&self) -> (r: SourceErrorKind)
        ensures
            r == self.kind,
    {
        self.kind
    }

    pub fn is_retryable(&self) -> (r: bool)
        ensures
            r == self.retryable,
    {
        self.retryable
    }

    pub fn not_found(message: String) -> (r: Self)
        ensures
            r.says(SourceErrorKind::NotFound, message@),
    {
        SourceError::new(SourceErrorKind::NotFound, message)
    }

    pub fn stale(message: String) -> (r: Self)
        ensures
            r.says(SourceErrorKind::StaleRevision, message@),
    {
        SourceError::new(SourceErrorKind::StaleRevision, message)
    }

    pub fn invalid(message: String) -> (r: Self)
        ensures
            r.says(SourceErrorKind::InvalidData, message@),
    {
        SourceError::new(SourceErrorKind::InvalidData, message)
    }
}

#[derive(Debug)]
pub struct SourceContent {
    pub bytes: Vec<u8>,
    pub observed_version: DocumentVersion,
    pub encoding_hint: Option<String>,
}

impl SourceContent {
    /// The text of the content.
    pub fn utf8(&self) -> (r: Result<String, SourceError>)
        ensures
            match r {
                Ok(text) => valid_utf8(self.bytes@) && text@ == decode_utf8(self.bytes@),
                Err(error) => !valid_utf8(self.bytes@) && error.says(
                    SourceErrorKind::InvalidData,
                    "source is not UTF-8: "@ + utf8_error_text(self.bytes@),
                ),
            },
    {
        match read_utf8(self.bytes.as_slice()) {
            Ok(text) => Ok(text),
            Err(message) => Err(
                SourceError::invalid(concat("source is not UTF-8: ", message.as_str())),
            ),
        }
    }
}

/// A query for everything selects every document.
pub proof fn a_query_for_all_selects_everything(query: DocumentQuery, document: DocumentDescriptor)
    requires
        query.asks_for_all(),
    ensures
        query.selects(document),
{
}

/// Documents that say the same are selected alike.
pub proof fn selection_depends_on_what_is_said(
    query: DocumentQuery,
    a: DocumentDescriptor,
    b: DocumentDescriptor,
)
    requires
        same_document(a, b),
    ensures
        query.selects(a) == query.selects(b),
{
}

/// A query passes over what it does not ask for: generated and vendored documents unless it
/// includes them, documents outside its paths, and documents that are known to be in another
/// language than its own.
pub proof fn a_query_passes_over_the_rest(query: DocumentQuery, document: DocumentDescriptor)
    ensures
        document.metadata.generated && !query.include_generated ==> !query.selects(document),
        document.metadata.vendor && !query.include_vendor ==> !query.selects(document),
        query.path_prefixes@.len() > 0 && (forall|i: int|
            0 <= i < query.path_prefixes@.len() ==> !(#[trigger] query.path_prefixes@[i])@.is_prefix_of(
                document.location.logical_path@,
            )) ==> !query.selects(document),
        query.language_ids@.len() > 0 && document.language_hint is Known && !views(
            query.language_ids@,
        ).contains(document.language_hint->Known_0@) ==> !query.selects(document),
{
}

/// A query selects a document that meets every one of its demands.
pub proof fn a_query_selects_what_meets_it(
    query: DocumentQuery,
    document: DocumentDescriptor,
    prefix: int,
)
    requires
        query.include_generated || !document.metadata.generated,
        query.include_vendor || !document.metadata.vendor,
        query.path_prefixes@.len() == 0 || (0 <= prefix < query.path_prefixes@.len()
            && query.path_prefixes@[prefix]@.is_prefix_of(document.location.logical_path@)),
        query.language_ids@.len() == 0 || !(document.language_hint is Known) || views(
            query.language_ids@,
        ).contains(document.language_hint->Known_0@),
    ensures
        query.selects(document),
{
}

/// Of two consistencies the weaker promises no more than either.
pub proof fn the_weaker_promises_no_more(
    a: SnapshotConsistency,
    b: SnapshotConsistency,
    r: SnapshotConsistency,
)
    requires
        call_ensures(SnapshotConsistency::weaker, (a, b), r),
    ensures
        r == a || r == b,
        r.strength() <= a.strength() && r.strength() <= b.strength(),
        SnapshotConsistency::BestEffort.strength() < SnapshotConsistency::Validated.strength(),
        SnapshotConsistency::Validated.strength() < SnapshotConsistency::Transactional.strength(),
        SnapshotConsistency::Transactional.strength() < SnapshotConsistency::Immutable.strength(),
{
}

} // verus!
