//! Documents of a directory tree: what the files found become, and when what was
//! read of one may be trusted.
use crate::path::{components, components_of, last_name, name_of};
use crate::source::document::{
    DocumentDescriptor, DocumentLocation, DocumentMetadata, DocumentVersion, LanguageHint,
    RevisionGuarantee, SourceContent, SourceError, SourceErrorKind, SourceKind, WorkspaceDescriptor,
};
use crate::source::ids::{DocumentId, RevisionToken, SourceRootId, WorkspaceId};
use crate::source::snapshot::{unknown_document, unknown_text};
use crate::text::{
    ascii_lowered, chars_of, concat, debug_literal, debug_quote, decimal, decimal_text, join,
    joined, last_index, last_position, lower_ascii, same, wide_decimal,
};
use crate::text_map::TextMap;
use vstd::prelude::*;
use vstd::string::*;

verus! {

/// A directory tree as a workspace.
#[derive(Debug)]
pub struct FilesystemWorkspace {
    pub root: String,
    pub exclude: Vec<String>,
    pub follow_symlinks: bool,
    pub descriptor: WorkspaceDescriptor,
}

/// How a directory tree becomes a workspace.
#[derive(Debug)]
pub struct FilesystemWorkspaceBuilder {
    pub root: String,
    pub exclude: Vec<String>,
    pub follow_symlinks: bool,
    pub workspace_id: Option<WorkspaceId>,
    pub display_name: Option<String>,
}

/// The workspace describes the tree at the root.
pub open spec fn describes_tree(
    descriptor: WorkspaceDescriptor,
    root: Seq<char>,
    id: Option<WorkspaceId>,
    name: Option<String>,
) -> bool {
    &&& descriptor.id@ == match id {
        Some(id) => id@,
        None => "fs:"@ + root,
    }
    &&& descriptor.display_name@ == match name {
        Some(name) => name@,
        None => root,
    }
    &&& descriptor.source_kind is FileSystem
    &&& descriptor.redacted_locator is Some
    &&& descriptor.redacted_locator->0@ == root
}

impl FilesystemWorkspace {
    pub fn new(root: &str) -> (r: Self)
        ensures
            r.root@ == root@,
            r.exclude@.len() == 0,
            !r.follow_symlinks,
            describes_tree(r.descriptor, root@, None, None),
    {
        FilesystemWorkspace::builder(root).build()
    }

    pub fn builder(root: &str) -> (r: FilesystemWorkspaceBuilder)
        ensures
            r.root@ == root@,
            r.exclude@.len() == 0,
            !r.follow_symlinks,
            r.workspace_id is None,
            r.display_name is None,
    {
        FilesystemWorkspaceBuilder {
            root: root.to_owned(),
            exclude: Vec::new(),
            follow_symlinks: false,
            workspace_id: None,
            display_name: None,
        }
    }

    pub fn with_excludes(self, exclude: Vec<String>) -> (r: Self)
        ensures
            r == (FilesystemWorkspace { exclude, ..self }),
    {
        FilesystemWorkspace {
            root: self.root,
            exclude,
            follow_symlinks: self.follow_symlinks,
            descriptor: self.descriptor,
        }
    }

    pub fn root(&self) -> (r: &str)
        ensures
            r@ == self.root@,
    {
        self.root.as_str()
    }
}

impl FilesystemWorkspaceBuilder {
    pub fn excludes(self, exclude: Vec<String>) -> (r: Self)
        ensures
            r == (FilesystemWorkspaceBuilder { exclude, ..self }),
    {
        FilesystemWorkspaceBuilder {
            root: self.root,
            exclude,
            follow_symlinks: self.follow_symlinks,
            workspace_id: self.workspace_id,
            display_name: self.display_name,
        }
    }

    pub fn follow_symlinks(self, follow: bool) -> (r: Self)
        ensures
            r == (FilesystemWorkspaceBuilder { follow_symlinks: follow, ..self }),
    {
        FilesystemWorkspaceBuilder {
            root: self.root,
            exclude: self.exclude,
            follow_symlinks: follow,
            workspace_id: self.workspace_id,
            display_name: self.display_name,
        }
    }

    pub fn workspace_id(self, id: WorkspaceId) -> (r: Self)
        ensures
            r == (FilesystemWorkspaceBuilder { workspace_id: Some(id), ..self }),
    {
        FilesystemWorkspaceBuilder {
            root: self.root,
            exclude: self.exclude,
            follow_symlinks: self.follow_symlinks,
            workspace_id: Some(id),
            display_name: self.display_name,
        }
    }

    pub fn display_name(self, display_name: String) -> (r: Self)
        ensures
            r == (FilesystemWorkspaceBuilder { display_name: Some(display_name), ..self }),
    {
        FilesystemWorkspaceBuilder {
            root: self.root,
            exclude: self.exclude,
            follow_symlinks: self.follow_symlinks,
            workspace_id: self.workspace_id,
            display_name: Some(display_name),
        }
    }

    pub fn build(self) -> (r: FilesystemWorkspace)
        ensures
            r.root == self.root,
            r.exclude == self.exclude,
            r.follow_symlinks == self.follow_symlinks,
            describes_tree(r.descriptor, self.root@, self.workspace_id, self.display_name),
    {
        let locator = self.root.clone();
        let id = match self.workspace_id {
            Some(id) => id,
            None => WorkspaceId::new(concat("fs:", locator.as_str()).as_str()),
        };
        let display_name = match self.display_name {
            Some(name) => name,
            None => locator.clone(),
        };
        FilesystemWorkspace {
            root: self.root,
            exclude: self.exclude,
            follow_symlinks: self.follow_symlinks,
            descriptor: WorkspaceDescriptor {
                id,
                display_name,
                source_kind: SourceKind::FileSystem,
                redacted_locator: Some(locator),
            },
        }
    }
}

/// What is known of a file that was found.
#[derive(Debug)]
pub struct FoundEntry {
    /// The path below the root.
    pub relative: String,
    /// The path as it is shown.
    pub display: String,
    /// When it was modified, where that is known: nanoseconds from the beginning of
    /// 1970, below zero for what was earlier.
    pub modified_ns: Option<i128>,
    pub size: u64,
}

/// The nanoseconds from the beginning of 1970 to a time: none to an earlier one.
pub open spec fn since_epoch(time: int) -> nat {
    if time > 0 {
        time as nat
    } else {
        0
    }
}

/// The nanoseconds from the beginning of 1970 to a time.
fn after_epoch(time: i128) -> (r: u128)
    ensures
        r == since_epoch(time as int),
{
    if time > 0 {
        time as u128
    } else {
        0
    }
}

/// The token of a file's revision.
pub open spec fn file_token(modified_ns: Option<i128>, size: u64) -> Seq<char> {
    decimal(
        match modified_ns {
            Some(ns) => since_epoch(ns as int),
            None => 0,
        },
    ) + ":"@ + decimal(size as nat)
}

/// The version is that of a file.
pub open spec fn is_file_version(
    version: DocumentVersion,
    modified_ns: Option<i128>,
    size: u64,
) -> bool {
    &&& version.token@ == file_token(modified_ns, size)
    &&& version.guarantee == RevisionGuarantee::MetadataHint
    &&& version.modified_at == modified_ns
    &&& version.size == Some(size)
    &&& version.content_hash is None
}

/// The version of a file, from when it was modified and how large it is. That hints
/// at the content and does not identify it.
pub fn version_from_metadata(modified_ns: Option<i128>, size: u64) -> (r: DocumentVersion)
    ensures
        is_file_version(r, modified_ns, size),
{
    let ns: u128 = match modified_ns {
        Some(ns) => after_epoch(ns),
        None => 0,
    };
    let mut token = concat(wide_decimal(ns).as_str(), ":");
    token.append(decimal_text(size).as_str());
    DocumentVersion {
        token: RevisionToken::new(token.as_str()),
        guarantee: RevisionGuarantee::MetadataHint,
        modified_at: modified_ns,
        size: Some(size),
        content_hash: None,
    }
}

/// The path of a document: the components with slashes between.
pub fn logical_path(relative: &str) -> (r: String)
    ensures
        r@ == joined(components(relative@), "/"@),
{
    join(&components_of(relative), "/")
}

/// The extension of a file name: what follows its last dot, unless that is its
/// first character.
pub open spec fn name_extension(name: Seq<char>) -> Option<Seq<char>> {
    let at = last_index(name, '.');
    if at > 0 {
        Some(name.skip(at + 1))
    } else {
        None
    }
}

/// The extension of the file at a path, in lower case.
pub open spec fn lower_extension(path: Seq<char>) -> Option<Seq<char>> {
    match last_name(components(path)) {
        Some(name) => match name_extension(name) {
            Some(extension) => Some(ascii_lowered(extension)),
            None => None,
        },
        None => None,
    }
}

/// The hint that a path gives at the language.
pub open spec fn hints_at(hint: LanguageHint, path: Seq<char>) -> bool {
    match hint {
        LanguageHint::FileExtension(extension) => lower_extension(path) == Some(extension@),
        LanguageHint::Unknown => lower_extension(path) is None,
        _ => false,
    }
}

/// The hint that a path gives at the language: its extension.
pub fn language_hint(path: &str) -> (r: LanguageHint)
    ensures
        hints_at(r, path@),
{
    match name_of(path) {
        None => LanguageHint::Unknown,
        Some(name) => {
            let all = chars_of(name.as_str());
            match last_position(&all, '.') {
                Some(at) => {
                    if at == 0 {
                        return LanguageHint::Unknown;
                    }
                    assert(at < all.len());
                    assert(all@.skip(at + 1) =~= all@.subrange(at + 1, all@.len() as int));
                    let extension = crate::text::text_between(&all, at + 1, all.len());
                    LanguageHint::FileExtension(lower_ascii(extension.as_str()))
                },
                None => LanguageHint::Unknown,
            }
        },
    }
}

/// The document is that of the file.
pub open spec fn is_file_document(document: DocumentDescriptor, entry: FoundEntry) -> bool {
    let path = joined(components(entry.relative@), "/"@);
    &&& document.id@ == path
    &&& document.location.root@ == "root"@
    &&& document.location.logical_path@ == path
    &&& document.location.display_uri == Some(entry.display)
    &&& is_file_version(document.version, entry.modified_ns, entry.size)
    &&& hints_at(document.language_hint, entry.relative@)
    &&& !document.metadata.generated
    &&& !document.metadata.vendor
    &&& !document.metadata.test
    &&& document.metadata.attributes.entries@.len() == 0
}

/// The id of a file's document.
pub open spec fn entry_id(entry: FoundEntry) -> Seq<char> {
    joined(components(entry.relative@), "/"@)
}

/// An earlier file has the same id.
pub open spec fn entry_repeats(entries: Seq<FoundEntry>, at: int) -> bool {
    exists|j: int| 0 <= j < at && entry_id(#[trigger] entries[j]) == entry_id(entries[at])
}

/// The documents are those of the files, by their ids.
pub open spec fn holds_entries(
    documents: Map<Seq<char>, DocumentDescriptor>,
    entries: Seq<FoundEntry>,
) -> bool {
    &&& forall|i: int|
        0 <= i < entries.len() ==> documents.contains_key(entry_id(#[trigger] entries[i]))
            && is_file_document(documents[entry_id(entries[i])], entries[i])
    &&& forall|id: Seq<char>|
        #[trigger] documents.contains_key(id) ==> exists|i: int|
            0 <= i < entries.len() && entry_id(#[trigger] entries[i]) == id
}

/// What is said of two files with the same id.
pub open spec fn duplicate_text(id: Seq<char>) -> Seq<char> {
    "filesystem snapshot produced duplicate document id "@ + id
}

fn document_of(entry: &FoundEntry) -> (r: DocumentDescriptor)
    ensures
        is_file_document(r, *entry),
{
    let path = logical_path(entry.relative.as_str());
    DocumentDescriptor {
        id: DocumentId::new(path.as_str()),
        location: DocumentLocation {
            root: SourceRootId::new("root"),
            logical_path: path,
            display_uri: Some(entry.display.clone()),
        },
        version: version_from_metadata(entry.modified_ns, entry.size),
        language_hint: language_hint(entry.relative.as_str()),
        metadata: DocumentMetadata::default(),
    }
}

/// The documents of the files that were found.
pub fn scan_documents(entries: &Vec<FoundEntry>) -> (r: Result<
    TextMap<DocumentDescriptor>,
    SourceError,
>)
    ensures
        match r {
            Ok(documents) => {
                &&& documents.wf()
                &&& holds_entries(documents@, entries@)
                &&& forall|i: int| 0 <= i < entries@.len() ==> !#[trigger] entry_repeats(entries@, i)
            },
            Err(error) => exists|i: int|
                {
                    &&& 0 <= i < entries@.len()
                    &&& #[trigger] entry_repeats(entries@, i)
                    &&& forall|j: int| 0 <= j < i ==> !#[trigger] entry_repeats(entries@, j)
                    &&& error.says(
                        SourceErrorKind::InvalidData,
                        duplicate_text(entry_id(entries@[i])),
                    )
                },
        },
{
    let mut documents: TextMap<DocumentDescriptor> = TextMap::new();
    let mut i: usize = 0;
    while i < entries.len()
        invariant
            i <= entries@.len(),
            documents.wf(),
            holds_entries(documents@, entries@.take(i as int)),
            forall|j: int| 0 <= j < i ==> !#[trigger] entry_repeats(entries@, j),
        decreases entries@.len() - i,
    {
        let ghost now = entries@.take(i as int);
        let ghost next = entries@.take(i + 1);
        let ghost before = documents@;
        let ghost id = entry_id(entries@[i as int]);
        let document = document_of(&entries[i]);
        let path = document.location.logical_path.clone();
        if documents.get(path.as_str()).is_some() {
            proof {
                assert(before.contains_key(id));
                let j = choose|j: int| 0 <= j < now.len() && entry_id(#[trigger] now[j]) == id;
                assert(entry_id(entries@[j]) == id);
                assert(entry_repeats(entries@, i as int));
            }
            return Err(
                SourceError::invalid(
                    concat("filesystem snapshot produced duplicate document id ", path.as_str()),
                ),
            );
        }
        assert(!entry_repeats(entries@, i as int)) by {
            if entry_repeats(entries@, i as int) {
                let j = choose|j: int|
                    0 <= j < i && entry_id(#[trigger] entries@[j]) == entry_id(entries@[i as int]);
                assert(entry_id(now[j]) == id);
            }
        }
        documents.insert(path, document);
        proof {
            assert forall|j: int| 0 <= j < next.len() implies documents@.contains_key(
                entry_id(#[trigger] next[j]),
            ) && is_file_document(documents@[entry_id(next[j])], next[j]) by {
                if j < i {
                    assert(next[j] == now[j]);
                    assert(before.contains_key(entry_id(now[j])));
                    assert(entry_id(now[j]) != id) by {
                        if entry_id(now[j]) == id {
                            assert(entry_id(entries@[j]) == id);
                            assert(entry_repeats(entries@, i as int));
                        }
                    }
                }
            }
            assert forall|key: Seq<char>| #[trigger] documents@.contains_key(key) implies exists|
                j: int,
            |
                0 <= j < next.len() && entry_id(#[trigger] next[j]) == key by {
                if key == id {
                    assert(entry_id(next[i as int]) == key);
                } else {
                    assert(before.contains_key(key));
                    let j = choose|j: int| 0 <= j < now.len() && entry_id(#[trigger] now[j]) == key;
                    assert(entry_id(next[j]) == key);
                }
            }
        }
        i += 1;
    }
    assert(entries@.take(i as int) =~= entries@);
    Ok(documents)
}

/// The sizes added up, no further than the largest number.
pub open spec fn total_size(documents: Seq<(String, DocumentDescriptor)>) -> nat
    decreases documents.len(),
{
    if documents.len() == 0 {
        0
    } else {
        let sum = total_size(documents.drop_last()) + match documents.last().1.version.size {
            Some(size) => size as nat,
            None => 0,
        };
        if sum > u64::MAX {
            u64::MAX as nat
        } else {
            sum
        }
    }
}

/// The latest time of modification, and no earlier than the beginning of 1970.
pub open spec fn latest_change(documents: Seq<(String, DocumentDescriptor)>) -> nat
    decreases documents.len(),
{
    if documents.len() == 0 {
        0
    } else {
        let before = latest_change(documents.drop_last());
        match documents.last().1.version.modified_at {
            Some(ns) => if since_epoch(ns as int) > before {
                since_epoch(ns as int)
            } else {
                before
            },
            None => before,
        }
    }
}

/// A short text that changes when documents come, go or are modified.
pub fn snapshot_fingerprint(documents: &TextMap<DocumentDescriptor>) -> (r: String)
    ensures
        r@ == decimal(documents.entries@.len()) + ":"@ + decimal(total_size(documents.entries@))
            + ":"@ + decimal(latest_change(documents.entries@)),
{
    let ghost all = documents.entries@;
    let mut bytes: u64 = 0;
    let mut latest: u128 = 0;
    let mut i: usize = 0;
    assert(all.take(0) =~= Seq::<(String, DocumentDescriptor)>::empty());
    while i < documents.entries.len()
        invariant
            i <= all.len(),
            all == documents.entries@,
            bytes == total_size(all.take(i as int)),
            latest == latest_change(all.take(i as int)),
        decreases all.len() - i,
    {
        assert(all.take(i + 1).drop_last() =~= all.take(i as int));
        let version = &documents.entries[i].1.version;
        let size: u64 = match version.size {
            Some(size) => size,
            None => 0,
        };
        bytes = bytes.saturating_add(size);
        if let Some(ns) = version.modified_at {
            let ns: u128 = after_epoch(ns);
            if ns > latest {
                latest = ns;
            }
        }
        i += 1;
    }
    assert(all.take(i as int) =~= all);
    let mut out = concat(decimal_text(documents.entries.len() as u64).as_str(), ":");
    out.append(decimal_text(bytes).as_str());
    out.append(":");
    out.append(wide_decimal(latest).as_str());
    out
}

/// What is said of a request for another revision than was enumerated.
pub open spec fn other_revision_text(
    id: Seq<char>,
    enumerated: Seq<char>,
    requested: Seq<char>,
) -> Seq<char> {
    "source document "@ + id + " was enumerated at revision "@ + enumerated + ", requested "@
        + requested
}

/// The document of a snapshot that a read asks for.
pub fn requested_document<'a>(
    documents: &'a TextMap<DocumentDescriptor>,
    document: &DocumentDescriptor,
) -> (r: Result<&'a DocumentDescriptor, SourceError>)
    requires
        documents.wf(),
    ensures
        match r {
            Ok(indexed) => {
                &&& documents@.contains_key(document.id@)
                &&& *indexed == documents@[document.id@]
                &&& indexed.version.token@ == document.version.token@
            },
            Err(error) => if documents@.contains_key(document.id@) {
                let token = documents@[document.id@].version.token@;
                token != document.version.token@ && error.says(
                    SourceErrorKind::StaleRevision,
                    other_revision_text(document.id@, token, document.version.token@),
                )
            } else {
                error.says(SourceErrorKind::NotFound, unknown_text(document.id@))
            },
        },
{
    match documents.get(document.id.as_str()) {
        None => Err(unknown_document(&document.id)),
        Some(indexed) => {
            if same(indexed.version.token.as_str(), document.version.token.as_str()) {
                return Ok(indexed);
            }
            let mut text = concat("source document ", document.id.as_str());
            text.append(" was enumerated at revision ");
            text.append(indexed.version.token.as_str());
            text.append(", requested ");
            text.append(document.version.token.as_str());
            Err(SourceError::stale(text))
        },
    }
}

/// Checks that a file is as it was when it was enumerated.
pub fn check_before_read(
    id: &DocumentId,
    indexed: &DocumentVersion,
    before: &DocumentVersion,
) -> (r: Result<(), SourceError>)
    ensures
        match r {
            Ok(()) => before.token@ == indexed.token@,
            Err(error) => before.token@ != indexed.token@ && error.says(
                SourceErrorKind::StaleRevision,
                "source document "@ + id@ + " changed after snapshot enumeration"@,
            ),
        },
{
    if same(before.token.as_str(), indexed.token.as_str()) {
        return Ok(());
    }
    let mut text = concat("source document ", id.as_str());
    text.append(" changed after snapshot enumeration");
    Err(SourceError::stale(text))
}

/// What was read of a file that was the same before and after.
pub fn finish_read(
    id: &DocumentId,
    before: &DocumentVersion,
    after: DocumentVersion,
    bytes: Vec<u8>,
) -> (r: Result<SourceContent, SourceError>)
    ensures
        match r {
            Ok(content) => {
                &&& before.token@ == after.token@
                &&& content == (SourceContent {
                    bytes,
                    observed_version: after,
                    encoding_hint: None,
                })
            },
            Err(error) => before.token@ != after.token@ && error.says(
                SourceErrorKind::StaleRevision,
                "source document "@ + id@ + " changed while it was being read"@,
            ),
        },
{
    if same(before.token.as_str(), after.token.as_str()) {
        return Ok(SourceContent { bytes, observed_version: after, encoding_hint: None });
    }
    let mut text = concat("source document ", id.as_str());
    text.append(" changed while it was being read");
    Err(SourceError::stale(text))
}

/// How an access failed.
#[derive(Debug, Clone, Copy, PartialEq, Eq, Structural)]
pub enum AccessFault {
    NotFound,
    PermissionDenied,
    WouldBlock,
    Interrupted,
    TimedOut,
    Other,
}

/// The kind of error that a failed access is.
pub open spec fn access_kind(fault: AccessFault) -> SourceErrorKind {
    match fault {
        AccessFault::NotFound => SourceErrorKind::NotFound,
        AccessFault::PermissionDenied => SourceErrorKind::PermissionDenied,
        AccessFault::WouldBlock | AccessFault::Interrupted | AccessFault::TimedOut =>
            SourceErrorKind::Unavailable,
        AccessFault::Other => SourceErrorKind::Other,
    }
}

/// The error for a failed access. What is only unavailable may be tried again.
pub fn io_error(path: &str, fault: AccessFault, detail: &str) -> (r: SourceError)
    ensures
        r.kind == access_kind(fault),
        r.message@ == "failed to access "@ + path@ + ": "@ + detail@,
        r.retryable == (access_kind(fault) == SourceErrorKind::Unavailable),
{
    let kind = match fault {
        AccessFault::NotFound => SourceErrorKind::NotFound,
        AccessFault::PermissionDenied => SourceErrorKind::PermissionDenied,
        AccessFault::WouldBlock | AccessFault::Interrupted | AccessFault::TimedOut =>
            SourceErrorKind::Unavailable,
        AccessFault::Other => SourceErrorKind::Other,
    };
    let mut text = concat("failed to access ", path);
    text.append(": ");
    text.append(detail);
    SourceError::new(kind, text).retryable(kind == SourceErrorKind::Unavailable)
}

/// The error for a pattern that excludes nothing because it cannot be read.
pub fn bad_exclude(pattern: &str, detail: &str) -> (r: SourceError)
    ensures
        r.says(
            SourceErrorKind::InvalidData,
            "bad exclude pattern "@ + debug_literal(pattern@) + ": "@ + detail@,
        ),
{
    let mut text = concat("bad exclude pattern ", debug_quote(pattern).as_str());
    text.append(": ");
    text.append(detail);
    SourceError::invalid(text)
}

/// The error for a walk that failed; it may be tried again.
pub fn walk_failed(detail: &str) -> (r: SourceError)
    ensures
        r.kind == SourceErrorKind::Unavailable,
        r.message@ == "filesystem walk failed: "@ + detail@,
        r.retryable,
{
    SourceError::new(
        SourceErrorKind::Unavailable,
        concat("filesystem walk failed: ", detail),
    ).retryable(true)
}

/// A file that changes its size has another revision, and so has one that is modified after
/// the beginning of 1970 at another time.
pub proof fn changed_files_have_other_revisions(
    time_a: Option<i128>,
    size_a: u64,
    time_b: Option<i128>,
    size_b: u64,
)
    requires
        file_token(time_a, size_a) == file_token(time_b, size_b),
    ensures
        size_a == size_b,
        time_a is Some && time_b is Some && time_a->0 >= 0 && time_b->0 >= 0 ==> time_a == time_b,
{
    reveal_strlit(":");
    let front_a = match time_a {
        Some(ns) => since_epoch(ns as int),
        None => 0,
    };
    let front_b = match time_b {
        Some(ns) => since_epoch(ns as int),
        None => 0,
    };
    assert(":"@ =~= seq![':']);
    no_colon_in_a_number(front_a);
    no_colon_in_a_number(front_b);
    crate::text::a_text_is_cut_in_one_way(
        file_token(time_a, size_a),
        ':',
        decimal(front_a),
        decimal(size_a as nat),
        decimal(front_b),
        decimal(size_b as nat),
    );
    crate::text::decimal_reads_back(front_a);
    crate::text::decimal_reads_back(front_b);
    crate::text::decimal_reads_back(size_a as nat);
    crate::text::decimal_reads_back(size_b as nat);
}

proof fn no_colon_in_a_number(n: nat)
    ensures
        !decimal(n).contains(':'),
{
    if decimal(n).contains(':') {
        let i = choose|i: int| 0 <= i < decimal(n).len() && decimal(n)[i] == ':';
        crate::text::decimals_are_digits(n, i);
    }
}

/// The extension of a name is what follows its last dot, unless the name begins with that
/// dot.
pub proof fn an_extension_follows_the_last_dot(stem: Seq<char>, extension: Seq<char>)
    requires
        !extension.contains('.'),
    ensures
        stem.len() > 0 ==> name_extension(stem + seq!['.'] + extension) == Some(extension),
        name_extension(seq!['.'] + extension) is None,
        name_extension(extension) is None,
{
    let name = stem + seq!['.'] + extension;
    crate::text::last_place(name, '.');
    let at = last_index(name, '.');
    assert(name[stem.len() as int] == '.');
    if at > stem.len() {
        assert(name[at] == extension[at - stem.len() - 1]);
    }
    assert(at == stem.len());
    assert(name.skip(at + 1) =~= extension);
    let hidden = seq!['.'] + extension;
    crate::text::last_place(hidden, '.');
    if last_index(hidden, '.') > 0 {
        assert(hidden[last_index(hidden, '.')] == extension[last_index(hidden, '.') - 1]);
    }
    crate::text::last_place(extension, '.');
}

/// The size of a tree is no less than that of any of its documents, and the change that it
/// is known by is the latest of any.
pub proof fn a_tree_is_known_by_its_latest_change(
    documents: Seq<(String, DocumentDescriptor)>,
    k: int,
)
    requires
        0 <= k < documents.len(),
    ensures
        documents[k].1.version.size matches Some(size) ==> size <= total_size(documents),
        total_size(documents) <= u64::MAX,
        documents[k].1.version.modified_at matches Some(time) ==> time <= latest_change(documents),
        latest_change(documents) > 0 ==> exists|i: int|
            0 <= i < documents.len() && (#[trigger] documents[i]).1.version.modified_at is Some
                && documents[i].1.version.modified_at->0 == latest_change(documents),
    decreases documents.len(),
{
    let front = documents.drop_last();
    if front.len() > 0 {
        a_tree_is_known_by_its_latest_change(
            front,
            if k < front.len() {
                k
            } else {
                0
            },
        );
    } else {
        assert(total_size(front) == 0 && latest_change(front) == 0);
    }
    if k < front.len() {
        assert(front[k] == documents[k]);
    }
    if latest_change(documents) > 0 {
        if latest_change(documents) == latest_change(front) {
            let i = choose|i: int|
                0 <= i < front.len() && (#[trigger] front[i]).1.version.modified_at is Some
                    && front[i].1.version.modified_at->0 == latest_change(front);
            assert(documents[i] == front[i]);
        } else {
            assert(documents[documents.len() - 1] == documents.last());
        }
    }
}

/// The sizes of a tree add up while they fit.
pub proof fn sizes_add_up(documents: Seq<(String, DocumentDescriptor)>, id: String, last: DocumentDescriptor)
    ensures
        last.version.size matches Some(size) ==> (total_size(documents) + size <= u64::MAX
            ==> total_size(documents.push((id, last))) == total_size(documents) + size),
        last.version.size is None && total_size(documents) <= u64::MAX ==> total_size(
            documents.push((id, last)),
        ) == total_size(documents),
{
    assert(documents.push((id, last)).drop_last() =~= documents);
}

/// A document of a tree is found where it was found: it has its path for an id and a
/// location, its size and its time, and the language that its extension hints at.
pub proof fn a_file_is_described_as_it_was_found(document: DocumentDescriptor, entry: FoundEntry)
    requires
        is_file_document(document, entry),
    ensures
        document.id@ == document.location.logical_path@,
        document.id@ == entry_id(entry),
        document.version.size == Some(entry.size),
        document.version.modified_at == entry.modified_ns,
        document.version.guarantee == RevisionGuarantee::MetadataHint,
        document.location.display_uri == Some(entry.display),
        document.language_hint matches LanguageHint::FileExtension(extension) ==> lower_extension(
            entry.relative@,
        ) == Some(extension@),
{
}

/// What may pass by waiting is worth another try, and nothing else is.
pub proof fn only_passing_faults_are_retried(
    path: &str,
    fault: AccessFault,
    detail: &str,
    r: SourceError,
)
    requires
        call_ensures(io_error, (path, fault, detail), r),
    ensures
        r.retryable <==> fault == AccessFault::WouldBlock || fault == AccessFault::Interrupted
            || fault == AccessFault::TimedOut,
        fault == AccessFault::NotFound ==> r.kind == SourceErrorKind::NotFound,
        fault == AccessFault::PermissionDenied ==> r.kind == SourceErrorKind::PermissionDenied,
{
}

/// A document is read only at the revision at which it was listed, and what was read counts
/// only where the file stayed at its revision.
pub proof fn only_the_listed_revision_is_read(
    id: DocumentId,
    indexed: DocumentVersion,
    before: DocumentVersion,
    after: DocumentVersion,
    bytes: Vec<u8>,
    checked: Result<(), SourceError>,
    r: Result<SourceContent, SourceError>,
)
    requires
        call_ensures(check_before_read, (&id, &indexed, &before), checked),
        call_ensures(finish_read, (&id, &before, after, bytes), r),
    ensures
        checked is Ok <==> before.token@ == indexed.token@,
        r is Ok <==> before.token@ == after.token@,
        checked is Err ==> checked->Err_0.kind == SourceErrorKind::StaleRevision,
        r is Err ==> r->Err_0.kind == SourceErrorKind::StaleRevision,
        checked is Ok && r is Ok ==> r->Ok_0.bytes == bytes
            && r->Ok_0.observed_version.token@ == indexed.token@,
{
}

/// A tree is known by the id and the name that it is given, else by its root, and its place
/// is its root.
pub proof fn a_tree_is_known_by_its_root(
    descriptor: WorkspaceDescriptor,
    root: Seq<char>,
    id: Option<WorkspaceId>,
    name: Option<String>,
)
    requires
        describes_tree(descriptor, root, id, name),
    ensures
        id matches Some(own) ==> descriptor.id@ == own@,
        id is None ==> root.is_suffix_of(descriptor.id@) && "fs:"@.is_prefix_of(descriptor.id@),
        name matches Some(own) ==> descriptor.display_name@ == own@,
        name is None ==> descriptor.display_name@ == root,
        descriptor.redacted_locator matches Some(locator) && locator@ == root,
{
    if id is None {
        let whole = descriptor.id@;
        assert(whole.subrange(whole.len() - root.len(), whole.len() as int) =~= root);
        assert(whole.subrange(0, "fs:"@.len() as int) =~= "fs:"@);
    }
}

/// A scan holds every file that was found under its own id, and nothing else.
pub proof fn a_scan_holds_what_was_found(
    documents: Map<Seq<char>, DocumentDescriptor>,
    entries: Seq<FoundEntry>,
    i: int,
    id: Seq<char>,
)
    requires
        holds_entries(documents, entries),
        0 <= i < entries.len(),
    ensures
        documents.contains_key(entry_id(entries[i])),
        documents[entry_id(entries[i])].version.size == Some(entries[i].size),
        documents[entry_id(entries[i])].id@ == entry_id(entries[i]),
        documents.contains_key(id) ==> exists|k: int|
            0 <= k < entries.len() && entry_id(#[trigger] entries[k]) == id,
{
}

} // verus!
