//! Where source documents come from and what every provider must keep to.
use crate::hashing::{sha256_hex, text_hash};
use crate::text::{
    chars_of, debug_literal, debug_quote, decimal, decimal_text, join, joined, signed_decimal,
    signed_text, last_index, last_position, list_holds, lowercase, lowercased, same, split,
    split_text, text_between, views,
};
use crate::text_map::TextMap;
use vstd::prelude::*;
use vstd::string::*;
use vstd::utf8::encode_utf8;

verus! {

/// Provider-defined revision metadata used for cheap change detection before
/// source content is read and hashed.
#[derive(Debug, PartialEq, Eq)]
pub struct SourceRevision {
    /// Opaque provider revision token. Equal tokens mean equal content only when
    /// the provider documents that guarantee; the indexer still hashes content
    /// after a revision change.
    pub opaque: String,
    pub modified_ns: Option<i64>,
    pub size: Option<u64>,
}

impl SourceRevision {
    pub fn new(opaque: &str) -> (r: Self)
        ensures
            r.opaque@ == opaque@,
            r.modified_ns is None,
            r.size is None,
    {
        Self { opaque: opaque.to_owned(), modified_ns: None, size: None }
    }

    /// Equality of two revisions.
    pub open spec fn same_as(&self, other: &Self) -> bool {
        self.opaque@ == other.opaque@ && self.modified_ns == other.modified_ns && self.size
            == other.size
    }

    /// Whether both are the same revision.
    pub fn is_same(&self, other: &Self) -> (r: bool)
        ensures
            r == self.same_as(other),
    {
        self.opaque == other.opaque && self.modified_ns == other.modified_ns && self.size
            == other.size
    }
}

impl Clone for SourceRevision {
    fn clone(&self) -> (r: Self)
        ensures
            r == *self,
    {
        Self { opaque: self.opaque.clone(), modified_ns: self.modified_ns, size: self.size }
    }
}

/// Metadata for one logical source document.
#[derive(Debug, PartialEq, Eq)]
pub struct SourceDocument {
    /// Stable provider-local identity. It need not equal the display path.
    pub id: String,
    /// Forward-slash logical path used for display, filtering, and language
    /// detection. Providers may change this while preserving `id`.
    pub relative_path: String,
    pub language_id: String,
    pub revision: SourceRevision,
}

impl Clone for SourceDocument {
    fn clone(&self) -> (r: Self)
        ensures
            r == *self,
    {
        Self {
            id: self.id.clone(),
            relative_path: self.relative_path.clone(),
            language_id: self.language_id.clone(),
            revision: self.revision.clone(),
        }
    }
}

/// Whether equality of provider revisions proves equality of source bytes.
#[derive(Debug, Clone, Copy, PartialEq, Eq, Structural)]
pub enum RevisionSemantics {
    Authoritative,
    Advisory,
}

/// Result of a stable read. Mutable providers can ask the runner to refresh the
/// manifest instead of turning an ordinary concurrent save into an error.
#[derive(Debug, PartialEq, Eq)]
pub enum StableRead {
    Content { source: String, revision: SourceRevision },
    Changed,
}

/// Why a provider's document list cannot be indexed.
#[derive(Debug, PartialEq, Eq)]
pub enum DocumentFault {
    EmptyId,
    EmptyPath,
    DuplicateId(String),
    DuplicatePath(String),
}

/// The document list is one that the indexer accepts: no id and no path is
/// empty or occurs twice.
pub open spec fn documents_valid(documents: Seq<SourceDocument>) -> bool {
    &&& forall|i: int|
        0 <= i < documents.len() ==> (#[trigger] documents[i]).id@.len() > 0
            && documents[i].relative_path@.len() > 0
    &&& forall|i: int, j: int|
        0 <= i < j < documents.len() ==> (#[trigger] documents[i]).id@ != (
        #[trigger] documents[j]).id@ && documents[i].relative_path@ != documents[j].relative_path@
}

/// `fault` is what the first faulty document `i` is reported for: an empty id
/// before an empty path, before a repeated id, before a repeated path.
pub open spec fn reported_fault(
    documents: Seq<SourceDocument>,
    i: int,
    fault: DocumentFault,
) -> bool {
    let repeated_id = exists|j: int|
        0 <= j < i && (#[trigger] documents[j]).id@ == documents[i].id@;
    match fault {
        DocumentFault::EmptyId => documents[i].id@.len() == 0,
        DocumentFault::EmptyPath => documents[i].id@.len() > 0
            && documents[i].relative_path@.len() == 0,
        DocumentFault::DuplicateId(id) => documents[i].id@.len() > 0
            && documents[i].relative_path@.len() > 0 && repeated_id && id@ == documents[i].id@,
        DocumentFault::DuplicatePath(path) => documents[i].id@.len() > 0 && !repeated_id && path@
            == documents[i].relative_path@ && path@.len() > 0 && exists|j: int|
            0 <= j < i && (#[trigger] documents[j]).relative_path@ == path@,
    }
}

/// Validates the minimum invariants the indexer relies on for every provider.
pub fn validate_documents(documents: &Vec<SourceDocument>) -> (r: Result<(), DocumentFault>)
    ensures
        match r {
            Ok(()) => documents_valid(documents@),
            Err(fault) => exists|i: int|
                0 <= i < documents@.len() && documents_valid(documents@.take(i))
                    && #[trigger] reported_fault(documents@, i, fault),
        },
        r is Ok <==> documents_valid(documents@),
{
    let mut i: usize = 0;
    while i < documents.len()
        invariant
            i <= documents@.len(),
            documents_valid(documents@.take(i as int)),
        decreases documents@.len() - i,
    {
        let document = &documents[i];
        let ghost prefix = documents@.take(i as int);
        assert forall|j: int| 0 <= j < i implies #[trigger] documents@[j] == prefix[j] by {}
        if document.id.as_str().is_empty() {
            assert(reported_fault(documents@, i as int, DocumentFault::EmptyId));
            return Err(DocumentFault::EmptyId);
        }
        if document.relative_path.as_str().is_empty() {
            assert(reported_fault(documents@, i as int, DocumentFault::EmptyPath));
            return Err(DocumentFault::EmptyPath);
        }
        let mut j: usize = 0;
        while j < i && !same(documents[j].id.as_str(), document.id.as_str())
            invariant
                j <= i < documents@.len(),
                *document == documents@[i as int],
                forall|k: int| 0 <= k < j ==> (#[trigger] documents@[k]).id@ != document.id@,
            decreases i - j,
        {
            j += 1;
        }
        if j < i {
            let fault = DocumentFault::DuplicateId(document.id.clone());
            assert(documents@[j as int].id@ == documents@[i as int].id@);
            assert(reported_fault(documents@, i as int, fault));
            return Err(fault);
        }
        let mut k: usize = 0;
        while k < i && !same(documents[k].relative_path.as_str(), document.relative_path.as_str())
            invariant
                k <= i < documents@.len(),
                *document == documents@[i as int],
                forall|m: int|
                    0 <= m < k ==> (#[trigger] documents@[m]).relative_path@
                        != document.relative_path@,
            decreases i - k,
        {
            k += 1;
        }
        if k < i {
            let fault = DocumentFault::DuplicatePath(document.relative_path.clone());
            assert(documents@[k as int].relative_path@ == documents@[i as int].relative_path@);
            assert(reported_fault(documents@, i as int, fault));
            return Err(fault);
        }
        i += 1;
    }
    assert(documents@.take(i as int) =~= documents@);
    Ok(())
}

/// Arbitrary source of source code. Implementations can read a filesystem,
/// database, object store, Git tree, archive, editor overlay, or generated
/// in-memory corpus.
pub trait SourceProvider {
    /// Opaque project locator persisted with the project for diagnostics and
    /// default source recovery. It is not required to be a path.
    fn project_locator(&self) -> String;

    /// Stable identity of this provider implementation/configuration. The
    /// locator is a conservative default; providers with behavior-affecting
    /// configuration should override it.
    fn provider_fingerprint(&self) -> (r: String)
        default_ensures
            call_ensures(Self::project_locator, (self,), r),
    {
        self.project_locator()
    }

    fn revision_semantics(&self) -> (r: RevisionSemantics)
        default_ensures
            r == RevisionSemantics::Advisory,
    {
        RevisionSemantics::Advisory
    }

    /// Enumerate the documents of the enabled languages in path order.
    fn documents(&self, enabled_languages: &Vec<String>) -> Result<Vec<SourceDocument>, String>;

    /// Read one enumerated document as UTF-8 source.
    fn read(&self, document: &SourceDocument) -> Result<String, String>;

    /// Read one observation. Providers that can change between enumeration and
    /// read should return `Changed` when they detect that race.
    fn stable_read(&self, document: &SourceDocument) -> (r: Result<StableRead, String>)
        default_ensures
            match r {
                Ok(StableRead::Content { source, revision }) => revision == document.revision
                    && call_ensures(
                    Self::read,
                    (self, document),
                    Ok::<String, String>(source),
                ),
                Ok(StableRead::Changed) => false,
                Err(message) => call_ensures(
                    Self::read,
                    (self, document),
                    Err::<String, String>(message),
                ),
            },
    {
        match self.read(document) {
            Ok(source) => Ok(StableRead::Content { source, revision: document.revision.clone() }),
            Err(message) => Err(message),
        }
    }
}

/// A labelled provider.
pub struct SourceProject<'a, P: SourceProvider + ?Sized> {
    pub label: String,
    pub provider: &'a P,
}

/// Which language a file extension stands for.
#[derive(Debug)]
pub struct LanguageExtension {
    pub extension: String,
    pub language_id: String,
}

/// The languages that a frontend knows, by file extension.
#[derive(Debug)]
pub struct LanguageRegistry {
    pub extensions: Vec<LanguageExtension>,
}

/// The language of the first entry for `extension`.
pub open spec fn language_for(
    entries: Seq<LanguageExtension>,
    extension: Seq<char>,
) -> Option<String>
    decreases entries.len(),
{
    if entries.len() == 0 {
        None
    } else if entries[0].extension@ == extension {
        Some(entries[0].language_id)
    } else {
        language_for(entries.drop_first(), extension)
    }
}

impl LanguageRegistry {
    /// The language that `extension` stands for.
    pub fn by_extension(&self, extension: &str) -> (r: Option<&String>)
        ensures
            match r {
                Some(id) => language_for(self.extensions@, extension@) == Some(*id),
                None => language_for(self.extensions@, extension@) is None,
            },
    {
        let mut i: usize = 0;
        assert(self.extensions@.skip(0) =~= self.extensions@);
        while i < self.extensions.len()
            invariant
                i <= self.extensions@.len(),
                language_for(self.extensions@, extension@) == language_for(
                    self.extensions@.skip(i as int),
                    extension@,
                ),
            decreases self.extensions@.len() - i,
        {
            if same(self.extensions[i].extension.as_str(), extension) {
                return Some(&self.extensions[i].language_id);
            }
            assert(self.extensions@.skip(i as int).drop_first() =~= self.extensions@.skip(i + 1));
            i += 1;
        }
        None
    }
}

/// The parts of `path` between slashes.
pub open spec fn path_parts(path: Seq<char>) -> Seq<Seq<char>> {
    split(path, '/')
}

/// The last part of a path that names something: empty parts and `.` name
/// nothing, and `..` is no file name.
pub open spec fn file_name_in(parts: Seq<Seq<char>>) -> Option<Seq<char>>
    decreases parts.len(),
{
    if parts.len() == 0 {
        None
    } else if parts.last().len() == 0 || parts.last() == "."@ {
        file_name_in(parts.drop_last())
    } else if parts.last() == ".."@ {
        None
    } else {
        Some(parts.last())
    }
}

/// What follows the last dot of a file name, where a dot stands after its first
/// character.
pub open spec fn extension_in(name: Seq<char>) -> Seq<char> {
    let at = last_index(name, '.');
    if at > 0 {
        name.skip(at + 1)
    } else {
        Seq::empty()
    }
}

/// The extension of the file that `path` names, empty where it has none.
pub open spec fn path_extension(path: Seq<char>) -> Seq<char> {
    match file_name_in(path_parts(path)) {
        Some(name) => extension_in(name),
        None => Seq::empty(),
    }
}

/// The extension of the file that `path` names, empty where it has none.
pub fn extension_of(path: &str) -> (r: String)
    ensures
        r@ == path_extension(path@),
{
    let parts = split_text(path, '/');
    let mut n: usize = parts.len();
    assert(views(parts@).take(n as int) =~= views(parts@));
    while n > 0
        invariant
            n <= parts@.len(),
            views(parts@) == path_parts(path@),
            file_name_in(path_parts(path@)) == file_name_in(views(parts@).take(n as int)),
        decreases n,
    {
        let part = parts[n - 1].as_str();
        assert(views(parts@).take(n as int).last() == part@);
        assert(views(parts@).take(n as int).drop_last() =~= views(parts@).take(n - 1));
        if part.is_empty() || same(part, ".") {
            n -= 1;
        } else if same(part, "..") {
            return String::new();
        } else {
            let name = chars_of(part);
            return match last_position(&name, '.') {
                Some(at) if at > 0 => text_between(&name, at + 1, name.len()),
                _ => String::new(),
            };
        }
    }
    String::new()
}

/// Small public provider useful for tests, generated sources, and editor
/// overlays. Replacing an entry changes its deterministic content revision.
#[derive(Debug)]
pub struct MemorySource {
    pub locator: String,
    pub languages: LanguageRegistry,
    /// The content of each document, by path.
    pub contents: TextMap<String>,
}

impl MemorySource {
    pub open spec fn wf(self) -> bool {
        self.contents.wf()
    }

    /// The language of the document at `path`, where it is known and enabled.
    pub open spec fn selects(self, path: Seq<char>, enabled: Seq<String>) -> bool {
        match language_for(self.languages.extensions@, lowercased(path_extension(path))) {
            Some(language) => views(enabled).contains(language@),
            None => false,
        }
    }

    /// `document` describes the entry.
    pub open spec fn describes(self, document: SourceDocument, entry: (String, String)) -> bool {
        &&& document.id@ == entry.0@
        &&& document.relative_path@ == entry.0@
        &&& Some(document.language_id) == language_for(
            self.languages.extensions@,
            lowercased(path_extension(entry.0@)),
        )
        &&& document.revision.opaque@ == text_hash(entry.1@)
        &&& document.revision.modified_ns is None
        &&& document.revision.size == Some(encode_utf8(entry.1@).len() as u64)
    }

    /// `documents` describes, in order, the first `n` entries that are selected.
    pub open spec fn lists(
        self,
        documents: Seq<SourceDocument>,
        enabled: Seq<String>,
        n: int,
    ) -> bool
        decreases n,
    {
        if n <= 0 {
            documents.len() == 0
        } else {
            let entry = self.contents.entries@[n - 1];
            if self.selects(entry.0@, enabled) {
                documents.len() > 0 && self.describes(documents.last(), entry) && self.lists(
                    documents.drop_last(),
                    enabled,
                    n - 1,
                )
            } else {
                self.lists(documents, enabled, n - 1)
            }
        }
    }

    pub fn new(locator: &str, languages: LanguageRegistry) -> (r: Self)
        ensures
            r.wf(),
            r.locator@ == locator@,
            r.languages == languages,
            r.contents@ == Map::<Seq<char>, String>::empty(),
    {
        Self { locator: locator.to_owned(), languages, contents: TextMap::new() }
    }

    pub fn insert(&mut self, path: &str, content: String)
        requires
            old(self).wf(),
        ensures
            final(self).wf(),
            final(self).contents@ == old(self).contents@.insert(path@, content),
            final(self).locator == old(self).locator,
            final(self).languages == old(self).languages,
    {
        let _previous = self.contents.insert(path.to_owned(), content);
    }

    pub fn remove(&mut self, path: &str) -> (r: Option<String>)
        requires
            old(self).wf(),
        ensures
            final(self).wf(),
            final(self).contents@ == old(self).contents@.remove(path@),
            final(self).locator == old(self).locator,
            final(self).languages == old(self).languages,
            match r {
                Some(content) => old(self).contents@.contains_key(path@)
                    && old(self).contents@[path@] == content,
                None => !old(self).contents@.contains_key(path@),
            },
    {
        self.contents.remove(path)
    }

    /// The content of a document: by its id, else by its path.
    pub open spec fn content_of(self, document: SourceDocument) -> Option<String> {
        if self.contents@.contains_key(document.id@) {
            Some(self.contents@[document.id@])
        } else if self.contents@.contains_key(document.relative_path@) {
            Some(self.contents@[document.relative_path@])
        } else {
            None
        }
    }

    /// Lists the documents of the enabled languages, in path order.
    pub fn list_documents(&self, enabled_languages: &Vec<String>) -> (r: Vec<SourceDocument>)
        ensures
            self.lists(r@, enabled_languages@, self.contents.entries@.len() as int),
    {
        let mut out: Vec<SourceDocument> = Vec::new();
        let mut i: usize = 0;
        while i < self.contents.entries.len()
            invariant
                i <= self.contents.entries@.len(),
                self.lists(out@, enabled_languages@, i as int),
            decreases self.contents.entries@.len() - i,
        {
            let path = &self.contents.entries[i].0;
            let content = &self.contents.entries[i].1;
            let extension = lowercase(extension_of(path.as_str()).as_str());
            let ghost before = out@;
            if let Some(language) = self.languages.by_extension(extension.as_str()) {
                if list_holds(enabled_languages, language.as_str()) {
                    let revision = SourceRevision {
                        opaque: sha256_hex(content.as_str()),
                        modified_ns: None,
                        size: Some(content.as_str().as_bytes().len() as u64),
                    };
                    out.push(
                        SourceDocument {
                            id: path.clone(),
                            relative_path: path.clone(),
                            language_id: language.clone(),
                            revision,
                        },
                    );
                    assert(out@.drop_last() =~= before);
                }
            }
            i += 1;
        }
        out
    }
}

impl SourceProvider for MemorySource {
    fn project_locator(&self) -> (r: String)
        ensures
            r@ == self.locator@,
    {
        self.locator.clone()
    }

    fn revision_semantics(&self) -> (r: RevisionSemantics)
        ensures
            r == RevisionSemantics::Authoritative,
    {
        RevisionSemantics::Authoritative
    }

    fn documents(&self, enabled_languages: &Vec<String>) -> (r: Result<
        Vec<SourceDocument>,
        String,
    >)
        ensures
            r matches Ok(documents) && self.lists(
                documents@,
                enabled_languages@,
                self.contents.entries@.len() as int,
            ),
    {
        Ok(self.list_documents(enabled_languages))
    }

    fn read(&self, document: &SourceDocument) -> (r: Result<String, String>)
        ensures
            self.wf() ==> match r {
                Ok(content) => self.content_of(*document) == Some(content),
                Err(message) => self.content_of(*document) is None && message@
                    == "memory source has no document "@ + debug_literal(document.id@),
            },
    {
        if let Some(content) = self.contents.find(document.id.as_str()) {
            return Ok(content.clone());
        }
        if let Some(content) = self.contents.find(document.relative_path.as_str()) {
            return Ok(content.clone());
        }
        let mut message = "memory source has no document ".to_owned();
        message.append(debug_quote(document.id.as_str()).as_str());
        Err(message)
    }
}

/// The revision of a file with the given time and size.
pub fn filesystem_revision(modified_ns: Option<i64>, size: u64) -> (r: SourceRevision)
    ensures
        r.opaque@ == signed_decimal(
            match modified_ns {
                Some(ns) => ns as int,
                None => 0,
            },
        ) + ":"@ + decimal(size as nat),
        r.modified_ns == modified_ns,
        r.size == Some(size),
{
    let mut opaque = signed_text(
        match modified_ns {
            Some(ns) => ns,
            None => 0,
        },
    );
    opaque.append(":");
    opaque.append(decimal_text(size).as_str());
    SourceRevision { opaque, modified_ns, size: Some(size) }
}

/// What a stable read of a file gives: its content, if the file was at the
/// listed revision both before and after it was read.
pub fn stable_outcome(
    listed: &SourceRevision,
    before: &SourceRevision,
    after: SourceRevision,
    source: String,
) -> (r: StableRead)
    ensures
        r == if before.same_as(listed) && before.same_as(&after) {
            StableRead::Content { source, revision: after }
        } else {
            StableRead::Changed
        },
{
    if !before.is_same(listed) || !before.is_same(&after) {
        StableRead::Changed
    } else {
        StableRead::Content { source, revision: after }
    }
}

/// A directory whose files are documents.
#[derive(Debug)]
pub struct FileSystemSource {
    pub root: String,
    pub exclude: Vec<String>,
}

impl FileSystemSource {
    pub fn new(root: &str) -> (r: Self)
        ensures
            r.root@ == root@,
            r.exclude@.len() == 0,
    {
        Self { root: root.to_owned(), exclude: Vec::new() }
    }

    pub fn with_excludes(self, exclude: Vec<String>) -> (r: Self)
        ensures
            r.root == self.root,
            r.exclude == exclude,
    {
        Self { root: self.root, exclude }
    }

    pub fn root(&self) -> (r: &str)
        ensures
            r@ == self.root@,
    {
        self.root.as_str()
    }

    /// What identifies the source: the root and the patterns it leaves out.
    pub fn fingerprint(&self) -> (r: String)
        ensures
            r@ == self.root@ + seq!['\0'] + joined(views(self.exclude@), "\0"@),
    {
        let mut out = self.root.clone();
        out.push('\0');
        out.append(join(&self.exclude, "\0").as_str());
        assert(out@ =~= self.root@ + seq!['\0'] + joined(views(self.exclude@), "\0"@));
        out
    }
}

/// Provider lookup used to recover representation text under report/minimal
/// retention during a later embedding run.
pub struct SourceProviderCatalog<'a, P: SourceProvider + ?Sized> {
    pub providers: TextMap<&'a P>,
}

/// The first document with the id, else nothing.
pub open spec fn first_with_id(documents: Seq<SourceDocument>, id: Seq<char>) -> Option<
    SourceDocument,
>
    decreases documents.len(),
{
    if documents.len() == 0 {
        None
    } else if documents[0].id@ == id {
        Some(documents[0])
    } else {
        first_with_id(documents.drop_first(), id)
    }
}

/// The first document with the path, else nothing.
pub open spec fn first_with_path(documents: Seq<SourceDocument>, path: Seq<char>) -> Option<
    SourceDocument,
>
    decreases documents.len(),
{
    if documents.len() == 0 {
        None
    } else if documents[0].relative_path@ == path {
        Some(documents[0])
    } else {
        first_with_path(documents.drop_first(), path)
    }
}

/// Finds a document by its id.
pub fn find_by_id<'a>(documents: &'a Vec<SourceDocument>, id: &str) -> (r: Option<
    &'a SourceDocument,
>)
    ensures
        match r {
            Some(found) => first_with_id(documents@, id@) == Some(*found),
            None => first_with_id(documents@, id@) is None,
        },
{
    let mut i: usize = 0;
    assert(documents@.skip(0) =~= documents@);
    while i < documents.len()
        invariant
            i <= documents@.len(),
            first_with_id(documents@, id@) == first_with_id(documents@.skip(i as int), id@),
        decreases documents@.len() - i,
    {
        if same(documents[i].id.as_str(), id) {
            return Some(&documents[i]);
        }
        assert(documents@.skip(i as int).drop_first() =~= documents@.skip(i + 1));
        i += 1;
    }
    None
}

/// Finds a document by its path.
pub fn find_by_path<'a>(documents: &'a Vec<SourceDocument>, path: &str) -> (r: Option<
    &'a SourceDocument,
>)
    ensures
        match r {
            Some(found) => first_with_path(documents@, path@) == Some(*found),
            None => first_with_path(documents@, path@) is None,
        },
{
    let mut i: usize = 0;
    assert(documents@.skip(0) =~= documents@);
    while i < documents.len()
        invariant
            i <= documents@.len(),
            first_with_path(documents@, path@) == first_with_path(
                documents@.skip(i as int),
                path@,
            ),
        decreases documents@.len() - i,
    {
        if same(documents[i].relative_path.as_str(), path) {
            return Some(&documents[i]);
        }
        assert(documents@.skip(i as int).drop_first() =~= documents@.skip(i + 1));
        i += 1;
    }
    None
}

fn read_found<P: SourceProvider + ?Sized>(provider: &P, document: &SourceDocument) -> (r: Result<
    Option<String>,
    String,
>)
    ensures
        reads_as(provider, *document, r),
{
    let given = provider.read(document);
    assert(call_ensures(P::read, (provider, document), given));
    match given {
        Ok(content) => Ok(Some(content)),
        Err(message) => Err(message),
    }
}

/// What reading a document comes to: what the provider gives for its content.
pub open spec fn reads_as<P: SourceProvider + ?Sized>(
    provider: &P,
    document: SourceDocument,
    r: Result<Option<String>, String>,
) -> bool {
    exists|given: Result<String, String>| #[trigger]
        call_ensures(P::read, (provider, &document), given) && r == match given {
            Ok(content) => Ok::<Option<String>, String>(Some(content)),
            Err(message) => Err(message),
        }
}

/// What reading the document with a path comes to, out of a listing of its own;
/// nothing where the provider cannot list or has no such document.
pub open spec fn reads_by_path<P: SourceProvider + ?Sized>(
    provider: &P,
    enabled: Vec<String>,
    path: Seq<char>,
    r: Result<Option<String>, String>,
) -> bool {
    exists|listed: Result<Vec<SourceDocument>, String>| #[trigger]
        call_ensures(P::documents, (provider, &enabled), listed) && match listed {
            Err(_) => r == Ok::<Option<String>, String>(None),
            Ok(documents) => match first_with_path(documents@, path) {
                None => r == Ok::<Option<String>, String>(None),
                Some(document) => reads_as(provider, document, r),
            },
        }
}

/// What reading a document of one language comes to: the document with the id, else
/// the one with the path.
pub open spec fn provider_reads<P: SourceProvider + ?Sized>(
    provider: &P,
    id: Seq<char>,
    path: Seq<char>,
    language: Seq<char>,
    r: Result<Option<String>, String>,
) -> bool {
    exists|enabled: Vec<String>, listed: Result<Vec<SourceDocument>, String>|
        {
            &&& views(enabled@) == seq![language]
            &&& #[trigger] call_ensures(P::documents, (provider, &enabled), listed)
            &&& match listed {
                Err(message) => r == Err::<Option<String>, String>(message),
                Ok(documents) => match first_with_id(documents@, id) {
                    Some(document) => reads_as(provider, document, r),
                    None => reads_by_path(provider, enabled, path, r),
                },
            }
        }
}

impl<'a, P: SourceProvider + ?Sized> SourceProviderCatalog<'a, P> {
    pub open spec fn wf(self) -> bool {
        self.providers.wf()
    }

    pub fn new() -> (r: Self)
        ensures
            r.wf(),
            r.providers@ == Map::<Seq<char>, &'a P>::empty(),
    {
        Self { providers: TextMap::new() }
    }

    /// Puts a provider under a label and returns the one that stood there.
    pub fn insert(&mut self, project_label: &str, provider: &'a P) -> (r: Option<
        &'a P,
    >)
        requires
            old(self).wf(),
        ensures
            final(self).wf(),
            final(self).providers@ == old(self).providers@.insert(project_label@, provider),
            match r {
                Some(previous) => old(self).providers@.contains_key(project_label@)
                    && old(self).providers@[project_label@] == previous,
                None => !old(self).providers@.contains_key(project_label@),
            },
    {
        self.providers.insert(project_label.to_owned(), provider)
    }

    pub fn provider(&self, project_label: &str) -> (r: Option<&'a P>)
        requires
            self.wf(),
        ensures
            match r {
                Some(provider) => self.providers@.contains_key(project_label@)
                    && self.providers@[project_label@] == provider,
                None => !self.providers@.contains_key(project_label@),
            },
    {
        match self.providers.get(project_label) {
            Some(provider) => Some(*provider),
            None => None,
        }
    }

    /// Reads a document through the provider of its project: the document with
    /// the id, else, from a second listing, the one with the path. Nothing comes
    /// back for a label without a provider.
    pub fn read(
        &self,
        project_label: &str,
        document_id: &str,
        relative_path: &str,
        language_id: &str,
    ) -> (r: Result<Option<String>, String>)
        requires
            self.wf(),
        ensures
            if self.providers@.contains_key(project_label@) {
                provider_reads(
                    self.providers@[project_label@],
                    document_id@,
                    relative_path@,
                    language_id@,
                    r,
                )
            } else {
                r == Ok::<Option<String>, String>(None)
            },
    {
        match self.provider(project_label) {
            None => Ok(None),
            Some(provider) => {
                let enabled: Vec<String> = vec![language_id.to_owned()];
                assert(views(enabled@) =~= seq![language_id@]);
                let listed = provider.documents(&enabled);
                assert(call_ensures(P::documents, (provider, &enabled), listed));
                let first = match listed {
                    Ok(documents) => documents,
                    Err(message) => {
                        return Err(message);
                    },
                };
                if let Some(document) = find_by_id(&first, document_id) {
                    return read_found(provider, document);
                }
                let listed = provider.documents(&enabled);
                assert(call_ensures(P::documents, (provider, &enabled), listed));
                let r = match &listed {
                    Err(_) => Ok(None),
                    Ok(second) => match find_by_path(second, relative_path) {
                        None => Ok(None),
                        Some(document) => read_found(provider, document),
                    },
                };
                assert(reads_by_path(provider, enabled, relative_path@, r));
                r
            },
        }
    }
}

/// The first entry for an extension names its language.
pub proof fn the_first_language_of_an_extension_counts(
    entries: Seq<LanguageExtension>,
    extension: Seq<char>,
    i: int,
)
    requires
        0 <= i < entries.len(),
        entries[i].extension@ == extension,
        forall|j: int| 0 <= j < i ==> (#[trigger] entries[j]).extension@ != extension,
    ensures
        language_for(entries, extension) == Some(entries[i].language_id),
    decreases i,
{
    if i > 0 {
        let rest = entries.drop_first();
        assert(rest[i - 1] == entries[i]);
        assert forall|j: int| 0 <= j < i - 1 implies (#[trigger] rest[j]).extension@
            != extension by {
            assert(rest[j] == entries[j + 1]);
        }
        assert(entries[0].extension@ != extension);
        the_first_language_of_an_extension_counts(rest, extension, i - 1);
    }
}

/// A language is named only where an entry has the extension.
pub proof fn only_known_extensions_have_a_language(
    entries: Seq<LanguageExtension>,
    extension: Seq<char>,
)
    requires
        forall|j: int| 0 <= j < entries.len() ==> (#[trigger] entries[j]).extension@ != extension,
    ensures
        language_for(entries, extension) is None,
    decreases entries.len(),
{
    if entries.len() > 0 {
        let rest = entries.drop_first();
        assert forall|j: int| 0 <= j < rest.len() implies (#[trigger] rest[j]).extension@
            != extension by {
            assert(rest[j] == entries[j + 1]);
        }
        only_known_extensions_have_a_language(rest, extension);
    }
}

/// The extension of a name is what follows its last dot, unless the name begins with that
/// dot; a name without a dot has none.
pub proof fn an_extension_follows_the_last_dot(stem: Seq<char>, extension: Seq<char>)
    requires
        !extension.contains('.'),
    ensures
        stem.len() > 0 ==> extension_in(stem + seq!['.'] + extension) == extension,
        extension_in(seq!['.'] + extension).len() == 0,
        extension_in(extension).len() == 0,
{
    let name = stem + seq!['.'] + extension;
    crate::text::last_place(name, '.');
    let at = last_index(name, '.');
    assert(name[stem.len() as int] == '.');
    if at > stem.len() {
        assert(name[at] == extension[at - stem.len() - 1]);
    }
    assert(at == stem.len());
    assert(name.skip(at + 1) =~= extension);
    let hidden = seq!['.'] + extension;
    crate::text::last_place(hidden, '.');
    if last_index(hidden, '.') > 0 {
        assert(hidden[last_index(hidden, '.')] == extension[last_index(hidden, '.') - 1]);
    }
    crate::text::last_place(extension, '.');
}

/// The file of a path is its last part that is not empty and not a dot, and a path that ends
/// above itself has none.
pub proof fn a_path_ends_with_its_file(parts: Seq<Seq<char>>, name: Seq<char>)
    ensures
        name.len() > 0 && name != "."@ && name != ".."@ ==> file_name_in(parts.push(name)) == Some(
            name,
        ),
        name.len() == 0 || name == "."@ ==> file_name_in(parts.push(name)) == file_name_in(parts),
        name == ".."@ ==> file_name_in(parts.push(name)) is None,
{
    reveal_strlit(".");
    reveal_strlit("..");
    assert(".."@.len() == 2 && "."@.len() == 1);
    assert(parts.push(name).drop_last() =~= parts);
}

/// A document is found by its id, and the first of that id is.
pub proof fn a_document_is_found_by_its_id(documents: Seq<SourceDocument>, id: Seq<char>)
    ensures
        match first_with_id(documents, id) {
            Some(document) => document.id@ == id && exists|i: int|
                {
                    &&& 0 <= i < documents.len()
                    &&& #[trigger] documents[i] == document
                    &&& forall|j: int| 0 <= j < i ==> (#[trigger] documents[j]).id@ != id
                },
            None => forall|i: int| 0 <= i < documents.len() ==> (#[trigger] documents[i]).id@ != id,
        },
    decreases documents.len(),
{
    if documents.len() > 0 && documents[0].id@ != id {
        let rest = documents.drop_first();
        a_document_is_found_by_its_id(rest, id);
        assert forall|j: int| 1 <= j < documents.len() implies #[trigger] documents[j] == rest[j
            - 1] by {}
        if first_with_id(documents, id) is Some {
            let i = choose|i: int|
                {
                    &&& 0 <= i < rest.len()
                    &&& #[trigger] rest[i] == first_with_id(rest, id)->0
                    &&& forall|j: int| 0 <= j < i ==> (#[trigger] rest[j]).id@ != id
                };
            assert(documents[i + 1] == rest[i]);
        }
    } else if documents.len() > 0 {
        assert(documents[0].id@ == id);
    }
}

/// A document is found by its path, and the first at that path is.
pub proof fn a_document_is_found_by_its_path(documents: Seq<SourceDocument>, path: Seq<char>)
    ensures
        match first_with_path(documents, path) {
            Some(document) => document.relative_path@ == path && exists|i: int|
                {
                    &&& 0 <= i < documents.len()
                    &&& #[trigger] documents[i] == document
                    &&& forall|j: int| 0 <= j < i ==> (#[trigger] documents[j]).relative_path@ != path
                },
            None => forall|i: int|
                0 <= i < documents.len() ==> (#[trigger] documents[i]).relative_path@ != path,
        },
    decreases documents.len(),
{
    if documents.len() > 0 && documents[0].relative_path@ != path {
        let rest = documents.drop_first();
        a_document_is_found_by_its_path(rest, path);
        assert forall|j: int| 1 <= j < documents.len() implies #[trigger] documents[j] == rest[j
            - 1] by {}
        if first_with_path(documents, path) is Some {
            let i = choose|i: int|
                {
                    &&& 0 <= i < rest.len()
                    &&& #[trigger] rest[i] == first_with_path(rest, path)->0
                    &&& forall|j: int| 0 <= j < i ==> (#[trigger] rest[j]).relative_path@ != path
                };
            assert(documents[i + 1] == rest[i]);
        }
    } else if documents.len() > 0 {
        assert(documents[0].relative_path@ == path);
    }
}

/// A content of an enabled language is listed, under its path and with the hash of its text
/// as its revision; nothing else is listed.
pub proof fn enabled_contents_are_listed(
    source: MemorySource,
    documents: Seq<SourceDocument>,
    enabled: Seq<String>,
    n: int,
    k: int,
)
    requires
        0 <= k < n <= source.contents.entries@.len(),
        source.lists(documents, enabled, n),
    ensures
        ({
            let entry = source.contents.entries@[k];
            let language = language_for(
                source.languages.extensions@,
                lowercased(path_extension(entry.0@)),
            );
            (language is Some && views(enabled).contains(language->0@)) ==> exists|i: int|
                {
                    &&& 0 <= i < documents.len()
                    &&& (#[trigger] documents[i]).id@ == entry.0@
                    &&& documents[i].relative_path@ == entry.0@
                    &&& documents[i].language_id == language->0
                    &&& documents[i].revision.opaque@ == text_hash(entry.1@)
                }
        }),
        documents.len() <= n,
        forall|i: int|
            0 <= i < documents.len() ==> views(enabled).contains(
                (#[trigger] documents[i]).language_id@,
            ) && exists|j: int|
                0 <= j < n && (#[trigger] source.contents.entries@[j]).0@ == documents[i].id@,
    decreases n,
{
    let entry = source.contents.entries@[n - 1];
    let rest = if source.selects(entry.0@, enabled) {
        documents.drop_last()
    } else {
        documents
    };
    if n > 1 {
        enabled_contents_are_listed(
            source,
            rest,
            enabled,
            n - 1,
            if k < n - 1 {
                k
            } else {
                0
            },
        );
    } else {
        assert(source.lists(rest, enabled, 0));
        assert(rest.len() == 0);
    }
    let own = source.contents.entries@[k];
    let language = language_for(source.languages.extensions@, lowercased(path_extension(own.0@)));
    if language is Some && views(enabled).contains(language->0@) {
        if k < n - 1 {
            let i = choose|i: int|
                {
                    &&& 0 <= i < rest.len()
                    &&& (#[trigger] rest[i]).id@ == own.0@
                    &&& rest[i].relative_path@ == own.0@
                    &&& rest[i].language_id == language->0
                    &&& rest[i].revision.opaque@ == text_hash(own.1@)
                };
            assert(documents[i] == rest[i]);
        } else {
            assert(documents[documents.len() - 1] == documents.last());
        }
    }
    assert forall|i: int| 0 <= i < documents.len() implies views(enabled).contains(
        (#[trigger] documents[i]).language_id@,
    ) && exists|j: int|
        0 <= j < n && (#[trigger] source.contents.entries@[j]).0@ == documents[i].id@ by {
        if i < rest.len() {
            assert(documents[i] == rest[i]);
            let j = choose|j: int|
                0 <= j < n - 1 && (#[trigger] source.contents.entries@[j]).0@ == rest[i].id@;
            assert(source.contents.entries@[j].0@ == documents[i].id@);
        } else {
            assert(source.contents.entries@[n - 1] == entry);
        }
    }
}

/// A document's content is what is kept under its id; its path is tried only where nothing
/// is.
pub proof fn an_id_is_preferred_to_a_path(source: MemorySource, document: SourceDocument)
    ensures
        source.contents@.contains_key(document.id@) ==> source.content_of(document) == Some(
            source.contents@[document.id@],
        ),
        !source.contents@.contains_key(document.id@) ==> source.content_of(document) == (
        if source.contents@.contains_key(document.relative_path@) {
            Some(source.contents@[document.relative_path@])
        } else {
            None
        }),
{
}

/// What was read counts as content only where the revision did not move: the one that is
/// listed, the one before the read and the one after it are the same.
pub proof fn a_moving_source_is_not_content(
    listed: SourceRevision,
    before: SourceRevision,
    after: SourceRevision,
    source: String,
    r: StableRead,
)
    requires
        call_ensures(stable_outcome, (&listed, &before, after, source), r),
    ensures
        r is Content <==> before.same_as(&listed) && before.same_as(&after),
        r is Content ==> r->Content_source == source && r->Content_revision == after,
{
}

/// Revisions are the same only where the token, the time and the size all are.
pub proof fn revisions_differ_in_any_part(a: SourceRevision, b: SourceRevision)
    ensures
        a.same_as(&b) <==> a.opaque@ == b.opaque@ && a.modified_ns == b.modified_ns && a.size
            == b.size,
        a.same_as(&b) ==> b.same_as(&a),
{
}

/// What is read from a provider is a document that it lists, under the id that is asked for
/// or, where no document has that id, under the path.
pub proof fn only_the_document_asked_for_is_read<P: SourceProvider + ?Sized>(
    provider: &P,
    id: Seq<char>,
    path: Seq<char>,
    language: Seq<char>,
    content: String,
)
    requires
        provider_reads(
            provider,
            id,
            path,
            language,
            Ok::<Option<String>, String>(Some(content)),
        ),
    ensures
        exists|document: SourceDocument|
            {
                &&& document.id@ == id || document.relative_path@ == path
                &&& #[trigger] call_ensures(
                    P::read,
                    (provider, &document),
                    Ok::<String, String>(content),
                )
            },
{
    let r = Ok::<Option<String>, String>(Some(content));
    let (enabled, listed) = choose|enabled: Vec<String>, listed: Result<Vec<SourceDocument>, String>|
        {
            &&& views(enabled@) == seq![language]
            &&& #[trigger] call_ensures(P::documents, (provider, &enabled), listed)
            &&& match listed {
                Err(message) => r == Err::<Option<String>, String>(message),
                Ok(documents) => match first_with_id(documents@, id) {
                    Some(document) => reads_as(provider, document, r),
                    None => reads_by_path(provider, enabled, path, r),
                },
            }
        };
    let documents = listed->Ok_0@;
    a_document_is_found_by_its_id(documents, id);
    let document = if first_with_id(documents, id) is Some {
        first_with_id(documents, id)->0
    } else {
        let again = choose|again: Result<Vec<SourceDocument>, String>| #[trigger]
            call_ensures(P::documents, (provider, &enabled), again) && match again {
                Err(_) => r == Ok::<Option<String>, String>(None),
                Ok(documents) => match first_with_path(documents@, path) {
                    None => r == Ok::<Option<String>, String>(None),
                    Some(document) => reads_as(provider, document, r),
                },
            };
        a_document_is_found_by_its_path(again->Ok_0@, path);
        first_with_path(again->Ok_0@, path)->0
    };
    assert(reads_as(provider, document, r));
    let given = choose|given: Result<String, String>| #[trigger]
        call_ensures(P::read, (provider, &document), given) && r == match given {
            Ok(content) => Ok::<Option<String>, String>(Some(content)),
            Err(message) => Err(message),
        };
    assert(given == Ok::<String, String>(content));
}

/// A tree is known by its root and by everything that is left out of it.
pub proof fn a_tree_is_known_by_what_is_left_out(source: FileSystemSource, r: String, i: int)
    requires
        call_ensures(FileSystemSource::fingerprint, (&source,), r),
    ensures
        source.root@.is_prefix_of(r@),
        0 <= i < source.exclude@.len() ==> crate::text::has(r@, source.exclude@[i]@),
{
    assert(r@.subrange(0, source.root@.len() as int) =~= source.root@);
    if 0 <= i < source.exclude@.len() {
        let parts = views(source.exclude@);
        let inner = joined(parts, "\0"@);
        let front = source.root@ + seq!['\0'];
        crate::text::every_part_is_in_a_joined_text(parts, "\0"@, i);
        crate::text::a_text_is_in_what_surrounds_it(front, inner, Seq::empty());
        assert(front + inner + Seq::<char>::empty() =~= r@);
        crate::text::parts_of_parts_are_parts(r@, inner, parts[i]);
    }
}

} // verus!
