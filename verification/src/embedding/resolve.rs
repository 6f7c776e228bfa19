//! Generic model resolution: a model reference (`hf:org/name[@rev]`,
//! `dir:/path`, `fastembed:Name`) becomes a model contract through the model's
//! own machine-readable configuration. Downloads are verified
//! trust-on-first-use through a lockfile recording per-file hashes.
use crate::embedding::contract::{ModelContract, Pooling, PromptContract};
use crate::hashing::{hex, hex_text, sha256, sha256_digest};
use crate::json::{json_document, parse_json, Json};
use crate::text::{
    alphanumeric, chars_of, concat, cut_once, decimal, decimal_text, ends_with, first_position,
    is_alphanumeric, join_path, opt_view, path_joined, same, split, split_once, split_text,
    starts_with, strip_prefix, strip_suffix, trim, trimmed, views,
};
use crate::text_map::TextMap;
use vstd::bytes::{spec_u64_from_le_bytes, u64_from_le_bytes};
use vstd::prelude::*;
use vstd::slice::slice_subrange;
use vstd::string::*;

verus! {

/// A parsed model reference.
#[derive(Debug, PartialEq, Eq)]
pub enum ModelRef {
    /// `hf:owner/name[@revision]`, or a bare `owner/name` convenience form.
    HuggingFace { repo: String, revision: Option<String> },
    /// `dir:/path/to/model`: a local directory laid out like a repository.
    Directory(String),
    /// `fastembed:Name` or a bare catalog / managed model name.
    Named(String),
}

/// What a model reference says.
pub enum RefView {
    HuggingFace { repo: Seq<char>, revision: Option<Seq<char>> },
    Directory(Seq<char>),
    Named(Seq<char>),
}

impl View for ModelRef {
    type V = RefView;

    open spec fn view(&self) -> RefView {
        match self {
            ModelRef::HuggingFace { repo, revision } => RefView::HuggingFace {
                repo: repo@,
                revision: opt_view(*revision),
            },
            ModelRef::Directory(dir) => RefView::Directory(dir@),
            ModelRef::Named(name) => RefView::Named(name@),
        }
    }
}

/// `owner/name`: exactly one slash, and not at an end.
pub open spec fn is_repo(repo: Seq<char>) -> bool {
    &&& split(repo, '/').len() == 2
    &&& !"/"@.is_prefix_of(repo)
    &&& !"/"@.is_suffix_of(repo)
}

/// The reference that `owner/name[@revision]` spells.
pub open spec fn repo_reference(rest: Seq<char>) -> Option<RefView> {
    let (repo, revision) = match cut_once(rest, '@') {
        Some((repo, revision)) => (repo, Some(revision)),
        None => (rest, None),
    };
    if is_repo(repo) {
        Some(RefView::HuggingFace { repo, revision })
    } else {
        None
    }
}

/// The grammar of model references, after white space at the ends is taken off.
pub open spec fn reference(value: Seq<char>) -> Option<RefView> {
    let value = trimmed(value);
    if value.len() == 0 {
        None
    } else if "hf:"@.is_prefix_of(value) {
        repo_reference(value.skip(3))
    } else if "dir:"@.is_prefix_of(value) {
        Some(RefView::Directory(value.skip(4)))
    } else if "fastembed:"@.is_prefix_of(value) {
        Some(RefView::Named(value.skip(10)))
    } else if value.contains('/') {
        repo_reference(value)
    } else {
        Some(RefView::Named(value))
    }
}

/// Why a text is no model reference.
#[derive(Debug, Clone, Copy, PartialEq, Eq, Structural)]
pub enum RefError {
    /// No model is configured.
    Empty,
    /// Not `owner/name[@revision]`.
    Malformed,
}

fn parse_repo(rest: &str) -> (r: Result<ModelRef, RefError>)
    ensures
        match r {
            Ok(found) => repo_reference(rest@) == Some(found@),
            Err(error) => repo_reference(rest@) is None && error == RefError::Malformed,
        },
{
    let (repo, revision) = match split_once(rest, '@') {
        Some((repo, revision)) => (repo, Some(revision)),
        None => (rest.to_owned(), None),
    };
    let parts = split_text(repo.as_str(), '/');
    assert(views(parts@).len() == parts@.len());
    if parts.len() == 2 && !starts_with(repo.as_str(), "/") && !ends_with(repo.as_str(), "/") {
        Ok(ModelRef::HuggingFace { repo, revision })
    } else {
        Err(RefError::Malformed)
    }
}

impl ModelRef {
    pub fn parse(value: &str) -> (r: Result<ModelRef, RefError>)
        ensures
            match r {
                Ok(found) => reference(value@) == Some(found@),
                Err(error) => reference(value@) is None && (error == RefError::Empty <==> trimmed(
                    value@,
                ).len() == 0),
            },
    {
        proof {
            reveal_strlit("hf:");
            reveal_strlit("dir:");
            reveal_strlit("fastembed:");
        }
        let value = trim(value);
        let text = value.as_str();
        if text.is_empty() {
            return Err(RefError::Empty);
        }
        if let Some(rest) = strip_prefix(text, "hf:") {
            return parse_repo(rest.as_str());
        }
        if let Some(rest) = strip_prefix(text, "dir:") {
            return Ok(ModelRef::Directory(rest));
        }
        if let Some(rest) = strip_prefix(text, "fastembed:") {
            return Ok(ModelRef::Named(rest));
        }
        let all = chars_of(text);
        let at = first_position(&all, '/');
        if at < all.len() {
            assert(text@[at as int] == '/');
            return parse_repo(text);
        }
        assert(!text@.contains('/'));
        Ok(ModelRef::Named(value))
    }
}

/// Fetches one file of a model repository.
pub trait RepoFetcher {
    /// `Ok(None)` when the file does not exist in the repository.
    fn fetch(&self, path: &str) -> Result<Option<Vec<u8>>, String>;

    /// At most the first `limit` bytes of a file, used to preflight large weight
    /// artifacts without downloading them. The default falls back to a full
    /// fetch; network fetchers should implement a bounded read.
    fn fetch_prefix(&self, path: &str, limit: usize) -> (r: Result<Option<Vec<u8>>, String>)
        default_ensures
            exists|whole: Result<Option<Vec<u8>>, String>| #[trigger]
                call_ensures(Self::fetch, (self, path), whole) && match whole {
                    Ok(Some(bytes)) => r matches Ok(Some(first)) && first@ == if limit
                        < bytes@.len() {
                        bytes@.take(limit as int)
                    } else {
                        bytes@
                    },
                    _ => r == whole,
                },
    {
        match self.fetch(path) {
            Ok(Some(bytes)) => {
                let mut head = bytes;
                head.truncate(limit);
                Ok(Some(head))
            },
            Ok(None) => Ok(None),
            Err(message) => Err(message),
        }
    }

    /// Human-readable origin for error messages and the lockfile.
    fn origin(&self) -> String;
}

/// Fetches from huggingface.co over HTTPS.
#[derive(Debug)]
pub struct HuggingFaceFetcher {
    pub repo: String,
    pub revision: String,
}

impl HuggingFaceFetcher {
    /// The address of a file.
    pub fn url(&self, path: &str) -> (r: String)
        ensures
            r@ == "https://huggingface.co/"@ + self.repo@ + "/resolve/"@ + self.revision@ + "/"@
                + path@,
    {
        let mut out = "https://huggingface.co/".to_owned();
        out.append(self.repo.as_str());
        out.append("/resolve/");
        out.append(self.revision.as_str());
        out.append("/");
        out.append(path);
        out
    }

    /// Where the files come from.
    pub fn origin(&self) -> (r: String)
        ensures
            r@ == "hf:"@ + self.repo@ + "@"@ + self.revision@,
    {
        let mut out = "hf:".to_owned();
        out.append(self.repo.as_str());
        out.append("@");
        out.append(self.revision.as_str());
        out
    }
}

/// The header that asks for the first `limit` bytes.
pub fn range_header(limit: usize) -> (r: String)
    ensures
        r@ == "bytes=0-"@ + decimal(
            if limit > 0 {
                (limit - 1) as nat
            } else {
                0
            },
        ),
{
    let last: usize = if limit > 0 {
        limit - 1
    } else {
        0
    };
    concat("bytes=0-", decimal_text(last as u64).as_str())
}

/// Fetches from a local directory (the `dir:` scheme).
#[derive(Debug)]
pub struct DirectoryFetcher {
    pub dir: String,
}

impl DirectoryFetcher {
    /// Where the files come from, as a lockfile records it.
    pub fn origin(&self) -> (r: String)
        ensures
            r@ == "dir:"@ + self.dir@,
    {
        concat("dir:", self.dir.as_str())
    }
}

/// Where a reference's files are fetched from.
#[derive(Debug)]
pub enum FetchSource {
    HuggingFace(HuggingFaceFetcher),
    Directory(DirectoryFetcher),
}

impl FetchSource {
    /// Where the files come from.
    pub open spec fn comes_from(self) -> Seq<char> {
        match self {
            FetchSource::HuggingFace(fetcher) => "hf:"@ + fetcher.repo@ + "@"@
                + fetcher.revision@,
            FetchSource::Directory(fetcher) => "dir:"@ + fetcher.dir@,
        }
    }

    /// Where the files come from, as a lockfile records it.
    pub fn origin(&self) -> (r: String)
        ensures
            r@ == self.comes_from(),
    {
        match self {
            FetchSource::HuggingFace(fetcher) => fetcher.origin(),
            FetchSource::Directory(fetcher) => fetcher.origin(),
        }
    }
}

/// The fetcher matching a model reference. `Named` references resolve through
/// the executing backend's own catalog instead and have none.
pub fn fetcher_for(reference: &ModelRef) -> (r: Option<FetchSource>)
    ensures
        match reference@ {
            RefView::HuggingFace { repo, revision } => r matches Some(FetchSource::HuggingFace(f))
                && f.repo@ == repo && f.revision@ == (match revision {
                Some(revision) => revision,
                None => "main"@,
            }),
            RefView::Directory(dir) => r matches Some(FetchSource::Directory(f)) && f.dir@ == dir,
            RefView::Named(_) => r is None,
        },
        r matches Some(source) ==> source.comes_from() == match reference@ {
            RefView::HuggingFace { repo, revision } => "hf:"@ + repo + "@"@ + (match revision {
                Some(revision) => revision,
                None => "main"@,
            }),
            RefView::Directory(dir) => "dir:"@ + dir,
            RefView::Named(name) => name,
        },
{
    match reference {
        ModelRef::HuggingFace { repo, revision } => Some(
            FetchSource::HuggingFace(
                HuggingFaceFetcher {
                    repo: repo.clone(),
                    revision: match revision {
                        Some(revision) => revision.clone(),
                        None => "main".to_owned(),
                    },
                },
            ),
        ),
        ModelRef::Directory(dir) => Some(
            FetchSource::Directory(DirectoryFetcher { dir: dir.clone() }),
        ),
        ModelRef::Named(_) => None,
    }
}

/// One resolved repository file, hash-recorded for the lockfile.
#[derive(Debug)]
pub struct LockedFile {
    pub sha256: String,
    pub size: u64,
}

/// Trust-on-first-use lockfile: hashes recorded on first fetch, verified on
/// every later one. Lives beside the cached model files.
#[derive(Debug)]
pub struct ModelLockfile {
    pub origin: String,
    pub files: TextMap<LockedFile>,
}

pub const LOCKFILE_NAME: &'static str = "codeindex.lock.json";

pub const MANIFEST_OVERRIDE_NAME: &'static str = "codeindex.toml";

/// The hexadecimal hash of some bytes.
pub open spec fn bytes_hash(bytes: Seq<u8>) -> Seq<char> {
    hex_text(sha256_digest(bytes))
}

/// The hash that is locked for a path.
pub open spec fn locked(lockfile: ModelLockfile, path: Seq<char>) -> Option<Seq<char>> {
    if lockfile.files@.contains_key(path) {
        Some(lockfile.files@[path].sha256@)
    } else {
        None
    }
}

/// A file that no longer has the hash it was locked with.
#[derive(Debug)]
pub struct HashMismatch {
    pub locked: String,
    pub found: String,
}

/// Checks a file against the lock, or locks it where it is new.
pub fn verify_or_record(lockfile: &mut ModelLockfile, path: &str, bytes: &[u8]) -> (r: Result<
    (),
    HashMismatch,
>)
    requires
        old(lockfile).files.wf(),
    ensures
        final(lockfile).files.wf(),
        final(lockfile).origin == old(lockfile).origin,
        verified(*old(lockfile), path@, bytes@, r is Ok, *final(lockfile)),
        r matches Err(mismatch) ==> locked(*old(lockfile), path@) == Some(mismatch.locked@)
            && mismatch.found@ == bytes_hash(bytes@),
        locked(*old(lockfile), path@) is None ==> {
            &&& final(lockfile).files@.contains_key(path@)
            &&& final(lockfile).files@ == old(lockfile).files@.insert(
                path@,
                final(lockfile).files@[path@],
            )
            &&& final(lockfile).files@[path@].sha256@ == bytes_hash(bytes@)
            &&& final(lockfile).files@[path@].size == bytes@.len()
        },
{
    let sha256 = hex(&sha256(bytes));
    match lockfile.files.get(path) {
        Some(entry) => {
            if same(entry.sha256.as_str(), sha256.as_str()) {
                Ok(())
            } else {
                Err(HashMismatch { locked: entry.sha256.clone(), found: sha256 })
            }
        },
        None => {
            let entry = LockedFile { sha256, size: bytes.len() as u64 };
            let _previous = lockfile.files.insert(path.to_owned(), entry);
            Ok(())
        },
    }
}

/// What verifying a file leaves behind.
pub open spec fn verified(
    before: ModelLockfile,
    path: Seq<char>,
    bytes: Seq<u8>,
    ok: bool,
    after: ModelLockfile,
) -> bool {
    &&& ok <==> (locked(before, path) is None || locked(before, path) == Some(bytes_hash(bytes)))
    &&& !ok || locked(before, path) is Some ==> after.files@ == before.files@
    &&& locked(before, path) is None ==> locked(after, path) == Some(bytes_hash(bytes))
        && forall|other: Seq<char>|
        other != path ==> #[trigger] locked(after, other) == locked(before, other)
}

/// Once a file has been accepted, the same bytes are accepted again and nothing
/// changes, and bytes of another hash are rejected and nothing changes.
pub proof fn a_trusted_file_stays_trusted(
    first: ModelLockfile,
    second: ModelLockfile,
    third: ModelLockfile,
    path: Seq<char>,
    bytes: Seq<u8>,
    later: Seq<u8>,
    ok: bool,
)
    requires
        verified(first, path, bytes, true, second),
        verified(second, path, later, ok, third),
    ensures
        locked(second, path) == Some(bytes_hash(bytes)),
        third.files@ == second.files@,
        bytes == later ==> ok,
        bytes_hash(bytes) != bytes_hash(later) ==> !ok,
{
}

/// What `config.json` declares.
#[derive(Debug)]
pub struct HfConfig {
    pub architectures: Vec<String>,
    pub max_position_embeddings: Option<usize>,
    pub hidden_size: Option<usize>,
}

/// A declared limit that may be any number: the whole numbers just below and
/// just above it, kept within the range of `u64`.
#[derive(Debug, Clone, Copy)]
pub struct DeclaredLimit {
    pub floor: u64,
    pub ceil: u64,
}

/// One module of `modules.json`.
#[derive(Debug)]
pub struct ModuleEntry {
    pub path: String,
    pub module_type: String,
}

/// What a pooling module declares.
#[derive(Debug)]
pub struct PoolingConfig {
    pub word_embedding_dimension: Option<usize>,
    pub pooling_mode_cls_token: bool,
    pub pooling_mode_mean_tokens: bool,
    pub pooling_mode_lasttoken: bool,
}

/// Optional user-authored override for repositories without the
/// sentence-transformers configuration trio.
#[derive(Debug)]
pub struct ManifestOverride {
    pub pooling: Option<String>,
    pub normalize: Option<bool>,
    pub native_dimensions: Option<usize>,
    pub max_sequence_length: Option<usize>,
    pub query_prefix: Option<String>,
    pub document_prefix: Option<String>,
}

impl Default for ManifestOverride {
    fn default() -> (r: Self)
        ensures
            r == (ManifestOverride {
                pooling: None,
                normalize: None,
                native_dimensions: None,
                max_sequence_length: None,
                query_prefix: None,
                document_prefix: None,
            }),
    {
        Self {
            pooling: None,
            normalize: None,
            native_dimensions: None,
            max_sequence_length: None,
            query_prefix: None,
            document_prefix: None,
        }
    }
}

/// The first module whose type ends with `suffix`, or the number of modules.
pub open spec fn module_position(modules: Seq<ModuleEntry>, suffix: Seq<char>) -> int
    decreases modules.len(),
{
    if modules.len() == 0 || suffix.is_suffix_of(modules[0].module_type@) {
        0
    } else {
        1 + module_position(modules.drop_first(), suffix)
    }
}

fn find_module(modules: &Vec<ModuleEntry>, suffix: &str) -> (r: Option<usize>)
    ensures
        match r {
            Some(i) => i == module_position(modules@, suffix@) && i < modules@.len(),
            None => module_position(modules@, suffix@) == modules@.len(),
        },
{
    let mut i: usize = 0;
    assert(modules@.skip(0) =~= modules@);
    while i < modules.len()
        invariant
            i <= modules@.len(),
            module_position(modules@, suffix@) == i + module_position(
                modules@.skip(i as int),
                suffix@,
            ),
        decreases modules@.len() - i,
    {
        if ends_with(modules[i].module_type.as_str(), suffix) {
            return Some(i);
        }
        assert(modules@.skip(i as int).drop_first() =~= modules@.skip(i + 1));
        i += 1;
    }
    None
}

/// The file that configures pooling: in the directory of the first pooling
/// module.
pub fn pooling_config_path(modules: &Vec<ModuleEntry>) -> (r: Option<String>)
    ensures
        ({
            let at = module_position(modules@, "Pooling"@);
            opt_view(r) == if at < modules@.len() {
                Some(modules@[at].path@ + "/config.json"@)
            } else {
                None
            }
        }),
{
    match find_module(modules, "Pooling") {
        Some(i) => Some(concat(modules[i].path.as_str(), "/config.json")),
        None => None,
    }
}

/// Everything that decides a model's semantics.
#[derive(Debug)]
pub struct RepoMetadata {
    pub config: HfConfig,
    pub model_max_length: Option<DeclaredLimit>,
    /// The modules, where the repository declares any.
    pub modules: Option<Vec<ModuleEntry>>,
    pub pooling: PoolingConfig,
    /// The shipped query and document prompts.
    pub query_prompt: Option<String>,
    pub document_prompt: Option<String>,
    pub manifest: ManifestOverride,
}

/// Why a repository cannot be resolved.
#[derive(Debug, Clone, Copy, PartialEq, Eq, Structural)]
pub enum ResolveError {
    /// The override names a pooling that does not exist.
    UnknownPooling,
    /// No pooling strategy is declared.
    NoPooling,
    /// No output dimensions are declared.
    NoDimensions,
    /// No maximum sequence length is declared.
    NoSequenceLength,
    /// No architecture is declared.
    NoArchitecture,
}

/// What a model means, apart from where it comes from.
#[derive(Debug)]
pub struct ModelSemantics {
    pub pooling: Pooling,
    pub normalize: bool,
    pub native_dimensions: usize,
    pub max_sequence_length: usize,
    pub prompts: PromptContract,
}

/// The first of two declarations.
pub open spec fn first_of(a: Option<usize>, b: Option<usize>) -> Option<usize> {
    if a is Some {
        a
    } else {
        b
    }
}

fn either(a: Option<usize>, b: Option<usize>) -> (r: Option<usize>)
    ensures
        r == first_of(a, b),
{
    match a {
        Some(v) => Some(v),
        None => b,
    }
}

/// The pooling: the override's, else the one that the pooling module declares,
/// last token before class token before mean.
pub open spec fn pooling_decision(metadata: RepoMetadata) -> Result<Pooling, ResolveError> {
    match metadata.manifest.pooling {
        Some(name) => if exists|pooling: Pooling| #[trigger] pooling.token() == name@ {
            Ok(choose|pooling: Pooling| #[trigger] pooling.token() == name@)
        } else {
            Err(ResolveError::UnknownPooling)
        },
        None => if metadata.pooling.pooling_mode_lasttoken {
            Ok(Pooling::LastToken)
        } else if metadata.pooling.pooling_mode_cls_token {
            Ok(Pooling::Cls)
        } else if metadata.pooling.pooling_mode_mean_tokens {
            Ok(Pooling::Mean)
        } else {
            Err(ResolveError::NoPooling)
        },
    }
}

/// The tokenizer's own limit. Anything below one or above ten million is a
/// sentinel for no limit.
pub open spec fn tokenizer_limit(limit: Option<DeclaredLimit>) -> Option<usize> {
    match limit {
        Some(limit) if limit.floor >= 1 && limit.ceil <= 10_000_000 => Some(limit.floor as usize),
        _ => None,
    }
}

/// The sequence length: the override's, else the smaller of the tokenizer's and
/// the position embeddings' limits, else the one that is declared.
pub open spec fn sequence_length(metadata: RepoMetadata) -> Option<usize> {
    let tokenizer = tokenizer_limit(metadata.model_max_length);
    let positions = metadata.config.max_position_embeddings;
    if metadata.manifest.max_sequence_length is Some {
        metadata.manifest.max_sequence_length
    } else if tokenizer is Some && positions is Some {
        if tokenizer->0 <= positions->0 {
            tokenizer
        } else {
            positions
        }
    } else {
        first_of(tokenizer, positions)
    }
}

/// The output width: the override's, else the pooling module's, else the hidden
/// size.
pub open spec fn output_width(metadata: RepoMetadata) -> Option<usize> {
    first_of(
        metadata.manifest.native_dimensions,
        first_of(metadata.pooling.word_embedding_dimension, metadata.config.hidden_size),
    )
}

/// Whether vectors are normalized: as the override says, else if there is a
/// normalizing module.
pub open spec fn normalizes(metadata: RepoMetadata) -> bool {
    match metadata.manifest.normalize {
        Some(normalize) => normalize,
        None => match metadata.modules {
            Some(modules) => module_position(modules@, "Normalize"@) < modules@.len(),
            None => false,
        },
    }
}

/// The text of an optional string, empty where there is none.
pub open spec fn or_empty(text: Option<String>) -> Seq<char> {
    match text {
        Some(text) => text@,
        None => Seq::empty(),
    }
}

/// How shipped prompts and overrides become a prompt contract. A query prompt
/// shaped like `Instruct: <task>\nQuery:` upgrades to the full instruction
/// template with the shipped task as default, so callers can substitute their
/// own instructions; any other prompt pair becomes fixed role prefixes.
pub open spec fn is_prompt_contract(metadata: RepoMetadata, prompts: PromptContract) -> bool {
    let query = or_empty(metadata.query_prompt);
    let document = or_empty(metadata.document_prompt);
    let (head, tail) = ("Instruct: "@, "\nQuery:"@);
    let instructed = head.is_prefix_of(query) && tail.is_suffix_of(query.skip(head.len() as int));
    if metadata.manifest.query_prefix is Some || metadata.manifest.document_prefix is Some {
        &&& prompts matches PromptContract::RolePrefixes { query: q, document: d }
        &&& q@ == or_empty(metadata.manifest.query_prefix)
        &&& d@ == or_empty(metadata.manifest.document_prefix)
    } else if query.len() == 0 && document.len() == 0 {
        prompts == PromptContract::Symmetric
    } else if instructed && document.len() == 0 {
        &&& prompts matches PromptContract::QueryInstruction { query_template, default_instruction }
        &&& query_template@ == "Instruct: {instruction}\nQuery:{query}"@
        &&& opt_view(default_instruction) == Some(
            query.skip(head.len() as int).take(query.len() - head.len() - tail.len()),
        )
    } else {
        &&& prompts matches PromptContract::RolePrefixes { query: q, document: d }
        &&& q@ == query
        &&& d@ == document
    }
}

fn text_or_empty(text: &Option<String>) -> (r: String)
    ensures
        r@ == or_empty(*text),
{
    match text {
        Some(text) => text.clone(),
        None => String::new(),
    }
}

/// Maps shipped prompts and overrides onto a typed contract.
pub fn prompt_contract(metadata: &RepoMetadata) -> (r: PromptContract)
    ensures
        is_prompt_contract(*metadata, r),
{
    if metadata.manifest.query_prefix.is_some() || metadata.manifest.document_prefix.is_some() {
        return PromptContract::RolePrefixes {
            query: text_or_empty(&metadata.manifest.query_prefix),
            document: text_or_empty(&metadata.manifest.document_prefix),
        };
    }
    let query = text_or_empty(&metadata.query_prompt);
    let document = text_or_empty(&metadata.document_prompt);
    if query.as_str().is_empty() && document.as_str().is_empty() {
        return PromptContract::Symmetric;
    }
    if document.as_str().is_empty() {
        if let Some(rest) = strip_prefix(query.as_str(), "Instruct: ") {
            if let Some(instruction) = strip_suffix(rest.as_str(), "\nQuery:") {
                return PromptContract::QueryInstruction {
                    query_template: "Instruct: {instruction}\nQuery:{query}".to_owned(),
                    default_instruction: Some(instruction),
                };
            }
        }
    }
    PromptContract::RolePrefixes { query, document }
}

fn decide_pooling(metadata: &RepoMetadata) -> (r: Result<Pooling, ResolveError>)
    ensures
        r == pooling_decision(*metadata),
{
    match &metadata.manifest.pooling {
        Some(name) => match Pooling::parse(name.as_str()) {
            Some(pooling) => {
                proof {
                    let other = choose|p: Pooling| #[trigger] p.token() == name@;
                    pooling_names_differ(pooling, other);
                }
                Ok(pooling)
            },
            None => Err(ResolveError::UnknownPooling),
        },
        None => if metadata.pooling.pooling_mode_lasttoken {
            Ok(Pooling::LastToken)
        } else if metadata.pooling.pooling_mode_cls_token {
            Ok(Pooling::Cls)
        } else if metadata.pooling.pooling_mode_mean_tokens {
            Ok(Pooling::Mean)
        } else {
            Err(ResolveError::NoPooling)
        },
    }
}

/// No two poolings have the same name.
pub proof fn pooling_names_differ(a: Pooling, b: Pooling)
    ensures
        a.token() == b.token() ==> a == b,
{
    reveal_strlit("mean");
    reveal_strlit("cls");
    reveal_strlit("last_token");
    reveal_strlit("model_defined");
    assert("mean"@.len() == 4 && "cls"@.len() == 3 && "last_token"@.len() == 10
        && "model_defined"@.len() == 13);
}

/// What is missing for a model's semantics: first the pooling, then the output
/// dimensions, then the sequence length.
pub open spec fn semantics_fault(metadata: RepoMetadata) -> Option<ResolveError> {
    match pooling_decision(metadata) {
        Err(error) => Some(error),
        Ok(_) => if output_width(metadata) is None {
            Some(ResolveError::NoDimensions)
        } else if sequence_length(metadata) is None {
            Some(ResolveError::NoSequenceLength)
        } else {
            None
        },
    }
}

/// Decides a model's semantics.
pub fn resolve_semantics(metadata: &RepoMetadata) -> (r: Result<ModelSemantics, ResolveError>)
    ensures
        match r {
            Ok(semantics) => {
                &&& semantics_fault(*metadata) is None
                &&& pooling_decision(*metadata) == Ok::<Pooling, ResolveError>(semantics.pooling)
                &&& output_width(*metadata) == Some(semantics.native_dimensions)
                &&& sequence_length(*metadata) == Some(semantics.max_sequence_length)
                &&& semantics.normalize == normalizes(*metadata)
                &&& is_prompt_contract(*metadata, semantics.prompts)
            },
            Err(error) => semantics_fault(*metadata) == Some(error),
        },
        r matches Ok(semantics) ==> {
            let declared = metadata.pooling;
            &&& metadata.manifest.pooling is None && declared.pooling_mode_mean_tokens
                && !declared.pooling_mode_cls_token && !declared.pooling_mode_lasttoken
                ==> semantics.pooling == Pooling::Mean
            &&& metadata.manifest.pooling is None && !declared.pooling_mode_mean_tokens
                && declared.pooling_mode_cls_token && !declared.pooling_mode_lasttoken
                ==> semantics.pooling == Pooling::Cls
            &&& metadata.manifest.pooling is None && !declared.pooling_mode_mean_tokens
                && !declared.pooling_mode_cls_token && declared.pooling_mode_lasttoken
                ==> semantics.pooling == Pooling::LastToken
        },
{
    let pooling = match decide_pooling(metadata) {
        Ok(pooling) => pooling,
        Err(error) => {
            return Err(error);
        },
    };
    let width = either(
        metadata.manifest.native_dimensions,
        either(metadata.pooling.word_embedding_dimension, metadata.config.hidden_size),
    );
    let native_dimensions: usize = match width {
        Some(width) => width,
        None => {
            return Err(ResolveError::NoDimensions);
        },
    };
    let tokenizer = match metadata.model_max_length {
        Some(limit) if limit.floor >= 1 && limit.ceil <= 10_000_000 => Some(limit.floor as usize),
        _ => None,
    };
    let declared = match (tokenizer, metadata.config.max_position_embeddings) {
        (Some(a), Some(b)) => if a <= b {
            Some(a)
        } else {
            Some(b)
        },
        (a, b) => either(a, b),
    };
    let max_sequence_length: usize = match either(metadata.manifest.max_sequence_length, declared) {
        Some(length) => length,
        None => {
            return Err(ResolveError::NoSequenceLength);
        },
    };
    let normalize = match metadata.manifest.normalize {
        Some(normalize) => normalize,
        None => match &metadata.modules {
            Some(modules) => find_module(modules, "Normalize").is_some(),
            None => false,
        },
    };
    Ok(
        ModelSemantics {
            pooling,
            normalize,
            native_dimensions,
            max_sequence_length,
            prompts: prompt_contract(metadata),
        },
    )
}

/// A repository file in hand.
#[derive(Debug)]
pub struct FetchedFile {
    pub bytes: Vec<u8>,
    /// The file was fetched and is not yet in the cache.
    pub fresh: bool,
}

/// Why a file cannot be used.
#[derive(Debug)]
pub enum FetchError {
    /// The fetcher failed.
    Fetch(String),
    /// The file changed since it was locked.
    Changed(HashMismatch),
    /// The file does not exist; its path.
    Missing(String),
}

/// What taking a file comes to, with its bytes at hand.
pub open spec fn taken(
    before: ModelLockfile,
    path: Seq<char>,
    bytes: Vec<u8>,
    fresh: bool,
    r: Result<Option<FetchedFile>, FetchError>,
    after: ModelLockfile,
) -> bool {
    &&& verified(before, path, bytes@, r is Ok, after)
    &&& match r {
        Ok(found) => found == Some(FetchedFile { bytes, fresh }),
        Err(FetchError::Changed(mismatch)) => locked(before, path) == Some(mismatch.locked@)
            && mismatch.found@ == bytes_hash(bytes@),
        Err(_) => false,
    }
}

/// What taking a file comes to, with what a fetcher gave for it.
pub open spec fn taken_from(
    before: ModelLockfile,
    path: Seq<char>,
    given: Result<Option<Vec<u8>>, String>,
    r: Result<Option<FetchedFile>, FetchError>,
    after: ModelLockfile,
) -> bool {
    match given {
        Err(message) => {
            &&& r == Err::<Option<FetchedFile>, FetchError>(FetchError::Fetch(message))
            &&& after.files@ == before.files@
        },
        Ok(None) => {
            &&& r == Ok::<Option<FetchedFile>, FetchError>(None)
            &&& after.files@ == before.files@
        },
        Ok(Some(bytes)) => taken(before, path, bytes, true, r, after),
    }
}

/// What taking a file comes to: from the cache where it is there, else from the
/// fetcher.
pub open spec fn obtained<F: RepoFetcher + ?Sized>(
    fetcher: &F,
    cached: Option<Vec<u8>>,
    before: ModelLockfile,
    path: &str,
    r: Result<Option<FetchedFile>, FetchError>,
    after: ModelLockfile,
) -> bool {
    match cached {
        Some(bytes) => taken(before, path@, bytes, false, r, after),
        None => exists|given: Result<Option<Vec<u8>>, String>| #[trigger]
            call_ensures(F::fetch, (fetcher, path), given) && taken_from(
                before,
                path@,
                given,
                r,
                after,
            ),
    }
}

/// Takes a repository file from the cache, or fetches it where the cache has
/// none, and verifies or records its hash.
pub fn fetch_file<F: RepoFetcher + ?Sized>(
    fetcher: &F,
    cached: Option<Vec<u8>>,
    lockfile: &mut ModelLockfile,
    path: &str,
) -> (r: Result<Option<FetchedFile>, FetchError>)
    requires
        old(lockfile).files.wf(),
    ensures
        final(lockfile).files.wf(),
        final(lockfile).origin == old(lockfile).origin,
        obtained(fetcher, cached, *old(lockfile), path, r, *final(lockfile)),
{
    if let Some(bytes) = cached {
        return match verify_or_record(lockfile, path, bytes.as_slice()) {
            Ok(()) => Ok(Some(FetchedFile { bytes, fresh: false })),
            Err(mismatch) => Err(FetchError::Changed(mismatch)),
        };
    }
    let given = fetcher.fetch(path);
    assert(call_ensures(F::fetch, (fetcher, path), given));
    match given {
        Err(message) => Err(FetchError::Fetch(message)),
        Ok(None) => Ok(None),
        Ok(Some(bytes)) => match verify_or_record(lockfile, path, bytes.as_slice()) {
            Ok(()) => Ok(Some(FetchedFile { bytes, fresh: true })),
            Err(mismatch) => Err(FetchError::Changed(mismatch)),
        },
    }
}

/// The first files are all there, each taken after the one before it; `states` holds
/// the lockfile before the first and after each of them.
pub open spec fn all_obtained<F: RepoFetcher + ?Sized>(
    fetcher: &F,
    cached: Seq<Option<Vec<u8>>>,
    paths: Seq<&str>,
    states: Seq<ModelLockfile>,
    files: Seq<FetchedFile>,
) -> bool {
    &&& states.len() == files.len() + 1
    &&& files.len() <= paths.len()
    &&& forall|i: int|
        0 <= i < files.len() ==> obtained(
            fetcher,
            cached[i],
            states[i],
            paths[i],
            Ok::<Option<FetchedFile>, FetchError>(Some(#[trigger] files[i])),
            states[i + 1],
        )
}

/// What taking a set of files comes to: the files where all are there, else what
/// became of the first that could not be taken.
pub open spec fn materialized<F: RepoFetcher + ?Sized>(
    fetcher: &F,
    cached: Seq<Option<Vec<u8>>>,
    paths: Seq<&str>,
    states: Seq<ModelLockfile>,
    files: Seq<FetchedFile>,
    r: Result<Vec<FetchedFile>, FetchError>,
    after: ModelLockfile,
) -> bool {
    let at = files.len() as int;
    &&& all_obtained(fetcher, cached, paths, states, files)
    &&& match r {
        Ok(found) => at == paths.len() && found@ == files && after == states[at],
        Err(FetchError::Missing(path)) => at < paths.len() && path@ == paths[at]@ && obtained(
            fetcher,
            cached[at],
            states[at],
            paths[at],
            Ok::<Option<FetchedFile>, FetchError>(None),
            after,
        ),
        Err(error) => at < paths.len() && obtained(
            fetcher,
            cached[at],
            states[at],
            paths[at],
            Err::<Option<FetchedFile>, FetchError>(error),
            after,
        ),
    }
}

/// Takes (or fetches) and verifies a set of required files, in order. A file
/// that does not exist is an error.
pub fn materialize_files<F: RepoFetcher + ?Sized>(
    fetcher: &F,
    cached: Vec<Option<Vec<u8>>>,
    lockfile: &mut ModelLockfile,
    paths: &Vec<&str>,
) -> (r: Result<Vec<FetchedFile>, FetchError>)
    requires
        old(lockfile).files.wf(),
        cached@.len() == paths@.len(),
    ensures
        final(lockfile).files.wf(),
        final(lockfile).origin == old(lockfile).origin,
        exists|states: Seq<ModelLockfile>, files: Seq<FetchedFile>|
            states[0] == *old(lockfile) && #[trigger] materialized(
                fetcher,
                cached@,
                paths@,
                states,
                files,
                r,
                *final(lockfile),
            ),
        r matches Ok(files) ==> forall|i: int|
            0 <= i < files@.len() ==> locked(*final(lockfile), paths@[i]@) == Some(
                bytes_hash((#[trigger] files@[i]).bytes@),
            ),
        forall|path: Seq<char>|
            locked(*old(lockfile), path) is Some ==> #[trigger] locked(*final(lockfile), path)
                == locked(*old(lockfile), path),
{
    let ghost start = *lockfile;
    let ghost given = cached@;
    let ghost mut states = seq![*lockfile];
    let mut rest = cached;
    let mut files: Vec<FetchedFile> = Vec::new();
    let mut i: usize = 0;
    while i < paths.len()
        invariant
            i <= paths@.len(),
            given == cached@,
            rest@.len() == paths@.len(),
            forall|j: int| i <= j < rest@.len() ==> (#[trigger] rest@[j]) == given[j],
            files@.len() == i,
            start == *old(lockfile),
            states.len() == i + 1,
            states[0] == start,
            states[i as int] == *lockfile,
            all_obtained(fetcher, given, paths@, states, files@),
            lockfile.files.wf(),
            lockfile.origin == start.origin,
            forall|j: int|
                0 <= j < i ==> locked(*lockfile, paths@[j]@) == Some(
                    bytes_hash((#[trigger] files@[j]).bytes@),
                ),
            forall|path: Seq<char>|
                locked(start, path) is Some ==> #[trigger] locked(*lockfile, path) == locked(
                    start,
                    path,
                ),
        decreases paths@.len() - i,
    {
        let ghost before = *lockfile;
        let ghost known = files@;
        let mut here: Option<Vec<u8>> = None;
        std::mem::swap(&mut here, &mut rest[i]);
        assert(here == given[i as int]);
        match fetch_file(fetcher, here, lockfile, paths[i]) {
            Err(error) => {
                proof {
                    assert forall|path: Seq<char>|
                        locked(start, path) is Some implies #[trigger] locked(*lockfile, path)
                        == locked(start, path) by {
                        assert(locked(before, path) == locked(start, path));
                    }
                    assert(materialized(
                        fetcher,
                        given,
                        paths@,
                        states,
                        known,
                        Err::<Vec<FetchedFile>, FetchError>(error),
                        *lockfile,
                    ));
                }
                return Err(error);
            },
            Ok(None) => {
                let missing = paths[i].to_owned();
                proof {
                    assert forall|path: Seq<char>|
                        locked(start, path) is Some implies #[trigger] locked(*lockfile, path)
                        == locked(start, path) by {
                        assert(locked(before, path) == locked(start, path));
                    }
                    assert(materialized(
                        fetcher,
                        given,
                        paths@,
                        states,
                        known,
                        Err::<Vec<FetchedFile>, FetchError>(FetchError::Missing(missing)),
                        *lockfile,
                    ));
                }
                return Err(FetchError::Missing(missing));
            },
            Ok(Some(file)) => {
                proof {
                    assert(verified(before, paths@[i as int]@, file.bytes@, true, *lockfile));
                    assert(locked(*lockfile, paths@[i as int]@) == Some(bytes_hash(file.bytes@)));
                    assert forall|path: Seq<char>|
                        locked(before, path) is Some implies #[trigger] locked(*lockfile, path)
                        == locked(before, path) by {}
                    assert forall|path: Seq<char>|
                        locked(start, path) is Some implies #[trigger] locked(*lockfile, path)
                        == locked(start, path) by {
                        assert(locked(before, path) == locked(start, path));
                    }
                    assert forall|j: int| 0 <= j < i implies locked(*lockfile, paths@[j]@) == Some(
                        bytes_hash((#[trigger] files@[j]).bytes@),
                    ) by {
                        assert(locked(before, paths@[j]@) == Some(bytes_hash(files@[j].bytes@)));
                    }
                    let next = states.push(*lockfile);
                    assert forall|j: int| 0 <= j < known.push(file).len() implies obtained(
                        fetcher,
                        given[j],
                        next[j],
                        paths@[j],
                        Ok::<Option<FetchedFile>, FetchError>(Some(#[trigger] known.push(file)[j])),
                        next[j + 1],
                    ) by {
                        if j < i {
                            assert(known.push(file)[j] == known[j]);
                        }
                    }
                    states = next;
                }
                files.push(file);
            },
        }
        i += 1;
    }
    assert(materialized(
        fetcher,
        given,
        paths@,
        states,
        files@,
        Ok::<Vec<FetchedFile>, FetchError>(files),
        *lockfile,
    ));
    Ok(files)
}

/// What a safetensors header declares, readable with a bounded range request and
/// no weight download.
#[derive(Debug)]
pub struct SafetensorsPreflight {
    pub tensor_names: Vec<String>,
    pub dtypes: Vec<String>,
    /// Total artifact size implied by the tensors' data offsets plus the header
    /// itself, in bytes.
    pub declared_size: u64,
}

/// Why a header cannot be read.
#[derive(Debug)]
pub enum PreflightError {
    /// The fetcher failed.
    Fetch(String),
    /// The artifact is too short to be safetensors.
    TooShort,
    /// The header is declared to be larger than sixteen mebibytes.
    Implausible,
    /// The artifact vanished between two reads.
    Vanished,
    /// Fewer bytes came back than the header has.
    Truncated,
    /// The header is no JSON object.
    NotAnObject,
}

/// The largest header that is read.
pub const HEADER_CAP: u64 = 16_777_216;

/// The length that the first eight bytes declare.
pub open spec fn declared_header(bytes: Seq<u8>) -> u64 {
    spec_u64_from_le_bytes(bytes.take(8))
}

/// Reads the length of a safetensors header.
pub fn header_length(prefix: &[u8]) -> (r: Result<usize, PreflightError>)
    ensures
        match r {
            Ok(length) => prefix@.len() >= 8 && length == declared_header(prefix@) && length
                <= HEADER_CAP,
            Err(PreflightError::TooShort) => prefix@.len() < 8,
            Err(PreflightError::Implausible) => prefix@.len() >= 8 && declared_header(prefix@)
                > HEADER_CAP,
            Err(_) => false,
        },
{
    if prefix.len() < 8 {
        return Err(PreflightError::TooShort);
    }
    let head = slice_subrange(prefix, 0, 8);
    assert(head@ =~= prefix@.take(8));
    let length: u64 = u64_from_le_bytes(head);
    if length > HEADER_CAP {
        return Err(PreflightError::Implausible);
    }
    Ok(length as usize)
}

/// The member that holds no tensor.
pub open spec fn is_tensor(name: Seq<char>) -> bool {
    name != "__metadata__"@
}

/// The names of the tensors among the members, in order.
pub open spec fn tensor_names(members: Seq<(String, Json)>) -> Seq<Seq<char>>
    decreases members.len(),
{
    if members.len() == 0 {
        Seq::empty()
    } else {
        let rest = tensor_names(members.drop_last());
        if is_tensor(members.last().0@) {
            rest.push(members.last().0@)
        } else {
            rest
        }
    }
}

/// The data type that a tensor declares.
pub open spec fn tensor_dtype(entry: Json) -> Option<Seq<char>> {
    match entry.field("dtype"@) {
        Some(Json::Text(text)) => Some(text@),
        _ => None,
    }
}

/// The distinct data types of the tensors, in the order of their first use.
pub open spec fn tensor_dtypes(members: Seq<(String, Json)>) -> Seq<Seq<char>>
    decreases members.len(),
{
    if members.len() == 0 {
        Seq::empty()
    } else {
        let rest = tensor_dtypes(members.drop_last());
        let dtype = tensor_dtype(members.last().1);
        if is_tensor(members.last().0@) && dtype is Some && !rest.contains(dtype->0) {
            rest.push(dtype->0)
        } else {
            rest
        }
    }
}

/// Where a tensor's data ends, zero where it does not say.
pub open spec fn tensor_end(entry: Json) -> u64 {
    match entry.field("data_offsets"@) {
        Some(Json::List(offsets)) => if offsets@.len() > 1 {
            match offsets@[1] {
                Json::Whole(end) => end,
                _ => 0,
            }
        } else {
            0
        },
        _ => 0,
    }
}

/// Where the last tensor's data ends.
pub open spec fn data_end(members: Seq<(String, Json)>) -> u64
    decreases members.len(),
{
    if members.len() == 0 {
        0
    } else {
        let rest = data_end(members.drop_last());
        let end = tensor_end(members.last().1);
        if is_tensor(members.last().0@) && end > rest {
            end
        } else {
            rest
        }
    }
}

fn end_of_tensor(entry: &Json) -> (r: u64)
    ensures
        r == tensor_end(*entry),
{
    match entry.get("data_offsets") {
        Some(Json::List(offsets)) => if offsets.len() > 1 {
            match &offsets[1] {
                Json::Whole(end) => *end,
                _ => 0,
            }
        } else {
            0
        },
        _ => 0,
    }
}

/// The size that a header of a length declares for the whole artifact, with the end of
/// its last tensor; a size that no number holds is held at the largest.
pub open spec fn total_size(header_len: int, end: int) -> int {
    if 8 + header_len + end <= u64::MAX {
        8 + header_len + end
    } else {
        u64::MAX as int
    }
}

/// Reads what the members of a safetensors header declare.
pub fn read_header(members: &Vec<(String, Json)>, header_len: usize) -> (r: SafetensorsPreflight)
    requires
        header_len <= HEADER_CAP,
    ensures
        views(r.tensor_names@) == tensor_names(members@),
        views(r.dtypes@) == tensor_dtypes(members@),
        r.declared_size == total_size(header_len as int, data_end(members@) as int),
{
    let mut names: Vec<String> = Vec::new();
    let mut dtypes: Vec<String> = Vec::new();
    let mut end: u64 = 0;
    let mut i: usize = 0;
    assert(views(names@) =~= Seq::<Seq<char>>::empty());
    assert(views(dtypes@) =~= Seq::<Seq<char>>::empty());
    while i < members.len()
        invariant
            i <= members@.len(),
            views(names@) == tensor_names(members@.take(i as int)),
            views(dtypes@) == tensor_dtypes(members@.take(i as int)),
            end == data_end(members@.take(i as int)),
        decreases members@.len() - i,
    {
        assert(members@.take(i + 1).drop_last() =~= members@.take(i as int));
        let (name, entry) = (&members[i].0, &members[i].1);
        if !same(name.as_str(), "__metadata__") {
            let ghost before = names@;
            names.push(name.clone());
            assert(views(names@) =~= views(before).push(name@));
            if let Some(found) = entry.get("dtype") {
                if let Some(dtype) = found.as_str() {
                    if !crate::text::list_holds(&dtypes, dtype) {
                        let ghost before = dtypes@;
                        dtypes.push(dtype.to_owned());
                        assert(views(dtypes@) =~= views(before).push(dtype@));
                    }
                }
            }
            let tensor: u64 = end_of_tensor(entry);
            if tensor > end {
                end = tensor;
            }
        }
        i += 1;
    }
    assert(members@.take(i as int) =~= members@);
    let declared_size: u64 = (8 + header_len as u64).saturating_add(end);
    SafetensorsPreflight { tensor_names: names, dtypes, declared_size }
}

/// The length of a header whose first bytes are there and declare no more than is
/// read.
pub open spec fn readable_header(prefix: Result<Option<Vec<u8>>, String>) -> Option<usize> {
    match prefix {
        Ok(Some(bytes)) => if bytes@.len() >= 8 && declared_header(bytes@) <= HEADER_CAP {
            Some(declared_header(bytes@) as usize)
        } else {
            None
        },
        _ => None,
    }
}

/// What reading a header comes to where its first bytes end it.
pub open spec fn ends_early(
    prefix: Result<Option<Vec<u8>>, String>,
    r: Result<Option<SafetensorsPreflight>, PreflightError>,
) -> bool {
    match prefix {
        Err(message) => r == Err::<Option<SafetensorsPreflight>, PreflightError>(
            PreflightError::Fetch(message),
        ),
        Ok(None) => r == Ok::<Option<SafetensorsPreflight>, PreflightError>(None),
        Ok(Some(bytes)) => r matches Err(error) && if bytes@.len() < 8 {
            error is TooShort
        } else {
            error is Implausible
        },
    }
}

/// What reading a header of the length comes to, with the bytes up to its end.
pub open spec fn header_read(
    length: usize,
    full: Result<Option<Vec<u8>>, String>,
    r: Result<Option<SafetensorsPreflight>, PreflightError>,
) -> bool {
    match full {
        Err(message) => r == Err::<Option<SafetensorsPreflight>, PreflightError>(
            PreflightError::Fetch(message),
        ),
        Ok(None) => r matches Err(error) && error is Vanished,
        Ok(Some(bytes)) => if bytes@.len() < 8 + length {
            r matches Err(error) && error is Truncated
        } else {
            match json_document(bytes@.skip(8)) {
                Some(Json::Object(members)) => {
                    &&& r matches Ok(Some(preflight))
                    &&& views(preflight.tensor_names@) == tensor_names(members@)
                    &&& views(preflight.dtypes@) == tensor_dtypes(members@)
                    &&& preflight.declared_size == total_size(
                        length as int,
                        data_end(members@) as int,
                    )
                },
                _ => r matches Err(error) && error is NotAnObject,
            }
        },
    }
}

/// What reading a header comes to, with what the fetcher gave for the bytes up to its
/// end.
pub fn finish_preflight(length: usize, full: Result<Option<Vec<u8>>, String>) -> (r: Result<
    Option<SafetensorsPreflight>,
    PreflightError,
>)
    requires
        length <= HEADER_CAP,
    ensures
        header_read(length, full, r),
{
    let bytes = match full {
        Err(message) => {
            return Err(PreflightError::Fetch(message));
        },
        Ok(None) => {
            return Err(PreflightError::Vanished);
        },
        Ok(Some(bytes)) => bytes,
    };
    if bytes.len() < 8 + length {
        return Err(PreflightError::Truncated);
    }
    let header = slice_subrange(bytes.as_slice(), 8, bytes.len());
    assert(header@ =~= bytes@.skip(8));
    match parse_json(header) {
        Some(Json::Object(members)) => Ok(Some(read_header(&members, length))),
        _ => Err(PreflightError::NotAnObject),
    }
}

/// Read only the header of a safetensors artifact: the first 8 bytes carry the
/// header length, the header itself lists every tensor's name, dtype, shape, and
/// offsets. Lets callers validate architecture fit and report the download size
/// before fetching gigabytes of weights.
pub fn preflight_safetensors<F: RepoFetcher + ?Sized>(fetcher: &F, path: &str) -> (r: Result<
    Option<SafetensorsPreflight>,
    PreflightError,
>)
    ensures
        exists|prefix: Result<Option<Vec<u8>>, String>| #[trigger]
            call_ensures(F::fetch_prefix, (fetcher, path, 8usize), prefix) && match readable_header(
                prefix,
            ) {
                None => ends_early(prefix, r),
                Some(length) => exists|full: Result<Option<Vec<u8>>, String>| #[trigger]
                    call_ensures(F::fetch_prefix, (fetcher, path, (8 + length) as usize), full)
                        && header_read(length, full, r),
            },
{
    let prefix = fetcher.fetch_prefix(path, 8);
    let ghost first = prefix;
    assert(call_ensures(F::fetch_prefix, (fetcher, path, 8usize), first));
    let bytes = match prefix {
        Err(message) => {
            return Err(PreflightError::Fetch(message));
        },
        Ok(None) => {
            return Ok(None);
        },
        Ok(Some(bytes)) => bytes,
    };
    let length: usize = match header_length(bytes.as_slice()) {
        Ok(length) => length,
        Err(error) => {
            return Err(error);
        },
    };
    let full = fetcher.fetch_prefix(path, 8 + length);
    let ghost second = full;
    assert(call_ensures(F::fetch_prefix, (fetcher, path, (8 + length) as usize), second));
    finish_preflight(length, full)
}

/// The resolved output: a semantic contract plus what executes it.
#[derive(Debug)]
pub struct ResolvedModel {
    pub contract: ModelContract,
    /// Directory the metadata (and any downloaded artifacts) live in.
    pub local_dir: String,
    /// Repository-relative weight files that exist, in preference order
    /// (safetensors first, then ONNX).
    pub weight_files: Vec<String>,
    /// The declared architectures; backends dispatch on these.
    pub architectures: Vec<String>,
}

/// The weight files that a repository may have, in order of preference.
pub fn weight_candidates() -> (r: Vec<&'static str>)
    ensures
        r@.len() == 3,
        r@[0]@ == "model.safetensors"@,
        r@[1]@ == "onnx/model.onnx"@,
        r@[2]@ == "model.onnx"@,
{
    vec!["model.safetensors", "onnx/model.onnx", "model.onnx"]
}

/// Which of the weight files that it may have a repository has.
#[derive(Debug, Clone, Copy)]
pub struct WeightsPresent {
    /// `model.safetensors`
    pub safetensors: bool,
    /// `onnx/model.onnx`
    pub onnx_below: bool,
    /// `model.onnx`
    pub onnx: bool,
}

/// A file where it is there.
pub open spec fn file_if(present: bool, path: Seq<char>) -> Seq<Seq<char>> {
    if present {
        seq![path]
    } else {
        seq![]
    }
}

impl WeightsPresent {
    /// The files that are there, in order of preference.
    pub open spec fn paths(self) -> Seq<Seq<char>> {
        file_if(self.safetensors, "model.safetensors"@) + file_if(
            self.onnx_below,
            "onnx/model.onnx"@,
        ) + file_if(self.onnx, "model.onnx"@)
    }

    /// The files that are there, in order of preference.
    pub fn files(&self) -> (r: Vec<String>)
        ensures
            views(r@) == self.paths(),
    {
        let candidates = weight_candidates();
        let mut out: Vec<String> = Vec::new();
        if self.safetensors {
            out.push(candidates[0].to_owned());
        }
        if self.onnx_below {
            out.push(candidates[1].to_owned());
        }
        if self.onnx {
            out.push(candidates[2].to_owned());
        }
        assert(views(out@) =~= self.paths());
        out
    }
}

/// The name under which a resolved model is known.
pub open spec fn model_name(reference: RefView) -> Seq<char> {
    match reference {
        RefView::HuggingFace { repo, .. } => "hf:"@ + repo,
        RefView::Directory(dir) => "dir:"@ + dir,
        RefView::Named(name) => name,
    }
}

/// The revision that a resolved model is pinned to.
pub open spec fn model_revision(reference: RefView) -> Option<Seq<char>> {
    match reference {
        RefView::HuggingFace { revision, .. } => Some(
            match revision {
                Some(revision) => revision,
                None => "main"@,
            },
        ),
        _ => None,
    }
}

/// The locked hash of a previously materialized file, if any.
pub fn locked_hash(lockfile: &ModelLockfile, path: &str) -> (r: Option<String>)
    requires
        lockfile.files.wf(),
    ensures
        opt_view(r) == locked(*lockfile, path@),
{
    match lockfile.files.get(path) {
        Some(file) => Some(file.sha256.clone()),
        None => None,
    }
}

/// Why a model cannot be resolved: its semantics are incomplete, or its repository
/// declares no architecture and no pooling override stands in for that.
pub open spec fn resolve_fault(metadata: RepoMetadata) -> Option<ResolveError> {
    match semantics_fault(metadata) {
        Some(error) => Some(error),
        None => if metadata.config.architectures@.len() == 0 && metadata.manifest.pooling is None {
            Some(ResolveError::NoArchitecture)
        } else {
            None
        },
    }
}

/// The contract says of a model what its repository declares.
pub open spec fn follows_metadata(contract: ModelContract, metadata: RepoMetadata) -> bool {
    &&& pooling_decision(metadata) == Ok::<Pooling, ResolveError>(contract.pooling)
    &&& output_width(metadata) == Some(contract.native_dimensions)
    &&& sequence_length(metadata) == Some(contract.max_sequence_length)
    &&& contract.normalize == normalizes(metadata)
    &&& is_prompt_contract(metadata, contract.prompts)
}

/// Resolves a model by what its repository declares and which weights it has.
pub fn resolve_model(
    reference: &ModelRef,
    metadata: RepoMetadata,
    present: WeightsPresent,
    lockfile: &ModelLockfile,
    local_dir: &str,
) -> (r: Result<ResolvedModel, ResolveError>)
    requires
        lockfile.files.wf(),
    ensures
        match r {
            Err(error) => resolve_fault(metadata) == Some(error),
            Ok(resolved) => {
                let contract = resolved.contract;
                &&& resolve_fault(metadata) is None
                &&& follows_metadata(contract, metadata)
                &&& contract.model@ == model_name(reference@)
                &&& opt_view(contract.revision) == model_revision(reference@)
                &&& opt_view(contract.model_hash) == if present.paths().len() > 0 {
                    locked(*lockfile, present.paths()[0])
                } else {
                    None
                }
                &&& opt_view(contract.tokenizer_hash) == locked(*lockfile, "tokenizer.json"@)
                &&& contract.quantization is None
                &&& resolved.local_dir@ == local_dir@
                &&& views(resolved.weight_files@) == present.paths()
                &&& resolved.architectures == metadata.config.architectures
            },
        },
{
    let semantics = match resolve_semantics(&metadata) {
        Ok(semantics) => semantics,
        Err(error) => {
            return Err(error);
        },
    };
    if metadata.config.architectures.len() == 0 && metadata.manifest.pooling.is_none() {
        return Err(ResolveError::NoArchitecture);
    }
    let weight_files = present.files();
    assert(weight_files@.len() == views(weight_files@).len());
    let model = match reference {
        ModelRef::HuggingFace { repo, revision: _ } => concat("hf:", repo.as_str()),
        ModelRef::Directory(dir) => concat("dir:", dir.as_str()),
        ModelRef::Named(name) => name.clone(),
    };
    let revision = match reference {
        ModelRef::HuggingFace { repo: _, revision } => Some(
            match revision {
                Some(revision) => revision.clone(),
                None => "main".to_owned(),
            },
        ),
        _ => None,
    };
    let model_hash = if weight_files.len() > 0 {
        locked_hash(lockfile, weight_files[0].as_str())
    } else {
        None
    };
    Ok(
        ResolvedModel {
            contract: ModelContract {
                model,
                revision,
                model_hash,
                tokenizer_hash: locked_hash(lockfile, "tokenizer.json"),
                pooling: semantics.pooling,
                normalize: semantics.normalize,
                native_dimensions: semantics.native_dimensions,
                max_sequence_length: semantics.max_sequence_length,
                prompts: semantics.prompts,
                quantization: None,
            },
            local_dir: local_dir.to_owned(),
            weight_files,
            architectures: metadata.config.architectures,
        },
    )
}

/// A name that is safe in a path: every character but letters, numbers, `-`, `_`
/// and `.` becomes a hyphen.
pub open spec fn sanitized(value: Seq<char>) -> Seq<char> {
    value.map_values(
        |c: char|
            if alphanumeric(c) || c == '-' || c == '_' || c == '.' {
                c
            } else {
                '-'
            },
    )
}

fn sanitize(value: &str) -> (r: String)
    ensures
        r@ == sanitized(value@),
{
    let all = chars_of(value);
    let mut out = String::new();
    let mut i: usize = 0;
    while i < all.len()
        invariant
            i <= all@.len(),
            out@ == sanitized(all@.take(i as int)),
        decreases all@.len() - i,
    {
        let c = all[i];
        out.push(
            if is_alphanumeric(c) || c == '-' || c == '_' || c == '.' {
                c
            } else {
                '-'
            },
        );
        i += 1;
        assert(out@ =~= sanitized(all@.take(i as int)));
    }
    assert(all@.take(i as int) =~= value@);
    out
}

/// The directory name of a repository: its slashes as double hyphens, and the
/// revision behind another pair.
pub open spec fn repo_directory(repo: Seq<char>, revision: Option<Seq<char>>) -> Seq<char> {
    let id = crate::replace::replaced(repo, "/"@, "--"@);
    sanitized(
        match revision {
            Some(revision) => id + "--"@ + revision,
            None => id,
        },
    )
}

/// Cache directory for a resolved reference under the model root.
pub fn model_cache_dir(root: &str, reference: &ModelRef) -> (r: String)
    ensures
        r@ == match reference@ {
            RefView::HuggingFace { repo, revision } => path_joined(
                path_joined(root@, "hf"@),
                repo_directory(repo, revision),
            ),
            RefView::Directory(dir) => dir,
            RefView::Named(name) => path_joined(path_joined(root@, "named"@), sanitized(name)),
        },
{
    match reference {
        ModelRef::HuggingFace { repo, revision } => {
            proof {
                reveal_strlit("/");
            }
            let mut id = crate::replace::replace(repo.as_str(), "/", "--");
            if let Some(revision) = revision {
                id.append("--");
                id.append(revision.as_str());
            }
            join_path(join_path(root, "hf").as_str(), sanitize(id.as_str()).as_str())
        },
        ModelRef::Directory(dir) => dir.clone(),
        ModelRef::Named(name) => join_path(
            join_path(root, "named").as_str(),
            sanitize(name.as_str()).as_str(),
        ),
    }
}

/// The model cache root: below the cache home, else below the home directory,
/// else in the working directory.
pub fn default_model_root(cache_home: Option<&str>, home: Option<&str>) -> (r: String)
    ensures
        r@ == match (cache_home, home) {
            (Some(dir), _) => path_joined(path_joined(dir@, "codeindex"@), "models"@),
            (None, Some(home)) => path_joined(
                path_joined(path_joined(home@, ".cache"@), "codeindex"@),
                "models"@,
            ),
            (None, None) => ".codeindex-models"@,
        },
{
    match (cache_home, home) {
        (Some(dir), _) => join_path(join_path(dir, "codeindex").as_str(), "models"),
        (None, Some(home)) => join_path(
            join_path(join_path(home, ".cache").as_str(), "codeindex").as_str(),
            "models",
        ),
        (None, None) => ".codeindex-models".to_owned(),
    }
}

/// Without an override a repository that declares one pooling mode has the pooling of
/// that name, and one that declares none has no pooling. Of several modes the last token
/// comes before the class token, and that before the mean.
pub proof fn the_declared_pooling_is_used(metadata: RepoMetadata)
    requires
        metadata.manifest.pooling is None,
    ensures
        ({
            let (mean, class, last) = (
                metadata.pooling.pooling_mode_mean_tokens,
                metadata.pooling.pooling_mode_cls_token,
                metadata.pooling.pooling_mode_lasttoken,
            );
            &&& pooling_decision(metadata) == Ok::<Pooling, ResolveError>(Pooling::Mean) <==> mean
                && !class && !last
            &&& pooling_decision(metadata) == Ok::<Pooling, ResolveError>(Pooling::Cls) <==> class
                && !last
            &&& pooling_decision(metadata) == Ok::<Pooling, ResolveError>(Pooling::LastToken)
                <==> last
            &&& pooling_decision(metadata) == Err::<Pooling, ResolveError>(ResolveError::NoPooling)
                <==> !mean && !class && !last
        }),
{
}

/// An override names its pooling, whatever the repository declares; a name that is none
/// is refused.
pub proof fn an_override_names_its_pooling(metadata: RepoMetadata, name: String)
    requires
        metadata.manifest.pooling == Some(name),
    ensures
        name@ == "mean"@ ==> pooling_decision(metadata) == Ok::<Pooling, ResolveError>(
            Pooling::Mean,
        ),
        name@ == "cls"@ ==> pooling_decision(metadata) == Ok::<Pooling, ResolveError>(Pooling::Cls),
        name@ == "last_token"@ ==> pooling_decision(metadata) == Ok::<Pooling, ResolveError>(
            Pooling::LastToken,
        ),
        name@ == "model_defined"@ ==> pooling_decision(metadata) == Ok::<Pooling, ResolveError>(
            Pooling::ModelDefined,
        ),
        name@ != "mean"@ && name@ != "cls"@ && name@ != "last_token"@ && name@ != "model_defined"@
            ==> pooling_decision(metadata) == Err::<Pooling, ResolveError>(
            ResolveError::UnknownPooling,
        ),
{
    assert(Pooling::Mean.token() == "mean"@);
    assert(Pooling::Cls.token() == "cls"@);
    assert(Pooling::LastToken.token() == "last_token"@);
    assert(Pooling::ModelDefined.token() == "model_defined"@);
    let found = choose|pooling: Pooling| #[trigger] pooling.token() == name@;
    pooling_names_differ(found, Pooling::Mean);
    pooling_names_differ(found, Pooling::Cls);
    pooling_names_differ(found, Pooling::LastToken);
    pooling_names_differ(found, Pooling::ModelDefined);
    match found {
        Pooling::Mean => {},
        Pooling::Cls => {},
        Pooling::LastToken => {},
        Pooling::ModelDefined => {},
    }
    assert forall|pooling: Pooling| #[trigger] pooling.token() == name@ implies name@ == "mean"@
        || name@ == "cls"@ || name@ == "last_token"@ || name@ == "model_defined"@ by {
        match pooling {
            Pooling::Mean => {},
            Pooling::Cls => {},
            Pooling::LastToken => {},
            Pooling::ModelDefined => {},
        }
    }
}

/// Without an override no input is longer than the tokenizer or the position embeddings
/// take, and it is as long as one of them takes; a limit that is below one or beyond ten
/// million says nothing. An override is taken as it is.
pub proof fn inputs_fit_what_is_declared(metadata: RepoMetadata)
    requires
        metadata.model_max_length matches Some(limit) ==> limit.floor <= limit.ceil,
    ensures
        metadata.manifest.max_sequence_length matches Some(length) ==> sequence_length(metadata)
            == Some(length),
        metadata.manifest.max_sequence_length is None ==> {
            let positions = metadata.config.max_position_embeddings;
            let limit = metadata.model_max_length;
            let limited = limit is Some && limit->0.floor >= 1 && limit->0.ceil <= 10_000_000;
            match sequence_length(metadata) {
                Some(length) => {
                    &&& positions matches Some(most) ==> length <= most
                    &&& limited ==> length <= limit->0.floor
                    &&& positions == Some(length) || (limited && length == limit->0.floor)
                },
                None => positions is None && !limited,
            }
        },
{
}

/// The width is the override's, else the pooling module's, else the hidden size.
pub proof fn the_nearest_width_is_used(metadata: RepoMetadata)
    ensures
        metadata.manifest.native_dimensions is Some ==> output_width(metadata)
            == metadata.manifest.native_dimensions,
        metadata.manifest.native_dimensions is None
            && metadata.pooling.word_embedding_dimension is Some ==> output_width(metadata)
            == metadata.pooling.word_embedding_dimension,
        metadata.manifest.native_dimensions is None
            && metadata.pooling.word_embedding_dimension is None ==> output_width(metadata)
            == metadata.config.hidden_size,
{
}

/// The module that is found is the first whose type ends as asked for.
pub proof fn the_first_module_is_found(modules: Seq<ModuleEntry>, suffix: Seq<char>)
    ensures
        0 <= module_position(modules, suffix) <= modules.len(),
        module_position(modules, suffix) < modules.len() ==> suffix.is_suffix_of(
            modules[module_position(modules, suffix)].module_type@,
        ),
        forall|i: int|
            0 <= i < module_position(modules, suffix) ==> !suffix.is_suffix_of(
                (#[trigger] modules[i]).module_type@,
            ),
    decreases modules.len(),
{
    if modules.len() > 0 && !suffix.is_suffix_of(modules[0].module_type@) {
        let rest = modules.drop_first();
        the_first_module_is_found(rest, suffix);
        assert forall|i: int| 0 <= i < module_position(modules, suffix) implies !suffix.is_suffix_of(
            (#[trigger] modules[i]).module_type@,
        ) by {
            if i > 0 {
                assert(rest[i - 1] == modules[i]);
            }
        }
    }
}

/// Vectors are normalized where the override says so, and without an override exactly
/// where some module normalizes.
pub proof fn normalizing_is_declared(metadata: RepoMetadata)
    ensures
        metadata.manifest.normalize matches Some(said) ==> normalizes(metadata) == said,
        metadata.manifest.normalize is None ==> normalizes(metadata) == (metadata.modules is Some
            && exists|i: int|
            0 <= i < metadata.modules->0@.len() && "Normalize"@.is_suffix_of(
                (#[trigger] metadata.modules->0@[i]).module_type@,
            )),
{
    if let Some(modules) = metadata.modules {
        the_first_module_is_found(modules@, "Normalize"@);
        let at = module_position(modules@, "Normalize"@);
        if at < modules@.len() {
            assert("Normalize"@.is_suffix_of(modules@[at].module_type@));
        }
    }
}

/// Prefixes that an override gives are used as they are. Without them a shipped query
/// prompt `Instruct: <task>\nQuery:` keeps its task as the default instruction, other
/// shipped prompts are used as they are, and a model without prompts takes both sides
/// alike.
pub proof fn shipped_prompts_are_kept(
    metadata: RepoMetadata,
    prompts: PromptContract,
    task: Seq<char>,
)
    requires
        is_prompt_contract(metadata, prompts),
    ensures
        metadata.manifest.query_prefix matches Some(prefix) ==> (
        prompts matches PromptContract::RolePrefixes { query, .. } && query@ == prefix@),
        metadata.manifest.document_prefix matches Some(prefix) ==> (
        prompts matches PromptContract::RolePrefixes { document, .. } && document@ == prefix@),
        metadata.manifest.query_prefix is None && metadata.manifest.document_prefix is None ==> {
            &&& metadata.query_prompt is None && metadata.document_prompt is None ==> prompts
                == PromptContract::Symmetric
            &&& metadata.document_prompt is None && (metadata.query_prompt matches Some(text)
                && text@ == "Instruct: "@ + task + "\nQuery:"@) ==> (
            prompts matches PromptContract::QueryInstruction { default_instruction, .. } && (
            default_instruction matches Some(instruction) && instruction@ == task))
            &&& metadata.document_prompt is Some && metadata.document_prompt->0@.len() > 0 ==> (
            prompts matches PromptContract::RolePrefixes { query, document } && document@
                == metadata.document_prompt->0@ && query@ == (match metadata.query_prompt {
                Some(asked) => asked@,
                None => Seq::empty(),
            }))
        },
{
    let (head, tail) = ("Instruct: "@, "\nQuery:"@);
    if let Some(text) = metadata.query_prompt {
        if text@ == head + task + tail {
            reveal_strlit("Instruct: ");
            assert(head =~= text@.take(head.len() as int));
            let rest = text@.skip(head.len() as int);
            assert(rest =~= task + tail);
            assert(tail =~= rest.skip(task.len() as int));
            assert(rest.take(text@.len() - head.len() - tail.len()) =~= task);
        }
    }
}

/// A contract says of a model what its repository declares: how it pools, how wide its
/// vectors are and whether they are normalized, and how long its inputs are.
pub proof fn a_resolved_model_keeps_its_declarations(contract: ModelContract, metadata: RepoMetadata)
    requires
        follows_metadata(contract, metadata),
        metadata.manifest.pooling is None,
    ensures
        contract.pooling == Pooling::Mean ==> metadata.pooling.pooling_mode_mean_tokens,
        contract.pooling == Pooling::Cls ==> metadata.pooling.pooling_mode_cls_token,
        contract.pooling == Pooling::LastToken ==> metadata.pooling.pooling_mode_lasttoken,
        contract.pooling != Pooling::ModelDefined,
        metadata.manifest.native_dimensions matches Some(width) ==> contract.native_dimensions
            == width,
        metadata.manifest.max_sequence_length matches Some(length)
            ==> contract.max_sequence_length == length,
        metadata.manifest.normalize matches Some(said) ==> contract.normalize == said,
{
}

/// A model that lacks its pooling, its width or its length cannot be resolved, and one
/// that has all three and an architecture can.
pub proof fn incomplete_models_are_refused(metadata: RepoMetadata)
    requires
        metadata.manifest.pooling is None,
    ensures
        resolve_fault(metadata) is None <==> {
            &&& metadata.pooling.pooling_mode_mean_tokens
                || metadata.pooling.pooling_mode_cls_token
                || metadata.pooling.pooling_mode_lasttoken
            &&& output_width(metadata) is Some
            &&& sequence_length(metadata) is Some
            &&& metadata.config.architectures@.len() > 0
        },
{
}

/// A text with a scheme is what its scheme says: `hf:owner/name@revision` a revision of a
/// repository, `dir:` a directory and `fastembed:` a name.
pub proof fn schemes_say_what_a_reference_is(
    value: Seq<char>,
    owner: Seq<char>,
    name: Seq<char>,
    revision: Seq<char>,
)
    requires
        trimmed(value) == value,
        owner.len() > 0 && !owner.contains('/') && !owner.contains('@'),
        name.len() > 0 && !name.contains('/') && !name.contains('@'),
    ensures
        value == "hf:"@ + owner + "/"@ + name + "@"@ + revision ==> reference(value) == Some(
            RefView::HuggingFace { repo: owner + "/"@ + name, revision: Some(revision) },
        ),
        value == "hf:"@ + owner + "/"@ + name ==> reference(value) == Some(
            RefView::HuggingFace { repo: owner + "/"@ + name, revision: None },
        ),
        value == "dir:"@ + revision ==> reference(value) == Some(RefView::Directory(revision)),
        value == "fastembed:"@ + revision ==> reference(value) == Some(RefView::Named(revision)),
{
    reveal_strlit("hf:");
    reveal_strlit("dir:");
    reveal_strlit("fastembed:");
    reveal_strlit("/");
    reveal_strlit("@");
    assert("@"@ =~= seq!['@']);
    let repo = owner + "/"@ + name;
    is_a_repo(owner, name);
    assert(!repo.contains('@')) by {
        assert forall|i: int| 0 <= i < repo.len() implies repo[i] != '@' by {
            if i < owner.len() {
                assert(repo[i] == owner[i]);
            } else if i > owner.len() {
                assert(repo[i] == name[i - owner.len() - 1]);
            }
        }
    }
    if value == "hf:"@ + owner + "/"@ + name + "@"@ + revision {
        let rest = value.skip(3);
        assert("hf:"@ =~= value.take(3));
        assert(rest =~= repo + seq!['@'] + revision);
        crate::text::a_cut_is_at_the_first_place(rest, '@');
        assert(rest[repo.len() as int] == '@');
        assert(rest.contains('@'));
        let (before, after) = cut_once(rest, '@')->0;
        crate::text::a_text_is_cut_in_one_way(rest, '@', repo, revision, before, after);
    }
    if value == "hf:"@ + owner + "/"@ + name {
        let rest = value.skip(3);
        assert("hf:"@ =~= value.take(3));
        assert(rest =~= repo);
        crate::text::a_cut_is_at_the_first_place(rest, '@');
        if cut_once(rest, '@') is Some {
            let (before, after) = cut_once(rest, '@')->0;
            assert(rest[before.len() as int] == '@');
        }
    }
    if value == "dir:"@ + revision {
        assert("dir:"@ =~= value.take(4));
        assert(value.skip(4) =~= revision);
        assert(value[0] == 'd');
        assert(!"hf:"@.is_prefix_of(value)) by {
            if "hf:"@.is_prefix_of(value) {
                assert("hf:"@[0] == value[0]);
            }
        }
    }
    if value == "fastembed:"@ + revision {
        assert("fastembed:"@ =~= value.take(10));
        assert(value.skip(10) =~= revision);
        assert(value[0] == 'f');
        assert(!"hf:"@.is_prefix_of(value)) by {
            if "hf:"@.is_prefix_of(value) {
                assert("hf:"@[0] == value[0]);
            }
        }
        assert(!"dir:"@.is_prefix_of(value)) by {
            if "dir:"@.is_prefix_of(value) {
                assert("dir:"@[0] == value[0]);
            }
        }
    }
}

proof fn is_a_repo(owner: Seq<char>, name: Seq<char>)
    requires
        owner.len() > 0 && !owner.contains('/'),
        name.len() > 0 && !name.contains('/'),
    ensures
        is_repo(owner + "/"@ + name),
{
    reveal_strlit("/");
    let repo = owner + "/"@ + name;
    one_slash_splits_in_two(owner, name);
    assert(repo[0] == owner[0]);
    assert(repo[repo.len() - 1] == name[name.len() - 1]);
    if "/"@.is_prefix_of(repo) {
        assert("/"@[0] == repo[0]);
    }
    if "/"@.is_suffix_of(repo) {
        assert("/"@ =~= repo.skip(repo.len() - 1));
        assert("/"@[0] == repo.skip(repo.len() - 1)[0]);
    }
}

proof fn one_slash_splits_in_two(owner: Seq<char>, name: Seq<char>)
    requires
        !owner.contains('/'),
        !name.contains('/'),
    ensures
        split(owner + "/"@ + name, '/').len() == 2,
    decreases name.len(),
{
    reveal_strlit("/");
    let repo = owner + "/"@ + name;
    if name.len() > 0 {
        let front = name.drop_last();
        assert(!front.contains('/')) by {
            assert forall|i: int| 0 <= i < front.len() implies front[i] != '/' by {
                assert(front[i] == name[i]);
            }
        }
        one_slash_splits_in_two(owner, front);
        assert(repo.drop_last() =~= owner + "/"@ + front);
        assert(repo.last() == name[name.len() - 1]);
    } else {
        assert(repo.drop_last() =~= owner);
        assert(repo.last() == '/');
        no_slash_splits_in_one(owner);
    }
}

proof fn no_slash_splits_in_one(text: Seq<char>)
    requires
        !text.contains('/'),
    ensures
        split(text, '/').len() == 1,
    decreases text.len(),
{
    if text.len() > 0 {
        let front = text.drop_last();
        assert forall|i: int| 0 <= i < front.len() implies front[i] != '/' by {
            assert(front[i] == text[i]);
        }
        no_slash_splits_in_one(front);
        assert(text.last() == text[text.len() - 1]);
    }
}

/// A header names every member that is a tensor, and the declared data reaches to the end
/// of every tensor and no further than the furthest.
pub proof fn a_header_tells_of_every_tensor(members: Seq<(String, Json)>, name: Seq<char>)
    ensures
        tensor_names(members).contains(name) == (name != "__metadata__"@ && exists|i: int|
            0 <= i < members.len() && (#[trigger] members[i]).0@ == name),
        forall|i: int|
            0 <= i < members.len() && (#[trigger] members[i]).0@ != "__metadata__"@ ==> tensor_end(
                members[i].1,
            ) <= data_end(members),
        data_end(members) == 0 || exists|i: int|
            0 <= i < members.len() && (#[trigger] members[i]).0@ != "__metadata__"@ && tensor_end(
                members[i].1,
            ) == data_end(members),
    decreases members.len(),
{
    if members.len() > 0 {
        let front = members.drop_last();
        let last = members.last();
        a_header_tells_of_every_tensor(front, name);
        let before = tensor_names(front);
        let after = tensor_names(members);
        assert(members[members.len() - 1] == last);
        if exists|i: int| 0 <= i < front.len() && (#[trigger] front[i]).0@ == name {
            let i = choose|i: int| 0 <= i < front.len() && (#[trigger] front[i]).0@ == name;
            assert(members[i].0@ == name);
        }
        if exists|i: int| 0 <= i < members.len() && (#[trigger] members[i]).0@ == name {
            let i = choose|i: int| 0 <= i < members.len() && (#[trigger] members[i]).0@ == name;
            if i < front.len() {
                assert(front[i].0@ == name);
            }
        }
        if before.contains(name) {
            let i = choose|i: int| 0 <= i < before.len() && before[i] == name;
            assert(after[i] == name);
        }
        if is_tensor(last.0@) && last.0@ == name {
            assert(after[after.len() - 1] == name);
        }
        if after.contains(name) && !before.contains(name) {
            let i = choose|i: int| 0 <= i < after.len() && after[i] == name;
            if i < before.len() {
                assert(before[i] == name);
            }
        }
        assert forall|i: int|
            0 <= i < members.len() && (#[trigger] members[i]).0@
                != "__metadata__"@ implies tensor_end(members[i].1) <= data_end(members) by {
            if i < front.len() {
                assert(front[i] == members[i]);
            }
        }
        if data_end(members) != 0 && data_end(members) == data_end(front) {
            let i = choose|i: int|
                0 <= i < front.len() && (#[trigger] front[i]).0@ != "__metadata__"@ && tensor_end(
                    front[i].1,
                ) == data_end(front);
            assert(members[i] == front[i]);
        }
    }
}

/// A weight file is used exactly where it is there, and safetensors come before ONNX.
pub proof fn weights_come_in_order_of_preference(present: WeightsPresent)
    ensures
        present.paths().contains("model.safetensors"@) == present.safetensors,
        present.paths().contains("onnx/model.onnx"@) == present.onnx_below,
        present.paths().contains("model.onnx"@) == present.onnx,
        present.safetensors ==> present.paths()[0] == "model.safetensors"@,
        !present.safetensors && present.onnx_below ==> present.paths()[0] == "onnx/model.onnx"@,
        !present.safetensors && !present.onnx_below && present.onnx ==> present.paths()[0]
            == "model.onnx"@,
{
    reveal_strlit("model.safetensors");
    reveal_strlit("onnx/model.onnx");
    reveal_strlit("model.onnx");
    assert("model.safetensors"@.len() == 17 && "onnx/model.onnx"@.len() == 15
        && "model.onnx"@.len() == 10);
    let paths = present.paths();
    if present.safetensors {
        assert(paths[0] == "model.safetensors"@);
    }
    let first = file_if(present.safetensors, "model.safetensors"@).len() as int;
    if present.onnx_below {
        assert(paths[first] == "onnx/model.onnx"@);
    }
    if present.onnx {
        assert(paths[paths.len() - 1] == "model.onnx"@);
    }
}

/// A file that is taken is what was cached or fetched, and it is fresh only where it was
/// fetched. A fetch that fails, or finds nothing, locks nothing.
pub proof fn a_fetched_file_is_taken_as_given(
    before: ModelLockfile,
    path: Seq<char>,
    given: Result<Option<Vec<u8>>, String>,
    r: Result<Option<FetchedFile>, FetchError>,
    after: ModelLockfile,
)
    requires
        taken_from(before, path, given, r, after),
    ensures
        r matches Ok(Some(file)) ==> file.fresh && given == Ok::<Option<Vec<u8>>, String>(
            Some(file.bytes),
        ) && locked(after, path) == Some(bytes_hash(file.bytes@)),
        given is Err ==> r is Err && after.files@ == before.files@,
        given matches Ok(None) ==> r == Ok::<Option<FetchedFile>, FetchError>(None) && after.files@
            == before.files@,
        given matches Ok(Some(bytes)) ==> (r is Err <==> locked(before, path) is Some && locked(
            before,
            path,
        ) != Some(bytes_hash(bytes@))),
{
}

/// What is cached is taken without asking the fetcher.
pub proof fn what_is_cached_is_not_fetched<F: RepoFetcher + ?Sized>(
    fetcher: &F,
    bytes: Vec<u8>,
    before: ModelLockfile,
    path: &str,
    r: Result<Option<FetchedFile>, FetchError>,
    after: ModelLockfile,
)
    requires
        obtained(fetcher, Some(bytes), before, path, r, after),
    ensures
        r matches Ok(file) ==> file == Some(FetchedFile { bytes, fresh: false }),
        r is Err <==> locked(before, path@) is Some && locked(before, path@) != Some(
            bytes_hash(bytes@),
        ),
{
}

/// A model is whole when each of its files is there, in the order in which they are asked
/// for; the first that is missing ends it.
pub proof fn a_whole_model_has_every_file<F: RepoFetcher + ?Sized>(
    fetcher: &F,
    cached: Seq<Option<Vec<u8>>>,
    paths: Seq<&str>,
    states: Seq<ModelLockfile>,
    files: Seq<FetchedFile>,
    r: Result<Vec<FetchedFile>, FetchError>,
    after: ModelLockfile,
)
    requires
        materialized(fetcher, cached, paths, states, files, r, after),
    ensures
        r matches Ok(found) ==> found@.len() == paths.len() && after == states.last(),
        r is Err ==> files.len() < paths.len(),
        r matches Err(FetchError::Missing(path)) ==> path@ == paths[files.len() as int]@,
        forall|i: int|
            0 <= i < files.len() && cached[i] is Some ==> (#[trigger] files[i]).bytes
                == cached[i]->0 && !files[i].fresh,
{
    assert forall|i: int| 0 <= i < files.len() && cached[i] is Some implies (#[trigger] files[i]).bytes
        == cached[i]->0 && !files[i].fresh by {
        assert(obtained(
            fetcher,
            cached[i],
            states[i],
            paths[i],
            Ok::<Option<FetchedFile>, FetchError>(Some(files[i])),
            states[i + 1],
        ));
    }
}

/// Every kind of number that a tensor is made of is told of once.
pub proof fn kinds_of_numbers_are_told_once(members: Seq<(String, Json)>, k: int)
    requires
        0 <= k < members.len(),
    ensures
        members[k].0@ != "__metadata__"@ && tensor_dtype(members[k].1) is Some ==> tensor_dtypes(
            members,
        ).contains(tensor_dtype(members[k].1)->0),
        forall|i: int, j: int|
            0 <= i < j < tensor_dtypes(members).len() ==> #[trigger] tensor_dtypes(members)[i]
                != #[trigger] tensor_dtypes(members)[j],
    decreases members.len(),
{
    let front = members.drop_last();
    let (before, after) = (tensor_dtypes(front), tensor_dtypes(members));
    if front.len() > 0 {
        kinds_of_numbers_are_told_once(
            front,
            if k < front.len() {
                k
            } else {
                0
            },
        );
    } else {
        assert(before.len() == 0);
    }
    assert forall|i: int, j: int| 0 <= i < j < after.len() implies #[trigger] after[i]
        != #[trigger] after[j] by {
        if j < before.len() {
            assert(before[i] != before[j]);
        } else if after[i] == after[j] {
            assert(before[i] == after[j]);
        }
    }
    if members[k].0@ != "__metadata__"@ && tensor_dtype(members[k].1) is Some {
        let dtype = tensor_dtype(members[k].1)->0;
        if k < front.len() {
            assert(front[k] == members[k]);
        }
        if before.contains(dtype) {
            let i = choose|i: int| 0 <= i < before.len() && before[i] == dtype;
            assert(after[i] == dtype);
        } else {
            assert(after[after.len() - 1] == dtype);
        }
    }
}

/// A header is read only where it is declared, is not beyond measure and is all there; what
/// it tells is then what it holds behind its declaration.
pub proof fn only_a_whole_header_is_read(
    prefix: Result<Option<Vec<u8>>, String>,
    length: usize,
    full: Result<Option<Vec<u8>>, String>,
    r: Result<Option<SafetensorsPreflight>, PreflightError>,
)
    requires
        header_read(length, full, r),
    ensures
        readable_header(prefix) matches Some(declared) ==> prefix is Ok && prefix->Ok_0 is Some
            && prefix->Ok_0->0@.len() >= 8 && declared <= HEADER_CAP,
        !(r matches Ok(None)),
        r is Ok ==> full is Ok && full->Ok_0 is Some && full->Ok_0->0@.len() >= 8 + length,
        r matches Ok(Some(preflight)) ==> (json_document(full->Ok_0->0@.skip(8)) matches Some(
            Json::Object(members),
        ) ==> views(preflight.tensor_names@) == tensor_names(members@)),
        full is Ok && full->Ok_0 is Some && full->Ok_0->0@.len() < 8 + length ==> r is Err
            && r->Err_0 is Truncated,
{
}

/// A model is named as it is referred to, and where a repository's revision is not named it
/// is the main one.
pub proof fn models_are_named_as_referred_to(a: RefView, b: RefView)
    ensures
        (a is HuggingFace && b is HuggingFace || a is Directory && b is Directory || a is Named
            && b is Named) && model_name(a) == model_name(b) && model_revision(a) == model_revision(
            b,
        ) ==> match (a, b) {
            (
                RefView::HuggingFace { repo: r, revision: v },
                RefView::HuggingFace { repo: s, revision: w },
            ) => r == s && (v is Some && w is Some ==> v == w),
            _ => a == b,
        },
        a matches RefView::HuggingFace { repo, revision } ==> (match revision {
            Some(revision) => model_revision(a) == Some(revision),
            None => model_revision(a) == Some("main"@),
        }),
        !(a is HuggingFace) ==> model_revision(a) is None,
{
    let (hf, dir) = ("hf:"@, "dir:"@);
    match (a, b) {
        (
            RefView::HuggingFace { repo: r, revision: v },
            RefView::HuggingFace { repo: s, revision: w },
        ) => {
            assert(model_name(a).skip(hf.len() as int) =~= r);
            assert(model_name(b).skip(hf.len() as int) =~= s);
        },
        (RefView::Directory(r), RefView::Directory(s)) => {
            assert(model_name(a).skip(dir.len() as int) =~= r);
            assert(model_name(b).skip(dir.len() as int) =~= s);
        },
        _ => {},
    }
}

/// A name that is made fit for a directory has the length that it had, and keeps its letters,
/// its digits, dashes, underscores and dots; everything else is a dash.
pub proof fn fit_names_keep_their_letters(value: Seq<char>, i: int)
    requires
        0 <= i < value.len(),
    ensures
        sanitized(value).len() == value.len(),
        alphanumeric(value[i]) || value[i] == '-' || value[i] == '_' || value[i] == '.'
            ==> sanitized(value)[i] == value[i],
        !(alphanumeric(value[i]) || value[i] == '-' || value[i] == '_' || value[i] == '.')
            ==> sanitized(value)[i] == '-',
{
}

/// The weights take the room of their declaration, of their header and of their data, and
/// what goes beyond all measure is held to the greatest number.
pub proof fn weights_take_the_room_of_their_parts(header_len: int, end: int, more: int)
    requires
        0 <= header_len && 0 <= end && 0 <= more,
    ensures
        8 + header_len + end <= u64::MAX ==> total_size(header_len, end) - header_len - end == 8,
        total_size(header_len, end) <= u64::MAX,
        total_size(header_len, end) <= total_size(header_len, end + more),
{
}

/// A tensor's data ends at the second of its offsets, and nowhere where it has none.
pub proof fn a_tensor_ends_at_its_second_offset(entry: Json, offsets: Vec<Json>, end: u64)
    requires
        entry.field("data_offsets"@) == Some(Json::List(offsets)),
    ensures
        offsets@.len() >= 2 && offsets@[1] == Json::Whole(end) ==> tensor_end(entry) == end,
        offsets@.len() < 2 ==> tensor_end(entry) == 0,
{
}

} // verus!
