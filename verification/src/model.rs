//! The vocabulary shared by every part of the index: identifiers, entity and
//! representation kinds, extracted entities and embedding spaces.
use crate::text::{opt_view, same, same_opt};
use vstd::prelude::*;

verus! {

/// Language identifier independent of any parser implementation.
#[derive(Debug, PartialEq, Eq, PartialOrd, Ord, Hash)]
pub struct LanguageId(String);

impl View for LanguageId {
    type V = Seq<char>;

    closed spec fn view(&self) -> Seq<char> {
        self.0@
    }
}

impl LanguageId {
    pub fn new(value: &str) -> (r: Self)
        ensures
            r@ == value@,
    {
        Self(value.to_owned())
    }

    pub fn as_str(&self) -> (r: &str)
        ensures
            r@ == self@,
    {
        self.0.as_str()
    }

    pub fn into_inner(self) -> (r: String)
        ensures
            r@ == self@,
    {
        self.0
    }
}

impl Clone for LanguageId {
    fn clone(&self) -> (r: Self)
        ensures
            r == *self,
    {
        Self(self.0.clone())
    }
}

impl From<&str> for LanguageId {
    fn from(value: &str) -> (r: Self)
        ensures
            r@ == value@,
    {
        Self::new(value)
    }
}

impl vstd::std_specs::convert::FromSpecImpl<&str> for LanguageId {
    open spec fn obeys_from_spec() -> bool {
        false
    }

    open spec fn from_spec(value: &str) -> Self {
        choose|r: Self| r@ == value@
    }
}

impl From<String> for LanguageId {
    fn from(value: String) -> (r: Self)
        ensures
            r@ == value@,
    {
        Self(value)
    }
}

impl vstd::std_specs::convert::FromSpecImpl<String> for LanguageId {
    open spec fn obeys_from_spec() -> bool {
        true
    }

    closed spec fn from_spec(value: String) -> Self {
        Self(value)
    }
}

/// Logical identity for a source entity across index generations.
#[derive(Debug, PartialEq, Eq, PartialOrd, Ord, Hash)]
pub struct EntityId(String);

impl View for EntityId {
    type V = Seq<char>;

    closed spec fn view(&self) -> Seq<char> {
        self.0@
    }
}

impl EntityId {
    pub fn new(value: &str) -> (r: Self)
        ensures
            r@ == value@,
    {
        Self(value.to_owned())
    }

    pub fn as_str(&self) -> (r: &str)
        ensures
            r@ == self@,
    {
        self.0.as_str()
    }

    pub fn into_inner(self) -> (r: String)
        ensures
            r@ == self@,
    {
        self.0
    }
}

impl Clone for EntityId {
    fn clone(&self) -> (r: Self)
        ensures
            r == *self,
    {
        Self(self.0.clone())
    }
}

impl From<&str> for EntityId {
    fn from(value: &str) -> (r: Self)
        ensures
            r@ == value@,
    {
        Self::new(value)
    }
}

impl vstd::std_specs::convert::FromSpecImpl<&str> for EntityId {
    open spec fn obeys_from_spec() -> bool {
        false
    }

    open spec fn from_spec(value: &str) -> Self {
        choose|r: Self| r@ == value@
    }
}

impl From<String> for EntityId {
    fn from(value: String) -> (r: Self)
        ensures
            r@ == value@,
    {
        Self(value)
    }
}

impl vstd::std_specs::convert::FromSpecImpl<String> for EntityId {
    open spec fn obeys_from_spec() -> bool {
        true
    }

    closed spec fn from_spec(value: String) -> Self {
        Self(value)
    }
}

/// Exact identity for one indexed version of a logical entity.
#[derive(Debug, PartialEq, Eq, PartialOrd, Ord, Hash)]
pub struct EntityVersionId(String);

impl View for EntityVersionId {
    type V = Seq<char>;

    closed spec fn view(&self) -> Seq<char> {
        self.0@
    }
}

impl EntityVersionId {
    pub fn new(value: &str) -> (r: Self)
        ensures
            r@ == value@,
    {
        Self(value.to_owned())
    }

    pub fn as_str(&self) -> (r: &str)
        ensures
            r@ == self@,
    {
        self.0.as_str()
    }

    pub fn into_inner(self) -> (r: String)
        ensures
            r@ == self@,
    {
        self.0
    }
}

impl Clone for EntityVersionId {
    fn clone(&self) -> (r: Self)
        ensures
            r == *self,
    {
        Self(self.0.clone())
    }
}

impl From<&str> for EntityVersionId {
    fn from(value: &str) -> (r: Self)
        ensures
            r@ == value@,
    {
        Self::new(value)
    }
}

impl vstd::std_specs::convert::FromSpecImpl<&str> for EntityVersionId {
    open spec fn obeys_from_spec() -> bool {
        false
    }

    open spec fn from_spec(value: &str) -> Self {
        choose|r: Self| r@ == value@
    }
}

impl From<String> for EntityVersionId {
    fn from(value: String) -> (r: Self)
        ensures
            r@ == value@,
    {
        Self(value)
    }
}

impl vstd::std_specs::convert::FromSpecImpl<String> for EntityVersionId {
    open spec fn obeys_from_spec() -> bool {
        true
    }

    closed spec fn from_spec(value: String) -> Self {
        Self(value)
    }
}

/// Stable identifier for one independently queryable embedding space.
///
/// A space binds one representation channel to one exact model identity and an
/// input transform. An existing id cannot silently change meaning.
#[derive(Debug, PartialEq, Eq, PartialOrd, Ord, Hash)]
pub struct EmbeddingSpaceId(String);

impl View for EmbeddingSpaceId {
    type V = Seq<char>;

    closed spec fn view(&self) -> Seq<char> {
        self.0@
    }
}

impl EmbeddingSpaceId {
    pub fn new(value: &str) -> (r: Self)
        ensures
            r@ == value@,
    {
        Self(value.to_owned())
    }

    pub fn as_str(&self) -> (r: &str)
        ensures
            r@ == self@,
    {
        self.0.as_str()
    }

    pub fn into_inner(self) -> (r: String)
        ensures
            r@ == self@,
    {
        self.0
    }
}

impl Clone for EmbeddingSpaceId {
    fn clone(&self) -> (r: Self)
        ensures
            r == *self,
    {
        Self(self.0.clone())
    }
}

impl From<&str> for EmbeddingSpaceId {
    fn from(value: &str) -> (r: Self)
        ensures
            r@ == value@,
    {
        Self::new(value)
    }
}

impl vstd::std_specs::convert::FromSpecImpl<&str> for EmbeddingSpaceId {
    open spec fn obeys_from_spec() -> bool {
        false
    }

    open spec fn from_spec(value: &str) -> Self {
        choose|r: Self| r@ == value@
    }
}

impl From<String> for EmbeddingSpaceId {
    fn from(value: String) -> (r: Self)
        ensures
            r@ == value@,
    {
        Self(value)
    }
}

impl vstd::std_specs::convert::FromSpecImpl<String> for EmbeddingSpaceId {
    open spec fn obeys_from_spec() -> bool {
        true
    }

    closed spec fn from_spec(value: String) -> Self {
        Self(value)
    }
}

/// Cross-language entity kind. Unknown frontend-specific kinds remain lossless.
#[derive(Debug, PartialEq, Eq, PartialOrd, Ord, Hash)]
#[non_exhaustive]
pub enum EntityKind {
    Module,
    Namespace,
    Type,
    Trait,
    Interface,
    Function,
    Method,
    Constructor,
    Closure,
    Constant,
    Static,
    Macro,
    Field,
    Test,
    Example,
    Other(String),
}

/// The tokens of the kinds that every language shares.
pub open spec fn is_entity_token(token: Seq<char>) -> bool {
    ||| token == "module"@
    ||| token == "namespace"@
    ||| token == "type"@
    ||| token == "trait"@
    ||| token == "interface"@
    ||| token == "function"@
    ||| token == "method"@
    ||| token == "constructor"@
    ||| token == "closure"@
    ||| token == "constant"@
    ||| token == "static"@
    ||| token == "macro"@
    ||| token == "field"@
    ||| token == "test"@
    ||| token == "example"@
}

impl View for EntityKind {
    type V = Seq<char>;

    open spec fn view(&self) -> Seq<char> {
        match self {
            Self::Module => "module"@,
            Self::Namespace => "namespace"@,
            Self::Type => "type"@,
            Self::Trait => "trait"@,
            Self::Interface => "interface"@,
            Self::Function => "function"@,
            Self::Method => "method"@,
            Self::Constructor => "constructor"@,
            Self::Closure => "closure"@,
            Self::Constant => "constant"@,
            Self::Static => "static"@,
            Self::Macro => "macro"@,
            Self::Field => "field"@,
            Self::Test => "test"@,
            Self::Example => "example"@,
            Self::Other(value) => value@,
        }
    }
}

impl EntityKind {
    /// The canonical persisted token.
    pub fn as_str(&self) -> (r: &str)
        ensures
            r@ == self@,
    {
        match self {
            Self::Module => "module",
            Self::Namespace => "namespace",
            Self::Type => "type",
            Self::Trait => "trait",
            Self::Interface => "interface",
            Self::Function => "function",
            Self::Method => "method",
            Self::Constructor => "constructor",
            Self::Closure => "closure",
            Self::Constant => "constant",
            Self::Static => "static",
            Self::Macro => "macro",
            Self::Field => "field",
            Self::Test => "test",
            Self::Example => "example",
            Self::Other(value) => value.as_str(),
        }
    }

    /// What reading `token` gives: the token is kept, and only a token that is
    /// not a standard one is kept as free text.
    pub open spec fn reads_as(&self, token: Seq<char>) -> bool {
        self@ == token && (self is Other <==> !is_entity_token(token))
    }

    /// Equality of values: the same variant with the same text.
    pub open spec fn same_as(&self, other: &Self) -> bool {
        self@ == other@ && (self is Other <==> other is Other)
    }

    /// Whether both are the same kind.
    pub fn is_same(&self, other: &Self) -> (r: bool)
        ensures
            r == self.same_as(other),
    {
        let custom = match self {
            Self::Other(_) => true,
            _ => false,
        };
        let other_custom = match other {
            Self::Other(_) => true,
            _ => false,
        };
        custom == other_custom && same(self.as_str(), other.as_str())
    }
}

impl Clone for EntityKind {
    fn clone(&self) -> (r: Self)
        ensures
            r == *self,
    {
        match self {
            Self::Module => Self::Module,
            Self::Namespace => Self::Namespace,
            Self::Type => Self::Type,
            Self::Trait => Self::Trait,
            Self::Interface => Self::Interface,
            Self::Function => Self::Function,
            Self::Method => Self::Method,
            Self::Constructor => Self::Constructor,
            Self::Closure => Self::Closure,
            Self::Constant => Self::Constant,
            Self::Static => Self::Static,
            Self::Macro => Self::Macro,
            Self::Field => Self::Field,
            Self::Test => Self::Test,
            Self::Example => Self::Example,
            Self::Other(value) => Self::Other(value.clone()),
        }
    }
}

impl From<&str> for EntityKind {
    fn from(value: &str) -> (r: Self)
        ensures
            r.reads_as(value@),
    {
        if same(value, "module") {
            Self::Module
        } else if same(value, "namespace") {
            Self::Namespace
        } else if same(value, "type") {
            Self::Type
        } else if same(value, "trait") {
            Self::Trait
        } else if same(value, "interface") {
            Self::Interface
        } else if same(value, "function") {
            Self::Function
        } else if same(value, "method") {
            Self::Method
        } else if same(value, "constructor") {
            Self::Constructor
        } else if same(value, "closure") {
            Self::Closure
        } else if same(value, "constant") {
            Self::Constant
        } else if same(value, "static") {
            Self::Static
        } else if same(value, "macro") {
            Self::Macro
        } else if same(value, "field") {
            Self::Field
        } else if same(value, "test") {
            Self::Test
        } else if same(value, "example") {
            Self::Example
        } else {
            Self::Other(value.to_owned())
        }
    }
}

impl vstd::std_specs::convert::FromSpecImpl<&str> for EntityKind {
    open spec fn obeys_from_spec() -> bool {
        false
    }

    open spec fn from_spec(value: &str) -> Self {
        choose|r: Self| r@ == value@
    }
}

impl From<String> for EntityKind {
    fn from(value: String) -> (r: Self)
        ensures
            r.reads_as(value@),
    {
        Self::from(value.as_str())
    }
}

impl vstd::std_specs::convert::FromSpecImpl<String> for EntityKind {
    open spec fn obeys_from_spec() -> bool {
        false
    }

    open spec fn from_spec(value: String) -> Self {
        choose|r: Self| r@ == value@
    }
}

/// A reproducible textual projection of a source entity.
#[derive(Debug, PartialEq, Eq, PartialOrd, Ord, Hash)]
#[non_exhaustive]
pub enum RepresentationKind {
    FullSource,
    Implementation,
    Body,
    BodyWithoutDeclaredName,
    Signature,
    Symbol,
    Documentation,
    Usage,
    GeneratedDescription,
    Custom(String),
}

/// The tokens of the built-in channels.
pub open spec fn is_channel_token(token: Seq<char>) -> bool {
    ||| token == "full_source"@
    ||| token == "implementation"@
    ||| token == "body"@
    ||| token == "body_without_declared_name"@
    ||| token == "signature"@
    ||| token == "symbol"@
    ||| token == "documentation"@
    ||| token == "usage"@
    ||| token == "generated_description"@
}

impl View for RepresentationKind {
    type V = Seq<char>;

    open spec fn view(&self) -> Seq<char> {
        match self {
            Self::FullSource => "full_source"@,
            Self::Implementation => "implementation"@,
            Self::Body => "body"@,
            Self::BodyWithoutDeclaredName => "body_without_declared_name"@,
            Self::Signature => "signature"@,
            Self::Symbol => "symbol"@,
            Self::Documentation => "documentation"@,
            Self::Usage => "usage"@,
            Self::GeneratedDescription => "generated_description"@,
            Self::Custom(value) => value@,
        }
    }
}

impl RepresentationKind {
    /// The canonical persisted token.
    pub fn as_str(&self) -> (r: &str)
        ensures
            r@ == self@,
    {
        match self {
            Self::FullSource => "full_source",
            Self::Implementation => "implementation",
            Self::Body => "body",
            Self::BodyWithoutDeclaredName => "body_without_declared_name",
            Self::Signature => "signature",
            Self::Symbol => "symbol",
            Self::Documentation => "documentation",
            Self::Usage => "usage",
            Self::GeneratedDescription => "generated_description",
            Self::Custom(value) => value.as_str(),
        }
    }

    /// What reading `token` gives: the token is kept, and only a token that is
    /// not a standard one is kept as free text.
    pub open spec fn reads_as(&self, token: Seq<char>) -> bool {
        self@ == token && (self is Custom <==> !is_channel_token(token))
    }

    /// Equality of values: the same variant with the same text.
    pub open spec fn same_as(&self, other: &Self) -> bool {
        self@ == other@ && (self is Custom <==> other is Custom)
    }

    /// Whether both are the same kind.
    pub fn is_same(&self, other: &Self) -> (r: bool)
        ensures
            r == self.same_as(other),
    {
        let custom = match self {
            Self::Custom(_) => true,
            _ => false,
        };
        let other_custom = match other {
            Self::Custom(_) => true,
            _ => false,
        };
        custom == other_custom && same(self.as_str(), other.as_str())
    }
}

impl Clone for RepresentationKind {
    fn clone(&self) -> (r: Self)
        ensures
            r == *self,
    {
        match self {
            Self::FullSource => Self::FullSource,
            Self::Implementation => Self::Implementation,
            Self::Body => Self::Body,
            Self::BodyWithoutDeclaredName => Self::BodyWithoutDeclaredName,
            Self::Signature => Self::Signature,
            Self::Symbol => Self::Symbol,
            Self::Documentation => Self::Documentation,
            Self::Usage => Self::Usage,
            Self::GeneratedDescription => Self::GeneratedDescription,
            Self::Custom(value) => Self::Custom(value.clone()),
        }
    }
}

impl From<&str> for RepresentationKind {
    fn from(value: &str) -> (r: Self)
        ensures
            r.reads_as(value@),
    {
        if same(value, "full_source") {
            Self::FullSource
        } else if same(value, "implementation") {
            Self::Implementation
        } else if same(value, "body") {
            Self::Body
        } else if same(value, "body_without_declared_name") {
            Self::BodyWithoutDeclaredName
        } else if same(value, "signature") {
            Self::Signature
        } else if same(value, "symbol") {
            Self::Symbol
        } else if same(value, "documentation") {
            Self::Documentation
        } else if same(value, "usage") {
            Self::Usage
        } else if same(value, "generated_description") {
            Self::GeneratedDescription
        } else {
            Self::Custom(value.to_owned())
        }
    }
}

impl vstd::std_specs::convert::FromSpecImpl<&str> for RepresentationKind {
    open spec fn obeys_from_spec() -> bool {
        false
    }

    open spec fn from_spec(value: &str) -> Self {
        choose|r: Self| r@ == value@
    }
}

impl From<String> for RepresentationKind {
    fn from(value: String) -> (r: Self)
        ensures
            r.reads_as(value@),
    {
        Self::from(value.as_str())
    }
}

impl vstd::std_specs::convert::FromSpecImpl<String> for RepresentationKind {
    open spec fn obeys_from_spec() -> bool {
        false
    }

    open spec fn from_spec(value: String) -> Self {
        choose|r: Self| r@ == value@
    }
}

/// Writing an entity kind and reading the token back gives the kind back,
/// whatever the token; the one exception is free text that spells a standard
/// token, which reads back as that standard kind.
pub proof fn entity_kinds_round_trip(kind: EntityKind, read: EntityKind)
    requires
        read.reads_as(kind@),
    ensures
        read@ == kind@,
        (kind is Other ==> !is_entity_token(kind@)) ==> read.same_as(&kind),
{
}

/// Writing a channel and reading the token back gives the channel back; free
/// text that spells a built-in token reads back as the built-in channel.
pub proof fn representation_kinds_round_trip(kind: RepresentationKind, read: RepresentationKind)
    requires
        read.reads_as(kind@),
    ensures
        read@ == kind@,
        (kind is Custom ==> !is_channel_token(kind@)) ==> read.same_as(&kind),
{
}

/// Half-open source range plus one-based human line numbers.
#[derive(Debug, Clone, Copy, PartialEq, Eq, Hash)]
pub struct SourceSpan {
    pub start_byte: usize,
    pub end_byte: usize,
    pub start_line: usize,
    pub end_line: usize,
}

impl SourceSpan {
    pub fn new(start_byte: usize, end_byte: usize, start_line: usize, end_line: usize) -> (r: Self)
        requires
            start_byte <= end_byte,
            start_line <= end_line,
        ensures
            r == (Self { start_byte, end_byte, start_line, end_line }),
    {
        Self { start_byte, end_byte, start_line, end_line }
    }
}

/// Provenance for a representation channel.
#[derive(Debug, PartialEq, Eq)]
pub enum RepresentationOrigin {
    /// Deterministically extracted from source by a language frontend.
    Extracted { frontend: String },
    /// Synthesized from other indexed facts, such as call sites.
    Derived { producer: String, version: String },
    /// Supplied by a consumer, such as an LLM-generated description.
    Imported { producer: String, version: String },
}

impl Default for RepresentationOrigin {
    fn default() -> (r: Self)
        ensures
            r is Extracted,
            r->frontend@ == "tree-sitter"@,
    {
        Self::Extracted { frontend: "tree-sitter".to_owned() }
    }
}

impl Clone for RepresentationOrigin {
    fn clone(&self) -> (r: Self)
        ensures
            r == *self,
    {
        match self {
            Self::Extracted { frontend } => Self::Extracted { frontend: frontend.clone() },
            Self::Derived { producer, version } => Self::Derived {
                producer: producer.clone(),
                version: version.clone(),
            },
            Self::Imported { producer, version } => Self::Imported {
                producer: producer.clone(),
                version: version.clone(),
            },
        }
    }
}

/// Text, identity, and provenance for one representation channel.
#[derive(Debug, PartialEq, Eq)]
pub struct Representation {
    pub kind: RepresentationKind,
    pub content: String,
    pub content_hash: String,
    pub origin: RepresentationOrigin,
}

impl Representation {
    pub fn new(kind: RepresentationKind, content: &str, content_hash: &str) -> (r: Self)
        ensures
            r.kind == kind,
            r.content@ == content@,
            r.content_hash@ == content_hash@,
            r.origin is Extracted,
            r.origin->frontend@ == "tree-sitter"@,
    {
        Self {
            kind,
            content: content.to_owned(),
            content_hash: content_hash.to_owned(),
            origin: RepresentationOrigin::default(),
        }
    }

    pub fn with_origin(self, origin: RepresentationOrigin) -> (r: Self)
        ensures
            r == (Self { origin, ..self }),
    {
        Self { kind: self.kind, content: self.content, content_hash: self.content_hash, origin }
    }
}

impl Clone for Representation {
    fn clone(&self) -> (r: Self)
        ensures
            r == *self,
    {
        Self {
            kind: self.kind.clone(),
            content: self.content.clone(),
            content_hash: self.content_hash.clone(),
            origin: self.origin.clone(),
        }
    }
}

/// The position of the first representation of `kind`, or the length.
pub open spec fn channel_position(list: Seq<Representation>, kind: RepresentationKind) -> int
    decreases list.len(),
{
    if list.len() == 0 || list[0].kind.same_as(&kind) {
        0
    } else {
        1 + channel_position(list.drop_first(), kind)
    }
}

/// `channel_position` is the first match.
pub proof fn channel_position_is_first(list: Seq<Representation>, kind: RepresentationKind, i: int)
    requires
        0 <= i <= list.len(),
        forall|j: int| 0 <= j < i ==> !list[j].kind.same_as(&kind),
        i < list.len() ==> list[i].kind.same_as(&kind),
    ensures
        channel_position(list, kind) == i,
    decreases list.len(),
{
    if i > 0 {
        assert forall|j: int| 0 <= j < i - 1 implies !list.drop_first()[j].kind.same_as(&kind) by {
            assert(list.drop_first()[j] == list[j + 1]);
        }
        channel_position_is_first(list.drop_first(), kind, i - 1);
    }
}

/// What `channel_position` says.
pub proof fn channel_position_facts(list: Seq<Representation>, kind: RepresentationKind)
    ensures
        0 <= channel_position(list, kind) <= list.len(),
        channel_position(list, kind) < list.len() ==> list[channel_position(
            list,
            kind,
        )].kind.same_as(&kind),
        forall|j: int|
            0 <= j < channel_position(list, kind) ==> !(#[trigger] list[j]).kind.same_as(&kind),
    decreases list.len(),
{
    if list.len() > 0 && !list[0].kind.same_as(&kind) {
        let rest = list.drop_first();
        channel_position_facts(rest, kind);
        assert forall|j: int| 0 <= j < channel_position(list, kind) implies !(
        #[trigger] list[j]).kind.same_as(&kind) by {
            if j > 0 {
                assert(rest[j - 1] == list[j]);
            }
        }
    }
}

/// The position of the first representation of `kind`, or the length.
pub fn position_of_channel(list: &Vec<Representation>, kind: &RepresentationKind) -> (r: usize)
    ensures
        r == channel_position(list@, *kind),
        r <= list@.len(),
        r < list@.len() ==> list@[r as int].kind.same_as(kind),
        forall|j: int| 0 <= j < r ==> !list@[j].kind.same_as(kind),
{
    let mut i: usize = 0;
    while i < list.len() && !list[i].kind.is_same(kind)
        invariant
            i <= list@.len(),
            forall|j: int| 0 <= j < i ==> !list@[j].kind.same_as(kind),
        decreases list@.len() - i,
    {
        i += 1;
    }
    proof {
        channel_position_is_first(list@, *kind, i as int);
    }
    i
}

/// Parser-neutral entity emitted by a language frontend.
#[derive(Debug, PartialEq, Eq)]
pub struct ExtractedEntity {
    pub language: LanguageId,
    pub kind: EntityKind,
    pub name: String,
    pub scope: Option<String>,
    pub span: SourceSpan,
    pub body_span: Option<SourceSpan>,
    pub body_node_count: usize,
    pub source_hash: String,
    pub normalized_body_hash: String,
    pub representations: Vec<Representation>,
}

impl ExtractedEntity {
    /// The first representation of `kind`, if the entity has one.
    pub open spec fn find(&self, kind: RepresentationKind) -> Option<Representation> {
        let at = channel_position(self.representations@, kind);
        if at < self.representations@.len() {
            Some(self.representations@[at])
        } else {
            None
        }
    }

    pub fn representation(&self, kind: &RepresentationKind) -> (r: Option<&Representation>)
        ensures
            match r {
                Some(found) => self.find(*kind) == Some(*found),
                None => self.find(*kind) is None,
            },
    {
        let at = position_of_channel(&self.representations, kind);
        if at < self.representations.len() {
            Some(&self.representations[at])
        } else {
            None
        }
    }

    pub fn representation_text(&self, kind: &RepresentationKind) -> (r: Option<&str>)
        ensures
            match r {
                Some(text) => self.find(*kind) is Some && text@ == self.find(*kind)->0.content@,
                None => self.find(*kind) is None,
            },
    {
        match self.representation(kind) {
            Some(found) => Some(found.content.as_str()),
            None => None,
        }
    }
}

/// One non-fatal frontend diagnostic.
#[derive(Debug, PartialEq, Eq)]
pub struct IndexDiagnostic {
    pub message: String,
    pub span: Option<SourceSpan>,
}

/// Complete parser-neutral result for one source file.
#[derive(Debug, PartialEq, Eq)]
pub struct ExtractedFile {
    pub entities: Vec<ExtractedEntity>,
    pub diagnostics: Vec<IndexDiagnostic>,
}

/// Everything that identifies an embedding model for reproducible runs.
#[derive(Debug, PartialEq, Eq)]
pub struct ModelIdentity {
    pub backend: String,
    pub backend_version: String,
    /// ONNX Runtime version when applicable.
    pub runtime_version: Option<String>,
    pub model: String,
    pub revision: Option<String>,
    pub dimensions: usize,
    pub tokenizer_hash: Option<String>,
    pub model_hash: Option<String>,
    pub normalize: bool,
    pub execution_provider: String,
    pub quantization: Option<String>,
    pub cache_path: Option<String>,
}

impl ModelIdentity {
    /// Equality of two identities: every field holds the same value.
    pub open spec fn same_as(&self, other: &Self) -> bool {
        &&& self.backend@ == other.backend@
        &&& self.backend_version@ == other.backend_version@
        &&& opt_view(self.runtime_version) == opt_view(other.runtime_version)
        &&& self.model@ == other.model@
        &&& opt_view(self.revision) == opt_view(other.revision)
        &&& self.dimensions == other.dimensions
        &&& opt_view(self.tokenizer_hash) == opt_view(other.tokenizer_hash)
        &&& opt_view(self.model_hash) == opt_view(other.model_hash)
        &&& self.normalize == other.normalize
        &&& self.execution_provider@ == other.execution_provider@
        &&& opt_view(self.quantization) == opt_view(other.quantization)
        &&& opt_view(self.cache_path) == opt_view(other.cache_path)
    }

    /// Whether both name the same model.
    pub fn is_same(&self, other: &Self) -> (r: bool)
        ensures
            r == self.same_as(other),
    {
        self.backend == other.backend && self.backend_version == other.backend_version && same_opt(
            &self.runtime_version,
            &other.runtime_version,
        ) && self.model == other.model && same_opt(&self.revision, &other.revision)
            && self.dimensions == other.dimensions && same_opt(
            &self.tokenizer_hash,
            &other.tokenizer_hash,
        ) && same_opt(&self.model_hash, &other.model_hash) && self.normalize == other.normalize
            && self.execution_provider == other.execution_provider && same_opt(
            &self.quantization,
            &other.quantization,
        ) && same_opt(&self.cache_path, &other.cache_path)
    }
}

/// Immutable meaning of one embedding space.
#[derive(Debug, PartialEq, Eq)]
pub struct EmbeddingSpaceIdentity {
    pub id: EmbeddingSpaceId,
    pub channel: RepresentationKind,
    pub model: ModelIdentity,
    /// Stable name for preprocessing applied before embedding. `identity` means
    /// the stored representation text is embedded verbatim.
    pub input_transform: String,
}

impl EmbeddingSpaceIdentity {
    pub fn new(id: EmbeddingSpaceId, channel: RepresentationKind, model: ModelIdentity) -> (r: Self)
        ensures
            r.id == id,
            r.channel == channel,
            r.model == model,
            r.input_transform@ == "identity"@,
    {
        Self { id, channel, model, input_transform: "identity".to_owned() }
    }
}

} // verus!
