//! Identifiers of sources.
use vstd::prelude::*;

verus! {

/// Identity of a workspace.
#[derive(Debug, PartialEq, Eq, PartialOrd, Ord, Hash)]
pub struct WorkspaceId(String);

impl View for WorkspaceId {
    type V = Seq<char>;

    closed spec fn view(&self) -> Seq<char> {
        self.0@
    }
}

impl WorkspaceId {
    pub fn new(value: &str) -> (r: Self)
        ensures
            r@ == value@,
    {
        Self(value.to_owned())
    }

    pub fn as_str(&self) -> (r: &str)
        ensures
            r@ == self@,
    {
        self.0.as_str()
    }
}

impl Clone for WorkspaceId {
    fn clone(&self) -> (r: Self)
        ensures
            r == *self,
    {
        Self(self.0.clone())
    }
}

impl From<&str> for WorkspaceId {
    fn from(value: &str) -> (r: Self)
        ensures
            r@ == value@,
    {
        Self::new(value)
    }
}

impl vstd::std_specs::convert::FromSpecImpl<&str> for WorkspaceId {
    open spec fn obeys_from_spec() -> bool {
        false
    }

    open spec fn from_spec(value: &str) -> Self {
        choose|r: Self| r@ == value@
    }
}

impl From<String> for WorkspaceId {
    fn from(value: String) -> (r: Self)
        ensures
            r@ == value@,
    {
        Self(value)
    }
}

impl vstd::std_specs::convert::FromSpecImpl<String> for WorkspaceId {
    open spec fn obeys_from_spec() -> bool {
        true
    }

    closed spec fn from_spec(value: String) -> Self {
        Self(value)
    }
}

/// Identity of a snapshot of a workspace.
#[derive(Debug, PartialEq, Eq, PartialOrd, Ord, Hash)]
pub struct SnapshotId(String);

impl View for SnapshotId {
    type V = Seq<char>;

    closed spec fn view(&self) -> Seq<char> {
        self.0@
    }
}

impl SnapshotId {
    pub fn new(value: &str) -> (r: Self)
        ensures
            r@ == value@,
    {
        Self(value.to_owned())
    }

    pub fn as_str(&self) -> (r: &str)
        ensures
            r@ == self@,
    {
        self.0.as_str()
    }
}

impl Clone for SnapshotId {
    fn clone(&self) -> (r: Self)
        ensures
            r == *self,
    {
        Self(self.0.clone())
    }
}

impl From<&str> for SnapshotId {
    fn from(value: &str) -> (r: Self)
        ensures
            r@ == value@,
    {
        Self::new(value)
    }
}

impl vstd::std_specs::convert::FromSpecImpl<&str> for SnapshotId {
    open spec fn obeys_from_spec() -> bool {
        false
    }

    open spec fn from_spec(value: &str) -> Self {
        choose|r: Self| r@ == value@
    }
}

impl From<String> for SnapshotId {
    fn from(value: String) -> (r: Self)
        ensures
            r@ == value@,
    {
        Self(value)
    }
}

impl vstd::std_specs::convert::FromSpecImpl<String> for SnapshotId {
    open spec fn obeys_from_spec() -> bool {
        true
    }

    closed spec fn from_spec(value: String) -> Self {
        Self(value)
    }
}

/// Identity of a document within its workspace.
#[derive(Debug, PartialEq, Eq, PartialOrd, Ord, Hash)]
pub struct DocumentId(String);

impl View for DocumentId {
    type V = Seq<char>;

    closed spec fn view(&self) -> Seq<char> {
        self.0@
    }
}

impl DocumentId {
    pub fn new(value: &str) -> (r: Self)
        ensures
            r@ == value@,
    {
        Self(value.to_owned())
    }

    pub fn as_str(&self) -> (r: &str)
        ensures
            r@ == self@,
    {
        self.0.as_str()
    }
}

impl Clone for DocumentId {
    fn clone(&self) -> (r: Self)
        ensures
            r == *self,
    {
        Self(self.0.clone())
    }
}

impl From<&str> for DocumentId {
    fn from(value: &str) -> (r: Self)
        ensures
            r@ == value@,
    {
        Self::new(value)
    }
}

impl vstd::std_specs::convert::FromSpecImpl<&str> for DocumentId {
    open spec fn obeys_from_spec() -> bool {
        false
    }

    open spec fn from_spec(value: &str) -> Self {
        choose|r: Self| r@ == value@
    }
}

impl From<String> for DocumentId {
    fn from(value: String) -> (r: Self)
        ensures
            r@ == value@,
    {
        Self(value)
    }
}

impl vstd::std_specs::convert::FromSpecImpl<String> for DocumentId {
    open spec fn obeys_from_spec() -> bool {
        true
    }

    closed spec fn from_spec(value: String) -> Self {
        Self(value)
    }
}

/// Identity of a root that documents lie under.
#[derive(Debug, PartialEq, Eq, PartialOrd, Ord, Hash)]
pub struct SourceRootId(String);

impl View for SourceRootId {
    type V = Seq<char>;

    closed spec fn view(&self) -> Seq<char> {
        self.0@
    }
}

impl SourceRootId {
    pub fn new(value: &str) -> (r: Self)
        ensures
            r@ == value@,
    {
        Self(value.to_owned())
    }

    pub fn as_str(&self) -> (r: &str)
        ensures
            r@ == self@,
    {
        self.0.as_str()
    }
}

impl Clone for SourceRootId {
    fn clone(&self) -> (r: Self)
        ensures
            r == *self,
    {
        Self(self.0.clone())
    }
}

impl From<&str> for SourceRootId {
    fn from(value: &str) -> (r: Self)
        ensures
            r@ == value@,
    {
        Self::new(value)
    }
}

impl vstd::std_specs::convert::FromSpecImpl<&str> for SourceRootId {
    open spec fn obeys_from_spec() -> bool {
        false
    }

    open spec fn from_spec(value: &str) -> Self {
        choose|r: Self| r@ == value@
    }
}

impl From<String> for SourceRootId {
    fn from(value: String) -> (r: Self)
        ensures
            r@ == value@,
    {
        Self(value)
    }
}

impl vstd::std_specs::convert::FromSpecImpl<String> for SourceRootId {
    open spec fn obeys_from_spec() -> bool {
        true
    }

    closed spec fn from_spec(value: String) -> Self {
        Self(value)
    }
}

/// Names one revision of a document.
#[derive(Debug, PartialEq, Eq, PartialOrd, Ord, Hash)]
pub struct RevisionToken(String);

impl View for RevisionToken {
    type V = Seq<char>;

    closed spec fn view(&self) -> Seq<char> {
        self.0@
    }
}

impl RevisionToken {
    pub fn new(value: &str) -> (r: Self)
        ensures
            r@ == value@,
    {
        Self(value.to_owned())
    }

    pub fn as_str(&self) -> (r: &str)
        ensures
            r@ == self@,
    {
        self.0.as_str()
    }
}

impl Clone for RevisionToken {
    fn clone(&self) -> (r: Self)
        ensures
            r == *self,
    {
        Self(self.0.clone())
    }
}

impl From<&str> for RevisionToken {
    fn from(value: &str) -> (r: Self)
        ensures
            r@ == value@,
    {
        Self::new(value)
    }
}

impl vstd::std_specs::convert::FromSpecImpl<&str> for RevisionToken {
    open spec fn obeys_from_spec() -> bool {
        false
    }

    open spec fn from_spec(value: &str) -> Self {
        choose|r: Self| r@ == value@
    }
}

impl From<String> for RevisionToken {
    fn from(value: String) -> (r: Self)
        ensures
            r@ == value@,
    {
        Self(value)
    }
}

impl vstd::std_specs::convert::FromSpecImpl<String> for RevisionToken {
    open spec fn obeys_from_spec() -> bool {
        true
    }

    closed spec fn from_spec(value: String) -> Self {
        Self(value)
    }
}

/// Hash of a document's content.
#[derive(Debug, PartialEq, Eq, PartialOrd, Ord, Hash)]
pub struct ContentHash(String);

impl View for ContentHash {
    type V = Seq<char>;

    closed spec fn view(&self) -> Seq<char> {
        self.0@
    }
}

impl ContentHash {
    pub fn new(value: &str) -> (r: Self)
        ensures
            r@ == value@,
    {
        Self(value.to_owned())
    }

    pub fn as_str(&self) -> (r: &str)
        ensures
            r@ == self@,
    {
        self.0.as_str()
    }
}

impl Clone for ContentHash {
    fn clone(&self) -> (r: Self)
        ensures
            r == *self,
    {
        Self(self.0.clone())
    }
}

impl From<&str> for ContentHash {
    fn from(value: &str) -> (r: Self)
        ensures
            r@ == value@,
    {
        Self::new(value)
    }
}

impl vstd::std_specs::convert::FromSpecImpl<&str> for ContentHash {
    open spec fn obeys_from_spec() -> bool {
        false
    }

    open spec fn from_spec(value: &str) -> Self {
        choose|r: Self| r@ == value@
    }
}

impl From<String> for ContentHash {
    fn from(value: String) -> (r: Self)
        ensures
            r@ == value@,
    {
        Self(value)
    }
}

impl vstd::std_specs::convert::FromSpecImpl<String> for ContentHash {
    open spec fn obeys_from_spec() -> bool {
        true
    }

    closed spec fn from_spec(value: String) -> Self {
        Self(value)
    }
}

} // verus!
