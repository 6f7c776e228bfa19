use codeindex::source::document::{
    DocumentDescriptor, DocumentMetadata, DocumentQuery, LanguageHint, RevisionGuarantee,
    SnapshotConsistency, SnapshotRequest, SourceContent, SourceError, SourceErrorKind, SourceKind,
};
use codeindex::source::group::group_documents_by_root;
use codeindex::source::ids::{DocumentId, RevisionToken, SnapshotId, WorkspaceId};
use codeindex::source::memory::MemoryWorkspace;
use codeindex::source::overlay::OverlayWorkspace;
use codeindex::source::snapshot::{
    check_revision, validate_snapshot, SourceSnapshot, SourceWorkspace,
};
use codeindex::source_fs::{
    bad_exclude, check_before_read, finish_read, io_error, language_hint, logical_path,
    requested_document, scan_documents, snapshot_fingerprint, version_from_metadata, walk_failed,
    AccessFault, FilesystemWorkspace, FoundEntry,
};

#[test]
fn memory_snapshots_are_immutable_and_revision_checked() {
    let mut workspace = MemoryWorkspace::new("memory://test");
    let id = workspace.insert_with_language(
        "src/lib.rs",
        b"fn answer() -> i32 { 42 }".to_vec(),
        LanguageHint::Known("rust".to_string()),
    );
    let snapshot = workspace.open_snapshot(&SnapshotRequest::default()).unwrap();
    let document = snapshot.document(&id).unwrap().unwrap();
    workspace.insert_with_language(
        "src/lib.rs",
        b"fn answer() -> i32 { 43 }".to_vec(),
        LanguageHint::Known("rust".to_string()),
    );
    assert!(snapshot.read(&document).unwrap().utf8().unwrap().contains("42"));
    validate_snapshot(&snapshot).unwrap();
}

/// A snapshot that lists what it is given and reads nothing.
struct Unreadable {
    id: SnapshotId,
    workspace: WorkspaceId,
    listed: Vec<DocumentDescriptor>,
}

impl SourceSnapshot for Unreadable {
    fn id(&self) -> &SnapshotId {
        &self.id
    }

    fn workspace_id(&self) -> &WorkspaceId {
        &self.workspace
    }

    fn consistency(&self) -> SnapshotConsistency {
        SnapshotConsistency::Immutable
    }

    fn documents(&self, _query: &DocumentQuery) -> Result<Vec<DocumentDescriptor>, SourceError> {
        Ok(self.listed.clone())
    }

    fn read(&self, document: &DocumentDescriptor) -> Result<SourceContent, SourceError> {
        Err(SourceError::not_found(document.id.as_str().to_string()))
    }
}

#[test]
fn the_first_fault_of_a_snapshot_is_reported() {
    let mut workspace = MemoryWorkspace::new("memory://test");
    workspace.insert("a.rs", b"1".to_vec());
    workspace.insert("b.rs", b"2".to_vec());
    let own = workspace.open_snapshot(&SnapshotRequest::default()).unwrap();
    let check = |spoil: fn(&mut Vec<DocumentDescriptor>)| {
        let mut listed = own.documents(&DocumentQuery::all()).unwrap();
        spoil(&mut listed);
        let (id, workspace) = (SnapshotId::new("s"), WorkspaceId::new("w"));
        validate_snapshot(&Unreadable { id, workspace, listed }).unwrap_err()
    };
    // A document that is out of place is not read.
    let unplaced = check(|listed| listed[0].location.logical_path.clear());
    assert_eq!(unplaced.kind(), SourceErrorKind::InvalidData);
    // An earlier document that cannot be read comes before a later one out of place.
    let unread = check(|listed| listed[1].location.logical_path.clear());
    assert_eq!(unread.kind(), SourceErrorKind::NotFound);
}

#[test]
fn overlay_prefers_matching_logical_paths() {
    let mut base = MemoryWorkspace::new("memory://base");
    base.insert("src/lib.rs", b"base".to_vec());
    let mut overlay = MemoryWorkspace::new("memory://overlay");
    overlay.insert("src/lib.rs", b"overlay".to_vec());
    let workspace = OverlayWorkspace::new("overlay", base, overlay);
    let snapshot = workspace.open_snapshot(&SnapshotRequest::default()).unwrap();
    let documents = snapshot.documents(&DocumentQuery::all()).unwrap();
    assert_eq!(documents.len(), 1);
    assert_eq!(snapshot.read(&documents[0]).unwrap().utf8().unwrap(), "overlay");
}

#[test]
fn stale_revisions_are_refused() {
    let mut workspace = MemoryWorkspace::new("memory://test");
    let id = workspace.insert("a.rs", b"1".to_vec());
    let before = workspace.open_snapshot(&SnapshotRequest::default()).unwrap();
    let old = before.document(&id).unwrap().unwrap();
    workspace.insert("a.rs", b"2".to_vec());
    let now = workspace.open_snapshot(&SnapshotRequest::default()).unwrap();
    assert_eq!(now.read(&old).unwrap_err().kind(), SourceErrorKind::StaleRevision);
    assert_eq!(
        now.read_by_id(&id, &old.version.token).unwrap_err().kind(),
        SourceErrorKind::StaleRevision
    );
    let unknown = DocumentId::new("nothing");
    assert_eq!(
        now.read_by_id(&unknown, &old.version.token).unwrap_err().kind(),
        SourceErrorKind::NotFound
    );
    assert_eq!(before.read_by_id(&id, &old.version.token).unwrap().bytes, b"1".to_vec());
    assert!(check_revision(&id, &old.version.token, &RevisionToken::new("x")).is_err());
}

#[test]
fn documents_move_and_go() {
    let mut workspace = MemoryWorkspace::new("memory://test");
    let id = workspace.insert("a.rs", b"1".to_vec());
    workspace.move_document(&id, "b.rs").unwrap();
    let snapshot = workspace.open_snapshot(&SnapshotRequest::default()).unwrap();
    assert_eq!(snapshot.document(&id).unwrap().unwrap().location.logical_path, "b.rs");
    assert!(workspace.remove(&id));
    assert!(!workspace.remove(&id));
    assert_eq!(
        workspace.move_document(&id, "c.rs").unwrap_err().kind(),
        SourceErrorKind::NotFound
    );
    let empty = workspace.open_snapshot(&SnapshotRequest::default()).unwrap();
    assert!(empty.documents(&DocumentQuery::all()).unwrap().is_empty());
}

#[test]
fn queries_narrow_what_is_listed() {
    let mut workspace = MemoryWorkspace::new("memory://test");
    workspace.insert_with_language("src/a.rs", b"1".to_vec(), LanguageHint::Known("rust".into()));
    workspace.insert_with_language("docs/b.md", b"2".to_vec(), LanguageHint::Unknown);
    let snapshot = workspace.open_snapshot(&SnapshotRequest::default()).unwrap();
    let mut query = DocumentQuery::all();
    query.path_prefixes = vec!["src/".into()];
    let listed = snapshot.documents(&query).unwrap();
    assert_eq!(listed.len(), 1);
    assert_eq!(listed[0].location.logical_path, "src/a.rs");
    query.path_prefixes = Vec::new();
    query.language_ids = vec!["go".into()];
    let listed = snapshot.documents(&query).unwrap();
    assert!(listed.iter().all(|document| document.location.logical_path != "src/a.rs"));
}

#[test]
fn generated_documents_are_asked_for() {
    let mut workspace = MemoryWorkspace::new("memory://test");
    let id = workspace.insert("a.rs", b"1".to_vec());
    let snapshot = workspace.open_snapshot(&SnapshotRequest::default()).unwrap();
    let mut document = snapshot.document(&id).unwrap().unwrap();
    assert!(DocumentQuery::default().matches(&document));
    document.metadata = DocumentMetadata { generated: true, ..DocumentMetadata::default() };
    assert!(!DocumentQuery::default().matches(&document));
    assert!(DocumentQuery::all().matches(&document));
}

#[test]
fn the_weaker_consistency_counts() {
    assert_eq!(
        SnapshotConsistency::Immutable.weaker(SnapshotConsistency::BestEffort),
        SnapshotConsistency::BestEffort
    );
    assert_eq!(
        SnapshotConsistency::Validated.weaker(SnapshotConsistency::Transactional),
        SnapshotConsistency::Validated
    );
}

#[test]
fn documents_are_grouped_by_root() {
    let mut workspace = MemoryWorkspace::new("memory://test");
    workspace.insert("b.rs", b"1".to_vec());
    workspace.insert("a.rs", b"2".to_vec());
    let snapshot = workspace.open_snapshot(&SnapshotRequest::default()).unwrap();
    let grouped = group_documents_by_root(&snapshot.documents(&DocumentQuery::all()).unwrap());
    assert_eq!(grouped.entries.len(), 1);
    assert_eq!(grouped.entries[0].1.len(), 2);
}

#[test]
fn contents_must_be_text() {
    let mut workspace = MemoryWorkspace::new("memory://test");
    let id = workspace.insert("a.bin", vec![0xff, 0xfe]);
    let snapshot = workspace.open_snapshot(&SnapshotRequest::default()).unwrap();
    let document = snapshot.document(&id).unwrap().unwrap();
    let error = snapshot.read(&document).unwrap().utf8().unwrap_err();
    assert_eq!(error.kind(), SourceErrorKind::InvalidData);
}

fn entry(relative: &str, modified_ns: i128, size: u64) -> FoundEntry {
    FoundEntry {
        relative: relative.into(),
        display: format!("/r/{relative}"),
        modified_ns: Some(modified_ns),
        size,
    }
}

#[test]
fn changed_files_are_rejected_by_old_snapshots() {
    let listed = scan_documents(&vec![entry("src/lib.rs", 5, 25)]).unwrap();
    let document = listed.entries[0].1.clone();
    assert_eq!(document.location.logical_path, "src/lib.rs");
    let indexed = requested_document(&listed, &document).unwrap();
    // The file has another length when it is to be read.
    let now = version_from_metadata(Some(9), 16);
    let error = check_before_read(&document.id, &indexed.version, &now).unwrap_err();
    assert_eq!(error.kind(), SourceErrorKind::StaleRevision);
    let same = version_from_metadata(Some(5), 25);
    assert!(check_before_read(&document.id, &indexed.version, &same).is_ok());
    // It may also change while it is read.
    let torn = finish_read(&document.id, &same, now, b"x".to_vec()).unwrap_err();
    assert_eq!(torn.kind(), SourceErrorKind::StaleRevision);
    let whole = version_from_metadata(Some(5), 25);
    assert_eq!(finish_read(&document.id, &same, whole, b"x".to_vec()).unwrap().bytes, b"x".to_vec());
}

#[test]
fn scans_have_a_fingerprint() {
    let one = scan_documents(&vec![entry("a.rs", 1, 1), entry("b.rs", 2, 2)]).unwrap();
    let same = scan_documents(&vec![entry("b.rs", 2, 2), entry("a.rs", 1, 1)]).unwrap();
    let other = scan_documents(&vec![entry("a.rs", 1, 1), entry("b.rs", 3, 2)]).unwrap();
    assert_eq!(snapshot_fingerprint(&one), snapshot_fingerprint(&same));
    assert_ne!(snapshot_fingerprint(&one), snapshot_fingerprint(&other));
}

#[test]
fn times_before_the_epoch_are_kept() {
    let early = version_from_metadata(Some(-5), 3);
    assert_eq!(early.modified_at, Some(-5));
    assert_eq!(early.token.as_str(), "0:3");
    let late = version_from_metadata(Some(20_000_000_000_000_000_000), 3);
    assert_eq!(late.token.as_str(), "20000000000000000000:3");
}

#[test]
fn paths_and_languages_of_files() {
    assert_eq!(logical_path("src/lib.rs"), "src/lib.rs");
    assert!(matches!(language_hint("src/lib.rs"), LanguageHint::FileExtension(e) if e == "rs"));
    assert!(matches!(language_hint("Makefile"), LanguageHint::Unknown));
    let version = version_from_metadata(Some(7), 3);
    assert_eq!(version.guarantee, RevisionGuarantee::MetadataHint);
    assert_eq!(version.size, Some(3));
}

#[test]
fn workspaces_are_built() {
    let workspace = FilesystemWorkspace::builder("/r")
        .excludes(vec!["vendor/**".to_string()])
        .follow_symlinks(true)
        .workspace_id(WorkspaceId::new("w"))
        .display_name("R".into())
        .build();
    assert_eq!(workspace.root(), "/r");
    assert_eq!(workspace.exclude, vec!["vendor/**".to_string()]);
    assert!(workspace.follow_symlinks);
    assert_eq!(workspace.descriptor.id.as_str(), "w");
    assert_eq!(workspace.descriptor.display_name, "R");
    assert!(matches!(workspace.descriptor.source_kind, SourceKind::FileSystem));
    let plain = FilesystemWorkspace::new("/r").with_excludes(vec!["x".into()]);
    assert_eq!(plain.exclude, vec!["x".to_string()]);
    assert!(!plain.follow_symlinks);
}

#[test]
fn access_faults_become_errors() {
    assert_eq!(io_error("/p", AccessFault::NotFound, "d").kind(), SourceErrorKind::NotFound);
    assert_eq!(
        io_error("/p", AccessFault::PermissionDenied, "d").kind(),
        SourceErrorKind::PermissionDenied
    );
    assert!(io_error("/p", AccessFault::TimedOut, "d").is_retryable());
    assert!(!io_error("/p", AccessFault::NotFound, "d").is_retryable());
    assert_eq!(bad_exclude("[", "d").kind(), SourceErrorKind::InvalidData);
    assert!(walk_failed("d").message.contains("d"));
}
