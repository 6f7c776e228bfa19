//! A workspace laid over another.
use crate::source::document::{
    same_document, same_documents, DocumentDescriptor, DocumentQuery, SnapshotConsistency,
    SnapshotRequest, SourceCapabilities, SourceContent, SourceError, SourceErrorKind, SourceKind,
    WorkspaceDescriptor,
};
use crate::source::ids::{DocumentId, SnapshotId, WorkspaceId};
use crate::source::snapshot::{
    may_list, unknown_document, unknown_text, SourceSnapshot, SourceWorkspace,
};
use crate::text::{concat, same};
use crate::text_map::TextMap;
use vstd::prelude::*;
use vstd::string::*;

verus! {

/// A document of the base or the overlay.
#[derive(Debug)]
pub struct OverlayDocument {
    pub descriptor: DocumentDescriptor,
    /// Whether it comes from the overlay.
    pub overlaid: bool,
}

/// What the documents put in place of what stood at their paths.
pub open spec fn placed(
    map: Map<Seq<char>, OverlayDocument>,
    documents: Seq<DocumentDescriptor>,
    overlaid: bool,
) -> Map<Seq<char>, OverlayDocument>
    decreases documents.len(),
{
    if documents.len() == 0 {
        map
    } else {
        let last = documents.last();
        placed(map, documents.drop_last(), overlaid).insert(
            last.location.logical_path@,
            OverlayDocument { descriptor: last, overlaid },
        )
    }
}

/// The documents of the base with those of the overlay in place of what stands at
/// their paths.
pub open spec fn overlaid_map(
    base: Seq<DocumentDescriptor>,
    overlay: Seq<DocumentDescriptor>,
) -> Map<Seq<char>, OverlayDocument> {
    placed(placed(Map::empty(), base, false), overlay, true)
}

fn place_all(map: &mut TextMap<OverlayDocument>, documents: Vec<DocumentDescriptor>, overlaid: bool)
    requires
        old(map).wf(),
    ensures
        final(map).wf(),
        final(map)@ == placed(old(map)@, documents@, overlaid),
{
    let ghost all = documents@;
    let ghost start = map@;
    assert(all.take(0) =~= Seq::<DocumentDescriptor>::empty());
    for document in it: documents
        invariant
            map.wf(),
            it.seq() == all,
            map@ == placed(start, all.take(it.index() as int), overlaid),
    {
        let ghost i = it.index() as int;
        assert(all.take(i + 1).drop_last() =~= all.take(i));
        assert(all.take(i + 1).last() == document);
        let path = document.location.logical_path.clone();
        map.insert(path, OverlayDocument { descriptor: document, overlaid });
    }
    assert(all.take(all.len() as int) =~= all);
}

/// Lays documents over others by their paths; the result is in the order of the
/// paths.
pub fn overlay_documents(base: Vec<DocumentDescriptor>, overlay: Vec<DocumentDescriptor>) -> (r:
    TextMap<OverlayDocument>)
    ensures
        r.wf(),
        r@ == overlaid_map(base@, overlay@),
{
    let mut map: TextMap<OverlayDocument> = TextMap::new();
    place_all(&mut map, base, false);
    place_all(&mut map, overlay, true);
    map
}

/// A workspace whose documents take the place of another's at the same paths.
#[derive(Debug)]
pub struct OverlayWorkspace<B, O> {
    pub descriptor: WorkspaceDescriptor,
    pub base: B,
    pub overlay: O,
}

impl<B: SourceWorkspace, O: SourceWorkspace> OverlayWorkspace<B, O> {
    pub fn new(id: &str, base: B, overlay: O) -> (r: Self)
        ensures
            r.descriptor.id@ == id@,
            r.descriptor.display_name@ == id@,
            r.descriptor.source_kind is Editor,
            r.descriptor.redacted_locator is None,
            r.base == base,
            r.overlay == overlay,
    {
        OverlayWorkspace {
            descriptor: WorkspaceDescriptor {
                id: WorkspaceId::new(id),
                display_name: id.to_owned(),
                source_kind: SourceKind::Editor,
                redacted_locator: None,
            },
            base,
            overlay,
        }
    }
}

/// The workspace may open this.
pub open spec fn may_open<W: SourceWorkspace>(
    workspace: W,
    request: &SnapshotRequest,
    opened: Result<W::Snapshot, SourceError>,
) -> bool {
    call_ensures(W::open_snapshot, (&workspace, request), opened)
}

/// A snapshot of a workspace laid over another.
#[derive(Debug)]
pub struct OverlaySnapshot<B, O> {
    pub id: SnapshotId,
    pub workspace_id: WorkspaceId,
    pub consistency: SnapshotConsistency,
    /// By path.
    pub documents: TextMap<OverlayDocument>,
    pub base: B,
    pub overlay: O,
}

impl<B: SourceSnapshot, O: SourceSnapshot> OverlaySnapshot<B, O> {
    /// The documents are those of the two snapshots, the overlay's in front.
    pub open spec fn is_overlaid(self) -> bool {
        &&& self.documents.wf()
        &&& exists|base: Vec<DocumentDescriptor>, overlay: Vec<DocumentDescriptor>|
            {
                &&& #[trigger] may_list(&self.base, Ok(base))
                &&& #[trigger] may_list(&self.overlay, Ok(overlay))
                &&& self.documents@ == overlaid_map(base@, overlay@)
            }
    }

    /// The snapshot promises what the weaker of the two promises.
    pub open spec fn has_weaker_consistency(self) -> bool {
        exists|lower: SnapshotConsistency, upper: SnapshotConsistency|
            {
                &&& #[trigger] call_ensures(B::consistency, (&self.base,), lower)
                &&& #[trigger] call_ensures(O::consistency, (&self.overlay,), upper)
                &&& self.consistency == if upper.strength() < lower.strength() {
                    upper
                } else {
                    lower
                }
            }
    }

    /// The snapshot is named after the two.
    pub open spec fn is_named(self) -> bool {
        exists|lower: &SnapshotId, upper: &SnapshotId|
            {
                &&& #[trigger] call_ensures(B::id, (&self.base,), lower)
                &&& #[trigger] call_ensures(O::id, (&self.overlay,), upper)
                &&& self.id@ == "overlay:"@ + lower@ + "+"@ + upper@
            }
    }

    /// The first entry with the id.
    pub open spec fn entry_at(self, id: Seq<char>, at: int) -> bool {
        &&& 0 <= at < self.documents.entries@.len()
        &&& self.documents.entries@[at].1.descriptor.id@ == id
        &&& forall|j: int|
            0 <= j < at ==> (#[trigger] self.documents.entries@[j]).1.descriptor.id@ != id
    }

    /// No entry has the id.
    pub open spec fn lacks(self, id: Seq<char>) -> bool {
        forall|j: int|
            0 <= j < self.documents.entries@.len() ==> (
            #[trigger] self.documents.entries@[j]).1.descriptor.id@ != id
    }

    fn position(&self, id: &DocumentId) -> (r: Option<usize>)
        ensures
            match r {
                Some(at) => self.entry_at(id@, at as int),
                None => self.lacks(id@),
            },
    {
        let mut i: usize = 0;
        while i < self.documents.entries.len()
            invariant
                i <= self.documents.entries@.len(),
                forall|j: int|
                    0 <= j < i ==> (#[trigger] self.documents.entries@[j]).1.descriptor.id@ != id@,
            decreases self.documents.entries@.len() - i,
        {
            if same(self.documents.entries[i].1.descriptor.id.as_str(), id.as_str()) {
                return Some(i);
            }
            i += 1;
        }
        None
    }
}

impl<B: SourceWorkspace, O: SourceWorkspace> SourceWorkspace for OverlayWorkspace<B, O> {
    type Snapshot = OverlaySnapshot<B::Snapshot, O::Snapshot>;

    fn descriptor(&self) -> (r: WorkspaceDescriptor)
        ensures
            r == self.descriptor,
    {
        self.descriptor.clone()
    }

    fn capabilities(&self) -> (r: SourceCapabilities)
        ensures
            r.streaming_enumeration,
            r.batch_read,
            !r.change_feed,
            exists|base: SourceCapabilities, overlay: SourceCapabilities|
                {
                    &&& #[trigger] call_ensures(B::capabilities, (&self.base,), base)
                    &&& #[trigger] call_ensures(O::capabilities, (&self.overlay,), overlay)
                    &&& r.exact_revision_reads == (base.exact_revision_reads
                        && overlay.exact_revision_reads)
                },
    {
        let base = self.base.capabilities();
        let overlay = self.overlay.capabilities();
        SourceCapabilities {
            streaming_enumeration: true,
            batch_read: true,
            exact_revision_reads: base.exact_revision_reads && overlay.exact_revision_reads,
            change_feed: false,
        }
    }

    fn open_snapshot(&self, request: &SnapshotRequest) -> (r: Result<
        OverlaySnapshot<B::Snapshot, O::Snapshot>,
        SourceError,
    >)
        ensures
            match r {
                Ok(snapshot) => {
                    &&& snapshot.is_overlaid()
                    &&& snapshot.has_weaker_consistency()
                    &&& snapshot.is_named()
                    &&& snapshot.workspace_id == self.descriptor.id
                    &&& may_open(self.base, request, Ok(snapshot.base))
                    &&& may_open(self.overlay, request, Ok(snapshot.overlay))
                },
                Err(error) => {
                    ||| may_open(self.base, request, Err(error))
                    ||| exists|base: B::Snapshot| #[trigger]
                        may_open(self.base, request, Ok(base)) && may_open(
                            self.overlay,
                            request,
                            Err(error),
                        )
                    ||| exists|base: B::Snapshot, overlay: O::Snapshot| #[trigger]
                        may_open(self.base, request, Ok(base)) && #[trigger] may_open(
                            self.overlay,
                            request,
                            Ok(overlay),
                        ) && (may_list(&base, Err(error)) || may_list(&overlay, Err(error)))
                },
            },
    {
        let opened = self.base.open_snapshot(request);
        assert(may_open(self.base, request, opened));
        let base = match opened {
            Ok(snapshot) => snapshot,
            Err(error) => {
                return Err(error);
            },
        };
        let opened = self.overlay.open_snapshot(request);
        assert(may_open(self.overlay, request, opened));
        let overlay = match opened {
            Ok(snapshot) => snapshot,
            Err(error) => {
                return Err(error);
            },
        };
        let query = DocumentQuery::all();
        let listed = base.documents(&query);
        assert(may_list(&base, listed));
        let below = match listed {
            Ok(documents) => documents,
            Err(error) => {
                return Err(error);
            },
        };
        let listed = overlay.documents(&query);
        assert(may_list(&overlay, listed));
        let above = match listed {
            Ok(documents) => documents,
            Err(error) => {
                return Err(error);
            },
        };
        let documents = overlay_documents(below, above);
        let lower = base.consistency();
        let upper = overlay.consistency();
        let consistency = lower.weaker(upper);
        assert(call_ensures(B::Snapshot::consistency, (&base,), lower));
        assert(call_ensures(O::Snapshot::consistency, (&overlay,), upper));
        let lower_id = base.id();
        let upper_id = overlay.id();
        assert(call_ensures(B::Snapshot::id, (&base,), lower_id));
        assert(call_ensures(O::Snapshot::id, (&overlay,), upper_id));
        let mut text = concat("overlay:", lower_id.as_str());
        text.append("+");
        text.append(upper_id.as_str());
        let id = SnapshotId::new(text.as_str());
        let ghost (lower_name, upper_name) = (*lower_id, *upper_id);
        let snapshot = OverlaySnapshot {
            id,
            workspace_id: self.descriptor.id.clone(),
            consistency,
            documents,
            base,
            overlay,
        };
        assert(may_list(&snapshot.base, Ok(below)));
        assert(may_list(&snapshot.overlay, Ok(above)));
        assert(snapshot.is_overlaid());
        assert(snapshot.has_weaker_consistency());
        assert(call_ensures(B::Snapshot::id, (&snapshot.base,), &lower_name));
        assert(call_ensures(O::Snapshot::id, (&snapshot.overlay,), &upper_name));
        assert(snapshot.is_named());
        assert(may_open(self.base, request, Ok(snapshot.base)));
        assert(may_open(self.overlay, request, Ok(snapshot.overlay)));
        Ok(snapshot)
    }
}

/// The descriptors that the query selects.
pub open spec fn selected(
    entries: Seq<(String, OverlayDocument)>,
    query: DocumentQuery,
) -> Seq<DocumentDescriptor>
    decreases entries.len(),
{
    if entries.len() == 0 {
        Seq::empty()
    } else {
        let before = selected(entries.drop_last(), query);
        let last = entries.last().1.descriptor;
        if query.selects(last) {
            before.push(last)
        } else {
            before
        }
    }
}

impl<B: SourceSnapshot, O: SourceSnapshot> SourceSnapshot for OverlaySnapshot<B, O> {
    fn id(&self) -> (r: &SnapshotId)
        ensures
            *r == self.id,
    {
        &self.id
    }

    fn workspace_id(&self) -> (r: &WorkspaceId)
        ensures
            *r == self.workspace_id,
    {
        &self.workspace_id
    }

    fn consistency(&self) -> (r: SnapshotConsistency)
        ensures
            r == self.consistency,
    {
        self.consistency
    }

    fn documents(&self, query: &DocumentQuery) -> (r: Result<Vec<DocumentDescriptor>, SourceError>)
        ensures
            r is Ok,
            same_documents(r->Ok_0@, selected(self.documents.entries@, *query)),
    {
        let ghost entries = self.documents.entries@;
        let mut out: Vec<DocumentDescriptor> = Vec::new();
        let mut i: usize = 0;
        while i < self.documents.entries.len()
            invariant
                i <= entries.len(),
                entries == self.documents.entries@,
                same_documents(out@, selected(entries.take(i as int), *query)),
            decreases entries.len() - i,
        {
            assert(entries.take(i + 1).drop_last() =~= entries.take(i as int));
            let descriptor = &self.documents.entries[i].1.descriptor;
            if query.matches(descriptor) {
                out.push(descriptor.clone());
            }
            i += 1;
        }
        assert(entries.take(i as int) =~= entries);
        Ok(out)
    }

    fn document(&self, id: &DocumentId) -> (r: Result<Option<DocumentDescriptor>, SourceError>)
        ensures
            r is Ok,
            match r->Ok_0 {
                Some(document) => exists|at: int|
                    #[trigger] self.entry_at(id@, at) && same_document(
                        document,
                        self.documents.entries@[at].1.descriptor,
                    ),
                None => self.lacks(id@),
            },
    {
        match self.position(id) {
            Some(at) => Ok(Some(self.documents.entries[at].1.descriptor.clone())),
            None => Ok(None),
        }
    }

    fn read(&self, document: &DocumentDescriptor) -> (r: Result<SourceContent, SourceError>)
        ensures
            if self.lacks(document.id@) {
                r is Err && r->Err_0.says(SourceErrorKind::NotFound, unknown_text(document.id@))
            } else {
                exists|at: int|
                    {
                        &&& #[trigger] self.entry_at(document.id@, at)
                        &&& if self.documents.entries@[at].1.overlaid {
                            call_ensures(
                                O::read,
                                (&self.overlay, &self.documents.entries@[at].1.descriptor),
                                r,
                            )
                        } else {
                            call_ensures(
                                B::read,
                                (&self.base, &self.documents.entries@[at].1.descriptor),
                                r,
                            )
                        }
                    }
            },
    {
        match self.position(&document.id) {
            None => Err(unknown_document(&document.id)),
            Some(at) => {
                let entry = &self.documents.entries[at].1;
                assert(!self.lacks(document.id@)) by {
                    assert(self.documents.entries@[at as int].1.descriptor.id@ == document.id@);
                }
                let r = if entry.overlaid {
                    self.overlay.read(&entry.descriptor)
                } else {
                    self.base.read(&entry.descriptor)
                };
                assert(self.entry_at(document.id@, at as int));
                r
            },
        }
    }
}

/// Some document has the path.
pub open spec fn has_path(documents: Seq<DocumentDescriptor>, path: Seq<char>) -> bool {
    exists|i: int|
        0 <= i < documents.len() && (#[trigger] documents[i]).location.logical_path@ == path
}

proof fn placed_facts(
    map: Map<Seq<char>, OverlayDocument>,
    documents: Seq<DocumentDescriptor>,
    overlaid: bool,
    path: Seq<char>,
)
    ensures
        has_path(documents, path) ==> {
            &&& placed(map, documents, overlaid).contains_key(path)
            &&& placed(map, documents, overlaid)[path].overlaid == overlaid
            &&& documents.contains(placed(map, documents, overlaid)[path].descriptor)
            &&& placed(map, documents, overlaid)[path].descriptor.location.logical_path@ == path
        },
        !has_path(documents, path) ==> {
            &&& placed(map, documents, overlaid).contains_key(path) == map.contains_key(path)
            &&& map.contains_key(path) ==> placed(map, documents, overlaid)[path] == map[path]
        },
    decreases documents.len(),
{
    if documents.len() > 0 {
        let front = documents.drop_last();
        let last = documents.last();
        placed_facts(map, front, overlaid, path);
        assert(documents[documents.len() - 1] == last);
        if last.location.logical_path@ == path {
            assert(has_path(documents, path));
        } else if has_path(front, path) {
            let i = choose|i: int|
                0 <= i < front.len() && (#[trigger] front[i]).location.logical_path@ == path;
            assert(documents[i].location.logical_path@ == path);
            let found = placed(map, front, overlaid)[path].descriptor;
            let k = choose|k: int| 0 <= k < front.len() && front[k] == found;
            assert(documents[k] == found);
        } else if has_path(documents, path) {
            let i = choose|i: int|
                0 <= i < documents.len() && (#[trigger] documents[i]).location.logical_path@
                    == path;
            assert(front[i].location.logical_path@ == path);
        }
    }
}

/// At each path the overlay's document is shown where there is one, else the
/// base's, and nothing where neither has one.
pub proof fn the_overlay_is_preferred(
    base: Seq<DocumentDescriptor>,
    overlay: Seq<DocumentDescriptor>,
    path: Seq<char>,
)
    ensures
        overlaid_map(base, overlay).contains_key(path) == (has_path(base, path) || has_path(
            overlay,
            path,
        )),
        has_path(overlay, path) ==> overlaid_map(base, overlay)[path].overlaid
            && overlay.contains(overlaid_map(base, overlay)[path].descriptor),
        !has_path(overlay, path) && has_path(base, path) ==> !overlaid_map(
            base,
            overlay,
        )[path].overlaid && base.contains(overlaid_map(base, overlay)[path].descriptor),
{
    placed_facts(Map::empty(), base, false, path);
    placed_facts(placed(Map::empty(), base, false), overlay, true, path);
}

/// What a query selects of an overlaid workspace is listed, and nothing else.
pub proof fn a_listing_holds_what_is_selected(
    entries: Seq<(String, OverlayDocument)>,
    query: DocumentQuery,
    k: int,
)
    requires
        0 <= k < entries.len(),
    ensures
        query.selects(entries[k].1.descriptor) ==> selected(entries, query).contains(
            entries[k].1.descriptor,
        ),
        selected(entries, query).len() <= entries.len(),
        forall|i: int|
            0 <= i < selected(entries, query).len() ==> query.selects(
                #[trigger] selected(entries, query)[i],
            ),
    decreases entries.len(),
{
    let front = entries.drop_last();
    let (before, after) = (selected(front, query), selected(entries, query));
    let own = entries[k].1.descriptor;
    if front.len() > 0 {
        a_listing_holds_what_is_selected(
            front,
            query,
            if k < front.len() {
                k
            } else {
                0
            },
        );
    } else {
        assert(before.len() == 0);
    }
    if query.selects(own) {
        if k < front.len() {
            assert(front[k] == entries[k]);
            let i = choose|i: int| 0 <= i < before.len() && before[i] == own;
            assert(after[i] == own);
        } else {
            assert(after[after.len() - 1] == own);
        }
    }
    assert forall|i: int| 0 <= i < after.len() implies query.selects(#[trigger] after[i]) by {
        if i < before.len() {
            assert(after[i] == before[i]);
        }
    }
}

/// An overlaid snapshot promises no more than the two that it is made of.
pub proof fn an_overlay_promises_no_more_than_its_parts<B: SourceSnapshot, O: SourceSnapshot>(
    snapshot: OverlaySnapshot<B, O>,
)
    requires
        snapshot.has_weaker_consistency(),
    ensures
        exists|lower: SnapshotConsistency, upper: SnapshotConsistency|
            {
                &&& #[trigger] call_ensures(B::consistency, (&snapshot.base,), lower)
                &&& #[trigger] call_ensures(O::consistency, (&snapshot.overlay,), upper)
                &&& snapshot.consistency.strength() <= lower.strength()
                &&& snapshot.consistency.strength() <= upper.strength()
            },
{
    let (lower, upper) = choose|lower: SnapshotConsistency, upper: SnapshotConsistency|
        {
            &&& #[trigger] call_ensures(B::consistency, (&snapshot.base,), lower)
            &&& #[trigger] call_ensures(O::consistency, (&snapshot.overlay,), upper)
            &&& snapshot.consistency == if upper.strength() < lower.strength() {
                upper
            } else {
                lower
            }
        };
    assert(call_ensures(B::consistency, (&snapshot.base,), lower));
    assert(call_ensures(O::consistency, (&snapshot.overlay,), upper));
}

/// A document of the overlay is read from the overlay, and any other from the base; a
/// document that neither has is not found.
pub proof fn a_document_is_read_where_it_lies<B: SourceSnapshot, O: SourceSnapshot>(
    snapshot: OverlaySnapshot<B, O>,
    document: DocumentDescriptor,
    at: int,
    r: Result<SourceContent, SourceError>,
)
    requires
        call_ensures(
            OverlaySnapshot::<B, O>::read,
            (&snapshot, &document),
            r,
        ),
    ensures
        snapshot.lacks(document.id@) ==> r is Err && r->Err_0.kind == SourceErrorKind::NotFound,
        snapshot.entry_at(document.id@, at) ==> {
            let entry = snapshot.documents.entries@[at].1;
            &&& entry.overlaid ==> call_ensures(O::read, (&snapshot.overlay, &entry.descriptor), r)
            &&& !entry.overlaid ==> call_ensures(B::read, (&snapshot.base, &entry.descriptor), r)
        },
{
    if snapshot.entry_at(document.id@, at) {
        assert(!snapshot.lacks(document.id@)) by {
            assert(snapshot.documents.entries@[at].1.descriptor.id@ == document.id@);
        }
        let other = choose|other: int|
            {
                &&& #[trigger] snapshot.entry_at(document.id@, other)
                &&& if snapshot.documents.entries@[other].1.overlaid {
                    call_ensures(
                        O::read,
                        (&snapshot.overlay, &snapshot.documents.entries@[other].1.descriptor),
                        r,
                    )
                } else {
                    call_ensures(
                        B::read,
                        (&snapshot.base, &snapshot.documents.entries@[other].1.descriptor),
                        r,
                    )
                }
            };
        if other < at {
            assert(snapshot.documents.entries@[other].1.descriptor.id@ != document.id@);
        }
        if at < other {
            assert(snapshot.documents.entries@[at].1.descriptor.id@ != document.id@);
        }
    }
}

} // verus!
