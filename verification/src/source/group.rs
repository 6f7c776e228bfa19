//! Documents by root.
use crate::order::{chosen, chosen_numbers, is_sort_order, sort_order};
use crate::source::document::{same_document, DocumentDescriptor};
use crate::text::{same, views};
use crate::text_map::TextMap;
use vstd::prelude::*;
use vstd::string::*;

verus! {

/// The document lies under the root.
pub open spec fn lies_under(document: DocumentDescriptor, root: Seq<char>) -> bool {
    document.location.root@ == root
}

/// The numbers of the documents under the root.
pub open spec fn rows_of(documents: Seq<DocumentDescriptor>, root: Seq<char>) -> Seq<usize> {
    chosen(documents.len(), |i: int| lies_under(documents[i], root))
}

/// The paths of the documents in the rows.
pub open spec fn paths_of(documents: Seq<DocumentDescriptor>, rows: Seq<usize>) -> Seq<Seq<char>> {
    Seq::new(rows.len(), |i: int| documents[rows[i] as int].location.logical_path@)
}

/// The group holds the documents under the root in the order of their paths.
pub open spec fn is_group(
    group: Seq<DocumentDescriptor>,
    documents: Seq<DocumentDescriptor>,
    root: Seq<char>,
) -> bool {
    let rows = rows_of(documents, root);
    exists|order: Seq<usize>|
        {
            &&& #[trigger] is_sort_order(order, paths_of(documents, rows), rows.len() as int)
            &&& group.len() == rows.len()
            &&& forall|i: int|
                0 <= i < group.len() ==> same_document(
                    #[trigger] group[i],
                    documents[rows[order[i] as int] as int],
                )
        }
}

/// Some document lies under the root.
pub open spec fn has_root(documents: Seq<DocumentDescriptor>, root: Seq<char>) -> bool {
    exists|i: int| 0 <= i < documents.len() && (#[trigger] documents[i]).location.root@ == root
}

fn group_under(documents: &Vec<DocumentDescriptor>, root: &str) -> (r: Vec<DocumentDescriptor>)
    ensures
        is_group(r@, documents@, root@),
{
    let ghost choice = |i: int| lies_under(documents@[i], root@);
    let ghost rows_all = rows_of(documents@, root@);
    let mut rows: Vec<usize> = Vec::new();
    let mut paths: Vec<String> = Vec::new();
    let mut i: usize = 0;
    while i < documents.len()
        invariant
            i <= documents@.len(),
            choice == (|i: int| lies_under(documents@[i], root@)),
            rows@ == chosen(i as nat, choice),
            views(paths@) == paths_of(documents@, rows@),
        decreases documents@.len() - i,
    {
        if same(documents[i].location.root.as_str(), root) {
            let ghost before = paths@;
            let path = documents[i].location.logical_path.clone();
            rows.push(i);
            paths.push(path);
            assert(views(paths@) =~= views(before).push(path@));
            assert(views(paths@) =~= paths_of(documents@, rows@));
        }
        i += 1;
    }
    assert(rows@ == rows_all);
    assert(documents.len() <= usize::MAX);
    proof {
        chosen_numbers(documents@.len(), choice);
    }
    assert(paths@.len() == views(paths@).len());
    let order = sort_order(&paths);
    let mut group: Vec<DocumentDescriptor> = Vec::new();
    let mut k: usize = 0;
    while k < order.len()
        invariant
            k <= order@.len() == rows@.len(),
            is_sort_order(order@, paths_of(documents@, rows@), rows@.len() as int),
            forall|j: int| 0 <= j < rows@.len() ==> (#[trigger] rows@[j]) < documents@.len(),
            group@.len() == k,
            forall|j: int|
                0 <= j < k ==> same_document(
                    #[trigger] group@[j],
                    documents@[rows@[order@[j] as int] as int],
                ),
        decreases order@.len() - k,
    {
        assert(0 <= order@[k as int] < rows@.len());
        let at: usize = rows[order[k]];
        group.push(documents[at].clone());
        k += 1;
    }
    assert(is_sort_order(order@, paths_of(documents@, rows_all), rows_all.len() as int));
    group
}

/// The documents by the roots that they lie under, each group in the order of its
/// paths.
pub fn group_documents_by_root(documents: &Vec<DocumentDescriptor>) -> (r: TextMap<
    Vec<DocumentDescriptor>,
>)
    ensures
        r.wf(),
        forall|root: Seq<char>|
            #[trigger] r@.contains_key(root) == has_root(documents@, root),
        forall|root: Seq<char>|
            #[trigger] r@.contains_key(root) ==> is_group(r@[root]@, documents@, root),
{
    let mut grouped: TextMap<Vec<DocumentDescriptor>> = TextMap::new();
    let mut i: usize = 0;
    while i < documents.len()
        invariant
            i <= documents@.len(),
            grouped.wf(),
            forall|root: Seq<char>|
                #[trigger] grouped@.contains_key(root) == has_root(
                    documents@.take(i as int),
                    root,
                ),
            forall|root: Seq<char>|
                #[trigger] grouped@.contains_key(root) ==> is_group(
                    grouped@[root]@,
                    documents@,
                    root,
                ),
        decreases documents@.len() - i,
    {
        let ghost own = documents@[i as int].location.root@;
        let ghost before = grouped@;
        let root = documents[i].location.root.as_str();
        if grouped.get(root).is_none() {
            let group = group_under(documents, root);
            grouped.insert(root.to_owned(), group);
        }
        proof {
            let now = documents@.take(i as int);
            let next = documents@.take(i + 1);
            assert forall|root: Seq<char>| #[trigger] grouped@.contains_key(root) == has_root(
                next,
                root,
            ) by {
                if has_root(now, root) {
                    let k = choose|k: int|
                        0 <= k < now.len() && (#[trigger] now[k]).location.root@ == root;
                    assert(next[k].location.root@ == root);
                }
                if root == own {
                    assert(next[i as int].location.root@ == root);
                } else if has_root(next, root) {
                    let k = choose|k: int|
                        0 <= k < next.len() && (#[trigger] next[k]).location.root@ == root;
                    assert(now[k].location.root@ == root);
                }
                assert(before.contains_key(root) == has_root(now, root));
            }
            assert forall|root: Seq<char>| #[trigger] grouped@.contains_key(root) implies is_group(
                grouped@[root]@,
                documents@,
                root,
            ) by {
                if root != own {
                    assert(before.contains_key(root));
                }
            }
        }
        i += 1;
    }
    assert(documents@.take(i as int) =~= documents@);
    grouped
}

/// A group holds the documents of its root, each of them and no others, in the order of
/// their paths.
pub proof fn a_group_holds_its_root(
    group: Seq<DocumentDescriptor>,
    documents: Seq<DocumentDescriptor>,
    root: Seq<char>,
)
    requires
        is_group(group, documents, root),
        documents.len() <= usize::MAX,
    ensures
        forall|i: int| 0 <= i < group.len() ==> (#[trigger] group[i]).location.root@ == root,
        forall|k: int|
            0 <= k < documents.len() && (#[trigger] documents[k]).location.root@ == root
                ==> exists|i: int|
                0 <= i < group.len() && same_document(#[trigger] group[i], documents[k]),
        forall|i: int, j: int|
            0 <= i < j < group.len() ==> !crate::text::lex_less(
                (#[trigger] group[j]).location.logical_path@,
                (#[trigger] group[i]).location.logical_path@,
            ),
{
    let rows = rows_of(documents, root);
    let choice = |i: int| lies_under(documents[i], root);
    assert(rows == chosen(documents.len(), choice));
    chosen_numbers(documents.len(), choice);
    rows_are_few(documents.len(), choice);
    let keys = paths_of(documents, rows);
    let order = choose|order: Seq<usize>|
        {
            &&& #[trigger] is_sort_order(order, keys, rows.len() as int)
            &&& group.len() == rows.len()
            &&& forall|i: int|
                0 <= i < group.len() ==> same_document(
                    #[trigger] group[i],
                    documents[rows[order[i] as int] as int],
                )
        };
    assert forall|i: int| 0 <= i < group.len() implies (#[trigger] group[i]).location.root@
        == root by {
        let row = rows[order[i] as int];
        assert(same_document(group[i], documents[row as int]));
        assert(choice(row as int));
    }
    assert forall|k: int|
        0 <= k < documents.len() && (#[trigger] documents[k]).location.root@
            == root implies exists|i: int|
        0 <= i < group.len() && same_document(#[trigger] group[i], documents[k]) by {
        assert(choice(k));
        assert(rows.contains(k as usize));
        let r = choose|r: int| 0 <= r < rows.len() && rows[r] == k as usize;
        assert(order.contains(r as usize));
        let i = choose|i: int| 0 <= i < order.len() && order[i] == r as usize;
        assert(same_document(group[i], documents[k]));
    }
    assert forall|i: int, j: int| 0 <= i < j < group.len() implies !crate::text::lex_less(
        (#[trigger] group[j]).location.logical_path@,
        (#[trigger] group[i]).location.logical_path@,
    ) by {
        let (a, b) = (order[i] as int, order[j] as int);
        assert(crate::order::comes_before(keys, a, b));
        assert(same_document(group[i], documents[rows[a] as int]));
        assert(same_document(group[j], documents[rows[b] as int]));
        crate::text::lex_less_is_strict_order(keys[a], keys[b], keys[a]);
        crate::text::lex_less_is_strict_order(keys[b], keys[a], keys[b]);
    }
}

proof fn rows_are_few(n: nat, choice: spec_fn(int) -> bool)
    ensures
        chosen(n, choice).len() <= n,
    decreases n,
{
    if n > 0 {
        rows_are_few((n - 1) as nat, choice);
    }
}

} // verus!
