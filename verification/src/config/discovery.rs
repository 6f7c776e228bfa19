//! Where a project is rooted and which overrides lie in it.
use crate::config::settings::{
    same_override, FolderOverride, IndexOverride, OverrideFile, CONFIG_FILE,
};
use crate::order::{is_sort_order, sort_order};
use crate::path::{
    components, is_below, lies_below, order_key, order_key_of, relative_path, relative_to,
    same_path,
};
use crate::text::{same, starts_with, views};
use vstd::prelude::*;

verus! {

/// A configuration file found on the way up.
#[derive(Debug)]
pub struct FoundFile {
    /// The directory that carries it.
    pub dir: String,
    /// Whether it marks itself as a project root.
    pub is_root: bool,
}

/// How many of the files found on the way up take part: up to the first that marks
/// itself as a root, that one included.
pub open spec fn walk_length(found: Seq<FoundFile>) -> nat
    decreases found.len(),
{
    if found.len() == 0 {
        0
    } else if found[0].is_root {
        1
    } else {
        1 + walk_length(found.skip(1))
    }
}

/// The walk stops within the files.
pub proof fn walk_length_bounded(found: Seq<FoundFile>)
    ensures
        walk_length(found) <= found.len(),
        found.len() > 0 ==> walk_length(found) > 0,
    decreases found.len(),
{
    if found.len() > 0 && !found[0].is_root {
        walk_length_bounded(found.skip(1));
    }
}

/// Whether a walk that found these files, nearest first, goes on further up.
pub fn walk_continues(found: &Vec<FoundFile>) -> (r: bool)
    ensures
        r == (forall|i: int| 0 <= i < found@.len() ==> !(#[trigger] found@[i]).is_root),
{
    let mut i: usize = 0;
    while i < found.len()
        invariant
            i <= found@.len(),
            forall|j: int| 0 <= j < i ==> !(#[trigger] found@[j]).is_root,
        decreases found@.len() - i,
    {
        if found[i].is_root {
            return false;
        }
        i += 1;
    }
    true
}

/// Where a project is anchored.
#[derive(Debug)]
pub struct Anchor {
    /// The file of the root, by its place among those found.
    pub root: usize,
    /// The files below the root, by their places, root first, with their
    /// directories relative to the root.
    pub overrides: Vec<(usize, String)>,
}

/// The anchor of the files: the topmost that takes part is the root, those below it
/// are the overrides.
pub open spec fn is_anchor(anchor: Anchor, found: Seq<FoundFile>) -> bool {
    let n = walk_length(found);
    &&& anchor.root == n - 1
    &&& anchor.overrides@.len() == n - 1
    &&& forall|i: int|
        0 <= i < n - 1 ==> {
            let place = n - 2 - i;
            &&& (#[trigger] anchor.overrides@[i]).0 == place
            &&& relative_to(found[place].dir@, found[n - 1].dir@) == Some(
                anchor.overrides@[i].1@,
            )
        }
}

fn walk_length_of(found: &Vec<FoundFile>) -> (r: usize)
    ensures
        r == walk_length(found@),
{
    let mut i: usize = 0;
    assert(found@.skip(0) =~= found@);
    while i < found.len()
        invariant
            i <= found@.len(),
            walk_length(found@) == i + walk_length(found@.skip(i as int)),
        decreases found@.len() - i,
    {
        assert(found@.skip(i as int)[0] == found@[i as int]);
        assert(found@.skip(i as int).skip(1) =~= found@.skip(i + 1));
        if found[i].is_root {
            assert(i < found.len());
            return i + 1;
        }
        i += 1;
    }
    i
}

/// Anchors a project: the files are given nearest first, as the walk up from the
/// working directory finds them. The nearest file does not win: that would anchor a
/// project at an override in a subfolder. Nothing comes back where no file was
/// found, or where a file below does not lie below the root.
pub fn anchor(found: &Vec<FoundFile>) -> (r: Option<Anchor>)
    ensures
        match r {
            Some(anchor) => found@.len() > 0 && is_anchor(anchor, found@),
            None => found@.len() == 0 || exists|place: int|
                0 <= place < walk_length(found@) - 1 && relative_to(
                    (#[trigger] found@[place]).dir@,
                    found@[walk_length(found@) - 1].dir@,
                ) is None,
        },
{
    proof {
        walk_length_bounded(found@);
    }
    let n: usize = walk_length_of(found);
    if n == 0 {
        return None;
    }
    let mut overrides: Vec<(usize, String)> = Vec::new();
    let mut left: usize = n - 1;
    while left > 0
        invariant
            left <= n - 1,
            n == walk_length(found@),
            n <= found@.len(),
            overrides@.len() == n - 1 - left,
            forall|i: int|
                0 <= i < overrides@.len() ==> {
                    let place = n - 2 - i;
                    &&& (#[trigger] overrides@[i]).0 == place
                    &&& relative_to(found@[place].dir@, found@[n - 1].dir@) == Some(
                        overrides@[i].1@,
                    )
                },
        decreases left,
    {
        let place: usize = left - 1;
        match relative_path(found[place].dir.as_str(), found[n - 1].dir.as_str()) {
            Some(relative) => {
                overrides.push((place, relative));
            },
            None => {
                assert(relative_to(found@[place as int].dir@, found@[n - 1].dir@) is None);
                return None;
            },
        }
        left -= 1;
    }
    Some(Anchor { root: n - 1, overrides })
}

/// What a walk down through a project does at an entry.
#[derive(Debug, Clone, Copy, PartialEq, Eq, Structural)]
pub enum WalkStep {
    /// Go into the directory.
    Descend,
    /// Read the file as an override.
    Read,
    Skip,
}

/// What is done at an entry: hidden directories are passed over, and so is the
/// root's own file. A name that is no text is none of these. In a directory that is
/// marked as a project of its own everything is passed over.
pub open spec fn walk_step_for(
    name: Option<Seq<char>>,
    is_dir: bool,
    at_root: bool,
    marked: bool,
) -> WalkStep {
    if marked {
        WalkStep::Skip
    } else if is_dir {
        if name is Some && "."@.is_prefix_of(name->0) {
            WalkStep::Skip
        } else {
            WalkStep::Descend
        }
    } else if name == Some(CONFIG_FILE@) && !at_root {
        WalkStep::Read
    } else {
        WalkStep::Skip
    }
}

/// What a walk down through a project does at an entry. `marked` says of the
/// directory that holds the entry that its file marks a project root; the file that
/// the outer project is rooted at marks nothing here.
pub fn walk_step(name: Option<&str>, is_dir: bool, at_root: bool, marked: bool) -> (r: WalkStep)
    ensures
        r == walk_step_for(crate::config::settings::text_view(name), is_dir, at_root, marked),
{
    if marked {
        return WalkStep::Skip;
    }
    let (hidden, config) = match name {
        Some(name) => (starts_with(name, "."), same(name, CONFIG_FILE)),
        None => (false, false),
    };
    if is_dir {
        if hidden {
            WalkStep::Skip
        } else {
            WalkStep::Descend
        }
    } else if config && !at_root {
        WalkStep::Read
    } else {
        WalkStep::Skip
    }
}

/// The override by which a nested project takes itself out of the outer one.
pub open spec fn excludes_itself(file: OverrideFile, dir: Seq<char>) -> bool {
    &&& file.relative_dir@ == dir
    &&& !file.settings.root
    &&& file.settings.index == Some(IndexOverride::Enabled(false))
    &&& file.settings.search is None
}

/// A directory lies in none of the nested projects.
pub open spec fn outside(dir: Seq<char>, nested: Seq<Seq<char>>) -> bool {
    forall|j: int| 0 <= j < nested.len() ==> !lies_below(dir, #[trigger] nested[j])
}

/// A nested project lies in no other.
pub open spec fn outermost(dir: Seq<char>, nested: Seq<Seq<char>>) -> bool {
    forall|j: int|
        0 <= j < nested.len() && lies_below(dir, #[trigger] nested[j]) ==> components(dir)
            == components(nested[j])
}

/// The files that lie in none of the nested projects.
pub open spec fn outer_files(files: Seq<OverrideFile>, nested: Seq<Seq<char>>) -> Seq<
    OverrideFile,
> {
    files.filter(|file: OverrideFile| outside(file.relative_dir@, nested))
}

/// The nested projects that lie in no other.
pub open spec fn outer_projects(nested: Seq<Seq<char>>) -> Seq<Seq<char>> {
    nested.filter(|dir: Seq<char>| outermost(dir, nested))
}

/// The files and then one for each nested project.
pub open spec fn with_nested(
    all: Seq<OverrideFile>,
    files: Seq<OverrideFile>,
    nested: Seq<Seq<char>>,
) -> bool {
    &&& all.len() == files.len() + nested.len()
    &&& forall|i: int| 0 <= i < files.len() ==> same_override(#[trigger] all[i], files[i])
    &&& forall|i: int|
        0 <= i < nested.len() ==> excludes_itself(#[trigger] all[files.len() + i], nested[i])
}

/// Whether a directory lies in none of the nested projects.
fn is_outside(dir: &str, nested: &Vec<String>) -> (r: bool)
    ensures
        r == outside(dir@, views(nested@)),
{
    let mut j: usize = 0;
    while j < nested.len()
        invariant
            j <= nested@.len(),
            forall|k: int| 0 <= k < j ==> !lies_below(dir@, #[trigger] views(nested@)[k]),
        decreases nested@.len() - j,
    {
        if is_below(dir, nested[j].as_str()) {
            assert(lies_below(dir@, views(nested@)[j as int]));
            return false;
        }
        j += 1;
    }
    true
}

/// Whether a nested project lies in no other.
fn is_outermost(dir: &str, nested: &Vec<String>) -> (r: bool)
    ensures
        r == outermost(dir@, views(nested@)),
{
    let mut j: usize = 0;
    while j < nested.len()
        invariant
            j <= nested@.len(),
            forall|k: int|
                0 <= k < j && lies_below(dir@, #[trigger] views(nested@)[k]) ==> components(dir@)
                    == components(views(nested@)[k]),
        decreases nested@.len() - j,
    {
        let other = nested[j].as_str();
        if is_below(dir, other) && !same_path(dir, other) {
            assert(lies_below(dir@, views(nested@)[j as int]));
            return false;
        }
        j += 1;
    }
    true
}

/// The order keys of the files' directories.
pub open spec fn order_keys(files: Seq<OverrideFile>) -> Seq<Seq<char>> {
    Seq::new(files.len(), |i: int| order_key(components(files[i].relative_dir@)))
}

/// The files in the order of their directories.
pub open spec fn in_directory_order(sorted: Seq<OverrideFile>, all: Seq<OverrideFile>) -> bool {
    exists|order: Seq<usize>|
        #[trigger] is_sort_order(order, order_keys(all), all.len() as int) && sorted.len()
            == all.len() && forall|i: int|
            0 <= i < all.len() ==> same_override(#[trigger] sorted[i], all[order[i] as int])
}

fn same_as_itself(file: &OverrideFile) -> (r: OverrideFile)
    ensures
        same_override(r, *file),
{
    file.clone()
}

/// All overrides of a project: those that were read, and one for each nested
/// project, which excludes itself from the outer one; in the order of their
/// directories. A nested project is skipped entirely: what lies in it is left out,
/// other nested projects among it.
pub fn collect_overrides(files: &Vec<OverrideFile>, nested_roots: &Vec<String>) -> (r: Vec<
    OverrideFile,
>)
    ensures
        exists|all: Seq<OverrideFile>| #[trigger]
            with_nested(
                all,
                outer_files(files@, views(nested_roots@)),
                outer_projects(views(nested_roots@)),
            ) && in_directory_order(r@, all),
{
    let ghost nested = views(nested_roots@);
    let ghost own = |file: OverrideFile| outside(file.relative_dir@, nested);
    let ghost apart = |dir: Seq<char>| outermost(dir, nested);
    let mut all: Vec<OverrideFile> = Vec::new();
    let mut i: usize = 0;
    proof {
        reveal(Seq::filter);
    }
    assert(files@.take(0).filter(own) =~= Seq::<OverrideFile>::empty());
    while i < files.len()
        invariant
            i <= files@.len(),
            nested == views(nested_roots@),
            own == (|file: OverrideFile| outside(file.relative_dir@, nested)),
            all@.len() == files@.take(i as int).filter(own).len(),
            forall|j: int|
                0 <= j < all@.len() ==> same_override(
                    #[trigger] all@[j],
                    files@.take(i as int).filter(own)[j],
                ),
        decreases files@.len() - i,
    {
        proof {
            reveal(Seq::filter);
        }
        let ghost longer = files@.take(i + 1);
        assert(longer.drop_last() =~= files@.take(i as int));
        assert(longer.last() == files@[i as int]);
        if is_outside(files[i].relative_dir.as_str(), nested_roots) {
            all.push(same_as_itself(&files[i]));
        }
        i += 1;
    }
    assert(files@.take(i as int) =~= files@);
    let ghost kept = outer_files(files@, nested);
    assert(kept =~= files@.filter(own));
    let mut k: usize = 0;
    assert(nested.take(0).filter(apart) =~= Seq::<Seq<char>>::empty());
    while k < nested_roots.len()
        invariant
            k <= nested_roots@.len(),
            nested == views(nested_roots@),
            apart == (|dir: Seq<char>| outermost(dir, nested)),
            all@.len() == kept.len() + nested.take(k as int).filter(apart).len(),
            forall|j: int| 0 <= j < kept.len() ==> same_override(#[trigger] all@[j], kept[j]),
            forall|j: int|
                0 <= j < nested.take(k as int).filter(apart).len() ==> excludes_itself(
                    #[trigger] all@[kept.len() + j],
                    nested.take(k as int).filter(apart)[j],
                ),
        decreases nested_roots@.len() - k,
    {
        proof {
            reveal(Seq::filter);
        }
        let ghost longer = nested.take(k + 1);
        assert(longer.drop_last() =~= nested.take(k as int));
        assert(longer.last() == nested_roots@[k as int]@);
        if is_outermost(nested_roots[k].as_str(), nested_roots) {
            all.push(
                OverrideFile {
                    relative_dir: nested_roots[k].clone(),
                    settings: FolderOverride {
                        root: false,
                        index: Some(IndexOverride::Enabled(false)),
                        search: None,
                    },
                },
            );
        }
        k += 1;
    }
    assert(nested.take(k as int) =~= nested);
    assert(outer_projects(nested) =~= nested.filter(apart));
    let mut keys: Vec<String> = Vec::new();
    let mut m: usize = 0;
    while m < all.len()
        invariant
            m <= all@.len(),
            views(keys@) == order_keys(all@.take(m as int)),
        decreases all@.len() - m,
    {
        let ghost before = keys@;
        let key = order_key_of(all[m].relative_dir.as_str());
        keys.push(key);
        m += 1;
        assert(views(keys@) =~= views(before).push(key@));
        assert(views(keys@) =~= order_keys(all@.take(m as int)));
    }
    assert(all@.take(m as int) =~= all@);
    assert(keys@.len() == views(keys@).len());
    let order = sort_order(&keys);
    let mut sorted: Vec<OverrideFile> = Vec::new();
    let mut n: usize = 0;
    while n < order.len()
        invariant
            n <= order@.len() == all@.len(),
            views(keys@) == order_keys(all@),
            is_sort_order(order@, order_keys(all@), all@.len() as int),
            sorted@.len() == n,
            forall|j: int|
                0 <= j < n ==> same_override(#[trigger] sorted@[j], all@[order@[j] as int]),
        decreases order@.len() - n,
    {
        assert(0 <= order@[n as int] < all@.len());
        sorted.push(same_as_itself(&all[order[n]]));
        n += 1;
    }
    assert(with_nested(all@, kept, outer_projects(nested)));
    assert(in_directory_order(sorted@, all@));
    sorted
}

/// Nothing that lies in a nested project reaches the outer one: the override by which
/// it excludes itself is all that stands for it.
pub proof fn nested_projects_are_skipped(
    all: Seq<OverrideFile>,
    files: Seq<OverrideFile>,
    nested: Seq<Seq<char>>,
    i: int,
    at: int,
)
    requires
        with_nested(all, outer_files(files, nested), outer_projects(nested)),
        0 <= i < all.len(),
        0 <= at < nested.len(),
        lies_below(all[i].relative_dir@, nested[at]),
    ensures
        excludes_itself(all[i], all[i].relative_dir@),
        components(all[i].relative_dir@) == components(nested[at]),
{
    let kept = outer_files(files, nested);
    let own = |file: OverrideFile| outside(file.relative_dir@, nested);
    let apart = |dir: Seq<char>| outermost(dir, nested);
    if i < kept.len() {
        files.lemma_filter_pred(own, i);
    } else {
        let k = i - kept.len();
        nested.lemma_filter_pred(apart, k);
        assert(excludes_itself(all[kept.len() + k], outer_projects(nested)[k]));
    }
}

/// Of two anchors from the same way up, a root marker further down is the one that
/// counts: what lies above the first marked file does not matter.
pub proof fn a_root_marker_stops_the_walk(below: Seq<FoundFile>, above: Seq<FoundFile>)
    requires
        below.len() > 0,
        below.last().is_root,
        forall|i: int| 0 <= i < below.len() - 1 ==> !(#[trigger] below[i]).is_root,
    ensures
        walk_length(below + above) == below.len(),
    decreases below.len(),
{
    let all = below + above;
    assert(all[0] == below[0]);
    if below.len() > 1 {
        assert(!below[0].is_root);
        assert(all.skip(1) =~= below.skip(1) + above);
        a_root_marker_stops_the_walk(below.skip(1), above);
    } else {
        assert(below[0] == below.last());
    }
}

/// Without a root marker the topmost file is the root, not the nearest.
pub proof fn the_topmost_file_is_the_root(found: Seq<FoundFile>)
    requires
        forall|i: int| 0 <= i < found.len() ==> !(#[trigger] found[i]).is_root,
    ensures
        walk_length(found) == found.len(),
    decreases found.len(),
{
    if found.len() > 0 {
        assert(!found[0].is_root);
        the_topmost_file_is_the_root(found.skip(1));
    }
}

/// A walk goes into every directory that is not hidden and reads every configuration file
/// but the root's own; what is marked as a project of its own is left alone.
pub proof fn a_walk_reads_every_override(
    name: Option<Seq<char>>,
    is_dir: bool,
    at_root: bool,
    marked: bool,
)
    ensures
        walk_step_for(name, is_dir, at_root, marked) == WalkStep::Descend <==> is_dir && !marked
            && !(name is Some && "."@.is_prefix_of(name->0)),
        walk_step_for(name, is_dir, at_root, marked) == WalkStep::Read <==> !is_dir && !marked
            && !at_root && name == Some(".codeindex.toml"@),
{
}

/// The root of a project is the nearest file that marks itself as one, else the topmost; the
/// files below it are its overrides, the nearest to the root first.
pub proof fn a_project_is_anchored_at_its_root(anchor: Anchor, found: Seq<FoundFile>)
    requires
        is_anchor(anchor, found),
        0 < found.len() <= usize::MAX,
    ensures
        anchor.root < found.len(),
        found[anchor.root as int].is_root || anchor.root == found.len() - 1,
        forall|i: int| 0 <= i < anchor.root ==> !(#[trigger] found[i]).is_root,
        anchor.overrides@.len() == anchor.root,
        forall|i: int, j: int|
            0 <= i < j < anchor.overrides@.len() ==> (#[trigger] anchor.overrides@[i]).0 > (
            #[trigger] anchor.overrides@[j]).0,
        forall|i: int|
            0 <= i < anchor.overrides@.len() ==> (#[trigger] anchor.overrides@[i]).0 < anchor.root
                && relative_to(
                found[anchor.overrides@[i].0 as int].dir@,
                found[anchor.root as int].dir@,
            ) == Some(anchor.overrides@[i].1@),
{
    walk_length_bounded(found);
    walks_end_at_roots(found);
}

proof fn walks_end_at_roots(found: Seq<FoundFile>)
    requires
        found.len() > 0,
    ensures
        found[walk_length(found) - 1].is_root || walk_length(found) == found.len(),
        forall|i: int| 0 <= i < walk_length(found) - 1 ==> !(#[trigger] found[i]).is_root,
    decreases found.len(),
{
    if !found[0].is_root {
        let rest = found.skip(1);
        if rest.len() > 0 {
            walks_end_at_roots(rest);
            walk_length_bounded(rest);
            assert(rest[walk_length(rest) - 1] == found[walk_length(found) - 1]);
            assert forall|i: int| 0 <= i < walk_length(found) - 1 implies !(
            #[trigger] found[i]).is_root by {
                if i > 0 {
                    assert(rest[i - 1] == found[i]);
                }
            }
        } else {
            assert(walk_length(rest) == 0);
        }
    }
}

/// The overrides are all there, and none comes before one whose directory comes before its
/// own.
pub proof fn overrides_stand_in_the_order_of_their_directories(
    sorted: Seq<OverrideFile>,
    all: Seq<OverrideFile>,
    k: int,
)
    requires
        in_directory_order(sorted, all),
        all.len() <= usize::MAX,
        0 <= k < all.len(),
    ensures
        sorted.len() == all.len(),
        exists|i: int| 0 <= i < sorted.len() && same_override(#[trigger] sorted[i], all[k]),
        forall|i: int, j: int|
            0 <= i < j < sorted.len() ==> !crate::text::lex_less(
                order_key(components((#[trigger] sorted[j]).relative_dir@)),
                order_key(components((#[trigger] sorted[i]).relative_dir@)),
            ),
{
    let keys = order_keys(all);
    let order = choose|order: Seq<usize>| #[trigger]
        is_sort_order(order, keys, all.len() as int) && sorted.len() == all.len() && forall|i: int|
            0 <= i < all.len() ==> same_override(#[trigger] sorted[i], all[order[i] as int]);
    assert(order.contains(k as usize));
    let place = choose|i: int| 0 <= i < order.len() && order[i] == k as usize;
    assert(same_override(sorted[place], all[k]));
    assert forall|i: int, j: int| 0 <= i < j < sorted.len() implies !crate::text::lex_less(
        order_key(components((#[trigger] sorted[j]).relative_dir@)),
        order_key(components((#[trigger] sorted[i]).relative_dir@)),
    ) by {
        let (a, b) = (order[i] as int, order[j] as int);
        assert(crate::order::comes_before(keys, a, b));
        assert(same_override(sorted[i], all[a]) && same_override(sorted[j], all[b]));
        crate::text::lex_less_is_strict_order(keys[a], keys[b], keys[a]);
        crate::text::lex_less_is_strict_order(keys[b], keys[a], keys[b]);
    }
}

} // verus!
