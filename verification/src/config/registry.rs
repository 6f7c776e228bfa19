//! The registry of added project roots.
use crate::path::{components, components_of, lies_below, same_path, starts_with_components};
use crate::text::{
    concat, debug_literal, debug_quote, decimal, decimal_reads_back, same, wide_decimal,
};
use vstd::prelude::*;
use vstd::string::*;

verus! {

/// One registered project.
#[derive(Debug)]
pub struct RegisteredProject {
    pub label: String,
    pub root: String,
    pub db: String,
}

impl Clone for RegisteredProject {
    fn clone(&self) -> (r: Self)
        ensures
            r == *self,
    {
        Self { label: self.label.clone(), root: self.root.clone(), db: self.db.clone() }
    }
}

/// The added project roots. This is the only global state; all else is rebuilt from
/// it and the databases of the projects.
#[derive(Debug)]
pub struct Registry {
    pub projects: Vec<RegisteredProject>,
}

/// A project has the label.
pub open spec fn label_taken(projects: Seq<RegisteredProject>, label: Seq<char>) -> bool {
    exists|i: int| 0 <= i < projects.len() && (#[trigger] projects[i]).label@ == label
}

/// The project is the first with the root.
pub open spec fn first_with_root(
    projects: Seq<RegisteredProject>,
    root: Seq<char>,
    at: int,
) -> bool {
    &&& 0 <= at < projects.len()
    &&& components(projects[at].root@) == components(root)
    &&& forall|j: int|
        0 <= j < at ==> components((#[trigger] projects[j]).root@) != components(root)
}

/// No project has the root.
pub open spec fn root_is_new(projects: Seq<RegisteredProject>, root: Seq<char>) -> bool {
    forall|j: int|
        0 <= j < projects.len() ==> components((#[trigger] projects[j]).root@) != components(root)
}

/// The labels that are tried for a hint: the hint, then the hint with a number.
pub open spec fn label_candidate(hint: Seq<char>, k: nat) -> Seq<char> {
    if k == 0 {
        hint
    } else {
        hint + "-"@ + decimal(k + 1)
    }
}

/// The label that a hint leads to: the first candidate that is not taken.
pub open spec fn is_free_label(
    projects: Seq<RegisteredProject>,
    hint: Seq<char>,
    label: Seq<char>,
    k: nat,
) -> bool {
    &&& label == label_candidate(hint, k)
    &&& !label_taken(projects, label)
    &&& forall|j: nat| j < k ==> label_taken(projects, #[trigger] label_candidate(hint, j))
}

/// No two projects share a label.
pub open spec fn labels_differ(projects: Seq<RegisteredProject>) -> bool {
    forall|i: int, j: int|
        0 <= i < j < projects.len() ==> (#[trigger] projects[i]).label@ != (
        #[trigger] projects[j]).label@
}

/// What registering a root does: a root that is registered is given back as it is, and
/// the label hint and the database do not matter; a new root comes last, under the
/// hint or, where that is taken, under the hint with the least number from 2 on that
/// is free.
pub open spec fn registers(
    before: Seq<RegisteredProject>,
    root: Seq<char>,
    hint: Seq<char>,
    db: String,
    after: Seq<RegisteredProject>,
    r: RegisteredProject,
) -> bool {
    if root_is_new(before, root) {
        &&& after == before.push(r)
        &&& r.root@ == root
        &&& r.db == db
        &&& exists|k: nat| #[trigger] is_free_label(before, hint, r.label@, k)
    } else {
        &&& after == before
        &&& exists|at: int| #[trigger] first_with_root(before, root, at) && before[at] == r
    }
}

/// A registered project lies around the path: it holds it, and no registered root
/// that holds it is deeper, nor as deep and registered later.
pub open spec fn deepest_around(
    projects: Seq<RegisteredProject>,
    path: Seq<char>,
    at: int,
) -> bool {
    &&& 0 <= at < projects.len()
    &&& lies_below(path, projects[at].root@)
    &&& forall|j: int|
        0 <= j < projects.len() && lies_below(path, (#[trigger] projects[j]).root@) ==> {
            &&& components(projects[j].root@).len() <= components(projects[at].root@).len()
            &&& j > at ==> components(projects[j].root@).len() < components(
                projects[at].root@,
            ).len()
        }
}

/// The project is the first with the label.
pub open spec fn first_with_label(
    projects: Seq<RegisteredProject>,
    label: Seq<char>,
    at: int,
) -> bool {
    &&& 0 <= at < projects.len()
    &&& projects[at].label@ == label
    &&& forall|j: int| 0 <= j < at ==> (#[trigger] projects[j]).label@ != label
}

/// Where a text leads: to the project with the label, else to the deepest one
/// around the path.
pub open spec fn found_at(projects: Seq<RegisteredProject>, needle: Seq<char>, at: int) -> bool {
    if label_taken(projects, needle) {
        first_with_label(projects, needle, at)
    } else {
        deepest_around(projects, needle, at)
    }
}

/// The text leads nowhere.
pub open spec fn found_nowhere(projects: Seq<RegisteredProject>, needle: Seq<char>) -> bool {
    &&& !label_taken(projects, needle)
    &&& forall|j: int|
        0 <= j < projects.len() ==> !lies_below(needle, (#[trigger] projects[j]).root@)
}

/// The project is named by its label or its root.
pub open spec fn named_by(project: RegisteredProject, needle: Seq<char>) -> bool {
    project.label@ == needle || components(project.root@) == components(needle)
}

/// The first project that the text names.
pub open spec fn first_named(projects: Seq<RegisteredProject>, needle: Seq<char>, at: int) -> bool {
    &&& 0 <= at < projects.len()
    &&& named_by(projects[at], needle)
    &&& forall|j: int| 0 <= j < at ==> !named_by(#[trigger] projects[j], needle)
}

/// What is said where no project matches.
pub open spec fn no_match_text(needle: Seq<char>) -> Seq<char> {
    "no registered project matches "@ + debug_literal(needle)
}

/// What is said where no project matches.
pub fn no_match_message(needle: &str) -> (r: String)
    ensures
        r@ == no_match_text(needle@),
{
    concat("no registered project matches ", debug_quote(needle).as_str())
}

proof fn candidates_differ(hint: Seq<char>, a: nat, b: nat)
    requires
        a != b,
    ensures
        label_candidate(hint, a) != label_candidate(hint, b),
{
    decimal_reads_back(a + 1);
    decimal_reads_back(b + 1);
    let x = label_candidate(hint, a);
    let y = label_candidate(hint, b);
    if x == y {
        reveal_strlit("-");
        let front = hint.len() + 1;
        if a > 0 && b > 0 {
            assert(x.skip(front as int) =~= decimal(a + 1));
            assert(y.skip(front as int) =~= decimal(b + 1));
        }
    }
}

/// Among one more candidate than there are projects, one is free.
proof fn a_candidate_is_free(projects: Seq<RegisteredProject>, hint: Seq<char>)
    ensures
        exists|k: nat|
            k <= projects.len() && !label_taken(projects, #[trigger] label_candidate(hint, k)),
{
    let n = projects.len();
    if forall|k: nat| k <= n ==> label_taken(projects, #[trigger] label_candidate(hint, k)) {
        let labels = Seq::new(n, |i: int| projects[i].label@);
        let tried = Seq::new(n + 1, |i: int| label_candidate(hint, i as nat));
        assert(tried.no_duplicates()) by {
            assert forall|i: int, j: int|
                0 <= i < tried.len() && 0 <= j < tried.len() && i != j implies tried[i]
                != tried[j] by {
                candidates_differ(hint, i as nat, j as nat);
            }
        }
        tried.unique_seq_to_set();
        labels.lemma_cardinality_of_set();
        assert(tried.to_set().subset_of(labels.to_set())) by {
            assert forall|label: Seq<char>| #[trigger] tried.to_set().contains(
                label,
            ) implies labels.to_set().contains(label) by {
                let i = choose|i: int| 0 <= i < tried.len() && tried[i] == label;
                assert(label_taken(projects, label_candidate(hint, i as nat)));
                let p = choose|p: int|
                    0 <= p < projects.len() && (#[trigger] projects[p]).label@ == label;
                assert(labels[p] == label);
            }
        }
        vstd::set_lib::lemma_len_subset(tried.to_set(), labels.to_set());
    }
}

impl Default for Registry {
    fn default() -> (r: Self)
        ensures
            r.projects@.len() == 0,
            r.wf(),
    {
        Self { projects: Vec::new() }
    }
}

impl Registry {
    /// No two projects share a label.
    pub open spec fn wf(self) -> bool {
        labels_differ(self.projects@)
    }

    fn has_label(&self, label: &str) -> (r: bool)
        ensures
            r == label_taken(self.projects@, label@),
    {
        let mut i: usize = 0;
        while i < self.projects.len()
            invariant
                i <= self.projects@.len(),
                forall|j: int| 0 <= j < i ==> (#[trigger] self.projects@[j]).label@ != label@,
            decreases self.projects@.len() - i,
        {
            if same(self.projects[i].label.as_str(), label) {
                return true;
            }
            i += 1;
        }
        false
    }

    fn position_of_root(&self, root: &str) -> (r: Option<usize>)
        ensures
            match r {
                Some(at) => first_with_root(self.projects@, root@, at as int),
                None => root_is_new(self.projects@, root@),
            },
    {
        let mut i: usize = 0;
        while i < self.projects.len()
            invariant
                i <= self.projects@.len(),
                forall|j: int|
                    0 <= j < i ==> components((#[trigger] self.projects@[j]).root@) != components(
                        root@,
                    ),
            decreases self.projects@.len() - i,
        {
            if same_path(self.projects[i].root.as_str(), root) {
                return Some(i);
            }
            i += 1;
        }
        None
    }

    /// Whether a root is registered.
    pub fn has_root(&self, root: &str) -> (r: bool)
        ensures
            r == !root_is_new(self.projects@, root@),
    {
        match self.position_of_root(root) {
            Some(at) => {
                assert(components(self.projects@[at as int].root@) == components(root@));
                true
            },
            None => false,
        }
    }

    fn free_label(&self, hint: &str) -> (r: String)
        ensures
            exists|k: nat| #[trigger] is_free_label(self.projects@, hint@, r@, k),
    {
        let mut label = hint.to_owned();
        let mut k: u128 = 0;
        assert(self.projects@.len() == self.projects.len());
        proof {
            a_candidate_is_free(self.projects@, hint@);
        }
        let ghost last = choose|k: nat|
            k <= self.projects@.len() && !label_taken(
                self.projects@,
                #[trigger] label_candidate(hint@, k),
            );
        while self.has_label(label.as_str())
            invariant
                label@ == label_candidate(hint@, k as nat),
                last <= self.projects@.len() <= usize::MAX,
                !label_taken(self.projects@, label_candidate(hint@, last)),
                k <= last,
                forall|j: nat|
                    j < k ==> label_taken(self.projects@, #[trigger] label_candidate(hint@, j)),
            decreases last - k,
        {
            assert(k < last);
            k += 1;
            label = concat(hint, "-");
            label.append(wide_decimal(k + 1).as_str());
        }
        assert(is_free_label(self.projects@, hint@, label@, k as nat));
        label
    }

    /// Registers a root. A root that is registered is given back as it is; a label
    /// that another root has gets a numeric suffix.
    pub fn register(&mut self, root: &str, label_hint: &str, db: String) -> (r: RegisteredProject)
        ensures
            registers(
                old(self).projects@,
                root@,
                label_hint@,
                db,
                final(self).projects@,
                r,
            ),
            old(self).wf() ==> final(self).wf(),
    {
        if let Some(at) = self.position_of_root(root) {
            proof {
                assert(components(self.projects@[at as int].root@) == components(root@));
            }
            return self.projects[at].clone();
        }
        let label = self.free_label(label_hint);
        let project = RegisteredProject { label, root: root.to_owned(), db };
        let ghost before = self.projects@;
        self.projects.push(project.clone());
        proof {
            let k = choose|k: nat| #[trigger] is_free_label(before, label_hint@, label@, k);
            assert(is_free_label(before, label_hint@, project.label@, k));
            assert forall|i: int, j: int|
                old(self).wf() && 0 <= i < j < self.projects@.len() implies (
            #[trigger] self.projects@[i]).label@ != (#[trigger] self.projects@[j]).label@ by {
                assert(self.projects@[i] == before[i]);
                if j < before.len() {
                    assert(self.projects@[j] == before[j]);
                }
            }
        }
        project
    }

    fn position_of_label(&self, label: &str) -> (r: Option<usize>)
        ensures
            match r {
                Some(at) => first_with_label(self.projects@, label@, at as int),
                None => !label_taken(self.projects@, label@),
            },
    {
        let mut i: usize = 0;
        while i < self.projects.len()
            invariant
                i <= self.projects@.len(),
                forall|j: int| 0 <= j < i ==> (#[trigger] self.projects@[j]).label@ != label@,
            decreases self.projects@.len() - i,
        {
            if same(self.projects[i].label.as_str(), label) {
                return Some(i);
            }
            i += 1;
        }
        None
    }

    /// Finds a project by label, exact root, or containment: the deepest registered
    /// root that holds the path wins, so nested registrations resolve correctly.
    pub fn find(&self, needle: &str) -> (r: Option<&RegisteredProject>)
        ensures
            match r {
                Some(project) => exists|at: int|
                    #[trigger] found_at(self.projects@, needle@, at) && self.projects@[at]
                        == *project,
                None => found_nowhere(self.projects@, needle@),
            },
    {
        if let Some(at) = self.position_of_label(needle) {
            assert(self.projects@[at as int].label@ == needle@);
            assert(found_at(self.projects@, needle@, at as int));
            return Some(&self.projects[at]);
        }
        let path = components_of(needle);
        let mut best: Option<usize> = None;
        let mut depth: usize = 0;
        let mut i: usize = 0;
        while i < self.projects.len()
            invariant
                i <= self.projects@.len(),
                crate::text::views(path@) == components(needle@),
                match best {
                    Some(at) => {
                        &&& at < i
                        &&& depth == components(self.projects@[at as int].root@).len()
                        &&& lies_below(needle@, self.projects@[at as int].root@)
                        &&& forall|j: int|
                            0 <= j < i && lies_below(needle@, (#[trigger] self.projects@[j]).root@)
                                ==> {
                                &&& components(self.projects@[j].root@).len() <= depth
                                &&& j > at ==> components(self.projects@[j].root@).len() < depth
                            }
                    },
                    None => forall|j: int|
                        0 <= j < i ==> !lies_below(
                            needle@,
                            (#[trigger] self.projects@[j]).root@,
                        ),
                },
            decreases self.projects@.len() - i,
        {
            let root = components_of(self.projects[i].root.as_str());
            assert(root@.len() == components(self.projects@[i as int].root@).len());
            if starts_with_components(&path, &root) {
                let deeper = match best {
                    Some(at) => root.len() >= depth,
                    None => true,
                };
                if deeper {
                    best = Some(i);
                    depth = root.len();
                }
            }
            i += 1;
        }
        match best {
            Some(at) => {
                assert(found_at(self.projects@, needle@, at as int));
                Some(&self.projects[at])
            },
            None => None,
        }
    }

    /// Takes a project out, named by its label or its root.
    pub fn remove(&mut self, needle: &str) -> (r: Option<RegisteredProject>)
        ensures
            match r {
                Some(project) => exists|at: int|
                    {
                        &&& #[trigger] first_named(old(self).projects@, needle@, at)
                        &&& project == old(self).projects@[at]
                        &&& final(self).projects@ == old(self).projects@.remove(at)
                    },
                None => {
                    &&& final(self).projects@ == old(self).projects@
                    &&& forall|j: int|
                        0 <= j < old(self).projects@.len() ==> !named_by(
                            #[trigger] old(self).projects@[j],
                            needle@,
                        )
                },
            },
            old(self).wf() ==> final(self).wf(),
    {
        let ghost before = self.projects@;
        let mut i: usize = 0;
        while i < self.projects.len()
            invariant
                i <= self.projects@.len(),
                self.projects@ == before,
                before == old(self).projects@,
                forall|j: int| 0 <= j < i ==> !named_by(#[trigger] before[j], needle@),
            decreases self.projects@.len() - i,
        {
            if same(self.projects[i].label.as_str(), needle) || same_path(
                self.projects[i].root.as_str(),
                needle,
            ) {
                assert(first_named(before, needle@, i as int));
                let project = self.projects.remove(i);
                assert forall|a: int, b: int|
                    old(self).wf() && 0 <= a < b < self.projects@.len() implies (
                #[trigger] self.projects@[a]).label@ != (#[trigger] self.projects@[b]).label@ by {
                    let x = if a < i {
                        a
                    } else {
                        a + 1
                    };
                    let y = if b < i {
                        b
                    } else {
                        b + 1
                    };
                    assert(self.projects@[a] == before[x] && self.projects@[b] == before[y]);
                }
                return Some(project);
            }
            i += 1;
        }
        None
    }
}

/// Registering a root a second time changes nothing and gives the same project back,
/// whatever label and database are asked for.
pub proof fn registering_again_changes_nothing(
    before: Seq<RegisteredProject>,
    root: Seq<char>,
    hint: Seq<char>,
    db: String,
    between: Seq<RegisteredProject>,
    first: RegisteredProject,
    other_hint: Seq<char>,
    other_db: String,
    after: Seq<RegisteredProject>,
    second: RegisteredProject,
)
    requires
        registers(before, root, hint, db, between, first),
        registers(between, root, other_hint, other_db, after, second),
    ensures
        after == between,
        second == first,
{
    if root_is_new(before, root) {
        let last = before.len() as int;
        assert(components(between[last].root@) == components(root));
        assert forall|j: int| 0 <= j < last implies components((#[trigger] between[j]).root@)
            != components(root) by {
            assert(between[j] == before[j]);
        }
    }
}

/// Labels that differ still differ after a root was registered.
pub proof fn registering_keeps_labels_apart(
    before: Seq<RegisteredProject>,
    root: Seq<char>,
    hint: Seq<char>,
    db: String,
    after: Seq<RegisteredProject>,
    r: RegisteredProject,
)
    requires
        labels_differ(before),
        registers(before, root, hint, db, after, r),
    ensures
        labels_differ(after),
{
    if root_is_new(before, root) {
        let k = choose|k: nat| #[trigger] is_free_label(before, hint, r.label@, k);
        assert forall|i: int, j: int| 0 <= i < j < after.len() implies (
        #[trigger] after[i]).label@ != (#[trigger] after[j]).label@ by {
            assert(after[i] == before[i]);
            if j < before.len() {
                assert(after[j] == before[j]);
            } else {
                assert(!label_taken(before, r.label@));
            }
        }
    }
}

/// A registered root is found from any path below it, unless the path is also a
/// label: what is found holds the path and is at least as deep.
pub proof fn a_path_leads_to_its_project(
    projects: Seq<RegisteredProject>,
    path: Seq<char>,
    own: int,
    at: int,
)
    requires
        0 <= own < projects.len(),
        lies_below(path, projects[own].root@),
        !label_taken(projects, path),
        found_at(projects, path, at),
    ensures
        lies_below(path, projects[at].root@),
        components(projects[own].root@).len() <= components(projects[at].root@).len(),
{
}

/// A label leads to the project that has it.
pub proof fn a_label_leads_to_its_project(registry: Registry, own: int, at: int)
    requires
        registry.wf(),
        0 <= own < registry.projects@.len(),
        found_at(registry.projects@, registry.projects@[own].label@, at),
    ensures
        at == own,
{
    let all = registry.projects@;
    assert(label_taken(all, all[own].label@));
    if at < own {
        assert(all[at].label@ != all[own].label@);
    }
}

/// Removing a project by the label that it was just registered under leaves the
/// registry as it was, unless the label is also the path of another project's root.
pub proof fn removing_undoes_registering(
    projects: Seq<RegisteredProject>,
    added: RegisteredProject,
    hint: Seq<char>,
    k: nat,
    at: int,
)
    requires
        is_free_label(projects, hint, added.label@, k),
        root_is_new(projects, added.label@),
        first_named(projects.push(added), added.label@, at),
    ensures
        projects.push(added)[at] == added,
        projects.push(added).remove(at) == projects,
{
    let after = projects.push(added);
    if at < projects.len() {
        assert(after[at] == projects[at]);
        assert(label_taken(projects, added.label@) || components(projects[at].root@)
            == components(added.label@));
    }
    assert(after.remove(at) =~= projects);
}

/// The first label that is tried is the hint itself, and each further one is the hint with
/// a number of its own.
pub proof fn label_candidates_differ(hint: Seq<char>, j: nat, k: nat)
    requires
        j < k,
    ensures
        label_candidate(hint, 0) == hint,
        hint.is_prefix_of(label_candidate(hint, k)),
        label_candidate(hint, j) != label_candidate(hint, k),
{
    reveal_strlit("-");
    let (a, b) = (label_candidate(hint, j), label_candidate(hint, k));
    assert(b.subrange(0, hint.len() as int) =~= hint);
    if a == b {
        if j == 0 {
            assert(b.len() > hint.len());
        } else {
            let at = hint.len() + 1;
            assert(a.skip(at as int) =~= decimal(j + 1));
            assert(b.skip(at as int) =~= decimal(k + 1));
            crate::text::decimal_reads_back(j + 1);
            crate::text::decimal_reads_back(k + 1);
        }
    }
}

/// The first label beside the hint is numbered two, and each further one by one more.
pub proof fn label_candidates_count_from_two(hint: Seq<char>, k: nat)
    requires
        k > 0,
    ensures
        label_candidate(hint, k)[hint.len() as int] == '-',
        crate::text::digits_value(label_candidate(hint, k).skip(hint.len() as int + 1)) == Some(
            k + 1,
        ),
{
    reveal_strlit("-");
    let label = label_candidate(hint, k);
    assert("-"@.len() == 1 && "-"@[0] == '-');
    assert(label.skip(hint.len() as int + 1) =~= decimal(k + 1));
    crate::text::decimal_reads_back(k + 1);
}

} // verus!
