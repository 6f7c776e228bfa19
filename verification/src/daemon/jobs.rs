//! Background jobs and how projects are found.
use crate::config::registry::{
    found_at, found_nowhere, no_match_message, no_match_text, Registry, RegisteredProject,
};
use crate::config::settings::text_view;
use crate::daemon::protocol::JobState;
use crate::text::{concat, join, joined, same, views};
use crate::text_map::TextMap;
use vstd::prelude::*;
use vstd::string::*;

verus! {

/// The state of each project's job.
#[derive(Debug)]
pub struct JobBoard {
    pub jobs: TextMap<JobState>,
}

/// The job is under way.
pub open spec fn is_under_way(job: JobState, phase: Seq<char>, detail: Seq<char>) -> bool {
    &&& job.phase@ == phase
    &&& job.detail@ == detail
    &&& !job.finished
    &&& job.error is None
}

/// The job is over, with the error if it failed.
pub open spec fn is_over(job: JobState, detail: Seq<char>, error: Option<String>) -> bool {
    &&& job.phase@ == if error is Some {
        "failed"@
    } else {
        "done"@
    }
    &&& job.detail@ == detail
    &&& job.finished
    &&& job.error == error
}

impl JobBoard {
    pub open spec fn wf(self) -> bool {
        self.jobs.wf()
    }

    pub fn new() -> (r: Self)
        ensures
            r.wf(),
            r.jobs@ == Map::<Seq<char>, JobState>::empty(),
    {
        JobBoard { jobs: TextMap::new() }
    }

    /// Notes what a project's job is doing.
    pub fn set_job(&mut self, label: &str, phase: &str, detail: &str)
        requires
            old(self).wf(),
        ensures
            final(self).wf(),
            final(self).jobs@.contains_key(label@),
            is_under_way(final(self).jobs@[label@], phase@, detail@),
            final(self).jobs@ == old(self).jobs@.insert(label@, final(self).jobs@[label@]),
    {
        let job = JobState {
            phase: phase.to_owned(),
            detail: detail.to_owned(),
            finished: false,
            error: None,
        };
        self.jobs.insert(label.to_owned(), job);
    }

    /// Notes that a project's job is over. What it last said of itself is kept.
    pub fn finish_job(&mut self, label: &str, error: Option<String>)
        requires
            old(self).wf(),
        ensures
            final(self).wf(),
            final(self).jobs@.contains_key(label@),
            is_over(
                final(self).jobs@[label@],
                if old(self).jobs@.contains_key(label@) {
                    old(self).jobs@[label@].detail@
                } else {
                    Seq::empty()
                },
                error,
            ),
            final(self).jobs@ == old(self).jobs@.insert(label@, final(self).jobs@[label@]),
    {
        let detail = match self.jobs.get(label) {
            Some(job) => job.detail.clone(),
            None => String::new(),
        };
        let phase = if error.is_some() {
            "failed"
        } else {
            "done"
        };
        let job = JobState { phase: phase.to_owned(), detail, finished: true, error };
        self.jobs.insert(label.to_owned(), job);
    }

    pub fn job(&self, label: &str) -> (r: Option<JobState>)
        requires
            self.wf(),
        ensures
            match r {
                Some(job) => self.jobs@.contains_key(label@) && self.jobs@[label@] == job,
                None => !self.jobs@.contains_key(label@),
            },
    {
        match self.jobs.get(label) {
            Some(job) => Some(job.clone()),
            None => None,
        }
    }

    /// Whether a project's job is under way.
    pub fn job_running(&self, label: &str) -> (r: bool)
        requires
            self.wf(),
        ensures
            r == (self.jobs@.contains_key(label@) && !self.jobs@[label@].finished),
    {
        match self.jobs.get(label) {
            Some(job) => !job.finished,
            None => false,
        }
    }

    /// Forgets a project's job.
    pub fn forget(&mut self, label: &str)
        requires
            old(self).wf(),
        ensures
            final(self).wf(),
            final(self).jobs@ == old(self).jobs@.remove(label@),
    {
        let _ = self.jobs.remove(label);
    }
}

/// The labels of the projects.
pub open spec fn labels_of(projects: Seq<RegisteredProject>) -> Seq<Seq<char>> {
    Seq::new(projects.len(), |i: int| projects[i].label@)
}

/// What is said where the working directory leads to no one project.
pub open spec fn ambiguous_text(projects: Seq<RegisteredProject>) -> Seq<char> {
    "cannot resolve a project from the working directory; pass --project (registered: "@ + joined(
        labels_of(projects),
        ", "@,
    ) + ")"@
}

/// The project is found where the text leads.
pub open spec fn leads_to(
    projects: Seq<RegisteredProject>,
    needle: Seq<char>,
    project: RegisteredProject,
) -> bool {
    exists|at: int| #[trigger] found_at(projects, needle, at) && projects[at] == project
}

/// Where a request leads: by the text it names, else by the working directory, else
/// to the only project there is.
pub open spec fn resolution(
    projects: Seq<RegisteredProject>,
    needle: Option<Seq<char>>,
    cwd: Option<Seq<char>>,
    outcome: Result<RegisteredProject, Seq<char>>,
) -> bool {
    match needle {
        Some(needle) => match outcome {
            Ok(project) => leads_to(projects, needle, project),
            Err(text) => found_nowhere(projects, needle) && text == no_match_text(needle),
        },
        None => if cwd is Some && !found_nowhere(projects, cwd->0) {
            outcome is Ok && leads_to(projects, cwd->0, outcome->Ok_0)
        } else if projects.len() == 1 {
            outcome == Ok::<RegisteredProject, Seq<char>>(projects[0])
        } else if projects.len() == 0 {
            outcome == Err::<RegisteredProject, Seq<char>>(
                "no projects registered; run `codeindex add` first"@,
            )
        } else {
            outcome == Err::<RegisteredProject, Seq<char>>(ambiguous_text(projects))
        },
    }
}

/// The outcome with what its error says.
pub open spec fn outcome_view(outcome: Result<RegisteredProject, String>) -> Result<
    RegisteredProject,
    Seq<char>,
> {
    match outcome {
        Ok(project) => Ok(project),
        Err(message) => Err(message@),
    }
}

fn label_list(projects: &Vec<RegisteredProject>) -> (r: Vec<String>)
    ensures
        views(r@) == labels_of(projects@),
{
    let mut out: Vec<String> = Vec::new();
    let mut i: usize = 0;
    while i < projects.len()
        invariant
            i <= projects@.len(),
            views(out@) == labels_of(projects@.take(i as int)),
        decreases projects@.len() - i,
    {
        let ghost before = out@;
        let label = projects[i].label.clone();
        out.push(label);
        i += 1;
        assert(views(out@) =~= views(before).push(label@));
        assert(views(out@) =~= labels_of(projects@.take(i as int)));
    }
    assert(projects@.take(i as int) =~= projects@);
    out
}

proof fn nowhere_is_not_somewhere(projects: Seq<RegisteredProject>, needle: Seq<char>, at: int)
    requires
        found_at(projects, needle, at),
    ensures
        !found_nowhere(projects, needle),
{
}

/// Resolve a project by a label or path, else by the working directory, else the
/// only one.
pub fn resolve_project(registry: &Registry, needle: Option<&str>, cwd: Option<&str>) -> (r: Result<
    RegisteredProject,
    String,
>)
    ensures
        resolution(registry.projects@, text_view(needle), text_view(cwd), outcome_view(r)),
{
    let ghost all = registry.projects@;
    if let Some(needle) = needle {
        return match registry.find(needle) {
            Some(project) => {
                let found = project.clone();
                assert(leads_to(all, needle@, found));
                Ok(found)
            },
            None => Err(no_match_message(needle)),
        };
    }
    if let Some(cwd) = cwd {
        if let Some(project) = registry.find(cwd) {
            let found = project.clone();
            proof {
                let at = choose|at: int|
                    #[trigger] found_at(all, cwd@, at) && all[at] == *project;
                nowhere_is_not_somewhere(all, cwd@, at);
                assert(leads_to(all, cwd@, found));
            }
            return Ok(found);
        }
    }
    if registry.projects.len() == 1 {
        return Ok(registry.projects[0].clone());
    }
    if registry.projects.len() == 0 {
        return Err("no projects registered; run `codeindex add` first".to_owned());
    }
    let mut text = concat(
        "cannot resolve a project from the working directory; pass --project (registered: ",
        join(&label_list(&registry.projects), ", ").as_str(),
    );
    text.append(")");
    Err(text)
}

/// What is known of a file that belongs to a database.
#[derive(Debug)]
pub struct FileStamp {
    pub path: String,
    pub modified_ns: u64,
    pub size: u64,
}

/// Two lists of stamps say the same.
pub open spec fn same_stamps(a: Seq<FileStamp>, b: Seq<FileStamp>) -> bool {
    &&& a.len() == b.len()
    &&& forall|i: int|
        0 <= i < a.len() ==> (#[trigger] a[i]).path@ == b[i].path@ && a[i].modified_ns
            == b[i].modified_ns && a[i].size == b[i].size
}

/// Whether a cached index is still that of the database: the database and its log
/// are as they were. A stale stamp only costs a rebuild.
pub fn is_fresh(cached: &Vec<FileStamp>, now: &Vec<FileStamp>) -> (r: bool)
    ensures
        r == same_stamps(cached@, now@),
{
    if cached.len() != now.len() {
        return false;
    }
    let mut i: usize = 0;
    while i < cached.len()
        invariant
            i <= cached@.len() == now@.len(),
            forall|j: int|
                0 <= j < i ==> (#[trigger] cached@[j]).path@ == now@[j].path@
                    && cached@[j].modified_ns == now@[j].modified_ns && cached@[j].size
                    == now@[j].size,
        decreases cached@.len() - i,
    {
        if !same(cached[i].path.as_str(), now[i].path.as_str()) || cached[i].modified_ns
            != now[i].modified_ns || cached[i].size != now[i].size {
            return false;
        }
        i += 1;
    }
    true
}

/// A finished job is not running until it is set again.
pub proof fn a_finished_job_is_not_running(job: JobState, detail: Seq<char>, error: Option<String>)
    requires
        is_over(job, detail, error),
    ensures
        job.finished,
        forall|phase: Seq<char>, other: Seq<char>| !#[trigger] is_under_way(job, phase, other),
{
}

/// A project that is resolved is a registered one. What is asked for by name is not looked
/// for in the working directory, which decides only where nothing is asked for; a lone
/// project needs neither, and of several none is taken at random.
pub proof fn only_registered_projects_are_resolved(
    projects: Seq<RegisteredProject>,
    needle: Option<Seq<char>>,
    cwd: Option<Seq<char>>,
    outcome: Result<RegisteredProject, Seq<char>>,
)
    requires
        resolution(projects, needle, cwd, outcome),
    ensures
        outcome matches Ok(project) ==> projects.contains(project),
        needle is Some ==> resolution(projects, needle, None, outcome),
        needle is Some && outcome is Ok ==> !found_nowhere(projects, needle->0),
        needle is None && cwd is None ==> (outcome is Ok <==> projects.len() == 1),
        needle is None && cwd is Some && !found_nowhere(projects, cwd->0) ==> resolution(
            projects,
            cwd,
            None,
            outcome,
        ),
        needle is None && cwd is Some && found_nowhere(projects, cwd->0) ==> resolution(
            projects,
            None,
            None,
            outcome,
        ),
{
    if outcome is Ok {
        let project = outcome->Ok_0;
        if needle is Some {
            let at = choose|at: int| #[trigger]
                found_at(projects, needle->0, at) && projects[at] == project;
            assert(projects[at] == project);
        } else if cwd is Some && !found_nowhere(projects, cwd->0) {
            let at = choose|at: int| #[trigger]
                found_at(projects, cwd->0, at) && projects[at] == project;
            assert(projects[at] == project);
        } else {
            assert(projects[0] == project);
        }
    }
}

/// A job that is over says how it ended: failed where it has an error, else done.
pub proof fn a_job_ends_as_it_went(job: JobState, detail: Seq<char>, error: Option<String>)
    requires
        is_over(job, detail, error),
    ensures
        job.error == error && job.detail@ == detail,
        error is Some <==> job.phase@ == "failed"@,
        error is None <==> job.phase@ == "done"@,
{
    reveal_strlit("failed");
    reveal_strlit("done");
    assert("failed"@.len() != "done"@.len());
}

/// What is cached is fresh only where every file still has its time and its size and none
/// came or went.
pub proof fn any_change_makes_stale(a: Seq<FileStamp>, b: Seq<FileStamp>, i: int)
    requires
        0 <= i < a.len(),
        i >= b.len() || a[i].path@ != b[i].path@ || a[i].modified_ns != b[i].modified_ns
            || a[i].size != b[i].size,
    ensures
        !same_stamps(a, b),
        !same_stamps(b, a),
{
    if same_stamps(b, a) {
        assert(b[i].path@ == a[i].path@);
    }
}

} // verus!
