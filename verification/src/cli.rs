//! What the command line decides.
use crate::config::registry::{
    found_nowhere, no_match_message, no_match_text, RegisteredProject, Registry,
};
use crate::config::settings::{text_view, ProjectConfig};
use crate::daemon::jobs::{leads_to, outcome_view};
use crate::daemon::options::{
    as_text, filter_choice, option_facts, read_filter, task_choice, task_view, OptionFacts,
};
use crate::daemon::pipeline::{find_rerank, rerank_of, Compress, HybridOptions, Retrieval};
use crate::daemon::rules::{
    choose_space, is_preset_task, preset_instruction, preset_task, space_choice,
    unknown_preset_text,
};
use crate::embedding::contract::EmbeddingTask;
use crate::indexer::builder::IndexOutcome;
use crate::indexer::policy::{ResumePolicy, RevisionTrust};
use crate::indexer::settings::RetentionMode;
use crate::json::{json_literal, member_views, object_text, quote, write_object};
use crate::model::EmbeddingSpaceId;
use crate::order::{heavier_first, is_weight_order, weight_order};
use crate::query::fusion::FusedIndex;
use crate::query::rank::Score;
use crate::search::{counted, CodeUnitRef};
use crate::text::{
    clone_texts, concat, cut_once, decimal, decimal_text, opt_view, same, split_once, views,
};
use vstd::prelude::*;
use vstd::string::*;

verus! {

/// Version of the newline-delimited JSON envelope.
pub const ENVELOPE_VERSION: u64 = 1;

/// A space argument: its id and the channel it embeds.
#[derive(Debug, Clone)]
pub struct SpaceArgument {
    pub id: String,
    pub channel: String,
}

/// Reads `ID=CHANNEL`.
pub fn parse_space(value: &str) -> (r: Result<SpaceArgument, String>)
    ensures
        match (cut_once(value@, '='), r) {
            (Some((id, channel)), Ok(space)) => id.len() > 0 && channel.len() > 0 && space.id@ == id
                && space.channel@ == channel,
            (Some((id, channel)), Err(message)) => (id.len() == 0 || channel.len() == 0)
                && message@ == "space id and channel must both be non-empty"@,
            (None, Err(message)) => message@ == "expected ID=CHANNEL, e.g. code=implementation"@,
            (None, Ok(space)) => false,
        },
{
    match split_once(value, '=') {
        None => Err("expected ID=CHANNEL, e.g. code=implementation".to_owned()),
        Some((id, channel)) => {
            if id.as_str().is_empty() || channel.as_str().is_empty() {
                Err("space id and channel must both be non-empty".to_owned())
            } else {
                Ok(SpaceArgument { id, channel })
            }
        },
    }
}

/// A project argument: its label and its root.
#[derive(Debug, Clone)]
pub struct ProjectArgument {
    pub label: String,
    pub path: String,
}

/// Reads `LABEL=PATH`.
pub fn parse_project(value: &str) -> (r: Result<ProjectArgument, String>)
    ensures
        match (cut_once(value@, '='), r) {
            (Some((label, path)), Ok(project)) => label.len() > 0 && path.len() > 0
                && project.label@ == label && project.path@ == path,
            (Some((label, path)), Err(message)) => (label.len() == 0 || path.len() == 0)
                && message@ == "project label and path must both be non-empty"@,
            (None, Err(message)) => message@ == "expected LABEL=PATH"@,
            (None, Ok(project)) => false,
        },
{
    match split_once(value, '=') {
        None => Err("expected LABEL=PATH".to_owned()),
        Some((label, path)) => {
            if label.as_str().is_empty() || path.as_str().is_empty() {
                Err("project label and path must both be non-empty".to_owned())
            } else {
                Ok(ProjectArgument { label, path })
            }
        },
    }
}

#[derive(Debug, Clone, Copy, PartialEq, Eq, Structural)]
pub enum RetentionArgument {
    Full,
    Report,
    Minimal,
}

/// How much of the sources an argument retains.
pub open spec fn retention_of(argument: RetentionArgument) -> RetentionMode {
    match argument {
        RetentionArgument::Full => RetentionMode::Full,
        RetentionArgument::Report => RetentionMode::Report,
        RetentionArgument::Minimal => RetentionMode::Minimal,
    }
}

impl From<RetentionArgument> for RetentionMode {
    fn from(value: RetentionArgument) -> (r: Self) {
        match value {
            RetentionArgument::Full => RetentionMode::Full,
            RetentionArgument::Report => RetentionMode::Report,
            RetentionArgument::Minimal => RetentionMode::Minimal,
        }
    }
}

impl vstd::std_specs::convert::FromSpecImpl<RetentionArgument> for RetentionMode {
    open spec fn obeys_from_spec() -> bool {
        true
    }

    open spec fn from_spec(value: RetentionArgument) -> Self {
        retention_of(value)
    }
}

/// The compact text of an envelope around a value that is already JSON.
pub open spec fn envelope_text(event: Seq<char>, data: Seq<char>) -> Seq<char> {
    object_text(
        seq![
            ("version"@, decimal(ENVELOPE_VERSION as nat)),
            ("event"@, json_literal(event)),
            ("data"@, data),
        ],
    )
}

/// One line of newline-delimited JSON around a value that is already JSON.
pub fn envelope_line(event: &str, data: String) -> (r: String)
    ensures
        r@ == envelope_text(event@, data@),
{
    let ghost inner = data@;
    let members: Vec<(&str, String)> = vec![
        ("version", decimal_text(ENVELOPE_VERSION)),
        ("event", quote(event)),
        ("data", data),
    ];
    assert(member_views(members@) =~= seq![
        ("version"@, decimal(ENVELOPE_VERSION as nat)),
        ("event"@, json_literal(event@)),
        ("data"@, inner),
    ]);
    write_object(&members)
}

/// How an index command deals with unfinished runs: a named run is resumed, a
/// restart starts anew, else what is compatible is resumed.
pub fn resume_policy_for(resume: Option<i64>, restart: bool) -> (r: ResumePolicy)
    ensures
        r == match resume {
            Some(run) => ResumePolicy::Run(run),
            None => if restart {
                ResumePolicy::New
            } else {
                ResumePolicy::Auto
            },
        },
{
    match resume {
        Some(run) => ResumePolicy::Run(run),
        None => {
            if restart {
                ResumePolicy::New
            } else {
                ResumePolicy::Auto
            }
        },
    }
}

/// How far revisions are trusted.
pub fn revision_trust_for(trust_advisory: bool) -> (r: RevisionTrust)
    ensures
        r == if trust_advisory {
            RevisionTrust::TrustAdvisory
        } else {
            RevisionTrust::VerifyContent
        },
{
    if trust_advisory {
        RevisionTrust::TrustAdvisory
    } else {
        RevisionTrust::VerifyContent
    }
}

/// The languages that are indexed: those that are named, else every bundled one.
pub fn enabled_languages(named: &Vec<String>, bundled: &Vec<String>) -> (r: Vec<String>)
    ensures
        views(r@) == if named@.len() == 0 {
            views(bundled@)
        } else {
            views(named@)
        },
{
    if named.len() == 0 {
        clone_texts(bundled)
    } else {
        clone_texts(named)
    }
}

/// The exit code of an index command: success, an interrupt by the user, or a pause
/// for another reason.
pub fn exit_code(outcome: &IndexOutcome) -> (r: u8)
    ensures
        r == match *outcome {
            IndexOutcome::Committed(_) => 0int,
            IndexOutcome::Paused(status) => if opt_view(status.pause_reason) == Some(
                "user_interrupt"@,
            ) {
                130
            } else {
                2
            },
        },
{
    match outcome {
        IndexOutcome::Committed(_) => 0,
        IndexOutcome::Paused(status) => match &status.pause_reason {
            Some(reason) => {
                if same(reason.as_str(), "user_interrupt") {
                    130
                } else {
                    2
                }
            },
            None => 2,
        },
    }
}

/// What is said where the discovered root is not registered.
pub open spec fn unregistered_text(root: Seq<char>) -> Seq<char> {
    root + " is not registered; run `codeindex add "@ + root + "`"@
}

/// What is said where no configuration file was found.
pub open spec fn undiscovered_text(cwd: Seq<char>) -> Seq<char> {
    "no .codeindex.toml found walking up from "@ + cwd
        + "; run `codeindex add`, or pass --project or --db"@
}

/// The project that a search is for: the one it names, else the discovered one.
pub open spec fn search_project(
    projects: Seq<RegisteredProject>,
    needle: Option<Seq<char>>,
    root: Option<Seq<char>>,
    cwd: Seq<char>,
    outcome: Result<RegisteredProject, Seq<char>>,
) -> bool {
    match (needle, root) {
        (Some(needle), _) => match outcome {
            Ok(project) => leads_to(projects, needle, project),
            Err(text) => found_nowhere(projects, needle) && text == no_match_text(needle),
        },
        (None, Some(root)) => match outcome {
            Ok(project) => leads_to(projects, root, project),
            Err(text) => found_nowhere(projects, root) && text == unregistered_text(root),
        },
        (None, None) => outcome == Err::<RegisteredProject, Seq<char>>(undiscovered_text(cwd)),
    }
}

/// The project that a search is for: the one it names, else the discovered one.
pub fn choose_project(
    registry: &Registry,
    needle: Option<&str>,
    root: Option<&str>,
    cwd: &str,
) -> (r: Result<RegisteredProject, String>)
    ensures
        search_project(
            registry.projects@,
            text_view(needle),
            text_view(root),
            cwd@,
            outcome_view(r),
        ),
{
    let ghost all = registry.projects@;
    if let Some(needle) = needle {
        return match registry.find(needle) {
            Some(project) => {
                let found = project.clone();
                assert(leads_to(all, needle@, found));
                Ok(found)
            },
            None => Err(no_match_message(needle)),
        };
    }
    if let Some(root) = root {
        return match registry.find(root) {
            Some(project) => {
                let found = project.clone();
                assert(leads_to(all, root@, found));
                Ok(found)
            },
            None => {
                let mut text = concat(root, " is not registered; run `codeindex add ");
                text.append(root);
                text.append("`");
                Err(text)
            },
        };
    }
    let mut text = concat("no .codeindex.toml found walking up from ", cwd);
    text.append("; run `codeindex add`, or pass --project or --db");
    Err(text)
}

/// The tests policy of a search: asked for on the command line, else that of the
/// directory.
pub fn search_tests(include_tests: bool, context: Option<&str>) -> (r: Option<String>)
    ensures
        opt_view(r) == if include_tests {
            Some("include"@)
        } else {
            text_view(context)
        },
{
    if include_tests {
        return Some("include".to_owned());
    }
    match context {
        Some(policy) => Some(policy.to_owned()),
        None => None,
    }
}

/// Checks that dense retrieval has a space to search.
pub fn check_dense(retrieval: Retrieval, has_space: bool) -> (r: Result<(), String>)
    ensures
        match r {
            Ok(()) => retrieval != Retrieval::Dense || has_space,
            Err(message) => retrieval == Retrieval::Dense && !has_space && message@
                == "--retrieval dense needs an embedding space (pass --space or define one in .codeindex.toml)"@,
        },
{
    if retrieval == Retrieval::Dense && !has_space {
        return Err(
            "--retrieval dense needs an embedding space (pass --space or define one in .codeindex.toml)".to_owned(),
        );
    }
    Ok(())
}

/// The task of a direct search: a preset wins over a hand-written instruction.
pub fn direct_task(
    config: &ProjectConfig,
    preset: Option<&str>,
    instruction: Option<&str>,
) -> (r: Result<Option<EmbeddingTask>, String>)
    requires
        config.wf(),
    ensures
        match (preset, instruction) {
            (Some(preset), _) => match r {
                Ok(Some(task)) => is_preset_task(task, *config, preset@),
                Ok(None) => false,
                Err(message) => preset_instruction(*config, preset@) is None && message@
                    == unknown_preset_text(preset@),
            },
            (None, Some(instruction)) => r is Ok && r->Ok_0 is Some && r->Ok_0->0.id@ == "custom"@
                && r->Ok_0->0.instruction@ == instruction@,
            (None, None) => r is Ok && r->Ok_0 is None,
        },
{
    if let Some(preset) = preset {
        return match preset_task(config, preset) {
            Ok(task) => Ok(Some(task)),
            Err(message) => Err(message),
        };
    }
    match instruction {
        Some(instruction) => Ok(Some(EmbeddingTask::new("custom", instruction))),
        None => Ok(None),
    }
}

/// What a direct search is asked.
#[derive(Debug)]
pub struct DirectSearch {
    pub query: String,
    pub space: Option<String>,
    pub task: Option<String>,
    pub instruction: Option<String>,
    pub filter: Option<String>,
    pub limit: usize,
    pub retrieval: Retrieval,
    pub compress: Compress,
    pub include_tests: bool,
    pub no_graph: bool,
}

/// What is said of a dense search without a space.
pub open spec fn no_space_text() -> Seq<char> {
    "--retrieval dense needs an embedding space (pass --space or define one in .codeindex.toml)"@
}

/// The task of a direct search, or what is wrong with it: a preset wins over a
/// hand-written instruction.
pub open spec fn direct_task_choice(
    config: ProjectConfig,
    preset: Option<Seq<char>>,
    instruction: Option<Seq<char>>,
) -> Result<Option<(Seq<char>, Seq<char>)>, Seq<char>> {
    if preset is Some {
        task_choice(config, preset, None)
    } else {
        task_choice(config, None, instruction)
    }
}

/// What a direct search asks for, or the first thing that is wrong with it: no space
/// for a dense search, its task, its filter, its policy on tests.
pub open spec fn directly_requested(
    search: DirectSearch,
    config: ProjectConfig,
    tests: Option<Seq<char>>,
    stored: Seq<Seq<char>>,
) -> Result<OptionFacts, Seq<char>> {
    let space = space_choice(
        opt_view(search.space),
        opt_view(config.search.default_space),
        stored,
    );
    if search.retrieval == Retrieval::Dense && space is None {
        Err(no_space_text())
    } else {
        match direct_task_choice(config, opt_view(search.task), opt_view(search.instruction)) {
            Err(message) => Err(message),
            Ok(task) => match filter_choice(
                opt_view(search.filter),
                if search.include_tests {
                    Some("include"@)
                } else {
                    tests
                },
            ) {
                Err(message) => Err(message),
                Ok(filter) => Ok(
                    OptionFacts {
                        query: search.query@,
                        task,
                        space: if search.retrieval == Retrieval::Lexical {
                            None
                        } else {
                            space
                        },
                        filter,
                        limit: search.limit,
                        retrieval: search.retrieval,
                        compress: search.compress,
                        graph: !search.no_graph,
                    },
                ),
            },
        }
    }
}

/// The options of a direct search, under the policy on tests of the place where it
/// is asked.
pub fn direct_options(
    search: &DirectSearch,
    config: &ProjectConfig,
    tests: Option<&str>,
    stored: &Vec<String>,
) -> (r: Result<HybridOptions, String>)
    requires
        config.wf(),
    ensures
        match r {
            Ok(options) => directly_requested(*search, *config, text_view(tests), views(stored@))
                == Ok::<OptionFacts, Seq<char>>(option_facts(options)),
            Err(message) => directly_requested(*search, *config, text_view(tests), views(stored@))
                == Err::<OptionFacts, Seq<char>>(message@),
        },
{
    let chosen = choose_space(
        as_text(&search.space),
        as_text(&config.search.default_space),
        stored,
    );
    match check_dense(search.retrieval, chosen.is_some()) {
        Ok(()) => {},
        Err(message) => {
            return Err(message);
        },
    }
    let task = match direct_task(config, as_text(&search.task), as_text(&search.instruction)) {
        Ok(task) => task,
        Err(message) => {
            return Err(message);
        },
    };
    assert(direct_task_choice(*config, opt_view(search.task), opt_view(search.instruction)) == Ok::<
        Option<(Seq<char>, Seq<char>)>,
        Seq<char>,
    >(task_view(task)));
    let policy = search_tests(search.include_tests, tests);
    let filter = match read_filter(as_text(&search.filter), as_text(&policy)) {
        Ok(filter) => filter,
        Err(message) => {
            return Err(message);
        },
    };
    let space = if search.retrieval == Retrieval::Lexical {
        None
    } else {
        match chosen {
            Some(id) => Some(EmbeddingSpaceId::new(id.as_str())),
            None => None,
        }
    };
    Ok(
        HybridOptions {
            query: search.query.clone(),
            task,
            space,
            filter,
            limit: search.limit,
            retrieval: search.retrieval,
            compress: search.compress,
            graph: !search.no_graph,
        },
    )
}

/// The instruction under which hits are judged: that of the search, or a general one.
pub fn judging_instruction(task: &Option<EmbeddingTask>) -> (r: String)
    ensures
        r@ == match *task {
            Some(task) => task.instruction@,
            None => "Given a code search query, retrieve relevant code implementations"@,
        },
{
    match task {
        Some(task) => task.instruction.clone(),
        None => "Given a code search query, retrieve relevant code implementations".to_owned(),
    }
}

/// The text by which a reranker judges a unit.
pub open spec fn judged_text(unit: CodeUnitRef) -> Option<Seq<char>> {
    match unit.implementation {
        Some(text) => Some(text@),
        None => opt_view(unit.display_source),
    }
}

/// The units that a reranker judges, with their texts.
pub open spec fn judged(units: Seq<CodeUnitRef>, hits: Seq<FusedIndex>) -> Seq<
    (usize, Seq<char>),
>
    decreases hits.len(),
{
    if hits.len() == 0 {
        Seq::empty()
    } else {
        let before = judged(units, hits.drop_last());
        match judged_text(units[hits.last().index as int]) {
            Some(text) => before.push((hits.last().index, text)),
            None => before,
        }
    }
}

/// What units and texts say.
pub open spec fn judged_views(list: Seq<(usize, String)>) -> Seq<(usize, Seq<char>)> {
    Seq::new(list.len(), |i: int| (list[i].0, list[i].1@))
}

/// The units at the head of the hits that a reranker judges: those that have a text.
pub fn judged_head(units: &Vec<CodeUnitRef>, hits: &Vec<FusedIndex>, head: usize) -> (r: Vec<
    (usize, String),
>)
    requires
        forall|i: int| 0 <= i < hits@.len() ==> (#[trigger] hits@[i]).index < units@.len(),
    ensures
        judged_views(r@) == judged(
            units@,
            if hits@.len() <= head {
                hits@
            } else {
                hits@.take(head as int)
            },
        ),
{
    let mut out: Vec<(usize, String)> = Vec::new();
    let mut i: usize = 0;
    assert(judged_views(out@) =~= judged(units@, hits@.take(0)));
    while i < hits.len() && i < head
        invariant
            i <= hits@.len(),
            i <= head,
            forall|j: int| 0 <= j < hits@.len() ==> (#[trigger] hits@[j]).index < units@.len(),
            judged_views(out@) == judged(units@, hits@.take(i as int)),
        decreases hits@.len() - i,
    {
        let ghost before = out@;
        assert(hits@.take(i + 1).drop_last() =~= hits@.take(i as int));
        let index: usize = hits[i].index;
        let unit = &units[index];
        let text = match &unit.implementation {
            Some(text) => Some(text.clone()),
            None => match &unit.display_source {
                Some(text) => Some(text.clone()),
                None => None,
            },
        };
        if let Some(text) = text {
            out.push((index, text));
            assert(judged_views(out@) =~= judged_views(before).push((index, text@)));
        }
        i += 1;
    }
    assert(hits@.take(hits@.len() as int) =~= hits@);
    out
}

/// The weight of a hit once some were judged: judged ones by their relevance above
/// the others by their fused score.
pub open spec fn rerank_weight(hit: FusedIndex, scores: Seq<(usize, Score)>) -> u64 {
    match rerank_of(scores, hit.index) {
        Some(score) => (0x1_0000_0000 + score.standing()) as u64,
        None => hit.score.standing(),
    }
}

/// The weights of the hits.
pub open spec fn rerank_weights(hits: Seq<FusedIndex>, scores: Seq<(usize, Score)>) -> Seq<u64> {
    Seq::new(hits.len(), |i: int| rerank_weight(hits[i], scores))
}

/// The order of the hits once some were judged: judged candidates by relevance,
/// unjudged ones in their fused order below them.
pub fn rerank_order(hits: &Vec<FusedIndex>, scores: &Vec<(usize, Score)>) -> (r: Vec<usize>)
    ensures
        is_weight_order(
            r@,
            rerank_weights(hits@, scores@),
            counted(hits@.len()),
            hits@.len() as int,
        ),
{
    let mut weights: Vec<u64> = Vec::new();
    let mut numbers: Vec<usize> = Vec::new();
    let mut i: usize = 0;
    while i < hits.len()
        invariant
            i <= hits@.len(),
            weights@.len() == i,
            numbers@.len() == i,
            forall|j: int| 0 <= j < i ==> (#[trigger] weights@[j]) == rerank_weight(hits@[j], scores@),
            forall|j: int| 0 <= j < i ==> (#[trigger] numbers@[j]) == j,
        decreases hits@.len() - i,
    {
        let weight: u64 = match find_rerank(scores, hits[i].index) {
            Some(score) => 0x1_0000_0000 + score.key(),
            None => hits[i].score.key(),
        };
        weights.push(weight);
        numbers.push(i);
        i += 1;
    }
    assert(weights@ =~= rerank_weights(hits@, scores@));
    assert(numbers@ =~= counted(hits@.len()));
    weight_order(&weights, &numbers)
}

/// A judged hit comes before every unjudged one.
pub proof fn judged_hits_come_first(
    hits: Seq<FusedIndex>,
    scores: Seq<(usize, Score)>,
    order: Seq<usize>,
    i: int,
    j: int,
)
    requires
        is_weight_order(order, rerank_weights(hits, scores), counted(hits.len()), hits.len() as int),
        0 <= i < hits.len(),
        0 <= j < hits.len(),
        rerank_of(scores, hits[order[i] as int].index) is Some,
        rerank_of(scores, hits[order[j] as int].index) is None,
    ensures
        i < j,
{
    let weights = rerank_weights(hits, scores);
    assert(0 <= order[i] < hits.len() && 0 <= order[j] < hits.len());
    assert(weights[order[i] as int] > weights[order[j] as int]);
    if j < i {
        assert(heavier_first(
            weights,
            counted(hits.len()),
            order[j] as int,
            order[i] as int,
        ));
    }
}

/// A search goes to a registered project: the one that is named, else the one that is
/// discovered around the working directory, and to none where neither is there.
pub proof fn a_search_goes_to_a_registered_project(
    projects: Seq<RegisteredProject>,
    needle: Option<Seq<char>>,
    root: Option<Seq<char>>,
    cwd: Seq<char>,
    outcome: Result<RegisteredProject, Seq<char>>,
)
    requires
        search_project(projects, needle, root, cwd, outcome),
    ensures
        outcome matches Ok(project) ==> projects.contains(project),
        needle is Some ==> search_project(projects, needle, None, cwd, outcome),
        needle is None && root is None ==> outcome is Err,
        outcome is Err && needle is Some ==> found_nowhere(projects, needle->0),
        outcome is Err && needle is None && root is Some ==> found_nowhere(projects, root->0),
{
    if outcome is Ok {
        let project = outcome->Ok_0;
        let asked = if needle is Some {
            needle->0
        } else {
            root->0
        };
        let at = choose|at: int| #[trigger]
            crate::config::registry::found_at(projects, asked, at) && projects[at] == project;
        assert(projects[at] == project);
    }
}

/// What is asked for directly is done: the query, the limit, the modes and whether the graph
/// is followed. A preset is preferred to an instruction, tests are included where that is
/// asked for, and a search by meaning alone has a space.
pub proof fn a_direct_request_is_kept(
    search: DirectSearch,
    config: ProjectConfig,
    tests: Option<Seq<char>>,
    stored: Seq<Seq<char>>,
)
    ensures
        directly_requested(search, config, tests, stored) matches Ok(facts) ==> {
            &&& facts.query == search.query@
            &&& facts.limit == search.limit
            &&& facts.retrieval == search.retrieval
            &&& facts.compress == search.compress
            &&& facts.graph == !search.no_graph
            &&& search.task is Some ==> facts.task is Some && (facts.task->0).0 == search.task->0@
            &&& search.task is None && search.instruction is Some ==> facts.task is Some && (
            facts.task->0).1 == search.instruction->0@
            &&& search.task is None && search.instruction is None ==> facts.task is None
            &&& search.retrieval == Retrieval::Dense ==> facts.space is Some
            &&& search.retrieval == Retrieval::Lexical ==> facts.space is None
            &&& search.retrieval != Retrieval::Lexical && search.space is Some ==> facts.space
                == Some(search.space->0@)
            &&& search.filter is None && search.include_tests ==> facts.filter.tests is None
        },
{
}

/// A hit is judged by what its unit implements, else by what is shown of it; a hit with
/// neither is not judged.
pub proof fn every_readable_hit_is_judged(
    units: Seq<CodeUnitRef>,
    hits: Seq<FusedIndex>,
    k: int,
)
    requires
        0 <= k < hits.len(),
    ensures
        ({
            let unit = units[hits[k].index as int];
            &&& unit.implementation is Some ==> judged(units, hits).contains(
                (hits[k].index, unit.implementation->0@),
            )
            &&& unit.implementation is None && unit.display_source is Some ==> judged(
                units,
                hits,
            ).contains((hits[k].index, unit.display_source->0@))
        }),
        judged(units, hits).len() <= hits.len(),
    decreases hits.len(),
{
    let front = hits.drop_last();
    let (before, after) = (judged(units, front), judged(units, hits));
    if front.len() > 0 {
        every_readable_hit_is_judged(
            units,
            front,
            if k < front.len() {
                k
            } else {
                0
            },
        );
    } else {
        assert(before.len() == 0);
    }
    let text = judged_text(units[hits[k].index as int]);
    if text is Some {
        let own = (hits[k].index, text->0);
        if k < front.len() {
            assert(front[k] == hits[k]);
            let i = choose|i: int| 0 <= i < before.len() && before[i] == own;
            assert(after[i] == own);
        } else {
            assert(after[after.len() - 1] == own);
        }
    }
}

/// Of two hits that are judged the one with the better judgement comes first, and of two
/// that are not the one with the better score.
pub proof fn better_judgements_come_first(
    hits: Seq<FusedIndex>,
    scores: Seq<(usize, Score)>,
    order: Seq<usize>,
    i: int,
    j: int,
)
    requires
        is_weight_order(order, rerank_weights(hits, scores), counted(hits.len()), hits.len() as int),
        0 <= i < j < hits.len(),
    ensures
        ({
            let (a, b) = (hits[order[i] as int], hits[order[j] as int]);
            let (x, y) = (rerank_of(scores, a.index), rerank_of(scores, b.index));
            &&& x is Some && y is Some ==> x->0.standing() >= y->0.standing()
            &&& x is None && y is None ==> a.score.standing() >= b.score.standing()
            &&& order[i] != order[j]
        }),
{
    let (a, b) = (order[i] as int, order[j] as int);
    let weights = rerank_weights(hits, scores);
    assert(heavier_first(weights, counted(hits.len()), a, b));
    assert(weights[a] == rerank_weight(hits[a], scores));
    assert(weights[b] == rerank_weight(hits[b], scores));
}

/// An index that is committed ends well; one that the user interrupts ends as interrupted
/// programs do, and any other pause ends apart from both.
pub proof fn outcomes_have_codes_of_their_own(outcome: IndexOutcome, r: u8)
    requires
        call_ensures(exit_code, (&outcome,), r),
    ensures
        r == 0 <==> outcome is Committed,
        r == 130 <==> outcome is Paused && opt_view(outcome->Paused_0.pause_reason) == Some(
            "user_interrupt"@,
        ),
{
}

/// A run is resumed by its number, and a restart begins anew only where none is named.
pub proof fn a_named_run_is_resumed(resume: Option<i64>, restart: bool, r: ResumePolicy)
    requires
        call_ensures(resume_policy_for, (resume, restart), r),
    ensures
        resume matches Some(run) ==> r == ResumePolicy::Run(run),
        resume is None ==> (r is New <==> restart) && (r is Auto <==> !restart),
{
}

/// An envelope tells its version, its event and its data.
pub proof fn an_envelope_tells_its_event(event: Seq<char>, data: Seq<char>)
    ensures
        crate::text::has(envelope_text(event, data), json_literal("event"@) + ":"@ + json_literal(event)),
        crate::text::has(envelope_text(event, data), json_literal("data"@) + ":"@ + data),
        crate::text::has(
            envelope_text(event, data),
            json_literal("version"@) + ":"@ + decimal(ENVELOPE_VERSION as nat),
        ),
{
    let members = seq![
        ("version"@, decimal(ENVELOPE_VERSION as nat)),
        ("event"@, json_literal(event)),
        ("data"@, data),
    ];
    crate::json::every_member_is_in_an_object(members, 0);
    crate::json::every_member_is_in_an_object(members, 1);
    crate::json::every_member_is_in_an_object(members, 2);
}

/// An argument of two parts is cut at its first sign of equality, and neither part may be
/// empty.
pub proof fn arguments_are_cut_at_the_first_sign(
    value: &str,
    id: Seq<char>,
    channel: Seq<char>,
    r: Result<SpaceArgument, String>,
)
    requires
        call_ensures(parse_space, (value,), r),
        value@ == id + seq!['='] + channel,
        !id.contains('='),
    ensures
        r is Ok <==> id.len() > 0 && channel.len() > 0,
        r matches Ok(space) ==> space.id@ == id && space.channel@ == channel,
{
    crate::text::a_cut_is_at_the_first_place(value@, '=');
    assert(value@[id.len() as int] == '=');
    assert(value@.contains('='));
    let (before, after) = cut_once(value@, '=')->0;
    crate::text::a_text_is_cut_in_one_way(value@, '=', id, channel, before, after);
}

/// A project is named before the first sign of equality and placed behind it.
pub proof fn projects_are_named_before_the_first_sign(
    value: &str,
    label: Seq<char>,
    path: Seq<char>,
    r: Result<ProjectArgument, String>,
)
    requires
        call_ensures(parse_project, (value,), r),
        value@ == label + seq!['='] + path,
        !label.contains('='),
    ensures
        r is Ok <==> label.len() > 0 && path.len() > 0,
        r matches Ok(project) ==> project.label@ == label && project.path@ == path,
{
    crate::text::a_cut_is_at_the_first_place(value@, '=');
    assert(value@[label.len() as int] == '=');
    assert(value@.contains('='));
    let (before, after) = cut_once(value@, '=')->0;
    crate::text::a_text_is_cut_in_one_way(value@, '=', label, path, before, after);
}

/// The languages that are named are indexed, and all that there are where none is.
pub proof fn named_languages_are_indexed(named: Vec<String>, bundled: Vec<String>, r: Vec<String>)
    requires
        call_ensures(enabled_languages, (&named, &bundled), r),
    ensures
        named@.len() > 0 ==> views(r@) == views(named@),
        named@.len() == 0 ==> views(r@) == views(bundled@),
{
}

/// What is kept is what was asked to be kept.
pub proof fn retention_is_as_asked(argument: RetentionArgument)
    ensures
        argument is Full <==> retention_of(argument) is Full,
        argument is Report <==> retention_of(argument) is Report,
        argument is Minimal <==> retention_of(argument) is Minimal,
{
}

/// Tests are included where that is asked for, and else treated as the place says; a search
/// by meaning alone is refused without a space, and no other search is.
pub proof fn asked_for_tests_are_included(
    include_tests: bool,
    context: Option<&str>,
    tests: Option<String>,
    retrieval: Retrieval,
    has_space: bool,
    checked: Result<(), String>,
)
    requires
        call_ensures(search_tests, (include_tests, context), tests),
        call_ensures(check_dense, (retrieval, has_space), checked),
    ensures
        include_tests ==> opt_view(tests) == Some("include"@),
        !include_tests ==> opt_view(tests) == text_view(context),
        checked is Err <==> retrieval == Retrieval::Dense && !has_space,
{
}

} // verus!
