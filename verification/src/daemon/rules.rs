//! The rules by which the daemon answers requests.
use crate::config::settings::{db_path_of, default_db_path, text_view, ProjectConfig};
use crate::embedding::contract::EmbeddingTask;
use crate::path::{is_below, lies_below, parent_of, parent_path};
use crate::query::tasks::{preset_text, task_preset};
use crate::text::{concat, debug_literal, debug_quote, opt_view, same, views};
use vstd::prelude::*;
use vstd::string::*;

verus! {

/// What can be asked of the daemon.
#[derive(Debug, Clone, Copy, PartialEq, Eq, Structural)]
pub enum Method {
    Ping,
    Status,
    Add,
    Remove,
    List,
    Reindex,
    Search,
}

/// The method with the name.
pub open spec fn method_named(name: Seq<char>) -> Option<Method> {
    if name == "daemon.ping"@ {
        Some(Method::Ping)
    } else if name == "daemon.status"@ {
        Some(Method::Status)
    } else if name == "project.add"@ {
        Some(Method::Add)
    } else if name == "project.remove"@ {
        Some(Method::Remove)
    } else if name == "project.list"@ {
        Some(Method::List)
    } else if name == "project.reindex"@ {
        Some(Method::Reindex)
    } else if name == "search"@ {
        Some(Method::Search)
    } else {
        None
    }
}

/// The method that a request asks for.
pub fn dispatch(name: &str) -> (r: Result<Method, String>)
    ensures
        match r {
            Ok(method) => method_named(name@) == Some(method),
            Err(message) => method_named(name@) is None && message@ == "unknown method "@
                + debug_literal(name@),
        },
{
    if same(name, "daemon.ping") {
        Ok(Method::Ping)
    } else if same(name, "daemon.status") {
        Ok(Method::Status)
    } else if same(name, "project.add") {
        Ok(Method::Add)
    } else if same(name, "project.remove") {
        Ok(Method::Remove)
    } else if same(name, "project.list") {
        Ok(Method::List)
    } else if same(name, "project.reindex") {
        Ok(Method::Reindex)
    } else if same(name, "search") {
        Ok(Method::Search)
    } else {
        Err(concat("unknown method ", debug_quote(name).as_str()))
    }
}

/// What becomes of a project's job when the project is added.
#[derive(Debug, Clone, Copy, PartialEq, Eq, Structural)]
pub enum AddedJob {
    /// A job is under way and is left alone.
    AlreadyIndexing,
    /// A job is started for a project that was registered before.
    Reindexing,
    /// A job is started for a new project.
    Indexing,
}

impl AddedJob {
    /// What is said of it.
    pub open spec fn token(self) -> Seq<char> {
        match self {
            AddedJob::AlreadyIndexing => "already-indexing"@,
            AddedJob::Reindexing => "reindexing"@,
            AddedJob::Indexing => "indexing"@,
        }
    }

    pub fn as_str(self) -> (r: &'static str)
        ensures
            r@ == self.token(),
    {
        match self {
            AddedJob::AlreadyIndexing => "already-indexing",
            AddedJob::Reindexing => "reindexing",
            AddedJob::Indexing => "indexing",
        }
    }
}

/// What becomes of a project's job when the project is added: never two at once.
pub fn added_job(running: bool, existed: bool) -> (r: AddedJob)
    ensures
        r == if running {
            AddedJob::AlreadyIndexing
        } else if existed {
            AddedJob::Reindexing
        } else {
            AddedJob::Indexing
        },
{
    if running {
        AddedJob::AlreadyIndexing
    } else if existed {
        AddedJob::Reindexing
    } else {
        AddedJob::Indexing
    }
}

/// Checks that a project may be indexed again: no job of its own is under way.
pub fn check_reindex(label: &str, running: bool) -> (r: Result<(), String>)
    ensures
        match r {
            Ok(()) => !running,
            Err(message) => running && message@ == "project "@ + debug_literal(label@)
                + " is already indexing"@,
        },
{
    if !running {
        return Ok(());
    }
    let mut text = concat("project ", debug_quote(label).as_str());
    text.append(" is already indexing");
    Err(text)
}

/// The directory that may be deleted with a project: the one that its database has
/// by default, where its database lies in it and it lies in the data root. What a
/// project keeps elsewhere is not the daemon's.
pub open spec fn purgeable(data_root: Seq<char>, root: Seq<char>, db: Seq<char>) -> Option<
    Seq<char>,
> {
    match parent_of(db_path_of(data_root, root)) {
        Some(dir) => if lies_below(db, dir) && lies_below(dir, data_root) {
            Some(dir)
        } else {
            None
        },
        None => None,
    }
}

/// The directory that may be deleted with a project.
pub fn purge_dir(data_root: &str, root: &str, db: &str) -> (r: Option<String>)
    ensures
        match r {
            Some(dir) => purgeable(data_root@, root@, db@) == Some(dir@),
            None => purgeable(data_root@, root@, db@) is None,
        },
{
    match parent_path(default_db_path(data_root, root).as_str()) {
        None => None,
        Some(dir) => {
            if is_below(db, dir.as_str()) && is_below(dir.as_str(), data_root) {
                Some(dir)
            } else {
                None
            }
        },
    }
}

/// The space that a search uses: the one it names, else the project's default, else
/// the only one that is stored.
pub open spec fn space_choice(
    explicit: Option<Seq<char>>,
    default: Option<Seq<char>>,
    stored: Seq<Seq<char>>,
) -> Option<Seq<char>> {
    if explicit is Some {
        explicit
    } else if default is Some {
        default
    } else if stored.len() == 1 {
        Some(stored[0])
    } else {
        None
    }
}

/// The space that a search uses.
pub fn choose_space(explicit: Option<&str>, default: Option<&str>, stored: &Vec<String>) -> (r:
    Option<String>)
    ensures
        opt_view(r) == space_choice(text_view(explicit), text_view(default), views(stored@)),
{
    if let Some(space) = explicit {
        return Some(space.to_owned());
    }
    if let Some(space) = default {
        return Some(space.to_owned());
    }
    if stored.len() == 1 {
        assert(views(stored@)[0] == stored@[0]@);
        return Some(stored[0].clone());
    }
    None
}

/// What is said of a task preset that does not exist.
pub open spec fn unknown_preset_text(preset: Seq<char>) -> Seq<char> {
    "unknown task preset "@ + debug_literal(preset)
        + "; available: code-search, locate-edit-targets, explain-behavior, find-analogues, diagnose-failure"@
}

/// The instruction of a preset: the project's own, else the built-in one.
pub open spec fn preset_instruction(config: ProjectConfig, preset: Seq<char>) -> Option<Seq<char>> {
    if config.tasks@.contains_key(preset) {
        Some(config.tasks@[preset].instruction@)
    } else {
        preset_text(preset)
    }
}

/// The task is the preset's.
pub open spec fn is_preset_task(task: EmbeddingTask, config: ProjectConfig, preset: Seq<char>) -> bool {
    task.id@ == preset && preset_instruction(config, preset) == Some(task.instruction@)
}

/// The task of a preset: the project's own, else the built-in one.
pub fn preset_task(config: &ProjectConfig, preset: &str) -> (r: Result<EmbeddingTask, String>)
    requires
        config.wf(),
    ensures
        match r {
            Ok(task) => is_preset_task(task, *config, preset@),
            Err(message) => preset_instruction(*config, preset@) is None && message@
                == unknown_preset_text(preset@),
        },
{
    if let Some(task) = config.tasks.get(preset) {
        return Ok(EmbeddingTask::new(preset, task.instruction.as_str()));
    }
    match task_preset(preset) {
        Some(instruction) => Ok(EmbeddingTask::new(preset, instruction)),
        None => {
            let mut text = concat("unknown task preset ", debug_quote(preset).as_str());
            text.append(
                "; available: code-search, locate-edit-targets, explain-behavior, find-analogues, diagnose-failure",
            );
            Err(text)
        },
    }
}

/// The task of a request: a hand-written instruction wins over a preset.
pub fn resolve_task(
    config: &ProjectConfig,
    preset: Option<&str>,
    instruction: Option<&str>,
) -> (r: Result<Option<EmbeddingTask>, String>)
    requires
        config.wf(),
    ensures
        match (instruction, preset) {
            (Some(instruction), _) => r is Ok && r->Ok_0 is Some && r->Ok_0->0.id@ == "custom"@
                && r->Ok_0->0.instruction@ == instruction@,
            (None, Some(preset)) => match r {
                Ok(Some(task)) => is_preset_task(task, *config, preset@),
                Ok(None) => false,
                Err(message) => preset_instruction(*config, preset@) is None && message@
                    == unknown_preset_text(preset@),
            },
            (None, None) => r is Ok && r->Ok_0 is None,
        },
{
    if let Some(instruction) = instruction {
        return Ok(Some(EmbeddingTask::new("custom", instruction)));
    }
    match preset {
        None => Ok(None),
        Some(preset) => match preset_task(config, preset) {
            Ok(task) => Ok(Some(task)),
            Err(message) => Err(message),
        },
    }
}

/// What is purged lies in the data root, and the project's database lies in it.
pub proof fn only_owned_state_is_purged(data_root: Seq<char>, root: Seq<char>, db: Seq<char>)
    ensures
        purgeable(data_root, root, db) matches Some(dir) ==> lies_below(dir, data_root)
            && lies_below(db, dir),
{
}

/// The space of a search is the one that is named, else the project's default, else the only
/// one there is.
pub proof fn a_named_space_is_searched(
    explicit: Option<Seq<char>>,
    default: Option<Seq<char>>,
    stored: Seq<Seq<char>>,
)
    ensures
        explicit is Some ==> space_choice(explicit, default, stored) == explicit,
        explicit is None && default is Some ==> space_choice(explicit, default, stored) == default,
        explicit is None && default is None ==> match space_choice(explicit, default, stored) {
            Some(space) => stored == seq![space],
            None => stored.len() != 1,
        },
{
    if stored.len() == 1 {
        assert(stored =~= seq![stored[0]]);
    }
}

/// A project's own preset is preferred to a built-in one of the same name.
pub proof fn own_presets_are_preferred(config: ProjectConfig, preset: Seq<char>)
    ensures
        config.tasks@.contains_key(preset) ==> preset_instruction(config, preset) == Some(
            config.tasks@[preset].instruction@,
        ),
        !config.tasks@.contains_key(preset) ==> preset_instruction(config, preset) == preset_text(
            preset,
        ),
{
}

/// Each method has a name of its own.
pub proof fn methods_have_names(name: Seq<char>)
    ensures
        method_named(name) == Some(Method::Ping) <==> name == "daemon.ping"@,
        method_named(name) == Some(Method::Status) <==> name == "daemon.status"@,
        method_named(name) == Some(Method::Add) <==> name == "project.add"@,
        method_named(name) == Some(Method::Remove) <==> name == "project.remove"@,
        method_named(name) == Some(Method::List) <==> name == "project.list"@,
        method_named(name) == Some(Method::Reindex) <==> name == "project.reindex"@,
        method_named(name) == Some(Method::Search) <==> name == "search"@,
{
    reveal_strlit("daemon.ping");
    reveal_strlit("daemon.status");
    reveal_strlit("project.add");
    reveal_strlit("project.remove");
    reveal_strlit("project.list");
    reveal_strlit("project.reindex");
    reveal_strlit("search");
    assert("daemon.ping"@.len() == 11 && "daemon.ping"@[0] == 'd');
    assert("daemon.status"@.len() == 13);
    assert("project.add"@.len() == 11 && "project.add"@[0] == 'p');
    assert("project.remove"@.len() == 14);
    assert("project.list"@.len() == 12);
    assert("project.reindex"@.len() == 15);
    assert("search"@.len() == 6);
}

/// A job that is under way is left alone; else a project is indexed, anew where it was
/// registered before.
pub proof fn a_running_job_is_left_alone(running: bool, existed: bool, r: AddedJob)
    requires
        call_ensures(added_job, (running, existed), r),
    ensures
        r == AddedJob::AlreadyIndexing <==> running,
        r == AddedJob::Reindexing <==> existed && !running,
{
}

} // verus!
