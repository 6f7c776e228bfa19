//! What a search request asks for, after the project's settings have filled it up.
use crate::config::settings::{text_view, ProjectConfig};
use crate::daemon::pipeline::{apply_tests_policy, with_policy, Compress, HybridOptions, Retrieval};
use crate::daemon::protocol::SearchParams;
use crate::daemon::rules::{
    choose_space, preset_instruction, resolve_task, space_choice, unknown_preset_text,
};
use crate::embedding::contract::EmbeddingTask;
use crate::model::EmbeddingSpaceId;
use crate::query::filter::{
    clause_fault_text, filter_of, no_filter, ClauseFault, FilterFacts, WhereFilter,
};
use crate::text::{debug_literal, opt_view, views, words};
use vstd::prelude::*;
use vstd::string::*;

verus! {

/// A task as an identifier and an instruction.
pub open spec fn task_view(task: Option<EmbeddingTask>) -> Option<(Seq<char>, Seq<char>)> {
    match task {
        Some(task) => Some((task.id@, task.instruction@)),
        None => None,
    }
}

/// The options of a search, by their contents.
#[verifier::ext_equal]
pub struct OptionFacts {
    pub query: Seq<char>,
    pub task: Option<(Seq<char>, Seq<char>)>,
    pub space: Option<Seq<char>>,
    pub filter: FilterFacts,
    pub limit: usize,
    pub retrieval: Retrieval,
    pub compress: Compress,
    pub graph: bool,
}

/// The contents of the options of a search.
pub open spec fn option_facts(options: HybridOptions) -> OptionFacts {
    OptionFacts {
        query: options.query@,
        task: task_view(options.task),
        space: match options.space {
            Some(space) => Some(space@),
            None => None,
        },
        filter: options.filter@,
        limit: options.limit,
        retrieval: options.retrieval,
        compress: options.compress,
        graph: options.graph,
    }
}

/// The task of a request, or what is wrong with it: a hand-written instruction wins
/// over a preset.
pub open spec fn task_choice(
    config: ProjectConfig,
    preset: Option<Seq<char>>,
    instruction: Option<Seq<char>>,
) -> Result<Option<(Seq<char>, Seq<char>)>, Seq<char>> {
    match (instruction, preset) {
        (Some(instruction), _) => Ok(Some(("custom"@, instruction))),
        (None, None) => Ok(None),
        (None, Some(preset)) => match preset_instruction(config, preset) {
            Some(instruction) => Ok(Some((preset, instruction))),
            None => Err(unknown_preset_text(preset)),
        },
    }
}

/// What is said of a tests policy that is not known.
pub open spec fn unknown_policy_text(policy: Seq<char>) -> Seq<char> {
    "unknown tests policy "@ + debug_literal(policy) + " (include|exclude|only)"@
}

/// The filter of a request with the policy on tests that holds for it, or what is
/// wrong with one of them.
pub open spec fn filter_choice(filter: Option<Seq<char>>, tests: Option<Seq<char>>) -> Result<
    FilterFacts,
    Seq<char>,
> {
    let parsed: Result<FilterFacts, (Seq<char>, ClauseFault)> = match filter {
        Some(text) => filter_of(words(text)),
        None => Ok(no_filter()),
    };
    match parsed {
        Err((clause, fault)) => Err(clause_fault_text(clause, fault)),
        Ok(parsed) => match with_policy(parsed, tests) {
            Some(filter) => Ok(filter),
            None => Err(unknown_policy_text(tests->0)),
        },
    }
}

/// The first of two texts that is there.
pub open spec fn either(first: Option<Seq<char>>, second: Option<Seq<char>>) -> Option<Seq<char>> {
    if first is Some {
        first
    } else {
        second
    }
}

fn pick<'a>(first: &'a Option<String>, second: &'a Option<String>) -> (r: Option<&'a str>)
    ensures
        text_view(r) == either(opt_view(*first), opt_view(*second)),
{
    match first {
        Some(text) => Some(text.as_str()),
        None => match second {
            Some(text) => Some(text.as_str()),
            None => None,
        },
    }
}

/// The mode of retrieval with a name.
pub open spec fn retrieval_named(name: Seq<char>) -> Result<Retrieval, Seq<char>> {
    if name == Retrieval::Hybrid.name() {
        Ok(Retrieval::Hybrid)
    } else if name == Retrieval::Dense.name() {
        Ok(Retrieval::Dense)
    } else if name == Retrieval::Lexical.name() {
        Ok(Retrieval::Lexical)
    } else {
        Err("unknown retrieval mode "@ + debug_literal(name) + " (hybrid|dense|lexical)"@)
    }
}

/// The mode of compression with a name.
pub open spec fn compress_named(name: Seq<char>) -> Result<Compress, Seq<char>> {
    if name == Compress::Auto.name() {
        Ok(Compress::Auto)
    } else if name == Compress::Off.name() {
        Ok(Compress::Off)
    } else if name == Compress::Always.name() {
        Ok(Compress::Always)
    } else {
        Err("unknown compression mode "@ + debug_literal(name) + " (auto|off|always)"@)
    }
}

/// The name that is given, or the one that stands in for it.
pub open spec fn named_or(name: Option<Seq<char>>, otherwise: Seq<char>) -> Seq<char> {
    match name {
        Some(name) => name,
        None => otherwise,
    }
}

/// What a request asks for, or the first thing that is wrong with it: its task, its
/// filter, its policy on tests, its mode of retrieval, its mode of compression. What
/// it leaves open the project's settings say. A lexical search uses no space.
pub open spec fn requested(params: SearchParams, config: ProjectConfig, stored: Seq<Seq<char>>) -> Result<
    OptionFacts,
    Seq<char>,
> {
    match task_choice(config, opt_view(params.task), opt_view(params.instruction)) {
        Err(message) => Err(message),
        Ok(task) => match filter_choice(
            opt_view(params.filter),
            either(opt_view(params.tests), opt_view(config.search.tests)),
        ) {
            Err(message) => Err(message),
            Ok(filter) => match retrieval_named(
                named_or(
                    either(opt_view(params.retrieval), opt_view(config.search.retrieval)),
                    "hybrid"@,
                ),
            ) {
                Err(message) => Err(message),
                Ok(retrieval) => match compress_named(
                    named_or(opt_view(params.compress), "auto"@),
                ) {
                    Err(message) => Err(message),
                    Ok(compress) => Ok(
                        OptionFacts {
                            query: params.query@,
                            task,
                            space: if retrieval == Retrieval::Lexical {
                                None
                            } else {
                                space_choice(
                                    opt_view(params.space),
                                    opt_view(config.search.default_space),
                                    stored,
                                )
                            },
                            filter,
                            limit: params.limit,
                            retrieval,
                            compress,
                            graph: !params.no_graph,
                        },
                    ),
                },
            },
        },
    }
}

/// The mode of retrieval with a name.
pub fn read_retrieval(name: &str) -> (r: Result<Retrieval, String>)
    ensures
        match r {
            Ok(mode) => retrieval_named(name@) == Ok::<Retrieval, Seq<char>>(mode),
            Err(message) => retrieval_named(name@) == Err::<Retrieval, Seq<char>>(message@),
        },
{
    proof {
        mode_names_differ();
    }
    Retrieval::parse(name)
}

/// The mode of compression with a name.
pub fn read_compress(name: &str) -> (r: Result<Compress, String>)
    ensures
        match r {
            Ok(mode) => compress_named(name@) == Ok::<Compress, Seq<char>>(mode),
            Err(message) => compress_named(name@) == Err::<Compress, Seq<char>>(message@),
        },
{
    proof {
        mode_names_differ();
    }
    Compress::parse(name)
}

proof fn mode_names_differ()
    ensures
        Retrieval::Hybrid.name() != Retrieval::Dense.name(),
        Retrieval::Hybrid.name() != Retrieval::Lexical.name(),
        Retrieval::Dense.name() != Retrieval::Lexical.name(),
        Compress::Auto.name() != Compress::Off.name(),
        Compress::Auto.name() != Compress::Always.name(),
        Compress::Off.name() != Compress::Always.name(),
{
    reveal_strlit("hybrid");
    reveal_strlit("dense");
    reveal_strlit("lexical");
    reveal_strlit("auto");
    reveal_strlit("off");
    reveal_strlit("always");
    assert("hybrid"@.len() != "dense"@.len());
    assert("hybrid"@.len() != "lexical"@.len());
    assert("dense"@.len() != "lexical"@.len());
    assert("auto"@.len() != "off"@.len());
    assert("auto"@.len() != "always"@.len());
    assert("off"@.len() != "always"@.len());
}

/// The filter of a request with the policy on tests that holds for it.
pub fn read_filter(filter: Option<&str>, tests: Option<&str>) -> (r: Result<WhereFilter, String>)
    ensures
        match r {
            Ok(filter_read) => filter_choice(text_view(filter), text_view(tests)) == Ok::<
                FilterFacts,
                Seq<char>,
            >(filter_read@),
            Err(message) => filter_choice(text_view(filter), text_view(tests)) == Err::<
                FilterFacts,
                Seq<char>,
            >(message@),
        },
{
    match WhereFilter::parse(filter) {
        Err(error) => Err(error.message()),
        Ok(parsed) => {
            let mut own = parsed;
            match apply_tests_policy(&mut own, tests) {
                Ok(()) => Ok(own),
                Err(message) => Err(message),
            }
        },
    }
}

pub(crate) fn as_text(text: &Option<String>) -> (r: Option<&str>)
    ensures
        text_view(r) == opt_view(*text),
{
    match text {
        Some(text) => Some(text.as_str()),
        None => None,
    }
}

/// The options of a request to search a project whose database stores the given
/// spaces.
pub fn request_options(params: &SearchParams, config: &ProjectConfig, stored: &Vec<String>) -> (r:
    Result<HybridOptions, String>)
    requires
        config.wf(),
    ensures
        match r {
            Ok(options) => requested(*params, *config, views(stored@)) == Ok::<
                OptionFacts,
                Seq<char>,
            >(option_facts(options)),
            Err(message) => requested(*params, *config, views(stored@)) == Err::<
                OptionFacts,
                Seq<char>,
            >(message@),
        },
{
    let task = match resolve_task(config, as_text(&params.task), as_text(&params.instruction)) {
        Ok(task) => task,
        Err(message) => {
            return Err(message);
        },
    };
    assert(task_choice(*config, opt_view(params.task), opt_view(params.instruction)) == Ok::<
        Option<(Seq<char>, Seq<char>)>,
        Seq<char>,
    >(task_view(task)));
    let tests = pick(&params.tests, &config.search.tests);
    let filter = match read_filter(as_text(&params.filter), tests) {
        Ok(filter) => filter,
        Err(message) => {
            return Err(message);
        },
    };
    let mode = match pick(&params.retrieval, &config.search.retrieval) {
        Some(name) => name,
        None => "hybrid",
    };
    let retrieval = match read_retrieval(mode) {
        Ok(retrieval) => retrieval,
        Err(message) => {
            return Err(message);
        },
    };
    let variant = match &params.compress {
        Some(name) => name.as_str(),
        None => "auto",
    };
    let compress = match read_compress(variant) {
        Ok(compress) => compress,
        Err(message) => {
            return Err(message);
        },
    };
    let space = if retrieval == Retrieval::Lexical {
        None
    } else {
        match choose_space(
            as_text(&params.space),
            as_text(&config.search.default_space),
            stored,
        ) {
            Some(id) => Some(EmbeddingSpaceId::new(id.as_str())),
            None => None,
        }
    };
    Ok(
        HybridOptions {
            query: params.query.clone(),
            task,
            space,
            filter,
            limit: params.limit,
            retrieval,
            compress,
            graph: !params.no_graph,
        },
    )
}

/// What is said of a space that a project does not store.
pub fn missing_space(space: &EmbeddingSpaceId, label: &str) -> (r: String)
    ensures
        r@ == "embedding space "@ + space@ + " is not stored for "@ + debug_literal(label@),
{
    let mut text = crate::text::concat("embedding space ", space.as_str());
    text.append(" is not stored for ");
    text.append(crate::text::debug_quote(label).as_str());
    text
}

/// What a mode is called leads back to it, and nothing else does.
pub proof fn modes_are_read_back(retrieval: Retrieval, compress: Compress, name: Seq<char>)
    ensures
        retrieval_named(retrieval.name()) == Ok::<Retrieval, Seq<char>>(retrieval),
        compress_named(compress.name()) == Ok::<Compress, Seq<char>>(compress),
        retrieval_named(name) matches Ok(mode) ==> mode.name() == name,
        compress_named(name) matches Ok(mode) ==> mode.name() == name,
{
    reveal_strlit("hybrid");
    reveal_strlit("dense");
    reveal_strlit("lexical");
    reveal_strlit("auto");
    reveal_strlit("off");
    reveal_strlit("always");
    assert("hybrid"@.len() == 6 && "dense"@.len() == 5 && "lexical"@.len() == 7);
    assert("auto"@.len() == 4 && "off"@.len() == 3 && "always"@.len() == 6);
}

/// What a request says is done: its query, its limit and whether the graph is followed, and
/// the modes it names; a search of words alone has no space.
pub proof fn a_request_is_kept(params: SearchParams, config: ProjectConfig, stored: Seq<Seq<char>>)
    ensures
        requested(params, config, stored) matches Ok(facts) ==> {
            &&& facts.query == params.query@
            &&& facts.limit == params.limit
            &&& facts.graph == !params.no_graph
            &&& params.retrieval is Some ==> facts.retrieval.name() == params.retrieval->0@
            &&& params.compress is Some ==> facts.compress.name() == params.compress->0@
            &&& params.instruction is Some ==> facts.task is Some && (facts.task->0).1
                == params.instruction->0@
            &&& params.instruction is None && params.task is None ==> facts.task is None
            &&& facts.retrieval == Retrieval::Lexical ==> facts.space is None
            &&& facts.retrieval != Retrieval::Lexical && params.space is Some ==> facts.space
                == Some(params.space->0@)
        },
{
    if requested(params, config, stored) is Ok {
        let facts = requested(params, config, stored)->Ok_0;
        modes_are_read_back(facts.retrieval, facts.compress, facts.retrieval.name());
    }
}

/// The configuration decides only what the request leaves open: two configurations that
/// agree on the rest give the same where the request names its tests policy, its retrieval
/// or its space itself.
pub proof fn requests_override_the_configuration(
    params: SearchParams,
    a: ProjectConfig,
    b: ProjectConfig,
    stored: Seq<Seq<char>>,
)
    requires
        a.tasks == b.tasks,
        params.tests is Some || a.search.tests == b.search.tests,
        params.retrieval is Some || a.search.retrieval == b.search.retrieval,
        params.space is Some || a.search.default_space == b.search.default_space,
    ensures
        requested(params, a, stored) == requested(params, b, stored),
{
}

/// Where neither the request nor the configuration says otherwise, a search is hybrid,
/// compresses as it sees fit and passes over tests.
pub proof fn open_choices_have_defaults(
    params: SearchParams,
    config: ProjectConfig,
    stored: Seq<Seq<char>>,
)
    requires
        params.retrieval is None && config.search.retrieval is None,
        params.compress is None,
        params.tests is None && config.search.tests is None,
        params.filter is None,
    ensures
        requested(params, config, stored) matches Ok(facts) ==> {
            &&& facts.retrieval == Retrieval::Hybrid
            &&& facts.compress == Compress::Auto
            &&& facts.filter.tests == Some(crate::query::filter::TestsPolicy::Exclude)
        },
{
    modes_are_read_back(Retrieval::Hybrid, Compress::Auto, "hybrid"@);
}

} // verus!
