//! The retrieval pipeline shared by the daemon and direct searches: dense retrieval
//! with a compressed variant, lexical retrieval, reciprocal-rank fusion, then
//! expansion of the top seeds along the relation graph.
use crate::config::settings::text_view;
use crate::daemon::protocol::{SearchHit, SearchResults};
use crate::embedding::contract::EmbeddingTask;
use crate::indexer::settings::{IndexSettings, RetentionMode};
use crate::model::EmbeddingSpaceId;
use crate::query::compress::{compress_query, compressed};
use crate::query::filter::{passes, FilterFacts, TestsPolicy, WhereFilter};
use crate::query::fusion::{
    contribution_views, is_fusion, reciprocal_rank_fusion, FusedIndex, RankedList,
};
use crate::query::rank::Score;
use crate::query::unit::{selector, unit_id, UnitFacts, UnitView};
use crate::search::{is_expansion, reached, CodeUnitRef, SearchIndex};
use crate::text::{
    clone_opt, clone_texts, concat, debug_literal, debug_quote, decimal, decimal_text, opt_view,
    same, signed_decimal, signed_text, views,
};
use vstd::prelude::*;
use vstd::string::*;

verus! {

#[derive(Debug, Clone, Copy, PartialEq, Eq, Structural)]
pub enum Retrieval {
    Hybrid,
    Dense,
    Lexical,
}

impl Retrieval {
    /// The name of the mode.
    pub open spec fn name(self) -> Seq<char> {
        match self {
            Retrieval::Hybrid => "hybrid"@,
            Retrieval::Dense => "dense"@,
            Retrieval::Lexical => "lexical"@,
        }
    }

    pub fn as_str(self) -> (r: &'static str)
        ensures
            r@ == self.name(),
    {
        match self {
            Retrieval::Hybrid => "hybrid",
            Retrieval::Dense => "dense",
            Retrieval::Lexical => "lexical",
        }
    }

    /// The mode with the name.
    pub fn parse(value: &str) -> (r: Result<Retrieval, String>)
        ensures
            match r {
                Ok(mode) => mode.name() == value@,
                Err(message) => {
                    &&& forall|mode: Retrieval| #[trigger] mode.name() != value@
                    &&& message@ == "unknown retrieval mode "@ + debug_literal(value@)
                        + " (hybrid|dense|lexical)"@
                },
            },
    {
        if same(value, "hybrid") {
            Ok(Retrieval::Hybrid)
        } else if same(value, "dense") {
            Ok(Retrieval::Dense)
        } else if same(value, "lexical") {
            Ok(Retrieval::Lexical)
        } else {
            let mut text = concat("unknown retrieval mode ", debug_quote(value).as_str());
            text.append(" (hybrid|dense|lexical)");
            assert forall|mode: Retrieval| #[trigger] mode.name() != value@ by {
                match mode {
                    Retrieval::Hybrid => {},
                    Retrieval::Dense => {},
                    Retrieval::Lexical => {},
                }
            }
            Err(text)
        }
    }
}

#[derive(Debug, Clone, Copy, PartialEq, Eq, Structural)]
pub enum Compress {
    Auto,
    Off,
    Always,
}

impl Compress {
    /// The name of the mode.
    pub open spec fn name(self) -> Seq<char> {
        match self {
            Compress::Auto => "auto"@,
            Compress::Off => "off"@,
            Compress::Always => "always"@,
        }
    }

    pub fn as_str(self) -> (r: &'static str)
        ensures
            r@ == self.name(),
    {
        match self {
            Compress::Auto => "auto",
            Compress::Off => "off",
            Compress::Always => "always",
        }
    }

    /// The mode with the name.
    pub fn parse(value: &str) -> (r: Result<Compress, String>)
        ensures
            match r {
                Ok(mode) => mode.name() == value@,
                Err(message) => {
                    &&& forall|mode: Compress| #[trigger] mode.name() != value@
                    &&& message@ == "unknown compression mode "@ + debug_literal(value@)
                        + " (auto|off|always)"@
                },
            },
    {
        if same(value, "auto") {
            Ok(Compress::Auto)
        } else if same(value, "off") {
            Ok(Compress::Off)
        } else if same(value, "always") {
            Ok(Compress::Always)
        } else {
            let mut text = concat("unknown compression mode ", debug_quote(value).as_str());
            text.append(" (auto|off|always)");
            assert forall|mode: Compress| #[trigger] mode.name() != value@ by {
                match mode {
                    Compress::Auto => {},
                    Compress::Off => {},
                    Compress::Always => {},
                }
            }
            Err(text)
        }
    }
}

#[derive(Debug)]
pub struct HybridOptions {
    pub query: String,
    pub task: Option<EmbeddingTask>,
    /// Dense space; nothing forces lexical-only retrieval.
    pub space: Option<EmbeddingSpaceId>,
    pub filter: WhereFilter,
    pub limit: usize,
    pub retrieval: Retrieval,
    pub compress: Compress,
    pub graph: bool,
}

#[derive(Debug)]
pub struct HybridOutcome {
    pub fused: Vec<FusedIndex>,
    pub compressed_query: Option<String>,
}

/// The first stage of a search: what is to be retrieved.
#[derive(Debug)]
pub struct HybridPlan {
    /// How many candidates each list may hold.
    pub candidates: usize,
    /// Whether the dense space is searched.
    pub dense: bool,
    /// The compressed form of the query, searched beside it.
    pub compressed: Option<String>,
    /// Whether the text index is searched.
    pub lexical: bool,
}

/// How many candidates each list may hold: enough to survive the fusion.
pub open spec fn candidate_count(limit: usize) -> int {
    if limit * 5 > 50 {
        limit * 5
    } else {
        50
    }
}

/// The most terms of a compressed query.
pub const COMPRESSED_TERMS: usize = 24;

/// The fewest words of a query that is compressed unasked.
pub const COMPRESSED_MIN_WORDS: usize = 25;

/// The compressed form of a query, as the mode has it.
pub open spec fn compressed_by(mode: Compress, query: Seq<char>) -> Option<Seq<char>> {
    match mode {
        Compress::Off => None,
        Compress::Auto => compressed(query, COMPRESSED_TERMS as nat, COMPRESSED_MIN_WORDS as nat),
        Compress::Always => compressed(query, COMPRESSED_TERMS as nat, 0),
    }
}

/// The dense space is wanted.
pub open spec fn wants_dense(options: HybridOptions) -> bool {
    options.retrieval != Retrieval::Lexical && options.space is Some
}

/// The text index is searched: always, but for a dense search that has a space.
pub open spec fn wants_lexical(options: HybridOptions) -> bool {
    options.retrieval != Retrieval::Dense || options.space is None
}

/// Plans the first stage of a search. Dense retrieval needs an embedding backend;
/// without a space the text index alone is searched.
pub fn plan_hybrid(options: &HybridOptions, has_backend: bool) -> (r: Result<HybridPlan, String>)
    requires
        options.limit * 10 <= usize::MAX,
    ensures
        match r {
            Ok(plan) => {
                &&& wants_dense(*options) ==> has_backend
                &&& plan.candidates == candidate_count(options.limit)
                &&& plan.dense == wants_dense(*options)
                &&& opt_view(plan.compressed) == compressed_by(options.compress, options.query@)
                &&& plan.lexical == wants_lexical(*options)
            },
            Err(message) => wants_dense(*options) && !has_backend && message@
                == "dense retrieval requested but no embedding backend was provided"@,
        },
{
    let dense = options.retrieval != Retrieval::Lexical && options.space.is_some();
    if dense && !has_backend {
        return Err(
            "dense retrieval requested but no embedding backend was provided".to_owned(),
        );
    }
    let candidates: usize = if options.limit * 5 > 50 {
        options.limit * 5
    } else {
        50
    };
    let compressed = match options.compress {
        Compress::Off => None,
        Compress::Auto => compress_query(
            options.query.as_str(),
            COMPRESSED_TERMS,
            COMPRESSED_MIN_WORDS,
        ),
        Compress::Always => compress_query(options.query.as_str(), COMPRESSED_TERMS, 0),
    };
    Ok(
        HybridPlan {
            candidates,
            dense,
            compressed,
            lexical: options.retrieval != Retrieval::Dense || options.space.is_none(),
        },
    )
}

/// A hit of the text index.
#[derive(Debug)]
pub struct LexicalHit {
    pub project_label: String,
    pub entity_version_id: String,
}

/// The last unit of the project with the version.
pub open spec fn unit_of_version(
    units: Seq<CodeUnitRef>,
    label: Seq<char>,
    version: Seq<char>,
) -> Option<usize>
    decreases units.len(),
{
    if units.len() == 0 {
        None
    } else if units.last().project_label@ == label && units.last().entity_version_id@ == version {
        Some((units.len() - 1) as usize)
    } else {
        unit_of_version(units.drop_last(), label, version)
    }
}

/// The units that hits of the text index lead to and that pass the filter.
pub open spec fn lexical_units(
    units: Seq<CodeUnitRef>,
    hits: Seq<LexicalHit>,
    filter: FilterFacts,
) -> Seq<usize>
    decreases hits.len(),
{
    if hits.len() == 0 {
        Seq::empty()
    } else {
        let before = lexical_units(units, hits.drop_last(), filter);
        let hit = hits.last();
        match unit_of_version(units, hit.project_label@, hit.entity_version_id@) {
            Some(index) => if passes(filter, units[index as int].facts()) {
                before.push(index)
            } else {
                before
            },
            None => before,
        }
    }
}

fn find_version(units: &Vec<CodeUnitRef>, label: &str, version: &str) -> (r: Option<usize>)
    ensures
        r == unit_of_version(units@, label@, version@),
        r is Some ==> r->0 < units@.len(),
{
    let mut n: usize = units.len();
    assert(units@.take(n as int) =~= units@);
    while n > 0
        invariant
            n <= units@.len(),
            unit_of_version(units@, label@, version@) == unit_of_version(
                units@.take(n as int),
                label@,
                version@,
            ),
        decreases n,
    {
        assert(units@.take(n as int).drop_last() =~= units@.take(n - 1));
        let unit = &units[n - 1];
        if same(unit.project_label.as_str(), label) && same(
            unit.entity_version_id.as_str(),
            version,
        ) {
            return Some(n - 1);
        }
        n -= 1;
    }
    None
}

/// The first of the units that hits of the text index lead to and that pass the
/// filter.
pub fn lexical_positions(
    units: &Vec<CodeUnitRef>,
    hits: &Vec<LexicalHit>,
    filter: &WhereFilter,
    candidates: usize,
) -> (r: Vec<usize>)
    ensures
        ({
            let all = lexical_units(units@, hits@, filter@);
            r@ == if all.len() <= candidates {
                all
            } else {
                all.take(candidates as int)
            }
        }),
        forall|i: int| 0 <= i < r@.len() ==> (#[trigger] r@[i]) < units@.len(),
{
    let mut out: Vec<usize> = Vec::new();
    let mut i: usize = 0;
    assert(out@ =~= lexical_units(units@, hits@.take(0), filter@));
    while i < hits.len()
        invariant
            i <= hits@.len(),
            out@ == lexical_units(units@, hits@.take(i as int), filter@),
            forall|j: int| 0 <= j < out@.len() ==> (#[trigger] out@[j]) < units@.len(),
        decreases hits@.len() - i,
    {
        assert(hits@.take(i + 1).drop_last() =~= hits@.take(i as int));
        let hit = &hits[i];
        if let Some(index) = find_version(
            units,
            hit.project_label.as_str(),
            hit.entity_version_id.as_str(),
        ) {
            if filter.matches(&units[index]) {
                out.push(index);
            }
        }
        i += 1;
    }
    assert(hits@.take(i as int) =~= hits@);
    out.truncate(candidates);
    out
}

/// The positions that pass the filter.
pub open spec fn passing(
    units: Seq<CodeUnitRef>,
    filter: FilterFacts,
    positions: Seq<usize>,
) -> Seq<usize>
    decreases positions.len(),
{
    if positions.len() == 0 {
        Seq::empty()
    } else {
        let before = passing(units, filter, positions.drop_last());
        if passes(filter, units[positions.last() as int].facts()) {
            before.push(positions.last())
        } else {
            before
        }
    }
}

fn keep_passing(units: &Vec<CodeUnitRef>, filter: &WhereFilter, positions: &Vec<usize>) -> (r: Vec<
    usize,
>)
    requires
        forall|i: int| 0 <= i < positions@.len() ==> (#[trigger] positions@[i]) < units@.len(),
    ensures
        r@ == passing(units@, filter@, positions@),
        r@.len() <= positions@.len(),
{
    let mut out: Vec<usize> = Vec::new();
    let mut i: usize = 0;
    assert(out@ =~= passing(units@, filter@, positions@.take(0)));
    while i < positions.len()
        invariant
            i <= positions@.len(),
            out@.len() <= i,
            forall|j: int| 0 <= j < positions@.len() ==> (#[trigger] positions@[j]) < units@.len(),
            out@ == passing(units@, filter@, positions@.take(i as int)),
        decreases positions@.len() - i,
    {
        assert(positions@.take(i + 1).drop_last() =~= positions@.take(i as int));
        assert(positions@[i as int] < units@.len());
        if filter.matches(&units[positions[i]]) {
            out.push(positions[i]);
        }
        i += 1;
    }
    assert(positions@.take(i as int) =~= positions@);
    out
}

/// The constant of the reciprocal-rank fusion.
pub const RRF_K: usize = 60;

/// The bits of one, the weight of the dense and the lexical list.
pub const FULL_WEIGHT: u32 = 0x3f80_0000;

/// The bits of seven tenths, the weight of the compressed query's list.
pub const COMPRESSED_WEIGHT: u32 = 0x3f33_3333;

/// The bits of one half, the weight of the graph's list.
pub const GRAPH_WEIGHT: u32 = 0x3f00_0000;

/// How many of the best hits the graph is expanded from.
pub const SEEDS: usize = 10;

/// The lists that hold something, in the order in which they are fused.
pub open spec fn wanted_lists(found: Seq<(Seq<char>, u32, Seq<usize>)>) -> Seq<
    (Seq<char>, u32, Seq<usize>),
>
    decreases found.len(),
{
    if found.len() == 0 {
        Seq::empty()
    } else {
        let before = wanted_lists(found.drop_last());
        if found.last().2.len() > 0 {
            before.push(found.last())
        } else {
            before
        }
    }
}

/// What the sources of a search found, in the order in which they are fused.
pub open spec fn sources(
    dense: Seq<usize>,
    compressed: Seq<usize>,
    lexical: Seq<usize>,
    graph: Seq<usize>,
) -> Seq<(Seq<char>, u32, Seq<usize>)> {
    seq![
        ("dense"@, FULL_WEIGHT, dense),
        ("dense-compressed"@, COMPRESSED_WEIGHT, compressed),
        ("lexical"@, FULL_WEIGHT, lexical),
        ("graph"@, GRAPH_WEIGHT, graph),
    ]
}

/// The lists say what was found.
pub open spec fn are_lists(
    lists: Seq<RankedList>,
    found: Seq<(Seq<char>, u32, Seq<usize>)>,
) -> bool {
    &&& lists.len() == found.len()
    &&& forall|i: int|
        0 <= i < lists.len() ==> {
            &&& (#[trigger] lists[i]).source@ == found[i].0
            &&& lists[i].weight.bits == found[i].1
            &&& lists[i].indices@ == found[i].2
        }
}

/// The best of the hits, from which the graph is expanded.
pub open spec fn seeds_of(hits: Seq<FusedIndex>) -> Seq<usize> {
    Seq::new(
        if hits.len() < SEEDS {
            hits.len()
        } else {
            SEEDS as nat
        },
        |i: int| hits[i].index,
    )
}

/// What a search found in its sources.
pub struct Found {
    pub dense: Seq<usize>,
    pub compressed: Seq<usize>,
    pub lexical: Seq<usize>,
}

/// The hits are the fusion of what was found, with the graph's list if it holds
/// something.
pub open spec fn is_fused_with<F: Fn(&Vec<(Score, usize)>) -> Score>(
    hits: Seq<FusedIndex>,
    found: Found,
    graph: Seq<usize>,
    score: F,
) -> bool {
    exists|lists: Seq<RankedList>|
        {
            &&& #[trigger] are_lists(
                lists,
                wanted_lists(sources(found.dense, found.compressed, found.lexical, graph)),
            )
            &&& is_fusion(hits, lists, RRF_K, score)
        }
}

/// The graph is to be expanded.
pub open spec fn expands(index: SearchIndex, options: HybridOptions, base: Seq<FusedIndex>) -> bool {
    options.graph && index.relations@.len() > 0 && base.len() > 0
}

/// The hits are those of the base, fused again with what the graph reaches from the
/// best of them and what passes the filter.
pub open spec fn is_graph_stage<F: Fn(&Vec<(Score, usize)>) -> Score>(
    hits: Seq<FusedIndex>,
    base: Seq<FusedIndex>,
    index: SearchIndex,
    options: HybridOptions,
    found: Found,
    candidates: usize,
    score: F,
) -> bool {
    if expands(index, options, base) {
        exists|expanded: Seq<usize>|
            {
                let kept = passing(index.units@, options.filter@, expanded);
                &&& #[trigger] is_expansion(
                    expanded,
                    reached(index.units@, index.relations@, seeds_of(base)),
                    candidates,
                )
                &&& if kept.len() == 0 {
                    hits == base
                } else {
                    is_fused_with(hits, found, kept, score)
                }
            }
    } else {
        hits == base
    }
}

/// The hits are what the pipeline makes of what was found.
pub open spec fn is_hybrid<F: Fn(&Vec<(Score, usize)>) -> Score>(
    hits: Seq<FusedIndex>,
    index: SearchIndex,
    options: HybridOptions,
    found: Found,
    candidates: usize,
    score: F,
) -> bool {
    exists|base: Seq<FusedIndex>|
        #[trigger] is_fused_with(base, found, Seq::empty(), score) && is_graph_stage(
            hits,
            base,
            index,
            options,
            found,
            candidates,
            score,
        )
}

fn add_list(lists: &mut Vec<RankedList>, source: &str, weight: u32, indices: Vec<usize>)
    requires
        forall|l: int|
            0 <= l < old(lists)@.len() ==> RRF_K + (#[trigger] old(lists)@[l]).indices@.len()
                <= usize::MAX,
        RRF_K + indices@.len() <= usize::MAX,
    ensures
        forall|found: Seq<(Seq<char>, u32, Seq<usize>)>|
            are_lists(old(lists)@, wanted_lists(found)) ==> are_lists(
                final(lists)@,
                #[trigger] wanted_lists(found.push((source@, weight, indices@))),
            ),
        forall|l: int|
            0 <= l < final(lists)@.len() ==> RRF_K + (#[trigger] final(lists)@[l]).indices@.len()
                <= usize::MAX,
{
    let ghost before = lists@;
    let ghost entry = (source@, weight, indices@);
    if indices.len() > 0 {
        lists.push(RankedList { source: source.to_owned(), weight: Score { bits: weight }, indices });
    }
    proof {
        assert forall|found: Seq<(Seq<char>, u32, Seq<usize>)>|
            are_lists(before, wanted_lists(found)) implies are_lists(
            lists@,
            #[trigger] wanted_lists(found.push(entry)),
        ) by {
            assert(found.push(entry).drop_last() =~= found);
            let wanted = wanted_lists(found);
            if entry.2.len() > 0 {
                assert forall|i: int| 0 <= i < lists@.len() implies {
                    &&& (#[trigger] lists@[i]).source@ == wanted.push(entry)[i].0
                    &&& lists@[i].weight.bits == wanted.push(entry)[i].1
                    &&& lists@[i].indices@ == wanted.push(entry)[i].2
                } by {
                    if i < before.len() {
                        assert(lists@[i] == before[i]);
                    }
                }
            }
        }
    }
}

fn seed_list(hits: &Vec<FusedIndex>) -> (r: Vec<usize>)
    ensures
        r@ == seeds_of(hits@),
{
    let mut out: Vec<usize> = Vec::new();
    let mut i: usize = 0;
    while i < hits.len() && i < SEEDS
        invariant
            i <= hits@.len(),
            i <= SEEDS,
            out@.len() == i,
            forall|j: int| 0 <= j < i ==> (#[trigger] out@[j]) == hits@[j].index,
        decreases hits@.len() - i,
    {
        out.push(hits[i].index);
        i += 1;
    }
    assert(out@ =~= seeds_of(hits@));
    out
}

/// First-stage retrieval, once the sources have answered: fusion, then expansion
/// along the relation graph. The units one hop away from the best hits join as a
/// list of low weight, and everything is fused again.
pub fn hybrid_search<F: Fn(&Vec<(Score, usize)>) -> Score>(
    index: &SearchIndex,
    options: &HybridOptions,
    dense: Vec<usize>,
    compressed: Vec<usize>,
    lexical: Vec<usize>,
    candidates: usize,
    score: &F,
) -> (r: Vec<FusedIndex>)
    requires
        RRF_K + dense@.len() <= usize::MAX,
        RRF_K + compressed@.len() <= usize::MAX,
        RRF_K + lexical@.len() <= usize::MAX,
        RRF_K + candidates <= usize::MAX,
        forall|terms: &Vec<(Score, usize)>| #[trigger] score.requires((terms,)),
    ensures
        is_hybrid(
            r@,
            *index,
            *options,
            (Found { dense: dense@, compressed: compressed@, lexical: lexical@ }),
            candidates,
            *score,
        ),
{
    let ghost found = Found { dense: dense@, compressed: compressed@, lexical: lexical@ };
    let ghost one = seq![("dense"@, FULL_WEIGHT, dense@)];
    let ghost two = one.push(("dense-compressed"@, COMPRESSED_WEIGHT, compressed@));
    let ghost three = two.push(("lexical"@, FULL_WEIGHT, lexical@));
    let mut lists: Vec<RankedList> = Vec::new();
    let ghost none = Seq::<(Seq<char>, u32, Seq<usize>)>::empty();
    assert(are_lists(lists@, wanted_lists(none)));
    add_list(&mut lists, "dense", FULL_WEIGHT, dense);
    assert(none.push(("dense"@, FULL_WEIGHT, found.dense)) =~= one);
    assert(are_lists(lists@, wanted_lists(one)));
    add_list(&mut lists, "dense-compressed", COMPRESSED_WEIGHT, compressed);
    assert(are_lists(lists@, wanted_lists(two)));
    add_list(&mut lists, "lexical", FULL_WEIGHT, lexical);
    assert(are_lists(lists@, wanted_lists(three)));
    let base = reciprocal_rank_fusion(&lists, RRF_K, score);
    proof {
        let all = sources(found.dense, found.compressed, found.lexical, Seq::empty());
        assert(all.drop_last() =~= three);
        assert(wanted_lists(all) == wanted_lists(three));
        assert(is_fused_with(base@, found, Seq::empty(), *score));
    }
    if !options.graph || index.relations.len() == 0 || base.len() == 0 {
        return base;
    }
    let seeds = seed_list(&base);
    let expanded = index.expand_by_relations(&seeds, candidates);
    let kept = keep_passing(&index.units, &options.filter, &expanded);
    assert(expanded@.len() <= candidates) by {
        expansion_is_capped(
            expanded@,
            reached(index.units@, index.relations@, seeds@),
            candidates,
        );
    }
    assert(is_expansion(
        expanded@,
        reached(index.units@, index.relations@, seeds_of(base@)),
        candidates,
    ));
    if kept.len() == 0 {
        assert(is_graph_stage(base@, base@, *index, *options, found, candidates, *score));
        return base;
    }
    let ghost graph = kept@;
    add_list(&mut lists, "graph", GRAPH_WEIGHT, kept);
    proof {
        let all = sources(found.dense, found.compressed, found.lexical, graph);
        assert(three.push(("graph"@, GRAPH_WEIGHT, graph)) =~= all);
        assert(are_lists(lists@, wanted_lists(all)));
    }
    let hits = reciprocal_rank_fusion(&lists, RRF_K, score);
    proof {
        assert(is_fused_with(hits@, found, graph, *score));
        assert(is_graph_stage(hits@, base@, *index, *options, found, candidates, *score));
    }
    hits
}

proof fn expansion_is_capped(expanded: Seq<usize>, events: Seq<usize>, cap: usize)
    requires
        is_expansion(expanded, events, cap),
    ensures
        expanded.len() <= cap,
{
}

/// What a contribution is shown as.
pub open spec fn contribution_text(contribution: (Seq<char>, usize)) -> Seq<char> {
    contribution.0 + "#"@ + decimal(contribution.1 as nat)
}

/// What contributions are shown as.
pub open spec fn contribution_texts(contributions: Seq<(Seq<char>, usize)>) -> Seq<Seq<char>> {
    Seq::new(contributions.len(), |i: int| contribution_text(contributions[i]))
}

/// The last score that was given for the unit.
pub open spec fn rerank_of(scores: Seq<(usize, Score)>, index: usize) -> Option<Score>
    decreases scores.len(),
{
    if scores.len() == 0 {
        None
    } else if scores.last().0 == index {
        Some(scores.last().1)
    } else {
        rerank_of(scores.drop_last(), index)
    }
}

/// The score that was given for the unit.
pub fn find_rerank(scores: &Vec<(usize, Score)>, index: usize) -> (r: Option<Score>)
    ensures
        r == rerank_of(scores@, index),
{
    let mut n: usize = scores.len();
    assert(scores@.take(n as int) =~= scores@);
    while n > 0
        invariant
            n <= scores@.len(),
            rerank_of(scores@, index) == rerank_of(scores@.take(n as int), index),
        decreases n,
    {
        assert(scores@.take(n as int).drop_last() =~= scores@.take(n - 1));
        if scores[n - 1].0 == index {
            return Some(scores[n - 1].1);
        }
        n -= 1;
    }
    None
}

/// The output for a hit.
pub open spec fn is_shown(
    shown: SearchHit,
    hit: FusedIndex,
    unit: UnitFacts,
    rerank: Option<Score>,
) -> bool {
    &&& shown.selector@ == selector(unit)
    &&& shown.score == match rerank {
        Some(score) => score,
        None => hit.score,
    }
    &&& shown.rerank_score == rerank
    &&& views(shown.sources@) == contribution_texts(contribution_views(hit.contributions@))
    &&& shown.project@ == unit.project_label
    &&& shown.path@ == unit.relative_path
    &&& shown.lines == (unit.start_line, unit.end_line)
    &&& shown.language@ == unit.language_id
    &&& shown.kind@ == unit.kind
    &&& shown.name@ == unit.name
    &&& opt_view(shown.scope) == unit.scope
}

fn contribution_lines(contributions: &Vec<(String, usize)>) -> (r: Vec<String>)
    ensures
        views(r@) == contribution_texts(contribution_views(contributions@)),
{
    let ghost all = contribution_texts(contribution_views(contributions@));
    let mut out: Vec<String> = Vec::new();
    let mut i: usize = 0;
    while i < contributions.len()
        invariant
            i <= contributions@.len(),
            all == contribution_texts(contribution_views(contributions@)),
            views(out@) == all.take(i as int),
        decreases contributions@.len() - i,
    {
        let ghost before = out@;
        let mut line = concat(contributions[i].0.as_str(), "#");
        line.append(decimal_text(contributions[i].1 as u64).as_str());
        out.push(line);
        assert(all[i as int] == line@);
        i += 1;
        assert(views(out@) =~= views(before).push(line@));
        assert(views(out@) =~= all.take(i as int));
    }
    assert(all.take(i as int) =~= all);
    out
}

fn show_hit(hit: &FusedIndex, unit: &CodeUnitRef, rerank: Option<Score>) -> (r: SearchHit)
    ensures
        is_shown(r, *hit, unit.facts(), rerank),
{
    SearchHit {
        selector: unit_id(unit),
        score: match rerank {
            Some(score) => score,
            None => hit.score,
        },
        rerank_score: rerank,
        sources: contribution_lines(&hit.contributions),
        project: unit.project_label.clone(),
        path: unit.relative_path.clone(),
        lines: (unit.start_line, unit.end_line),
        language: unit.language_id.clone(),
        kind: unit.kind.clone(),
        name: unit.name.clone(),
        scope: clone_opt(&unit.scope),
    }
}

/// Two tasks say the same.
pub open spec fn same_task(a: Option<EmbeddingTask>, b: Option<EmbeddingTask>) -> bool {
    match (a, b) {
        (Some(a), Some(b)) => a.id@ == b.id@ && a.instruction@ == b.instruction@,
        (None, None) => true,
        _ => false,
    }
}

fn clone_task(task: &Option<EmbeddingTask>) -> (r: Option<EmbeddingTask>)
    ensures
        same_task(r, *task),
{
    match task {
        Some(task) => Some(EmbeddingTask::new(task.id.as_str(), task.instruction.as_str())),
        None => None,
    }
}

/// Shape an outcome into the shared output.
pub fn shape_results(
    index: &SearchIndex,
    outcome: &HybridOutcome,
    options: &HybridOptions,
    rerank_scores: &Vec<(usize, Score)>,
) -> (r: SearchResults)
    requires
        forall|i: int|
            0 <= i < outcome.fused@.len() ==> (#[trigger] outcome.fused@[i]).index
                < index.units@.len(),
    ensures
        r.query@ == options.query@,
        opt_view(r.compressed_query) == opt_view(outcome.compressed_query),
        opt_view(r.space) == match options.space {
            Some(space) => Some(space@),
            None => None,
        },
        same_task(r.task, options.task),
        r.matched == outcome.fused@.len(),
        r.hits@.len() == if outcome.fused@.len() < options.limit {
            outcome.fused@.len()
        } else {
            options.limit as nat
        },
        forall|i: int|
            0 <= i < r.hits@.len() ==> is_shown(
                #[trigger] r.hits@[i],
                outcome.fused@[i],
                index.units@[outcome.fused@[i].index as int].facts(),
                rerank_of(rerank_scores@, outcome.fused@[i].index),
            ),
{
    let mut hits: Vec<SearchHit> = Vec::new();
    let mut i: usize = 0;
    while i < outcome.fused.len() && i < options.limit
        invariant
            i <= outcome.fused@.len(),
            i <= options.limit,
            forall|j: int|
                0 <= j < outcome.fused@.len() ==> (#[trigger] outcome.fused@[j]).index
                    < index.units@.len(),
            hits@.len() == i,
            forall|j: int|
                0 <= j < i ==> is_shown(
                    #[trigger] hits@[j],
                    outcome.fused@[j],
                    index.units@[outcome.fused@[j].index as int].facts(),
                    rerank_of(rerank_scores@, outcome.fused@[j].index),
                ),
        decreases outcome.fused@.len() - i,
    {
        let hit = &outcome.fused[i];
        let rerank = find_rerank(rerank_scores, hit.index);
        hits.push(show_hit(hit, &index.units[hit.index], rerank));
        i += 1;
    }
    let space = match &options.space {
        Some(space) => Some(space.as_str().to_owned()),
        None => None,
    };
    SearchResults {
        query: options.query.clone(),
        compressed_query: clone_opt(&outcome.compressed_query),
        space,
        task: clone_task(&options.task),
        matched: outcome.fused.len(),
        hits,
    }
}

/// The filter with a tests policy from outside: an explicit clause of its own wins,
/// and without any word of it tests are left out.
pub open spec fn with_policy(filter: FilterFacts, policy: Option<Seq<char>>) -> Option<FilterFacts> {
    if filter.tests is Some || policy == Some("include"@) {
        Some(filter)
    } else if policy is None || policy == Some("exclude"@) {
        Some(FilterFacts { tests: Some(TestsPolicy::Exclude), ..filter })
    } else if policy == Some("only"@) {
        Some(FilterFacts { tests: Some(TestsPolicy::Only), ..filter })
    } else {
        None
    }
}

/// Apply a tests policy unless the filter already carries an explicit clause.
pub fn apply_tests_policy(filter: &mut WhereFilter, policy: Option<&str>) -> (r: Result<(), String>)
    ensures
        match r {
            Ok(()) => with_policy(old(filter)@, text_view(policy)) == Some(final(filter)@),
            Err(message) => {
                &&& with_policy(old(filter)@, text_view(policy)) is None
                &&& final(filter)@ == old(filter)@
                &&& policy is Some
                &&& message@ == "unknown tests policy "@ + debug_literal(policy->0@)
                    + " (include|exclude|only)"@
            },
        },
{
    if filter.tests_policy().is_some() {
        return Ok(());
    }
    proof {
        reveal_strlit("include");
        reveal_strlit("exclude");
        reveal_strlit("only");
        assert("include"@[0] != "exclude"@[0]);
        assert("include"@.len() != "only"@.len());
    }
    let chosen = match policy {
        None => TestsPolicy::Exclude,
        Some(policy) => {
            if same(policy, "exclude") {
                TestsPolicy::Exclude
            } else if same(policy, "include") {
                return Ok(());
            } else if same(policy, "only") {
                TestsPolicy::Only
            } else {
                let mut text = concat("unknown tests policy ", debug_quote(policy).as_str());
                text.append(" (include|exclude|only)");
                return Err(text);
            }
        },
    };
    filter.set_tests_policy(chosen);
    Ok(())
}

/// What an index job did.
#[derive(Debug)]
pub struct JobSummary {
    pub units: i64,
    pub embedded_spaces: Vec<(String, usize)>,
}

/// What is said of the embedded spaces.
pub open spec fn spaces_text(spaces: Seq<(String, usize)>) -> Seq<char>
    decreases spaces.len(),
{
    if spaces.len() == 0 {
        Seq::empty()
    } else {
        spaces_text(spaces.drop_last()) + ", "@ + spaces.last().0@ + ": "@ + decimal(
            spaces.last().1 as nat,
        ) + " embedded"@
    }
}

/// What is said of a job that is done.
pub fn summary_text(summary: &JobSummary) -> (r: String)
    ensures
        r@ == signed_decimal(summary.units as int) + " units"@ + spaces_text(
            summary.embedded_spaces@,
        ),
{
    let ghost all = summary.embedded_spaces@;
    let mut out = signed_text(summary.units);
    out.append(" units");
    let ghost front = out@;
    let mut i: usize = 0;
    assert(out@ =~= front + spaces_text(all.take(0)));
    while i < summary.embedded_spaces.len()
        invariant
            i <= all.len(),
            all == summary.embedded_spaces@,
            out@ == front + spaces_text(all.take(i as int)),
        decreases all.len() - i,
    {
        assert(all.take(i + 1).drop_last() =~= all.take(i as int));
        let (space, count) = (&summary.embedded_spaces[i].0, summary.embedded_spaces[i].1);
        out.append(", ");
        out.append(space.as_str());
        out.append(": ");
        out.append(decimal_text(count as u64).as_str());
        out.append(" embedded");
        i += 1;
        assert(out@ =~= front + spaces_text(all.take(i as int)));
    }
    assert(all.take(i as int) =~= all);
    out
}

/// The settings with which a registered project is indexed: its languages, or every
/// bundled one.
pub fn job_settings(languages: &Option<Vec<String>>, bundled: &Vec<String>) -> (r: IndexSettings)
    ensures
        views(r.enabled_languages@) == match *languages {
            Some(own) => views(own@),
            None => views(bundled@),
        },
        r.body_node_count_threshold == 10,
        r.max_body_chars == 10_000,
        r.retention == RetentionMode::Full,
{
    let enabled_languages = match languages {
        Some(own) => clone_texts(own),
        None => clone_texts(bundled),
    };
    IndexSettings {
        enabled_languages,
        body_node_count_threshold: 10,
        max_body_chars: 10_000,
        retention: RetentionMode::Full,
    }
}

/// What is said of a run that paused.
pub fn paused_text(run_id: i64, reason: &Option<String>) -> (r: String)
    ensures
        r@ == "index run "@ + signed_decimal(run_id as int) + " paused: "@ + match *reason {
            Some(reason) => reason@,
            None => "unspecified"@,
        },
{
    let mut out = concat("index run ", signed_text(run_id).as_str());
    out.append(" paused: ");
    match reason {
        Some(reason) => out.append(reason.as_str()),
        None => out.append("unspecified"),
    }
    out
}

/// An explicit tests clause is never overridden.
pub proof fn explicit_clauses_win(filter: FilterFacts, policy: Option<Seq<char>>)
    requires
        filter.tests is Some,
    ensures
        with_policy(filter, policy) == Some(filter),
{
}

/// Each list may hold five candidates for every hit that is asked for, and no fewer than
/// fifty.
pub proof fn candidates_grow_with_the_limit(limit: usize)
    ensures
        candidate_count(limit) >= 50,
        candidate_count(limit) >= 5 * limit,
        candidate_count(limit) == 50 || candidate_count(limit) == 5 * limit,
{
}

/// A query is compressed only where that is asked for; one that is compressed on its own
/// account is compressed the same way on demand.
pub proof fn compression_is_asked_for(query: Seq<char>)
    ensures
        compressed_by(Compress::Off, query) is None,
        compressed_by(Compress::Auto, query) is Some ==> compressed_by(Compress::Always, query)
            == compressed_by(Compress::Auto, query),
        compressed_by(Compress::Auto, query) is Some ==> crate::text::words(query).len()
            >= 25,
        compressed_by(Compress::Always, query) is Some ==> crate::query::compress::query_terms(
            query,
            24,
        ).len() >= 4,
{
}

/// A search looks somewhere: by words where there is no space or words are asked for, by
/// meaning where there is a space and meaning is asked for, and in both ways where both are.
pub proof fn a_search_looks_somewhere(options: HybridOptions)
    ensures
        wants_dense(options) || wants_lexical(options),
        options.space is None ==> wants_lexical(options) && !wants_dense(options),
        options.space is Some ==> (wants_dense(options) <==> options.retrieval
            != Retrieval::Lexical),
        options.space is Some ==> (wants_lexical(options) <==> options.retrieval
            != Retrieval::Dense),
{
}

/// A version leads to the last unit of the project that has it.
pub proof fn a_version_leads_to_its_unit(
    units: Seq<CodeUnitRef>,
    label: Seq<char>,
    version: Seq<char>,
)
    requires
        units.len() <= usize::MAX,
    ensures
        match unit_of_version(units, label, version) {
            Some(index) => {
                &&& index < units.len()
                &&& units[index as int].project_label@ == label
                &&& units[index as int].entity_version_id@ == version
                &&& forall|j: int|
                    index < j < units.len() ==> !((#[trigger] units[j]).project_label@ == label
                        && units[j].entity_version_id@ == version)
            },
            None => forall|j: int|
                0 <= j < units.len() ==> !((#[trigger] units[j]).project_label@ == label
                    && units[j].entity_version_id@ == version),
        },
    decreases units.len(),
{
    if units.len() > 0 {
        let front = units.drop_last();
        a_version_leads_to_its_unit(front, label, version);
        assert forall|j: int| 0 <= j < front.len() implies #[trigger] units[j] == front[j] by {}
    }
}

/// What the words find are units of their projects that pass the filter, and every unit that
/// is found and passes is among them.
pub proof fn lexical_hits_pass_the_filter(
    units: Seq<CodeUnitRef>,
    hits: Seq<LexicalHit>,
    filter: FilterFacts,
    k: int,
)
    requires
        units.len() <= usize::MAX,
        0 <= k < hits.len(),
    ensures
        forall|i: int|
            0 <= i < lexical_units(units, hits, filter).len() ==> {
                let index = #[trigger] lexical_units(units, hits, filter)[i];
                index < units.len() && passes(filter, units[index as int].facts()) && exists|j: int|
                    0 <= j < hits.len() && (#[trigger] hits[j]).project_label@
                        == units[index as int].project_label@ && hits[j].entity_version_id@
                        == units[index as int].entity_version_id@
            },
        unit_of_version(units, hits[k].project_label@, hits[k].entity_version_id@) matches Some(
            index,
        ) ==> (passes(filter, units[index as int].facts()) ==> lexical_units(
            units,
            hits,
            filter,
        ).contains(index)),
    decreases hits.len(),
{
    let front = hits.drop_last();
    let hit = hits.last();
    let (before, after) = (lexical_units(units, front, filter), lexical_units(units, hits, filter));
    a_version_leads_to_its_unit(units, hit.project_label@, hit.entity_version_id@);
    if front.len() > 0 {
        lexical_hits_pass_the_filter(
            units,
            front,
            filter,
            if k < front.len() {
                k
            } else {
                0
            },
        );
    } else {
        assert(before.len() == 0);
    }
    assert forall|i: int| 0 <= i < after.len() implies {
        let index = #[trigger] after[i];
        index < units.len() && passes(filter, units[index as int].facts()) && exists|j: int|
            0 <= j < hits.len() && (#[trigger] hits[j]).project_label@
                == units[index as int].project_label@ && hits[j].entity_version_id@
                == units[index as int].entity_version_id@
    } by {
        if i < before.len() {
            assert(after[i] == before[i]);
            let index = before[i] as int;
            let j = choose|j: int|
                0 <= j < front.len() && (#[trigger] front[j]).project_label@
                    == units[index].project_label@ && front[j].entity_version_id@
                    == units[index].entity_version_id@;
            assert(hits[j] == front[j]);
        } else {
            assert(hits[hits.len() - 1] == hit);
        }
    }
    let found = unit_of_version(units, hits[k].project_label@, hits[k].entity_version_id@);
    if found is Some && passes(filter, units[found->0 as int].facts()) {
        if k < front.len() {
            assert(front[k] == hits[k]);
            let i = choose|i: int| 0 <= i < before.len() && before[i] == found->0;
            assert(after[i] == found->0);
        } else {
            assert(after[after.len() - 1] == found->0);
        }
    }
}

/// What is kept of an expansion is what passes the filter, in its order.
pub proof fn only_passing_units_are_kept(
    units: Seq<CodeUnitRef>,
    filter: FilterFacts,
    positions: Seq<usize>,
    k: int,
)
    requires
        0 <= k < positions.len(),
    ensures
        passing(units, filter, positions).len() <= positions.len(),
        forall|i: int|
            0 <= i < passing(units, filter, positions).len() ==> {
                let index = #[trigger] passing(units, filter, positions)[i];
                positions.contains(index) && passes(filter, units[index as int].facts())
            },
        passes(filter, units[positions[k] as int].facts()) ==> passing(
            units,
            filter,
            positions,
        ).contains(positions[k]),
    decreases positions.len(),
{
    let front = positions.drop_last();
    let (before, after) = (passing(units, filter, front), passing(units, filter, positions));
    if front.len() > 0 {
        only_passing_units_are_kept(
            units,
            filter,
            front,
            if k < front.len() {
                k
            } else {
                0
            },
        );
    } else {
        assert(before.len() == 0);
    }
    assert forall|i: int| 0 <= i < after.len() implies {
        let index = #[trigger] after[i];
        positions.contains(index) && passes(filter, units[index as int].facts())
    } by {
        if i < before.len() {
            assert(after[i] == before[i]);
            let j = choose|j: int| 0 <= j < front.len() && front[j] == before[i];
            assert(positions[j] == after[i]);
        } else {
            assert(positions[positions.len() - 1] == after[i]);
        }
    }
    if passes(filter, units[positions[k] as int].facts()) {
        if k < front.len() {
            assert(front[k] == positions[k]);
            let i = choose|i: int| 0 <= i < before.len() && before[i] == positions[k];
            assert(after[i] == positions[k]);
        } else {
            assert(after[after.len() - 1] == positions[k]);
        }
    }
}

/// The lists that are fused are those that hold something, each as it was found.
pub proof fn empty_lists_are_left_out(found: Seq<(Seq<char>, u32, Seq<usize>)>, k: int)
    requires
        0 <= k < found.len(),
    ensures
        found[k].2.len() > 0 <==> wanted_lists(found).contains(found[k]),
        wanted_lists(found).len() <= found.len(),
        forall|i: int|
            0 <= i < wanted_lists(found).len() ==> found.contains(
                #[trigger] wanted_lists(found)[i],
            ) && wanted_lists(found)[i].2.len() > 0,
    decreases found.len(),
{
    let front = found.drop_last();
    let (before, after) = (wanted_lists(front), wanted_lists(found));
    if front.len() > 0 {
        empty_lists_are_left_out(
            front,
            if k < front.len() {
                k
            } else {
                0
            },
        );
    } else {
        assert(before.len() == 0);
    }
    assert forall|i: int| 0 <= i < after.len() implies found.contains(#[trigger] after[i])
        && after[i].2.len() > 0 by {
        if i < before.len() {
            assert(after[i] == before[i]);
            let j = choose|j: int| 0 <= j < front.len() && front[j] == before[i];
            assert(found[j] == after[i]);
        } else {
            assert(found[found.len() - 1] == after[i]);
        }
    }
    if found[k].2.len() > 0 {
        if k < front.len() {
            assert(front[k] == found[k]);
            let i = choose|i: int| 0 <= i < before.len() && before[i] == found[k];
            assert(after[i] == found[k]);
        } else {
            assert(after[after.len() - 1] == found[k]);
        }
    } else if after.contains(found[k]) {
        let i = choose|i: int| 0 <= i < after.len() && after[i] == found[k];
        assert(after[i].2.len() > 0);
    }
}

/// Each way of searching counts under its own name. Meaning and words count alike, the
/// compressed query less than the query, and the graph less than both.
pub proof fn each_list_has_its_weight(
    dense: Seq<usize>,
    compressed: Seq<usize>,
    lexical: Seq<usize>,
    graph: Seq<usize>,
)
    ensures
        ({
            let all = sources(dense, compressed, lexical, graph);
            &&& all.len() == 4
            &&& all.contains(("dense"@, FULL_WEIGHT, dense))
            &&& all.contains(("dense-compressed"@, COMPRESSED_WEIGHT, compressed))
            &&& all.contains(("lexical"@, FULL_WEIGHT, lexical))
            &&& all.contains(("graph"@, GRAPH_WEIGHT, graph))
        }),
        GRAPH_WEIGHT < COMPRESSED_WEIGHT && COMPRESSED_WEIGHT < FULL_WEIGHT,
        FULL_WEIGHT == 0x3f80_0000 && COMPRESSED_WEIGHT == 0x3f33_3333 && GRAPH_WEIGHT
            == 0x3f00_0000,
{
    let all = sources(dense, compressed, lexical, graph);
    assert(all[0] == ("dense"@, FULL_WEIGHT, dense));
    assert(all[1] == ("dense-compressed"@, COMPRESSED_WEIGHT, compressed));
    assert(all[2] == ("lexical"@, FULL_WEIGHT, lexical));
    assert(all[3] == ("graph"@, GRAPH_WEIGHT, graph));
}

/// The graph is followed from the best hits, ten of them at most.
pub proof fn the_best_hits_are_seeds(hits: Seq<FusedIndex>)
    ensures
        seeds_of(hits).len() <= 10,
        hits.len() <= 10 ==> seeds_of(hits).len() == hits.len(),
        hits.len() > 10 ==> seeds_of(hits).len() == 10,
        forall|i: int| 0 <= i < seeds_of(hits).len() ==> #[trigger] seeds_of(hits)[i] == hits[i].index,
{
}

/// The last score that a unit is given counts.
pub proof fn the_last_rerank_counts(scores: Seq<(usize, Score)>, index: usize, k: int)
    requires
        0 <= k < scores.len(),
        scores[k].0 == index,
        forall|j: int| k < j < scores.len() ==> (#[trigger] scores[j]).0 != index,
    ensures
        rerank_of(scores, index) == Some(scores[k].1),
    decreases scores.len(),
{
    if k < scores.len() - 1 {
        let front = scores.drop_last();
        assert(scores[scores.len() - 1].0 != index);
        assert forall|j: int| k < j < front.len() implies (#[trigger] front[j]).0 != index by {
            assert(front[j] == scores[j]);
        }
        the_last_rerank_counts(front, index, k);
    }
}

/// A unit that is not scored again keeps its score, and one that is shows the new one.
pub proof fn a_shown_hit_has_its_best_score(
    shown: SearchHit,
    hit: FusedIndex,
    unit: UnitFacts,
    rerank: Option<Score>,
)
    requires
        is_shown(shown, hit, unit, rerank),
    ensures
        rerank is None ==> shown.score == hit.score && shown.rerank_score is None,
        rerank is Some ==> shown.score == rerank->0 && shown.rerank_score == rerank,
        shown.path@ == unit.relative_path && shown.project@ == unit.project_label,
        shown.name@ == unit.name && shown.kind@ == unit.kind && shown.language@ == unit.language_id,
        shown.lines.0 == unit.start_line && shown.lines.1 == unit.end_line,
        opt_view(shown.scope) == unit.scope,
        shown.sources@.len() == hit.contributions@.len(),
{
    assert(views(shown.sources@).len() == shown.sources@.len());
}

/// A tests policy adds to a filter that says nothing of tests and changes nothing else of
/// it. Tests are passed over unless they are asked for, and an unknown policy is refused.
pub proof fn a_policy_only_adds_to_a_filter(filter: FilterFacts, policy: Option<Seq<char>>)
    requires
        filter.tests is None,
    ensures
        with_policy(filter, policy) matches Some(after) ==> after == (FilterFacts {
            tests: after.tests,
            ..filter
        }),
        with_policy(filter, None) is Some && with_policy(filter, None)->0.tests == Some(
            TestsPolicy::Exclude,
        ),
        with_policy(filter, Some("exclude"@)) == with_policy(filter, None),
        with_policy(filter, Some("include"@)) == Some(filter),
        with_policy(filter, Some("only"@)) is Some && with_policy(filter, Some("only"@))->0.tests
            == Some(TestsPolicy::Only),
        policy is Some && policy->0 != "include"@ && policy->0 != "exclude"@ && policy->0
            != "only"@ ==> with_policy(filter, policy) is None,
{
    reveal_strlit("include");
    reveal_strlit("exclude");
    reveal_strlit("only");
    assert("only"@.len() == 4 && "include"@.len() == 7 && "exclude"@.len() == 7);
    assert("include"@[0] == 'i' && "exclude"@[0] == 'e');
}

/// Every hit of a hybrid search was found by one of its lists, or is a unit that passes the
/// filter and was reached from another hit.
pub proof fn every_hybrid_hit_was_found<F: Fn(&Vec<(Score, usize)>) -> Score>(
    hits: Seq<FusedIndex>,
    index: SearchIndex,
    options: HybridOptions,
    found: Found,
    candidates: usize,
    score: F,
    h: int,
)
    requires
        is_hybrid(hits, index, options, found, candidates, score),
        found.dense.len() <= usize::MAX && found.compressed.len() <= usize::MAX
            && found.lexical.len() <= usize::MAX,
        0 <= h < hits.len(),
    ensures
        ({
            let unit = hits[h].index;
            ||| found.dense.contains(unit)
            ||| found.compressed.contains(unit)
            ||| found.lexical.contains(unit)
            ||| options.graph && passes(options.filter@, index.units@[unit as int].facts())
        }),
{
    let base = choose|base: Seq<FusedIndex>| #[trigger]
        is_fused_with(base, found, Seq::empty(), score) && is_graph_stage(
            hits,
            base,
            index,
            options,
            found,
            candidates,
            score,
        );
    if hits == base {
        fused_hits_were_found(hits, found, Seq::empty(), score, h);
    } else {
        let expanded = choose|expanded: Seq<usize>|
            {
                let kept = passing(index.units@, options.filter@, expanded);
                &&& #[trigger] is_expansion(
                    expanded,
                    reached(index.units@, index.relations@, seeds_of(base)),
                    candidates,
                )
                &&& if kept.len() == 0 {
                    hits == base
                } else {
                    is_fused_with(hits, found, kept, score)
                }
            };
        let kept = passing(index.units@, options.filter@, expanded);
        if expanded.len() > 0 {
            only_passing_units_are_kept(index.units@, options.filter@, expanded, 0);
        }
        let events = reached(index.units@, index.relations@, seeds_of(base));
        assert(expanded.len() <= candidates);
        fused_hits_were_found(hits, found, kept, score, h);
        if kept.contains(hits[h].index) {
            let i = choose|i: int| 0 <= i < kept.len() && kept[i] == hits[h].index;
            assert(passes(options.filter@, index.units@[kept[i] as int].facts()));
        }
    }
}

proof fn fused_hits_were_found<F: Fn(&Vec<(Score, usize)>) -> Score>(
    hits: Seq<FusedIndex>,
    found: Found,
    graph: Seq<usize>,
    score: F,
    h: int,
)
    requires
        is_fused_with(hits, found, graph, score),
        found.dense.len() <= usize::MAX && found.compressed.len() <= usize::MAX
            && found.lexical.len() <= usize::MAX && graph.len() <= usize::MAX,
        0 <= h < hits.len(),
    ensures
        ({
            let unit = hits[h].index;
            ||| found.dense.contains(unit)
            ||| found.compressed.contains(unit)
            ||| found.lexical.contains(unit)
            ||| graph.contains(unit)
        }),
{
    let all = sources(found.dense, found.compressed, found.lexical, graph);
    let wanted = wanted_lists(all);
    let lists = choose|lists: Seq<RankedList>|
        #[trigger] are_lists(lists, wanted) && is_fusion(hits, lists, RRF_K, score);
    empty_lists_are_left_out(all, 0);
    assert forall|l: int| 0 <= l < lists.len() implies (#[trigger] lists[l]).indices@.len()
        <= usize::MAX by {
        assert(all.contains(wanted[l]));
    }
    crate::query::fusion::hits_are_what_the_lists_hold(hits, lists, RRF_K, score, hits[h].index);
    let (l, r) = choose|l: int, r: int|
        0 <= l < lists.len() && 0 <= r < lists[l].indices@.len() && #[trigger] lists[l].indices@[r]
            == hits[h].index;
    assert(all.contains(wanted[l]));
    assert(lists[l].indices@ == wanted[l].2);
    assert(wanted[l].2[r] == hits[h].index);
}

/// A search is planned as it is wanted: it looks where it should, with as many candidates as
/// its limit asks for, and is refused only where it needs a backend that is not there.
pub proof fn a_search_is_planned_as_wanted(
    options: HybridOptions,
    has_backend: bool,
    r: Result<HybridPlan, String>,
)
    requires
        options.limit * 10 <= usize::MAX,
        call_ensures(plan_hybrid, (&options, has_backend), r),
    ensures
        r is Err <==> wants_dense(options) && !has_backend,
        r matches Ok(plan) ==> plan.dense == wants_dense(options) && plan.lexical == wants_lexical(
            options,
        ) && plan.candidates >= 50 && plan.candidates >= 5 * options.limit && (options.compress
            == Compress::Off ==> plan.compressed is None),
{
}

/// A summary tells of each space and how much of it was embedded.
pub proof fn a_summary_tells_of_every_space(spaces: Seq<(String, usize)>, k: int)
    requires
        0 <= k < spaces.len(),
    ensures
        crate::text::has(
            spaces_text(spaces),
            spaces[k].0@ + ": "@ + decimal(spaces[k].1 as nat) + " embedded"@,
        ),
    decreases spaces.len(),
{
    let front = spaces.drop_last();
    let whole = spaces_text(spaces);
    let last = spaces.last();
    let own = last.0@ + ": "@ + decimal(last.1 as nat) + " embedded"@;
    let before = spaces_text(front) + ", "@;
    texts_are_put_together(before, last.0@, ": "@, decimal(last.1 as nat), " embedded"@);
    assert(whole == before + own);
    if k < front.len() {
        assert(front[k] == spaces[k]);
        a_summary_tells_of_every_space(front, k);
        let inner = spaces[k].0@ + ": "@ + decimal(spaces[k].1 as nat) + " embedded"@;
        crate::text::a_text_is_in_what_surrounds_it(Seq::empty(), spaces_text(front), ", "@ + own);
        assert(Seq::<char>::empty() + spaces_text(front) + (", "@ + own) =~= before + own);
        crate::text::parts_of_parts_are_parts(whole, spaces_text(front), inner);
    } else {
        crate::text::a_text_is_in_what_surrounds_it(before, own, Seq::empty());
        assert(before + own + Seq::<char>::empty() =~= before + own);
    }
}

proof fn texts_are_put_together(
    a: Seq<char>,
    b: Seq<char>,
    c: Seq<char>,
    d: Seq<char>,
    e: Seq<char>,
)
    ensures
        a + b + c + d + e == a + (b + c + d + e),
{
    assert(a + b + c + d + e =~= a + (b + c + d + e));
}

/// A job indexes the languages that are named, else all that there are, and keeps all of
/// their text.
pub proof fn a_job_indexes_what_is_named(
    languages: Option<Vec<String>>,
    bundled: Vec<String>,
    r: IndexSettings,
)
    requires
        call_ensures(job_settings, (&languages, &bundled), r),
    ensures
        languages matches Some(own) ==> views(r.enabled_languages@) == views(own@),
        languages is None ==> views(r.enabled_languages@) == views(bundled@),
        r.retention is Full,
{
}

/// A contribution names its list before its rank.
pub proof fn a_contribution_names_its_list(contribution: (Seq<char>, usize))
    ensures
        contribution.0.is_prefix_of(contribution_text(contribution)),
        decimal(contribution.1 as nat).is_suffix_of(contribution_text(contribution)),
        contribution_text(contribution)[contribution.0.len() as int] == '#',
        contribution_text(contribution).len() == contribution.0.len() + 1 + decimal(
            contribution.1 as nat,
        ).len(),
{
    reveal_strlit("#");
    let text = contribution_text(contribution);
    let rank = decimal(contribution.1 as nat);
    assert("#"@.len() == 1 && "#"@[0] == '#');
    assert(text.subrange(0, contribution.0.len() as int) =~= contribution.0);
    assert(text.subrange(text.len() - rank.len(), text.len() as int) =~= rank);
}

} // verus!
