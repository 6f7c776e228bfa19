//! Semantic search over a code index: which units take part, how hits are ranked,
//! how a selector and the relation graph lead to units.
use crate::model::{EmbeddingSpaceId, EntityId, EntityVersionId};
use crate::order::{chosen, is_weight_order, weight_order};
use crate::query::contracts::{additions, contract_diff, differences, member_texts};
use crate::query::filter::{passes, FilterFacts, WhereFilter};
use crate::query::fusion::{is_fusion, reciprocal_rank_fusion, FusedIndex, RankedList};
use crate::query::rank::{arranged, is_ranking, rank_candidates, reaching, Score, ScoredIndex};
use crate::query::unit::{selector, unit_id, UnitFacts, UnitView};
use crate::text::{
    concat, debug_literal, debug_quote, join, joined, lex_less, lex_less_is_strict_order, opt_view,
    precedes, same, starts_with, views,
};
use vstd::prelude::*;
use vstd::string::*;

verus! {

/// A code unit joined with its file and project: the metadata a search result
/// resolves back to.
#[derive(Debug)]
pub struct CodeUnitRef {
    pub id: i64,
    pub entity_id: EntityId,
    pub entity_version_id: EntityVersionId,
    pub project_label: String,
    pub relative_path: String,
    pub language_id: String,
    pub kind: String,
    pub name: String,
    pub scope: Option<String>,
    pub start_byte: usize,
    pub end_byte: usize,
    pub start_line: usize,
    pub end_line: usize,
    pub body_node_count: usize,
    pub normalized_body_hash: String,
    pub display_source: Option<String>,
    /// The content of the implementation channel, where it is kept.
    pub implementation: Option<String>,
}

impl CodeUnitRef {
    /// `label:path` display location.
    pub fn location(&self) -> (r: String)
        ensures
            r@ == self.project_label@ + ":"@ + self.relative_path@,
    {
        let mut out = concat(self.project_label.as_str(), ":");
        out.append(self.relative_path.as_str());
        out
    }
}

impl UnitView for CodeUnitRef {
    open spec fn facts(&self) -> UnitFacts {
        UnitFacts {
            project_label: self.project_label@,
            relative_path: self.relative_path@,
            language_id: self.language_id@,
            kind: self.kind@,
            name: self.name@,
            scope: opt_view(self.scope),
            start_byte: self.start_byte,
            end_byte: self.end_byte,
            start_line: self.start_line,
            end_line: self.end_line,
            body_node_count: self.body_node_count,
            normalized_body_hash: self.normalized_body_hash@,
        }
    }

    fn project_label(&self) -> (r: &str) {
        self.project_label.as_str()
    }

    fn relative_path(&self) -> (r: &str) {
        self.relative_path.as_str()
    }

    fn language_id(&self) -> (r: &str) {
        self.language_id.as_str()
    }

    fn kind(&self) -> (r: &str) {
        self.kind.as_str()
    }

    fn name(&self) -> (r: &str) {
        self.name.as_str()
    }

    fn scope(&self) -> (r: Option<&str>) {
        match &self.scope {
            Some(scope) => Some(scope.as_str()),
            None => None,
        }
    }

    fn start_byte(&self) -> (r: usize) {
        self.start_byte
    }

    fn end_byte(&self) -> (r: usize) {
        self.end_byte
    }

    fn start_line(&self) -> (r: usize) {
        self.start_line
    }

    fn end_line(&self) -> (r: usize) {
        self.end_line
    }

    fn body_node_count(&self) -> (r: usize) {
        self.body_node_count
    }

    fn normalized_body_hash(&self) -> (r: &str) {
        self.normalized_body_hash.as_str()
    }
}

/// One relation between two entities; the target is unknown where it could not be
/// resolved.
#[derive(Debug)]
pub struct RelationRecord {
    pub from_entity_id: EntityId,
    pub to_entity_id: Option<EntityId>,
    pub to_symbol: String,
    pub kind: String,
    pub resolution: String,
    pub provenance: String,
}

/// One embedding space of the loaded corpus.
#[derive(Debug)]
pub struct SearchSpace {
    pub id: EmbeddingSpaceId,
    /// Whether each unit has a vector in the space.
    pub embedded: Vec<bool>,
    /// The members of the model contract, serialized.
    pub contract: Vec<(String, String)>,
}

impl SearchSpace {
    /// The unit has a vector in the space.
    pub open spec fn has_vector(self, index: int) -> bool {
        0 <= index < self.embedded@.len() && self.embedded@[index]
    }

    /// Whether the unit has a vector in the space.
    pub fn holds(&self, index: usize) -> (r: bool)
        ensures
            r == self.has_vector(index as int),
    {
        index < self.embedded.len() && self.embedded[index]
    }
}

/// One ranked hit: a unit's number and its score.
#[derive(Debug, Clone, Copy, PartialEq, Eq, Structural)]
pub struct SearchHit {
    pub index: usize,
    pub score: Score,
}

/// The outcome of a search: the hits within the caller's limit, and how many
/// candidates matched before it was applied.
#[derive(Debug)]
pub struct SearchResults {
    pub matched: usize,
    pub hits: Vec<SearchHit>,
}

/// The outcome of a search over several spaces.
#[derive(Debug)]
pub struct FusedResults {
    pub matched: usize,
    pub hits: Vec<FusedIndex>,
}

/// The loaded corpus: the code units, the relations between them and the embedding
/// spaces. The units are sorted by project label, path and start.
#[derive(Debug)]
pub struct SearchIndex {
    pub units: Vec<CodeUnitRef>,
    pub relations: Vec<RelationRecord>,
    pub spaces: Vec<SearchSpace>,
}

/// What is stored of an embedding space, and under what its units look for their
/// vectors.
#[derive(Debug)]
pub struct SpaceRows {
    pub id: EmbeddingSpaceId,
    /// The members of the model contract, serialized.
    pub contract: Vec<(String, String)>,
    /// The hash of what each unit has for the space, where it has something.
    pub hashes: Vec<Option<String>>,
    /// The hashes that a vector is stored under, in order.
    pub stored: Vec<String>,
}

/// The texts are in dictionary order, each once.
pub open spec fn in_order(texts: Seq<Seq<char>>) -> bool {
    forall|i: int, j: int|
        0 <= i < j < texts.len() ==> lex_less(#[trigger] texts[i], #[trigger] texts[j])
}

/// A vector is stored for a unit.
pub open spec fn has_stored(hash: Option<String>, stored: Seq<Seq<char>>) -> bool {
    hash matches Some(hash) && stored.contains(hash@)
}

/// The space is the one that the rows tell of.
pub open spec fn space_of(space: SearchSpace, rows: SpaceRows) -> bool {
    &&& space.id == rows.id
    &&& space.contract == rows.contract
    &&& space.embedded@.len() == rows.hashes@.len()
    &&& forall|i: int|
        0 <= i < rows.hashes@.len() ==> #[trigger] space.embedded@[i] == has_stored(
            rows.hashes@[i],
            views(rows.stored@),
        )
}

/// Whether a text is among texts in order.
fn is_among(texts: &Vec<String>, text: &str) -> (r: bool)
    requires
        in_order(views(texts@)),
    ensures
        r == views(texts@).contains(text@),
{
    let ghost all = views(texts@);
    let mut low: usize = 0;
    let mut high: usize = texts.len();
    while low < high
        invariant
            low <= high <= texts@.len(),
            all == views(texts@),
            in_order(all),
            forall|j: int| 0 <= j < low ==> all[j] != text@,
            forall|j: int| high <= j < all.len() ==> all[j] != text@,
        decreases high - low,
    {
        let middle: usize = low + (high - low) / 2;
        assert(all[middle as int] == texts@[middle as int]@);
        if same(texts[middle].as_str(), text) {
            assert(all[middle as int] == text@);
            return true;
        }
        if precedes(texts[middle].as_str(), text) {
            assert forall|j: int| 0 <= j < middle + 1 implies all[j] != text@ by {
                lex_less_is_strict_order(all[middle as int], text@, all[middle as int]);
                if j < middle {
                    assert(lex_less(all[j], all[middle as int]));
                }
            }
            low = middle + 1;
        } else {
            assert forall|j: int| middle <= j < all.len() implies all[j] != text@ by {
                lex_less_is_strict_order(all[middle as int], text@, all[middle as int]);
                if j > middle {
                    assert(lex_less(all[middle as int], all[j]));
                }
            }
            high = middle;
        }
    }
    false
}

fn load_space(rows: SpaceRows) -> (r: SearchSpace)
    requires
        in_order(views(rows.stored@)),
    ensures
        space_of(r, rows),
{
    let mut embedded: Vec<bool> = Vec::new();
    let mut i: usize = 0;
    while i < rows.hashes.len()
        invariant
            i <= rows.hashes@.len(),
            in_order(views(rows.stored@)),
            embedded@.len() == i,
            forall|j: int|
                0 <= j < i ==> #[trigger] embedded@[j] == has_stored(
                    rows.hashes@[j],
                    views(rows.stored@),
                ),
        decreases rows.hashes@.len() - i,
    {
        embedded.push(
            match &rows.hashes[i] {
                Some(hash) => is_among(&rows.stored, hash.as_str()),
                None => false,
            },
        );
        i += 1;
    }
    SearchSpace { id: rows.id, embedded, contract: rows.contract }
}

/// Why projects cannot be selected.
#[derive(Debug)]
pub enum ProjectFault {
    /// A label that no indexed project has.
    NotIndexed(String),
    NoProjects,
}

impl ProjectFault {
    /// What the fault says.
    pub open spec fn text(self) -> Seq<char> {
        match self {
            ProjectFault::NotIndexed(label) => "project "@ + debug_literal(label@)
                + " is not indexed"@,
            ProjectFault::NoProjects => "no indexed projects; index a project first"@,
        }
    }

    pub fn message(&self) -> (r: String)
        ensures
            r@ == self.text(),
    {
        match self {
            ProjectFault::NotIndexed(label) => {
                let mut out = concat("project ", debug_quote(label.as_str()).as_str());
                out.append(" is not indexed");
                out
            },
            ProjectFault::NoProjects => "no indexed projects; index a project first".to_owned(),
        }
    }
}

/// The first place of a text among texts; their number where it is not there.
pub open spec fn first_place(texts: Seq<Seq<char>>, text: Seq<char>) -> int
    decreases texts.len(),
{
    if texts.len() == 0 || texts[0] == text {
        0
    } else {
        1 + first_place(texts.skip(1), text)
    }
}

proof fn first_place_from(texts: Seq<Seq<char>>, text: Seq<char>, k: int)
    requires
        0 <= k <= texts.len(),
        forall|j: int| 0 <= j < k ==> texts[j] != text,
    ensures
        first_place(texts, text) == k + first_place(texts.skip(k), text),
    decreases k,
{
    if k == 0 {
        assert(texts.skip(0) =~= texts);
    } else {
        first_place_from(texts, text, k - 1);
        assert(texts.skip(k - 1)[0] == texts[k - 1]);
        assert(texts.skip(k - 1).skip(1) =~= texts.skip(k));
    }
}

fn find_place(texts: &Vec<String>, text: &str) -> (r: usize)
    ensures
        r == first_place(views(texts@), text@),
        r <= texts@.len(),
        r < texts@.len() ==> views(texts@)[r as int] == text@,
{
    let ghost all = views(texts@);
    let mut i: usize = 0;
    while i < texts.len()
        invariant
            i <= texts@.len(),
            all == views(texts@),
            forall|j: int| 0 <= j < i ==> all[j] != text@,
        decreases texts@.len() - i,
    {
        assert(all[i as int] == texts@[i as int]@);
        if same(texts[i].as_str(), text) {
            proof {
                first_place_from(all, text@, i as int);
                assert(all.skip(i as int)[0] == all[i as int]);
            }
            return i;
        }
        i += 1;
    }
    proof {
        first_place_from(all, text@, i as int);
    }
    i
}

/// The places of the requested labels among the indexed ones; all places where none
/// is requested.
pub open spec fn requested_places(
    indexed: Seq<Seq<char>>,
    requested: Seq<Seq<char>>,
) -> Seq<usize> {
    if requested.len() == 0 {
        Seq::new(indexed.len(), |i: int| i as usize)
    } else {
        Seq::new(requested.len(), |i: int| first_place(indexed, requested[i]) as usize)
    }
}

/// Selects the requested projects by label, or all of them where none is requested.
pub fn select_labels(indexed: &Vec<String>, requested: &Vec<String>) -> (r: Result<
    Vec<usize>,
    ProjectFault,
>)
    ensures
        ({
            let all = views(indexed@);
            let wanted = views(requested@);
            match r {
                Ok(places) => {
                    &&& forall|i: int|
                        0 <= i < wanted.len() ==> all.contains(#[trigger] wanted[i])
                    &&& places@ == requested_places(all, wanted)
                    &&& places@.len() > 0
                },
                Err(ProjectFault::NotIndexed(label)) => exists|i: int|
                    {
                        &&& 0 <= i < wanted.len()
                        &&& #[trigger] wanted[i] == label@
                        &&& !all.contains(wanted[i])
                        &&& forall|j: int| 0 <= j < i ==> all.contains(#[trigger] wanted[j])
                    },
                Err(ProjectFault::NoProjects) => wanted.len() == 0 && all.len() == 0,
            }
        }),
{
    let ghost all = views(indexed@);
    let ghost wanted = views(requested@);
    let mut places: Vec<usize> = Vec::new();
    if requested.len() == 0 {
        let mut i: usize = 0;
        while i < indexed.len()
            invariant
                i <= indexed@.len(),
                places@ =~= Seq::new(i as nat, |k: int| k as usize),
            decreases indexed@.len() - i,
        {
            places.push(i);
            i += 1;
        }
        assert(places@ =~= requested_places(all, wanted));
    } else {
        let mut i: usize = 0;
        while i < requested.len()
            invariant
                i <= requested@.len(),
                all == views(indexed@),
                wanted == views(requested@),
                forall|j: int| 0 <= j < i ==> all.contains(#[trigger] wanted[j]),
                places@ =~= Seq::new(i as nat, |k: int| first_place(all, wanted[k]) as usize),
            decreases requested@.len() - i,
        {
            let place: usize = find_place(indexed, requested[i].as_str());
            assert(wanted[i as int] == requested@[i as int]@);
            if place == indexed.len() {
                assert(!all.contains(wanted[i as int])) by {
                    if all.contains(wanted[i as int]) {
                        first_place_bounded(all, wanted[i as int]);
                    }
                }
                return Err(ProjectFault::NotIndexed(requested[i].clone()));
            }
            assert(all.contains(wanted[i as int])) by {
                assert(all[place as int] == wanted[i as int]);
            }
            places.push(place);
            i += 1;
        }
        assert(places@ =~= requested_places(all, wanted));
    }
    if places.len() == 0 {
        return Err(ProjectFault::NoProjects);
    }
    Ok(places)
}

proof fn first_place_bounded(texts: Seq<Seq<char>>, text: Seq<char>)
    requires
        texts.contains(text),
    ensures
        0 <= first_place(texts, text) < texts.len(),
        texts[first_place(texts, text)] == text,
    decreases texts.len(),
{
    if texts[0] != text {
        let k = choose|k: int| 0 <= k < texts.len() && texts[k] == text;
        assert(texts.skip(1)[k - 1] == text);
        first_place_bounded(texts.skip(1), text);
        assert(texts.skip(1)[first_place(texts, text) - 1] == texts[first_place(texts, text)]);
    }
}

/// What the filter and the space leave of the units.
pub open spec fn candidate_indices(
    units: Seq<CodeUnitRef>,
    space: SearchSpace,
    filter: FilterFacts,
    without: Option<usize>,
) -> Seq<usize> {
    chosen(
        units.len(),
        |i: int|
            {
                &&& without != Some(i as usize)
                &&& passes(filter, units[i].facts())
                &&& space.has_vector(i)
            },
    )
}

/// The hits within the limit.
pub open spec fn within_limit(ranked: Seq<ScoredIndex>, limit: usize) -> Seq<SearchHit> {
    Seq::new(
        if ranked.len() < limit {
            ranked.len()
        } else {
            limit as nat
        },
        |i: int| SearchHit { index: ranked[i].index, score: ranked[i].score },
    )
}

/// The scored units are the candidates, each with a score that the similarity gave.
pub open spec fn is_scored<F: Fn(usize) -> Score>(
    scored: Seq<ScoredIndex>,
    candidates: Seq<usize>,
    similarity: F,
) -> bool {
    &&& scored.len() == candidates.len()
    &&& forall|i: int|
        0 <= i < scored.len() ==> (#[trigger] scored[i]).index == candidates[i]
            && similarity.ensures((candidates[i],), scored[i].score)
}

/// The results are the candidates that reach the threshold, ranked and cut at the
/// limit.
pub open spec fn is_search<F: Fn(usize) -> Score>(
    results: SearchResults,
    candidates: Seq<usize>,
    similarity: F,
    threshold: Score,
    limit: usize,
) -> bool {
    exists|scored: Seq<ScoredIndex>, ranked: Seq<ScoredIndex>|
        {
            &&& #[trigger] is_scored(scored, candidates, similarity)
            &&& #[trigger] is_ranking(ranked, reaching(scored, threshold))
            &&& results.matched == ranked.len()
            &&& results.hits@ == within_limit(ranked, limit)
        }
}

/// The bits of minus one, the lowest score that a search without a threshold keeps.
pub const NO_THRESHOLD: u32 = 0xbf80_0000;

fn score_all<F: Fn(usize) -> Score>(candidates: &Vec<usize>, similarity: &F) -> (r: Vec<ScoredIndex>)
    requires
        forall|index: usize| #[trigger] similarity.requires((index,)),
    ensures
        is_scored(r@, candidates@, *similarity),
{
    let mut out: Vec<ScoredIndex> = Vec::new();
    let mut i: usize = 0;
    while i < candidates.len()
        invariant
            i <= candidates@.len(),
            forall|index: usize| #[trigger] similarity.requires((index,)),
            is_scored(out@, candidates@.take(i as int), *similarity),
        decreases candidates@.len() - i,
    {
        let score = similarity(candidates[i]);
        out.push(ScoredIndex { index: candidates[i], score });
        i += 1;
        assert forall|j: int| 0 <= j < out@.len() implies (#[trigger] out@[j]).index
            == candidates@.take(i as int)[j] && similarity.ensures(
            (candidates@.take(i as int)[j],),
            out@[j].score,
        ) by {
            if j < i - 1 {
                assert(candidates@.take(i - 1)[j] == candidates@[j]);
            }
        }
    }
    assert(candidates@.take(i as int) =~= candidates@);
    out
}

/// Ranked candidates as results: how many there are, and the first of them.
fn finish(ranked: &Vec<ScoredIndex>, limit: usize) -> (r: SearchResults)
    ensures
        r.matched == ranked@.len(),
        r.hits@ == within_limit(ranked@, limit),
{
    let mut hits: Vec<SearchHit> = Vec::new();
    let mut i: usize = 0;
    while i < ranked.len() && i < limit
        invariant
            i <= ranked@.len(),
            i <= limit,
            hits@ == within_limit(ranked@, i),
        decreases ranked@.len() - i,
    {
        hits.push(SearchHit { index: ranked[i].index, score: ranked[i].score });
        i += 1;
        assert(hits@ =~= within_limit(ranked@, i));
    }
    assert(hits@ =~= within_limit(ranked@, limit));
    SearchResults { matched: ranked.len(), hits }
}

/// The number of units reached by an entity id: the first that has it, if one has.
pub open spec fn unit_of_entity(units: Seq<CodeUnitRef>, entity: Seq<char>) -> Option<usize>
    decreases units.len(),
{
    if units.len() == 0 {
        None
    } else {
        match unit_of_entity(units.drop_last(), entity) {
            Some(index) => Some(index),
            None => if units.last().entity_id@ == entity {
                Some((units.len() - 1) as usize)
            } else {
                None
            },
        }
    }
}

/// What one end of a relation reaches from the other: the unit at `to` where the
/// unit at `from` is a seed and the other is not.
pub open spec fn neighbour(
    units: Seq<CodeUnitRef>,
    seeds: Seq<usize>,
    from: Option<Seq<char>>,
    to: Option<Seq<char>>,
) -> Seq<usize> {
    match (from, to) {
        (Some(from), Some(to)) => match (unit_of_entity(units, from), unit_of_entity(units, to)) {
            (Some(a), Some(b)) => if seeds.contains(a) && !seeds.contains(b) {
                seq![b]
            } else {
                Seq::empty()
            },
            _ => Seq::empty(),
        },
        _ => Seq::empty(),
    }
}

/// The target of a relation.
pub open spec fn target(relation: RelationRecord) -> Option<Seq<char>> {
    match relation.to_entity_id {
        Some(id) => Some(id@),
        None => None,
    }
}

/// The units that the relations reach from the seeds, in either direction, in the
/// order of the relations; a unit comes as often as it is reached.
pub open spec fn reached(
    units: Seq<CodeUnitRef>,
    relations: Seq<RelationRecord>,
    seeds: Seq<usize>,
) -> Seq<usize>
    decreases relations.len(),
{
    if relations.len() == 0 {
        Seq::empty()
    } else {
        let last = relations.last();
        let from = Some(last.from_entity_id@);
        reached(units, relations.drop_last(), seeds) + neighbour(units, seeds, from, target(last))
            + neighbour(units, seeds, target(last), from)
    }
}

/// Each number where it first comes.
pub open spec fn first_seen(events: Seq<usize>) -> Seq<usize>
    decreases events.len(),
{
    if events.len() == 0 {
        Seq::empty()
    } else {
        let before = first_seen(events.drop_last());
        if before.contains(events.last()) {
            before
        } else {
            before.push(events.last())
        }
    }
}

/// How often a number comes.
pub open spec fn times(events: Seq<usize>, x: usize) -> nat
    decreases events.len(),
{
    if events.len() == 0 {
        0
    } else {
        times(events.drop_last(), x) + if events.last() == x {
            1nat
        } else {
            0
        }
    }
}

/// How often each of the numbers comes.
pub open spec fn tallies(events: Seq<usize>, found: Seq<usize>) -> Seq<u64> {
    Seq::new(found.len(), |i: int| times(events, found[i]) as u64)
}

/// Some of the first numbers.
pub open spec fn counted(n: nat) -> Seq<usize> {
    Seq::new(n, |i: int| i as usize)
}

/// `expanded` holds the units that were reached, the most often reached first and
/// otherwise in the order in which they were found, cut at `cap`.
pub open spec fn is_expansion(expanded: Seq<usize>, events: Seq<usize>, cap: usize) -> bool {
    let found = first_seen(events);
    exists|order: Seq<usize>|
        {
            &&& #[trigger] is_weight_order(
                order,
                tallies(events, found),
                counted(found.len()),
                found.len() as int,
            )
            &&& expanded == if found.len() <= cap {
                arranged(found, order)
            } else {
                arranged(found, order).take(cap as int)
            }
        }
}

proof fn times_bounded(events: Seq<usize>, x: usize)
    ensures
        times(events, x) <= events.len(),
    decreases events.len(),
{
    if events.len() > 0 {
        times_bounded(events.drop_last(), x);
    }
}

fn index_of(found: &Vec<usize>, x: usize) -> (r: Option<usize>)
    ensures
        match r {
            Some(i) => i < found@.len() && found@[i as int] == x,
            None => !found@.contains(x),
        },
{
    let mut i: usize = 0;
    while i < found.len()
        invariant
            i <= found@.len(),
            forall|j: int| 0 <= j < i ==> found@[j] != x,
        decreases found@.len() - i,
    {
        if found[i] == x {
            return Some(i);
        }
        i += 1;
    }
    None
}

fn find_unit(units: &Vec<CodeUnitRef>, entity: &str) -> (r: Option<usize>)
    ensures
        r == unit_of_entity(units@, entity@),
        r is Some ==> r->0 < units@.len(),
{
    let mut i: usize = 0;
    while i < units.len()
        invariant
            i <= units@.len(),
            unit_of_entity(units@.take(i as int), entity@) is None,
        decreases units@.len() - i,
    {
        assert(units@.take(i + 1).drop_last() =~= units@.take(i as int));
        if same(units[i].entity_id.as_str(), entity) {
            proof {
                found_unit_stays(units@, entity@, i + 1);
            }
            return Some(i);
        }
        i += 1;
    }
    assert(units@.take(i as int) =~= units@);
    None
}

proof fn found_unit_stays(units: Seq<CodeUnitRef>, entity: Seq<char>, k: int)
    requires
        0 <= k <= units.len(),
        unit_of_entity(units.take(k), entity) is Some,
    ensures
        unit_of_entity(units, entity) == unit_of_entity(units.take(k), entity),
    decreases units.len() - k,
{
    if k < units.len() {
        assert(units.take(k + 1).drop_last() =~= units.take(k));
        found_unit_stays(units, entity, k + 1);
    } else {
        assert(units.take(k) =~= units);
    }
}

fn add_neighbour(
    units: &Vec<CodeUnitRef>,
    seeds: &Vec<usize>,
    from: Option<&EntityId>,
    to: Option<&EntityId>,
    events: &mut Vec<usize>,
)
    requires
        forall|k: int| 0 <= k < old(events)@.len() ==> (#[trigger] old(events)@[k]) < units@.len(),
    ensures
        forall|k: int|
            0 <= k < final(events)@.len() ==> (#[trigger] final(events)@[k]) < units@.len(),
        final(events)@ == old(events)@ + neighbour(
            units@,
            seeds@,
            match from {
                Some(id) => Some(id@),
                None => None,
            },
            match to {
                Some(id) => Some(id@),
                None => None,
            },
        ),
{
    let ghost before = events@;
    if let (Some(from), Some(to)) = (from, to) {
        if let (Some(a), Some(b)) = (find_unit(units, from.as_str()), find_unit(units, to.as_str())) {
            if index_of(seeds, a).is_some() && index_of(seeds, b).is_none() {
                events.push(b);
                assert(events@ =~= before + seq![b]);
                return;
            }
        }
    }
    assert(events@ =~= before + Seq::<usize>::empty());
}

impl SearchIndex {
    /// The corpus of the units, the relations between them and what is stored of each
    /// embedding space. The spaces are independent: each has its own model and vectors.
    pub fn load(
        units: Vec<CodeUnitRef>,
        relations: Vec<RelationRecord>,
        rows: Vec<SpaceRows>,
    ) -> (r: SearchIndex)
        requires
            forall|i: int|
                0 <= i < rows@.len() ==> in_order(views((#[trigger] rows@[i]).stored@)),
        ensures
            r.units == units,
            r.relations == relations,
            r.spaces@.len() == rows@.len(),
            forall|i: int| 0 <= i < rows@.len() ==> space_of(#[trigger] r.spaces@[i], rows@[i]),
    {
        let ghost all = rows@;
        let mut rows = rows;
        let mut spaces: Vec<SearchSpace> = Vec::new();
        while rows.len() > 0
            invariant
                rows@.len() <= all.len(),
                rows@ == all.take(rows@.len() as int),
                spaces@.len() == all.len() - rows@.len(),
                forall|i: int|
                    0 <= i < all.len() ==> in_order(views((#[trigger] all[i]).stored@)),
                forall|i: int|
                    0 <= i < spaces@.len() ==> space_of(
                        #[trigger] spaces@[i],
                        all[rows@.len() + i],
                    ),
            decreases rows@.len(),
        {
            let ghost before = spaces@;
            if let Some(last) = rows.pop() {
                assert(last == all[rows@.len() as int]);
                spaces.insert(0, load_space(last));
                assert forall|i: int| 0 <= i < spaces@.len() implies space_of(
                    #[trigger] spaces@[i],
                    all[rows@.len() + i],
                ) by {
                    if i > 0 {
                        assert(spaces@[i] == before[i - 1]);
                    }
                }
            }
        }
        SearchIndex { units, relations, spaces }
    }

    /// The space with the id, if there is one.
    pub open spec fn space_at(self, id: Seq<char>) -> Option<SearchSpace> {
        first_space(self.spaces@, id)
    }

    /// The space with the id, if there is one.
    pub fn space(&self, id: &EmbeddingSpaceId) -> (r: Option<&SearchSpace>)
        ensures
            match r {
                Some(space) => self.space_at(id@) == Some(*space),
                None => self.space_at(id@) is None,
            },
    {
        let mut i: usize = 0;
        assert(self.spaces@.skip(0) =~= self.spaces@);
        while i < self.spaces.len()
            invariant
                i <= self.spaces@.len(),
                first_space(self.spaces@, id@) == first_space(self.spaces@.skip(i as int), id@),
            decreases self.spaces@.len() - i,
        {
            assert(self.spaces@.skip(i as int)[0] == self.spaces@[i as int]);
            assert(self.spaces@.skip(i as int).skip(1) =~= self.spaces@.skip(i + 1));
            if same(self.spaces[i].id.as_str(), id.as_str()) {
                return Some(&self.spaces[i]);
            }
            i += 1;
        }
        None
    }

    /// Unit numbers belonging to one project label.
    pub fn unit_indices_for_project(&self, label: &str) -> (r: Vec<usize>)
        ensures
            r@ == chosen(self.units@.len(), |i: int| self.units@[i].project_label@ == label@),
    {
        let ghost choice = |i: int| self.units@[i].project_label@ == label@;
        let mut out: Vec<usize> = Vec::new();
        let mut i: usize = 0;
        while i < self.units.len()
            invariant
                i <= self.units@.len(),
                choice == (|i: int| self.units@[i].project_label@ == label@),
                out@ == chosen(i as nat, choice),
            decreases self.units@.len() - i,
        {
            if same(self.units[i].project_label.as_str(), label) {
                out.push(i);
            }
            i += 1;
        }
        out
    }

    /// The units that pass the filter and have a vector in the space.
    pub fn candidates(
        &self,
        space: &SearchSpace,
        filter: &WhereFilter,
        without: Option<usize>,
    ) -> (r: Vec<usize>)
        ensures
            r@ == candidate_indices(self.units@, *space, filter@, without),
    {
        let ghost choice = |i: int|
            {
                &&& without != Some(i as usize)
                &&& passes(filter@, self.units@[i].facts())
                &&& space.has_vector(i)
            };
        let mut out: Vec<usize> = Vec::new();
        let mut i: usize = 0;
        while i < self.units.len()
            invariant
                i <= self.units@.len(),
                choice == (|i: int|
                    {
                        &&& without != Some(i as usize)
                        &&& passes(filter@, self.units@[i].facts())
                        &&& space.has_vector(i)
                    }),
                out@ == chosen(i as nat, choice),
            decreases self.units@.len() - i,
        {
            let other = match without {
                Some(index) => index != i,
                None => true,
            };
            if other && filter.matches(&self.units[i]) && space.holds(i) {
                out.push(i);
            }
            i += 1;
        }
        out
    }

    /// Ranks every embedded unit that passes the filter. `similarity` compares the
    /// query with a unit's vector.
    pub fn search_vector<F: Fn(usize) -> Score>(
        &self,
        space: &SearchSpace,
        similarity: F,
        filter: &WhereFilter,
        limit: usize,
    ) -> (r: SearchResults)
        requires
            forall|index: usize| #[trigger] similarity.requires((index,)),
        ensures
            is_search(
                r,
                candidate_indices(self.units@, *space, filter@, None),
                similarity,
                (Score { bits: NO_THRESHOLD }),
                limit,
            ),
            r.hits@.len() <= limit && r.hits@.len() <= r.matched <= self.units@.len(),
            forall|i: int|
                0 <= i < r.hits@.len() ==> {
                    let index = (#[trigger] r.hits@[i]).index as int;
                    &&& index < self.units@.len()
                    &&& passes(filter@, self.units@[index].facts())
                    &&& space.has_vector(index)
                },
    {
        let candidates = self.candidates(space, filter, None);
        let scored = score_all(&candidates, &similarity);
        let ranked = rank_candidates(&scored, Score { bits: NO_THRESHOLD });
        assert(is_scored(scored@, candidates@, similarity));
        let results = finish(&ranked, limit);
        assert(self.units.len() == self.units@.len());
        proof {
            hits_are_units_that_pass(
                self.units@,
                *space,
                filter@,
                None,
                results,
                similarity,
                Score { bits: NO_THRESHOLD },
                limit,
            );
        }
        results
    }

    /// The units most similar to one unit, without that unit, at or above the
    /// threshold; nothing where the unit has no vector.
    pub fn similar_to_unit<F: Fn(usize) -> Score>(
        &self,
        query_index: usize,
        space: &SearchSpace,
        similarity: F,
        filter: &WhereFilter,
        limit: usize,
        threshold: Score,
    ) -> (r: Option<SearchResults>)
        requires
            forall|index: usize| #[trigger] similarity.requires((index,)),
        ensures
            match r {
                Some(results) => space.has_vector(query_index as int) && is_search(
                    results,
                    candidate_indices(self.units@, *space, filter@, Some(query_index)),
                    similarity,
                    threshold,
                    limit,
                ),
                None => !space.has_vector(query_index as int),
            },
            r matches Some(results) ==> {
                &&& results.hits@.len() <= limit
                &&& results.hits@.len() <= results.matched <= self.units@.len()
                &&& forall|i: int|
                    0 <= i < results.hits@.len() ==> {
                        let index = (#[trigger] results.hits@[i]).index as int;
                        &&& index < self.units@.len() && index != query_index
                        &&& passes(filter@, self.units@[index].facts())
                        &&& space.has_vector(index)
                    }
            },
    {
        if !space.holds(query_index) {
            return None;
        }
        let candidates = self.candidates(space, filter, Some(query_index));
        let scored = score_all(&candidates, &similarity);
        let ranked = rank_candidates(&scored, threshold);
        assert(is_scored(scored@, candidates@, similarity));
        let results = finish(&ranked, limit);
        assert(self.units.len() == self.units@.len());
        proof {
            hits_are_units_that_pass(
                self.units@,
                *space,
                filter@,
                Some(query_index),
                results,
                similarity,
                threshold,
                limit,
            );
        }
        Some(results)
    }

    /// The units one hop away from the seeds in the relation graph, in either
    /// direction and without the seeds: those reached most often first, then in the
    /// order in which the relations reach them, at most `cap`.
    pub fn expand_by_relations(&self, seeds: &Vec<usize>, cap: usize) -> (r: Vec<usize>)
        ensures
            is_expansion(r@, reached(self.units@, self.relations@, seeds@), cap),
            forall|i: int| 0 <= i < r@.len() ==> (#[trigger] r@[i]) < self.units@.len(),
    {
        let mut events: Vec<usize> = Vec::new();
        let mut i: usize = 0;
        while i < self.relations.len()
            invariant
                i <= self.relations@.len(),
                events@ == reached(self.units@, self.relations@.take(i as int), seeds@),
                forall|k: int|
                    0 <= k < events@.len() ==> (#[trigger] events@[k]) < self.units@.len(),
            decreases self.relations@.len() - i,
        {
            let ghost before = events@;
            let relation = &self.relations[i];
            assert(self.relations@.take(i + 1).drop_last() =~= self.relations@.take(i as int));
            add_neighbour(
                &self.units,
                seeds,
                Some(&relation.from_entity_id),
                relation.to_entity_id.as_ref(),
                &mut events,
            );
            add_neighbour(
                &self.units,
                seeds,
                relation.to_entity_id.as_ref(),
                Some(&relation.from_entity_id),
                &mut events,
            );
            assert(events@ == reached(self.units@, self.relations@.take(i + 1), seeds@));
            i += 1;
        }
        assert(self.relations@.take(i as int) =~= self.relations@);
        let found = most_reached(&events, cap);
        assert forall|k: int| 0 <= k < found@.len() implies (#[trigger] found@[k])
            < self.units@.len() by {
            assert(events@.contains(found@[k]));
        }
        found
    }
}

proof fn unseen_is_absent(events: Seq<usize>, x: usize)
    ensures
        first_seen(events).contains(x) == (times(events, x) > 0),
    decreases events.len(),
{
    if events.len() > 0 {
        let front = events.drop_last();
        unseen_is_absent(front, x);
        let before = first_seen(front);
        let after = first_seen(events);
        if before.contains(x) {
            let i = choose|i: int| 0 <= i < before.len() && before[i] == x;
            assert(after[i] == x);
        } else if events.last() == x {
            assert(after[after.len() - 1] == x);
        } else if after.contains(x) {
            let i = choose|i: int| 0 <= i < after.len() && after[i] == x;
            assert(before[i] == x);
        }
    }
}

/// Fuses what several spaces found, and keeps the first of it.
pub fn search_vectors_fused<F: Fn(&Vec<(Score, usize)>) -> Score>(
    lists: &Vec<RankedList>,
    limit: usize,
    rrf_k: usize,
    score: &F,
) -> (r: FusedResults)
    requires
        forall|l: int|
            0 <= l < lists@.len() ==> rrf_k + (#[trigger] lists@[l]).indices@.len() <= usize::MAX,
        forall|terms: &Vec<(Score, usize)>| #[trigger] score.requires((terms,)),
    ensures
        exists|all: Seq<FusedIndex>|
            #[trigger] is_fusion(all, lists@, rrf_k, *score) && r.matched == all.len() && r.hits@
                == if all.len() <= limit {
                all
            } else {
                all.take(limit as int)
            },
{
    let mut hits = reciprocal_rank_fusion(lists, rrf_k, score);
    let ghost all = hits@;
    let matched: usize = hits.len();
    hits.truncate(limit);
    assert(is_fusion(all, lists@, rrf_k, *score));
    FusedResults { matched, hits }
}

/// The units that were reached, the most often reached first.
fn most_reached(events: &Vec<usize>, cap: usize) -> (r: Vec<usize>)
    ensures
        is_expansion(r@, events@, cap),
        forall|i: int| 0 <= i < r@.len() ==> events@.contains(#[trigger] r@[i]),
{
    let mut found: Vec<usize> = Vec::new();
    let mut counts: Vec<u64> = Vec::new();
    let mut numbers: Vec<usize> = Vec::new();
    let mut i: usize = 0;
    while i < events.len()
        invariant
            i <= events@.len(),
            found@ == first_seen(events@.take(i as int)),
            counts@ == tallies(events@.take(i as int), found@),
            numbers@ == counted(found@.len()),
            forall|a: int, b: int| 0 <= a < b < found@.len() ==> found@[a] != found@[b],
            forall|a: int| 0 <= a < found@.len() ==> events@.contains(#[trigger] found@[a]),
        decreases events@.len() - i,
    {
        let ghost now = events@.take(i as int);
        let ghost next = events@.take(i + 1);
        let x: usize = events[i];
        assert(i < events.len());
        proof {
            assert(next.drop_last() =~= now);
            unseen_is_absent(now, x);
            times_bounded(now, x);
        }
        match index_of(&found, x) {
            Some(at) => {
                assert(counts@[at as int] == times(now, x));
                counts.set(at, counts[at] + 1);
                assert forall|k: int| 0 <= k < found@.len() implies (#[trigger] counts@[k])
                    == times(next, found@[k]) as u64 by {
                    assert(tallies(now, found@)[k] == times(now, found@[k]) as u64);
                    if k < at {
                        assert(found@[k] != found@[at as int]);
                    } else if k > at {
                        assert(found@[at as int] != found@[k]);
                    }
                }
            },
            None => {
                let ghost before = found@;
                assert(numbers.len() == found.len());
                assert(events@[i as int] == x);
                numbers.push(found.len());
                found.push(x);
                counts.push(1);
                assert forall|k: int| 0 <= k < found@.len() implies (#[trigger] counts@[k])
                    == times(next, found@[k]) as u64 by {
                    if k < before.len() {
                        assert(tallies(now, before)[k] == times(now, before[k]) as u64);
                        assert(before.contains(before[k]));
                        assert(before[k] != x);
                    }
                }
                assert(numbers@ =~= counted(found@.len()));
                assert forall|a: int, b: int| 0 <= a < b < found@.len() implies found@[a]
                    != found@[b] by {
                    if b == before.len() {
                        assert(before.contains(before[a]));
                    }
                }
            },
        }
        assert(counts@ =~= tallies(next, found@));
        i += 1;
    }
    assert(events@.take(i as int) =~= events@);
    let order = weight_order(&counts, &numbers);
    let mut out: Vec<usize> = Vec::new();
    let mut k: usize = 0;
    while k < order.len()
        invariant
            k <= order@.len(),
            counts@.len() == found@.len(),
            is_weight_order(order@, counts@, numbers@, found@.len() as int),
            out@ == arranged(found@, order@.take(k as int)),
            forall|a: int| 0 <= a < found@.len() ==> events@.contains(#[trigger] found@[a]),
            forall|a: int| 0 <= a < out@.len() ==> events@.contains(#[trigger] out@[a]),
        decreases order@.len() - k,
    {
        assert(0 <= order@[k as int] < found@.len());
        assert(events@.contains(found@[order@[k as int] as int]));
        out.push(found[order[k]]);
        k += 1;
        assert(out@ =~= arranged(found@, order@.take(k as int)));
    }
    assert(order@.take(k as int) =~= order@);
    if out.len() > cap {
        out.truncate(cap);
        assert(out@ =~= arranged(found@, order@).take(cap as int));
    }
    out
}

/// The first of the spaces with the id.
pub open spec fn first_space(spaces: Seq<SearchSpace>, id: Seq<char>) -> Option<SearchSpace>
    decreases spaces.len(),
{
    if spaces.len() == 0 {
        None
    } else if spaces[0].id@ == id {
        Some(spaces[0])
    } else {
        first_space(spaces.skip(1), id)
    }
}

/// What is said where the query is embedded with another model than the units were.
pub open spec fn mismatch_text(
    stored: Seq<(Seq<char>, Seq<char>)>,
    current: Seq<(Seq<char>, Seq<char>)>,
) -> Seq<char> {
    "search queries must be embedded with the same model contract as the indexed code units; the configured embedder differs from the database on: "@
        + joined(differences(stored, current) + additions(stored, current), ", "@)
}

/// Checks that the query's model is the one that the units were embedded with.
pub fn check_model(space: &SearchSpace, current: &Vec<(String, String)>) -> (r: Result<(), String>)
    ensures
        ({
            let stored = member_texts(space.contract@);
            let own = member_texts(current@);
            match r {
                Ok(()) => stored == own,
                Err(message) => stored != own && message@ == mismatch_text(stored, own),
            }
        }),
{
    let ghost stored = member_texts(space.contract@);
    let ghost own = member_texts(current@);
    let mut i: usize = 0;
    let mut equal = space.contract.len() == current.len();
    assert(!equal ==> stored.len() != own.len());
    while equal && i < current.len()
        invariant
            i <= current@.len(),
            stored == member_texts(space.contract@),
            own == member_texts(current@),
            equal ==> stored.len() == own.len() && forall|j: int|
                0 <= j < i ==> #[trigger] stored[j] == own[j],
            !equal ==> stored != own,
        decreases current@.len() - i,
    {
        assert(stored[i as int] == (space.contract@[i as int].0@, space.contract@[i as int].1@));
        assert(own[i as int] == (current@[i as int].0@, current@[i as int].1@));
        if !same(space.contract[i].0.as_str(), current[i].0.as_str()) || !same(
            space.contract[i].1.as_str(),
            current[i].1.as_str(),
        ) {
            equal = false;
        }
        i += 1;
    }
    if equal {
        assert(stored =~= own);
        return Ok(());
    }
    let lines = contract_diff(&space.contract, current);
    Err(
        concat(
            "search queries must be embedded with the same model contract as the indexed code units; the configured embedder differs from the database on: ",
            join(&lines, ", ").as_str(),
        ),
    )
}

/// Why a selector leads to no unit.
#[derive(Debug, Clone, Copy, PartialEq, Eq, Structural)]
pub enum SelectorFault {
    /// The text is not of the form `unit:<id>`.
    NotASelector,
    NotFound,
}

/// What is said where a selector leads to no unit.
pub open spec fn selector_fault_text(fault: SelectorFault, text: Seq<char>) -> Seq<char> {
    match fault {
        SelectorFault::NotASelector => "selector "@ + debug_literal(text)
            + " is not a unit selector (expected `unit:<id>` as printed by query/report output)"@,
        SelectorFault::NotFound => text
            + " not found in the current index. Unit IDs are deterministic per index generation and change when code is re-indexed; re-run the query that produced the ID, or list units."@,
    }
}

/// What is said where a selector leads to no unit.
pub fn selector_message(fault: SelectorFault, text: &str) -> (r: String)
    ensures
        r@ == selector_fault_text(fault, text@),
{
    match fault {
        SelectorFault::NotASelector => {
            let mut out = concat("selector ", debug_quote(text).as_str());
            out.append(
                " is not a unit selector (expected `unit:<id>` as printed by query/report output)",
            );
            out
        },
        SelectorFault::NotFound => concat(
            text,
            " not found in the current index. Unit IDs are deterministic per index generation and change when code is re-indexed; re-run the query that produced the ID, or list units.",
        ),
    }
}

/// The first unit that the selector names.
pub open spec fn is_selected(units: Seq<CodeUnitRef>, text: Seq<char>, index: int) -> bool {
    &&& 0 <= index < units.len()
    &&& selector(units[index].facts()) == text
    &&& forall|j: int| 0 <= j < index ==> selector((#[trigger] units[j]).facts()) != text
}

/// Resolves a `unit:<id>` selector to a unit.
pub fn resolve_selector(units: &Vec<CodeUnitRef>, text: &str) -> (r: Result<usize, SelectorFault>)
    ensures
        match r {
            Ok(index) => "unit:"@.is_prefix_of(text@) && is_selected(units@, text@, index as int),
            Err(SelectorFault::NotASelector) => !"unit:"@.is_prefix_of(text@),
            Err(SelectorFault::NotFound) => "unit:"@.is_prefix_of(text@) && forall|j: int|
                0 <= j < units@.len() ==> selector((#[trigger] units@[j]).facts()) != text@,
        },
{
    if !starts_with(text, "unit:") {
        return Err(SelectorFault::NotASelector);
    }
    let mut i: usize = 0;
    while i < units.len()
        invariant
            i <= units@.len(),
            "unit:"@.is_prefix_of(text@),
            forall|j: int| 0 <= j < i ==> selector((#[trigger] units@[j]).facts()) != text@,
        decreases units@.len() - i,
    {
        if same(unit_id(&units[i]).as_str(), text) {
            return Ok(i);
        }
        i += 1;
    }
    Err(SelectorFault::NotFound)
}

/// A unit's own selector leads to a unit with the same selector, and to the unit
/// itself where no earlier unit has it.
pub proof fn selectors_lead_back(units: Seq<CodeUnitRef>, index: int)
    requires
        0 <= index < units.len(),
    ensures
        "unit:"@.is_prefix_of(selector(units[index].facts())),
        (forall|j: int|
            0 <= j < index ==> selector((#[trigger] units[j]).facts()) != selector(
                units[index].facts(),
            )) ==> is_selected(units, selector(units[index].facts()), index),
{
}

/// Seeds are never reached.
pub proof fn seeds_are_not_reached(
    units: Seq<CodeUnitRef>,
    relations: Seq<RelationRecord>,
    seeds: Seq<usize>,
)
    ensures
        forall|i: int|
            0 <= i < reached(units, relations, seeds).len() ==> !seeds.contains(
                #[trigger] reached(units, relations, seeds)[i],
            ),
    decreases relations.len(),
{
    if relations.len() > 0 {
        seeds_are_not_reached(units, relations.drop_last(), seeds);
        let before = reached(units, relations.drop_last(), seeds);
        let last = relations.last();
        let forward = neighbour(units, seeds, Some(last.from_entity_id@), target(last));
        let all = reached(units, relations, seeds);
        assert forall|i: int| 0 <= i < all.len() implies !seeds.contains(#[trigger] all[i]) by {
            if i < before.len() {
                assert(all[i] == before[i]);
            } else if i < before.len() + forward.len() {
                assert(all[i] == forward[i - before.len()]);
            }
        }
    }
}

/// Nothing is reached without seeds.
pub proof fn no_seeds_reach_nothing(units: Seq<CodeUnitRef>, relations: Seq<RelationRecord>)
    ensures
        reached(units, relations, Seq::empty()).len() == 0,
    decreases relations.len(),
{
    if relations.len() > 0 {
        no_seeds_reach_nothing(units, relations.drop_last());
    }
}

/// A relation whose target is unknown reaches nothing.
pub proof fn unresolved_relations_reach_nothing(
    units: Seq<CodeUnitRef>,
    relations: Seq<RelationRecord>,
    seeds: Seq<usize>,
    relation: RelationRecord,
)
    requires
        relation.to_entity_id is None,
    ensures
        reached(units, relations.push(relation), seeds) == reached(units, relations, seeds),
{
    assert(relations.push(relation).drop_last() =~= relations);
    assert(reached(units, relations.push(relation), seeds) =~= reached(units, relations, seeds));
}

proof fn order_is_a_choice(order: Seq<usize>, weights: Seq<u64>, numbers: Seq<usize>, n: int)
    requires
        is_weight_order(order, weights, numbers, n),
    ensures
        order.len() == n,
        forall|i: int| 0 <= i < n ==> 0 <= #[trigger] order[i] < n,
        forall|i: int, j: int| 0 <= i < j < n ==> #[trigger] order[i] != #[trigger] order[j],
{
    assert forall|i: int, j: int| 0 <= i < j < n implies #[trigger] order[i]
        != #[trigger] order[j] by {
        assert(crate::order::heavier_first(weights, numbers, order[i] as int, order[j] as int));
    }
}

proof fn reaching_stays_apart(scored: Seq<ScoredIndex>, threshold: Score)
    requires
        forall|i: int, j: int|
            0 <= i < j < scored.len() ==> (#[trigger] scored[i]).index < (
            #[trigger] scored[j]).index,
    ensures
        forall|i: int, j: int|
            0 <= i < j < reaching(scored, threshold).len() ==> (#[trigger] reaching(
                scored,
                threshold,
            )[i]).index < (#[trigger] reaching(scored, threshold)[j]).index,
        forall|i: int|
            0 <= i < reaching(scored, threshold).len() ==> scored.contains(
                #[trigger] reaching(scored, threshold)[i],
            ) && reaching(scored, threshold)[i].score.reaches(threshold),
        forall|k: int|
            0 <= k < scored.len() && (#[trigger] scored[k]).score.reaches(threshold) ==> reaching(
                scored,
                threshold,
            ).contains(scored[k]),
        reaching(scored, threshold).len() <= scored.len(),
    decreases scored.len(),
{
    if scored.len() > 0 {
        let front = scored.drop_last();
        assert forall|i: int, j: int| 0 <= i < j < front.len() implies (#[trigger] front[i]).index
            < (#[trigger] front[j]).index by {
            assert(front[i] == scored[i] && front[j] == scored[j]);
        }
        reaching_stays_apart(front, threshold);
        let before = reaching(front, threshold);
        let after = reaching(scored, threshold);
        let last = scored.last();
        assert(scored[scored.len() - 1] == last);
        assert forall|i: int| 0 <= i < after.len() implies scored.contains(#[trigger] after[i])
            && after[i].score.reaches(threshold) && (i < before.len() ==> after[i].index
            < last.index) by {
            if i < before.len() {
                assert(after[i] == before[i]);
                assert(front.contains(before[i]));
                let k = choose|k: int| 0 <= k < front.len() && front[k] == before[i];
                assert(scored[k] == before[i]);
            }
        }
        assert forall|i: int, j: int| 0 <= i < j < after.len() implies (#[trigger] after[i]).index
            < (#[trigger] after[j]).index by {
            assert(after[i] == before[i]);
            if j < before.len() {
                assert(after[j] == before[j]);
            }
        }
        assert forall|k: int|
            0 <= k < scored.len() && (#[trigger] scored[k]).score.reaches(
                threshold,
            ) implies after.contains(scored[k]) by {
            if k < front.len() {
                assert(front[k] == scored[k]);
                assert(before.contains(front[k]));
                let i = choose|i: int| 0 <= i < before.len() && before[i] == front[k];
                assert(after[i] == scored[k]);
            } else {
                assert(after[after.len() - 1] == scored[k]);
            }
        }
    }
}

/// Every hit of a search is a unit that passes the filter and has a vector in the space,
/// with a score that the similarity gave for it and that reaches the threshold. No unit
/// is a hit twice, better scores come first, and of equal ones the unit with the smaller
/// number.
pub proof fn hits_are_units_that_pass<F: Fn(usize) -> Score>(
    units: Seq<CodeUnitRef>,
    space: SearchSpace,
    filter: FilterFacts,
    without: Option<usize>,
    results: SearchResults,
    similarity: F,
    threshold: Score,
    limit: usize,
)
    requires
        units.len() <= usize::MAX,
        is_search(
            results,
            candidate_indices(units, space, filter, without),
            similarity,
            threshold,
            limit,
        ),
    ensures
        results.hits@.len() <= limit,
        results.hits@.len() <= results.matched <= units.len(),
        results.matched <= limit ==> results.hits@.len() == results.matched,
        results.matched > limit ==> results.hits@.len() == limit,
        forall|i: int|
            0 <= i < results.hits@.len() ==> {
                let hit = #[trigger] results.hits@[i];
                &&& hit.index < units.len()
                &&& without != Some(hit.index)
                &&& passes(filter, units[hit.index as int].facts())
                &&& space.has_vector(hit.index as int)
                &&& similarity.ensures((hit.index,), hit.score)
                &&& hit.score.reaches(threshold)
            },
        forall|i: int, j: int|
            0 <= i < j < results.hits@.len() ==> {
                let (a, b) = (#[trigger] results.hits@[i], #[trigger] results.hits@[j]);
                &&& a.index != b.index
                &&& a.score.standing() >= b.score.standing()
                &&& a.score == b.score ==> a.index < b.index
            },
{
    let candidates = candidate_indices(units, space, filter, without);
    let (scored, ranked) = choose|scored: Seq<ScoredIndex>, ranked: Seq<ScoredIndex>|
        {
            &&& #[trigger] is_scored(scored, candidates, similarity)
            &&& #[trigger] is_ranking(ranked, reaching(scored, threshold))
            &&& results.matched == ranked.len()
            &&& results.hits@ == within_limit(ranked, limit)
        };
    candidates_pass(units, space, filter, without);
    ranked_candidates(candidates, scored, ranked, threshold, similarity);
    assert forall|i: int| 0 <= i < results.hits@.len() implies {
        let hit = #[trigger] results.hits@[i];
        &&& hit.index < units.len()
        &&& without != Some(hit.index)
        &&& passes(filter, units[hit.index as int].facts())
        &&& space.has_vector(hit.index as int)
        &&& similarity.ensures((hit.index,), hit.score)
        &&& hit.score.reaches(threshold)
    } by {
        assert(results.hits@[i] == within_limit(ranked, limit)[i]);
        assert(candidates.contains(ranked[i].index));
    }
    assert forall|i: int, j: int| 0 <= i < j < results.hits@.len() implies {
        let (a, b) = (#[trigger] results.hits@[i], #[trigger] results.hits@[j]);
        &&& a.index != b.index
        &&& a.score.standing() >= b.score.standing()
        &&& a.score == b.score ==> a.index < b.index
    } by {
        assert(results.hits@[i] == within_limit(ranked, limit)[i]);
        assert(results.hits@[j] == within_limit(ranked, limit)[j]);
        assert(ranked[i].index != ranked[j].index);
        crate::query::rank::better_candidates_come_first(scored, threshold, ranked, i, j);
    }
}

/// A unit that passes the filter and has a vector in the space is found: where every
/// score that the similarity can give for it reaches the threshold and the limit leaves
/// room for all that matched, it is a hit.
pub proof fn every_unit_that_passes_is_found<F: Fn(usize) -> Score>(
    units: Seq<CodeUnitRef>,
    space: SearchSpace,
    filter: FilterFacts,
    without: Option<usize>,
    results: SearchResults,
    similarity: F,
    threshold: Score,
    limit: usize,
    unit: usize,
)
    requires
        units.len() <= usize::MAX,
        is_search(
            results,
            candidate_indices(units, space, filter, without),
            similarity,
            threshold,
            limit,
        ),
        results.matched <= limit,
        unit < units.len(),
        without != Some(unit),
        passes(filter, units[unit as int].facts()),
        space.has_vector(unit as int),
        forall|score: Score| #[trigger] similarity.ensures((unit,), score) ==> score.reaches(
            threshold,
        ),
    ensures
        exists|i: int| 0 <= i < results.hits@.len() && (#[trigger] results.hits@[i]).index == unit,
{
    let candidates = candidate_indices(units, space, filter, without);
    let (scored, ranked) = choose|scored: Seq<ScoredIndex>, ranked: Seq<ScoredIndex>|
        {
            &&& #[trigger] is_scored(scored, candidates, similarity)
            &&& #[trigger] is_ranking(ranked, reaching(scored, threshold))
            &&& results.matched == ranked.len()
            &&& results.hits@ == within_limit(ranked, limit)
        };
    candidates_pass(units, space, filter, without);
    ranked_candidates(candidates, scored, ranked, threshold, similarity);
    assert(candidates.contains(unit));
    let k = choose|k: int| 0 <= k < candidates.len() && candidates[k] == unit;
    assert(scored[k].index == unit);
    assert(similarity.ensures((unit,), scored[k].score));
    assert(ranked.contains(scored[k]));
    let i = choose|i: int| 0 <= i < ranked.len() && ranked[i] == scored[k];
    assert(results.hits@[i] == within_limit(ranked, limit)[i]);
    assert(results.hits@[i].index == unit);
}

proof fn candidates_pass(
    units: Seq<CodeUnitRef>,
    space: SearchSpace,
    filter: FilterFacts,
    without: Option<usize>,
)
    requires
        units.len() <= usize::MAX,
    ensures
        ({
            let candidates = candidate_indices(units, space, filter, without);
            &&& candidates.len() <= units.len()
            &&& forall|index: usize|
                #[trigger] candidates.contains(index) == (index < units.len() && without != Some(
                    index,
                ) && passes(filter, units[index as int].facts()) && space.has_vector(
                    index as int,
                ))
            &&& forall|i: int, j: int|
                0 <= i < j < candidates.len() ==> (#[trigger] candidates[i]) < (
                #[trigger] candidates[j])
        }),
{
    let choice = |i: int|
        {
            &&& without != Some(i as usize)
            &&& passes(filter, units[i].facts())
            &&& space.has_vector(i)
        };
    let candidates = candidate_indices(units, space, filter, without);
    assert(candidates == chosen(units.len(), choice));
    crate::order::chosen_numbers(units.len(), choice);
    chosen_is_short(units.len(), choice);
    assert forall|index: usize|
        #[trigger] candidates.contains(index) == (index < units.len() && without != Some(index)
            && passes(filter, units[index as int].facts()) && space.has_vector(index as int)) by {
        if candidates.contains(index) {
            let i = choose|i: int| 0 <= i < candidates.len() && candidates[i] == index;
            assert(choice(candidates[i] as int));
        } else if index < units.len() && choice(index as int) {
            assert(candidates.contains((index as int) as usize));
        }
    }
}

proof fn chosen_is_short(n: nat, choice: spec_fn(int) -> bool)
    ensures
        chosen(n, choice).len() <= n,
    decreases n,
{
    if n > 0 {
        chosen_is_short((n - 1) as nat, choice);
    }
}

proof fn ranked_candidates<F: Fn(usize) -> Score>(
    candidates: Seq<usize>,
    scored: Seq<ScoredIndex>,
    ranked: Seq<ScoredIndex>,
    threshold: Score,
    similarity: F,
)
    requires
        is_scored(scored, candidates, similarity),
        is_ranking(ranked, reaching(scored, threshold)),
        candidates.len() <= usize::MAX,
        forall|i: int, j: int|
            0 <= i < j < candidates.len() ==> (#[trigger] candidates[i]) < (
            #[trigger] candidates[j]),
    ensures
        ranked.len() <= candidates.len(),
        forall|i: int|
            0 <= i < ranked.len() ==> candidates.contains((#[trigger] ranked[i]).index)
                && similarity.ensures((ranked[i].index,), ranked[i].score)
                && ranked[i].score.reaches(threshold),
        forall|i: int, j: int|
            0 <= i < j < ranked.len() ==> (#[trigger] ranked[i]).index != (
            #[trigger] ranked[j]).index,
        forall|k: int|
            0 <= k < scored.len() && (#[trigger] scored[k]).score.reaches(threshold)
                ==> ranked.contains(scored[k]),
{
    assert forall|i: int, j: int| 0 <= i < j < scored.len() implies (#[trigger] scored[i]).index < (
    #[trigger] scored[j]).index by {
        assert(candidates[i] < candidates[j]);
    }
    reaching_stays_apart(scored, threshold);
    let kept = reaching(scored, threshold);
    let weights = crate::query::rank::standings_of(kept);
    let numbers = crate::query::rank::indices_of(kept);
    let order = choose|order: Seq<usize>|
        #[trigger] is_weight_order(order, weights, numbers, kept.len() as int) && ranked
            == arranged(kept, order);
    order_is_a_choice(order, weights, numbers, kept.len() as int);
    assert forall|i: int| 0 <= i < ranked.len() implies candidates.contains(
        (#[trigger] ranked[i]).index,
    ) && similarity.ensures((ranked[i].index,), ranked[i].score)
        && ranked[i].score.reaches(threshold) by {
        assert(ranked[i] == kept[order[i] as int]);
        assert(scored.contains(kept[order[i] as int]));
        let k = choose|k: int| 0 <= k < scored.len() && scored[k] == kept[order[i] as int];
        assert(candidates[k] == ranked[i].index);
    }
    assert forall|i: int, j: int| 0 <= i < j < ranked.len() implies (#[trigger] ranked[i]).index
        != (#[trigger] ranked[j]).index by {
        assert(ranked[i] == kept[order[i] as int] && ranked[j] == kept[order[j] as int]);
        assert(order[i] != order[j]);
    }
    assert forall|k: int|
        0 <= k < scored.len() && (#[trigger] scored[k]).score.reaches(
            threshold,
        ) implies ranked.contains(scored[k]) by {
        crate::query::rank::what_reaches_the_threshold_is_ranked(
            scored,
            threshold,
            ranked,
            scored[k],
        );
    }
}

/// `index` is the first unit that stands for the entity.
pub open spec fn stands_first(units: Seq<CodeUnitRef>, entity: Seq<char>, index: int) -> bool {
    &&& 0 <= index < units.len()
    &&& units[index].entity_id@ == entity
    &&& forall|j: int| 0 <= j < index ==> (#[trigger] units[j]).entity_id@ != entity
}

/// An entity leads to the first unit that stands for it, and to none only where no unit
/// does.
pub proof fn an_entity_leads_to_its_first_unit(units: Seq<CodeUnitRef>, entity: Seq<char>)
    requires
        units.len() <= usize::MAX,
    ensures
        match unit_of_entity(units, entity) {
            Some(index) => stands_first(units, entity, index as int),
            None => forall|j: int|
                0 <= j < units.len() ==> (#[trigger] units[j]).entity_id@ != entity,
        },
    decreases units.len(),
{
    if units.len() > 0 {
        let front = units.drop_last();
        an_entity_leads_to_its_first_unit(front, entity);
        assert forall|j: int| 0 <= j < front.len() implies #[trigger] units[j] == front[j] by {}
    }
}

/// A relation with one end among the seeds reaches the unit at its other end, in whichever
/// direction the relation points.
pub proof fn relations_are_followed_both_ways(
    units: Seq<CodeUnitRef>,
    relations: Seq<RelationRecord>,
    seeds: Seq<usize>,
    k: int,
    near: usize,
    far: usize,
)
    requires
        units.len() <= usize::MAX,
        0 <= k < relations.len(),
        seeds.contains(near),
        !seeds.contains(far),
        relations[k].to_entity_id is Some,
        ({
            let (from, to) = (relations[k].from_entity_id@, relations[k].to_entity_id->0@);
            ||| stands_first(units, from, near as int) && stands_first(units, to, far as int)
            ||| stands_first(units, to, near as int) && stands_first(units, from, far as int)
        }),
    ensures
        reached(units, relations, seeds).contains(far),
    decreases relations.len(),
{
    let front = relations.drop_last();
    let last = relations.last();
    let (from, to) = (Some(last.from_entity_id@), target(last));
    let before = reached(units, front, seeds);
    let (out, back) = (neighbour(units, seeds, from, to), neighbour(units, seeds, to, from));
    let all = reached(units, relations, seeds);
    assert(all == before + out + back);
    if k < front.len() {
        assert(front[k] == relations[k]);
        relations_are_followed_both_ways(units, front, seeds, k, near, far);
        let i = choose|i: int| 0 <= i < before.len() && before[i] == far;
        assert(all[i] == far);
    } else {
        an_entity_leads_to_its_first_unit(units, last.from_entity_id@);
        an_entity_leads_to_its_first_unit(units, last.to_entity_id->0@);
        if stands_first(units, last.from_entity_id@, near as int) && stands_first(
            units,
            last.to_entity_id->0@,
            far as int,
        ) {
            assert(out =~= seq![far]);
            assert(all[before.len() as int] == far);
        } else {
            assert(back =~= seq![far]);
            assert(all[(before.len() + out.len()) as int] == far);
        }
    }
}

/// A unit is reached only by a relation between it and a seed.
pub proof fn only_relations_reach(
    units: Seq<CodeUnitRef>,
    relations: Seq<RelationRecord>,
    seeds: Seq<usize>,
    i: int,
)
    requires
        units.len() <= usize::MAX,
        0 <= i < reached(units, relations, seeds).len(),
    ensures
        exists|k: int, near: usize|
            {
                let far = reached(units, relations, seeds)[i] as int;
                let relation = #[trigger] relations[k];
                &&& 0 <= k < relations.len()
                &&& #[trigger] seeds.contains(near)
                &&& relation.to_entity_id is Some
                &&& {
                    let (from, to) = (relation.from_entity_id@, relation.to_entity_id->0@);
                    ||| stands_first(units, from, near as int) && stands_first(units, to, far)
                    ||| stands_first(units, to, near as int) && stands_first(units, from, far)
                }
            },
    decreases relations.len(),
{
    let front = relations.drop_last();
    let last = relations.last();
    let (from, to) = (Some(last.from_entity_id@), target(last));
    let before = reached(units, front, seeds);
    let (out, back) = (neighbour(units, seeds, from, to), neighbour(units, seeds, to, from));
    let all = reached(units, relations, seeds);
    let far = all[i];
    assert(all == before + out + back);
    if i < before.len() {
        only_relations_reach(units, front, seeds, i);
        assert(before[i] == far);
        let (k, near) = choose|k: int, near: usize|
            {
                let relation = #[trigger] front[k];
                &&& 0 <= k < front.len()
                &&& #[trigger] seeds.contains(near)
                &&& relation.to_entity_id is Some
                &&& {
                    let (from, to) = (relation.from_entity_id@, relation.to_entity_id->0@);
                    ||| stands_first(units, from, near as int) && stands_first(
                        units,
                        to,
                        far as int,
                    )
                    ||| stands_first(units, to, near as int) && stands_first(
                        units,
                        from,
                        far as int,
                    )
                }
            };
        assert(relations[k] == front[k]);
        assert(seeds.contains(near));
    } else {
        an_entity_leads_to_its_first_unit(units, last.from_entity_id@);
        assert(relations[relations.len() - 1] == last);
        if last.to_entity_id is Some {
            an_entity_leads_to_its_first_unit(units, last.to_entity_id->0@);
            let a = unit_of_entity(units, last.from_entity_id@);
            let b = unit_of_entity(units, last.to_entity_id->0@);
            if i < before.len() + out.len() {
                assert(out[i - before.len()] == far);
                assert(seeds.contains(a->0));
            } else {
                assert(back[i - before.len() - out.len()] == far);
                assert(seeds.contains(b->0));
            }
        }
    }
}

proof fn first_seen_facts(events: Seq<usize>)
    ensures
        first_seen(events).len() <= events.len(),
        forall|a: int, b: int|
            0 <= a < b < first_seen(events).len() ==> #[trigger] first_seen(events)[a]
                != #[trigger] first_seen(events)[b],
        forall|a: int|
            0 <= a < first_seen(events).len() ==> events.contains(#[trigger] first_seen(events)[a]),
        forall|x: usize| #[trigger] events.contains(x) ==> first_seen(events).contains(x),
    decreases events.len(),
{
    if events.len() > 0 {
        let front = events.drop_last();
        first_seen_facts(front);
        let (before, after) = (first_seen(front), first_seen(events));
        assert forall|a: int| 0 <= a < after.len() implies events.contains(#[trigger] after[a]) by {
            if a < before.len() {
                assert(after[a] == before[a]);
                let i = choose|i: int| 0 <= i < front.len() && front[i] == before[a];
                assert(events[i] == after[a]);
            } else {
                assert(events[events.len() - 1] == after[a]);
            }
        }
        assert forall|x: usize| #[trigger] events.contains(x) implies after.contains(x) by {
            let i = choose|i: int| 0 <= i < events.len() && events[i] == x;
            if i < front.len() {
                assert(front[i] == x);
                assert(front.contains(x));
                let j = choose|j: int| 0 <= j < before.len() && before[j] == x;
                assert(after[j] == x);
            } else if before.contains(x) {
                let j = choose|j: int| 0 <= j < before.len() && before[j] == x;
                assert(after[j] == x);
            } else {
                assert(after[after.len() - 1] == x);
            }
        }
        assert forall|a: int, b: int| 0 <= a < b < after.len() implies #[trigger] after[a]
            != #[trigger] after[b] by {
            if b < before.len() {
                assert(before[a] != before[b]);
            } else if after[a] == after[b] {
                assert(before[a] == events.last());
            }
        }
    }
}

/// An expansion holds units that were reached, each once and the most often reached first;
/// it is as long as it may be, and no unit that is left out was reached more often than one
/// that is in it.
pub proof fn an_expansion_prefers_what_is_reached_often(
    expanded: Seq<usize>,
    events: Seq<usize>,
    cap: usize,
)
    requires
        is_expansion(expanded, events, cap),
        events.len() <= usize::MAX,
    ensures
        expanded.len() <= cap,
        forall|i: int| 0 <= i < expanded.len() ==> events.contains(#[trigger] expanded[i]),
        forall|i: int, j: int|
            0 <= i < j < expanded.len() ==> {
                let (a, b) = (#[trigger] expanded[i], #[trigger] expanded[j]);
                a != b && times(events, a) >= times(events, b)
            },
        forall|x: usize| #[trigger]
            events.contains(x) && !expanded.contains(x) ==> expanded.len() == cap && forall|i: int|
                0 <= i < expanded.len() ==> times(events, #[trigger] expanded[i]) >= times(
                    events,
                    x,
                ),
{
    let found = first_seen(events);
    first_seen_facts(events);
    let weights = tallies(events, found);
    let order = choose|order: Seq<usize>|
        {
            &&& #[trigger] is_weight_order(
                order,
                tallies(events, found),
                counted(found.len()),
                found.len() as int,
            )
            &&& expanded == if found.len() <= cap {
                arranged(found, order)
            } else {
                arranged(found, order).take(cap as int)
            }
        };
    order_is_a_choice(order, weights, counted(found.len()), found.len() as int);
    let whole = arranged(found, order);
    assert forall|i: int| 0 <= i < found.len() implies weights[i] == times(events, #[trigger] found[i]) by {
        times_bounded(events, found[i]);
    }
    assert forall|i: int, j: int| 0 <= i < j < whole.len() implies (#[trigger] whole[i])
        != #[trigger] whole[j] && times(events, whole[i]) >= times(events, whole[j]) by {
        let (a, b) = (order[i] as int, order[j] as int);
        assert(crate::order::heavier_first(weights, counted(found.len()), a, b));
        assert(found[a] != found[b]);
        assert(weights[a] >= weights[b]);
    }
    assert forall|i: int| 0 <= i < expanded.len() implies #[trigger] expanded[i] == whole[i] by {}
    assert forall|x: usize| #[trigger]
        events.contains(x) && !expanded.contains(x) implies expanded.len() == cap && (forall|i: int|
        0 <= i < expanded.len() ==> times(events, #[trigger] expanded[i]) >= times(events, x)) by {
        let a = choose|a: int| 0 <= a < found.len() && found[a] == x;
        assert(order.contains(a as usize));
        let i = choose|i: int| 0 <= i < order.len() && order[i] == a as usize;
        assert(whole[i] == x);
        if i < expanded.len() {
            assert(expanded[i] == x);
        }
        assert forall|j: int| 0 <= j < expanded.len() implies times(events, #[trigger] expanded[j])
            >= times(events, x) by {
            assert(whole[j] == expanded[j]);
        }
    }
}

/// What is requested is selected in the order of the request, and a request for nothing
/// selects everything.
pub proof fn requested_projects_are_selected(indexed: Seq<Seq<char>>, requested: Seq<Seq<char>>)
    requires
        indexed.len() <= usize::MAX,
        forall|i: int| 0 <= i < requested.len() ==> indexed.contains(#[trigger] requested[i]),
    ensures
        ({
            let places = requested_places(indexed, requested);
            let wanted = if requested.len() == 0 {
                indexed
            } else {
                requested
            };
            &&& places.len() == wanted.len()
            &&& forall|i: int|
                0 <= i < places.len() ==> {
                    let place = #[trigger] places[i];
                    place < indexed.len() && indexed[place as int] == wanted[i]
                }
        }),
{
    assert forall|i: int| 0 <= i < requested.len() implies {
        let place = #[trigger] requested_places(indexed, requested)[i];
        place < indexed.len() && indexed[place as int] == requested[i]
    } by {
        first_place_bounded(indexed, requested[i]);
    }
}

/// A space is found by its own id, and the first of that id is.
pub proof fn a_space_is_found_by_its_id(spaces: Seq<SearchSpace>, id: Seq<char>)
    ensures
        match first_space(spaces, id) {
            Some(space) => space.id@ == id && exists|i: int|
                {
                    &&& 0 <= i < spaces.len()
                    &&& #[trigger] spaces[i] == space
                    &&& forall|j: int| 0 <= j < i ==> (#[trigger] spaces[j]).id@ != id
                },
            None => forall|i: int| 0 <= i < spaces.len() ==> (#[trigger] spaces[i]).id@ != id,
        },
    decreases spaces.len(),
{
    if spaces.len() > 0 && spaces[0].id@ != id {
        let rest = spaces.skip(1);
        a_space_is_found_by_its_id(rest, id);
        if first_space(spaces, id) is Some {
            let i = choose|i: int|
                {
                    &&& 0 <= i < rest.len()
                    &&& #[trigger] rest[i] == first_space(rest, id)->0
                    &&& forall|j: int| 0 <= j < i ==> (#[trigger] rest[j]).id@ != id
                };
            assert(spaces[i + 1] == first_space(spaces, id)->0);
            assert forall|j: int| 0 <= j < i + 1 implies (#[trigger] spaces[j]).id@ != id by {
                if j > 0 {
                    assert(rest[j - 1] == spaces[j]);
                }
            }
        } else {
            assert forall|i: int| 0 <= i < spaces.len() implies (#[trigger] spaces[i]).id@ != id by {
                if i > 0 {
                    assert(rest[i - 1] == spaces[i]);
                }
            }
        }
    }
}

/// A unit has a vector in a space exactly where a vector is stored under the hash of what
/// the unit has for the space.
pub proof fn a_unit_has_the_vector_of_its_hash(space: SearchSpace, rows: SpaceRows, index: int)
    requires
        space_of(space, rows),
        0 <= index < rows.hashes@.len(),
    ensures
        space.has_vector(index) <==> rows.hashes@[index] is Some && exists|k: int|
            0 <= k < rows.stored@.len() && (#[trigger] rows.stored@[k])@
                == rows.hashes@[index]->0@,
{
    if space.has_vector(index) {
        let stored = views(rows.stored@);
        let hash = rows.hashes@[index]->0@;
        let k = choose|k: int| 0 <= k < stored.len() && stored[k] == hash;
        assert(rows.stored@[k]@ == hash);
    } else if rows.hashes@[index] is Some && exists|k: int|
        0 <= k < rows.stored@.len() && (#[trigger] rows.stored@[k])@ == rows.hashes@[index]->0@ {
        let k = choose|k: int|
            0 <= k < rows.stored@.len() && (#[trigger] rows.stored@[k])@
                == rows.hashes@[index]->0@;
        assert(views(rows.stored@)[k] == rows.hashes@[index]->0@);
        assert(views(rows.stored@).contains(rows.hashes@[index]->0@));
    }
}

/// A unit is judged by what it holds itself.
pub proof fn a_unit_is_judged_by_its_own_values(unit: CodeUnitRef)
    ensures
        unit.facts().project_label == unit.project_label@,
        unit.facts().relative_path == unit.relative_path@,
        unit.facts().language_id == unit.language_id@,
        unit.facts().kind == unit.kind@,
        unit.facts().name == unit.name@,
        unit.facts().scope == opt_view(unit.scope),
        unit.facts().start_byte == unit.start_byte && unit.facts().end_byte == unit.end_byte,
        unit.facts().start_line == unit.start_line && unit.facts().end_line == unit.end_line,
        unit.facts().body_node_count == unit.body_node_count,
        unit.facts().normalized_body_hash == unit.normalized_body_hash@,
{
}

/// A model that differs from the stored one is refused with every member in which it does.
pub proof fn a_refusal_names_every_difference(
    stored: Seq<(Seq<char>, Seq<char>)>,
    current: Seq<(Seq<char>, Seq<char>)>,
    k: int,
)
    requires
        0 <= k < differences(stored, current).len() + additions(stored, current).len(),
    ensures
        crate::text::has(
            mismatch_text(stored, current),
            (differences(stored, current) + additions(stored, current))[k],
        ),
{
    let parts = differences(stored, current) + additions(stored, current);
    let inner = joined(parts, ", "@);
    let front = "search queries must be embedded with the same model contract as the indexed code units; the configured embedder differs from the database on: "@;
    crate::text::every_part_is_in_a_joined_text(parts, ", "@, k);
    crate::text::a_text_is_in_what_surrounds_it(front, inner, Seq::empty());
    assert(front + inner + Seq::<char>::empty() =~= mismatch_text(stored, current));
    crate::text::parts_of_parts_are_parts(mismatch_text(stored, current), inner, parts[k]);
}

/// A unit that is selected has the selector that was asked for, and is the first that has.
pub proof fn a_selector_selects_its_unit(units: Seq<CodeUnitRef>, text: Seq<char>, index: int)
    requires
        is_selected(units, text, index),
    ensures
        0 <= index < units.len(),
        selector(units[index].facts()) == text,
        forall|other: int| #[trigger] is_selected(units, text, other) ==> other == index,
{
    assert forall|other: int| #[trigger] is_selected(units, text, other) implies other == index by {
        if other < index {
            assert(selector(units[other].facts()) != text);
        }
        if index < other {
            assert(selector(units[index].facts()) != text);
        }
    }
}

} // verus!
