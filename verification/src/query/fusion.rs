//! Fusion of ranked lists.
use crate::order::{heavier_first, is_weight_order, weight_order};
use crate::query::rank::Score;
use vstd::prelude::*;

verus! {

/// One retrieval source's ranked units.
#[derive(Debug)]
pub struct RankedList {
    /// The source's label (such as `dense` or `lexical`).
    pub source: String,
    pub weight: Score,
    /// The numbers of the units, best first.
    pub indices: Vec<usize>,
}

/// A unit found by at least one source.
#[derive(Debug)]
pub struct FusedIndex {
    pub index: usize,
    pub score: Score,
    /// The source and the rank, counted from one, of every place where the unit
    /// was listed.
    pub contributions: Vec<(String, usize)>,
}

/// A place in one of several lists; ranks count from one.
#[derive(Debug, Clone, Copy, PartialEq, Eq, Structural)]
pub struct Place {
    pub list: usize,
    pub rank: usize,
}

/// The places where a unit stands in one list.
pub open spec fn places_in(indices: Seq<usize>, list: int, index: usize) -> Seq<Place>
    decreases indices.len(),
{
    if indices.len() == 0 {
        Seq::empty()
    } else {
        let before = places_in(indices.drop_last(), list, index);
        if indices.last() == index {
            before.push(Place { list: list as usize, rank: indices.len() as usize })
        } else {
            before
        }
    }
}

/// The places where a unit stands in the lists.
pub open spec fn places(lists: Seq<RankedList>, index: usize) -> Seq<Place>
    decreases lists.len(),
{
    if lists.len() == 0 {
        Seq::empty()
    } else {
        places(lists.drop_last(), index) + places_in(
            lists.last().indices@,
            lists.len() - 1,
            index,
        )
    }
}

/// The source and the rank of each place.
pub open spec fn contributions_of(lists: Seq<RankedList>, at: Seq<Place>) -> Seq<(Seq<char>, usize)> {
    Seq::new(at.len(), |i: int| (lists[at[i].list as int].source@, at[i].rank))
}

/// The weight of each place's list, and what the weight is divided by there.
pub open spec fn shares(lists: Seq<RankedList>, rrf_k: usize, at: Seq<Place>) -> Seq<(Score, usize)> {
    Seq::new(
        at.len(),
        |i: int| (lists[at[i].list as int].weight, (rrf_k + at[i].rank) as usize),
    )
}

/// What contributions say.
pub open spec fn contribution_views(contributions: Seq<(String, usize)>) -> Seq<(Seq<char>, usize)> {
    Seq::new(contributions.len(), |i: int| (contributions[i].0@, contributions[i].1))
}

/// The places lie in the lists.
pub open spec fn places_fit(lists: Seq<RankedList>, at: Seq<Place>) -> bool {
    forall|i: int|
        0 <= i < at.len() ==> (#[trigger] at[i]).list < lists.len() && 1 <= at[i].rank
            <= lists[at[i].list as int].indices@.len()
}

/// One unit comes before another: its score is higher, or the same under a smaller
/// number.
pub open spec fn fused_before(a: FusedIndex, b: FusedIndex) -> bool {
    a.score.standing() > b.score.standing() || (a.score == b.score && a.index < b.index)
}

/// The value is what the scoring may give for the shares.
pub open spec fn scored_as<F: Fn(&Vec<(Score, usize)>) -> Score>(
    score: F,
    terms: Seq<(Score, usize)>,
    value: Score,
) -> bool {
    exists|list: Vec<(Score, usize)>| list@ == terms && #[trigger] score.ensures((&list,), value)
}

/// A unit as the lists and the scoring give it.
pub open spec fn is_fused<F: Fn(&Vec<(Score, usize)>) -> Score>(
    hit: FusedIndex,
    lists: Seq<RankedList>,
    rrf_k: usize,
    score: F,
) -> bool {
    let at = places(lists, hit.index);
    &&& contribution_views(hit.contributions@) == contributions_of(lists, at)
    &&& scored_as(score, shares(lists, rrf_k, at), hit.score)
}

/// The unit is among the hits.
pub open spec fn is_hit(hits: Seq<FusedIndex>, index: usize) -> bool {
    exists|i: int| 0 <= i < hits.len() && (#[trigger] hits[i]).index == index
}

/// The hits are the units that the lists hold, each once, the best first.
pub open spec fn is_fusion<F: Fn(&Vec<(Score, usize)>) -> Score>(
    hits: Seq<FusedIndex>,
    lists: Seq<RankedList>,
    rrf_k: usize,
    score: F,
) -> bool {
    &&& forall|i: int| 0 <= i < hits.len() ==> is_fused(#[trigger] hits[i], lists, rrf_k, score)
    &&& forall|index: usize| #[trigger] is_hit(hits, index) == (places(lists, index).len() > 0)
    &&& forall|i: int, j: int|
        0 <= i < j < hits.len() ==> fused_before(#[trigger] hits[i], #[trigger] hits[j])
    &&& forall|i: int, j: int|
        0 <= i < j < hits.len() ==> (#[trigger] hits[i]).index != (#[trigger] hits[j]).index
}

/// A unit and its places.
struct Standing {
    index: usize,
    places: Vec<Place>,
}

spec fn stands(found: Seq<Standing>, index: usize) -> bool {
    exists|i: int| 0 <= i < found.len() && (#[trigger] found[i]).index == index
}

/// The places of a unit in the first lists and the first ranks of the next.
spec fn places_until(lists: Seq<RankedList>, list: int, rank: int, index: usize) -> Seq<Place> {
    places(lists.take(list), index) + places_in(lists[list].indices@.take(rank), list, index)
}

/// The units found so far are distinct, hold their places and are all there are.
spec fn standings_until(found: Seq<Standing>, lists: Seq<RankedList>, list: int, rank: int) -> bool {
    &&& forall|i: int, j: int|
        0 <= i < j < found.len() ==> (#[trigger] found[i]).index != (#[trigger] found[j]).index
    &&& forall|i: int|
        0 <= i < found.len() ==> (#[trigger] found[i]).places@ == places_until(
            lists,
            list,
            rank,
            found[i].index,
        ) && found[i].places@.len() > 0
    &&& forall|index: usize|
        !#[trigger] stands(found, index) ==> places_until(lists, list, rank, index).len() == 0
}

spec fn is_standings(found: Seq<Standing>, lists: Seq<RankedList>) -> bool {
    &&& forall|i: int, j: int|
        0 <= i < j < found.len() ==> (#[trigger] found[i]).index != (#[trigger] found[j]).index
    &&& forall|i: int|
        0 <= i < found.len() ==> (#[trigger] found[i]).places@ == places(lists, found[i].index)
            && found[i].places@.len() > 0
    &&& forall|index: usize|
        !#[trigger] stands(found, index) ==> places(lists, index).len() == 0
}

fn add_place(found: &mut Vec<Standing>, index: usize, place: Place)
    requires
        forall|i: int, j: int|
            0 <= i < j < old(found)@.len() ==> (#[trigger] old(found)@[i]).index != (
            #[trigger] old(found)@[j]).index,
    ensures
        ({
            let before = old(found)@;
            let after = final(found)@;
            &&& forall|i: int|
                0 <= i < before.len() ==> (#[trigger] after[i]).index == before[i].index
                    && after[i].places@ == if before[i].index == index {
                    before[i].places@.push(place)
                } else {
                    before[i].places@
                }
            &&& if stands(before, index) {
                after.len() == before.len()
            } else {
                after.len() == before.len() + 1 && after.last().index == index
                    && after.last().places@ == seq![place]
            }
        }),
{
    let ghost before = found@;
    let mut i: usize = 0;
    while i < found.len()
        invariant
            i <= found@.len(),
            found@ == before,
            forall|a: int, b: int|
                0 <= a < b < before.len() ==> (#[trigger] before[a]).index != (
                #[trigger] before[b]).index,
            forall|j: int| 0 <= j < i ==> (#[trigger] before[j]).index != index,
            old(found)@ == before,
        decreases found@.len() - i,
    {
        if found[i].index == index {
            found[i].places.push(place);
            assert(before[i as int].index == index);
            return;
        }
        i += 1;
    }
    let mut places: Vec<Place> = Vec::new();
    places.push(place);
    assert(places@ =~= seq![place]);
    found.push(Standing { index, places });
}

proof fn place_added(
    before: Seq<Standing>,
    after: Seq<Standing>,
    lists: Seq<RankedList>,
    list: int,
    rank: int,
)
    requires
        0 <= list < lists.len(),
        0 <= rank < lists[list].indices@.len(),
        standings_until(before, lists, list, rank),
        ({
            let index = lists[list].indices@[rank];
            let place = Place { list: list as usize, rank: (rank + 1) as usize };
            &&& forall|i: int|
                0 <= i < before.len() ==> (#[trigger] after[i]).index == before[i].index
                    && after[i].places@ == if before[i].index == index {
                    before[i].places@.push(place)
                } else {
                    before[i].places@
                }
            &&& if stands(before, index) {
                after.len() == before.len()
            } else {
                after.len() == before.len() + 1 && after.last().index == index
                    && after.last().places@ == seq![place]
            }
        }),
    ensures
        standings_until(after, lists, list, rank + 1),
{
    let all = lists[list].indices@;
    let index = all[rank];
    let place = Place { list: list as usize, rank: (rank + 1) as usize };
    assert(all.take(rank + 1).drop_last() =~= all.take(rank));
    assert forall|x: usize| #[trigger] places_until(lists, list, rank + 1, x) == if x == index {
        places_until(lists, list, rank, x).push(place)
    } else {
        places_until(lists, list, rank, x)
    } by {
        assert(all.take(rank + 1).last() == index);
        if x == index {
            assert(places_until(lists, list, rank + 1, x) =~= places_until(
                lists,
                list,
                rank,
                x,
            ).push(place));
        }
    }
    assert forall|x: usize| !#[trigger] stands(after, x) implies places_until(
        lists,
        list,
        rank + 1,
        x,
    ).len() == 0 by {
        if stands(before, x) {
            let i = choose|i: int| 0 <= i < before.len() && (#[trigger] before[i]).index == x;
            assert(after[i].index == x);
        }
        if x == index && !stands(before, index) {
            assert(after[after.len() - 1].index == x);
        }
    }
    assert forall|i: int| 0 <= i < after.len() implies (#[trigger] after[i]).places@
        == places_until(lists, list, rank + 1, after[i].index) && after[i].places@.len() > 0 by {
        if i < before.len() {
            assert(after[i].index == before[i].index);
        } else {
            assert(!stands(before, index));
            assert(places_until(lists, list, rank, index) =~= Seq::<Place>::empty());
            assert(places_until(lists, list, rank + 1, index) =~= seq![place]);
        }
    }
    assert forall|i: int, j: int| 0 <= i < j < after.len() implies (#[trigger] after[i]).index != (
    #[trigger] after[j]).index by {
        assert(after[i].index == before[i].index);
        if j < before.len() {
            assert(after[j].index == before[j].index);
        } else if before[i].index == index {
            assert(stands(before, index));
        }
    }
}

fn standings(lists: &Vec<RankedList>) -> (r: Vec<Standing>)
    ensures
        is_standings(r@, lists@),
{
    let mut found: Vec<Standing> = Vec::new();
    let mut l: usize = 0;
    while l < lists.len()
        invariant
            l <= lists@.len(),
            is_standings(found@, lists@.take(l as int)),
        decreases lists@.len() - l,
    {
        let mut p: usize = 0;
        let ghost all = lists@[l as int].indices@;
        proof {
            assert(all.take(0) =~= Seq::<usize>::empty());
            assert forall|x: usize| #[trigger] places_until(lists@, l as int, 0, x) == places(
                lists@.take(l as int),
                x,
            ) by {
                assert(places_until(lists@, l as int, 0, x) =~= places(
                    lists@.take(l as int),
                    x,
                ));
            }
        }
        while p < lists[l].indices.len()
            invariant
                l < lists@.len(),
                p <= lists@[l as int].indices@.len(),
                standings_until(found@, lists@, l as int, p as int),
            decreases lists@[l as int].indices@.len() - p,
        {
            let ghost before = found@;
            assert(p < lists[l as int].indices.len());
            add_place(&mut found, lists[l].indices[p], Place { list: l, rank: p + 1 });
            proof {
                place_added(before, found@, lists@, l as int, p as int);
            }
            p += 1;
        }
        proof {
            let next = lists@.take(l + 1);
            assert(next.drop_last() =~= lists@.take(l as int));
            assert(all.take(p as int) =~= all);
            assert forall|x: usize| #[trigger] places(next, x) == places_until(
                lists@,
                l as int,
                p as int,
                x,
            ) by {}
        }
        l += 1;
    }
    assert(lists@.take(l as int) =~= lists@);
    found
}

proof fn places_in_fit(indices: Seq<usize>, list: int, index: usize)
    requires
        0 <= list <= usize::MAX,
        indices.len() <= usize::MAX,
    ensures
        forall|i: int|
            0 <= i < places_in(indices, list, index).len() ==> {
                &&& (#[trigger] places_in(indices, list, index)[i]).list == list
                &&& 1 <= places_in(indices, list, index)[i].rank <= indices.len()
            },
    decreases indices.len(),
{
    if indices.len() > 0 {
        let before = places_in(indices.drop_last(), list, index);
        places_in_fit(indices.drop_last(), list, index);
        assert forall|i: int| 0 <= i < places_in(indices, list, index).len() implies {
            &&& (#[trigger] places_in(indices, list, index)[i]).list == list
            &&& 1 <= places_in(indices, list, index)[i].rank <= indices.len()
        } by {
            if i < before.len() {
                assert(places_in(indices, list, index)[i] == before[i]);
            }
        }
    }
}

/// The places of a unit lie in the lists.
pub proof fn places_lie_in_the_lists(lists: Seq<RankedList>, index: usize)
    requires
        lists.len() <= usize::MAX,
        forall|l: int| 0 <= l < lists.len() ==> (#[trigger] lists[l]).indices@.len() <= usize::MAX,
    ensures
        places_fit(lists, places(lists, index)),
    decreases lists.len(),
{
    if lists.len() > 0 {
        let front = lists.drop_last();
        assert forall|l: int| 0 <= l < front.len() implies (#[trigger] front[l]).indices@.len()
            <= usize::MAX by {
            assert(front[l] == lists[l]);
        }
        places_lie_in_the_lists(front, index);
        let last = lists[lists.len() - 1];
        places_in_fit(last.indices@, lists.len() - 1, index);
        let at = places(lists, index);
        let before = places(front, index);
        assert forall|i: int| 0 <= i < at.len() implies (#[trigger] at[i]).list < lists.len() && 1
            <= at[i].rank <= lists[at[i].list as int].indices@.len() by {
            if i < before.len() {
                assert(at[i] == before[i]);
                assert(front[at[i].list as int] == lists[at[i].list as int]);
            } else {
                assert(at[i] == places_in(last.indices@, lists.len() - 1, index)[i
                    - before.len()]);
            }
        }
    }
}

fn share_list(lists: &Vec<RankedList>, rrf_k: usize, at: &Vec<Place>) -> (r: Vec<(Score, usize)>)
    requires
        places_fit(lists@, at@),
        forall|l: int|
            0 <= l < lists@.len() ==> rrf_k + (#[trigger] lists@[l]).indices@.len() <= usize::MAX,
    ensures
        r@ == shares(lists@, rrf_k, at@),
{
    let mut out: Vec<(Score, usize)> = Vec::new();
    let mut i: usize = 0;
    while i < at.len()
        invariant
            i <= at@.len(),
            places_fit(lists@, at@),
            forall|l: int|
                0 <= l < lists@.len() ==> rrf_k + (#[trigger] lists@[l]).indices@.len()
                    <= usize::MAX,
            out@ == shares(lists@, rrf_k, at@.take(i as int)),
        decreases at@.len() - i,
    {
        let place = at[i];
        assert(place == at@[i as int]);
        assert(lists@[place.list as int].indices@.len() + rrf_k <= usize::MAX);
        out.push((lists[place.list].weight, rrf_k + place.rank));
        i += 1;
        assert(out@ =~= shares(lists@, rrf_k, at@.take(i as int)));
    }
    assert(at@.take(i as int) =~= at@);
    out
}

fn contribution_list(lists: &Vec<RankedList>, at: &Vec<Place>) -> (r: Vec<(String, usize)>)
    requires
        places_fit(lists@, at@),
    ensures
        contribution_views(r@) == contributions_of(lists@, at@),
{
    let mut out: Vec<(String, usize)> = Vec::new();
    let mut i: usize = 0;
    while i < at.len()
        invariant
            i <= at@.len(),
            places_fit(lists@, at@),
            contribution_views(out@) == contributions_of(lists@, at@.take(i as int)),
        decreases at@.len() - i,
    {
        let place = at[i];
        assert(place == at@[i as int]);
        let ghost before = out@;
        out.push((lists[place.list].source.clone(), place.rank));
        i += 1;
        assert(contribution_views(out@) =~= contribution_views(before).push(
            (lists@[place.list as int].source@, place.rank),
        ));
        assert(contributions_of(lists@, at@.take(i as int)) =~= contributions_of(
            lists@,
            at@.take(i - 1),
        ).push((lists@[place.list as int].source@, place.rank)));
    }
    assert(at@.take(i as int) =~= at@);
    out
}

/// Weighted reciprocal-rank fusion over different retrieval sources. Ranks are
/// combined, never scores, which cannot be compared across sources. `score` adds up
/// a unit's shares: for each place, the weight of the list divided by the constant
/// plus the rank. Equal scores are ordered by the unit's number.
pub fn reciprocal_rank_fusion<F: Fn(&Vec<(Score, usize)>) -> Score>(
    lists: &Vec<RankedList>,
    rrf_k: usize,
    score: &F,
) -> (r: Vec<FusedIndex>)
    requires
        forall|l: int|
            0 <= l < lists@.len() ==> rrf_k + (#[trigger] lists@[l]).indices@.len() <= usize::MAX,
        forall|terms: &Vec<(Score, usize)>| #[trigger] score.requires((terms,)),
    ensures
        is_fusion(r@, lists@, rrf_k, *score),
{
    let found = standings(lists);
    let mut scores: Vec<Score> = Vec::new();
    let mut keys: Vec<u64> = Vec::new();
    let mut numbers: Vec<usize> = Vec::new();
    let mut i: usize = 0;
    assert(lists.len() <= usize::MAX);
    while i < found.len()
        invariant
            i <= found@.len(),
            lists@.len() <= usize::MAX,
            is_standings(found@, lists@),
            forall|l: int|
                0 <= l < lists@.len() ==> rrf_k + (#[trigger] lists@[l]).indices@.len()
                    <= usize::MAX,
            forall|terms: &Vec<(Score, usize)>| #[trigger] score.requires((terms,)),
            scores@.len() == i,
            keys@.len() == i,
            numbers@.len() == i,
            forall|j: int| 0 <= j < i ==> (#[trigger] keys@[j]) == scores@[j].standing(),
            forall|j: int| 0 <= j < i ==> (#[trigger] numbers@[j]) == found@[j].index,
            forall|j: int|
                0 <= j < i ==> scored_as(
                    *score,
                    shares(lists@, rrf_k, found@[j].places@),
                    #[trigger] scores@[j],
                ),
        decreases found@.len() - i,
    {
        proof {
            assert(found@[i as int].places@ == places(lists@, found@[i as int].index));
            places_lie_in_the_lists(lists@, found@[i as int].index);
        }
        let terms = share_list(lists, rrf_k, &found[i].places);
        let value = score(&terms);
        assert(scored_as(*score, shares(lists@, rrf_k, found@[i as int].places@), value));
        scores.push(value);
        keys.push(value.key());
        numbers.push(found[i].index);
        i += 1;
    }
    let order = weight_order(&keys, &numbers);
    let mut hits: Vec<FusedIndex> = Vec::new();
    let mut k: usize = 0;
    while k < order.len()
        invariant
            k <= order@.len() == found@.len() == scores@.len() == keys@.len() == numbers@.len(),
            lists@.len() <= usize::MAX,
            is_standings(found@, lists@),
            forall|l: int|
                0 <= l < lists@.len() ==> rrf_k + (#[trigger] lists@[l]).indices@.len()
                    <= usize::MAX,
            is_weight_order(order@, keys@, numbers@, found@.len() as int),
            forall|j: int| 0 <= j < found@.len() ==> (#[trigger] numbers@[j]) == found@[j].index,
            forall|j: int|
                0 <= j < found@.len() ==> scored_as(
                    *score,
                    shares(lists@, rrf_k, found@[j].places@),
                    #[trigger] scores@[j],
                ),
            hits@.len() == k,
            forall|j: int|
                0 <= j < k ==> {
                    &&& (#[trigger] hits@[j]).index == found@[order@[j] as int].index
                    &&& hits@[j].score == scores@[order@[j] as int]
                    &&& is_fused(hits@[j], lists@, rrf_k, *score)
                },
        decreases order@.len() - k,
    {
        assert(0 <= order@[k as int] < found@.len());
        let at: usize = order[k];
        proof {
            assert(found@[at as int].places@ == places(lists@, found@[at as int].index));
            places_lie_in_the_lists(lists@, found@[at as int].index);
        }
        let contributions = contribution_list(lists, &found[at].places);
        let hit = FusedIndex { index: found[at].index, score: scores[at], contributions };
        assert(numbers@[at as int] == found@[at as int].index);
        assert(scored_as(
            *score,
            shares(lists@, rrf_k, found@[at as int].places@),
            scores@[at as int],
        ));
        hits.push(hit);
        k += 1;
    }
    proof {
        assert forall|index: usize| #[trigger] is_hit(hits@, index) == (places(
            lists@,
            index,
        ).len() > 0) by {
            if is_hit(hits@, index) {
                let j = choose|j: int| 0 <= j < hits@.len() && (#[trigger] hits@[j]).index == index;
                assert(found@[order@[j] as int].index == index);
                assert(0 <= order@[j] < found@.len());
            } else if stands(found@, index) {
                let m = choose|m: int|
                    0 <= m < found@.len() && (#[trigger] found@[m]).index == index;
                assert(order@.contains(m as usize));
                let j = choose|j: int| 0 <= j < order@.len() && order@[j] == m as usize;
                assert(hits@[j].index == index);
            }
        }
        assert forall|a: int, b: int| 0 <= a < b < hits@.len() implies fused_before(
            #[trigger] hits@[a],
            #[trigger] hits@[b],
        ) by {
            let x = order@[a] as int;
            let y = order@[b] as int;
            assert(0 <= order@[a] < found@.len() && 0 <= order@[b] < found@.len());
            assert(heavier_first(keys@, numbers@, x, y));
            assert(keys@[x] == scores@[x].standing() && keys@[y] == scores@[y].standing());
            assert(numbers@[x] == found@[x].index && numbers@[y] == found@[y].index);
            assert(x != y);
            assert(found@[x].index != found@[y].index) by {
                if x < y {
                    assert(found@[x].index != found@[y].index);
                } else {
                    assert(found@[y].index != found@[x].index);
                }
            }
        }
    }
    hits
}

proof fn places_in_are_standings(indices: Seq<usize>, list: int, index: usize)
    requires
        indices.len() <= usize::MAX,
        0 <= list <= usize::MAX,
    ensures
        forall|i: int|
            0 <= i < places_in(indices, list, index).len() ==> {
                let place = #[trigger] places_in(indices, list, index)[i];
                &&& place.list == list
                &&& 1 <= place.rank <= indices.len()
                &&& indices[place.rank - 1] == index
            },
        forall|i: int, j: int|
            0 <= i < j < places_in(indices, list, index).len() ==> (#[trigger] places_in(
                indices,
                list,
                index,
            )[i]).rank < (#[trigger] places_in(indices, list, index)[j]).rank,
        forall|r: int|
            1 <= r <= indices.len() && #[trigger] indices[r - 1] == index ==> places_in(
                indices,
                list,
                index,
            ).contains(Place { list: list as usize, rank: r as usize }),
    decreases indices.len(),
{
    if indices.len() > 0 {
        let front = indices.drop_last();
        places_in_are_standings(front, list, index);
        let before = places_in(front, list, index);
        let after = places_in(indices, list, index);
        assert forall|i: int| 0 <= i < after.len() implies {
            let place = #[trigger] after[i];
            &&& place.list == list
            &&& 1 <= place.rank <= indices.len()
            &&& indices[place.rank - 1] == index
        } by {
            if i < before.len() {
                assert(after[i] == before[i]);
            }
        }
        assert forall|r: int|
            1 <= r <= indices.len() && #[trigger] indices[r - 1] == index implies after.contains(
            Place { list: list as usize, rank: r as usize },
        ) by {
            let place = Place { list: list as usize, rank: r as usize };
            if r < indices.len() {
                assert(front[r - 1] == index);
                assert(before.contains(place));
                let i = choose|i: int| 0 <= i < before.len() && before[i] == place;
                assert(after[i] == place);
            } else {
                assert(after[after.len() - 1] == place);
            }
        }
    }
}

/// The list and the rank, counted from one, of every place where a unit stands, list by
/// list and rank by rank.
pub open spec fn stands_at(lists: Seq<RankedList>, index: usize, at: Seq<(int, int)>) -> bool {
    &&& forall|i: int|
        0 <= i < at.len() ==> 0 <= (#[trigger] at[i]).0 < lists.len() && 1 <= at[i].1
            <= lists[at[i].0].indices@.len() && lists[at[i].0].indices@[at[i].1 - 1] == index
    &&& forall|i: int, j: int|
        0 <= i < j < at.len() ==> (#[trigger] at[i]).0 < (#[trigger] at[j]).0 || (at[i].0 == at[j].0
            && at[i].1 < at[j].1)
    &&& forall|l: int, r: int|
        0 <= l < lists.len() && 1 <= r <= lists[l].indices@.len() && #[trigger] lists[l].indices@[r
            - 1] == index ==> at.contains((l, r))
}

/// The places as pairs.
spec fn place_pairs(at: Seq<Place>) -> Seq<(int, int)> {
    Seq::new(at.len(), |i: int| (at[i].list as int, at[i].rank as int))
}

proof fn places_are_standings(lists: Seq<RankedList>, index: usize)
    requires
        lists.len() <= usize::MAX,
        forall|l: int| 0 <= l < lists.len() ==> (#[trigger] lists[l]).indices@.len() <= usize::MAX,
    ensures
        stands_at(lists, index, place_pairs(places(lists, index))),
    decreases lists.len(),
{
    let all = places(lists, index);
    let at = place_pairs(all);
    if lists.len() > 0 {
        let front = lists.drop_last();
        let last = lists[lists.len() - 1].indices@;
        let n = lists.len() - 1;
        assert forall|l: int| 0 <= l < front.len() implies (#[trigger] front[l]).indices@.len()
            <= usize::MAX by {
            assert(front[l] == lists[l]);
        }
        places_are_standings(front, index);
        places_in_are_standings(last, n, index);
        let before = places(front, index);
        let own = places_in(last, n, index);
        let earlier = place_pairs(before);
        assert(all =~= before + own);
        assert forall|i: int| 0 <= i < at.len() implies 0 <= (#[trigger] at[i]).0 < lists.len() && 1
            <= at[i].1 <= lists[at[i].0].indices@.len() && lists[at[i].0].indices@[at[i].1 - 1]
            == index && (i < before.len() ==> at[i] == earlier[i] && at[i].0 < n) && (i
            >= before.len() ==> at[i].0 == n) by {
            if i < before.len() {
                assert(at[i] == earlier[i]);
                assert(front[at[i].0] == lists[at[i].0]);
            } else {
                assert(all[i] == own[i - before.len()]);
            }
        }
        assert forall|i: int, j: int| 0 <= i < j < at.len() implies (#[trigger] at[i]).0 < (
        #[trigger] at[j]).0 || (at[i].0 == at[j].0 && at[i].1 < at[j].1) by {
            if j < before.len() {
                assert(earlier[i] == at[i] && earlier[j] == at[j]);
            } else if i >= before.len() {
                assert(all[i] == own[i - before.len()] && all[j] == own[j - before.len()]);
            }
        }
        assert forall|l: int, r: int|
            0 <= l < lists.len() && 1 <= r <= lists[l].indices@.len()
                && #[trigger] lists[l].indices@[r - 1] == index implies at.contains((l, r)) by {
            if l < n {
                assert(front[l] == lists[l]);
                assert(front[l].indices@[r - 1] == index);
                assert(earlier.contains((l, r)));
                let i = choose|i: int| 0 <= i < earlier.len() && earlier[i] == (l, r);
                assert(at[i] == (l, r));
            } else {
                let place = Place { list: n as usize, rank: r as usize };
                assert(last[r - 1] == index);
                assert(own.contains(place));
                let i = choose|i: int| 0 <= i < own.len() && own[i] == place;
                assert(all[before.len() + i] == place);
                assert(at[before.len() + i] == (l, r));
            }
        }
    }
}

/// Each place of a unit is weighed with the weight of the list that the place is in: what
/// the scoring is given for a unit is, for every list and every rank at which the unit
/// stands there, exactly one pair of the list's weight and the constant plus the rank.
pub proof fn every_place_counts_with_its_own_list<F: Fn(&Vec<(Score, usize)>) -> Score>(
    hits: Seq<FusedIndex>,
    lists: Seq<RankedList>,
    rrf_k: usize,
    score: F,
    h: int,
)
    requires
        is_fusion(hits, lists, rrf_k, score),
        lists.len() <= usize::MAX,
        forall|l: int|
            0 <= l < lists.len() ==> rrf_k + (#[trigger] lists[l]).indices@.len() <= usize::MAX,
        0 <= h < hits.len(),
    ensures
        exists|at: Seq<(int, int)>, terms: Vec<(Score, usize)>|
            {
                &&& #[trigger] stands_at(lists, hits[h].index, at)
                &&& at.len() > 0
                &&& terms@.len() == at.len()
                &&& forall|i: int|
                    0 <= i < at.len() ==> (#[trigger] terms@[i]).0 == lists[at[i].0].weight
                        && terms@[i].1 == rrf_k + at[i].1
                &&& #[trigger] score.ensures((&terms,), hits[h].score)
                &&& hits[h].contributions@.len() == at.len()
                &&& forall|i: int|
                    0 <= i < at.len() ==> (#[trigger] hits[h].contributions@[i]).0@
                        == lists[at[i].0].source@ && hits[h].contributions@[i].1 == at[i].1
            },
{
    let index = hits[h].index;
    assert(is_fused(hits[h], lists, rrf_k, score));
    assert(is_hit(hits, index));
    let found = places(lists, index);
    let at = place_pairs(found);
    places_are_standings(lists, index);
    let value = hits[h].score;
    let terms = choose|list: Vec<(Score, usize)>|
        list@ == shares(lists, rrf_k, found) && #[trigger] score.ensures((&list,), value);
    assert forall|i: int| 0 <= i < at.len() implies (#[trigger] terms@[i]).0
        == lists[at[i].0].weight && terms@[i].1 == rrf_k + at[i].1 by {
        assert(terms@[i] == shares(lists, rrf_k, found)[i]);
        assert(0 <= at[i].0 < lists.len());
        assert(rrf_k + lists[at[i].0].indices@.len() <= usize::MAX);
    }
    let own = hits[h].contributions@;
    assert(contribution_views(own) == contributions_of(lists, found));
    assert(contribution_views(own).len() == found.len());
    assert forall|i: int| 0 <= i < at.len() implies (#[trigger] own[i]).0@ == lists[at[i].0].source@
        && own[i].1 == at[i].1 by {
        assert(contribution_views(own)[i] == contributions_of(lists, found)[i]);
    }
    assert(stands_at(lists, index, at));
    assert(score.ensures((&terms,), value));
}

/// A unit is a hit exactly where some list holds it, and it is a hit once. Better scores
/// come first, and of equal ones the unit with the smaller number.
pub proof fn hits_are_what_the_lists_hold<F: Fn(&Vec<(Score, usize)>) -> Score>(
    hits: Seq<FusedIndex>,
    lists: Seq<RankedList>,
    rrf_k: usize,
    score: F,
    index: usize,
)
    requires
        is_fusion(hits, lists, rrf_k, score),
        lists.len() <= usize::MAX,
        forall|l: int| 0 <= l < lists.len() ==> (#[trigger] lists[l]).indices@.len() <= usize::MAX,
    ensures
        (exists|h: int| 0 <= h < hits.len() && (#[trigger] hits[h]).index == index) == (exists|
            l: int,
            r: int,
        |
            0 <= l < lists.len() && 0 <= r < lists[l].indices@.len()
                && #[trigger] lists[l].indices@[r] == index),
        forall|g: int, h: int|
            0 <= g < h < hits.len() ==> {
                &&& (#[trigger] hits[g]).index != (#[trigger] hits[h]).index
                &&& hits[g].score.standing() >= hits[h].score.standing()
                &&& hits[g].score == hits[h].score ==> hits[g].index < hits[h].index
            },
{
    let found = places(lists, index);
    let at = place_pairs(found);
    places_are_standings(lists, index);
    assert(is_hit(hits, index) == (found.len() > 0));
    if found.len() > 0 {
        let (l, r) = at[0];
        assert(lists[l].indices@[r - 1] == index);
    }
    if exists|l: int, r: int|
        0 <= l < lists.len() && 0 <= r < lists[l].indices@.len() && #[trigger] lists[l].indices@[r]
            == index {
        let (l, r) = choose|l: int, r: int|
            0 <= l < lists.len() && 0 <= r < lists[l].indices@.len()
                && #[trigger] lists[l].indices@[r] == index;
        assert(lists[l].indices@[(r + 1) - 1] == index);
        assert(at.contains((l, r + 1)));
    }
    assert forall|g: int, h: int| 0 <= g < h < hits.len() implies {
        &&& (#[trigger] hits[g]).index != (#[trigger] hits[h]).index
        &&& hits[g].score.standing() >= hits[h].score.standing()
        &&& hits[g].score == hits[h].score ==> hits[g].index < hits[h].index
    } by {
        assert(fused_before(hits[g], hits[h]));
    }
}

} // verus!
