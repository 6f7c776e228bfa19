//! Ranking by score.
use crate::order::{is_weight_order, weight_order};
use vstd::prelude::*;

verus! {

/// A score: the bits of a single-precision number.
#[derive(Debug, Clone, Copy, PartialEq, Eq, Structural)]
pub struct Score {
    pub bits: u32,
}

impl Score {
    /// What is left of the bits without the sign.
    pub open spec fn magnitude(self) -> int {
        if self.bits < 0x8000_0000 {
            self.bits as int
        } else {
            self.bits - 0x8000_0000
        }
    }

    /// The score is no number.
    pub open spec fn undefined(self) -> bool {
        self.magnitude() > 0x7f80_0000
    }

    /// Where the score stands among all bit patterns in the total order of
    /// numbers, in which negative zero stands below zero and a pattern that is no
    /// number beyond the infinities.
    pub open spec fn standing(self) -> u64 {
        if self.bits < 0x8000_0000 {
            (0x8000_0000 + self.magnitude()) as u64
        } else {
            (0x7fff_ffff - self.magnitude()) as u64
        }
    }

    /// Both are numbers and this one is not smaller; the two zeros are equal.
    pub open spec fn reaches(self, threshold: Score) -> bool {
        let value = |score: Score|
            if score.bits < 0x8000_0000 {
                score.magnitude()
            } else {
                -score.magnitude()
            };
        !self.undefined() && !threshold.undefined() && value(self) >= value(threshold)
    }

    /// The key by which scores are ordered.
    pub fn key(self) -> (r: u64)
        ensures
            r == self.standing(),
    {
        if self.bits < 0x8000_0000 {
            0x8000_0000 + self.bits as u64
        } else {
            0x7fff_ffff - (self.bits - 0x8000_0000) as u64
        }
    }

    fn value(self) -> (r: i64)
        ensures
            r == if self.bits < 0x8000_0000 {
                self.magnitude()
            } else {
                -self.magnitude()
            },
    {
        if self.bits < 0x8000_0000 {
            self.bits as i64
        } else {
            -((self.bits - 0x8000_0000) as i64)
        }
    }

    /// Whether the score is a number and at least the threshold.
    pub fn at_least(self, threshold: Score) -> (r: bool)
        ensures
            r == self.reaches(threshold),
    {
        let own: i64 = self.value();
        let other: i64 = threshold.value();
        -0x7f80_0000 <= own && own <= 0x7f80_0000 && -0x7f80_0000 <= other && other <= 0x7f80_0000
            && own >= other
    }
}

/// A unit's number and its score.
#[derive(Debug, Clone, Copy, PartialEq, Eq, Structural)]
pub struct ScoredIndex {
    pub index: usize,
    pub score: Score,
}

/// The candidates whose score reaches the threshold.
pub open spec fn reaching(candidates: Seq<ScoredIndex>, threshold: Score) -> Seq<ScoredIndex>
    decreases candidates.len(),
{
    if candidates.len() == 0 {
        Seq::empty()
    } else {
        let before = reaching(candidates.drop_last(), threshold);
        if candidates.last().score.reaches(threshold) {
            before.push(candidates.last())
        } else {
            before
        }
    }
}

/// The keys of scored units.
pub open spec fn standings_of(scored: Seq<ScoredIndex>) -> Seq<u64> {
    Seq::new(scored.len(), |i: int| scored[i].score.standing())
}

/// The numbers of scored units.
pub open spec fn indices_of(scored: Seq<ScoredIndex>) -> Seq<usize> {
    Seq::new(scored.len(), |i: int| scored[i].index)
}

/// The items in the given order.
pub open spec fn arranged<A>(items: Seq<A>, order: Seq<usize>) -> Seq<A> {
    Seq::new(order.len(), |i: int| items[order[i] as int])
}

/// `ranked` holds the scored units, the best first and equal ones by number.
pub open spec fn is_ranking(ranked: Seq<ScoredIndex>, scored: Seq<ScoredIndex>) -> bool {
    exists|order: Seq<usize>|
        #[trigger] is_weight_order(
            order,
            standings_of(scored),
            indices_of(scored),
            scored.len() as int,
        ) && ranked == arranged(scored, order)
}

/// Candidates whose score reaches the threshold, the best first; equal scores are
/// ordered by the unit's number.
pub fn rank_candidates(candidates: &Vec<ScoredIndex>, threshold: Score) -> (r: Vec<ScoredIndex>)
    ensures
        is_ranking(r@, reaching(candidates@, threshold)),
{
    let mut kept: Vec<ScoredIndex> = Vec::new();
    let mut keys: Vec<u64> = Vec::new();
    let mut numbers: Vec<usize> = Vec::new();
    let mut i: usize = 0;
    assert(kept@ =~= reaching(candidates@.take(0), threshold));
    while i < candidates.len()
        invariant
            i <= candidates@.len(),
            kept@ == reaching(candidates@.take(i as int), threshold),
            keys@ == standings_of(kept@),
            numbers@ == indices_of(kept@),
        decreases candidates@.len() - i,
    {
        assert(candidates@.take(i + 1).drop_last() =~= candidates@.take(i as int));
        if candidates[i].score.at_least(threshold) {
            kept.push(candidates[i]);
            keys.push(candidates[i].score.key());
            numbers.push(candidates[i].index);
            assert(keys@ =~= standings_of(kept@));
            assert(numbers@ =~= indices_of(kept@));
        }
        i += 1;
    }
    assert(candidates@.take(i as int) =~= candidates@);
    let order = weight_order(&keys, &numbers);
    let mut ranked: Vec<ScoredIndex> = Vec::new();
    let mut k: usize = 0;
    while k < order.len()
        invariant
            k <= order@.len(),
            is_weight_order(order@, keys@, numbers@, kept@.len() as int),
            ranked@ == arranged(kept@, order@.take(k as int)),
        decreases order@.len() - k,
    {
        assert(0 <= order@[k as int] < kept@.len());
        ranked.push(kept[order[k]]);
        k += 1;
        assert(ranked@ =~= arranged(kept@, order@.take(k as int)));
    }
    assert(order@.take(k as int) =~= order@);
    assert(is_weight_order(
        order@,
        standings_of(kept@),
        indices_of(kept@),
        kept@.len() as int,
    ));
    ranked
}

/// The order of the keys is the order of the numbers: a number above another has
/// the larger key.
pub proof fn keys_order_numbers(a: Score, b: Score)
    requires
        a.reaches(b),
        !b.reaches(a),
    ensures
        a.standing() > b.standing(),
{
}

/// A better candidate comes before a worse one, and of two equally good ones the
/// one with the smaller number.
pub proof fn better_candidates_come_first(
    candidates: Seq<ScoredIndex>,
    threshold: Score,
    ranked: Seq<ScoredIndex>,
    i: int,
    j: int,
)
    requires
        is_ranking(ranked, reaching(candidates, threshold)),
        0 <= i < j < ranked.len(),
    ensures
        ranked[i].score.standing() >= ranked[j].score.standing(),
        ranked[i].score == ranked[j].score ==> ranked[i].index <= ranked[j].index,
{
    let scored = reaching(candidates, threshold);
    let order = choose|order: Seq<usize>|
        #[trigger] is_weight_order(
            order,
            standings_of(scored),
            indices_of(scored),
            scored.len() as int,
        ) && ranked == arranged(scored, order);
    assert(0 <= order[i] < scored.len() && 0 <= order[j] < scored.len());
}

/// What is ranked is what reaches the threshold: each of those candidates, and nothing
/// else.
pub proof fn what_reaches_the_threshold_is_ranked(
    candidates: Seq<ScoredIndex>,
    threshold: Score,
    ranked: Seq<ScoredIndex>,
    candidate: ScoredIndex,
)
    requires
        is_ranking(ranked, reaching(candidates, threshold)),
        candidates.len() <= usize::MAX,
    ensures
        ranked.contains(candidate) == (candidates.contains(candidate) && candidate.score.reaches(
            threshold,
        )),
        ranked.len() <= candidates.len(),
{
    let scored = reaching(candidates, threshold);
    let order = choose|order: Seq<usize>|
        #[trigger] is_weight_order(
            order,
            standings_of(scored),
            indices_of(scored),
            scored.len() as int,
        ) && ranked == arranged(scored, order);
    reaching_holds(candidates, threshold, candidate);
    if ranked.contains(candidate) {
        let i = choose|i: int| 0 <= i < ranked.len() && ranked[i] == candidate;
        assert(0 <= order[i] < scored.len());
        assert(scored[order[i] as int] == candidate);
        assert(scored.contains(candidate));
    }
    if scored.contains(candidate) {
        let k = choose|k: int| 0 <= k < scored.len() && scored[k] == candidate;
        assert(order.contains(k as usize));
        let i = choose|i: int| 0 <= i < order.len() && order[i] == k as usize;
        assert(ranked[i] == candidate);
    }
}

proof fn reaching_holds(candidates: Seq<ScoredIndex>, threshold: Score, candidate: ScoredIndex)
    ensures
        reaching(candidates, threshold).contains(candidate) == (candidates.contains(candidate)
            && candidate.score.reaches(threshold)),
        reaching(candidates, threshold).len() <= candidates.len(),
    decreases candidates.len(),
{
    if candidates.len() > 0 {
        let front = candidates.drop_last();
        reaching_holds(front, threshold, candidate);
        let before = reaching(front, threshold);
        let after = reaching(candidates, threshold);
        if before.contains(candidate) {
            let i = choose|i: int| 0 <= i < before.len() && before[i] == candidate;
            assert(after[i] == candidate);
        }
        if front.contains(candidate) {
            let i = choose|i: int| 0 <= i < front.len() && front[i] == candidate;
            assert(candidates[i] == candidate);
        }
        if candidates.contains(candidate) && !front.contains(candidate) {
            let i = choose|i: int| 0 <= i < candidates.len() && candidates[i] == candidate;
            if i < front.len() {
                assert(front[i] == candidate);
            }
            if candidate.score.reaches(threshold) {
                assert(after[after.len() - 1] == candidate);
            }
        }
        if after.contains(candidate) && !before.contains(candidate) {
            let i = choose|i: int| 0 <= i < after.len() && after[i] == candidate;
            if i < before.len() {
                assert(before[i] == candidate);
            }
            assert(candidate == candidates.last());
            assert(candidates[candidates.len() - 1] == candidate);
        }
    }
}

/// Scores are compared as the numbers that they are: of two positive ones the one of greater
/// magnitude is greater, of two negative ones the one of smaller, zero is zero with either
/// sign, and what is no number neither reaches nor is reached.
pub proof fn scores_are_compared_as_numbers(a: Score, b: Score)
    ensures
        a.undefined() || b.undefined() ==> !a.reaches(b),
        !a.undefined() ==> a.reaches(a),
        !a.undefined() && !b.undefined() ==> {
            let (positive_a, positive_b) = (a.bits < 0x8000_0000, b.bits < 0x8000_0000);
            &&& positive_a && positive_b ==> (a.reaches(b) <==> a.bits >= b.bits)
            &&& !positive_a && !positive_b ==> (a.reaches(b) <==> a.bits <= b.bits)
            &&& positive_a && !positive_b ==> a.reaches(b)
            &&& !positive_a && positive_b ==> (a.reaches(b) <==> a.bits == 0x8000_0000 && b.bits
                == 0)
        },
        a.undefined() <==> 0x7f80_0000 < a.bits < 0x8000_0000 || a.bits > 0xff80_0000,
{
}

/// No two scores stand alike.
pub proof fn standings_tell_scores_apart(a: Score, b: Score)
    ensures
        a.standing() == b.standing() ==> a.bits == b.bits,
        a.standing() < 0x1_0000_0000,
{
}

} // verus!
