//! Token-length statistics.
use vstd::prelude::*;

verus! {

/// The sum of a list of lengths.
pub open spec fn total(lengths: Seq<usize>) -> int
    decreases lengths.len(),
{
    if lengths.len() == 0 {
        0
    } else {
        total(lengths.drop_last()) + lengths.last()
    }
}

/// The greatest of a list of lengths, zero for none.
pub open spec fn greatest(lengths: Seq<usize>) -> int
    decreases lengths.len(),
{
    if lengths.len() == 0 {
        0
    } else {
        let before = greatest(lengths.drop_last());
        if before >= lengths.last() {
            before
        } else {
            lengths.last() as int
        }
    }
}

/// How many lengths are at least `bound`.
pub open spec fn at_least(lengths: Seq<usize>, bound: int) -> int
    decreases lengths.len(),
{
    if lengths.len() == 0 {
        0
    } else {
        at_least(lengths.drop_last(), bound) + if lengths.last() >= bound {
            1int
        } else {
            0
        }
    }
}

proof fn at_least_bounds(lengths: Seq<usize>, bound: int)
    ensures
        0 <= at_least(lengths, bound) <= lengths.len(),
    decreases lengths.len(),
{
    if lengths.len() > 0 {
        at_least_bounds(lengths.drop_last(), bound);
    }
}

proof fn total_of_take(lengths: Seq<usize>, k: int)
    requires
        0 <= k <= lengths.len(),
    ensures
        0 <= total(lengths.take(k)) <= total(lengths),
    decreases lengths.len() - k,
{
    if k < lengths.len() {
        total_of_take(lengths, k + 1);
        assert(lengths.take(k + 1).drop_last() =~= lengths.take(k));
        total_nonnegative(lengths.take(k));
    } else {
        assert(lengths.take(k) =~= lengths);
        total_nonnegative(lengths);
    }
}

proof fn total_nonnegative(lengths: Seq<usize>)
    ensures
        total(lengths) >= 0,
    decreases lengths.len(),
{
    if lengths.len() > 0 {
        total_nonnegative(lengths.drop_last());
    }
}

/// Distribution of input token lengths plus padding/truncation costs, using the
/// same counts the batch packer budgets with.
#[derive(Debug)]
pub struct TokenStats {
    pub lengths: Vec<usize>,
    /// Inputs at the model's truncation length (content beyond it is lost).
    pub truncated: usize,
    /// Sum of real token positions across inputs.
    pub token_positions: u64,
    /// Sum of padded positions actually materialized per batch
    /// (`batch_len * longest_in_batch`).
    pub padded_positions: u64,
}

impl Default for TokenStats {
    fn default() -> (r: Self)
        ensures
            r.wf(),
            r.lengths@.len() == 0,
            r.truncated == 0,
            r.token_positions == 0,
            r.padded_positions == 0,
    {
        Self { lengths: Vec::new(), truncated: 0, token_positions: 0, padded_positions: 0 }
    }
}

impl TokenStats {
    /// No more inputs are truncated than there are.
    pub open spec fn wf(&self) -> bool {
        self.truncated <= self.lengths@.len()
    }

    /// Adds a batch: its inputs are padded to the longest.
    pub fn record_batch(&mut self, tokens: &Vec<usize>, max_len: usize)
        requires
            old(self).wf(),
            old(self).token_positions + total(tokens@) <= u64::MAX,
            old(self).padded_positions + tokens@.len() * greatest(tokens@) <= u64::MAX,
        ensures
            final(self).wf(),
            final(self).lengths@ == old(self).lengths@ + tokens@,
            final(self).truncated == old(self).truncated + at_least(tokens@, max_len as int),
            final(self).token_positions == old(self).token_positions + total(tokens@),
            final(self).padded_positions == old(self).padded_positions + tokens@.len() * greatest(
                tokens@,
            ),
    {
        let ghost pre = *self;
        let mut longest: usize = 0;
        let mut i: usize = 0;
        assert(self.lengths@ + tokens@.take(0) =~= self.lengths@);
        while i < tokens.len()
            invariant
                i <= tokens@.len(),
                pre == *old(self),
                pre.wf(),
                pre.token_positions + total(tokens@) <= u64::MAX,
                longest == greatest(tokens@.take(i as int)),
                self.lengths@ == pre.lengths@ + tokens@.take(i as int),
                self.truncated == pre.truncated + at_least(tokens@.take(i as int), max_len as int),
                self.token_positions == pre.token_positions + total(tokens@.take(i as int)),
                self.padded_positions == pre.padded_positions,
            decreases tokens@.len() - i,
        {
            let t: usize = tokens[i];
            proof {
                assert(tokens@.take(i + 1).drop_last() =~= tokens@.take(i as int));
                total_of_take(tokens@, i + 1);
                at_least_bounds(tokens@.take(i as int), max_len as int);
                assert((pre.lengths@ + tokens@.take(i as int)).push(t) =~= pre.lengths@
                    + tokens@.take(i + 1));
            }
            if t > longest {
                longest = t;
            }
            self.lengths.push(t);
            self.token_positions = self.token_positions + t as u64;
            if t >= max_len {
                assert(self.lengths@.len() == self.lengths.len());
                self.truncated = self.truncated + 1;
            }
            i += 1;
        }
        assert(tokens@.take(i as int) =~= tokens@);
        proof {
            at_least_bounds(tokens@, max_len as int);
            assert(tokens@.len() * greatest(tokens@) >= 0) by (nonlinear_arith)
                requires
                    tokens@.len() >= 0,
                    greatest(tokens@) >= 0,
            ;
        }
        self.padded_positions = self.padded_positions + tokens.len() as u64 * longest as u64;
    }

    /// Record one input's true (untruncated) token length for distribution
    /// reporting. This tracks no padding: the input is being measured, not
    /// batched, so over-cap counts come from `over` instead.
    pub fn record_length(&mut self, tokens: usize)
        requires
            old(self).wf(),
            old(self).token_positions + tokens <= u64::MAX,
        ensures
            final(self).wf(),
            final(self).lengths@ == old(self).lengths@.push(tokens),
            final(self).truncated == old(self).truncated,
            final(self).token_positions == old(self).token_positions + tokens,
            final(self).padded_positions == old(self).padded_positions,
    {
        self.lengths.push(tokens);
        self.token_positions = self.token_positions + tokens as u64;
    }

    /// Fold another distribution into this one (for an all-languages total).
    pub fn merge(&mut self, other: &TokenStats)
        requires
            old(self).wf(),
            other.wf(),
            old(self).token_positions + other.token_positions <= u64::MAX,
            old(self).padded_positions + other.padded_positions <= u64::MAX,
        ensures
            final(self).wf(),
            final(self).lengths@ == old(self).lengths@ + other.lengths@,
            final(self).truncated == old(self).truncated + other.truncated,
            final(self).token_positions == old(self).token_positions + other.token_positions,
            final(self).padded_positions == old(self).padded_positions + other.padded_positions,
    {
        let ghost pre = *self;
        let mut i: usize = 0;
        assert(self.lengths@ + other.lengths@.take(0) =~= self.lengths@);
        while i < other.lengths.len()
            invariant
                i <= other.lengths@.len(),
                self.lengths@ == pre.lengths@ + other.lengths@.take(i as int),
                *self == (TokenStats { lengths: self.lengths, ..pre }),
            decreases other.lengths@.len() - i,
        {
            assert((pre.lengths@ + other.lengths@.take(i as int)).push(other.lengths@[i as int])
                =~= pre.lengths@ + other.lengths@.take(i + 1));
            self.lengths.push(other.lengths[i]);
            i += 1;
        }
        assert(other.lengths@.take(i as int) =~= other.lengths@);
        assert(self.lengths@.len() == self.lengths.len());
        self.truncated = self.truncated + other.truncated;
        self.token_positions = self.token_positions + other.token_positions;
        self.padded_positions = self.padded_positions + other.padded_positions;
    }

    /// Inputs strictly longer than `threshold` tokens: the content a model
    /// capped at `threshold` would silently drop.
    pub fn over(&self, threshold: usize) -> (r: usize)
        ensures
            r == at_least(self.lengths@, threshold + 1),
    {
        let mut count: usize = 0;
        let mut i: usize = 0;
        while i < self.lengths.len()
            invariant
                i <= self.lengths@.len(),
                count <= i,
                count == at_least(self.lengths@.take(i as int), threshold + 1),
            decreases self.lengths@.len() - i,
        {
            assert(self.lengths@.take(i + 1).drop_last() =~= self.lengths@.take(i as int));
            if self.lengths[i] > threshold {
                count += 1;
            }
            i += 1;
        }
        assert(self.lengths@.take(i as int) =~= self.lengths@);
        count
    }

    pub fn max(&self) -> (r: usize)
        ensures
            r == greatest(self.lengths@),
    {
        let mut best: usize = 0;
        let mut i: usize = 0;
        while i < self.lengths.len()
            invariant
                i <= self.lengths@.len(),
                best == greatest(self.lengths@.take(i as int)),
            decreases self.lengths@.len() - i,
        {
            assert(self.lengths@.take(i + 1).drop_last() =~= self.lengths@.take(i as int));
            if self.lengths[i] > best {
                best = self.lengths[i];
            }
            i += 1;
        }
        assert(self.lengths@.take(i as int) =~= self.lengths@);
        best
    }

    pub fn count(&self) -> (r: usize)
        ensures
            r == self.lengths@.len(),
    {
        self.lengths.len()
    }

    /// The length that stands at `rank` when the lengths are sorted upwards; the
    /// last one for a greater rank, zero where there is none.
    pub fn length_at_rank(&self, rank: usize) -> (r: usize)
        ensures
            self.lengths@.len() == 0 ==> r == 0,
            self.lengths@.len() > 0 ==> is_at_rank(
                self.lengths@,
                if rank < self.lengths@.len() {
                    rank as int
                } else {
                    self.lengths@.len() - 1
                },
                r,
            ),
    {
        if self.lengths.len() == 0 {
            return 0;
        }
        let target: usize = if rank < self.lengths.len() {
            rank
        } else {
            self.lengths.len() - 1
        };
        let mut i: usize = 0;
        while i < self.lengths.len()
            invariant
                i <= self.lengths@.len(),
                target < self.lengths@.len(),
                target == if rank < self.lengths@.len() {
                    rank as int
                } else {
                    self.lengths@.len() - 1
                },
                forall|j: int|
                    0 <= j < i ==> !is_at_rank(
                        self.lengths@,
                        target as int,
                        #[trigger] self.lengths@[j],
                    ),
            decreases self.lengths@.len() - i,
        {
            let value: usize = self.lengths[i];
            proof {
                at_least_bounds(self.lengths@, value + 1);
                assert(self.lengths@.contains(value));
            }
            let below: usize = self.below(value);
            let not_above: usize = self.lengths.len() - self.over(value);
            if below <= target && target < not_above {
                return value;
            }
            i += 1;
        }
        proof {
            some_length_is_at_rank(self.lengths@, target as int);
        }
        0
    }

    fn below(&self, value: usize) -> (r: usize)
        ensures
            r == self.lengths@.len() - at_least(self.lengths@, value as int),
            r <= self.lengths@.len(),
    {
        proof {
            at_least_bounds(self.lengths@, value as int);
        }
        if value == 0 {
            proof {
                all_at_least_zero(self.lengths@);
            }
            0
        } else {
            let rest: usize = self.over(value - 1);
            self.lengths.len() - rest
        }
    }
}

proof fn all_at_least_zero(lengths: Seq<usize>)
    ensures
        at_least(lengths, 0) == lengths.len(),
    decreases lengths.len(),
{
    if lengths.len() > 0 {
        all_at_least_zero(lengths.drop_last());
    }
}

proof fn none_beyond(lengths: Seq<usize>)
    ensures
        at_least(lengths, usize::MAX + 1) == 0,
    decreases lengths.len(),
{
    if lengths.len() > 0 {
        none_beyond(lengths.drop_last());
    }
}

proof fn counted_once_more(lengths: Seq<usize>, value: usize)
    ensures
        at_least(lengths, value + 1) <= at_least(lengths, value as int),
        at_least(lengths, value + 1) < at_least(lengths, value as int) ==> lengths.contains(value),
    decreases lengths.len(),
{
    if lengths.len() > 0 {
        let rest = lengths.drop_last();
        counted_once_more(rest, value);
        if lengths.last() == value {
            assert(lengths[lengths.len() - 1] == value);
        }
        if rest.contains(value) {
            let i = choose|i: int| 0 <= i < rest.len() && rest[i] == value;
            assert(lengths[i] == value);
        }
    }
}

proof fn rank_search(lengths: Seq<usize>, rank: int, from: usize)
    requires
        0 <= rank < lengths.len(),
        lengths.len() - at_least(lengths, from as int) <= rank,
    ensures
        exists|value: usize| #[trigger] is_at_rank(lengths, rank, value),
    decreases usize::MAX - from,
{
    counted_once_more(lengths, from);
    if rank < lengths.len() - at_least(lengths, from + 1) {
        assert(is_at_rank(lengths, rank, from));
    } else if from < usize::MAX {
        rank_search(lengths, rank, (from + 1) as usize);
    } else {
        none_beyond(lengths);
    }
}

/// Every rank has a length.
proof fn some_length_is_at_rank(lengths: Seq<usize>, rank: int)
    requires
        0 <= rank < lengths.len(),
    ensures
        exists|i: int|
            0 <= i < lengths.len() && is_at_rank(lengths, rank, #[trigger] lengths[i]),
{
    all_at_least_zero(lengths);
    rank_search(lengths, rank, 0);
    let value = choose|value: usize| #[trigger] is_at_rank(lengths, rank, value);
    let i = choose|i: int| 0 <= i < lengths.len() && lengths[i] == value;
    assert(is_at_rank(lengths, rank, lengths[i]));
}

/// `value` stands at `rank` when the lengths are sorted upwards: it is one of
/// them, no more than `rank` of them are less, and more than `rank` are not
/// greater.
pub open spec fn is_at_rank(lengths: Seq<usize>, rank: int, value: usize) -> bool {
    &&& lengths.contains(value)
    &&& lengths.len() - at_least(lengths, value as int) <= rank
    &&& rank < lengths.len() - at_least(lengths, value + 1)
}

/// The total of two lists is the sum of their totals, the greatest is one of the lengths and
/// none is above it, and what is at least a bound is counted in each part of a list.
pub proof fn lengths_are_summed_up(left: Seq<usize>, right: Seq<usize>, bound: int)
    ensures
        total(left + right) == total(left) + total(right),
        at_least(left + right, bound) == at_least(left, bound) + at_least(right, bound),
        forall|i: int| 0 <= i < left.len() ==> #[trigger] left[i] <= greatest(left),
        left.len() > 0 ==> exists|i: int|
            0 <= i < left.len() && #[trigger] left[i] == greatest(left),
        left.len() == 1 ==> total(left) == left[0] && at_least(left, bound) == if left[0] >= bound {
            1int
        } else {
            0
        },
    decreases left.len() + right.len(),
{
    if right.len() > 0 {
        lengths_are_summed_up(left, right.drop_last(), bound);
        assert((left + right).drop_last() =~= left + right.drop_last());
        assert((left + right).last() == right.last());
    } else {
        assert(left + right =~= left);
        if left.len() > 0 {
            let front = left.drop_last();
            lengths_are_summed_up(front, right, bound);
            if greatest(left) == left.last() {
                assert(left[left.len() - 1] == greatest(left));
            } else {
                let i = choose|i: int| 0 <= i < front.len() && #[trigger] front[i] == greatest(front);
                assert(left[i] == greatest(left));
            }
            assert forall|i: int| 0 <= i < left.len() implies #[trigger] left[i] <= greatest(
                left,
            ) by {
                if i < front.len() {
                    assert(front[i] == left[i]);
                }
            }
            if left.len() == 1 {
                assert(front.len() == 0);
                assert(total(front) == 0 && at_least(front, bound) == 0);
            }
        }
    }
}

/// As many lengths are at least a bound as there are, where the least of them is; none is,
/// where the greatest is below it.
pub proof fn lengths_are_told_apart_by_a_bound(lengths: Seq<usize>, bound: int)
    ensures
        0 <= at_least(lengths, bound) <= lengths.len(),
        (forall|i: int| 0 <= i < lengths.len() ==> #[trigger] lengths[i] >= bound) <==> at_least(
            lengths,
            bound,
        ) == lengths.len(),
        (forall|i: int| 0 <= i < lengths.len() ==> #[trigger] lengths[i] < bound) <==> at_least(
            lengths,
            bound,
        ) == 0,
    decreases lengths.len(),
{
    if lengths.len() > 0 {
        let front = lengths.drop_last();
        lengths_are_told_apart_by_a_bound(front, bound);
        assert forall|i: int| 0 <= i < front.len() implies #[trigger] lengths[i] == front[i] by {}
        assert(lengths[lengths.len() - 1] == lengths.last());
        if forall|i: int| 0 <= i < lengths.len() ==> #[trigger] lengths[i] >= bound {
            assert forall|i: int| 0 <= i < front.len() implies #[trigger] front[i] >= bound by {
                assert(lengths[i] == front[i]);
            }
        }
        if forall|i: int| 0 <= i < lengths.len() ==> #[trigger] lengths[i] < bound {
            assert forall|i: int| 0 <= i < front.len() implies #[trigger] front[i] < bound by {
                assert(lengths[i] == front[i]);
            }
        }
    }
}

/// The length at a rank is one of the lengths: no more lengths than the rank are below it,
/// and more than the rank are not above it.
pub proof fn a_rank_parts_the_lengths(lengths: Seq<usize>, rank: int, value: usize)
    requires
        is_at_rank(lengths, rank, value),
    ensures
        lengths.contains(value),
        lengths.len() - at_least(lengths, value as int) <= rank,
        rank < lengths.len() - at_least(lengths, value + 1),
        rank == 0 ==> forall|i: int| 0 <= i < lengths.len() ==> #[trigger] lengths[i] >= value,
        rank == lengths.len() - 1 ==> forall|i: int|
            0 <= i < lengths.len() ==> #[trigger] lengths[i] <= value,
{
    lengths_are_told_apart_by_a_bound(lengths, value as int);
    lengths_are_told_apart_by_a_bound(lengths, value + 1);
}

/// Lengths over a threshold are those above it: none is where all are within it.
pub proof fn lengths_over_a_threshold_are_above_it(stats: TokenStats, threshold: usize, r: usize)
    requires
        call_ensures(TokenStats::over, (&stats, threshold), r),
    ensures
        r == 0 <==> forall|i: int|
            0 <= i < stats.lengths@.len() ==> #[trigger] stats.lengths@[i] <= threshold,
        r == stats.lengths@.len() <==> forall|i: int|
            0 <= i < stats.lengths@.len() ==> #[trigger] stats.lengths@[i] > threshold,
{
    lengths_are_told_apart_by_a_bound(stats.lengths@, threshold + 1);
}

} // verus!
