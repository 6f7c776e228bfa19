//! One embedding space, embedded page by page.
use crate::embedding::batches::{are_bounds, batch_bounds, is_batch, BatchLimits, SizedText};
use crate::embedding::tokens::{at_least, greatest, total, TokenStats};
use crate::indexer::embed::{
    add_recovered, longest_first, missing_rows, recovered_rows, sort_longest_first, split_page,
    stored_rows, EmbedStats, PendingText,
};
use crate::text::{lex_less, opt_view};
use crate::text_map::{key_at, TextMap};
use vstd::prelude::*;

verus! {

/// The limits that an embedding run works within.
#[derive(Debug, Clone, Copy, PartialEq, Eq, Structural)]
pub struct EmbedLimits {
    pub batch_size: usize,
    pub max_batch_chars: usize,
    pub max_batch_token_area: usize,
    /// Tokens per input that the model attends to.
    pub max_sequence_length: usize,
    /// The width that every vector must have.
    pub dimensions: usize,
}

/// Where an embedding run stands.
#[derive(Debug, Clone, Copy, PartialEq, Eq, Structural)]
pub enum EmbedStage {
    /// Waits for the next page of pending hashes.
    Paging,
    /// Waits for the texts that are not stored.
    Recovering,
    /// Waits for the token counts of the page's texts.
    Counting,
    /// Waits for the vectors of a batch.
    Embedding { batch: usize },
    /// Waits for vectors to be stored; whether the next one was too wide or too
    /// narrow.
    Storing { batch: usize, stored: usize, misfit: Option<usize> },
    Finished,
}

/// What the store and the model did.
#[derive(Debug)]
pub enum EmbedEvent {
    Page(Vec<PendingText>),
    /// The text of each missing hash, where it could be recovered.
    Recovered(Vec<Option<String>>),
    /// The tokens of each text, where the model can count them.
    Counted(Vec<Option<usize>>),
    /// The width of each vector that the model returned.
    Vectors(Vec<usize>),
    Stored,
}

/// Why an embedding run stops.
#[derive(Debug, Clone, Copy, PartialEq, Eq, Structural)]
pub enum EmbedFault {
    /// The model returned another number of vectors than it got inputs.
    VectorCount { returned: usize, inputs: usize },
    /// A vector has another width than the space.
    Dimensions { returned: usize, expected: usize },
    /// The counts no longer fit.
    Overflow,
}

/// What the store and the model are to do next.
#[derive(Debug, Clone, Copy, PartialEq, Eq, Structural)]
pub enum EmbedAction {
    /// Load the page of pending hashes after the last one seen.
    LoadPage,
    /// Recover the missing texts.
    Recover,
    /// Count the tokens of the resolved texts.
    CountTokens,
    /// Embed the items `from..to`.
    Embed { from: usize, to: usize },
    /// Store the vectors of the items `from..to`.
    Store { from: usize, to: usize },
    Done,
    Fail(EmbedFault),
    /// The event does not answer the last action.
    Rejected,
}

/// An embedding run between two actions.
#[derive(Debug)]
pub struct EmbedMachine {
    pub limits: EmbedLimits,
    pub stage: EmbedStage,
    /// The last hash of the last page.
    pub after_hash: Option<String>,
    /// The page's hashes with their texts.
    pub resolved: Vec<(String, String)>,
    /// The page's hashes whose texts are not stored.
    pub missing: Vec<String>,
    /// The page's items, the longest first.
    pub items: Vec<SizedText>,
    /// The bounds of the page's batches.
    pub bounds: Vec<usize>,
    pub stats: EmbedStats,
}

/// Whether the token counts can take in a batch.
fn fits(stats: &TokenStats, tokens: &Vec<usize>) -> (r: bool)
    ensures
        r == (stats.token_positions + total(tokens@) <= u64::MAX && stats.padded_positions
            + tokens@.len() * greatest(tokens@) <= u64::MAX),
{
    let mut sum: u128 = 0;
    let mut longest: usize = 0;
    let mut i: usize = 0;
    while i < tokens.len()
        invariant
            i <= tokens@.len(),
            sum == total(tokens@.take(i as int)),
            sum <= i * u64::MAX,
            longest == greatest(tokens@.take(i as int)),
        decreases tokens@.len() - i,
    {
        assert(tokens@.take(i + 1).drop_last() =~= tokens@.take(i as int));
        assert(i * u64::MAX <= u64::MAX * u64::MAX) by (nonlinear_arith)
            requires
                i <= u64::MAX,
        ;
        assert((i + 1) * u64::MAX == i * u64::MAX + u64::MAX) by (nonlinear_arith);
        sum = sum + tokens[i] as u128;
        if tokens[i] > longest {
            longest = tokens[i];
        }
        i += 1;
    }
    assert(tokens@.take(i as int) =~= tokens@);
    assert(i * u64::MAX <= u64::MAX * u64::MAX) by (nonlinear_arith)
        requires
            i <= u64::MAX,
    ;
    if stats.token_positions as u128 + sum > u64::MAX as u128 {
        return false;
    }
    let count: u64 = tokens.len() as u64;
    match count.checked_mul(longest as u64) {
        None => false,
        Some(padded) => match stats.padded_positions.checked_add(padded) {
            None => false,
            Some(_) => true,
        },
    }
}

/// The tokens of the items.
pub open spec fn tokens_of(items: Seq<SizedText>) -> Seq<usize> {
    Seq::new(items.len(), |i: int| items[i].2)
}

impl EmbedMachine {
    pub open spec fn batch_limits(self) -> BatchLimits {
        BatchLimits {
            items: self.limits.batch_size,
            chars: self.limits.max_batch_chars,
            token_area: self.limits.max_batch_token_area,
        }
    }

    pub open spec fn wf(self) -> bool {
        &&& self.stats.tokens.wf()
        &&& match self.stage {
            EmbedStage::Embedding { batch } => are_bounds(
                self.bounds@,
                self.items@,
                self.batch_limits(),
            ) && batch + 1 < self.bounds@.len(),
            EmbedStage::Storing { batch, stored, misfit } => are_bounds(
                self.bounds@,
                self.items@,
                self.batch_limits(),
            ) && batch + 1 < self.bounds@.len() && stored <= self.bounds@[batch + 1]
                - self.bounds@[batch as int] && (misfit is None ==> stored == self.bounds@[batch
                + 1] - self.bounds@[batch as int]),
            _ => true,
        }
    }

    /// The run stops.
    pub open spec fn stops(self, fault: EmbedFault, post: Self, action: EmbedAction) -> bool {
        &&& action == EmbedAction::Fail(fault)
        &&& post == (Self { stage: EmbedStage::Finished, ..self })
    }

    pub open spec fn rejects(self, post: Self, action: EmbedAction) -> bool {
        action == EmbedAction::Rejected && post == self
    }

    /// The token counts can take in the items `from..to`.
    pub open spec fn counts_fit(self, tokens: Seq<usize>) -> bool {
        &&& self.stats.tokens.token_positions + total(tokens) <= u64::MAX
        &&& self.stats.tokens.padded_positions + tokens.len() * greatest(tokens) <= u64::MAX
    }

    /// Batch `k` is embedded, or the next page is loaded where there is no such
    /// batch. The batch's tokens are recorded first.
    pub open spec fn begins(self, k: int, post: Self, action: EmbedAction) -> bool {
        if k + 1 < self.bounds@.len() {
            let (from, to) = (self.bounds@[k], self.bounds@[k + 1]);
            let tokens = tokens_of(self.items@).subrange(from as int, to as int);
            if self.counts_fit(tokens) {
                &&& action == EmbedAction::Embed { from, to }
                &&& post.stats == (EmbedStats { tokens: post.stats.tokens, ..self.stats })
                &&& post.stats.tokens.lengths@ == self.stats.tokens.lengths@ + tokens
                &&& post.stats.tokens.truncated == self.stats.tokens.truncated + at_least(
                    tokens,
                    self.limits.max_sequence_length as int,
                )
                &&& post.stats.tokens.token_positions == self.stats.tokens.token_positions + total(
                    tokens,
                )
                &&& post.stats.tokens.padded_positions == self.stats.tokens.padded_positions
                    + tokens.len() * greatest(tokens)
                &&& post == (Self {
                    stage: EmbedStage::Embedding { batch: k as usize },
                    stats: post.stats,
                    ..self
                })
            } else {
                self.stops(EmbedFault::Overflow, post, action)
            }
        } else {
            &&& action == EmbedAction::LoadPage
            &&& post == (Self { stage: EmbedStage::Paging, ..self })
        }
    }

    /// What a run does with a page: nothing is left where it is empty; texts that
    /// are not stored are recovered; else tokens are counted.
    pub open spec fn paged(self, rows: Seq<PendingText>, post: Self, action: EmbedAction) -> bool {
        if rows.len() == 0 {
            &&& action == EmbedAction::Done
            &&& post == (Self { stage: EmbedStage::Finished, ..self })
        } else {
            &&& opt_view(post.after_hash) == Some(rows.last().hash@)
            &&& post.resolved@ == stored_rows(rows)
            &&& post.missing@ == missing_rows(rows)
            &&& action == if post.missing@.len() > 0 {
                EmbedAction::Recover
            } else {
                EmbedAction::CountTokens
            }
            &&& post == (Self {
                stage: if post.missing@.len() > 0 {
                    EmbedStage::Recovering
                } else {
                    EmbedStage::Counting
                },
                after_hash: post.after_hash,
                resolved: post.resolved,
                missing: post.missing,
                ..self
            })
        }
    }

    /// What a run does with recovered texts: they join the stored ones, and those
    /// that could not be recovered are counted.
    pub open spec fn recovered(
        self,
        texts: Seq<Option<String>>,
        post: Self,
        action: EmbedAction,
    ) -> bool {
        let found = recovered_rows(self.missing@, texts);
        let lost = self.missing@.len() - found.len();
        if texts.len() != self.missing@.len() {
            self.rejects(post, action)
        } else if self.stats.unresolved + lost > usize::MAX {
            &&& action == EmbedAction::Fail(EmbedFault::Overflow)
            &&& post == (Self {
                stage: EmbedStage::Finished,
                resolved: post.resolved,
                ..self
            })
        } else {
            &&& action == EmbedAction::CountTokens
            &&& post.resolved@ == self.resolved@ + found
            &&& post == (Self {
                stage: EmbedStage::Counting,
                resolved: post.resolved,
                stats: EmbedStats {
                    unresolved: (self.stats.unresolved + lost) as usize,
                    ..self.stats
                },
                ..self
            })
        }
    }

    /// What a run does with the token counts: the items are sorted, the longest
    /// first, and packed, and the first batch is embedded.
    pub open spec fn counted(
        self,
        counts: Seq<Option<usize>>,
        post: Self,
        action: EmbedAction,
    ) -> bool {
        if counts.len() != self.resolved@.len() {
            self.rejects(post, action)
        } else {
            &&& longest_first(
                post.items@,
                self.resolved@,
                counts,
                self.limits.max_sequence_length,
            )
            &&& are_bounds(post.bounds@, post.items@, self.batch_limits())
            &&& (Self { items: post.items, bounds: post.bounds, ..self }).begins(0, post, action)
        }
    }

    /// What a run does with the vectors of a batch: there must be one for each
    /// input; those before the first misfit are stored.
    pub open spec fn embedded(
        self,
        batch: usize,
        widths: Seq<usize>,
        post: Self,
        action: EmbedAction,
    ) -> bool {
        let (from, to) = (self.bounds@[batch as int], self.bounds@[batch + 1]);
        if widths.len() != to - from {
            self.stops(
                EmbedFault::VectorCount {
                    returned: widths.len() as usize,
                    inputs: (to - from) as usize,
                },
                post,
                action,
            )
        } else {
            &&& action matches EmbedAction::Store { from: f, to: t }
            &&& f == from
            &&& from <= t <= to
            &&& forall|i: int| 0 <= i < t - from ==> (#[trigger] widths[i]) == self.limits.dimensions
            &&& t < to ==> widths[t - from] != self.limits.dimensions
            &&& post == (Self {
                stage: EmbedStage::Storing {
                    batch,
                    stored: (t - from) as usize,
                    misfit: if t < to {
                        Some(widths[t - from])
                    } else {
                        None
                    },
                },
                ..self
            })
        }
    }

    /// What a run does when vectors have been stored: a misfit stops it; else the
    /// batch is counted and the next one is embedded.
    pub open spec fn stored(
        self,
        batch: usize,
        count: usize,
        misfit: Option<usize>,
        post: Self,
        action: EmbedAction,
    ) -> bool {
        if self.stats.embedded + count > usize::MAX || (misfit is None && self.stats.batches
            == usize::MAX) {
            self.stops(EmbedFault::Overflow, post, action)
        } else {
            let embedded = (self.stats.embedded + count) as usize;
            match misfit {
                Some(returned) => (Self {
                    stats: EmbedStats { embedded, ..self.stats },
                    ..self
                }).stops(
                    EmbedFault::Dimensions { returned, expected: self.limits.dimensions },
                    post,
                    action,
                ),
                None => (Self {
                    stats: EmbedStats {
                        embedded,
                        batches: (self.stats.batches + 1) as usize,
                        ..self.stats
                    },
                    ..self
                }).begins(batch + 1, post, action),
            }
        }
    }

    /// One step of an embedding run.
    pub open spec fn stepped(self, event: EmbedEvent, post: Self, action: EmbedAction) -> bool {
        match (self.stage, event) {
            (EmbedStage::Paging, EmbedEvent::Page(rows)) => self.paged(rows@, post, action),
            (EmbedStage::Recovering, EmbedEvent::Recovered(texts)) => self.recovered(
                texts@,
                post,
                action,
            ),
            (EmbedStage::Counting, EmbedEvent::Counted(counts)) => self.counted(
                counts@,
                post,
                action,
            ),
            (EmbedStage::Embedding { batch }, EmbedEvent::Vectors(widths)) => self.embedded(
                batch,
                widths@,
                post,
                action,
            ),
            (EmbedStage::Storing { batch, stored, misfit }, EmbedEvent::Stored) => self.stored(
                batch,
                stored,
                misfit,
                post,
                action,
            ),
            _ => self.rejects(post, action),
        }
    }

    /// A run at its beginning. Its first action is to load a page.
    pub fn new(limits: EmbedLimits, pending_total: usize) -> (r: Self)
        ensures
            r.wf(),
            r.limits == limits,
            r.stage == EmbedStage::Paging,
            r.after_hash is None,
            r.stats.pending_total == pending_total,
            r.stats.spaces == 1,
            r.stats.embedded == 0,
            r.stats.unresolved == 0,
            r.stats.batches == 0,
            r.stats.tokens.lengths@.len() == 0,
            r.stats.tokens.token_positions == 0,
            r.stats.tokens.padded_positions == 0,
    {
        Self {
            limits,
            stage: EmbedStage::Paging,
            after_hash: None,
            resolved: Vec::new(),
            missing: Vec::new(),
            items: Vec::new(),
            bounds: Vec::new(),
            stats: EmbedStats {
                pending_total,
                embedded: 0,
                unresolved: 0,
                batches: 0,
                spaces: 1,
                tokens: TokenStats::default(),
            },
        }
    }

    fn begin(&mut self, k: usize) -> (action: EmbedAction)
        requires
            old(self).stats.tokens.wf(),
            k < old(self).bounds@.len(),
            are_bounds(old(self).bounds@, old(self).items@, old(self).batch_limits()),
        ensures
            old(self).begins(k as int, *final(self), action),
            final(self).wf(),
    {
        if k >= self.bounds.len() - 1 {
            self.stage = EmbedStage::Paging;
            return EmbedAction::LoadPage;
        }
        let from: usize = self.bounds[k];
        let to: usize = self.bounds[k + 1];
        assert(is_batch(self.items@, self.batch_limits(), from as int, to as int));
        let mut tokens: Vec<usize> = Vec::new();
        let mut i: usize = from;
        while i < to
            invariant
                from <= i <= to <= self.items@.len(),
                tokens@ == tokens_of(self.items@).subrange(from as int, i as int),
            decreases to - i,
        {
            tokens.push(self.items[i].2);
            i += 1;
            assert(tokens@ =~= tokens_of(self.items@).subrange(from as int, i as int));
        }
        if !fits(&self.stats.tokens, &tokens) {
            self.stage = EmbedStage::Finished;
            return EmbedAction::Fail(EmbedFault::Overflow);
        }
        self.stats.tokens.record_batch(&tokens, self.limits.max_sequence_length);
        self.stage = EmbedStage::Embedding { batch: k };
        EmbedAction::Embed { from, to }
    }

    fn on_page(&mut self, rows: Vec<PendingText>) -> (action: EmbedAction)
        requires
            old(self).wf(),
        ensures
            old(self).paged(rows@, *final(self), action),
            final(self).wf(),
    {
        if rows.len() == 0 {
            self.stage = EmbedStage::Finished;
            return EmbedAction::Done;
        }
        self.after_hash = Some(rows[rows.len() - 1].hash.clone());
        let (resolved, missing) = split_page(&rows);
        self.resolved = resolved;
        self.missing = missing;
        if self.missing.len() > 0 {
            self.stage = EmbedStage::Recovering;
            EmbedAction::Recover
        } else {
            self.stage = EmbedStage::Counting;
            EmbedAction::CountTokens
        }
    }

    fn on_recovered(&mut self, texts: Vec<Option<String>>) -> (action: EmbedAction)
        requires
            old(self).wf(),
        ensures
            old(self).recovered(texts@, *final(self), action),
            final(self).wf(),
    {
        if texts.len() != self.missing.len() {
            return EmbedAction::Rejected;
        }
        let lost: usize = add_recovered(&mut self.resolved, &self.missing, &texts);
        match self.stats.unresolved.checked_add(lost) {
            None => {
                self.stage = EmbedStage::Finished;
                EmbedAction::Fail(EmbedFault::Overflow)
            },
            Some(unresolved) => {
                self.stats.unresolved = unresolved;
                self.stage = EmbedStage::Counting;
                EmbedAction::CountTokens
            },
        }
    }

    fn on_counted(&mut self, counts: Vec<Option<usize>>) -> (action: EmbedAction)
        requires
            old(self).wf(),
        ensures
            old(self).counted(counts@, *final(self), action),
            final(self).wf(),
    {
        if counts.len() != self.resolved.len() {
            return EmbedAction::Rejected;
        }
        self.items = sort_longest_first(&self.resolved, &counts, self.limits.max_sequence_length);
        self.bounds = batch_bounds(
            &self.items,
            self.limits.batch_size,
            self.limits.max_batch_chars,
            self.limits.max_batch_token_area,
        );
        self.begin(0)
    }

    fn on_vectors(&mut self, batch: usize, widths: Vec<usize>) -> (action: EmbedAction)
        requires
            old(self).wf(),
            old(self).stage == (EmbedStage::Embedding { batch }),
        ensures
            old(self).embedded(batch, widths@, *final(self), action),
            final(self).wf(),
    {
        assert(batch + 1 < self.bounds.len());
        let from: usize = self.bounds[batch];
        let to: usize = self.bounds[batch + 1];
        assert(is_batch(self.items@, self.batch_limits(), from as int, to as int));
        if widths.len() != to - from {
            self.stage = EmbedStage::Finished;
            return EmbedAction::Fail(
                EmbedFault::VectorCount { returned: widths.len(), inputs: to - from },
            );
        }
        let mut i: usize = 0;
        while i < widths.len() && widths[i] == self.limits.dimensions
            invariant
                i <= widths@.len(),
                forall|j: int| 0 <= j < i ==> (#[trigger] widths@[j]) == self.limits.dimensions,
            decreases widths@.len() - i,
        {
            i += 1;
        }
        let misfit = if i < widths.len() {
            Some(widths[i])
        } else {
            None
        };
        self.stage = EmbedStage::Storing { batch, stored: i, misfit };
        EmbedAction::Store { from, to: from + i }
    }

    fn on_stored(&mut self, batch: usize, count: usize, misfit: Option<usize>) -> (action:
        EmbedAction)
        requires
            old(self).wf(),
            old(self).stage == (EmbedStage::Storing { batch, stored: count, misfit }),
        ensures
            old(self).stored(batch, count, misfit, *final(self), action),
            final(self).wf(),
    {
        let embedded = match self.stats.embedded.checked_add(count) {
            None => {
                self.stage = EmbedStage::Finished;
                return EmbedAction::Fail(EmbedFault::Overflow);
            },
            Some(embedded) => embedded,
        };
        match misfit {
            Some(returned) => {
                self.stats.embedded = embedded;
                self.stage = EmbedStage::Finished;
                EmbedAction::Fail(
                    EmbedFault::Dimensions { returned, expected: self.limits.dimensions },
                )
            },
            None => {
                if self.stats.batches == usize::MAX {
                    self.stage = EmbedStage::Finished;
                    return EmbedAction::Fail(EmbedFault::Overflow);
                }
                self.stats.embedded = embedded;
                self.stats.batches = self.stats.batches + 1;
                assert(batch + 1 < self.bounds.len());
                self.begin(batch + 1)
            },
        }
    }

    /// Takes in what the store or the model did and says what is to be done next.
    pub fn step(&mut self, event: EmbedEvent) -> (action: EmbedAction)
        requires
            old(self).wf(),
        ensures
            old(self).stepped(event, *final(self), action),
            final(self).wf(),
    {
        match (self.stage, event) {
            (EmbedStage::Paging, EmbedEvent::Page(rows)) => self.on_page(rows),
            (EmbedStage::Recovering, EmbedEvent::Recovered(texts)) => self.on_recovered(texts),
            (EmbedStage::Counting, EmbedEvent::Counted(counts)) => self.on_counted(counts),
            (EmbedStage::Embedding { batch }, EmbedEvent::Vectors(widths)) => self.on_vectors(
                batch,
                widths,
            ),
            (EmbedStage::Storing { batch, stored, misfit }, EmbedEvent::Stored) => self.on_stored(
                batch,
                stored,
                misfit,
            ),
            _ => EmbedAction::Rejected,
        }
    }
}

/// Only vectors of the space's own width are stored, each for its own item of
/// the batch.
pub proof fn only_fitting_vectors_are_stored(
    pre: EmbedMachine,
    widths: Vec<usize>,
    post: EmbedMachine,
    from: usize,
    to: usize,
)
    requires
        pre.wf(),
        pre.stepped(EmbedEvent::Vectors(widths), post, EmbedAction::Store { from, to }),
    ensures
        pre.stage matches EmbedStage::Embedding { batch } && from == pre.bounds@[batch as int] && to
            <= pre.bounds@[batch + 1] && widths@.len() == pre.bounds@[batch + 1] - from,
        forall|i: int| 0 <= i < to - from ==> (#[trigger] widths@[i]) == pre.limits.dimensions,
{
}

/// A language with the token lengths of its texts.
#[derive(Debug)]
pub struct LanguageTokens {
    pub language: String,
    pub stats: TokenStats,
}

/// A text that was measured: its language, and its tokens where they could be
/// counted.
#[derive(Debug)]
pub struct MeasuredText {
    pub language: String,
    pub tokens: Option<usize>,
}

/// The lengths of the measured texts of a language, in order.
pub open spec fn lengths_of(texts: Seq<MeasuredText>, language: Seq<char>) -> Seq<usize>
    decreases texts.len(),
{
    if texts.len() == 0 {
        Seq::empty()
    } else {
        let rest = lengths_of(texts.drop_last(), language);
        match texts.last().tokens {
            Some(tokens) if texts.last().language@ == language => rest.push(tokens),
            _ => rest,
        }
    }
}

/// `stats` holds the given lengths and nothing of batches.
pub open spec fn measures(stats: TokenStats, lengths: Seq<usize>) -> bool {
    &&& stats.wf()
    &&& stats.lengths@ == lengths
    &&& stats.truncated == 0
    &&& stats.token_positions == total(lengths)
    &&& stats.padded_positions == 0
}

/// The sum of all measured lengths.
pub open spec fn total_measured(texts: Seq<MeasuredText>) -> int
    decreases texts.len(),
{
    if texts.len() == 0 {
        0
    } else {
        total_measured(texts.drop_last()) + match texts.last().tokens {
            Some(tokens) => tokens as int,
            None => 0,
        }
    }
}

proof fn language_total_bounded(texts: Seq<MeasuredText>, language: Seq<char>)
    ensures
        0 <= total(lengths_of(texts, language)) <= total_measured(texts),
    decreases texts.len(),
{
    if texts.len() > 0 {
        language_total_bounded(texts.drop_last(), language);
        let rest = lengths_of(texts.drop_last(), language);
        if texts.last().tokens is Some && texts.last().language@ == language {
            assert(rest.push(texts.last().tokens->0).drop_last() =~= rest);
        }
    }
}

proof fn total_measured_grows(texts: Seq<MeasuredText>, k: int)
    requires
        0 <= k <= texts.len(),
    ensures
        total_measured(texts.take(k)) <= total_measured(texts),
    decreases texts.len() - k,
{
    if k < texts.len() {
        total_measured_grows(texts, k + 1);
        assert(texts.take(k + 1).drop_last() =~= texts.take(k));
    } else {
        assert(texts.take(k) =~= texts);
    }
}

/// The map holds the lengths of every language that has a measured text.
pub open spec fn maps_lengths(map: Map<Seq<char>, TokenStats>, texts: Seq<MeasuredText>) -> bool {
    forall|language: Seq<char>|
        #![trigger map.contains_key(language)]
        {
            &&& map.contains_key(language) <==> lengths_of(texts, language).len() > 0
            &&& map.contains_key(language) ==> measures(map[language], lengths_of(texts, language))
        }
}

/// Groups the measured texts by language, the languages in dictionary order.
/// Texts whose tokens could not be counted are left out.
pub fn token_report(texts: &Vec<MeasuredText>) -> (r: Vec<LanguageTokens>)
    requires
        total_measured(texts@) <= u64::MAX,
    ensures
        forall|i: int|
            0 <= i < r@.len() ==> measures(
                (#[trigger] r@[i]).stats,
                lengths_of(texts@, r@[i].language@),
            ) && lengths_of(texts@, r@[i].language@).len() > 0,
        forall|i: int, j: int|
            0 <= i < j < r@.len() ==> lex_less(
                (#[trigger] r@[i]).language@,
                (#[trigger] r@[j]).language@,
            ),
        forall|language: Seq<char>| #[trigger]
            lengths_of(texts@, language).len() > 0 ==> exists|i: int|
                0 <= i < r@.len() && (#[trigger] r@[i]).language@ == language,
{
    let grouped = group_by_language(texts);
    let ghost map = grouped;
    let mut out: Vec<LanguageTokens> = Vec::new();
    for entry in it: grouped.entries
        invariant
            it.seq() == map.entries@,
            out@.len() == it.index(),
            forall|j: int|
                0 <= j < out@.len() ==> (#[trigger] out@[j]).language == map.entries@[j].0
                    && out@[j].stats == map.entries@[j].1,
    {
        out.push(LanguageTokens { language: entry.0, stats: entry.1 });
    }
    proof {
        assert forall|i: int| 0 <= i < out@.len() implies measures(
            (#[trigger] out@[i]).stats,
            lengths_of(texts@, out@[i].language@),
        ) && lengths_of(texts@, out@[i].language@).len() > 0 by {
            map.entry_is_mapped(i);
            assert(map@.contains_key(map.entries@[i].0@));
        }
        assert forall|language: Seq<char>| #[trigger]
            lengths_of(texts@, language).len() > 0 implies exists|i: int|
            0 <= i < out@.len() && (#[trigger] out@[i]).language@ == language by {
            assert(map@.contains_key(language));
            let i = choose|i: int| key_at(map.entries@, i, language);
            assert(out@[i].language@ == language);
        }
    }
    out
}

fn group_by_language(texts: &Vec<MeasuredText>) -> (r: TextMap<TokenStats>)
    requires
        total_measured(texts@) <= u64::MAX,
    ensures
        r.wf(),
        maps_lengths(r@, texts@),
{
    let mut by_language: TextMap<TokenStats> = TextMap::new();
    let mut i: usize = 0;
    while i < texts.len()
        invariant
            i <= texts@.len(),
            by_language.wf(),
            total_measured(texts@) <= u64::MAX,
            maps_lengths(by_language@, texts@.take(i as int)),
        decreases texts@.len() - i,
    {
        let ghost before = by_language@;
        let ghost shorter = texts@.take(i as int);
        let ghost longer = texts@.take(i + 1);
        assert(longer.drop_last() =~= shorter);
        if let Some(tokens) = texts[i].tokens {
            let language = texts[i].language.as_str();
            proof {
                total_measured_grows(texts@, i + 1);
                language_total_bounded(longer, language@);
                let rest = lengths_of(shorter, language@);
                assert(rest.push(tokens).drop_last() =~= rest);
            }
            assert(before.contains_key(language@) <==> lengths_of(shorter, language@).len() > 0);
            let mut stats = match by_language.remove(language) {
                Some(stats) => stats,
                None => TokenStats::default(),
            };
            assert(measures(stats, lengths_of(shorter, language@))) by {
                if !before.contains_key(language@) {
                    assert(stats.lengths@ =~= lengths_of(shorter, language@));
                }
            }
            stats.record_length(tokens);
            let ghost recorded = stats;
            let _previous = by_language.insert(texts[i].language.clone(), stats);
            assert forall|other: Seq<char>|
                #![trigger by_language@.contains_key(other)]
                {
                    &&& by_language@.contains_key(other) <==> lengths_of(longer, other).len() > 0
                    &&& by_language@.contains_key(other) ==> measures(
                        by_language@[other],
                        lengths_of(longer, other),
                    )
                } by {
                if other != language@ {
                    assert(before.contains_key(other) <==> lengths_of(shorter, other).len() > 0);
                }
            }
        } else {
            assert forall|other: Seq<char>|
                #![trigger by_language@.contains_key(other)]
                {
                    &&& by_language@.contains_key(other) <==> lengths_of(longer, other).len() > 0
                    &&& by_language@.contains_key(other) ==> measures(
                        by_language@[other],
                        lengths_of(longer, other),
                    )
                } by {}
        }
        i += 1;
    }
    assert(texts@.take(i as int) =~= texts@);
    by_language
}

/// Each hash of a page is embedded or counted as unresolved.
pub proof fn every_hash_is_resolved_or_counted(
    pre: EmbedMachine,
    texts: Vec<Option<String>>,
    post: EmbedMachine,
    action: EmbedAction,
)
    requires
        pre.stage == EmbedStage::Recovering,
        pre.stepped(EmbedEvent::Recovered(texts), post, action),
        action == EmbedAction::CountTokens,
    ensures
        post.resolved@.len() + post.stats.unresolved == pre.resolved@.len() + pre.missing@.len()
            + pre.stats.unresolved,
        post.resolved@.take(pre.resolved@.len() as int) == pre.resolved@,
        post.stage == EmbedStage::Counting,
{
    if pre.missing@.len() > 0 {
        crate::indexer::embed::recovered_texts_keep_their_hash(pre.missing@, texts@, 0);
    }
    assert(post.resolved@.take(pre.resolved@.len() as int) =~= pre.resolved@);
}

/// Batches are embedded one after the other, from the first item of a page on.
pub proof fn batches_follow_one_another(
    pre: EmbedMachine,
    event: EmbedEvent,
    post: EmbedMachine,
    from: usize,
    to: usize,
)
    requires
        pre.wf(),
        pre.stepped(event, post, EmbedAction::Embed { from, to }),
    ensures
        pre.stage == EmbedStage::Counting || pre.stage is Storing,
        pre.stage == EmbedStage::Counting ==> from == 0,
        pre.stage is Storing ==> from == pre.bounds@[pre.stage->Storing_batch + 1],
{
    match (pre.stage, event) {
        (EmbedStage::Counting, EmbedEvent::Counted(counts)) => {
            assert(post.bounds@[0] == 0);
        },
        _ => {},
    }
}

/// The next page is loaded only after the last batch of a page.
pub proof fn a_page_is_embedded_to_its_end(
    pre: EmbedMachine,
    event: EmbedEvent,
    post: EmbedMachine,
)
    requires
        pre.wf(),
        pre.stepped(event, post, EmbedAction::LoadPage),
    ensures
        pre.stage == EmbedStage::Counting || pre.stage is Storing,
        pre.stage is Storing ==> pre.bounds@[pre.stage->Storing_batch + 1] == pre.items@.len(),
        pre.stage == EmbedStage::Counting ==> post.items@.len() == 0,
{
    match (pre.stage, event) {
        (EmbedStage::Counting, EmbedEvent::Counted(counts)) => {
            assert(post.bounds@.last() == post.items@.len());
        },
        (EmbedStage::Storing { batch, .. }, EmbedEvent::Stored) => {
            assert(pre.bounds@.last() == pre.items@.len());
        },
        _ => {},
    }
}

/// What is stored is counted, and a batch counts as one; a vector of another width than the
/// space's ends the run, after the ones before it are stored.
pub proof fn stored_vectors_are_counted(
    pre: EmbedMachine,
    post: EmbedMachine,
    action: EmbedAction,
)
    requires
        pre.stage is Storing,
        pre.stepped(EmbedEvent::Stored, post, action),
        action != EmbedAction::Fail(EmbedFault::Overflow),
    ensures
        post.stats.embedded == pre.stats.embedded + pre.stage->Storing_stored,
        post.stats.batches == pre.stats.batches + if pre.stage->Storing_misfit is None {
            1int
        } else {
            0
        },
        action is Fail <==> pre.stage->Storing_misfit is Some,
        pre.stage->Storing_misfit matches Some(width) ==> action == EmbedAction::Fail(
            EmbedFault::Dimensions { returned: width, expected: pre.limits.dimensions },
        ),
{
}

/// A run is done only when no hash is pending; a page that holds one is worked on, and the
/// next page begins after its last hash.
pub proof fn a_run_ends_when_nothing_is_pending(
    pre: EmbedMachine,
    event: EmbedEvent,
    post: EmbedMachine,
    action: EmbedAction,
)
    requires
        pre.stepped(event, post, action),
    ensures
        action == EmbedAction::Done ==> pre.stage == EmbedStage::Paging && event is Page
            && event->Page_0@.len() == 0,
        pre.stage == EmbedStage::Paging && event is Page && event->Page_0@.len() > 0 ==> {
            &&& action == EmbedAction::Recover || action == EmbedAction::CountTokens
            &&& opt_view(post.after_hash) == Some(event->Page_0@.last().hash@)
        },
        action == EmbedAction::Recover ==> post.missing@.len() > 0,
        !(event is Page) ==> post.after_hash == pre.after_hash,
{
}

/// A model that returns another number of vectors than it got inputs is not trusted with
/// any of them.
pub proof fn miscounted_vectors_are_not_stored(
    pre: EmbedMachine,
    widths: Vec<usize>,
    post: EmbedMachine,
    action: EmbedAction,
)
    requires
        pre.wf(),
        pre.stage is Embedding,
        pre.stepped(EmbedEvent::Vectors(widths), post, action),
    ensures
        ({
            let batch = pre.stage->Embedding_batch;
            let inputs = pre.bounds@[batch + 1] - pre.bounds@[batch as int];
            widths@.len() != inputs <==> action is Fail
        }),
        post.stats == pre.stats,
{
}

/// The report holds every measured text under its own language, in their order.
pub proof fn a_report_holds_every_measured_text(
    texts: Seq<MeasuredText>,
    language: Seq<char>,
    k: int,
)
    requires
        0 <= k < texts.len(),
    ensures
        texts[k].language@ == language && texts[k].tokens is Some ==> lengths_of(
            texts,
            language,
        ).contains(texts[k].tokens->0),
        lengths_of(texts, language).len() <= texts.len(),
        forall|i: int|
            0 <= i < lengths_of(texts, language).len() ==> exists|j: int|
                0 <= j < texts.len() && (#[trigger] texts[j]).language@ == language
                    && texts[j].tokens == Some(#[trigger] lengths_of(texts, language)[i]),
    decreases texts.len(),
{
    let front = texts.drop_last();
    let (before, after) = (lengths_of(front, language), lengths_of(texts, language));
    if front.len() > 0 {
        a_report_holds_every_measured_text(
            front,
            language,
            if k < front.len() {
                k
            } else {
                0
            },
        );
    } else {
        assert(before.len() == 0);
    }
    if texts[k].language@ == language && texts[k].tokens is Some {
        if k < front.len() {
            assert(front[k] == texts[k]);
            let i = choose|i: int| 0 <= i < before.len() && before[i] == texts[k].tokens->0;
            assert(after[i] == before[i]);
        } else {
            assert(after[after.len() - 1] == texts[k].tokens->0);
        }
    }
    assert forall|i: int| 0 <= i < after.len() implies exists|j: int|
        0 <= j < texts.len() && (#[trigger] texts[j]).language@ == language && texts[j].tokens
            == Some(#[trigger] after[i]) by {
        if i < before.len() {
            assert(after[i] == before[i]);
            let j = choose|j: int|
                0 <= j < front.len() && (#[trigger] front[j]).language@ == language
                    && front[j].tokens == Some(before[i]);
            assert(texts[j] == front[j]);
        } else {
            assert(texts[texts.len() - 1] == texts.last());
        }
    }
}

/// The tokens of a batch are counted when it is embedded: its lengths, the room that they
/// take when each is filled up to the longest, and those that reach the model's length.
pub proof fn tokens_are_counted_as_they_are_embedded(
    pre: EmbedMachine,
    post: EmbedMachine,
    from: usize,
    to: usize,
)
    requires
        pre.wf(),
        pre.stage is Storing,
        pre.stepped(EmbedEvent::Stored, post, EmbedAction::Embed { from, to }),
    ensures
        ({
            let tokens = tokens_of(pre.items@).subrange(from as int, to as int);
            let (before, after) = (pre.stats.tokens, post.stats.tokens);
            &&& after.lengths@ == before.lengths@ + tokens
            &&& after.token_positions == before.token_positions + total(tokens)
            &&& after.padded_positions == before.padded_positions + tokens.len() * greatest(tokens)
            &&& after.truncated == before.truncated + at_least(
                tokens,
                pre.limits.max_sequence_length as int,
            )
            &&& forall|i: int|
                0 <= i < tokens.len() ==> #[trigger] tokens[i] == pre.items@[from + i].2
        }),
{
    let batch = pre.stage->Storing_batch as int;
    assert(is_batch(
        pre.items@,
        pre.batch_limits(),
        pre.bounds@[batch] as int,
        pre.bounds@[batch + 1] as int,
    ));
    let tokens = tokens_of(pre.items@).subrange(from as int, to as int);
    assert(batch + 2 < pre.bounds@.len());
    assert(is_batch(
        pre.items@,
        pre.batch_limits(),
        pre.bounds@[batch + 1] as int,
        pre.bounds@[batch + 2] as int,
    ));
    assert forall|i: int| 0 <= i < tokens.len() implies #[trigger] tokens[i] == pre.items@[from
        + i].2 by {
        assert(tokens_of(pre.items@)[from + i] == pre.items@[from + i].2);
    }
}

} // verus!
