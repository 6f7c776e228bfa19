//! Embedding a stored corpus into one space, page by page, as a machine: it is
//! told what the store and the model did and answers with the next thing to do.
use crate::embedding::batches::{estimated_tokens, SizedText};
use crate::embedding::tokens::TokenStats;
use crate::model::{
    EmbeddingSpaceId, EmbeddingSpaceIdentity, ModelIdentity, RepresentationKind,
};
use crate::order::{is_size_order, size_order};
use crate::text::{same, views};
use vstd::prelude::*;

verus! {

/// Why a space cannot be embedded with a model.
#[derive(Debug, Clone, Copy, PartialEq, Eq, Structural)]
pub enum SpaceMismatch {
    /// The model is not the one of the space.
    Model,
    /// The space asks for an input transform that is not supported.
    InputTransform,
}

/// Checks that a model may embed a space: it is the space's own model, and the
/// stored text is embedded verbatim.
pub fn check_space(model: &ModelIdentity, space: &EmbeddingSpaceIdentity) -> (r: Result<
    (),
    SpaceMismatch,
>)
    ensures
        r == if !model.same_as(&space.model) {
            Err::<(), SpaceMismatch>(SpaceMismatch::Model)
        } else if space.input_transform@ != "identity"@ {
            Err(SpaceMismatch::InputTransform)
        } else {
            Ok(())
        },
{
    if !model.is_same(&space.model) {
        return Err(SpaceMismatch::Model);
    }
    if !same(space.input_transform.as_str(), "identity") {
        return Err(SpaceMismatch::InputTransform);
    }
    Ok(())
}

/// The id of the space that holds a channel by default.
pub fn default_space_id(channel: &RepresentationKind) -> (r: String)
    ensures
        r@ == "default/"@ + channel@,
{
    crate::text::concat("default/", channel.as_str())
}

/// Counts of an embedding run.
#[derive(Debug)]
pub struct EmbedStats {
    pub pending_total: usize,
    pub embedded: usize,
    pub unresolved: usize,
    pub batches: usize,
    pub spaces: usize,
    pub tokens: TokenStats,
}

/// What is reported after each batch of a space.
#[derive(Debug)]
pub struct EmbedProgress {
    pub space_id: EmbeddingSpaceId,
    pub pending_total: usize,
    pub embedded: usize,
    pub unresolved: usize,
    pub batches: usize,
    pub current_batch: usize,
}

/// What is reported after a batch, out of the counts so far.
pub fn batch_progress(space_id: &EmbeddingSpaceId, stats: &EmbedStats, current_batch: usize) -> (r:
    EmbedProgress)
    ensures
        r.space_id == *space_id,
        r.pending_total == stats.pending_total,
        r.embedded == stats.embedded,
        r.unresolved == stats.unresolved,
        r.batches == stats.batches,
        r.current_batch == current_batch,
{
    EmbedProgress {
        space_id: space_id.clone(),
        pending_total: stats.pending_total,
        embedded: stats.embedded,
        unresolved: stats.unresolved,
        batches: stats.batches,
        current_batch,
    }
}

impl Default for EmbedStats {
    fn default() -> (r: Self)
        ensures
            r.pending_total == 0,
            r.embedded == 0,
            r.unresolved == 0,
            r.batches == 0,
            r.spaces == 0,
            r.tokens.wf(),
            r.tokens.lengths@.len() == 0,
            r.tokens.token_positions == 0,
            r.tokens.padded_positions == 0,
    {
        Self {
            pending_total: 0,
            embedded: 0,
            unresolved: 0,
            batches: 0,
            spaces: 0,
            tokens: TokenStats::default(),
        }
    }
}

/// Adds the counts of one space to the counts of all.
pub fn merge_stats(all: &mut EmbedStats, stats: &EmbedStats)
    requires
        old(all).tokens.wf(),
        stats.tokens.wf(),
        old(all).pending_total + stats.pending_total <= usize::MAX,
        old(all).embedded + stats.embedded <= usize::MAX,
        old(all).unresolved + stats.unresolved <= usize::MAX,
        old(all).batches + stats.batches <= usize::MAX,
        old(all).spaces + stats.spaces <= usize::MAX,
        old(all).tokens.token_positions + stats.tokens.token_positions <= u64::MAX,
        old(all).tokens.padded_positions + stats.tokens.padded_positions <= u64::MAX,
    ensures
        final(all).pending_total == old(all).pending_total + stats.pending_total,
        final(all).embedded == old(all).embedded + stats.embedded,
        final(all).unresolved == old(all).unresolved + stats.unresolved,
        final(all).batches == old(all).batches + stats.batches,
        final(all).spaces == old(all).spaces + stats.spaces,
        final(all).tokens.wf(),
        final(all).tokens.lengths@ == old(all).tokens.lengths@ + stats.tokens.lengths@,
        final(all).tokens.truncated == old(all).tokens.truncated + stats.tokens.truncated,
        final(all).tokens.token_positions == old(all).tokens.token_positions
            + stats.tokens.token_positions,
        final(all).tokens.padded_positions == old(all).tokens.padded_positions
            + stats.tokens.padded_positions,
{
    all.pending_total = all.pending_total + stats.pending_total;
    all.embedded = all.embedded + stats.embedded;
    all.unresolved = all.unresolved + stats.unresolved;
    all.batches = all.batches + stats.batches;
    all.spaces = all.spaces + stats.spaces;
    all.tokens.merge(&stats.tokens);
}

/// A content hash that waits to be embedded, with its text where it is stored.
#[derive(Debug)]
pub struct PendingText {
    pub hash: String,
    pub text: Option<String>,
}

/// The rows whose text is stored, in order.
pub open spec fn stored_rows(rows: Seq<PendingText>) -> Seq<(String, String)>
    decreases rows.len(),
{
    if rows.len() == 0 {
        Seq::empty()
    } else {
        let rest = stored_rows(rows.drop_last());
        match rows.last().text {
            Some(text) => rest.push((rows.last().hash, text)),
            None => rest,
        }
    }
}

/// The hashes of the rows whose text is not stored, in order.
pub open spec fn missing_rows(rows: Seq<PendingText>) -> Seq<String>
    decreases rows.len(),
{
    if rows.len() == 0 {
        Seq::empty()
    } else {
        let rest = missing_rows(rows.drop_last());
        match rows.last().text {
            Some(_) => rest,
            None => rest.push(rows.last().hash),
        }
    }
}

/// Parts a page into the rows whose text is stored and the hashes of the others.
pub fn split_page(rows: &Vec<PendingText>) -> (r: (Vec<(String, String)>, Vec<String>))
    ensures
        r.0@ == stored_rows(rows@),
        r.1@ == missing_rows(rows@),
{
    let mut stored: Vec<(String, String)> = Vec::new();
    let mut missing: Vec<String> = Vec::new();
    let mut i: usize = 0;
    while i < rows.len()
        invariant
            i <= rows@.len(),
            stored@ == stored_rows(rows@.take(i as int)),
            missing@ == missing_rows(rows@.take(i as int)),
        decreases rows@.len() - i,
    {
        assert(rows@.take(i + 1).drop_last() =~= rows@.take(i as int));
        match &rows[i].text {
            Some(text) => stored.push((rows[i].hash.clone(), text.clone())),
            None => missing.push(rows[i].hash.clone()),
        }
        i += 1;
    }
    assert(rows@.take(i as int) =~= rows@);
    (stored, missing)
}

/// The hashes whose text was recovered, each with it, in order.
pub open spec fn recovered_rows(missing: Seq<String>, texts: Seq<Option<String>>) -> Seq<
    (String, String),
>
    decreases missing.len(),
{
    if missing.len() == 0 {
        Seq::empty()
    } else {
        let rest = recovered_rows(missing.drop_last(), texts);
        match texts[missing.len() - 1] {
            Some(text) => rest.push((missing.last(), text)),
            None => rest,
        }
    }
}

/// Appends the recovered texts and returns how many were not recovered.
pub fn add_recovered(
    resolved: &mut Vec<(String, String)>,
    missing: &Vec<String>,
    texts: &Vec<Option<String>>,
) -> (r: usize)
    requires
        texts@.len() == missing@.len(),
    ensures
        final(resolved)@ == old(resolved)@ + recovered_rows(missing@, texts@),
        r == missing@.len() - recovered_rows(missing@, texts@).len(),
{
    let ghost start = resolved@;
    let mut unresolved: usize = 0;
    let mut i: usize = 0;
    assert(start + recovered_rows(missing@.take(0), texts@) =~= start);
    while i < missing.len()
        invariant
            i <= missing@.len() == texts@.len(),
            unresolved <= i,
            unresolved == i - recovered_rows(missing@.take(i as int), texts@).len(),
            resolved@ == start + recovered_rows(missing@.take(i as int), texts@),
        decreases missing@.len() - i,
    {
        let ghost before = recovered_rows(missing@.take(i as int), texts@);
        assert(missing@.take(i + 1).drop_last() =~= missing@.take(i as int));
        match &texts[i] {
            Some(text) => {
                assert((start + before).push((missing@[i as int], *text)) =~= start + before.push(
                    (missing@[i as int], *text),
                ));
                resolved.push((missing[i].clone(), text.clone()));
            },
            None => {
                unresolved += 1;
            },
        }
        i += 1;
    }
    assert(missing@.take(i as int) =~= missing@);
    unresolved
}

/// The tokens that a text is budgeted with: as counted, else as estimated, and
/// never more than the model attends to.
pub open spec fn budgeted_tokens(text: Seq<char>, counted: Option<usize>, max_length: usize) -> int {
    let limit = if max_length >= 1 {
        max_length as int
    } else {
        1
    };
    let tokens = match counted {
        Some(count) => count as int,
        None => text.len() as int / 4 + 1,
    };
    if tokens <= limit {
        tokens
    } else {
        limit
    }
}

/// `items` holds the rows, each once and with its budgeted tokens, the longest
/// first and equally long ones in the order of their hashes.
pub open spec fn longest_first(
    items: Seq<SizedText>,
    rows: Seq<(String, String)>,
    counts: Seq<Option<usize>>,
    max_length: usize,
) -> bool {
    exists|order: Seq<usize>, sizes: Seq<usize>|
        #![trigger is_size_order(order, hashes_of(rows), sizes, rows.len() as int)]
        {
            &&& sizes.len() == rows.len()
            &&& forall|i: int|
                0 <= i < rows.len() ==> (#[trigger] sizes[i]) == budgeted_tokens(
                    rows[i].1@,
                    counts[i],
                    max_length,
                )
            &&& is_size_order(order, hashes_of(rows), sizes, rows.len() as int)
            &&& items.len() == rows.len()
            &&& forall|i: int|
                0 <= i < items.len() ==> (#[trigger] items[i]) == (
                    rows[order[i] as int].0,
                    rows[order[i] as int].1,
                    sizes[order[i] as int],
                )
        }
}

/// The hashes of the rows.
pub open spec fn hashes_of(rows: Seq<(String, String)>) -> Seq<Seq<char>> {
    Seq::new(rows.len(), |i: int| rows[i].0@)
}

/// Sizes the rows and sorts them, the longest first.
pub fn sort_longest_first(
    rows: &Vec<(String, String)>,
    counts: &Vec<Option<usize>>,
    max_length: usize,
) -> (r: Vec<SizedText>)
    requires
        counts@.len() == rows@.len(),
    ensures
        longest_first(r@, rows@, counts@, max_length),
{
    let limit: usize = if max_length >= 1 {
        max_length
    } else {
        1
    };
    let mut hashes: Vec<String> = Vec::new();
    let mut sizes: Vec<usize> = Vec::new();
    let mut i: usize = 0;
    while i < rows.len()
        invariant
            i <= rows@.len() == counts@.len(),
            hashes@.len() == i,
            sizes@.len() == i,
            limit == if max_length >= 1 {
                max_length
            } else {
                1
            },
            forall|j: int| 0 <= j < i ==> (#[trigger] hashes@[j])@ == rows@[j].0@,
            forall|j: int|
                0 <= j < i ==> (#[trigger] sizes@[j]) == budgeted_tokens(
                    rows@[j].1@,
                    counts@[j],
                    max_length,
                ),
        decreases rows@.len() - i,
    {
        let tokens: usize = match counts[i] {
            Some(count) => count,
            None => estimated_tokens(rows[i].1.as_str(), max_length),
        };
        hashes.push(rows[i].0.clone());
        sizes.push(
            if tokens <= limit {
                tokens
            } else {
                limit
            },
        );
        i += 1;
    }
    let order = size_order(&hashes, &sizes);
    assert(views(hashes@) =~= hashes_of(rows@));
    let mut out: Vec<SizedText> = Vec::new();
    let mut k: usize = 0;
    while k < order.len()
        invariant
            k <= order@.len() == rows@.len() == sizes@.len(),
            is_size_order(order@, hashes_of(rows@), sizes@, rows@.len() as int),
            out@.len() == k,
            forall|j: int|
                0 <= j < k ==> (#[trigger] out@[j]) == (
                    rows@[order@[j] as int].0,
                    rows@[order@[j] as int].1,
                    sizes@[order@[j] as int],
                ),
        decreases order@.len() - k,
    {
        let at: usize = order[k];
        assert(0 <= order@[k as int] < rows@.len());
        out.push((rows[at].0.clone(), rows[at].1.clone(), sizes[at]));
        k += 1;
    }
    out
}

/// Every pending row is either stored with its text or missing, and never both: a text
/// goes with the hash of its own row.
pub proof fn every_row_is_stored_or_missing(rows: Seq<PendingText>, k: int)
    requires
        0 <= k < rows.len(),
    ensures
        stored_rows(rows).len() + missing_rows(rows).len() == rows.len(),
        rows[k].text matches Some(text) ==> stored_rows(rows).contains((rows[k].hash, text)),
        rows[k].text is None ==> missing_rows(rows).contains(rows[k].hash),
        forall|i: int|
            0 <= i < stored_rows(rows).len() ==> exists|j: int|
                0 <= j < rows.len() && (#[trigger] rows[j]).hash == (
                #[trigger] stored_rows(rows)[i]).0 && rows[j].text == Some(stored_rows(rows)[i].1),
    decreases rows.len(),
{
    let front = rows.drop_last();
    let last = rows.last();
    if front.len() > 0 {
        every_row_is_stored_or_missing(
            front,
            if k < front.len() {
                k
            } else {
                0
            },
        );
    } else {
        assert(stored_rows(front).len() == 0 && missing_rows(front).len() == 0);
    }
    let (before, after) = (stored_rows(front), stored_rows(rows));
    if k < front.len() {
        assert(front[k] == rows[k]);
        if let Some(text) = rows[k].text {
            let i = choose|i: int| 0 <= i < before.len() && before[i] == (rows[k].hash, text);
            assert(after[i] == (rows[k].hash, text));
        } else {
            let (lost, gone) = (missing_rows(front), missing_rows(rows));
            let i = choose|i: int| 0 <= i < lost.len() && lost[i] == rows[k].hash;
            assert(gone[i] == rows[k].hash);
        }
    } else {
        if let Some(text) = last.text {
            assert(after[after.len() - 1] == (last.hash, text));
        } else {
            let gone = missing_rows(rows);
            assert(gone[gone.len() - 1] == last.hash);
        }
    }
    assert forall|i: int| 0 <= i < after.len() implies exists|j: int|
        0 <= j < rows.len() && (#[trigger] rows[j]).hash == (#[trigger] after[i]).0 && rows[j].text
            == Some(after[i].1) by {
        if i < before.len() {
            assert(after[i] == before[i]);
            let j = choose|j: int|
                0 <= j < front.len() && (#[trigger] front[j]).hash == before[i].0 && front[j].text
                    == Some(before[i].1);
            assert(rows[j] == front[j]);
        } else {
            assert(rows[rows.len() - 1] == last);
        }
    }
}

/// A recovered text goes with the hash at its own place among the missing ones.
pub proof fn recovered_texts_keep_their_hash(
    missing: Seq<String>,
    texts: Seq<Option<String>>,
    k: int,
)
    requires
        0 <= k < missing.len() <= texts.len(),
    ensures
        texts[k] matches Some(text) ==> recovered_rows(missing, texts).contains((missing[k], text)),
        recovered_rows(missing, texts).len() <= missing.len(),
        forall|i: int|
            0 <= i < recovered_rows(missing, texts).len() ==> exists|j: int|
                0 <= j < missing.len() && #[trigger] missing[j] == (
                #[trigger] recovered_rows(missing, texts)[i]).0 && texts[j] == Some(
                    recovered_rows(missing, texts)[i].1,
                ),
    decreases missing.len(),
{
    let front = missing.drop_last();
    if front.len() > 0 {
        recovered_texts_keep_their_hash(
            front,
            texts,
            if k < front.len() {
                k
            } else {
                0
            },
        );
    } else {
        assert(recovered_rows(front, texts).len() == 0);
    }
    let (before, after) = (recovered_rows(front, texts), recovered_rows(missing, texts));
    if let Some(text) = texts[k] {
        if k < front.len() {
            assert(front[k] == missing[k]);
            let i = choose|i: int| 0 <= i < before.len() && before[i] == (missing[k], text);
            assert(after[i] == (missing[k], text));
        } else {
            assert(after[after.len() - 1] == (missing[k], text));
        }
    }
    assert forall|i: int| 0 <= i < after.len() implies exists|j: int|
        0 <= j < missing.len() && #[trigger] missing[j] == (#[trigger] after[i]).0 && texts[j]
            == Some(after[i].1) by {
        if i < before.len() {
            assert(after[i] == before[i]);
            let j = choose|j: int|
                0 <= j < front.len() && #[trigger] front[j] == before[i].0 && texts[j] == Some(
                    before[i].1,
                );
            assert(missing[j] == front[j]);
        } else {
            assert(missing[missing.len() - 1] == missing.last());
        }
    }
}

/// A text is budgeted with the tokens that were counted for it, else with one for every
/// four characters and one more, and never with more than the model takes.
pub proof fn budgets_stay_within_the_model(
    text: Seq<char>,
    counted: Option<usize>,
    max_length: usize,
)
    requires
        max_length >= 1,
    ensures
        budgeted_tokens(text, counted, max_length) <= max_length,
        counted matches Some(count) ==> (count <= max_length ==> budgeted_tokens(
            text,
            counted,
            max_length,
        ) == count),
        counted is None && text.len() / 4 + 1 <= max_length ==> budgeted_tokens(
            text,
            counted,
            max_length,
        ) == text.len() as int / 4 + 1,
        counted is None || counted->0 > 0 ==> budgeted_tokens(text, counted, max_length) >= 1,
{
}

/// The rows are all embedded, each once, the longest first, with the budget of their own
/// text.
pub proof fn longer_texts_come_first(
    items: Seq<SizedText>,
    rows: Seq<(String, String)>,
    counts: Seq<Option<usize>>,
    max_length: usize,
    k: int,
)
    requires
        longest_first(items, rows, counts, max_length),
        rows.len() <= usize::MAX,
        0 <= k < rows.len(),
    ensures
        items.len() == rows.len(),
        exists|i: int|
            0 <= i < items.len() && (#[trigger] items[i]).0 == rows[k].0 && items[i].1 == rows[k].1
                && items[i].2 == budgeted_tokens(rows[k].1@, counts[k], max_length),
        forall|i: int, j: int|
            0 <= i < j < items.len() ==> (#[trigger] items[i]).2 >= (#[trigger] items[j]).2,
{
    let (order, sizes) = choose|order: Seq<usize>, sizes: Seq<usize>|
        #![trigger is_size_order(order, hashes_of(rows), sizes, rows.len() as int)]
        {
            &&& sizes.len() == rows.len()
            &&& forall|i: int|
                0 <= i < rows.len() ==> (#[trigger] sizes[i]) == budgeted_tokens(
                    rows[i].1@,
                    counts[i],
                    max_length,
                )
            &&& is_size_order(order, hashes_of(rows), sizes, rows.len() as int)
            &&& items.len() == rows.len()
            &&& forall|i: int|
                0 <= i < items.len() ==> (#[trigger] items[i]) == (
                    rows[order[i] as int].0,
                    rows[order[i] as int].1,
                    sizes[order[i] as int],
                )
        };
    assert(order.contains(k as usize));
    let i = choose|i: int| 0 <= i < order.len() && order[i] == k as usize;
    assert(items[i] == (rows[k].0, rows[k].1, sizes[k]));
    assert forall|i: int, j: int| 0 <= i < j < items.len() implies (#[trigger] items[i]).2 >= (
    #[trigger] items[j]).2 by {
        assert(0 <= order[i] < rows.len() && 0 <= order[j] < rows.len());
        assert(items[i].2 == sizes[order[i] as int] && items[j].2 == sizes[order[j] as int]);
    }
}

} // verus!
