//! Packing inputs into batches.
use vstd::prelude::*;
use vstd::slice::slice_subrange;
use vstd::string::*;

verus! {

/// One input of an embedding run: its content hash, its text and its length in
/// tokens.
pub type SizedText = (String, String, usize);

/// Rough tokens for a code body: ~4 chars/token, clamped to what the model will
/// actually attend to after truncation.
pub fn estimated_tokens(text: &str, max_sequence_length: usize) -> (r: usize)
    ensures
        ({
            let limit = if max_sequence_length >= 1 {
                max_sequence_length as int
            } else {
                1
            };
            let estimate = text@.len() as int / 4 + 1;
            r == if estimate <= limit {
                estimate
            } else {
                limit
            }
        }),
{
    let limit: usize = if max_sequence_length >= 1 {
        max_sequence_length
    } else {
        1
    };
    let estimate: usize = text.unicode_len() / 4 + 1;
    if estimate <= limit {
        estimate
    } else {
        limit
    }
}

/// The characters of the items `from..to`.
pub open spec fn total_chars(items: Seq<SizedText>, from: int, to: int) -> int
    decreases to - from,
{
    if to <= from {
        0
    } else {
        total_chars(items, from, to - 1) + items[to - 1].1@.len()
    }
}

/// The most tokens of the items `from..to`.
pub open spec fn longest(items: Seq<SizedText>, from: int, to: int) -> int
    decreases to - from,
{
    if to <= from {
        0
    } else {
        let before = longest(items, from, to - 1);
        if before >= items[to - 1].2 {
            before
        } else {
            items[to - 1].2 as int
        }
    }
}

/// The padded token area of a batch: every input is padded to the longest, and
/// attention is materialized over it.
pub open spec fn area(items: Seq<SizedText>, from: int, to: int) -> int {
    (to - from) * longest(items, from, to) * longest(items, from, to)
}

/// The limits of a batch.
pub struct BatchLimits {
    pub items: usize,
    pub chars: usize,
    pub token_area: usize,
}

/// The batch that begins at `start` has no room for item `next`.
pub open spec fn is_full(
    items: Seq<SizedText>,
    limits: BatchLimits,
    start: int,
    next: int,
) -> bool {
    ||| next - start >= limits.items
    ||| total_chars(items, start, next + 1) > limits.chars
    ||| area(items, start, next + 1) > limits.token_area
}

/// The batch `start..end` is what greedy packing makes of the items at `start`:
/// it takes every item that there is room for, and always the first.
pub open spec fn is_batch(
    items: Seq<SizedText>,
    limits: BatchLimits,
    start: int,
    end: int,
) -> bool {
    &&& 0 <= start < end <= items.len()
    &&& forall|i: int| start < i < end ==> !#[trigger] is_full(items, limits, start, i)
    &&& end < items.len() ==> is_full(items, limits, start, end)
}

/// The number of items in the first `k` batches.
pub open spec fn offset(batches: Seq<&[SizedText]>, k: int) -> int
    decreases k,
{
    if k <= 0 {
        0
    } else {
        offset(batches, k - 1) + batches[k - 1]@.len()
    }
}

/// The batches are, one after another, what greedy packing makes of the items.
pub open spec fn is_packing(
    batches: Seq<&[SizedText]>,
    items: Seq<SizedText>,
    limits: BatchLimits,
) -> bool {
    forall|k: int|
        0 <= k < batches.len() ==> {
            let start = offset(batches, k);
            let end = start + (#[trigger] batches[k])@.len();
            &&& is_batch(items, limits, start, end)
            &&& batches[k]@ == items.subrange(start, end)
        }
}

proof fn offset_of_longer(batches: Seq<&[SizedText]>, batch: &[SizedText], k: int)
    requires
        k <= batches.len(),
    ensures
        offset(batches.push(batch), k) == offset(batches, k),
    decreases k,
{
    if k > 0 {
        offset_of_longer(batches, batch, k - 1);
    }
}

proof fn packing_extends(
    batches: Seq<&[SizedText]>,
    batch: &[SizedText],
    items: Seq<SizedText>,
    limits: BatchLimits,
)
    requires
        is_packing(batches, items, limits),
        ({
            let start = offset(batches, batches.len() as int);
            let end = start + batch@.len();
            is_batch(items, limits, start, end) && batch@ == items.subrange(start, end)
        }),
    ensures
        is_packing(batches.push(batch), items, limits),
        offset(batches.push(batch), (batches.len() + 1) as int) == offset(batches, batches.len() as int)
            + batch@.len(),
{
    let longer = batches.push(batch);
    assert forall|k: int| 0 <= k < longer.len() implies {
        let start = offset(longer, k);
        let end = start + (#[trigger] longer[k])@.len();
        &&& is_batch(items, limits, start, end)
        &&& longer[k]@ == items.subrange(start, end)
    } by {
        offset_of_longer(batches, batch, k);
        if k < batches.len() {
            assert(longer[k] == batches[k]);
        }
    }
    offset_of_longer(batches, batch, batches.len() as int);
}

fn exceeds_area(count: usize, tokens: usize, limit: usize) -> (r: bool)
    ensures
        r == (count * tokens * tokens > limit),
{
    match count.checked_mul(tokens) {
        None => {
            proof {
                let product = count * tokens;
                assert(product * tokens >= product) by (nonlinear_arith)
                    requires
                        product > 0,
                        tokens > 0,
                ;
            }
            true
        },
        Some(row) => match row.checked_mul(tokens) {
            None => true,
            Some(all) => all > limit,
        },
    }
}

/// Split (hash, text, tokens) items into batches bounded by item count, total
/// characters, and padded token area. A runtime pads every input to the longest
/// in the batch and materializes attention over it, so peak memory scales with
/// `count * longest_tokens^2`; that product is what `max_token_area` caps. Items
/// should be sorted longest-first, so that long bodies batch together instead of
/// inflating short ones.
pub fn pack_batches<'a>(
    items: &'a [SizedText],
    max_items: usize,
    max_chars: usize,
    max_token_area: usize,
) -> (r: Vec<&'a [SizedText]>)
    ensures
        is_packing(
            r@,
            items@,
            (BatchLimits { items: max_items, chars: max_chars, token_area: max_token_area }),
        ),
        offset(r@, r@.len() as int) == items@.len(),
{
    let ghost limits = BatchLimits {
        items: max_items,
        chars: max_chars,
        token_area: max_token_area,
    };
    let mut batches: Vec<&'a [SizedText]> = Vec::new();
    let mut start: usize = 0;
    let mut chars: usize = 0;
    let mut longest_tokens: usize = 0;
    let mut index: usize = 0;
    while index < items.len()
        invariant
            start <= index <= items@.len(),
            index > 0 ==> start < index,
            limits == (BatchLimits {
                items: max_items,
                chars: max_chars,
                token_area: max_token_area,
            }),
            chars == total_chars(items@, start as int, index as int),
            longest_tokens == longest(items@, start as int, index as int),
            is_packing(batches@, items@, limits),
            offset(batches@, batches@.len() as int) == start,
            forall|i: int|
                start < i < index ==> !#[trigger] is_full(items@, limits, start as int, i),
        decreases items@.len() - index,
    {
        let len: usize = items[index].1.as_str().unicode_len();
        let tokens: usize = items[index].2;
        let candidate: usize = if longest_tokens >= tokens {
            longest_tokens
        } else {
            tokens
        };
        let sum = chars.checked_add(len);
        let too_many_chars = match sum {
            None => true,
            Some(total) => total > max_chars,
        };
        assert(candidate == longest(items@, start as int, index + 1));
        assert(total_chars(items@, start as int, index + 1) == chars + len);
        let full = index - start >= max_items || too_many_chars || exceeds_area(
            index - start + 1,
            candidate,
            max_token_area,
        );
        assert(full == is_full(items@, limits, start as int, index as int));
        if index > start && full {
            let batch = slice_subrange(items, start, index);
            proof {
                packing_extends(batches@, batch, items@, limits);
            }
            batches.push(batch);
            start = index;
            chars = len;
            longest_tokens = tokens;
            assert(total_chars(items@, start as int, start as int) == 0);
            assert(longest(items@, start as int, start as int) == 0);
        } else {
            chars = match sum {
                Some(total) => total,
                None => len,
            };
            longest_tokens = candidate;
        }
        index += 1;
    }
    if start < items.len() {
        let batch = slice_subrange(items, start, items.len());
        proof {
            packing_extends(batches@, batch, items@, limits);
        }
        batches.push(batch);
    }
    batches
}

/// The items of the first `k` batches, in order.
pub open spec fn concatenated(batches: Seq<&[SizedText]>, k: int) -> Seq<SizedText>
    decreases k,
{
    if k <= 0 {
        Seq::empty()
    } else {
        concatenated(batches, k - 1) + batches[k - 1]@
    }
}

proof fn batches_continue(
    batches: Seq<&[SizedText]>,
    items: Seq<SizedText>,
    limits: BatchLimits,
    k: int,
)
    requires
        is_packing(batches, items, limits),
        0 <= k <= batches.len(),
    ensures
        0 <= offset(batches, k) <= items.len(),
        concatenated(batches, k) == items.take(offset(batches, k)),
    decreases k,
{
    if k > 0 {
        batches_continue(batches, items, limits, k - 1);
        let start = offset(batches, k - 1);
        let end = start + batches[k - 1]@.len();
        assert(is_batch(items, limits, start, end));
        assert(items.take(start) + items.subrange(start, end) =~= items.take(end));
    } else {
        assert(items.take(0) =~= Seq::<SizedText>::empty());
    }
}

/// Packing keeps every item, once and in order.
pub proof fn batches_hold_every_item_in_order(
    batches: Seq<&[SizedText]>,
    items: Seq<SizedText>,
    limits: BatchLimits,
)
    requires
        is_packing(batches, items, limits),
        offset(batches, batches.len() as int) == items.len(),
    ensures
        concatenated(batches, batches.len() as int) == items,
{
    batches_continue(batches, items, limits, batches.len() as int);
    assert(items.take(items.len() as int) =~= items);
}

/// A batch of more than one item keeps to all three limits; only an item that is
/// too large by itself makes a batch that does not.
pub proof fn batches_keep_to_their_limits(
    items: Seq<SizedText>,
    limits: BatchLimits,
    start: int,
    end: int,
)
    requires
        is_batch(items, limits, start, end),
        end - start > 1,
    ensures
        end - start <= limits.items,
        total_chars(items, start, end) <= limits.chars,
        area(items, start, end) <= limits.token_area,
{
    assert(!is_full(items, limits, start, end - 1));
}

/// The bounds of the batches: each batch begins where the one before it ends.
pub open spec fn are_bounds(bounds: Seq<usize>, items: Seq<SizedText>, limits: BatchLimits) -> bool {
    &&& bounds.len() > 0
    &&& bounds[0] == 0
    &&& bounds.last() == items.len()
    &&& forall|k: int|
        0 <= k < bounds.len() - 1 ==> is_batch(
            items,
            limits,
            #[trigger] bounds[k] as int,
            bounds[k + 1] as int,
        )
}

/// The bounds of the batches that `pack_batches` makes.
pub fn batch_bounds(
    items: &Vec<SizedText>,
    max_items: usize,
    max_chars: usize,
    max_token_area: usize,
) -> (r: Vec<usize>)
    ensures
        are_bounds(
            r@,
            items@,
            (BatchLimits { items: max_items, chars: max_chars, token_area: max_token_area }),
        ),
{
    let ghost limits = BatchLimits {
        items: max_items,
        chars: max_chars,
        token_area: max_token_area,
    };
    let batches = pack_batches(items.as_slice(), max_items, max_chars, max_token_area);
    let mut bounds: Vec<usize> = vec![0];
    let mut at: usize = 0;
    let mut k: usize = 0;
    while k < batches.len()
        invariant
            k <= batches@.len(),
            is_packing(batches@, items@, limits),
            at == offset(batches@, k as int),
            bounds@.len() == k + 1,
            bounds@[0] == 0,
            bounds@.last() == at,
            forall|j: int|
                0 <= j < k ==> is_batch(
                    items@,
                    limits,
                    #[trigger] bounds@[j] as int,
                    bounds@[j + 1] as int,
                ),
        decreases batches@.len() - k,
    {
        let ghost before = bounds@;
        proof {
            batches_continue(batches@, items@, limits, k + 1);
            assert(items@.len() == items.len());
            assert(is_batch(
                items@,
                limits,
                offset(batches@, k as int),
                offset(batches@, k as int) + batches@[k as int]@.len(),
            ));
        }
        at = at + batches[k].len();
        bounds.push(at);
        assert forall|j: int| 0 <= j < k + 1 implies is_batch(
            items@,
            limits,
            #[trigger] bounds@[j] as int,
            bounds@[j + 1] as int,
        ) by {
            if j < k {
                assert(bounds@[j] == before[j] && bounds@[j + 1] == before[j + 1]);
            }
        }
        k += 1;
    }
    bounds
}

/// The longest is as long as each and no longer than all, and the characters of two
/// stretches add up.
pub proof fn sizes_are_those_of_the_items(items: Seq<SizedText>, from: int, middle: int, to: int)
    requires
        0 <= from <= middle <= to <= items.len(),
    ensures
        forall|i: int| from <= i < to ==> (#[trigger] items[i]).2 <= longest(items, from, to),
        from < to ==> exists|i: int|
            from <= i < to && (#[trigger] items[i]).2 == longest(items, from, to),
        total_chars(items, from, to) == total_chars(items, from, middle) + total_chars(
            items,
            middle,
            to,
        ),
        from < to ==> total_chars(items, from, from + 1) == items[from].1@.len(),
    decreases to - from,
{
    reveal_with_fuel(total_chars, 2);
    if from < to {
        if middle < to {
            sizes_are_those_of_the_items(items, from, middle, to - 1);
        } else {
            sizes_are_those_of_the_items(items, from, from, to - 1);
            sizes_of_nothing(items, to);
        }
        if from < to - 1 && longest(items, from, to) == longest(items, from, to - 1) {
            let i = choose|i: int|
                from <= i < to - 1 && (#[trigger] items[i]).2 == longest(items, from, to - 1);
            assert(items[i].2 == longest(items, from, to));
        } else {
            assert(items[to - 1].2 == longest(items, from, to));
        }
    }
}

proof fn sizes_of_nothing(items: Seq<SizedText>, at: int)
    ensures
        total_chars(items, at, at) == 0,
{
}

/// A batch of more than one item keeps to every limit as it is run: each item is filled
/// up to the longest, so with every item the number of items times the square of its
/// length is within the area, and no more characters or items are in it than are allowed.
pub proof fn every_item_fits_its_batch(
    items: Seq<SizedText>,
    limits: BatchLimits,
    start: int,
    end: int,
    i: int,
)
    requires
        is_batch(items, limits, start, end),
        end - start > 1,
        start <= i < end,
    ensures
        end - start <= limits.items,
        (end - start) * (items[i].2 * items[i].2) <= limits.token_area,
        items[i].1@.len() <= limits.chars,
{
    batches_keep_to_their_limits(items, limits, start, end);
    sizes_are_those_of_the_items(items, start, i, end);
    sizes_are_those_of_the_items(items, i, i + 1, end);
    chars_are_counted(items, start, i);
    chars_are_counted(items, i + 1, end);
    let most = longest(items, start, end);
    let own = items[i].2 as int;
    let count = end - start;
    assert(count * (own * own) <= count * most * most) by (nonlinear_arith)
        requires
            0 <= own <= most,
            count >= 0,
    ;
}

proof fn chars_are_counted(items: Seq<SizedText>, from: int, to: int)
    ensures
        total_chars(items, from, to) >= 0,
    decreases to - from,
{
    if from < to {
        chars_are_counted(items, from, to - 1);
    }
}

/// A batch ends before the last item only where the next item would break a limit.
pub proof fn a_batch_ends_only_where_it_must(
    items: Seq<SizedText>,
    limits: BatchLimits,
    start: int,
    end: int,
)
    requires
        is_batch(items, limits, start, end),
        end < items.len(),
    ensures
        ({
            let most = if longest(items, start, end) >= items[end].2 {
                longest(items, start, end)
            } else {
                items[end].2 as int
            };
            ||| end - start + 1 > limits.items
            ||| total_chars(items, start, end) + items[end].1@.len() > limits.chars
            ||| (end - start + 1) * most * most > limits.token_area
        }),
{
}

} // verus!
