use codeindex::embedding::batches::{batch_bounds, estimated_tokens, pack_batches};
use codeindex::embedding::tokens::TokenStats;

/// Items sized in chars, tokens derived with the chars/4 estimate clamped at 500:
/// mirrors the fallback path.
fn pairs(sizes: &[usize]) -> Vec<(String, String, usize)> {
    sizes
        .iter()
        .enumerate()
        .map(|(i, len)| {
            let text = "x".repeat(*len);
            let tokens = estimated_tokens(&text, 500);
            (format!("h{i}"), text, tokens)
        })
        .collect()
}

#[test]
fn batches_respect_item_and_char_limits() {
    let items = pairs(&[10, 10, 10, 10, 10]);
    let by_count = pack_batches(&items, 2, 1000, usize::MAX);
    assert_eq!(by_count.len(), 3);
    assert_eq!(by_count[0].len(), 2);
    assert_eq!(by_count[2].len(), 1);

    let by_chars = pack_batches(&items, 100, 25, usize::MAX);
    assert_eq!(by_chars.len(), 3, "10+10 fits, third overflows 25");

    // A single oversized item still forms its own batch.
    let big = pairs(&[500]);
    assert_eq!(pack_batches(&big, 10, 25, usize::MAX).len(), 1);
}

#[test]
fn batches_respect_token_area_budget() {
    // 2000 chars ~ 501 tokens, clamped to 500 -> area 250_000 per item.
    // Budget 1_000_000 fits four such items per batch.
    let items = pairs(&[2000, 2000, 2000, 2000, 2000, 2000]);
    let batches = pack_batches(&items, 100, usize::MAX, 1_000_000);
    assert_eq!(batches.len(), 2);
    assert_eq!(batches[0].len(), 4);
    assert_eq!(batches[1].len(), 2);

    // Longest-first input: one long item (500 tokens after clamping)
    // caps its batch at 4, then the short tail (26 tokens) packs densely.
    let mut sizes = vec![2000usize];
    sizes.extend(std::iter::repeat(100).take(20));
    let mixed = pairs(&sizes);
    let batches = pack_batches(&mixed, 100, usize::MAX, 1_000_000);
    assert_eq!(batches[0].len(), 4, "long head limits the first batch");
    assert_eq!(batches.len(), 2, "short tail packs into one batch");

    // A single item over budget still embeds alone.
    let big = pairs(&[4000]);
    assert_eq!(pack_batches(&big, 10, usize::MAX, 1000).len(), 1);

    // Exact token counts override any char-based intuition: 100-char
    // items reported as 500 tokens each pack like long items.
    let dense: Vec<(String, String, usize)> = (0..6)
        .map(|i| (format!("d{i}"), "y".repeat(100), 500))
        .collect();
    let batches = pack_batches(&dense, 100, usize::MAX, 1_000_000);
    assert_eq!(batches.len(), 2);
    assert_eq!(batches[0].len(), 4);
}

#[test]
fn batches_lie_between_their_bounds() {
    let items = pairs(&[10, 10, 10, 10, 10]);
    assert_eq!(batch_bounds(&items, 2, 1000, usize::MAX), vec![0, 2, 4, 5]);
    let none: Vec<(String, String, usize)> = Vec::new();
    assert_eq!(pack_batches(&none, 2, 1000, usize::MAX).len(), 0);
}

#[test]
fn estimates_are_clamped() {
    assert_eq!(estimated_tokens("", 500), 1);
    assert_eq!(estimated_tokens("abcdefgh", 500), 3);
    assert_eq!(estimated_tokens(&"x".repeat(4000), 500), 500);
}

/// The length at a quantile, with the rank rounded to the nearest.
fn percentile(stats: &TokenStats, q: f64) -> usize {
    if stats.count() == 0 {
        return 0;
    }
    let rank = ((stats.count() - 1) as f64 * q).round() as usize;
    stats.length_at_rank(rank)
}

fn padding_waste(stats: &TokenStats) -> f64 {
    if stats.padded_positions == 0 {
        return 0.0;
    }
    1.0 - stats.token_positions as f64 / stats.padded_positions as f64
}

#[test]
fn token_stats_percentiles_truncation_and_waste() {
    let mut stats = TokenStats::default();
    // One batch padded to 500: 3 items -> 1500 padded, 1000 real.
    stats.record_batch(&vec![500usize, 300, 200], 500);
    // A dense batch with no padding.
    stats.record_batch(&vec![100usize, 100], 500);
    assert_eq!(stats.count(), 5);
    assert_eq!(stats.truncated, 1);
    assert_eq!(stats.max(), 500);
    assert_eq!(percentile(&stats, 0.5), 200);
    assert_eq!(stats.token_positions, 1200);
    assert_eq!(stats.padded_positions, 1700);
    assert!((padding_waste(&stats) - (1.0 - 1200.0 / 1700.0)).abs() < 1e-9);
}

#[test]
fn record_length_over_and_merge() {
    let mut a = TokenStats::default();
    for len in [100usize, 600, 2100, 300] {
        a.record_length(len);
    }
    assert_eq!(a.count(), 4);
    assert_eq!(a.max(), 2100);
    assert_eq!(a.over(512), 2, "600 and 2100 exceed 512");
    assert_eq!(a.over(2048), 1, "only 2100 exceeds 2048");
    // Single lengths track no padding, so waste stays zero.
    assert_eq!(padding_waste(&a), 0.0);

    let mut b = TokenStats::default();
    b.record_length(700);
    a.merge(&b);
    assert_eq!(a.count(), 5);
    assert_eq!(a.over(512), 3);
}

#[test]
fn ranks_follow_the_sorted_lengths() {
    let mut stats = TokenStats::default();
    for len in [5usize, 1, 3, 3] {
        stats.record_length(len);
    }
    let sorted: Vec<usize> = (0..4).map(|rank| stats.length_at_rank(rank)).collect();
    assert_eq!(sorted, vec![1, 3, 3, 5]);
}
