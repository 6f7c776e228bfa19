//! Stable orders and choices.
use crate::text::{lex_less, lex_less_is_strict_order, precedes, views};
use vstd::prelude::*;

verus! {

/// The relation orders the numbers below `n` strictly and totally.
pub open spec fn strict_order(before: spec_fn(int, int) -> bool, n: int) -> bool {
    &&& forall|a: int, b: int|
        0 <= a < n && 0 <= b < n && a != b ==> (#[trigger] before(a, b)) != before(b, a)
    &&& forall|a: int, b: int, c: int|
        0 <= a < n && 0 <= b < n && 0 <= c < n && #[trigger] before(a, b) && #[trigger] before(
            b,
            c,
        ) ==> before(a, c)
}

/// `order` lists the numbers below `n`, each once, in the order of the relation.
pub open spec fn is_ordered(order: Seq<usize>, before: spec_fn(int, int) -> bool, n: int) -> bool {
    &&& order.len() == n
    &&& forall|i: int| 0 <= i < n ==> 0 <= #[trigger] order[i] < n
    &&& forall|k: usize| k < n ==> #[trigger] order.contains(k)
    &&& forall|i: int, j: int|
        0 <= i < j < n ==> before((#[trigger] order[i]) as int, (#[trigger] order[j]) as int)
}

/// The numbers below `n` in the order that `less` decides.
fn order_by<F: Fn(usize, usize) -> bool>(
    n: usize,
    less: F,
    before: Ghost<spec_fn(int, int) -> bool>,
) -> (r: Vec<usize>)
    requires
        strict_order(before@, n as int),
        forall|a: usize, b: usize| a < n && b < n ==> #[trigger] less.requires((a, b)),
        forall|a: usize, b: usize, c: bool|
            a < n && b < n && #[trigger] less.ensures((a, b), c) ==> c == before@(
                a as int,
                b as int,
            ),
    ensures
        is_ordered(r@, before@, n as int),
{
    let ghost rel = before@;
    let mut order: Vec<usize> = Vec::new();
    let mut k: usize = 0;
    while k < n
        invariant
            k <= n,
            rel == before@,
            strict_order(rel, n as int),
            forall|a: usize, b: usize| a < n && b < n ==> #[trigger] less.requires((a, b)),
            forall|a: usize, b: usize, c: bool|
                a < n && b < n && #[trigger] less.ensures((a, b), c) ==> c == rel(
                    a as int,
                    b as int,
                ),
            is_ordered(order@, rel, k as int),
        decreases n - k,
    {
        let mut at: usize = order.len();
        while at > 0 && less(k, order[at - 1])
            invariant
                at <= order@.len() == k < n,
                is_ordered(order@, rel, k as int),
                forall|a: usize, b: usize| a < n && b < n ==> #[trigger] less.requires((a, b)),
                forall|a: usize, b: usize, c: bool|
                    a < n && b < n && #[trigger] less.ensures((a, b), c) ==> c == rel(
                        a as int,
                        b as int,
                    ),
                forall|j: int| at <= j < k ==> rel(k as int, (#[trigger] order@[j]) as int),
                at == 0 || order@[at - 1] < k,
            ensures
                at == 0 || !rel(k as int, order@[at - 1] as int),
            decreases at,
        {
            at -= 1;
        }
        let ghost prior = order@;
        proof {
            assert forall|i: int| 0 <= i < at implies rel(
                (#[trigger] prior[i]) as int,
                k as int,
            ) by {
                let last = prior[at - 1] as int;
                assert(0 <= prior[at - 1] < k);
                assert(!rel(k as int, last));
                assert(rel(last, k as int));
                if i < at - 1 {
                    assert(rel(prior[i] as int, last));
                }
            }
        }
        order.insert(at, k);
        proof {
            assert(order@ =~= prior.insert(at as int, k));
            assert forall|i: int, j: int| 0 <= i < j < k + 1 implies rel(
                (#[trigger] order@[i]) as int,
                (#[trigger] order@[j]) as int,
            ) by {
                if i == at {
                    assert(order@[j] == prior[j - 1]);
                } else if j == at {
                    assert(order@[i] == prior[i]);
                } else {
                    let a = if i < at {
                        prior[i]
                    } else {
                        prior[i - 1]
                    };
                    let b = if j < at {
                        prior[j]
                    } else {
                        prior[j - 1]
                    };
                    assert(rel(a as int, b as int));
                }
            }
            assert forall|m: usize| m < k + 1 implies #[trigger] order@.contains(m) by {
                if m == k {
                    assert(order@[at as int] == m);
                } else {
                    assert(prior.contains(m));
                    let i = choose|i: int| 0 <= i < k && #[trigger] prior[i] == m;
                    if i < at {
                        assert(order@[i] == m);
                    } else {
                        assert(order@[i + 1] == m);
                    }
                }
            }
        }
        k += 1;
    }
    order
}

/// Item `a` comes before item `b`: its key does, or the keys are equal and `a`
/// came first.
pub open spec fn comes_before(keys: Seq<Seq<char>>, a: int, b: int) -> bool {
    lex_less(keys[a], keys[b]) || (keys[a] == keys[b] && a < b)
}

/// `order` lists the first `n` items, each once, in the order of their keys.
pub open spec fn is_sort_order(order: Seq<usize>, keys: Seq<Seq<char>>, n: int) -> bool {
    is_ordered(order, |a: int, b: int| comes_before(keys, a, b), n)
}

/// The order of items that come before one another is strict and total.
pub proof fn comes_before_is_strict_order(keys: Seq<Seq<char>>, a: int, b: int, c: int)
    ensures
        !comes_before(keys, a, a),
        comes_before(keys, a, b) ==> !comes_before(keys, b, a),
        comes_before(keys, a, b) && comes_before(keys, b, c) ==> comes_before(keys, a, c),
        a == b || comes_before(keys, a, b) || comes_before(keys, b, a),
{
    lex_less_is_strict_order(keys[a], keys[b], keys[c]);
    lex_less_is_strict_order(keys[b], keys[a], keys[c]);
    lex_less_is_strict_order(keys[c], keys[a], keys[b]);
}

/// The numbers of the items in the order of their keys; equal keys keep the
/// order in which they came.
pub fn sort_order(keys: &Vec<String>) -> (r: Vec<usize>)
    ensures
        is_sort_order(r@, views(keys@), keys@.len() as int),
{
    let ghost texts = views(keys@);
    let ghost before = |a: int, b: int| comes_before(texts, a, b);
    proof {
        assert forall|a: int, b: int| a != b implies (#[trigger] before(a, b)) != before(b, a) by {
            comes_before_is_strict_order(texts, a, b, b);
        }
        assert forall|a: int, b: int, c: int|
            #[trigger] before(a, b) && #[trigger] before(b, c) implies before(a, c) by {
            comes_before_is_strict_order(texts, a, b, c);
        }
    }
    let less = |a: usize, b: usize| -> (c: bool)
        requires
            a < keys@.len() && b < keys@.len(),
        ensures
            c == comes_before(views(keys@), a as int, b as int),
        {
            proof {
                lex_less_is_strict_order(keys@[a as int]@, keys@[b as int]@, keys@[b as int]@);
            }
            precedes(keys[a].as_str(), keys[b].as_str()) || (!precedes(
                keys[b].as_str(),
                keys[a].as_str(),
            ) && a < b)
        };
    order_by(keys.len(), less, Ghost(before))
}

/// Item `a` comes before item `b`: it is larger, or they are equally large and
/// its key comes first.
pub open spec fn larger_first(keys: Seq<Seq<char>>, sizes: Seq<usize>, a: int, b: int) -> bool {
    sizes[a] > sizes[b] || (sizes[a] == sizes[b] && comes_before(keys, a, b))
}

/// `order` lists the first `n` items, each once, the largest first and equally
/// large ones in the order of their keys.
pub open spec fn is_size_order(
    order: Seq<usize>,
    keys: Seq<Seq<char>>,
    sizes: Seq<usize>,
    n: int,
) -> bool {
    is_ordered(order, |a: int, b: int| larger_first(keys, sizes, a, b), n)
}

/// The numbers of the items, the largest first and equally large ones in the
/// order of their keys.
pub fn size_order(keys: &Vec<String>, sizes: &Vec<usize>) -> (r: Vec<usize>)
    requires
        sizes@.len() == keys@.len(),
    ensures
        is_size_order(r@, views(keys@), sizes@, keys@.len() as int),
{
    let ghost texts = views(keys@);
    let ghost before = |a: int, b: int| larger_first(texts, sizes@, a, b);
    proof {
        assert forall|a: int, b: int| a != b implies (#[trigger] before(a, b)) != before(b, a) by {
            comes_before_is_strict_order(texts, a, b, b);
        }
        assert forall|a: int, b: int, c: int|
            #[trigger] before(a, b) && #[trigger] before(b, c) implies before(a, c) by {
            comes_before_is_strict_order(texts, a, b, c);
        }
    }
    let less = |a: usize, b: usize| -> (c: bool)
        requires
            a < keys@.len() && b < keys@.len() && keys@.len() == sizes@.len(),
        ensures
            c == larger_first(views(keys@), sizes@, a as int, b as int),
        {
            proof {
                lex_less_is_strict_order(keys@[a as int]@, keys@[b as int]@, keys@[b as int]@);
            }
            sizes[a] > sizes[b] || (sizes[a] == sizes[b] && (precedes(
                keys[a].as_str(),
                keys[b].as_str(),
            ) || (!precedes(keys[b].as_str(), keys[a].as_str()) && a < b)))
        };
    order_by(keys.len(), less, Ghost(before))
}

/// Item `a` comes before item `b`: it weighs more, or as much under a smaller
/// number, or as much under the same number and it came first.
pub open spec fn heavier_first(weights: Seq<u64>, numbers: Seq<usize>, a: int, b: int) -> bool {
    weights[a] > weights[b] || (weights[a] == weights[b] && (numbers[a] < numbers[b] || (numbers[a]
        == numbers[b] && a < b)))
}

/// `order` lists the first `n` items, each once, the heaviest first and equally
/// heavy ones by their numbers.
pub open spec fn is_weight_order(
    order: Seq<usize>,
    weights: Seq<u64>,
    numbers: Seq<usize>,
    n: int,
) -> bool {
    is_ordered(order, |a: int, b: int| heavier_first(weights, numbers, a, b), n)
}

/// The numbers of the items, the heaviest first and equally heavy ones by their
/// numbers.
pub fn weight_order(weights: &Vec<u64>, numbers: &Vec<usize>) -> (r: Vec<usize>)
    requires
        weights@.len() == numbers@.len(),
    ensures
        is_weight_order(r@, weights@, numbers@, weights@.len() as int),
{
    let ghost before = |a: int, b: int| heavier_first(weights@, numbers@, a, b);
    let less = |a: usize, b: usize| -> (c: bool)
        requires
            a < weights@.len() && b < weights@.len() && weights@.len() == numbers@.len(),
        ensures
            c == heavier_first(weights@, numbers@, a as int, b as int),
        {
            weights[a] > weights[b] || (weights[a] == weights[b] && (numbers[a] < numbers[b] || (
            numbers[a] == numbers[b] && a < b)))
        };
    order_by(weights.len(), less, Ghost(before))
}

/// The numbers below `n` that are chosen, in order.
pub open spec fn chosen(n: nat, choice: spec_fn(int) -> bool) -> Seq<usize>
    decreases n,
{
    if n == 0 {
        Seq::empty()
    } else {
        let before = chosen((n - 1) as nat, choice);
        if choice(n - 1) {
            before.push((n - 1) as usize)
        } else {
            before
        }
    }
}

/// A chosen number is below `n` and chosen, and comes once.
pub proof fn chosen_numbers(n: nat, choice: spec_fn(int) -> bool)
    requires
        n <= usize::MAX,
    ensures
        forall|i: int|
            0 <= i < chosen(n, choice).len() ==> (#[trigger] chosen(n, choice)[i]) < n && choice(
                chosen(n, choice)[i] as int,
            ),
        forall|i: int, j: int|
            0 <= i < j < chosen(n, choice).len() ==> (#[trigger] chosen(n, choice)[i]) < (
            #[trigger] chosen(n, choice)[j]),
        forall|k: int| 0 <= k < n && choice(k) ==> chosen(n, choice).contains(#[trigger] (k as usize)),
    decreases n,
{
    if n > 0 {
        let m = (n - 1) as nat;
        chosen_numbers(m, choice);
        let before = chosen(m, choice);
        let after = chosen(n, choice);
        assert forall|k: int| 0 <= k < n && choice(k) implies after.contains(#[trigger] (k as usize)) by {
            if k < m {
                assert(before.contains(k as usize));
                let i = choose|i: int| 0 <= i < before.len() && before[i] == k as usize;
                assert(after[i] == k as usize);
            } else {
                assert(after[after.len() - 1] == k as usize);
            }
        }
    }
}

} // verus!
