//! Compression of narrative queries.
use crate::text::{
    alphanumeric, chars_of, is_alphanumeric, join, joined, lowercase, lowercased, parts_between,
    same, split_marked, split_words, views, words,
};
use vstd::prelude::*;
use vstd::utf8::encode_utf8;

verus! {

/// The function words that compression drops. Deliberately few and English only:
/// the goal is to shed narrative filler.
pub open spec fn stopword(term: Seq<char>) -> bool {
    ||| term == "a"@
    ||| term == "about"@
    ||| term == "against"@
    ||| term == "all"@
    ||| term == "am"@
    ||| term == "an"@
    ||| term == "and"@
    ||| term == "any"@
    ||| term == "are"@
    ||| term == "as"@
    ||| term == "at"@
    ||| term == "be"@
    ||| term == "because"@
    ||| term == "been"@
    ||| term == "being"@
    ||| term == "but"@
    ||| term == "by"@
    ||| term == "can"@
    ||| term == "could"@
    ||| term == "did"@
    ||| term == "do"@
    ||| term == "does"@
    ||| term == "doing"@
    ||| term == "for"@
    ||| term == "from"@
    ||| term == "had"@
    ||| term == "has"@
    ||| term == "have"@
    ||| term == "having"@
    ||| term == "how"@
    ||| term == "i"@
    ||| term == "if"@
    ||| term == "in"@
    ||| term == "into"@
    ||| term == "is"@
    ||| term == "it"@
    ||| term == "its"@
    ||| term == "just"@
    ||| term == "me"@
    ||| term == "my"@
    ||| term == "no"@
    ||| term == "not"@
    ||| term == "of"@
    ||| term == "on"@
    ||| term == "or"@
    ||| term == "our"@
    ||| term == "out"@
    ||| term == "over"@
    ||| term == "should"@
    ||| term == "so"@
    ||| term == "some"@
    ||| term == "such"@
    ||| term == "than"@
    ||| term == "that"@
    ||| term == "the"@
    ||| term == "their"@
    ||| term == "them"@
    ||| term == "then"@
    ||| term == "there"@
    ||| term == "these"@
    ||| term == "they"@
    ||| term == "this"@
    ||| term == "those"@
    ||| term == "to"@
    ||| term == "under"@
    ||| term == "up"@
    ||| term == "very"@
    ||| term == "want"@
    ||| term == "was"@
    ||| term == "we"@
    ||| term == "were"@
    ||| term == "what"@
    ||| term == "when"@
    ||| term == "where"@
    ||| term == "which"@
    ||| term == "while"@
    ||| term == "who"@
    ||| term == "why"@
    ||| term == "will"@
    ||| term == "with"@
    ||| term == "would"@
    ||| term == "you"@
    ||| term == "your"@
}

fn is_stopword(term: &str) -> (r: bool)
    ensures
        r == stopword(term@),
{
    same(term, "a") || same(term, "about") || same(term, "against") || same(term, "all")
        || same(term, "am") || same(term, "an") || same(term, "and") || same(term, "any")
        || same(term, "are") || same(term, "as") || same(term, "at") || same(term, "be")
        || same(term, "because") || same(term, "been") || same(term, "being") || same(term, "but")
        || same(term, "by") || same(term, "can") || same(term, "could") || same(term, "did")
        || same(term, "do") || same(term, "does") || same(term, "doing") || same(term, "for")
        || same(term, "from") || same(term, "had") || same(term, "has") || same(term, "have")
        || same(term, "having") || same(term, "how") || same(term, "i") || same(term, "if")
        || same(term, "in") || same(term, "into") || same(term, "is") || same(term, "it")
        || same(term, "its") || same(term, "just") || same(term, "me") || same(term, "my")
        || same(term, "no") || same(term, "not") || same(term, "of") || same(term, "on")
        || same(term, "or") || same(term, "our") || same(term, "out") || same(term, "over")
        || same(term, "should") || same(term, "so") || same(term, "some") || same(term, "such")
        || same(term, "than") || same(term, "that") || same(term, "the") || same(term, "their")
        || same(term, "them") || same(term, "then") || same(term, "there") || same(term, "these")
        || same(term, "they") || same(term, "this") || same(term, "those") || same(term, "to")
        || same(term, "under") || same(term, "up") || same(term, "very") || same(term, "want")
        || same(term, "was") || same(term, "we") || same(term, "were") || same(term, "what")
        || same(term, "when") || same(term, "where") || same(term, "which") || same(term, "while")
        || same(term, "who") || same(term, "why") || same(term, "will") || same(term, "with")
        || same(term, "would") || same(term, "you") || same(term, "your")
}

/// The character may stand in a term.
pub open spec fn term_char(c: char) -> bool {
    alphanumeric(c) || c == '_'
}

/// The parts of a query that could be terms.
pub open spec fn term_parts(query: Seq<char>) -> Seq<Seq<char>> {
    parts_between(query, |c: char| !term_char(c))
}

/// One of the terms is `term` but for case.
pub open spec fn holds_term(terms: Seq<Seq<char>>, term: Seq<char>) -> bool {
    exists|i: int|
        0 <= i < terms.len() && lowercased(#[trigger] terms[i]) == lowercased(term)
}

/// The part says something: it is long enough and no function word.
pub open spec fn distinctive(part: Seq<char>) -> bool {
    encode_utf8(part).len() >= 3 && !stopword(lowercased(part))
}

/// The distinctive parts, each but for case only where it first comes.
pub open spec fn distinctive_terms(parts: Seq<Seq<char>>) -> Seq<Seq<char>>
    decreases parts.len(),
{
    if parts.len() == 0 {
        Seq::empty()
    } else {
        let before = distinctive_terms(parts.drop_last());
        if distinctive(parts.last()) && !holds_term(before, parts.last()) {
            before.push(parts.last())
        } else {
            before
        }
    }
}

/// The terms that stand for a query: its first distinctive ones.
pub open spec fn query_terms(query: Seq<char>, max_terms: nat) -> Seq<Seq<char>> {
    let terms = distinctive_terms(term_parts(query));
    if terms.len() > max_terms {
        terms.take(max_terms as int)
    } else {
        terms
    }
}

/// The compressed form of a query; nothing where there are too few words or terms
/// or nothing would change.
pub open spec fn compressed(query: Seq<char>, max_terms: nat, min_words: nat) -> Option<Seq<char>> {
    let terms = query_terms(query, max_terms);
    let text = joined(terms, " "@);
    if words(query).len() < min_words || terms.len() < 4 || text == query {
        None
    } else {
        Some(text)
    }
}

fn split_terms(query: &str) -> (r: Vec<String>)
    ensures
        views(r@) == term_parts(query@),
{
    let chars = chars_of(query);
    let mut marks: Vec<bool> = Vec::new();
    let mut i: usize = 0;
    while i < chars.len()
        invariant
            i <= chars@.len(),
            marks@.len() == i,
            forall|j: int| 0 <= j < i ==> (#[trigger] marks@[j]) == !term_char(chars@[j]),
        decreases chars@.len() - i,
    {
        marks.push(!(is_alphanumeric(chars[i]) || chars[i] == '_'));
        i += 1;
    }
    split_marked(&chars, &marks, Ghost(|c: char| !term_char(c)))
}

fn has_term(lowered: &Vec<String>, low: &str, terms: Ghost<Seq<Seq<char>>>, term: Ghost<Seq<char>>) -> (r: bool)
    requires
        lowered@.len() == terms@.len(),
        forall|i: int| 0 <= i < terms@.len() ==> (#[trigger] lowered@[i])@ == lowercased(terms@[i]),
        low@ == lowercased(term@),
    ensures
        r == holds_term(terms@, term@),
{
    let mut i: usize = 0;
    while i < lowered.len()
        invariant
            i <= lowered@.len() == terms@.len(),
            forall|j: int|
                0 <= j < terms@.len() ==> (#[trigger] lowered@[j])@ == lowercased(terms@[j]),
            low@ == lowercased(term@),
            forall|j: int| 0 <= j < i ==> lowercased(#[trigger] terms@[j]) != lowercased(term@),
        decreases lowered@.len() - i,
    {
        assert(lowered@[i as int]@ == lowercased(terms@[i as int]));
        if same(lowered[i].as_str(), low) {
            return true;
        }
        i += 1;
    }
    false
}

fn collect_terms(parts: &Vec<String>) -> (r: Vec<String>)
    ensures
        views(r@) == distinctive_terms(views(parts@)),
{
    let ghost all = views(parts@);
    let mut terms: Vec<String> = Vec::new();
    let mut lowered: Vec<String> = Vec::new();
    let mut i: usize = 0;
    assert(views(terms@) =~= distinctive_terms(all.take(0)));
    while i < parts.len()
        invariant
            i <= parts@.len(),
            all == views(parts@),
            views(terms@) == distinctive_terms(all.take(i as int)),
            lowered@.len() == terms@.len(),
            forall|j: int|
                0 <= j < terms@.len() ==> (#[trigger] lowered@[j])@ == lowercased(views(terms@)[j]),
        decreases parts@.len() - i,
    {
        assert(all.take(i + 1).drop_last() =~= all.take(i as int));
        assert(all.take(i + 1).last() == parts@[i as int]@);
        let ghost before = terms@;
        if parts[i].as_str().as_bytes().len() >= 3 {
            let low = lowercase(parts[i].as_str());
            if !is_stopword(low.as_str()) && !has_term(
                &lowered,
                low.as_str(),
                Ghost(views(terms@)),
                Ghost(parts@[i as int]@),
            ) {
                terms.push(parts[i].clone());
                lowered.push(low);
                assert(views(terms@) =~= views(before).push(parts@[i as int]@));
            }
        }
        i += 1;
    }
    assert(all.take(i as int) =~= all);
    terms
}

/// Compress a narrative query to its distinctive terms: strip function words, keep
/// each term once in the order of the query, cap the number. Long questions drown
/// their salient terms in phrasing; the compressed form is meant to be used
/// alongside the query, never in its place. Nothing comes back where the query has
/// fewer than `min_words` words or too few distinctive terms: compressing a compact
/// query only discards signal.
pub fn compress_query(query: &str, max_terms: usize, min_words: usize) -> (r: Option<String>)
    ensures
        match r {
            Some(text) => compressed(query@, max_terms as nat, min_words as nat) == Some(text@),
            None => compressed(query@, max_terms as nat, min_words as nat) is None,
        },
{
    if split_words(query).len() < min_words {
        return None;
    }
    let mut terms = collect_terms(&split_terms(query));
    let ghost all = terms@;
    if terms.len() > max_terms {
        terms.truncate(max_terms);
        assert(views(terms@) =~= views(all).take(max_terms as int));
    }
    if terms.len() < 4 {
        return None;
    }
    let text = join(&terms, " ");
    if same(text.as_str(), query) {
        return None;
    }
    Some(text)
}

proof fn distinctive_terms_facts(parts: Seq<Seq<char>>)
    ensures
        forall|i: int|
            0 <= i < distinctive_terms(parts).len() ==> distinctive(
                #[trigger] distinctive_terms(parts)[i],
            ) && parts.contains(distinctive_terms(parts)[i]),
        forall|i: int, j: int|
            0 <= i < j < distinctive_terms(parts).len() ==> lowercased(
                #[trigger] distinctive_terms(parts)[i],
            ) != lowercased(#[trigger] distinctive_terms(parts)[j]),
    decreases parts.len(),
{
    if parts.len() > 0 {
        let front = parts.drop_last();
        distinctive_terms_facts(front);
        assert forall|i: int| 0 <= i < distinctive_terms(front).len() implies parts.contains(
            #[trigger] distinctive_terms(front)[i],
        ) by {
            assert(front.contains(distinctive_terms(front)[i]));
            let k = choose|k: int| 0 <= k < front.len() && front[k] == distinctive_terms(front)[i];
            assert(parts[k] == front[k]);
        }
        assert(parts[parts.len() - 1] == parts.last());
    }
}

/// The terms that stand for a query are parts of it, none is a function word, no
/// two are the same but for case, and there are no more than asked for.
pub proof fn query_terms_are_distinctive(query: Seq<char>, max_terms: nat)
    ensures
        query_terms(query, max_terms).len() <= max_terms,
        forall|i: int|
            0 <= i < query_terms(query, max_terms).len() ==> {
                &&& term_parts(query).contains(#[trigger] query_terms(query, max_terms)[i])
                &&& !stopword(lowercased(query_terms(query, max_terms)[i]))
            },
        forall|i: int, j: int|
            0 <= i < j < query_terms(query, max_terms).len() ==> lowercased(
                #[trigger] query_terms(query, max_terms)[i],
            ) != lowercased(#[trigger] query_terms(query, max_terms)[j]),
{
    let terms = distinctive_terms(term_parts(query));
    distinctive_terms_facts(term_parts(query));
    assert forall|i: int| 0 <= i < query_terms(query, max_terms).len() implies #[trigger] query_terms(
        query,
        max_terms,
    )[i] == terms[i] by {}
}

/// No term is shorter than three bytes, and the terms stand in the order of the query.
pub proof fn query_terms_keep_their_order(query: Seq<char>, max_terms: nat)
    ensures
        forall|i: int|
            0 <= i < query_terms(query, max_terms).len() ==> encode_utf8(
                #[trigger] query_terms(query, max_terms)[i],
            ).len() >= 3,
        exists|places: Seq<int>|
            #![trigger places.len()]
            {
                &&& places.len() == query_terms(query, max_terms).len()
                &&& forall|i: int|
                    0 <= i < places.len() ==> 0 <= #[trigger] places[i] < term_parts(query).len()
                        && term_parts(query)[places[i]] == query_terms(query, max_terms)[i]
                &&& forall|i: int, j: int|
                    0 <= i < j < places.len() ==> #[trigger] places[i] < #[trigger] places[j]
            },
{
    let parts = term_parts(query);
    distinctive_terms_facts(parts);
    let all = places_of_terms(parts);
    let terms = query_terms(query, max_terms);
    let places = all.take(terms.len() as int);
    assert forall|i: int| 0 <= i < places.len() implies 0 <= #[trigger] places[i] < parts.len()
        && parts[places[i]] == terms[i] by {
        assert(places[i] == all[i]);
    }
    assert forall|i: int, j: int| 0 <= i < j < places.len() implies #[trigger] places[i]
        < #[trigger] places[j] by {
        assert(all[i] < all[j]);
    }
    assert(places.len() == terms.len());
    assert forall|i: int| 0 <= i < terms.len() implies encode_utf8(#[trigger] terms[i]).len()
        >= 3 by {
        assert(terms[i] == distinctive_terms(parts)[i]);
    }
}

proof fn places_of_terms(parts: Seq<Seq<char>>) -> (places: Seq<int>)
    ensures
        places.len() == distinctive_terms(parts).len(),
        forall|i: int|
            0 <= i < places.len() ==> 0 <= #[trigger] places[i] < parts.len() && parts[places[i]]
                == distinctive_terms(parts)[i],
        forall|i: int, j: int|
            0 <= i < j < places.len() ==> #[trigger] places[i] < #[trigger] places[j],
    decreases parts.len(),
{
    if parts.len() == 0 {
        Seq::empty()
    } else {
        let front = parts.drop_last();
        let before = places_of_terms(front);
        if distinctive_terms(parts).len() > before.len() {
            before.push(parts.len() - 1)
        } else {
            before
        }
    }
}

/// A part of the query of three bytes or more that is no stopword is among the terms, but
/// for its case, unless as many terms are taken as may be.
pub proof fn a_distinctive_part_is_kept(query: Seq<char>, max_terms: nat, part: Seq<char>)
    requires
        term_parts(query).contains(part),
        encode_utf8(part).len() >= 3,
        !stopword(lowercased(part)),
    ensures
        query_terms(query, max_terms).len() == max_terms || exists|i: int|
            0 <= i < query_terms(query, max_terms).len() && lowercased(
                #[trigger] query_terms(query, max_terms)[i],
            ) == lowercased(part),
{
    part_is_kept(term_parts(query), part);
}

proof fn part_is_kept(parts: Seq<Seq<char>>, part: Seq<char>)
    requires
        parts.contains(part),
        distinctive(part),
    ensures
        holds_term(distinctive_terms(parts), part),
    decreases parts.len(),
{
    let front = parts.drop_last();
    let (before, after) = (distinctive_terms(front), distinctive_terms(parts));
    let k = choose|k: int| 0 <= k < parts.len() && parts[k] == part;
    if k < front.len() {
        assert(front[k] == part);
        part_is_kept(front, part);
    }
    if holds_term(before, part) {
        let i = choose|i: int|
            0 <= i < before.len() && lowercased(#[trigger] before[i]) == lowercased(part);
        assert(after[i] == before[i]);
    } else {
        assert(after[after.len() - 1] == part);
    }
}

/// A query of fewer words than asked for stays as it is, and so does one with fewer than
/// four terms; a compressed query is another text, of its terms with blanks between.
pub proof fn only_long_queries_are_compressed(query: Seq<char>, max_terms: nat, min_words: nat)
    ensures
        words(query).len() < min_words ==> compressed(query, max_terms, min_words) is None,
        max_terms < 4 ==> compressed(query, max_terms, min_words) is None,
        compressed(query, max_terms, min_words) matches Some(text) ==> text != query && text
            == joined(query_terms(query, max_terms), " "@),
        words(query).len() >= min_words && query_terms(query, max_terms).len() >= 4 && joined(
            query_terms(query, max_terms),
            " "@,
        ) != query ==> compressed(query, max_terms, min_words) is Some,
{
}

} // verus!
