//! What a hover answer says.
use crate::json::Json;
use crate::replace::{split_at_text, split_on};
use crate::text::{chars_of, cut_once, join, joined, split_once, text_between, trim, trimmed, views};
use vstd::prelude::*;
use vstd::string::*;

verus! {

/// The most characters that are kept of a hover.
pub const MAX_HOVER_CHARS: usize = 2000;

/// The text under `value`, where there is one.
pub open spec fn value_text(object: Json) -> Option<Seq<char>> {
    match object.field("value"@) {
        Some(Json::Text(text)) => Some(text@),
        _ => None,
    }
}

/// The text of a marked string: the string, or the text under `value`.
pub open spec fn marked_text(value: Json) -> Option<Seq<char>> {
    match value {
        Json::Text(text) => Some(text@),
        other => value_text(other),
    }
}

/// The text under `value`, where there is one.
fn text_under_value(object: &Json) -> (r: Option<String>)
    ensures
        match r {
            Some(text) => value_text(*object) == Some(text@),
            None => value_text(*object) is None,
        },
{
    match object.get("value") {
        Some(value) => match value.as_str() {
            Some(text) => Some(text.to_owned()),
            None => None,
        },
        None => None,
    }
}

/// The text of a marked string.
pub fn marked_string(value: &Json) -> (r: Option<String>)
    ensures
        match r {
            Some(text) => marked_text(*value) == Some(text@),
            None => marked_text(*value) is None,
        },
{
    match value {
        Json::Text(text) => Some(text.clone()),
        other => text_under_value(other),
    }
}

/// The texts of the marked strings that have one.
pub open spec fn marked_texts(items: Seq<Json>) -> Seq<Seq<char>>
    decreases items.len(),
{
    if items.len() == 0 {
        Seq::empty()
    } else {
        let before = marked_texts(items.drop_last());
        match marked_text(items.last()) {
            Some(text) => before.push(text),
            None => before,
        }
    }
}

/// The contents of a hover, as one text.
pub open spec fn raw_hover(hover: Json) -> Option<Seq<char>> {
    match hover.field("contents"@) {
        None => None,
        Some(Json::Text(text)) => Some(text@),
        Some(Json::List(items)) => Some(joined(marked_texts(items@), "\n"@)),
        Some(object) => value_text(object),
    }
}

/// The body of a fenced block: what follows its first line, or all of it.
pub open spec fn block_body(block: Seq<char>) -> Seq<char> {
    match cut_once(block, '\n') {
        Some((first, body)) => trimmed(body),
        None => trimmed(block),
    }
}

/// The bodies of the fenced blocks that are not empty: every second part.
pub open spec fn fenced_blocks(parts: Seq<Seq<char>>) -> Seq<Seq<char>>
    decreases parts.len(),
{
    if parts.len() == 0 {
        Seq::empty()
    } else {
        let before = fenced_blocks(parts.drop_last());
        let body = block_body(parts.last());
        if (parts.len() - 1) % 2 == 1 && body.len() > 0 {
            before.push(body)
        } else {
            before
        }
    }
}

/// The readable text of a hover's contents: its fenced blocks where it has some,
/// else all of it.
pub open spec fn readable(raw: Seq<char>) -> Seq<char> {
    let blocks = fenced_blocks(split_at_text(raw, "```"@));
    if blocks.len() == 0 {
        trimmed(raw)
    } else {
        joined(blocks, "\n"@)
    }
}

/// The text that is kept of a hover.
pub open spec fn kept_hover(hover: Json) -> Option<Seq<char>> {
    match raw_hover(hover) {
        None => None,
        Some(raw) => {
            let text = readable(raw);
            if text.len() == 0 {
                None
            } else if text.len() > MAX_HOVER_CHARS {
                Some(text.take(MAX_HOVER_CHARS as int))
            } else {
                Some(text)
            }
        },
    }
}

fn collect_marked(items: &Vec<Json>) -> (r: Vec<String>)
    ensures
        views(r@) == marked_texts(items@),
{
    let mut out: Vec<String> = Vec::new();
    let mut i: usize = 0;
    assert(views(out@) =~= marked_texts(items@.take(0)));
    while i < items.len()
        invariant
            i <= items@.len(),
            views(out@) == marked_texts(items@.take(i as int)),
        decreases items@.len() - i,
    {
        assert(items@.take(i + 1).drop_last() =~= items@.take(i as int));
        let ghost before = out@;
        if let Some(text) = marked_string(&items[i]) {
            out.push(text);
            assert(views(out@) =~= views(before).push(text@));
        }
        i += 1;
    }
    assert(items@.take(i as int) =~= items@);
    out
}

fn read_raw(hover: &Json) -> (r: Option<String>)
    ensures
        match r {
            Some(text) => raw_hover(*hover) == Some(text@),
            None => raw_hover(*hover) is None,
        },
{
    match hover.get("contents") {
        None => None,
        Some(contents) => match contents {
            Json::Text(text) => Some(text.clone()),
            Json::List(items) => Some(join(&collect_marked(items), "\n")),
            object => text_under_value(object),
        },
    }
}

fn body_of(block: &str) -> (r: String)
    ensures
        r@ == block_body(block@),
{
    match split_once(block, '\n') {
        Some((_, body)) => trim(body.as_str()),
        None => trim(block),
    }
}

fn collect_blocks(parts: &Vec<String>) -> (r: Vec<String>)
    ensures
        views(r@) == fenced_blocks(views(parts@)),
{
    let ghost all = views(parts@);
    let mut out: Vec<String> = Vec::new();
    let mut i: usize = 0;
    assert(views(out@) =~= fenced_blocks(all.take(0)));
    while i < parts.len()
        invariant
            i <= parts@.len(),
            all == views(parts@),
            views(out@) == fenced_blocks(all.take(i as int)),
        decreases parts@.len() - i,
    {
        assert(all.take(i + 1).drop_last() =~= all.take(i as int));
        assert(all.take(i + 1).last() == parts@[i as int]@);
        let ghost before = out@;
        let body = body_of(parts[i].as_str());
        if i % 2 == 1 && !body.as_str().is_empty() {
            out.push(body);
            assert(views(out@) =~= views(before).push(body@));
        }
        i += 1;
    }
    assert(all.take(i as int) =~= all);
    out
}

/// Extract readable text from a hover answer: every fenced code block, since a
/// server may give the module path and the signature as separate blocks; otherwise
/// the plain contents. What is long is cut.
pub fn hover_text(hover: &Json) -> (r: Option<String>)
    ensures
        match r {
            Some(text) => kept_hover(*hover) == Some(text@),
            None => kept_hover(*hover) is None,
        },
{
    let raw = match read_raw(hover) {
        Some(raw) => raw,
        None => {
            return None;
        },
    };
    proof {
        reveal_strlit("```");
    }
    let parts = split_on(raw.as_str(), "```");
    let blocks = collect_blocks(&parts);
    assert(blocks@.len() == views(blocks@).len());
    let text = if blocks.len() == 0 {
        trim(raw.as_str())
    } else {
        join(&blocks, "\n")
    };
    if text.as_str().is_empty() {
        return None;
    }
    let all = chars_of(text.as_str());
    if all.len() > MAX_HOVER_CHARS {
        assert(all@.subrange(0, MAX_HOVER_CHARS as int) =~= all@.take(MAX_HOVER_CHARS as int));
        Some(text_between(&all, 0, MAX_HOVER_CHARS))
    } else {
        Some(text)
    }
}

/// What is kept of a hover is never empty and never longer than the limit.
pub proof fn kept_hovers_are_bounded(hover: Json)
    ensures
        kept_hover(hover) matches Some(text) ==> 0 < text.len() <= MAX_HOVER_CHARS,
{
}

/// What is kept of a hover is the front of what can be read of it.
pub proof fn a_kept_hover_is_the_front_of_the_text(hover: Json)
    ensures
        match kept_hover(hover) {
            Some(text) => raw_hover(hover) is Some && text.is_prefix_of(readable(raw_hover(hover)->0))
                && (text.len() == readable(raw_hover(hover)->0).len() || text.len()
                == 2000),
            None => raw_hover(hover) is None || readable(raw_hover(hover)->0).len() == 0,
        },
{
    if kept_hover(hover) is Some {
        let (text, whole) = (kept_hover(hover)->0, readable(raw_hover(hover)->0));
        assert(whole.subrange(0, text.len() as int) =~= text);
    }
}

/// The blocks that are read are those between fences, every second part, without the line of
/// the opening fence; an empty block says nothing.
pub proof fn blocks_stand_between_fences(parts: Seq<Seq<char>>, k: int)
    requires
        0 <= k < parts.len(),
    ensures
        k % 2 == 1 && block_body(parts[k]).len() > 0 ==> fenced_blocks(parts).contains(
            block_body(parts[k]),
        ),
        parts.len() == 1 ==> fenced_blocks(parts).len() == 0,
        forall|i: int|
            0 <= i < fenced_blocks(parts).len() ==> exists|j: int|
                0 <= j < parts.len() && j % 2 == 1 && block_body(#[trigger] parts[j])
                    == #[trigger] fenced_blocks(parts)[i],
    decreases parts.len(),
{
    let front = parts.drop_last();
    let (before, after) = (fenced_blocks(front), fenced_blocks(parts));
    if front.len() > 0 {
        blocks_stand_between_fences(
            front,
            if k < front.len() {
                k
            } else {
                0
            },
        );
    } else {
        assert(before.len() == 0);
    }
    if k % 2 == 1 && block_body(parts[k]).len() > 0 {
        let body = block_body(parts[k]);
        if k < front.len() {
            assert(front[k] == parts[k]);
            let i = choose|i: int| 0 <= i < before.len() && before[i] == body;
            assert(after[i] == body);
        } else {
            assert(after[after.len() - 1] == body);
        }
    }
    assert forall|i: int| 0 <= i < after.len() implies exists|j: int|
        0 <= j < parts.len() && j % 2 == 1 && block_body(#[trigger] parts[j])
            == #[trigger] after[i] by {
        if i < before.len() {
            assert(after[i] == before[i]);
            let j = choose|j: int|
                0 <= j < front.len() && j % 2 == 1 && block_body(#[trigger] front[j]) == before[i];
            assert(parts[j] == front[j]);
        } else {
            assert(block_body(parts[parts.len() - 1]) == after[i]);
        }
    }
}

/// The body of a block begins behind its first line.
pub proof fn a_block_loses_its_first_line(first: Seq<char>, body: Seq<char>)
    requires
        !first.contains('\n'),
    ensures
        block_body(first + seq!['\n'] + body) == trimmed(body),
        block_body(first) == trimmed(first),
{
    let block = first + seq!['\n'] + body;
    crate::text::a_cut_is_at_the_first_place(first, '\n');
    crate::text::a_cut_is_at_the_first_place(block, '\n');
    assert(block[first.len() as int] == '\n');
    assert(block.contains('\n'));
    let (before, after) = cut_once(block, '\n')->0;
    crate::text::a_text_is_cut_in_one_way(block, '\n', first, body, before, after);
    let own = cut_once(first, '\n');
    if own is Some {
        let (left, right) = own->0;
        assert(first[left.len() as int] == '\n');
    }
}

/// Every item that can be read is part of a list's text.
pub proof fn every_readable_item_is_kept(items: Seq<Json>, k: int)
    requires
        0 <= k < items.len(),
    ensures
        marked_text(items[k]) matches Some(text) ==> marked_texts(items).contains(text),
        marked_texts(items).len() <= items.len(),
    decreases items.len(),
{
    let front = items.drop_last();
    let (before, after) = (marked_texts(front), marked_texts(items));
    if front.len() > 0 {
        every_readable_item_is_kept(
            front,
            if k < front.len() {
                k
            } else {
                0
            },
        );
    } else {
        assert(before.len() == 0);
    }
    if marked_text(items[k]) is Some {
        let text = marked_text(items[k])->0;
        if k < front.len() {
            assert(front[k] == items[k]);
            let i = choose|i: int| 0 <= i < before.len() && before[i] == text;
            assert(after[i] == text);
        } else {
            assert(after[after.len() - 1] == text);
        }
    }
}

/// What a hover says is its text, the texts of its list one below the other, or the value of
/// its object.
pub proof fn a_hover_is_read_in_each_of_its_forms(hover: Json)
    ensures
        match hover.field("contents"@) {
            None => raw_hover(hover) is None,
            Some(Json::Text(text)) => raw_hover(hover) == Some(text@),
            Some(Json::List(items)) => raw_hover(hover) is Some && (items@.len() == 0
                ==> raw_hover(hover)->0.len() == 0) && forall|k: int|
                0 <= k < items@.len() && marked_text(#[trigger] items@[k]) is Some
                    ==> crate::text::has(raw_hover(hover)->0, marked_text(items@[k])->0),
            Some(object) => match object.field("value"@) {
                Some(Json::Text(text)) => raw_hover(hover) == Some(text@),
                _ => raw_hover(hover) is None,
            },
        },
{
    if let Some(Json::List(items)) = hover.field("contents"@) {
        assert forall|k: int|
            0 <= k < items@.len() && marked_text(#[trigger] items@[k])
                is Some implies crate::text::has(
            raw_hover(hover)->0,
            marked_text(items@[k])->0,
        ) by {
            every_readable_item_is_kept(items@, k);
            let texts = marked_texts(items@);
            let i = choose|i: int| 0 <= i < texts.len() && texts[i] == marked_text(items@[k])->0;
            crate::text::every_part_is_in_a_joined_text(texts, "\n"@, i);
        }
    }
}

} // verus!
