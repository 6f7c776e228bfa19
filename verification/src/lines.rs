//! The lines of a text.
use crate::text::{split, split_is_nonempty, split_text, strip_suffix, views};
use vstd::prelude::*;
use vstd::string::*;

verus! {

/// The lines of a text: its parts between line feeds, without the carriage return
/// before a line feed, and without an empty last part.
pub open spec fn line_count(source: Seq<char>) -> nat {
    let parts = split(source, '\n');
    if parts.last().len() == 0 {
        (parts.len() - 1) as nat
    } else {
        parts.len()
    }
}

/// A line of a text, counted from zero.
pub open spec fn line_text(source: Seq<char>, n: int) -> Seq<char> {
    let parts = split(source, '\n');
    if n + 1 < parts.len() && "\r"@.is_suffix_of(parts[n]) {
        parts[n].take(parts[n].len() - 1)
    } else {
        parts[n]
    }
}

/// The number of lines of a text.
pub fn lines_in(source: &str) -> (r: usize)
    ensures
        r == line_count(source@),
{
    let parts = split_text(source, '\n');
    proof {
        split_is_nonempty(source@, '\n');
    }
    assert(views(parts@).last() == parts@[parts@.len() - 1]@);
    if parts[parts.len() - 1].as_str().is_empty() {
        parts.len() - 1
    } else {
        parts.len()
    }
}

/// A line of a text, counted from zero, where there is one.
pub fn line_of(source: &str, n: usize) -> (r: Option<String>)
    ensures
        match r {
            Some(line) => n < line_count(source@) && line@ == line_text(source@, n as int),
            None => n >= line_count(source@),
        },
{
    let parts = split_text(source, '\n');
    proof {
        split_is_nonempty(source@, '\n');
        reveal_strlit("\r");
    }
    assert(views(parts@).last() == parts@[parts@.len() - 1]@);
    if n >= parts.len() {
        return None;
    }
    assert(views(parts@)[n as int] == parts@[n as int]@);
    if n == parts.len() - 1 {
        if parts[n].as_str().is_empty() {
            return None;
        }
        return Some(parts[n].clone());
    }
    match strip_suffix(parts[n].as_str(), "\r") {
        Some(line) => Some(line),
        None => Some(parts[n].clone()),
    }
}

/// A line ends with its line feed: an empty text has no line, and a text that goes on behind
/// its last line feed has one line more than it has line feeds.
pub proof fn a_line_ends_with_its_feed(source: Seq<char>, c: char)
    ensures
        line_count(Seq::<char>::empty()) == 0,
        line_count(source.push('\n')) == split(source, '\n').len(),
        c != '\n' ==> line_count(source.push(c)) == split(source, '\n').len(),
{
    split_is_nonempty(source, '\n');
    assert(source.push('\n').drop_last() =~= source);
    assert(source.push(c).drop_last() =~= source);
    assert(split(Seq::<char>::empty(), '\n') =~= seq![Seq::<char>::empty()]);
}

/// A line is a part of the text between line feeds, but for the carriage return before one.
pub proof fn lines_are_parts_of_the_text(source: Seq<char>, n: int)
    requires
        0 <= n < line_count(source),
    ensures
        !line_text(source, n).contains('\n'),
        split(source, '\n')[n] == line_text(source, n) || split(source, '\n')[n] == line_text(
            source,
            n,
        ) + "\r"@,
{
    crate::text::split_texts_are_joined_again(source, '\n');
    let part = split(source, '\n')[n];
    let line = line_text(source, n);
    assert(!part.contains('\n'));
    if line != part {
        reveal_strlit("\r");
        assert("\r"@ =~= seq!['\r']);
        let end = part.subrange(part.len() - 1, part.len() as int);
        assert(part =~= line + end);
        assert(end =~= "\r"@);
    }
    if line.contains('\n') {
        let i = choose|i: int| 0 <= i < line.len() && line[i] == '\n';
        assert(part[i] == '\n');
    }
}

} // verus!
