//! Finding a declared name in source text.
use crate::text::{alphanumeric, chars_of, find_from, is_alphanumeric, occurs_at};
use crate::utf8::{byte_at, byte_offset};
use vstd::prelude::*;

verus! {

/// A character that can stand in an identifier.
pub open spec fn is_ident(c: char) -> bool {
    alphanumeric(c) || c == '_'
}

/// Whether `c` can stand in an identifier.
pub fn ident_char(c: char) -> (r: bool)
    ensures
        r == is_ident(c),
{
    is_alphanumeric(c) || c == '_'
}

/// No identifier character touches the `n` characters at `i`.
pub open spec fn stands_alone(text: Seq<char>, i: int, n: int) -> bool {
    &&& i > 0 ==> !is_ident(text[i - 1])
    &&& i + n < text.len() ==> !is_ident(text[i + n])
}

/// The first position at or after `from` at which `p` occurs, or -1.
pub open spec fn first_at(s: Seq<char>, p: Seq<char>, from: int) -> int
    decreases s.len() + 1 - from,
{
    if from + p.len() > s.len() {
        -1
    } else if occurs_at(s, p, from) {
        from
    } else {
        first_at(s, p, from + 1)
    }
}

/// `first_at` is the least position.
pub proof fn first_at_is_least(s: Seq<char>, p: Seq<char>, from: int, i: int)
    requires
        0 <= from <= i,
        forall|j: int| from <= j < i ==> !occurs_at(s, p, j),
    ensures
        occurs_at(s, p, i) ==> first_at(s, p, from) == i,
        i + p.len() > s.len() ==> first_at(s, p, from) == -1,
    decreases i - from,
{
    if from < i && from + p.len() <= s.len() {
        first_at_is_least(s, p, from + 1, i);
    }
}

/// `first_at` tells where `p` first occurs, or that it does not.
pub proof fn first_at_tells(s: Seq<char>, p: Seq<char>, from: int)
    requires
        from >= 0,
    ensures
        forall|j: int|
            from <= j && (j < first_at(s, p, from) || first_at(s, p, from) < 0)
                ==> !#[trigger] occurs_at(s, p, j),
        first_at(s, p, from) >= 0 ==> from <= first_at(s, p, from) && occurs_at(
            s,
            p,
            first_at(s, p, from),
        ),
        first_at(s, p, from) >= -1,
    decreases s.len() + 1 - from,
{
    if from + p.len() <= s.len() && !occurs_at(s, p, from) {
        first_at_tells(s, p, from + 1);
    }
}

/// `name` stands at `i`, and no identifier character touches it.
pub open spec fn declared_at(text: Seq<char>, name: Seq<char>, i: int) -> bool {
    &&& name.len() > 0
    &&& occurs_at(text, name, i)
    &&& stands_alone(text, i, name.len() as int)
}

/// The first position at or after `from` at which `name` is declared.
pub open spec fn declared_from(text: Seq<char>, name: Seq<char>, from: int) -> Option<int>
    decreases text.len() - from,
{
    if from + name.len() > text.len() || name.len() == 0 {
        None
    } else if declared_at(text, name, from) {
        Some(from)
    } else {
        declared_from(text, name, from + 1)
    }
}

proof fn declared_from_skips(text: Seq<char>, name: Seq<char>, from: int, i: int)
    requires
        0 <= from <= i,
        forall|j: int| from <= j < i ==> !declared_at(text, name, j),
    ensures
        declared_from(text, name, from) == declared_from(text, name, i),
    decreases i - from,
{
    if from < i {
        declared_from_skips(text, name, from + 1, i);
    }
}

/// The position at which `name` is declared.
pub fn declared_position(text: &[char], name: &[char]) -> (r: Option<usize>)
    ensures
        match r {
            Some(i) => declared_from(text@, name@, 0) == Some(i as int) && declared_at(
                text@,
                name@,
                i as int,
            ) && forall|j: int| 0 <= j < i ==> !declared_at(text@, name@, j),
            None => declared_from(text@, name@, 0) is None && forall|j: int|
                0 <= j ==> !declared_at(text@, name@, j),
        },
{
    if name.len() == 0 {
        return None;
    }
    let mut from: usize = 0;
    loop
        invariant
            from <= text@.len(),
            name@.len() > 0,
            forall|j: int| 0 <= j < from ==> !declared_at(text@, name@, j),
        decreases text@.len() - from,
    {
        match find_from(text, name, from) {
            None => {
                proof {
                    declared_from_skips(text@, name@, 0, text@.len() as int);
                }
                return None;
            },
            Some(i) => {
                let length: usize = text.len();
                let end: usize = i + name.len();
                let before_ok = i == 0 || !ident_char(text[i - 1]);
                let after_ok = end >= length || !ident_char(text[end]);
                if before_ok && after_ok {
                    proof {
                        declared_from_skips(text@, name@, 0, i as int);
                    }
                    return Some(i);
                }
                from = i + 1;
            },
        }
    }
}

/// First occurrence of `name` in `text` bounded by non-identifier characters,
/// as a byte offset, so a declared name that is also a substring of another
/// identifier (`add` inside a Go receiver type `adder`) never matches.
pub fn find_declared_name(text: &str, name: &str) -> (r: Option<usize>)
    ensures
        match r {
            Some(offset) => declared_from(text@, name@, 0) is Some && offset == byte_at(
                text@,
                declared_from(text@, name@, 0)->0,
            ),
            None => declared_from(text@, name@, 0) is None,
        },
{
    let chars = chars_of(text);
    match declared_position(&chars, &chars_of(name)) {
        Some(i) => Some(byte_offset(&chars, i)),
        None => None,
    }
}

/// A name is found at a position if and only if it stands there, no identifier
/// character touches it, and that holds of no earlier position; it is not found if
/// and only if that holds of no position at all.
pub proof fn a_declared_name_is_the_first(text: Seq<char>, name: Seq<char>, from: int)
    requires
        from >= 0,
    ensures
        forall|i: int|
            #![trigger declared_at(text, name, i)]
            declared_from(text, name, from) == Some(i) <==> from <= i && declared_at(text, name, i)
                && forall|j: int| from <= j < i ==> !declared_at(text, name, j),
        declared_from(text, name, from) is None <==> forall|i: int|
            from <= i ==> !declared_at(text, name, i),
        declared_from(text, name, from) matches Some(i) ==> from <= i && declared_at(text, name, i),
    decreases text.len() - from,
{
    if from + name.len() <= text.len() && name.len() > 0 && !declared_at(text, name, from) {
        a_declared_name_is_the_first(text, name, from + 1);
    }
}

/// A declared name is not part of a longer one: no letter, digit or underscore touches it.
pub proof fn a_declared_name_stands_alone(text: Seq<char>, name: Seq<char>, i: int)
    requires
        declared_at(text, name, i),
    ensures
        name.len() > 0,
        0 <= i && i + name.len() <= text.len(),
        text.subrange(i, i + name.len()) == name,
        i > 0 ==> !alphanumeric(text[i - 1]) && text[i - 1] != '_',
        i + name.len() < text.len() ==> !alphanumeric(text[i + name.len()]) && text[i + name.len()]
            != '_',
{
}

} // verus!
