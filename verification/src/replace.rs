//! Replacing and splitting at a text.
use crate::names::{first_at, first_at_is_least};
use crate::text::{chars_of, find_from, occurs_at, text_between, views};
use vstd::prelude::*;
use vstd::string::*;

verus! {

/// Every occurrence of `from` replaced by `to`, found from the left without
/// overlap.
pub open spec fn replaced(s: Seq<char>, from: Seq<char>, to: Seq<char>) -> Seq<char>
    decreases s.len(),
{
    let i = first_at(s, from, 0);
    if from.len() == 0 || i < 0 || i + from.len() > s.len() {
        s
    } else {
        s.take(i) + to + replaced(s.skip(i + from.len()), from, to)
    }
}

/// Replaces every occurrence of `from`.
pub fn replace(s: &str, from: &str, to: &str) -> (r: String)
    requires
        from@.len() > 0,
    ensures
        r@ == replaced(s@, from@, to@),
{
    let all = chars_of(s);
    let needle = chars_of(from);
    let mut out = String::new();
    let mut at: usize = 0;
    assert(all@.skip(0) =~= all@);
    assert(out@ + replaced(all@.skip(0), from@, to@) =~= replaced(s@, from@, to@));
    loop
        invariant
            at <= all@.len(),
            all@ == s@,
            needle@ == from@,
            from@.len() > 0,
            out@ + replaced(all@.skip(at as int), from@, to@) == replaced(s@, from@, to@),
        decreases all@.len() - at,
    {
        let ghost rest = all@.skip(at as int);
        match find_from(&all, &needle, at) {
            None => {
                proof {
                    assert forall|j: int| 0 <= j < rest.len() + 1 implies !occurs_at(
                        rest,
                        from@,
                        j,
                    ) by {
                        occurrence_shifts(all@, from@, at as int, j);
                    }
                    first_at_is_least(rest, from@, 0, rest.len() as int);
                    assert(replaced(rest, from@, to@) == rest);
                }
                out.append(text_between(&all, at, all.len()).as_str());
                assert(rest =~= all@.subrange(at as int, all@.len() as int));
                return out;
            },
            Some(i) => {
                assert(i + needle.len() <= all.len());
                let end: usize = i + needle.len();
                proof {
                    assert forall|j: int| 0 <= j < i - at implies !occurs_at(rest, from@, j) by {
                        occurrence_shifts(all@, from@, at as int, j);
                    }
                    occurrence_shifts(all@, from@, at as int, i - at);
                    first_at_is_least(rest, from@, 0, i - at);
                    assert(rest.take(i - at) =~= all@.subrange(at as int, i as int));
                    assert(rest.skip(i - at + from@.len()) =~= all@.skip(end as int));
                }
                let ghost before = out@;
                out.append(text_between(&all, at, i).as_str());
                out.append(to);
                assert(out@ + replaced(all@.skip(end as int), from@, to@) =~= before + replaced(
                    rest,
                    from@,
                    to@,
                ));
                at = end;
            },
        }
    }
}

/// An occurrence in the rest of a text is one in the text.
pub proof fn occurrence_shifts(s: Seq<char>, p: Seq<char>, at: int, j: int)
    requires
        0 <= at <= s.len(),
        0 <= j,
    ensures
        occurs_at(s.skip(at), p, j) == occurs_at(s, p, at + j),
{
    if j + p.len() <= s.len() - at {
        assert(s.skip(at).subrange(j, j + p.len()) =~= s.subrange(at + j, at + j + p.len()));
    }
}

/// The parts of a text between the occurrences of another, found from the left
/// without overlap.
pub open spec fn split_at_text(s: Seq<char>, sep: Seq<char>) -> Seq<Seq<char>>
    decreases s.len(),
{
    let i = first_at(s, sep, 0);
    if sep.len() == 0 || i < 0 || i + sep.len() > s.len() {
        seq![s]
    } else {
        seq![s.take(i)] + split_at_text(s.skip(i + sep.len()), sep)
    }
}

/// The parts of a text between the occurrences of another.
pub fn split_on(s: &str, sep: &str) -> (r: Vec<String>)
    requires
        sep@.len() > 0,
    ensures
        views(r@) == split_at_text(s@, sep@),
{
    let all = chars_of(s);
    let needle = chars_of(sep);
    let mut out: Vec<String> = Vec::new();
    let mut at: usize = 0;
    assert(all@.skip(0) =~= all@);
    assert(views(out@) + split_at_text(all@.skip(0), sep@) =~= split_at_text(s@, sep@));
    loop
        invariant
            at <= all@.len(),
            all@ == s@,
            needle@ == sep@,
            sep@.len() > 0,
            views(out@) + split_at_text(all@.skip(at as int), sep@) == split_at_text(s@, sep@),
        decreases all@.len() - at,
    {
        let ghost rest = all@.skip(at as int);
        let ghost before = views(out@);
        match find_from(&all, &needle, at) {
            None => {
                proof {
                    assert forall|j: int| 0 <= j < rest.len() + 1 implies !occurs_at(
                        rest,
                        sep@,
                        j,
                    ) by {
                        occurrence_shifts(all@, sep@, at as int, j);
                    }
                    first_at_is_least(rest, sep@, 0, rest.len() as int);
                }
                let last = text_between(&all, at, all.len());
                out.push(last);
                assert(rest =~= all@.subrange(at as int, all@.len() as int));
                assert(views(out@) =~= before + seq![rest]);
                return out;
            },
            Some(i) => {
                assert(i + needle.len() <= all.len());
                let end: usize = i + needle.len();
                proof {
                    assert forall|j: int| 0 <= j < i - at implies !occurs_at(rest, sep@, j) by {
                        occurrence_shifts(all@, sep@, at as int, j);
                    }
                    occurrence_shifts(all@, sep@, at as int, i - at);
                    first_at_is_least(rest, sep@, 0, i - at);
                    assert(rest.take(i - at) =~= all@.subrange(at as int, i as int));
                    assert(rest.skip(i - at + sep@.len()) =~= all@.skip(end as int));
                }
                let part = text_between(&all, at, i);
                out.push(part);
                assert(views(out@) =~= before.push(part@));
                assert(views(out@) + split_at_text(all@.skip(end as int), sep@) =~= before
                    + split_at_text(rest, sep@));
                at = end;
            },
        }
    }
}

/// A text that does not hold another stays as it is.
pub proof fn nothing_is_replaced(s: Seq<char>, from: Seq<char>, to: Seq<char>)
    requires
        forall|j: int| !#[trigger] occurs_at(s, from, j),
    ensures
        replaced(s, from, to) == s,
{
    first_at_is_least(s, from, 0, s.len() as int);
}

/// The first place of a text is replaced, and what follows it as it would be alone. The
/// text to replace begins with a character that nothing before it has.
pub proof fn one_place_is_replaced(
    before: Seq<char>,
    from: Seq<char>,
    after: Seq<char>,
    to: Seq<char>,
)
    requires
        from.len() > 0,
        !before.contains(from[0]),
    ensures
        replaced(before + from + after, from, to) == before + to + replaced(after, from, to),
{
    let s = before + from + after;
    let at = before.len() as int;
    assert forall|j: int| 0 <= j < at implies !occurs_at(s, from, j) by {
        if occurs_at(s, from, j) {
            assert(s.subrange(j, j + from.len())[0] == s[j]);
            assert(s[j] == before[j]);
        }
    }
    assert(s.subrange(at, at + from.len()) =~= from);
    assert(occurs_at(s, from, at));
    first_at_is_least(s, from, 0, at);
    assert(s.take(at) =~= before);
    assert(s.skip(at + from.len()) =~= after);
}

} // verus!
