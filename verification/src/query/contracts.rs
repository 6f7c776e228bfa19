//! Differences between model contracts.
use crate::text::{same, views};
use vstd::prelude::*;
use vstd::string::*;

verus! {

/// The members of a serialized contract: keys and their JSON text.
pub open spec fn member_texts(members: Seq<(String, String)>) -> Seq<(Seq<char>, Seq<char>)> {
    Seq::new(members.len(), |i: int| (members[i].0@, members[i].1@))
}

/// The text of the member with the key; `null` where there is none.
pub open spec fn member_or_null(members: Seq<(Seq<char>, Seq<char>)>, key: Seq<char>) -> Seq<char>
    decreases members.len(),
{
    if members.len() == 0 {
        "null"@
    } else if members[0].0 == key {
        members[0].1
    } else {
        member_or_null(members.skip(1), key)
    }
}

/// A member with the key and the text is there.
pub open spec fn holds_member(
    members: Seq<(Seq<char>, Seq<char>)>,
    key: Seq<char>,
    text: Seq<char>,
) -> bool {
    exists|i: int|
        0 <= i < members.len() && (#[trigger] members[i]).0 == key && members[i].1 == text
}

/// How a member differs.
pub open spec fn difference(key: Seq<char>, left: Seq<char>, right: Seq<char>) -> Seq<char> {
    key + " ("@ + left + " -> "@ + right + ")"@
}

/// The members of `stored` that `current` does not hold, with both texts.
pub open spec fn differences(
    stored: Seq<(Seq<char>, Seq<char>)>,
    current: Seq<(Seq<char>, Seq<char>)>,
) -> Seq<Seq<char>>
    decreases stored.len(),
{
    if stored.len() == 0 {
        Seq::empty()
    } else {
        let before = differences(stored.drop_last(), current);
        let (key, left) = stored.last();
        if holds_member(current, key, left) {
            before
        } else {
            before.push(difference(key, left, member_or_null(current, key)))
        }
    }
}

/// A member with the key is there.
pub open spec fn has_key(members: Seq<(Seq<char>, Seq<char>)>, key: Seq<char>) -> bool {
    exists|i: int| 0 <= i < members.len() && (#[trigger] members[i]).0 == key
}

/// The members of `current` that `stored` knows nothing of.
pub open spec fn additions(
    stored: Seq<(Seq<char>, Seq<char>)>,
    current: Seq<(Seq<char>, Seq<char>)>,
) -> Seq<Seq<char>>
    decreases current.len(),
{
    if current.len() == 0 {
        Seq::empty()
    } else {
        let before = additions(stored, current.drop_last());
        let (key, right) = current.last();
        if has_key(stored, key) {
            before
        } else {
            before.push(difference(key, "null"@, right))
        }
    }
}

fn knows_key(members: &Vec<(String, String)>, key: &str) -> (r: bool)
    ensures
        r == has_key(member_texts(members@), key@),
{
    let ghost all = member_texts(members@);
    let mut i: usize = 0;
    while i < members.len()
        invariant
            i <= members@.len(),
            all == member_texts(members@),
            forall|j: int| 0 <= j < i ==> (#[trigger] all[j]).0 != key@,
        decreases members@.len() - i,
    {
        assert(all[i as int].0 == members@[i as int].0@);
        if same(members[i].0.as_str(), key) {
            return true;
        }
        i += 1;
    }
    false
}

fn describe(key: &str, left: &str, right: &str) -> (r: String)
    ensures
        r@ == difference(key@, left@, right@),
{
    let mut line = key.to_owned();
    line.append(" (");
    line.append(left);
    line.append(" -> ");
    line.append(right);
    line.append(")");
    line
}

fn find_member(members: &Vec<(String, String)>, key: &str) -> (r: String)
    ensures
        r@ == member_or_null(member_texts(members@), key@),
{
    let ghost all = member_texts(members@);
    let mut i: usize = 0;
    assert(all.skip(0) =~= all);
    while i < members.len()
        invariant
            i <= members@.len(),
            all == member_texts(members@),
            member_or_null(all, key@) == member_or_null(all.skip(i as int), key@),
        decreases members@.len() - i,
    {
        assert(all.skip(i as int)[0] == all[i as int]);
        assert(all.skip(i as int).skip(1) =~= all.skip(i + 1));
        if same(members[i].0.as_str(), key) {
            return members[i].1.clone();
        }
        i += 1;
    }
    "null".to_owned()
}

fn has_member(members: &Vec<(String, String)>, key: &str, text: &str) -> (r: bool)
    ensures
        r == holds_member(member_texts(members@), key@, text@),
{
    let ghost all = member_texts(members@);
    let mut i: usize = 0;
    while i < members.len()
        invariant
            i <= members@.len(),
            all == member_texts(members@),
            forall|j: int| 0 <= j < i ==> !((#[trigger] all[j]).0 == key@ && all[j].1 == text@),
        decreases members@.len() - i,
    {
        assert(all[i as int] == (members@[i as int].0@, members@[i as int].1@));
        if same(members[i].0.as_str(), key) && same(members[i].1.as_str(), text) {
            return true;
        }
        i += 1;
    }
    false
}

/// Field-by-field differences between two semantic model contracts, over the
/// members of their serialized form, so that no field of a contract can be left out
/// of a diagnosis: first those of the stored contract that the current one does not
/// hold, then those that only the current one has.
pub fn contract_diff(stored: &Vec<(String, String)>, current: &Vec<(String, String)>) -> (r: Vec<
    String,
>)
    ensures
        views(r@) == differences(member_texts(stored@), member_texts(current@)) + additions(
            member_texts(stored@),
            member_texts(current@),
        ),
{
    let ghost all = member_texts(stored@);
    let mut out: Vec<String> = Vec::new();
    let mut i: usize = 0;
    assert(views(out@) =~= differences(all.take(0), member_texts(current@)));
    while i < stored.len()
        invariant
            i <= stored@.len(),
            all == member_texts(stored@),
            views(out@) == differences(all.take(i as int), member_texts(current@)),
        decreases stored@.len() - i,
    {
        assert(all.take(i + 1).drop_last() =~= all.take(i as int));
        assert(all.take(i + 1).last() == (stored@[i as int].0@, stored@[i as int].1@));
        let ghost before = out@;
        if !has_member(current, stored[i].0.as_str(), stored[i].1.as_str()) {
            let right = find_member(current, stored[i].0.as_str());
            let line = describe(stored[i].0.as_str(), stored[i].1.as_str(), right.as_str());
            out.push(line);
            assert(views(out@) =~= views(before).push(line@));
        }
        i += 1;
    }
    assert(all.take(i as int) =~= all);
    let ghost changed = views(out@);
    let ghost new = member_texts(current@);
    let mut k: usize = 0;
    assert(views(out@) =~= changed + additions(all, new.take(0)));
    while k < current.len()
        invariant
            k <= current@.len(),
            all == member_texts(stored@),
            new == member_texts(current@),
            views(out@) == changed + additions(all, new.take(k as int)),
        decreases current@.len() - k,
    {
        assert(new.take(k + 1).drop_last() =~= new.take(k as int));
        assert(new.take(k + 1).last() == (current@[k as int].0@, current@[k as int].1@));
        let ghost before = out@;
        if !knows_key(stored, current[k].0.as_str()) {
            let line = describe(current[k].0.as_str(), "null", current[k].1.as_str());
            out.push(line);
            assert(views(out@) =~= views(before).push(line@));
            assert(views(out@) =~= changed + additions(all, new.take(k + 1)));
        }
        k += 1;
    }
    assert(new.take(k as int) =~= new);
    out
}

/// A contract does not differ from itself.
pub proof fn a_contract_equals_itself(members: Seq<(Seq<char>, Seq<char>)>)
    ensures
        differences(members, members).len() == 0,
        additions(members, members).len() == 0,
{
    same_members_do_not_differ(members, members);
    same_members_add_nothing(members, members);
}

proof fn same_members_add_nothing(
    all: Seq<(Seq<char>, Seq<char>)>,
    part: Seq<(Seq<char>, Seq<char>)>,
)
    requires
        part.is_prefix_of(all),
    ensures
        additions(all, part).len() == 0,
    decreases part.len(),
{
    if part.len() > 0 {
        same_members_add_nothing(all, part.drop_last());
        assert(all[part.len() - 1] == part.last());
    }
}

proof fn same_members_do_not_differ(
    part: Seq<(Seq<char>, Seq<char>)>,
    all: Seq<(Seq<char>, Seq<char>)>,
)
    requires
        part.is_prefix_of(all),
    ensures
        differences(part, all).len() == 0,
    decreases part.len(),
{
    if part.len() > 0 {
        same_members_do_not_differ(part.drop_last(), all);
        assert(all[part.len() - 1] == part.last());
    }
}

/// What a contract has for a key is the text of the first member with that key, and `null`
/// where no member has it.
pub proof fn the_first_member_counts(members: Seq<(Seq<char>, Seq<char>)>, key: Seq<char>)
    ensures
        !has_key(members, key) ==> member_or_null(members, key) == "null"@,
        forall|i: int|
            0 <= i < members.len() && (#[trigger] members[i]).0 == key && (forall|j: int|
                0 <= j < i ==> (#[trigger] members[j]).0 != key) ==> member_or_null(members, key)
                == members[i].1,
    decreases members.len(),
{
    if members.len() > 0 && members[0].0 != key {
        let rest = members.skip(1);
        the_first_member_counts(rest, key);
        if !has_key(members, key) {
            assert forall|j: int| 0 <= j < rest.len() implies (#[trigger] rest[j]).0 != key by {
                assert(rest[j] == members[j + 1]);
            }
        }
        assert forall|i: int|
            0 <= i < members.len() && (#[trigger] members[i]).0 == key && (forall|j: int|
                0 <= j < i ==> (#[trigger] members[j]).0 != key) implies member_or_null(
            members,
            key,
        ) == members[i].1 by {
            assert(rest[i - 1] == members[i]);
            assert forall|j: int| 0 <= j < i - 1 implies (#[trigger] rest[j]).0 != key by {
                assert(rest[j] == members[j + 1]);
            }
        }
    }
}

/// A stored member that the current contract does not hold is named, with what is stored
/// before what is current.
pub proof fn what_differs_is_named(
    stored: Seq<(Seq<char>, Seq<char>)>,
    current: Seq<(Seq<char>, Seq<char>)>,
    k: int,
)
    requires
        0 <= k < stored.len(),
        forall|i: int| 0 <= i < current.len() ==> #[trigger] current[i] != stored[k],
    ensures
        differences(stored, current).contains(
            stored[k].0 + " ("@ + stored[k].1 + " -> "@ + member_or_null(current, stored[k].0)
                + ")"@,
        ),
    decreases stored.len(),
{
    let front = stored.drop_last();
    let (before, after) = (differences(front, current), differences(stored, current));
    let text = stored[k].0 + " ("@ + stored[k].1 + " -> "@ + member_or_null(current, stored[k].0)
        + ")"@;
    if k < front.len() {
        assert(front[k] == stored[k]);
        what_differs_is_named(front, current, k);
        let i = choose|i: int| 0 <= i < before.len() && before[i] == text;
        assert(after[i] == text);
    } else {
        assert(after[after.len() - 1] == text);
    }
}

/// A member of the current contract whose key is not stored is named as new.
pub proof fn what_is_new_is_named(
    stored: Seq<(Seq<char>, Seq<char>)>,
    current: Seq<(Seq<char>, Seq<char>)>,
    k: int,
)
    requires
        0 <= k < current.len(),
        forall|i: int| 0 <= i < stored.len() ==> (#[trigger] stored[i]).0 != current[k].0,
    ensures
        additions(stored, current).contains(
            current[k].0 + " ("@ + "null"@ + " -> "@ + current[k].1 + ")"@,
        ),
    decreases current.len(),
{
    let front = current.drop_last();
    let (before, after) = (additions(stored, front), additions(stored, current));
    let text = current[k].0 + " ("@ + "null"@ + " -> "@ + current[k].1 + ")"@;
    if k < front.len() {
        assert(front[k] == current[k]);
        what_is_new_is_named(stored, front, k);
        let i = choose|i: int| 0 <= i < before.len() && before[i] == text;
        assert(after[i] == text);
    } else {
        assert(after[after.len() - 1] == text);
    }
}

/// Nothing is named where every stored member is in the current contract and every key of
/// the current contract is stored.
pub proof fn nothing_else_is_named(
    stored: Seq<(Seq<char>, Seq<char>)>,
    current: Seq<(Seq<char>, Seq<char>)>,
)
    ensures
        (forall|k: int| 0 <= k < stored.len() ==> current.contains(#[trigger] stored[k]))
            ==> differences(stored, current).len() == 0,
        (forall|k: int| 0 <= k < current.len() ==> has_key(stored, (#[trigger] current[k]).0))
            ==> additions(stored, current).len() == 0,
    decreases stored.len() + current.len(),
{
    if stored.len() > 0 && (forall|k: int|
        0 <= k < stored.len() ==> current.contains(#[trigger] stored[k])) {
        let front = stored.drop_last();
        nothing_else_is_named(front, current);
        assert forall|k: int| 0 <= k < front.len() implies current.contains(#[trigger] front[k]) by {
            assert(front[k] == stored[k]);
        }
        assert(current.contains(stored[stored.len() - 1]));
        let i = choose|i: int| 0 <= i < current.len() && current[i] == stored.last();
        assert(holds_member(current, current[i].0, current[i].1));
    }
    if current.len() > 0 && (forall|k: int|
        0 <= k < current.len() ==> has_key(stored, (#[trigger] current[k]).0)) {
        let front = current.drop_last();
        nothing_else_is_named(stored, front);
        assert forall|k: int| 0 <= k < front.len() implies has_key(
            stored,
            (#[trigger] front[k]).0,
        ) by {
            assert(front[k] == current[k]);
        }
        assert(has_key(stored, current[current.len() - 1].0));
    }
}

} // verus!
