//! Paths as texts with slashes.
use crate::text::{
    chars_of, same, split, split_is_nonempty, split_text, text_between, views,
};
use vstd::prelude::*;
use vstd::string::*;

verus! {

/// The path starts at the root.
pub open spec fn rooted(path: Seq<char>) -> bool {
    path.len() > 0 && path[0] == '/'
}

/// The parts that name something: empty parts and `.` do not.
pub open spec fn named_parts(parts: Seq<Seq<char>>) -> Seq<Seq<char>>
    decreases parts.len(),
{
    if parts.len() == 0 {
        Seq::empty()
    } else {
        let before = named_parts(parts.drop_last());
        if parts.last().len() == 0 || parts.last() == "."@ {
            before
        } else {
            before.push(parts.last())
        }
    }
}

/// The components of a path: the root where it starts there, a leading `.`, and
/// the parts that name something.
pub open spec fn components(path: Seq<char>) -> Seq<Seq<char>> {
    let parts = split(path, '/');
    let front = if rooted(path) {
        seq!["/"@]
    } else if parts[0] == "."@ {
        seq!["."@]
    } else {
        Seq::empty()
    };
    front + named_parts(parts)
}

/// The shortest beginning of a path, of at least `from` characters, that has the
/// components; the whole path where none has.
pub open spec fn beginning(path: Seq<char>, parts: Seq<Seq<char>>, from: int) -> Seq<char>
    decreases path.len() - from,
{
    if from < 0 || from >= path.len() {
        path
    } else if components(path.take(from)) == parts {
        path.take(from)
    } else {
        beginning(path, parts, from + 1)
    }
}

/// The shortest end of a path, that starts no later than `from`, that has the
/// components; the whole path where none has.
pub open spec fn ending(path: Seq<char>, parts: Seq<Seq<char>>, from: int) -> Seq<char>
    decreases from,
{
    if from <= 0 || from > path.len() {
        path
    } else if components(path.skip(from)) == parts {
        path.skip(from)
    } else {
        ending(path, parts, from - 1)
    }
}

/// One path lies below another, or is it.
pub open spec fn lies_below(path: Seq<char>, base: Seq<char>) -> bool {
    components(base).is_prefix_of(components(path))
}

/// Whether a path starts at the root.
pub fn is_rooted(path: &str) -> (r: bool)
    ensures
        r == rooted(path@),
{
    let all = chars_of(path);
    all.len() > 0 && all[0] == '/'
}

/// The components of a path.
pub fn components_of(path: &str) -> (r: Vec<String>)
    ensures
        views(r@) == components(path@),
{
    let parts = split_text(path, '/');
    let ghost all = views(parts@);
    let mut out: Vec<String> = Vec::new();
    proof {
        split_is_nonempty(path@, '/');
    }
    if is_rooted(path) {
        out.push("/".to_owned());
    } else if same(parts[0].as_str(), ".") {
        out.push(".".to_owned());
    }
    let ghost front = views(out@);
    assert(all[0] == parts@[0]@);
    assert(front =~= if rooted(path@) {
        seq!["/"@]
    } else if all[0] == "."@ {
        seq!["."@]
    } else {
        Seq::empty()
    });
    let mut i: usize = 0;
    assert(views(out@) =~= front + named_parts(all.take(0)));
    while i < parts.len()
        invariant
            i <= parts@.len(),
            all == views(parts@),
            views(out@) == front + named_parts(all.take(i as int)),
        decreases parts@.len() - i,
    {
        let ghost before = out@;
        assert(all.take(i + 1).drop_last() =~= all.take(i as int));
        assert(all.take(i + 1).last() == parts@[i as int]@);
        if !parts[i].as_str().is_empty() && !same(parts[i].as_str(), ".") {
            out.push(parts[i].clone());
            assert(views(out@) =~= views(before).push(parts@[i as int]@));
            assert(views(out@) =~= front + named_parts(all.take(i + 1)));
        }
        i += 1;
    }
    assert(all.take(i as int) =~= all);
    out
}

/// The shortest beginning of a path that has the first components.
fn beginning_of(path: &str, parts: &Vec<String>, count: usize) -> (r: String)
    requires
        count <= parts@.len(),
    ensures
        r@ == beginning(path@, views(parts@).take(count as int), 0),
{
    let ghost wanted = views(parts@).take(count as int);
    let chars = chars_of(path);
    let mut at: usize = 0;
    while at < chars.len()
        invariant
            at <= chars@.len(),
            chars@ == path@,
            count <= parts@.len(),
            wanted == views(parts@).take(count as int),
            beginning(path@, wanted, 0) == beginning(path@, wanted, at as int),
        decreases chars@.len() - at,
    {
        let text = text_between(&chars, 0, at);
        assert(text@ =~= path@.take(at as int));
        let own = components_of(text.as_str());
        if own.len() == count && starts_with_components(parts, &own) {
            assert(views(own@) =~= wanted);
            return text;
        }
        assert(views(own@) != wanted) by {
            if views(own@) == wanted {
                assert(views(own@).len() == own@.len());
                assert(views(parts@).len() == parts@.len());
                assert(wanted.len() == count);
                assert(own@.len() == count);
                assert(views(own@).is_prefix_of(views(parts@)));
            }
        }
        at += 1;
    }
    path.to_owned()
}

/// The shortest end of a path that has the components from `from` on.
fn ending_of(path: &str, parts: &Vec<String>, from: usize) -> (r: String)
    requires
        from <= parts@.len(),
    ensures
        r@ == ending(path@, views(parts@).skip(from as int), path@.len() as int),
{
    let ghost wanted = views(parts@).skip(from as int);
    let chars = chars_of(path);
    let mut at: usize = chars.len();
    while at > 0
        invariant
            at <= chars@.len(),
            chars@ == path@,
            from <= parts@.len(),
            wanted == views(parts@).skip(from as int),
            ending(path@, wanted, path@.len() as int) == ending(path@, wanted, at as int),
        decreases at,
    {
        let text = text_between(&chars, at, chars.len());
        assert(text@ =~= path@.skip(at as int));
        let own = components_of(text.as_str());
        if ends_with_components(parts, from, &own) {
            return text;
        }
        at -= 1;
    }
    path.to_owned()
}

/// Whether the components from `from` on are the second's.
fn ends_with_components(parts: &Vec<String>, from: usize, own: &Vec<String>) -> (r: bool)
    requires
        from <= parts@.len(),
    ensures
        r == (views(own@) == views(parts@).skip(from as int)),
{
    let ghost wanted = views(parts@).skip(from as int);
    let total: usize = parts.len();
    if own.len() != total - from {
        assert(views(own@).len() != wanted.len());
        return false;
    }
    let mut i: usize = 0;
    while i < own.len()
        invariant
            i <= own@.len(),
            from <= total == parts@.len(),
            own@.len() == total - from,
            wanted == views(parts@).skip(from as int),
            forall|j: int| 0 <= j < i ==> views(own@)[j] == wanted[j],
        decreases own@.len() - i,
    {
        assert(views(own@)[i as int] == own@[i as int]@);
        assert(wanted[i as int] == parts@[from + i]@);
        if !same(own[i].as_str(), parts[from + i].as_str()) {
            assert(views(own@)[i as int] != wanted[i as int]);
            return false;
        }
        i += 1;
    }
    assert(views(own@) =~= wanted);
    true
}

/// Whether the first components are the second's.
pub fn starts_with_components(parts: &Vec<String>, base: &Vec<String>) -> (r: bool)
    ensures
        r == views(base@).is_prefix_of(views(parts@)),
{
    if base.len() > parts.len() {
        return false;
    }
    let mut i: usize = 0;
    while i < base.len()
        invariant
            i <= base@.len() <= parts@.len(),
            forall|j: int| 0 <= j < i ==> views(base@)[j] == views(parts@)[j],
        decreases base@.len() - i,
    {
        assert(views(base@)[i as int] == base@[i as int]@);
        assert(views(parts@)[i as int] == parts@[i as int]@);
        if !same(base[i].as_str(), parts[i].as_str()) {
            return false;
        }
        i += 1;
    }
    true
}

/// Whether one path lies below another, or is it.
pub fn is_below(path: &str, base: &str) -> (r: bool)
    ensures
        r == lies_below(path@, base@),
{
    starts_with_components(&components_of(path), &components_of(base))
}

/// Whether two texts are the same path.
pub fn same_path(a: &str, b: &str) -> (r: bool)
    ensures
        r == (components(a@) == components(b@)),
{
    crate::text::same_texts(&components_of(a), &components_of(b))
}

/// The directory that holds a path, as the path writes it.
pub open spec fn parent_of(path: Seq<char>) -> Option<Seq<char>> {
    let parts = components(path);
    if parts.len() == 0 || parts.last() == "/"@ {
        None
    } else {
        Some(beginning(path, parts.drop_last(), 0))
    }
}

/// The directory that holds a path.
pub fn parent_path(path: &str) -> (r: Option<String>)
    ensures
        match r {
            Some(parent) => parent_of(path@) == Some(parent@),
            None => parent_of(path@) is None,
        },
{
    let parts = components_of(path);
    if parts.len() == 0 {
        return None;
    }
    assert(views(parts@).last() == parts@[parts@.len() - 1]@);
    if same(parts[parts.len() - 1].as_str(), "/") {
        return None;
    }
    assert(views(parts@).take(parts@.len() - 1) =~= components(path@).drop_last());
    Some(beginning_of(path, &parts, parts.len() - 1))
}

/// What of a path lies below another, where it does, as the path writes it. What names
/// nothing is left off its ends.
pub open spec fn relative_to(path: Seq<char>, base: Seq<char>) -> Option<Seq<char>> {
    let trimmed = beginning(path, components(path), 0);
    if !lies_below(path, base) {
        None
    } else if components(base).len() == 0 {
        Some(trimmed)
    } else {
        Some(
            ending(
                trimmed,
                components(path).skip(components(base).len() as int),
                trimmed.len() as int,
            ),
        )
    }
}

/// What of a path lies below another, where it does.
pub fn relative_path(path: &str, base: &str) -> (r: Option<String>)
    ensures
        match r {
            Some(text) => relative_to(path@, base@) == Some(text@),
            None => relative_to(path@, base@) is None,
        },
{
    let own = components_of(path);
    let other = components_of(base);
    if !starts_with_components(&own, &other) {
        return None;
    }
    assert(views(own@).take(own@.len() as int) =~= views(own@));
    let trimmed = beginning_of(path, &own, own.len());
    if other.len() == 0 {
        return Some(trimmed);
    }
    Some(ending_of(trimmed.as_str(), &own, other.len()))
}

/// The last component, where it names something: neither the root, `.` nor `..`.
pub open spec fn last_name(parts: Seq<Seq<char>>) -> Option<Seq<char>> {
    if parts.len() == 0 || parts.last() == "/"@ || parts.last() == "."@ || parts.last() == ".."@ {
        None
    } else {
        Some(parts.last())
    }
}

/// The name of what a path leads to.
pub fn name_of(path: &str) -> (r: Option<String>)
    ensures
        match r {
            Some(name) => last_name(components(path@)) == Some(name@),
            None => last_name(components(path@)) is None,
        },
{
    let parts = components_of(path);
    if parts.len() == 0 {
        return None;
    }
    let last = parts[parts.len() - 1].as_str();
    assert(views(parts@).last() == last@);
    if same(last, "/") || same(last, ".") || same(last, "..") {
        None
    } else {
        Some(last.to_owned())
    }
}

/// What a component is: the root, `.`, `..` or a name, in this order.
pub open spec fn component_rank(part: Seq<char>) -> Seq<char> {
    if part == "/"@ {
        "1"@
    } else if part == "."@ {
        "2"@
    } else if part == ".."@ {
        "3"@
    } else {
        "4"@
    }
}

/// A text by which paths are ordered component by component: names hold no zero
/// character, so a component that starts another comes before it.
pub open spec fn order_key(parts: Seq<Seq<char>>) -> Seq<char>
    decreases parts.len(),
{
    if parts.len() == 0 {
        Seq::empty()
    } else {
        order_key(parts.drop_last()) + component_rank(parts.last()) + parts.last() + "\0"@
    }
}

/// The key by which a path is ordered.
pub fn order_key_of(path: &str) -> (r: String)
    ensures
        r@ == order_key(components(path@)),
{
    let parts = components_of(path);
    let ghost all = views(parts@);
    let mut out = String::new();
    let mut i: usize = 0;
    assert(out@ =~= order_key(all.take(0)));
    while i < parts.len()
        invariant
            i <= parts@.len(),
            all == views(parts@),
            out@ == order_key(all.take(i as int)),
        decreases parts@.len() - i,
    {
        assert(all.take(i + 1).drop_last() =~= all.take(i as int));
        assert(all.take(i + 1).last() == parts@[i as int]@);
        let part = parts[i].as_str();
        if same(part, "/") {
            out.append("1");
        } else if same(part, ".") {
            out.append("2");
        } else if same(part, "..") {
            out.append("3");
        } else {
            out.append("4");
        }
        out.append(part);
        out.append("\0");
        i += 1;
    }
    assert(all.take(i as int) =~= all);
    out
}

/// A path lies below itself, and what lies below a path below another lies below
/// the other.
pub proof fn lying_below_is_an_order(a: Seq<char>, b: Seq<char>, c: Seq<char>)
    ensures
        lies_below(a, a),
        lies_below(a, b) && lies_below(b, c) ==> lies_below(a, c),
        lies_below(a, b) && lies_below(b, a) ==> components(a) == components(b),
{
    if lies_below(a, b) && lies_below(b, a) {
        assert(components(a) =~= components(b));
    }
}

/// The named parts of a path are neither empty nor dots, and every part that is neither is
/// one of them.
pub proof fn only_names_are_kept(parts: Seq<Seq<char>>, k: int)
    requires
        0 <= k < parts.len(),
    ensures
        parts[k].len() > 0 && parts[k] != "."@ ==> named_parts(parts).contains(parts[k]),
        named_parts(parts).len() <= parts.len(),
        forall|i: int|
            0 <= i < named_parts(parts).len() ==> (#[trigger] named_parts(parts)[i]).len() > 0
                && named_parts(parts)[i] != "."@ && parts.contains(named_parts(parts)[i]),
    decreases parts.len(),
{
    let front = parts.drop_last();
    let (before, after) = (named_parts(front), named_parts(parts));
    if front.len() > 0 {
        only_names_are_kept(
            front,
            if k < front.len() {
                k
            } else {
                0
            },
        );
    } else {
        assert(before.len() == 0);
    }
    if parts[k].len() > 0 && parts[k] != "."@ {
        if k < front.len() {
            assert(front[k] == parts[k]);
            let i = choose|i: int| 0 <= i < before.len() && before[i] == parts[k];
            assert(after[i] == parts[k]);
        } else {
            assert(after[after.len() - 1] == parts[k]);
        }
    }
    assert forall|i: int| 0 <= i < after.len() implies (#[trigger] after[i]).len() > 0 && after[i]
        != "."@ && parts.contains(after[i]) by {
        if i < before.len() {
            assert(after[i] == before[i]);
            let j = choose|j: int| 0 <= j < front.len() && front[j] == before[i];
            assert(parts[j] == after[i]);
        } else {
            assert(parts[parts.len() - 1] == after[i]);
        }
    }
}

/// A path lies below a base only where it goes on from the base's components, and it has a
/// relative form exactly then.
pub proof fn relative_paths_lie_below(path: Seq<char>, base: Seq<char>)
    ensures
        relative_to(path, base) is Some <==> lies_below(path, base),
        lies_below(path, base) ==> components(base).len() <= components(path).len(),
        lies_below(path, base) ==> forall|i: int|
            0 <= i < components(base).len() ==> #[trigger] components(path)[i] == components(base)[i],
{
    if lies_below(path, base) {
        let (whole, front) = (components(path), components(base));
        assert forall|i: int| 0 <= i < front.len() implies #[trigger] whole[i] == front[i] by {
            assert(whole.subrange(0, front.len() as int)[i] == whole[i]);
        }
    }
}

/// The key of a path begins with the key of each path above it, so that what lies above
/// comes before what lies below.
pub proof fn keys_of_paths_begin_alike(parts: Seq<Seq<char>>, n: int)
    requires
        0 <= n <= parts.len(),
    ensures
        order_key(parts.take(n)).is_prefix_of(order_key(parts)),
        n < parts.len() ==> order_key(parts.take(n)).len() < order_key(parts).len(),
    decreases parts.len(),
{
    if n == parts.len() {
        assert(parts.take(n) =~= parts);
        assert(order_key(parts).subrange(0, order_key(parts).len() as int) =~= order_key(parts));
    } else {
        let front = parts.drop_last();
        keys_of_paths_begin_alike(front, n);
        assert(front.take(n) =~= parts.take(n));
        let (small, middle, whole) = (order_key(parts.take(n)), order_key(front), order_key(parts));
        reveal_strlit("\0");
        assert("\0"@.len() == 1);
        assert(whole.subrange(0, small.len() as int) =~= middle.subrange(0, small.len() as int));
    }
}

/// A path that begins at the top has the top as its first component, and no other path has
/// it there.
pub proof fn only_rooted_paths_begin_at_the_top(path: Seq<char>)
    ensures
        rooted(path) ==> components(path).len() > 0 && components(path)[0] == "/"@,
        rooted(path) <==> path.len() > 0 && path[0] == '/',
        !rooted(path) && components(path).len() > 0 ==> components(path)[0] != "/"@,
{
    reveal_strlit("/");
    reveal_strlit(".");
    assert("/"@.len() == 1 && "/"@[0] == '/');
    assert("."@[0] == '.');
    if !rooted(path) && components(path).len() > 0 && components(path)[0] == "/"@ {
        let parts = split(path, '/');
        crate::text::split_texts_are_joined_again(path, '/');
        only_names_are_kept(parts, 0);
        let named = named_parts(parts);
        if !(parts[0] == "."@) {
            assert(components(path) =~= named);
            assert(parts.contains(named[0]));
            let i = choose|i: int| 0 <= i < parts.len() && parts[i] == named[0];
            assert(parts[i][0] == '/');
            assert(parts[i].contains('/'));
        }
    }
}

} // verus!
