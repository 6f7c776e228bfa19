//! Text primitives: every string is modelled by its sequence of characters.
use vstd::prelude::*;
use vstd::string::*;

verus! {

/// `String::push` appends one character.
pub assume_specification[ String::push ](s: &mut String, c: char)
    ensures
        final(s)@ == old(s)@.push(c),
;

/// `str == str` holds exactly when both hold the same characters.
pub assume_specification[ <str as PartialEq>::eq ](a: &str, b: &str) -> (r: bool)
    ensures
        r == (a@ == b@),
;

/// Whether two texts are equal.
pub fn same(a: &str, b: &str) -> (r: bool)
    ensures
        r == (a@ == b@),
{
    *a == *b
}

/// The text of an optional string.
pub open spec fn opt_view(s: Option<String>) -> Option<Seq<char>> {
    match s {
        Some(t) => Some(t@),
        None => None,
    }
}

/// Whether two optional texts are equal.
pub fn same_opt(a: &Option<String>, b: &Option<String>) -> (r: bool)
    ensures
        r == (opt_view(*a) == opt_view(*b)),
{
    match (a, b) {
        (Some(x), Some(y)) => *x == *y,
        (None, None) => true,
        _ => false,
    }
}

/// A copy of an optional string.
pub fn clone_opt(a: &Option<String>) -> (r: Option<String>)
    ensures
        r == *a,
{
    match a {
        Some(x) => Some(x.clone()),
        None => None,
    }
}

/// A copy of a list of strings.
pub fn clone_texts(a: &Vec<String>) -> (r: Vec<String>)
    ensures
        r@ == a@,
{
    let mut out: Vec<String> = Vec::new();
    let mut i: usize = 0;
    while i < a.len()
        invariant
            i <= a@.len(),
            out@ == a@.take(i as int),
        decreases a@.len() - i,
    {
        out.push(a[i].clone());
        i += 1;
        assert(out@ =~= a@.take(i as int));
    }
    assert(a@.take(i as int) =~= a@);
    out
}

/// The texts of a list of strings.
pub open spec fn views(a: Seq<String>) -> Seq<Seq<char>> {
    Seq::new(a.len(), |i: int| a[i]@)
}

/// Whether two lists hold the same texts in the same order.
pub fn same_texts(a: &Vec<String>, b: &Vec<String>) -> (r: bool)
    ensures
        r == (views(a@) == views(b@)),
{
    if a.len() != b.len() {
        assert(views(a@).len() != views(b@).len());
        return false;
    }
    let mut i: usize = 0;
    while i < a.len()
        invariant
            i <= a@.len() == b@.len(),
            forall|j: int| 0 <= j < i ==> (#[trigger] a@[j])@ == b@[j]@,
        decreases a@.len() - i,
    {
        if !same(a[i].as_str(), b[i].as_str()) {
            assert(views(a@)[i as int] != views(b@)[i as int]);
            return false;
        }
        i += 1;
    }
    assert(views(a@) =~= views(b@));
    true
}

/// Whether `list` holds `s`.
pub fn list_holds(list: &Vec<String>, s: &str) -> (r: bool)
    ensures
        r == views(list@).contains(s@),
{
    let mut i: usize = 0;
    while i < list.len()
        invariant
            i <= list@.len(),
            forall|j: int| 0 <= j < i ==> list@[j]@ != s@,
        decreases list@.len() - i,
    {
        if same(list[i].as_str(), s) {
            assert(views(list@)[i as int] == s@);
            return true;
        }
        i += 1;
    }
    assert forall|j: int| 0 <= j < views(list@).len() implies views(list@)[j] != s@ by {}
    false
}

/// The characters of `s`, in order.
pub fn chars_of(s: &str) -> (r: Vec<char>)
    ensures
        r@ == s@,
{
    let mut out: Vec<char> = Vec::new();
    for c in it: s.chars()
        invariant
            out@ == it.seq().take(it.index()),
            it.seq() == s@,
    {
        out.push(c);
    }
    out
}

/// The string made of `chars`.
pub fn text_of(chars: &[char]) -> (r: String)
    ensures
        r@ == chars@,
{
    text_between(chars, 0, chars.len())
}

/// The string made of the characters `from..to`.
pub fn text_between(chars: &[char], from: usize, to: usize) -> (r: String)
    requires
        from <= to <= chars@.len(),
    ensures
        r@ == chars@.subrange(from as int, to as int),
{
    let mut out = String::new();
    let mut i: usize = from;
    while i < to
        invariant
            from <= i <= to <= chars@.len(),
            out@ == chars@.subrange(from as int, i as int),
        decreases to - i,
    {
        out.push(chars[i]);
        i += 1;
    }
    out
}

/// `p` occurs in `s` at position `i`.
pub open spec fn occurs_at<A>(s: Seq<A>, p: Seq<A>, i: int) -> bool {
    0 <= i && i + p.len() <= s.len() && s.subrange(i, i + p.len()) == p
}

/// `p` occurs somewhere in `s`.
pub open spec fn has<A>(s: Seq<A>, p: Seq<A>) -> bool {
    exists|i: int| occurs_at(s, p, i)
}

/// Whether `needle` stands at `at`.
pub fn matches_at(hay: &[char], needle: &[char], at: usize) -> (r: bool)
    requires
        at <= hay@.len(),
    ensures
        r == occurs_at(hay@, needle@, at as int),
{
    if hay.len() - at < needle.len() {
        return false;
    }
    let mut k: usize = 0;
    while k < needle.len()
        invariant
            at + needle@.len() <= hay@.len() <= usize::MAX,
            k <= needle@.len(),
            forall|j: int| 0 <= j < k ==> hay@[at + j] == needle@[j],
        decreases needle@.len() - k,
    {
        if hay[at + k] != needle[k] {
            assert(hay@.subrange(at as int, at + needle@.len())[k as int] != needle@[k as int]);
            return false;
        }
        k += 1;
    }
    assert(hay@.subrange(at as int, at + needle@.len()) =~= needle@);
    true
}

/// The first position at or after `from` at which `needle` stands.
pub fn find_from(hay: &[char], needle: &[char], from: usize) -> (r: Option<usize>)
    requires
        from <= hay@.len(),
    ensures
        match r {
            Some(i) => from <= i && occurs_at(hay@, needle@, i as int) && forall|j: int|
                from <= j < i ==> !occurs_at(hay@, needle@, j),
            None => forall|j: int| from <= j ==> !occurs_at(hay@, needle@, j),
        },
{
    let mut i: usize = from;
    loop
        invariant
            from <= i <= hay@.len(),
            forall|j: int| from <= j < i ==> !occurs_at(hay@, needle@, j),
        decreases hay@.len() - i,
    {
        if matches_at(hay, needle, i) {
            return Some(i);
        }
        if i == hay.len() {
            return None;
        }
        i += 1;
    }
}

/// Whether `s` holds `p`.
pub fn contains(s: &str, p: &str) -> (r: bool)
    ensures
        r == has(s@, p@),
{
    find_from(&chars_of(s), &chars_of(p), 0).is_some()
}

/// Whether `s` begins with `p`.
pub fn starts_with(s: &str, p: &str) -> (r: bool)
    ensures
        r == p@.is_prefix_of(s@),
{
    let (hay, needle) = (chars_of(s), chars_of(p));
    assert(occurs_at(s@, p@, 0) <==> p@.is_prefix_of(s@)) by {
        assert(p@.len() <= s@.len() ==> s@.subrange(0, p@.len() as int) =~= s@.take(
            p@.len() as int,
        ));
    }
    matches_at(&hay, &needle, 0)
}

/// Whether `s` ends with `p`.
pub fn ends_with(s: &str, p: &str) -> (r: bool)
    ensures
        r == p@.is_suffix_of(s@),
{
    let (hay, needle) = (chars_of(s), chars_of(p));
    if hay.len() < needle.len() {
        return false;
    }
    assert(occurs_at(s@, p@, s@.len() - p@.len()) <==> p@.is_suffix_of(s@)) by {
        assert(s@.subrange(s@.len() - p@.len(), s@.len() as int) =~= s@.skip(s@.len() - p@.len()));
    }
    matches_at(&hay, &needle, hay.len() - needle.len())
}

/// `a` comes before `b` in dictionary order of characters.
pub open spec fn lex_less(a: Seq<char>, b: Seq<char>) -> bool
    decreases a.len(),
{
    if b.len() == 0 {
        false
    } else if a.len() == 0 {
        true
    } else if a[0] != b[0] {
        a[0] < b[0]
    } else {
        lex_less(a.drop_first(), b.drop_first())
    }
}

/// Dictionary order is a strict order on texts.
pub proof fn lex_less_is_strict_order(a: Seq<char>, b: Seq<char>, c: Seq<char>)
    ensures
        !lex_less(a, a),
        lex_less(a, b) ==> !lex_less(b, a),
        lex_less(a, b) && lex_less(b, c) ==> lex_less(a, c),
        a == b || lex_less(a, b) || lex_less(b, a),
    decreases a.len() + b.len(),
{
    if a.len() > 0 {
        lex_less_is_strict_order(a.drop_first(), Seq::empty(), Seq::empty());
    }
    if a.len() > 0 && b.len() > 0 && a[0] == b[0] {
        let c1 = if c.len() > 0 {
            c.drop_first()
        } else {
            c
        };
        lex_less_is_strict_order(a.drop_first(), b.drop_first(), c1);
        if a.drop_first() == b.drop_first() {
            assert(a =~= b) by {
                assert forall|i: int| 0 <= i < a.len() implies a[i] == b[i] by {
                    if i > 0 {
                        assert(a.drop_first()[i - 1] == b.drop_first()[i - 1]);
                    }
                }
                assert(a.drop_first().len() == b.drop_first().len());
            }
        }
    }
    if a.len() == 0 && b.len() == 0 {
        assert(a =~= b);
    }
}

/// Whether `a` comes before `b` in dictionary order.
pub fn precedes(a: &str, b: &str) -> (r: bool)
    ensures
        r == lex_less(a@, b@),
{
    let (x, y) = (chars_of(a), chars_of(b));
    let mut i: usize = 0;
    assert(x@.skip(0) =~= x@ && y@.skip(0) =~= y@);
    loop
        invariant
            i <= x@.len(),
            i <= y@.len(),
            x@ == a@,
            y@ == b@,
            lex_less(x@, y@) == lex_less(x@.skip(i as int), y@.skip(i as int)),
        decreases x@.len() - i,
    {
        if i == y.len() {
            return false;
        }
        if i == x.len() {
            return true;
        }
        if x[i] != y[i] {
            return x[i] < y[i];
        }
        assert(x@.skip(i as int).drop_first() =~= x@.skip(i + 1));
        assert(y@.skip(i as int).drop_first() =~= y@.skip(i + 1));
        i += 1;
    }
}

/// The decimal digits of `n`.
pub open spec fn decimal(n: nat) -> Seq<char>
    decreases n,
{
    if n < 10 {
        seq![digit_char(n)]
    } else {
        decimal(n / 10).push(digit_char(n % 10))
    }
}

/// The character of a decimal digit.
pub open spec fn digit_char(d: nat) -> char {
    ('0' as int + d) as char
}

/// Writes `n` in decimal.
pub fn wide_decimal(n: u128) -> (r: String)
    ensures
        r@ == decimal(n as nat),
    decreases n,
{
    if n < 10 {
        let mut out = String::new();
        out.push((48u8 + n as u8) as char);
        assert(out@ =~= decimal(n as nat));
        out
    } else {
        let mut out = wide_decimal(n / 10);
        out.push((48u8 + (n % 10) as u8) as char);
        out
    }
}

/// Writes `n` in decimal.
pub fn decimal_text(n: u64) -> (r: String)
    ensures
        r@ == decimal(n as nat),
{
    wide_decimal(n as u128)
}

/// The value of a non-empty run of decimal digits, if it is one.
pub open spec fn digits_value(s: Seq<char>) -> Option<nat>
    decreases s.len(),
{
    if s.len() == 0 {
        None
    } else {
        let d = s.last();
        if !('0' <= d <= '9') {
            None
        } else if s.len() == 1 {
            Some((d as int - '0' as int) as nat)
        } else {
            match digits_value(s.drop_last()) {
                Some(v) => Some(v * 10 + (d as int - '0' as int) as nat),
                None => None,
            }
        }
    }
}

/// A number is read back from its decimal digits.
pub proof fn decimal_reads_back(n: nat)
    ensures
        digits_value(decimal(n)) == Some(n),
        decimal(n).len() > 0,
    decreases n,
{
    if n >= 10 {
        decimal_reads_back(n / 10);
        assert(decimal(n).drop_last() =~= decimal(n / 10));
    }
}

/// The number that `s` spells: decimal digits with an optional leading plus
/// sign, no greater than `max`.
pub open spec fn number_value(s: Seq<char>, max: nat) -> Option<nat> {
    let digits = if s.len() > 0 && s[0] == '+' {
        s.drop_first()
    } else {
        s
    };
    match digits_value(digits) {
        Some(v) if v <= max => Some(v),
        _ => None,
    }
}

proof fn digits_value_grows(s: Seq<char>, k: int)
    requires
        1 <= k <= s.len(),
    ensures
        digits_value(s) is Some ==> digits_value(s.take(k)) is Some && digits_value(s.take(k))->0
            <= digits_value(s)->0,
    decreases s.len() - k,
{
    if k == s.len() {
        assert(s.take(k) =~= s);
    } else {
        digits_value_grows(s, k + 1);
        assert(s.take(k + 1).drop_last() =~= s.take(k));
    }
}

/// Reads an unsigned decimal number no greater than `max`.
pub fn parse_number(s: &str, max: u64) -> (r: Option<u64>)
    ensures
        match r {
            Some(v) => number_value(s@, max as nat) == Some(v as nat),
            None => number_value(s@, max as nat) is None,
        },
{
    let all = chars_of(s);
    let start: usize = if all.len() > 0 && all[0] == '+' {
        1
    } else {
        0
    };
    let ghost digits = s@.skip(start as int);
    assert(digits =~= if s@.len() > 0 && s@[0] == '+' {
        s@.drop_first()
    } else {
        s@
    });
    if start == all.len() {
        return None;
    }
    let mut value: u64 = 0;
    let mut i: usize = start;
    while i < all.len()
        invariant
            all@ == s@,
            start <= i <= all@.len(),
            start < all@.len(),
            start <= 1,
            digits == s@.skip(start as int),
            i == start ==> value == 0,
            i > start ==> digits_value(digits.take(i - start)) == Some(value as nat),
            value <= max,
            digits == if s@.len() > 0 && s@[0] == '+' {
                s@.drop_first()
            } else {
                s@
            },
        decreases all@.len() - i,
    {
        let c = all[i];
        let ghost next = digits.take(i - start + 1);
        assert(next.last() == c);
        assert(next.drop_last() =~= digits.take(i - start));
        proof {
            digits_value_grows(digits, i - start + 1);
        }
        if c < '0' || c > '9' {
            return None;
        }
        let d: u64 = (c as u32 - 48u32) as u64;
        if value > (u64::MAX - d) / 10 {
            assert(value * 10 + d > max);
            return None;
        }
        let v: u64 = value * 10 + d;
        if v > max {
            return None;
        }
        value = v;
        i += 1;
    }
    assert(digits.take(i - start) =~= digits);
    Some(value)
}

/// The parts in order, with `sep` between each two.
pub open spec fn joined(parts: Seq<Seq<char>>, sep: Seq<char>) -> Seq<char>
    decreases parts.len(),
{
    if parts.len() == 0 {
        Seq::empty()
    } else if parts.len() == 1 {
        parts[0]
    } else {
        joined(parts.drop_last(), sep) + sep + parts.last()
    }
}

/// Joins `parts` with `sep`.
pub fn join(parts: &Vec<String>, sep: &str) -> (r: String)
    ensures
        r@ == joined(views(parts@), sep@),
{
    let mut out = String::new();
    let mut i: usize = 0;
    while i < parts.len()
        invariant
            i <= parts@.len(),
            out@ == joined(views(parts@.take(i as int)), sep@),
        decreases parts@.len() - i,
    {
        let ghost before = views(parts@.take(i as int));
        let ghost after = views(parts@.take(i + 1));
        assert(after.drop_last() =~= before);
        assert(after.last() == parts@[i as int]@);
        if i > 0 {
            out.append(sep);
        }
        out.append(parts[i].as_str());
        i += 1;
        assert(out@ =~= joined(after, sep@));
    }
    assert(parts@.take(i as int) =~= parts@);
    out
}

/// The lower-case form of a text, as the Unicode tables give it.
pub uninterp spec fn lowercased(s: Seq<char>) -> Seq<char>;

/// `str::to_lowercase`: the lower-case form of `s`.
#[verifier::external_body]
pub(crate) fn lowercase(s: &str) -> (r: String)
    ensures
        r@ == lowercased(s@),
{
    s.to_lowercase()
}

/// Whether the Unicode tables call `c` a letter or a number.
pub uninterp spec fn alphanumeric(c: char) -> bool;

/// `char::is_alphanumeric`: whether `c` is a letter or a number.
#[verifier::external_body]
pub(crate) fn is_alphanumeric(c: char) -> (r: bool)
    ensures
        r == alphanumeric(c),
{
    c.is_alphanumeric()
}

/// `c` is white space, as Unicode has it.
pub open spec fn whitespace(c: char) -> bool {
    ||| 0x09 <= c as int <= 0x0d
    ||| c as int == 0x20
    ||| c as int == 0x85
    ||| c as int == 0xa0
    ||| c as int == 0x1680
    ||| 0x2000 <= c as int <= 0x200a
    ||| 0x2028 <= c as int <= 0x2029
    ||| c as int == 0x202f
    ||| c as int == 0x205f
    ||| c as int == 0x3000
}

/// Whether `c` is white space.
pub fn is_whitespace(c: char) -> (r: bool)
    ensures
        r == whitespace(c),
{
    let n: u32 = c as u32;
    (0x09 <= n && n <= 0x0d) || n == 0x20 || n == 0x85 || n == 0xa0 || n == 0x1680 || (0x2000 <= n
        && n <= 0x200a) || (0x2028 <= n && n <= 0x2029) || n == 0x202f || n == 0x205f || n == 0x3000
}

/// A whole number in decimal, with a minus sign in front of a negative one.
pub open spec fn signed_decimal(n: int) -> Seq<char> {
    if n < 0 {
        seq!['-'] + decimal((-n) as nat)
    } else {
        decimal(n as nat)
    }
}

/// Writes `n` in decimal.
pub fn signed_text(n: i64) -> (r: String)
    ensures
        r@ == signed_decimal(n as int),
{
    if n >= 0 {
        decimal_text(n as u64)
    } else {
        let mut out = String::new();
        out.push('-');
        let magnitude: u64 = if n == i64::MIN {
            9223372036854775808
        } else {
            (-n) as u64
        };
        out.append(decimal_text(magnitude).as_str());
        assert(out@ =~= signed_decimal(n as int));
        out
    }
}

/// The parts of `s` between the separators.
pub open spec fn split(s: Seq<char>, sep: char) -> Seq<Seq<char>>
    decreases s.len(),
{
    if s.len() == 0 {
        seq![Seq::empty()]
    } else {
        let rest = split(s.drop_last(), sep);
        if s.last() == sep {
            rest.push(Seq::empty())
        } else {
            rest.drop_last().push(rest.last().push(s.last()))
        }
    }
}

/// Splitting always gives at least one part.
pub proof fn split_is_nonempty(s: Seq<char>, sep: char)
    ensures
        split(s, sep).len() > 0,
    decreases s.len(),
{
    if s.len() > 0 {
        split_is_nonempty(s.drop_last(), sep);
    }
}

/// The parts of `s` between the separators.
pub fn split_text(s: &str, sep: char) -> (r: Vec<String>)
    ensures
        views(r@) == split(s@, sep),
        r@.len() > 0,
{
    let all = chars_of(s);
    let mut parts: Vec<String> = Vec::new();
    let mut part = String::new();
    let mut i: usize = 0;
    assert(views(parts@).push(part@) =~= split(all@.take(0), sep));
    while i < all.len()
        invariant
            i <= all@.len(),
            views(parts@).push(part@) == split(all@.take(i as int), sep),
        decreases all@.len() - i,
    {
        let c = all[i];
        let ghost before = views(parts@).push(part@);
        assert(all@.take(i + 1).drop_last() =~= all@.take(i as int));
        assert(before.drop_last() =~= views(parts@));
        if c == sep {
            parts.push(part);
            part = String::new();
            assert(views(parts@) =~= before);
        } else {
            part.push(c);
        }
        i += 1;
        assert(views(parts@).push(part@) =~= split(all@.take(i as int), sep));
    }
    assert(all@.take(i as int) =~= s@);
    let ghost before = views(parts@).push(part@);
    parts.push(part);
    assert(views(parts@) =~= before);
    parts
}

/// The last position of `c`, or -1.
pub open spec fn last_index(s: Seq<char>, c: char) -> int
    decreases s.len(),
{
    if s.len() == 0 {
        -1
    } else if s.last() == c {
        s.len() - 1
    } else {
        last_index(s.drop_last(), c)
    }
}

/// The last position of `c`.
pub fn last_position(s: &[char], c: char) -> (r: Option<usize>)
    ensures
        match r {
            Some(i) => i == last_index(s@, c) && i < s@.len(),
            None => last_index(s@, c) == -1,
        },
{
    let mut n: usize = s.len();
    assert(s@.take(n as int) =~= s@);
    while n > 0
        invariant
            n <= s@.len(),
            last_index(s@, c) == last_index(s@.take(n as int), c),
        decreases n,
    {
        if s[n - 1] == c {
            return Some(n - 1);
        }
        assert(s@.take(n as int).drop_last() =~= s@.take(n - 1));
        n -= 1;
    }
    None
}

/// A text between quotes, with escapes, as debug output shows it.
pub uninterp spec fn debug_literal(s: Seq<char>) -> Seq<char>;

/// `<str as std::fmt::Debug>::fmt`: the text between quotes, with escapes.
#[verifier::external_body]
pub(crate) fn debug_quote(s: &str) -> (r: String)
    ensures
        r@ == debug_literal(s@),
{
    format!("{s:?}")
}

/// `s` without the white space at its front.
pub open spec fn trimmed_start(s: Seq<char>) -> Seq<char>
    decreases s.len(),
{
    if s.len() > 0 && whitespace(s[0]) {
        trimmed_start(s.drop_first())
    } else {
        s
    }
}

/// `s` without the white space at its end.
pub open spec fn trimmed_end(s: Seq<char>) -> Seq<char>
    decreases s.len(),
{
    if s.len() > 0 && whitespace(s.last()) {
        trimmed_end(s.drop_last())
    } else {
        s
    }
}

/// `s` without the white space at its ends.
pub open spec fn trimmed(s: Seq<char>) -> Seq<char> {
    trimmed_end(trimmed_start(s))
}

/// Takes the white space off both ends.
pub fn trim(s: &str) -> (r: String)
    ensures
        r@ == trimmed(s@),
{
    let all = chars_of(s);
    let mut from: usize = 0;
    assert(all@.skip(0) =~= all@);
    while from < all.len() && is_whitespace(all[from])
        invariant
            from <= all@.len(),
            trimmed_start(all@) == trimmed_start(all@.skip(from as int)),
        decreases all@.len() - from,
    {
        assert(all@.skip(from as int).drop_first() =~= all@.skip(from + 1));
        from += 1;
    }
    assert(trimmed_start(all@) == all@.skip(from as int));
    let ghost rest = all@.skip(from as int);
    let mut to: usize = all.len();
    assert(all@.subrange(from as int, to as int) =~= rest);
    while to > from && is_whitespace(all[to - 1])
        invariant
            from <= to <= all@.len(),
            trimmed_end(rest) == trimmed_end(all@.subrange(from as int, to as int)),
        decreases to,
    {
        assert(all@.subrange(from as int, to as int).drop_last() =~= all@.subrange(
            from as int,
            to - 1,
        ));
        to -= 1;
    }
    text_between(&all, from, to)
}

/// Takes the white space off the end.
pub fn trim_end(s: &str) -> (r: String)
    ensures
        r@ == trimmed_end(s@),
{
    let all = chars_of(s);
    let mut to: usize = all.len();
    assert(all@.subrange(0, to as int) =~= all@);
    while to > 0 && is_whitespace(all[to - 1])
        invariant
            to <= all@.len(),
            trimmed_end(all@) == trimmed_end(all@.subrange(0, to as int)),
        decreases to,
    {
        assert(all@.subrange(0, to as int).drop_last() =~= all@.subrange(0, to - 1));
        to -= 1;
    }
    text_between(&all, 0, to)
}

/// What follows the prefix `p`, where `s` begins with it.
pub fn strip_prefix(s: &str, p: &str) -> (r: Option<String>)
    ensures
        match r {
            Some(rest) => p@.is_prefix_of(s@) && rest@ == s@.skip(p@.len() as int),
            None => !p@.is_prefix_of(s@),
        },
{
    if starts_with(s, p) {
        let all = chars_of(s);
        assert(s@.skip(p@.len() as int) =~= s@.subrange(p@.len() as int, s@.len() as int));
        Some(text_between(&all, p.unicode_len(), all.len()))
    } else {
        None
    }
}

/// What precedes the suffix `p`, where `s` ends with it.
pub fn strip_suffix(s: &str, p: &str) -> (r: Option<String>)
    ensures
        match r {
            Some(rest) => p@.is_suffix_of(s@) && rest@ == s@.take(s@.len() - p@.len()),
            None => !p@.is_suffix_of(s@),
        },
{
    if ends_with(s, p) {
        let all = chars_of(s);
        assert(s@.take(s@.len() - p@.len()) =~= s@.subrange(0, s@.len() - p@.len()));
        Some(text_between(&all, 0, all.len() - p.unicode_len()))
    } else {
        None
    }
}

/// The first position of `c`, or the length.
pub open spec fn first_index(s: Seq<char>, c: char) -> int
    decreases s.len(),
{
    if s.len() == 0 || s[0] == c {
        0
    } else {
        1 + first_index(s.drop_first(), c)
    }
}

/// The first position of `c`, or the length.
pub fn first_position(s: &[char], c: char) -> (r: usize)
    ensures
        r == first_index(s@, c),
        r <= s@.len(),
        forall|j: int| 0 <= j < r ==> s@[j] != c,
        r < s@.len() ==> s@[r as int] == c,
{
    let mut i: usize = 0;
    assert(s@.skip(0) =~= s@);
    while i < s.len() && s[i] != c
        invariant
            i <= s@.len(),
            first_index(s@, c) == i + first_index(s@.skip(i as int), c),
            forall|j: int| 0 <= j < i ==> s@[j] != c,
        decreases s@.len() - i,
    {
        assert(s@.skip(i as int).drop_first() =~= s@.skip(i + 1));
        i += 1;
    }
    i
}

/// What stands before and after the first `c`, where there is one.
pub open spec fn cut_once(s: Seq<char>, c: char) -> Option<(Seq<char>, Seq<char>)> {
    let at = first_index(s, c);
    if at < s.len() {
        Some((s.take(at), s.skip(at + 1)))
    } else {
        None
    }
}

/// Cuts `s` at the first `c`.
pub fn split_once(s: &str, c: char) -> (r: Option<(String, String)>)
    ensures
        match r {
            Some(parts) => cut_once(s@, c) == Some((parts.0@, parts.1@)),
            None => cut_once(s@, c) is None,
        },
{
    let all = chars_of(s);
    let at = first_position(&all, c);
    if at < all.len() {
        assert(s@.take(at as int) =~= s@.subrange(0, at as int));
        assert(s@.skip(at + 1) =~= s@.subrange(at + 1, s@.len() as int));
        Some((text_between(&all, 0, at), text_between(&all, at + 1, all.len())))
    } else {
        None
    }
}

/// Two texts in a row.
pub fn concat(a: &str, b: &str) -> (r: String)
    ensures
        r@ == a@ + b@,
{
    let mut out = a.to_owned();
    out.append(b);
    out
}

/// `part` below the directory `base`.
pub open spec fn path_joined(base: Seq<char>, part: Seq<char>) -> Seq<char> {
    if part.len() > 0 && part[0] == '/' {
        part
    } else if base.len() == 0 || base.last() == '/' {
        base + part
    } else {
        base + "/"@ + part
    }
}

/// Puts `part` below the directory `base`.
pub fn join_path(base: &str, part: &str) -> (r: String)
    ensures
        r@ == path_joined(base@, part@),
{
    let (b, p) = (chars_of(base), chars_of(part));
    if p.len() > 0 && p[0] == '/' {
        part.to_owned()
    } else if b.len() == 0 || b[b.len() - 1] == '/' {
        concat(base, part)
    } else {
        concat(concat(base, "/").as_str(), part)
    }
}

/// The parts of `s` between the characters that are marked.
pub open spec fn parts_between(s: Seq<char>, marked: spec_fn(char) -> bool) -> Seq<Seq<char>>
    decreases s.len(),
{
    if s.len() == 0 {
        seq![Seq::empty()]
    } else {
        let rest = parts_between(s.drop_last(), marked);
        if marked(s.last()) {
            rest.push(Seq::empty())
        } else {
            rest.drop_last().push(rest.last().push(s.last()))
        }
    }
}

/// The parts of `chars` between the characters whose mark is set.
pub(crate) fn split_marked(chars: &Vec<char>, marks: &Vec<bool>, marked: Ghost<spec_fn(char) -> bool>) -> (r:
    Vec<String>)
    requires
        marks@.len() == chars@.len(),
        forall|i: int| 0 <= i < chars@.len() ==> (#[trigger] marks@[i]) == marked@(chars@[i]),
    ensures
        views(r@) == parts_between(chars@, marked@),
{
    let ghost f = marked@;
    let mut parts: Vec<String> = Vec::new();
    let mut part = String::new();
    let mut i: usize = 0;
    assert(views(parts@).push(part@) =~= parts_between(chars@.take(0), f));
    while i < chars.len()
        invariant
            i <= chars@.len() == marks@.len(),
            f == marked@,
            forall|j: int| 0 <= j < chars@.len() ==> (#[trigger] marks@[j]) == f(chars@[j]),
            views(parts@).push(part@) == parts_between(chars@.take(i as int), f),
        decreases chars@.len() - i,
    {
        let ghost before = views(parts@).push(part@);
        assert(chars@.take(i + 1).drop_last() =~= chars@.take(i as int));
        assert(before.drop_last() =~= views(parts@));
        assert(marks@[i as int] == f(chars@[i as int]));
        if marks[i] {
            parts.push(part);
            part = String::new();
            assert(views(parts@) =~= before);
        } else {
            part.push(chars[i]);
        }
        i += 1;
        assert(views(parts@).push(part@) =~= parts_between(chars@.take(i as int), f));
    }
    assert(chars@.take(i as int) =~= chars@);
    let ghost before = views(parts@).push(part@);
    parts.push(part);
    assert(views(parts@) =~= before);
    parts
}

/// The parts that are not empty.
pub open spec fn nonempty(parts: Seq<Seq<char>>) -> Seq<Seq<char>>
    decreases parts.len(),
{
    if parts.len() == 0 {
        Seq::empty()
    } else {
        let rest = nonempty(parts.drop_last());
        if parts.last().len() > 0 {
            rest.push(parts.last())
        } else {
            rest
        }
    }
}

/// The words of a text: its parts between white space.
pub open spec fn words(s: Seq<char>) -> Seq<Seq<char>> {
    nonempty(parts_between(s, |c: char| whitespace(c)))
}

/// The words of a text.
pub fn split_words(s: &str) -> (r: Vec<String>)
    ensures
        views(r@) == words(s@),
{
    let chars = chars_of(s);
    let mut marks: Vec<bool> = Vec::new();
    let mut i: usize = 0;
    while i < chars.len()
        invariant
            i <= chars@.len(),
            marks@.len() == i,
            forall|j: int| 0 <= j < i ==> (#[trigger] marks@[j]) == whitespace(chars@[j]),
        decreases chars@.len() - i,
    {
        marks.push(is_whitespace(chars[i]));
        i += 1;
    }
    let parts = split_marked(&chars, &marks, Ghost(|c: char| whitespace(c)));
    keep_nonempty(&parts)
}

/// The parts that are not empty.
pub fn keep_nonempty(parts: &Vec<String>) -> (r: Vec<String>)
    ensures
        views(r@) == nonempty(views(parts@)),
{
    let mut out: Vec<String> = Vec::new();
    let mut i: usize = 0;
    assert(views(out@) =~= nonempty(views(parts@).take(0)));
    while i < parts.len()
        invariant
            i <= parts@.len(),
            views(out@) == nonempty(views(parts@).take(i as int)),
        decreases parts@.len() - i,
    {
        let ghost before = out@;
        assert(views(parts@).take(i + 1).drop_last() =~= views(parts@).take(i as int));
        if !parts[i].as_str().is_empty() {
            out.push(parts[i].clone());
            assert(views(out@) =~= views(before).push(parts@[i as int]@));
        }
        i += 1;
    }
    assert(views(parts@).take(i as int) =~= views(parts@));
    out
}

/// The character in lower case, where it is an ASCII letter.
pub open spec fn ascii_lower(c: char) -> char {
    if 'A' <= c <= 'Z' {
        (c as int + 32) as char
    } else {
        c
    }
}

/// The text with its ASCII letters in lower case.
pub open spec fn ascii_lowered(text: Seq<char>) -> Seq<char> {
    Seq::new(text.len(), |i: int| ascii_lower(text[i]))
}

/// The text with its ASCII letters in lower case.
pub fn lower_ascii(text: &str) -> (r: String)
    ensures
        r@ == ascii_lowered(text@),
{
    let mut all = chars_of(text);
    let mut i: usize = 0;
    while i < all.len()
        invariant
            i <= all@.len() == text@.len(),
            forall|j: int| 0 <= j < i ==> all@[j] == ascii_lower(text@[j]),
            forall|j: int| i <= j < all@.len() ==> all@[j] == text@[j],
        decreases all@.len() - i,
    {
        let c = all[i];
        if 'A' <= c && c <= 'Z' {
            let low: u8 = (c as u32) as u8 + 32;
            all.set(i, low as char);
        }
        i += 1;
    }
    assert(all@ =~= ascii_lowered(text@));
    text_of(&all)
}

proof fn first_index_facts(s: Seq<char>, c: char)
    ensures
        0 <= first_index(s, c) <= s.len(),
        forall|j: int| 0 <= j < first_index(s, c) ==> s[j] != c,
        first_index(s, c) < s.len() ==> s[first_index(s, c)] == c,
    decreases s.len(),
{
    if s.len() > 0 && s[0] != c {
        first_index_facts(s.drop_first(), c);
        assert forall|j: int| 0 <= j < first_index(s, c) implies s[j] != c by {
            if j > 0 {
                assert(s.drop_first()[j - 1] == s[j]);
            }
        }
    }
}

/// A text is cut at the first place of the character: what comes before does not hold
/// it, and the parts with the character between are the text. A text that does not hold
/// it is not cut.
pub proof fn a_cut_is_at_the_first_place(s: Seq<char>, c: char)
    ensures
        match cut_once(s, c) {
            Some((before, after)) => s == before + seq![c] + after && !before.contains(c),
            None => !s.contains(c),
        },
{
    first_index_facts(s, c);
    if let Some((before, after)) = cut_once(s, c) {
        assert(s =~= before + seq![c] + after);
    }
}

/// There is one way to cut a text at the first place of a character.
pub proof fn a_text_is_cut_in_one_way(
    s: Seq<char>,
    c: char,
    before: Seq<char>,
    after: Seq<char>,
    other: Seq<char>,
    rest: Seq<char>,
)
    requires
        s == before + seq![c] + after,
        s == other + seq![c] + rest,
        !before.contains(c),
        !other.contains(c),
    ensures
        before == other,
        after == rest,
{
    if before.len() < other.len() {
        assert(s[before.len() as int] == c);
        assert(other[before.len() as int] == c);
    }
    if other.len() < before.len() {
        assert(s[other.len() as int] == c);
        assert(before[other.len() as int] == c);
    }
    assert(before =~= s.take(before.len() as int));
    assert(other =~= s.take(other.len() as int));
    assert(after =~= s.skip(before.len() as int + 1));
    assert(rest =~= s.skip(other.len() as int + 1));
}

/// The last place of a character holds it, and nothing behind that place does; where it
/// has none, the text does not hold it.
pub proof fn last_place(s: Seq<char>, c: char)
    ensures
        -1 <= last_index(s, c) < s.len(),
        last_index(s, c) >= 0 ==> s[last_index(s, c)] == c,
        forall|j: int| last_index(s, c) < j < s.len() ==> s[j] != c,
    decreases s.len(),
{
    if s.len() > 0 && s.last() != c {
        last_place(s.drop_last(), c);
        assert forall|j: int| last_index(s, c) < j < s.len() implies s[j] != c by {
            if j < s.len() - 1 {
                assert(s.drop_last()[j] == s[j]);
            }
        }
    }
}

/// Each part of a joined text is in it.
pub proof fn every_part_is_in_a_joined_text(parts: Seq<Seq<char>>, separator: Seq<char>, i: int)
    requires
        0 <= i < parts.len(),
    ensures
        has(joined(parts, separator), parts[i]),
    decreases parts.len(),
{
    let whole = joined(parts, separator);
    let front = parts.drop_last();
    if parts.len() == 1 {
        assert(whole =~= parts[0]);
        assert(whole.subrange(0, parts[0].len() as int) =~= parts[0]);
        assert(occurs_at(whole, parts[0], 0));
    } else if i < front.len() {
        every_part_is_in_a_joined_text(front, separator, i);
        let before = joined(front, separator);
        let at = choose|at: int| occurs_at(before, parts[i], at);
        assert(whole.subrange(at, at + parts[i].len()) =~= before.subrange(
            at,
            at + parts[i].len(),
        ));
        assert(occurs_at(whole, parts[i], at));
    } else {
        let at = whole.len() - parts[i].len();
        assert(whole.subrange(at, at + parts[i].len()) =~= parts[i]);
        assert(occurs_at(whole, parts[i], at));
    }
}

/// What is in a part of a text is in the text.
pub proof fn parts_of_parts_are_parts(s: Seq<char>, part: Seq<char>, inner: Seq<char>)
    requires
        has(s, part),
        has(part, inner),
    ensures
        has(s, inner),
{
    let at = choose|at: int| occurs_at(s, part, at);
    let within = choose|within: int| occurs_at(part, inner, within);
    let place = at + within;
    assert(s.subrange(at, at + part.len()) =~= part);
    assert forall|k: int| 0 <= k < inner.len() implies s[place + k] == inner[k] by {
        assert(part.subrange(within, within + inner.len())[k] == part[within + k]);
        assert(s.subrange(at, at + part.len())[within + k] == s[at + within + k]);
    }
    assert(s.subrange(place, place + inner.len()) =~= inner);
    assert(occurs_at(s, inner, place));
}

/// A text is in any text that it is put into.
pub proof fn a_text_is_in_what_surrounds_it(front: Seq<char>, s: Seq<char>, back: Seq<char>)
    ensures
        has(front + s + back, s),
{
    let whole = front + s + back;
    let at = front.len() as int;
    assert(whole.subrange(at, at + s.len()) =~= s);
    assert(occurs_at(whole, s, at));
}

/// What a text is split into gives the text back when it is joined, and no part holds the
/// separator.
pub proof fn split_texts_are_joined_again(s: Seq<char>, sep: char)
    ensures
        split(s, sep).len() >= 1,
        joined(split(s, sep), seq![sep]) == s,
        forall|i: int| 0 <= i < split(s, sep).len() ==> !(#[trigger] split(s, sep)[i]).contains(sep),
    decreases s.len(),
{
    let parts = split(s, sep);
    if s.len() > 0 {
        let front = s.drop_last();
        let rest = split(front, sep);
        split_texts_are_joined_again(front, sep);
        if s.last() == sep {
            assert(parts.drop_last() =~= rest);
            assert(joined(parts, seq![sep]) =~= front + seq![sep]);
        } else {
            let grown = rest.last().push(s.last());
            assert(parts.drop_last() =~= rest.drop_last());
            if rest.len() == 1 {
                assert(joined(parts, seq![sep]) =~= rest[0].push(s.last()));
                assert(joined(rest, seq![sep]) =~= rest[0]);
            } else {
                assert(joined(parts, seq![sep]) =~= joined(rest, seq![sep]).push(s.last()));
            }
            assert forall|i: int| 0 <= i < parts.len() implies !(#[trigger] parts[i]).contains(
                sep,
            ) by {
                if i < rest.len() - 1 {
                    assert(parts[i] == rest[i]);
                } else if parts[i].contains(sep) {
                    let k = choose|k: int| 0 <= k < grown.len() && grown[k] == sep;
                    assert(rest[rest.len() - 1][k] == sep);
                    assert(rest[rest.len() - 1].contains(sep));
                }
            }
        }
        assert(joined(parts, seq![sep]) =~= s);
    } else {
        assert(parts =~= seq![Seq::<char>::empty()]);
        assert(joined(parts, seq![sep]) =~= s);
    }
}

/// Trimming takes blanks away from both ends and nothing else: what is left begins and ends
/// with no blank.
pub proof fn only_blanks_are_trimmed(s: Seq<char>) -> (ends: (Seq<char>, Seq<char>))
    ensures
        s == ends.0 + trimmed(s) + ends.1,
        forall|i: int| 0 <= i < ends.0.len() ==> whitespace(#[trigger] ends.0[i]),
        forall|i: int| 0 <= i < ends.1.len() ==> whitespace(#[trigger] ends.1[i]),
        trimmed(s).len() > 0 ==> !whitespace(trimmed(s)[0]) && !whitespace(trimmed(s).last()),
{
    let front = trimmed_at_start(s);
    let middle = trimmed_start(s);
    let back = trimmed_at_end(middle);
    let kept = trimmed_end(middle);
    assert(s =~= front + kept + back);
    if kept.len() > 0 {
        assert(middle[0] == kept[0]);
    }
    (front, back)
}

proof fn trimmed_at_start(s: Seq<char>) -> (front: Seq<char>)
    ensures
        s == front + trimmed_start(s),
        forall|i: int| 0 <= i < front.len() ==> whitespace(#[trigger] front[i]),
        trimmed_start(s).len() > 0 ==> !whitespace(trimmed_start(s)[0]),
    decreases s.len(),
{
    if s.len() > 0 && whitespace(s[0]) {
        let rest = trimmed_at_start(s.drop_first());
        let front = seq![s[0]] + rest;
        assert(s =~= seq![s[0]] + s.drop_first());
        assert(front + trimmed_start(s) =~= seq![s[0]] + (rest + trimmed_start(s.drop_first())));
        front
    } else {
        assert(s =~= Seq::<char>::empty() + s);
        Seq::empty()
    }
}

proof fn trimmed_at_end(s: Seq<char>) -> (back: Seq<char>)
    ensures
        s == trimmed_end(s) + back,
        forall|i: int| 0 <= i < back.len() ==> whitespace(#[trigger] back[i]),
        trimmed_end(s).len() > 0 ==> !whitespace(trimmed_end(s).last()),
    decreases s.len(),
{
    if s.len() > 0 && whitespace(s.last()) {
        let rest = trimmed_at_end(s.drop_last());
        let back = rest.push(s.last());
        assert(s =~= s.drop_last().push(s.last()));
        assert(trimmed_end(s) + back =~= (trimmed_end(s.drop_last()) + rest).push(s.last()));
        back
    } else {
        assert(s =~= s + Seq::<char>::empty());
        Seq::empty()
    }
}

/// A number is written in digits alone.
pub proof fn decimals_are_digits(n: nat, i: int)
    requires
        0 <= i < decimal(n).len(),
    ensures
        '0' <= decimal(n)[i] <= '9',
    decreases n,
{
    if n >= 10 && i < decimal(n).len() - 1 {
        decimals_are_digits(n / 10, i);
        assert(decimal(n)[i] == decimal(n / 10)[i]);
    }
}

/// A word holds no blank and is not empty, and every part between blanks that is not empty
/// is a word.
pub proof fn words_stand_between_blanks(s: Seq<char>)
    ensures
        forall|i: int|
            0 <= i < words(s).len() ==> (#[trigger] words(s)[i]).len() > 0 && forall|j: int|
                0 <= j < words(s)[i].len() ==> !whitespace(#[trigger] words(s)[i][j]),
{
    let blank = |c: char| whitespace(c);
    let parts = parts_between(s, blank);
    assert(words(s) == nonempty(parts));
    parts_hold_no_mark(s, blank);
    nonempty_parts_are_parts(parts);
    assert forall|i: int| 0 <= i < words(s).len() implies (#[trigger] words(s)[i]).len() > 0
        && forall|j: int|
        0 <= j < words(s)[i].len() ==> !whitespace(#[trigger] words(s)[i][j]) by {
        let word = words(s)[i];
        let k = choose|k: int| 0 <= k < parts.len() && parts[k] == word;
        assert forall|j: int| 0 <= j < word.len() implies !whitespace(#[trigger] word[j]) by {
            assert(!blank(parts[k][j]));
        }
    }
}

proof fn parts_hold_no_mark(s: Seq<char>, marked: spec_fn(char) -> bool)
    ensures
        parts_between(s, marked).len() >= 1,
        forall|i: int, j: int|
            0 <= i < parts_between(s, marked).len() && 0 <= j < parts_between(s, marked)[i].len()
                ==> !marked(#[trigger] parts_between(s, marked)[i][j]),
    decreases s.len(),
{
    if s.len() > 0 {
        let front = s.drop_last();
        parts_hold_no_mark(front, marked);
        let (before, after) = (parts_between(front, marked), parts_between(s, marked));
        assert forall|i: int, j: int| 0 <= i < after.len() && 0 <= j < after[i].len() implies !marked(
            #[trigger] after[i][j],
        ) by {
            if i < before.len() - 1 || marked(s.last()) {
                if i < before.len() {
                    assert(after[i] == before[i]);
                    assert(!marked(before[i][j]));
                }
            } else {
                assert(after[i] == before.last().push(s.last()));
                if j < before.last().len() {
                    assert(!marked(before[before.len() - 1][j]));
                }
            }
        }
    }
}

proof fn nonempty_parts_are_parts(parts: Seq<Seq<char>>)
    ensures
        forall|i: int|
            0 <= i < nonempty(parts).len() ==> (#[trigger] nonempty(parts)[i]).len() > 0
                && parts.contains(nonempty(parts)[i]),
    decreases parts.len(),
{
    if parts.len() > 0 {
        let front = parts.drop_last();
        nonempty_parts_are_parts(front);
        let (before, after) = (nonempty(front), nonempty(parts));
        assert forall|i: int| 0 <= i < after.len() implies (#[trigger] after[i]).len() > 0
            && parts.contains(after[i]) by {
            if i < before.len() {
                assert(after[i] == before[i]);
                let k = choose|k: int| 0 <= k < front.len() && front[k] == before[i];
                assert(parts[k] == after[i]);
            } else {
                assert(parts[parts.len() - 1] == after[i]);
            }
        }
    }
}

/// Lowering a text changes its capital letters, each to its small one, and nothing else.
pub proof fn only_capitals_are_lowered(text: Seq<char>, i: int)
    requires
        0 <= i < text.len(),
    ensures
        ascii_lowered(text).len() == text.len(),
        'A' <= text[i] <= 'Z' ==> ascii_lowered(text)[i] as int == text[i] as int + 32,
        !('A' <= text[i] <= 'Z') ==> ascii_lowered(text)[i] == text[i],
        ascii_lowered(ascii_lowered(text)) == ascii_lowered(text),
{
    assert(ascii_lowered(ascii_lowered(text)) =~= ascii_lowered(text));
}

/// A number is read in digits, with or without a sign before it, up to the greatest that is
/// allowed; a text with anything else in it is none.
pub proof fn numbers_are_read_in_digits(n: nat, max: nat, s: Seq<char>, i: int)
    ensures
        n <= max ==> number_value(decimal(n), max) == Some(n) && number_value(
            seq!['+'] + decimal(n),
            max,
        ) == Some(n),
        n > max ==> number_value(decimal(n), max) is None,
        number_value(s, max) matches Some(value) ==> value <= max,
        0 <= i < s.len() && !('0' <= s[i] <= '9') && !(i == 0 && s[0] == '+') ==> number_value(
            s,
            max,
        ) is None,
        number_value(Seq::<char>::empty(), max) is None,
{
    decimal_reads_back(n);
    decimals_are_digits(n, 0);
    assert((seq!['+'] + decimal(n)).drop_first() =~= decimal(n));
    if 0 <= i < s.len() && !('0' <= s[i] <= '9') && !(i == 0 && s[0] == '+') {
        if s[0] == '+' {
            assert(s.drop_first()[i - 1] == s[i]);
            only_digits_have_a_value(s.drop_first(), i - 1);
        } else {
            only_digits_have_a_value(s, i);
        }
    }
}

proof fn only_digits_have_a_value(s: Seq<char>, i: int)
    requires
        0 <= i < s.len(),
        !('0' <= s[i] <= '9'),
    ensures
        digits_value(s) is None,
    decreases s.len(),
{
    if i < s.len() - 1 {
        assert(s.drop_last()[i] == s[i]);
        only_digits_have_a_value(s.drop_last(), i);
    }
}

/// Texts are ordered by the first character in which they differ, and the front of a text
/// comes before the whole of it.
pub proof fn texts_are_ordered_by_their_first_difference(
    front: Seq<char>,
    a: char,
    b: char,
    after_a: Seq<char>,
    after_b: Seq<char>,
)
    ensures
        (a as int) < (b as int) ==> lex_less(
            front + seq![a] + after_a,
            front + seq![b] + after_b,
        ),
        lex_less(front, front + seq![a] + after_a),
    decreases front.len(),
{
    let (x, y) = (front + seq![a] + after_a, front + seq![b] + after_b);
    if front.len() > 0 {
        let rest = front.drop_first();
        texts_are_ordered_by_their_first_difference(rest, a, b, after_a, after_b);
        assert(x.drop_first() =~= rest + seq![a] + after_a);
        assert(y.drop_first() =~= rest + seq![b] + after_b);
        assert(x[0] == front[0] && y[0] == front[0]);
    } else {
        assert(x[0] == a && y[0] == b);
    }
}

} // verus!
