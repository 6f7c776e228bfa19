//! Positions in source text.
use crate::names::{declared_from, find_declared_name, first_at, first_at_is_least};
use crate::text::{chars_of, find_from, matches_at, occurs_at, same, text_between};
use crate::utf8::{boundary_in_range, byte_at, byte_slice, encode_concat, slice_text, sliceable};
use vstd::prelude::*;
use vstd::string::*;
use vstd::utf8::*;

verus! {

/// How many bytes a character takes.
pub open spec fn byte_width(c: char) -> nat {
    if c as int <= 0x7f {
        1
    } else if c as int <= 0x7ff {
        2
    } else if c as int <= 0xffff {
        3
    } else {
        4
    }
}

fn byte_width_of(c: char) -> (r: usize)
    ensures
        r == byte_width(c),
{
    let n: u32 = c as u32;
    if n <= 0x7f {
        1
    } else if n <= 0x7ff {
        2
    } else if n <= 0xffff {
        3
    } else {
        4
    }
}

proof fn encoded_width(c: char)
    ensures
        encode_scalar(c as u32).len() == byte_width(c),
{
    char_is_scalar(c);
}

proof fn next_byte(s: Seq<char>, i: int)
    requires
        0 <= i < s.len(),
    ensures
        byte_at(s, i + 1) == byte_at(s, i) + byte_width(s[i]),
{
    let c = s[i];
    let one = seq![c];
    assert(s.take(i + 1) =~= s.take(i) + one);
    encode_concat(s.take(i), one);
    assert(one.drop_first() =~= Seq::<char>::empty());
    reveal_with_fuel(encode_utf8, 2);
    assert(encode_utf8(one) =~= encode_scalar(one[0] as u32));
    encoded_width(one[0]);
}

/// How many UTF-16 units a character takes.
pub open spec fn unit_width(c: char) -> nat {
    if c as int <= 0xffff {
        1
    } else {
        2
    }
}

fn unit_width_of(c: char) -> (r: u32)
    ensures
        r == unit_width(c),
{
    if c as u32 <= 0xffff {
        1
    } else {
        2
    }
}

/// How many UTF-16 units a text takes.
pub open spec fn utf16_len(s: Seq<char>) -> nat
    decreases s.len(),
{
    if s.len() == 0 {
        0
    } else {
        utf16_len(s.drop_last()) + unit_width(s.last())
    }
}

/// How many characters start before the byte.
pub open spec fn chars_before(s: Seq<char>, byte: int) -> nat
    decreases s.len(),
{
    if s.len() == 0 {
        0
    } else if byte_at(s, s.len() - 1) < byte {
        s.len()
    } else {
        chars_before(s.drop_last(), byte)
    }
}

/// Where a text ends: the number of lines before its last, and the UTF-16 length of
/// its last line.
pub open spec fn end_position(s: Seq<char>) -> (nat, nat)
    decreases s.len(),
{
    if s.len() == 0 {
        (0, 0)
    } else {
        let (line, column) = end_position(s.drop_last());
        if s.last() == '\n' {
            (line + 1, 0)
        } else {
            (line, column + unit_width(s.last()))
        }
    }
}

proof fn end_position_bounded(s: Seq<char>)
    ensures
        end_position(s).0 + end_position(s).1 <= encode_utf8(s).len(),
    decreases s.len(),
{
    if s.len() > 0 {
        let front = s.drop_last();
        end_position_bounded(front);
        next_byte(s, s.len() - 1);
        assert(s.take(s.len() - 1) =~= front);
        assert(s.take(s.len() as int) =~= s);
    }
}

proof fn bytes_grow(s: Seq<char>, i: int, j: int)
    requires
        0 <= i <= j <= s.len(),
    ensures
        byte_at(s, i) <= byte_at(s, j),
    decreases j - i,
{
    if i < j {
        bytes_grow(s, i, j - 1);
        next_byte(s, j - 1);
    }
}

proof fn chars_before_is(s: Seq<char>, byte: int, k: int)
    requires
        0 <= k <= s.len(),
        k > 0 ==> byte_at(s, k - 1) < byte,
        k < s.len() ==> byte_at(s, k) >= byte,
    ensures
        chars_before(s, byte) == k,
    decreases s.len(),
{
    if s.len() > k {
        bytes_grow(s, k, s.len() - 1);
        let front = s.drop_last();
        assert(forall|j: int| 0 <= j < s.len() ==> #[trigger] front.take(j) =~= s.take(j));
        chars_before_is(front, byte, k);
    }
}

/// The position of a byte: the line, counted from zero, and the UTF-16 column of
/// the characters that start before the byte.
pub open spec fn byte_position(s: Seq<char>, byte: int) -> (nat, nat) {
    end_position(s.take(chars_before(s, byte) as int))
}

/// The position of a byte, as language servers count: the line from zero and the
/// column in UTF-16 units.
pub fn position_of_byte(source: &str, byte: usize) -> (r: (u32, u32))
    requires
        encode_utf8(source@).len() <= u32::MAX,
    ensures
        (r.0 as nat, r.1 as nat) == byte_position(source@, byte as int),
{
    let all = chars_of(source);
    let mut line: u32 = 0;
    let mut column: u32 = 0;
    let mut offset: usize = 0;
    let mut i: usize = 0;
    proof {
        assert(source@.take(0) =~= Seq::<char>::empty());
        assert(encode_utf8(Seq::<char>::empty()) =~= Seq::<u8>::empty());
    }
    while i < all.len() && offset < byte
        invariant
            i <= all@.len(),
            all@ == source@,
            encode_utf8(source@).len() <= u32::MAX,
            offset == byte_at(source@, i as int),
            (line as nat, column as nat) == end_position(source@.take(i as int)),
            i > 0 ==> byte_at(source@, i - 1) < byte,
        decreases all@.len() - i,
    {
        let c = all[i];
        proof {
            next_byte(source@, i as int);
            bytes_grow(source@, i + 1, source@.len() as int);
            assert(source@.take(source@.len() as int) =~= source@);
            end_position_bounded(source@.take(i + 1));
            assert(source@.take(i + 1).drop_last() =~= source@.take(i as int));
        }
        if c == '\n' {
            line += 1;
            column = 0;
        } else {
            column += unit_width_of(c);
        }
        offset += byte_width_of(c);
        i += 1;
    }
    proof {
        chars_before_is(source@, byte as int, i as int);
    }
    (line, column)
}

/// Where a unit's name is declared: the byte offset of its first occurrence in the
/// unit's span that stands alone.
pub open spec fn name_byte(
    source: Seq<char>,
    start: int,
    end: int,
    name: Seq<char>,
) -> Option<int> {
    if name.len() == 0 || name == "<anonymous>"@ || !sliceable(source, start, end) {
        None
    } else {
        let span = byte_slice(source, start, end);
        match declared_from(span, name, 0) {
            Some(i) => Some(start + byte_at(span, i)),
            None => None,
        }
    }
}

/// Byte offset of the declared name inside a unit's span, bounded by characters
/// that stand in no identifier.
pub fn declared_name_byte(source: &str, start: usize, end: usize, name: &str) -> (r: Option<usize>)
    ensures
        match r {
            Some(at) => name_byte(source@, start as int, end as int, name@) == Some(at as int),
            None => name_byte(source@, start as int, end as int, name@) is None,
        },
{
    if name.is_empty() || same(name, "<anonymous>") {
        return None;
    }
    if start > end || !source.is_char_boundary(start) || !source.is_char_boundary(end) {
        return None;
    }
    let span = slice_text(source, start, end);
    match find_declared_name(span.as_str(), name) {
        None => None,
        Some(offset) => {
            proof {
                let bytes = encode_utf8(source@);
                encode_utf8_valid_utf8(source@);
                boundary_in_range(bytes, start as int);
                boundary_in_range(bytes, end as int);
                name_fits(source@, start as int, end as int, name@);
            }
            let length: usize = source.as_bytes().len();
            assert(start + offset <= length);
            Some(start + offset)
        },
    }
}

proof fn name_fits(source: Seq<char>, start: int, end: int, name: Seq<char>)
    requires
        sliceable(source, start, end),
        0 <= start <= end <= encode_utf8(source).len(),
        declared_from(byte_slice(source, start, end), name, 0) is Some,
    ensures
        ({
            let span = byte_slice(source, start, end);
            let i = declared_from(span, name, 0)->0;
            0 <= byte_at(span, i) <= end - start
        }),
{
    let bytes = encode_utf8(source);
    let span = byte_slice(source, start, end);
    crate::names::a_declared_name_is_the_first(span, name, 0);
    let i = declared_from(span, name, 0)->0;
    bytes_grow(span, i, span.len() as int);
    assert(span.take(span.len() as int) =~= span);
    encode_utf8_valid_utf8(source);
    valid_utf8_split(bytes, end);
    let front = bytes.subrange(0, end);
    assert(is_char_boundary(front, start)) by {
        if start == end || start == 0 {
            is_char_boundary_start_end_of_seq(front);
        } else {
            is_char_boundary_iff_not_is_continuation_byte(bytes, start);
            is_char_boundary_iff_not_is_continuation_byte(front, start);
            assert(front[start] == bytes[start]);
        }
    }
    valid_utf8_split(front, start);
    assert(front.subrange(start, end) =~= bytes.subrange(start, end));
    decode_utf8_encode_utf8(bytes.subrange(start, end));
}

/// The last position up to `i` at which `p` occurs, or -1.
pub open spec fn last_at(s: Seq<char>, p: Seq<char>, i: int) -> int
    decreases i + 1,
{
    if i < 0 {
        -1
    } else if occurs_at(s, p, i) {
        i
    } else {
        last_at(s, p, i - 1)
    }
}

/// What follows the last double colon of a symbol.
pub open spec fn last_segment(symbol: Seq<char>) -> Seq<char> {
    let at = last_at(symbol, "::"@, symbol.len() - 2);
    if at < 0 {
        symbol
    } else {
        symbol.skip(at + 2)
    }
}

/// What follows the last double colon of a symbol.
pub fn last_segment_of(symbol: &str) -> (r: String)
    ensures
        r@ == last_segment(symbol@),
{
    let all = chars_of(symbol);
    let mark = chars_of("::");
    proof {
        reveal_strlit("::");
    }
    if all.len() < 2 {
        return symbol.to_owned();
    }
    let mut left: usize = all.len() - 1;
    while left > 0
        invariant
            left <= all@.len() - 1,
            all@ == symbol@,
            mark@ == "::"@,
            mark@.len() == 2,
            last_at(all@, mark@, all@.len() - 2) == last_at(all@, mark@, left - 1),
        decreases left,
    {
        let at: usize = left - 1;
        if matches_at(&all, &mark, at) {
            assert(at + 2 <= all.len());
            assert(all@.skip(at + 2) =~= all@.subrange(at + 2, all@.len() as int));
            return text_between(&all, at + 2, all.len());
        }
        left -= 1;
    }
    symbol.to_owned()
}

/// Where a text first stands in a line, as a UTF-16 column.
pub open spec fn column_of(line: Seq<char>, text: Seq<char>) -> Option<nat> {
    let i = first_at(line, text, 0);
    if i < 0 {
        None
    } else {
        Some(utf16_len(line.take(i)))
    }
}

proof fn utf16_len_bounded(s: Seq<char>)
    ensures
        utf16_len(s) <= encode_utf8(s).len(),
    decreases s.len(),
{
    if s.len() > 0 {
        let front = s.drop_last();
        utf16_len_bounded(front);
        next_byte(s, s.len() - 1);
        assert(s.take(s.len() - 1) =~= front);
        assert(s.take(s.len() as int) =~= s);
    }
}

/// Where a text first stands in a line, as a UTF-16 column.
pub fn find_column(line: &str, text: &str) -> (r: Option<usize>)
    ensures
        match r {
            Some(column) => column_of(line@, text@) == Some(column as nat),
            None => column_of(line@, text@) is None,
        },
{
    let all = chars_of(line);
    let needle = chars_of(text);
    let bytes: usize = line.as_bytes().len();
    match find_from(&all, &needle, 0) {
        None => {
            proof {
                first_at_is_least(line@, text@, 0, line@.len() as int + 1);
            }
            None
        },
        Some(at) => {
            proof {
                first_at_is_least(line@, text@, 0, at as int);
            }
            let mut column: usize = 0;
            let mut i: usize = 0;
            assert(line@.take(0) =~= Seq::<char>::empty());
            while i < at
                invariant
                    i <= at <= all@.len(),
                    all@ == line@,
                    bytes == encode_utf8(line@).len(),
                    column == utf16_len(line@.take(i as int)),
                decreases at - i,
            {
                proof {
                    assert(line@.take(i + 1).drop_last() =~= line@.take(i as int));
                    utf16_len_bounded(line@.take(i + 1));
                    bytes_grow(line@, i + 1, line@.len() as int);
                    assert(line@.take(line@.len() as int) =~= line@);
                }
                column += unit_width_of(all[i]) as usize;
                i += 1;
            }
            Some(column)
        },
    }
}

/// Lines are counted by their ends, and columns from the last of them in units of sixteen
/// bits.
pub proof fn positions_count_lines_and_columns(s: Seq<char>, t: Seq<char>)
    requires
        !t.contains('\n'),
    ensures
        end_position(s + t) == (end_position(s).0, end_position(s).1 + utf16_len(t)),
        end_position(s.push('\n')) == (end_position(s).0 + 1, 0nat),
        end_position(Seq::<char>::empty()) == (0nat, 0nat),
    decreases t.len(),
{
    if t.len() > 0 {
        let front = t.drop_last();
        assert(!front.contains('\n')) by {
            if front.contains('\n') {
                let i = choose|i: int| 0 <= i < front.len() && front[i] == '\n';
                assert(t[i] == '\n');
            }
        }
        positions_count_lines_and_columns(s, front);
        assert((s + t).drop_last() =~= s + front);
        assert((s + t).last() == t.last());
        assert(t[t.len() - 1] == t.last());
    } else {
        assert(s + t =~= s);
    }
    assert(s.push('\n').drop_last() =~= s);
}

/// A character counts once, and twice where it does not fit in sixteen bits.
pub proof fn columns_are_summed_up(left: Seq<char>, right: Seq<char>, c: char)
    ensures
        utf16_len(left + right) == utf16_len(left) + utf16_len(right),
        utf16_len(seq![c]) == if c as int <= 0xffff {
            1nat
        } else {
            2
        },
    decreases right.len(),
{
    if right.len() > 0 {
        columns_are_summed_up(left, right.drop_last(), c);
        assert((left + right).drop_last() =~= left + right.drop_last());
    } else {
        assert(left + right =~= left);
    }
    assert(seq![c].drop_last() =~= Seq::<char>::empty());
    assert(utf16_len(Seq::<char>::empty()) == 0);
}

/// The position of a character's first byte is where the text before it ends.
pub proof fn a_byte_is_placed_behind_what_precedes_it(s: Seq<char>, i: int)
    requires
        0 <= i <= s.len(),
    ensures
        byte_position(s, byte_at(s, i)) == end_position(s.take(i)),
{
    if i > 0 {
        next_byte(s, i - 1);
    }
    chars_before_is(s, byte_at(s, i), i);
}

/// The name of a unit is looked for in the unit itself, and none is where the unit has no
/// name of its own.
pub proof fn a_name_lies_in_its_unit(source: Seq<char>, start: int, end: int, name: Seq<char>)
    ensures
        name.len() == 0 || name == "<anonymous>"@ ==> name_byte(source, start, end, name) is None,
        name_byte(source, start, end, name) matches Some(byte) ==> {
            let span = byte_slice(source, start, end);
            exists|i: int|
                #[trigger] crate::names::declared_at(span, name, i) && i >= 0 && byte == start
                    + byte_at(span, i) && forall|j: int|
                    0 <= j < i ==> !crate::names::declared_at(span, name, j)
        },
{
    if name_byte(source, start, end, name) is Some {
        let span = byte_slice(source, start, end);
        crate::names::a_declared_name_is_the_first(span, name, 0);
        let i = declared_from(span, name, 0)->0;
        assert(declared_from(span, name, 0) == Some(i));
        assert(crate::names::declared_at(span, name, i));
    }
}

/// The last segment of a symbol is what follows its last pair of colons, and all of it where
/// it has none.
pub proof fn a_segment_follows_the_last_colons(front: Seq<char>, back: Seq<char>)
    requires
        !back.contains(':'),
    ensures
        last_segment(front + "::"@ + back) == back,
        last_segment(back) == back,
{
    reveal_strlit("::");
    let symbol = front + "::"@ + back;
    let colons = "::"@;
    assert(colons.len() == 2 && colons[0] == ':' && colons[1] == ':');
    let at = front.len() as int;
    assert(symbol.subrange(at, at + 2) =~= colons);
    assert(occurs_at(symbol, colons, at));
    assert forall|j: int| at < j <= symbol.len() - 2 implies !occurs_at(symbol, colons, j) by {
        if occurs_at(symbol, colons, j) {
            assert(symbol.subrange(j, j + 2)[1] == symbol[j + 1]);
            assert(symbol[j + 1] == back[j + 1 - at - 2]);
        }
    }
    last_at_is(symbol, colons, symbol.len() - 2, at);
    assert(symbol.skip(at + 2) =~= back);
    assert forall|j: int| 0 <= j <= back.len() - 2 implies !occurs_at(back, colons, j) by {
        if occurs_at(back, colons, j) {
            assert(back.subrange(j, j + 2)[0] == back[j]);
        }
    }
    last_at_is(back, colons, back.len() - 2, -1);
}

proof fn last_at_is(s: Seq<char>, p: Seq<char>, i: int, at: int)
    requires
        -1 <= at,
        at <= i || (at == -1 && i < 0),
        at >= 0 ==> occurs_at(s, p, at),
        forall|j: int| at < j <= i ==> !occurs_at(s, p, j),
    ensures
        last_at(s, p, i) == at,
    decreases i + 1,
{
    if i > at && i >= 0 {
        last_at_is(s, p, i - 1, at);
    }
}

/// A column is where the text first stands in its line.
pub proof fn a_column_is_the_first_place(line: Seq<char>, text: Seq<char>, i: int)
    requires
        occurs_at(line, text, i),
        0 <= i,
        forall|j: int| 0 <= j < i ==> !occurs_at(line, text, j),
    ensures
        column_of(line, text) == Some(utf16_len(line.take(i))),
{
    crate::names::first_at_is_least(line, text, 0, i);
}

} // verus!
