//! JSON documents: reading them into plain values and writing compact text.

use crate::text::{chars_of, join, joined, same, views};
use serde_json::Value;
use vstd::prelude::*;
use vstd::string::*;

verus! {

/// A JSON value as plain data.
#[derive(Debug)]
pub enum Json {
    Null,
    Bool(bool),
    /// A whole number between zero and `u64::MAX`.
    Whole(u64),
    /// Any other number: the whole numbers just below and above it, both kept
    /// within the range of `u64`.
    Real { floor: u64, ceil: u64 },
    Text(String),
    List(Vec<Json>),
    /// The members, in the order of their names.
    Object(Vec<(String, Json)>),
}

/// What a JSON document holds, or nothing where the bytes are no document.
pub uninterp spec fn json_document(bytes: Seq<u8>) -> Option<Json>;

/// A digit in hexadecimal.
pub open spec fn hex_digit(n: int) -> char {
    if n < 10 {
        (48 + n) as char
    } else {
        (87 + n) as char
    }
}

/// A character in a JSON string literal: quotes, backslashes and control characters are
/// escaped, by the short form where there is one.
pub open spec fn escaped(c: char) -> Seq<char> {
    if c == '"' {
        "\\\""@
    } else if c == '\\' {
        "\\\\"@
    } else if c == '\u{8}' {
        "\\b"@
    } else if c == '\u{c}' {
        "\\f"@
    } else if c == '\n' {
        "\\n"@
    } else if c == '\r' {
        "\\r"@
    } else if c == '\t' {
        "\\t"@
    } else if (c as int) < 32 {
        "\\u00"@.push(hex_digit(c as int / 16)).push(hex_digit(c as int % 16))
    } else {
        seq![c]
    }
}

/// The characters of a text as a JSON string literal has them.
pub open spec fn escaped_text(text: Seq<char>) -> Seq<char>
    decreases text.len(),
{
    if text.len() == 0 {
        Seq::empty()
    } else {
        escaped_text(text.drop_last()) + escaped(text.last())
    }
}

/// The JSON string literal for a text.
pub open spec fn json_literal(text: Seq<char>) -> Seq<char> {
    "\""@ + escaped_text(text) + "\""@
}

#[verifier::external_type_specification]
#[verifier::external_body]
pub struct ExValue(Value);

/// Moves a `serde_json::Value` into the library's own data, variant by variant.
#[verifier::external_body]
pub(crate) fn plain(value: Value) -> Json {
    match value {
        Value::Null => Json::Null,
        Value::Bool(b) => Json::Bool(b),
        Value::Number(n) => match (n.as_u64(), n.as_f64()) {
            (Some(whole), _) => Json::Whole(whole),
            (None, Some(x)) => Json::Real { floor: x.floor() as u64, ceil: x.ceil() as u64 },
            (None, None) => Json::Null,
        },
        Value::String(s) => Json::Text(s),
        Value::Array(a) => Json::List(a.into_iter().map(plain).collect()),
        Value::Object(m) => Json::Object(
            m.into_iter().map(|(k, v)| (k, plain(v))).collect(),
        ),
    }
}

/// `serde_json::from_slice`: what the document holds, as plain data; nothing
/// where the bytes are not one JSON document.
#[verifier::external_body]
pub(crate) fn parse_json(bytes: &[u8]) -> (r: Option<Json>)
    ensures
        r == json_document(bytes@),
{
    serde_json::from_slice::<Value>(bytes).ok().map(plain)
}

/// A digit in hexadecimal.
fn hex_char(n: u8) -> (r: char)
    requires
        n < 16,
    ensures
        r == hex_digit(n as int),
{
    if n < 10 {
        (48u8 + n) as char
    } else {
        (87u8 + n) as char
    }
}

/// Adds a character as a JSON string literal has it.
fn push_escaped(out: &mut String, c: char)
    ensures
        final(out)@ == old(out)@ + escaped(c),
{
    if c == '"' {
        out.append("\\\"");
    } else if c == '\\' {
        out.append("\\\\");
    } else if c == '\u{8}' {
        out.append("\\b");
    } else if c == '\u{c}' {
        out.append("\\f");
    } else if c == '\n' {
        out.append("\\n");
    } else if c == '\r' {
        out.append("\\r");
    } else if c == '\t' {
        out.append("\\t");
    } else if (c as u32) < 32 {
        let code: u8 = c as u8;
        let ghost before = out@;
        out.append("\\u00");
        out.push(hex_char(code / 16));
        out.push(hex_char(code % 16));
        assert(out@ =~= before + escaped(c));
    } else {
        let ghost before = out@;
        out.push(c);
        assert(out@ =~= before + escaped(c));
    }
}

/// The JSON string literal for a text.
pub fn quote(text: &str) -> (r: String)
    ensures
        r@ == json_literal(text@),
{
    let chars = chars_of(text);
    let mut out = "\"".to_owned();
    let mut i: usize = 0;
    assert(out@ =~= "\""@ + escaped_text(chars@.take(0)));
    while i < chars.len()
        invariant
            i <= chars@.len(),
            out@ == "\""@ + escaped_text(chars@.take(i as int)),
        decreases chars@.len() - i,
    {
        assert(chars@.take(i + 1).drop_last() =~= chars@.take(i as int));
        push_escaped(&mut out, chars[i]);
        i += 1;
        assert(out@ =~= "\""@ + escaped_text(chars@.take(i as int)));
    }
    assert(chars@.take(i as int) =~= text@);
    out.append("\"");
    out
}

/// One member of an object: its quoted name, a colon and the text of its value.
pub open spec fn member_text(member: (Seq<char>, Seq<char>)) -> Seq<char> {
    json_literal(member.0) + ":"@ + member.1
}

/// The compact text of an object whose members are given by name and text.
pub open spec fn object_text(members: Seq<(Seq<char>, Seq<char>)>) -> Seq<char> {
    "{"@ + joined(members.map_values(|m: (Seq<char>, Seq<char>)| member_text(m)), ","@) + "}"@
}

/// The names and texts of a list of members.
pub open spec fn member_views(members: Seq<(&str, String)>) -> Seq<(Seq<char>, Seq<char>)> {
    Seq::new(members.len(), |i: int| (members[i].0@, members[i].1@))
}

/// Writes an object, its members in the given order.
pub fn write_object(members: &Vec<(&str, String)>) -> (r: String)
    ensures
        r@ == object_text(member_views(members@)),
{
    let mut parts: Vec<String> = Vec::new();
    let mut i: usize = 0;
    while i < members.len()
        invariant
            i <= members@.len(),
            parts@.len() == i,
            forall|j: int|
                0 <= j < i ==> (#[trigger] parts@[j])@ == member_text(member_views(members@)[j]),
        decreases members@.len() - i,
    {
        let mut part = quote(members[i].0);
        part.append(":");
        part.append(members[i].1.as_str());
        parts.push(part);
        i += 1;
    }
    let mut out = "{".to_owned();
    out.append(join(&parts, ",").as_str());
    out.append("}");
    assert(views(parts@) =~= member_views(members@).map_values(
        |m: (Seq<char>, Seq<char>)| member_text(m),
    ));
    out
}

/// The value of the first member called `name`.
pub open spec fn member(members: Seq<(String, Json)>, name: Seq<char>) -> Option<Json>
    decreases members.len(),
{
    if members.len() == 0 {
        None
    } else if members[0].0@ == name {
        Some(members[0].1)
    } else {
        member(members.drop_first(), name)
    }
}

impl Json {
    /// The member called `name`, where the value is an object that has one.
    pub open spec fn field(&self, name: Seq<char>) -> Option<Json> {
        match self {
            Json::Object(members) => member(members@, name),
            _ => None,
        }
    }

    /// The member called `name`.
    pub fn get(&self, name: &str) -> (r: Option<&Json>)
        ensures
            match r {
                Some(value) => self.field(name@) == Some(*value),
                None => self.field(name@) is None,
            },
    {
        match self {
            Json::Object(members) => {
                let mut i: usize = 0;
                assert(members@.skip(0) =~= members@);
                while i < members.len()
                    invariant
                        i <= members@.len(),
                        self.field(name@) == member(members@, name@),
                        member(members@, name@) == member(members@.skip(i as int), name@),
                    decreases members@.len() - i,
                {
                    if same(members[i].0.as_str(), name) {
                        return Some(&members[i].1);
                    }
                    assert(members@.skip(i as int).drop_first() =~= members@.skip(i + 1));
                    i += 1;
                }
                None
            },
            _ => None,
        }
    }

    /// The text, where the value is one.
    pub fn as_str(&self) -> (r: Option<&str>)
        ensures
            match r {
                Some(text) => self is Text && text@ == self->Text_0@,
                None => !(self is Text),
            },
    {
        match self {
            Json::Text(text) => Some(text.as_str()),
            _ => None,
        }
    }

    /// The number, where the value is a whole number that fits.
    pub fn as_u64(&self) -> (r: Option<u64>)
        ensures
            r == match *self {
                Json::Whole(n) => Some(n),
                _ => None,
            },
    {
        match self {
            Json::Whole(n) => Some(*n),
            _ => None,
        }
    }
}

/// What is written of a text is what is written of its characters, one after the other.
pub proof fn characters_are_written_one_by_one(left: Seq<char>, right: Seq<char>)
    ensures
        escaped_text(left + right) == escaped_text(left) + escaped_text(right),
    decreases right.len(),
{
    if right.len() > 0 {
        characters_are_written_one_by_one(left, right.drop_last());
        assert((left + right).drop_last() =~= left + right.drop_last());
        assert((left + right).last() == right.last());
        assert(escaped_text(left + right) =~= escaped_text(left) + escaped_text(right));
    } else {
        assert(left + right =~= left);
        assert(escaped_text(left + right) =~= escaped_text(left) + escaped_text(right));
    }
}

/// A character stands for itself unless it is a quote, a backslash or a control character;
/// those are written behind a backslash, and each in its own way.
pub proof fn special_characters_are_escaped(a: char, b: char)
    ensures
        a != '"' && a != '\\' && a as int >= 32 ==> escaped(a) == seq![a],
        a == '"' || a == '\\' || (a as int) < 32 ==> escaped(a).len() >= 2 && escaped(a)[0] == '\\',
        forall|i: int| 0 <= i < escaped(a).len() ==> (#[trigger] escaped(a)[i]) as int >= 32,
        escaped(a) == escaped(b) ==> a == b,
{
    reveal_strlit("\\\"");
    reveal_strlit("\\\\");
    reveal_strlit("\\b");
    reveal_strlit("\\f");
    reveal_strlit("\\n");
    reveal_strlit("\\r");
    reveal_strlit("\\t");
    reveal_strlit("\\u00");
    let (x, y) = (escaped(a), escaped(b));
    assert(x.len() == 1 || x.len() == 2 || x.len() == 6);
    assert(y.len() == 1 || y.len() == 2 || y.len() == 6);
    if x == y {
        assert(x[0] == y[0]);
        if x.len() == 2 {
            assert(x[1] == y[1]);
        }
        if x.len() == 6 {
            assert(x[4] == y[4] && x[5] == y[5]);
        }
    }
}

/// Each member of an object is in its text, with its name before its value.
pub proof fn every_member_is_in_an_object(members: Seq<(Seq<char>, Seq<char>)>, i: int)
    requires
        0 <= i < members.len(),
    ensures
        crate::text::has(
            object_text(members),
            json_literal(members[i].0) + ":"@ + members[i].1,
        ),
        crate::text::has(object_text(members), members[i].1),
        "{"@.is_prefix_of(object_text(members)),
{
    let texts = members.map_values(|m: (Seq<char>, Seq<char>)| member_text(m));
    let inner = joined(texts, ","@);
    assert(texts[i] == member_text(members[i]));
    crate::text::every_part_is_in_a_joined_text(texts, ","@, i);
    crate::text::a_text_is_in_what_surrounds_it("{"@, inner, "}"@);
    crate::text::parts_of_parts_are_parts(object_text(members), inner, texts[i]);
    let head = json_literal(members[i].0) + ":"@;
    crate::text::a_text_is_in_what_surrounds_it(head, members[i].1, Seq::empty());
    assert(head + members[i].1 + Seq::<char>::empty() =~= texts[i]);
    crate::text::parts_of_parts_are_parts(object_text(members), texts[i], members[i].1);
    assert(object_text(members).subrange(0, "{"@.len() as int) =~= "{"@);
}

/// A field is the first member of its name.
pub proof fn the_first_member_of_a_name_counts(
    members: Seq<(String, Json)>,
    name: Seq<char>,
    i: int,
)
    requires
        0 <= i < members.len(),
        members[i].0@ == name,
        forall|j: int| 0 <= j < i ==> (#[trigger] members[j]).0@ != name,
    ensures
        member(members, name) == Some(members[i].1),
    decreases i,
{
    if i > 0 {
        let rest = members.drop_first();
        assert(rest[i - 1] == members[i]);
        assert(members[0].0@ != name);
        assert forall|j: int| 0 <= j < i - 1 implies (#[trigger] rest[j]).0@ != name by {
            assert(rest[j] == members[j + 1]);
        }
        the_first_member_of_a_name_counts(rest, name, i - 1);
    }
}

/// A name that no member has leads to nothing.
pub proof fn an_unknown_name_leads_to_nothing(members: Seq<(String, Json)>, name: Seq<char>)
    requires
        forall|j: int| 0 <= j < members.len() ==> (#[trigger] members[j]).0@ != name,
    ensures
        member(members, name) is None,
    decreases members.len(),
{
    if members.len() > 0 {
        let rest = members.drop_first();
        assert forall|j: int| 0 <= j < rest.len() implies (#[trigger] rest[j]).0@ != name by {
            assert(rest[j] == members[j + 1]);
        }
        an_unknown_name_leads_to_nothing(rest, name);
    }
}

/// The digits of an escaped character are small and stand in the order of their values.
pub proof fn escape_digits_stand_in_their_order(a: int, b: int)
    requires
        0 <= a < b < 16,
    ensures
        hex_digit(a) as int <= hex_digit(b) as int - 1,
        '0' <= hex_digit(a) <= '9' || 'a' <= hex_digit(a) <= 'f',
        '0' <= hex_digit(b) <= '9' || 'a' <= hex_digit(b) <= 'f',
{
}

} // verus!
