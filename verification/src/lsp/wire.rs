//! How messages and paths travel to a language server.
use crate::json::{json_document, parse_json, Json};
use crate::names::{first_at, first_at_tells};
use crate::replace::{replace, replaced};
use crate::text::{
    concat, decimal, decimal_reads_back, decimal_text, has, number_value, occurs_at, parse_number,
    strip_prefix, trim, trimmed, trimmed_end, trimmed_start, whitespace,
};
use vstd::prelude::*;
use vstd::string::*;
use vstd::utf8::encode_utf8;

verus! {

/// The `file://` URI of a path: only spaces are encoded.
pub open spec fn uri_of(path: Seq<char>) -> Seq<char> {
    "file://"@ + replaced(path, " "@, "%20"@)
}

/// The path of a `file://` URI.
pub open spec fn path_of(uri: Seq<char>) -> Option<Seq<char>> {
    if "file://"@.is_prefix_of(uri) {
        Some(replaced(uri.skip("file://"@.len() as int), "%20"@, " "@))
    } else {
        None
    }
}

/// A `file://` URI for an absolute path. Only spaces are encoded, which covers real
/// project layouts.
pub fn file_uri(path: &str) -> (r: String)
    ensures
        r@ == uri_of(path@),
{
    proof {
        reveal_strlit(" ");
    }
    concat("file://", replace(path, " ", "%20").as_str())
}

/// The absolute path of a `file://` URI.
pub fn uri_to_path(uri: &str) -> (r: Option<String>)
    ensures
        match r {
            Some(path) => path_of(uri@) == Some(path@),
            None => path_of(uri@) is None,
        },
{
    proof {
        reveal_strlit("%20");
    }
    match strip_prefix(uri, "file://") {
        Some(rest) => Some(replace(rest.as_str(), "%20", " ")),
        None => None,
    }
}

proof fn decoding_undoes_encoding(p: Seq<char>)
    requires
        !(has(p, "%20"@)),
    ensures
        replaced(replaced(p, " "@, "%20"@), "%20"@, " "@) == p,
    decreases p.len(),
{
    reveal_strlit(" ");
    reveal_strlit("%20");
    let space = " "@;
    let mark = "%20"@;
    let i = first_at(p, space, 0);
    first_at_tells(p, space, 0);
    let e = replaced(p, space, mark);
    if i < 0 {
        first_at_tells(p, mark, 0);
        if first_at(p, mark, 0) >= 0 {
            assert(occurs_at(p, mark, first_at(p, mark, 0)));
        }
    } else {
        let rest = p.skip(i + 1);
        assert(p.subrange(i, i + 1) =~= space);
        assert(p[i] == p.subrange(i, i + 1)[0]);
        assert(!(has(rest, mark))) by {
            if has(rest, mark) {
                let j = choose|j: int| occurs_at(rest, mark, j);
                assert(p.subrange(i + 1 + j, i + 1 + j + 3) =~= rest.subrange(j, j + 3));
                assert(occurs_at(p, mark, i + 1 + j));
            }
        }
        decoding_undoes_encoding(rest);
        let tail = replaced(rest, space, mark);
        assert(e == p.take(i) + mark + tail);
        assert forall|j: int| 0 <= j < i implies !occurs_at(e, mark, j) by {
            if occurs_at(e, mark, j) {
                let cut = e.subrange(j, j + 3);
                assert(cut[0] == '%' && cut[1] == '2' && cut[2] == '0');
                if j + 2 < i {
                    assert(p.subrange(j, j + 3) =~= cut);
                    assert(occurs_at(p, mark, j));
                } else if j + 2 == i {
                    assert(cut[2] == e[i]);
                    assert(e[i] == mark[0]);
                } else {
                    assert(cut[1] == e[i]);
                    assert(e[i] == mark[0]);
                }
            }
        }
        assert(e.subrange(i, i + 3) =~= mark);
        assert(occurs_at(e, mark, i));
        crate::names::first_at_is_least(e, mark, 0, i);
        assert(e.take(i) =~= p.take(i));
        assert(e.skip(i + 3) =~= tail);
        assert(replaced(e, mark, space) == e.take(i) + space + replaced(e.skip(i + 3), mark, space));
        assert(p =~= p.take(i) + space + rest);
    }
}

/// A path is read back from its URI, unless it holds what stands for a space.
pub proof fn paths_survive_their_uris(path: Seq<char>)
    requires
        !(has(path, "%20"@)),
    ensures
        path_of(uri_of(path)) == Some(path),
{
    let uri = uri_of(path);
    let scheme = "file://"@;
    assert(uri.skip(scheme.len() as int) =~= replaced(path, " "@, "%20"@));
    assert(scheme =~= uri.take(scheme.len() as int));
    decoding_undoes_encoding(path);
}

/// The header of a message.
pub open spec fn header_text(length: nat) -> Seq<char> {
    "Content-Length: "@ + decimal(length) + "\r\n\r\n"@
}

/// A message as it travels: a header with the length of the body in bytes, an empty
/// line, the body.
pub fn frame(body: &str) -> (r: String)
    ensures
        r@ == header_text(encode_utf8(body@).len()) + body@,
{
    let mut out = concat(
        "Content-Length: ",
        decimal_text(body.as_bytes().len() as u64).as_str(),
    );
    out.append("\r\n\r\n");
    out.append(body);
    out
}

/// What a header line does.
#[derive(Debug, Clone, Copy, PartialEq, Eq, Structural)]
pub enum HeaderStep {
    /// Another header line; the length, where it is known.
    More(Option<usize>),
    /// The header is over.
    Done(usize),
    /// The header is over and held no length.
    NoLength,
    /// The length is no number.
    BadLength,
}

/// What a header line does to what is known of the length.
pub open spec fn header_effect(line: Seq<char>, length: Option<usize>) -> HeaderStep {
    let text = trimmed_end(line);
    if text.len() == 0 {
        match length {
            Some(length) => HeaderStep::Done(length),
            None => HeaderStep::NoLength,
        }
    } else if "Content-Length:"@.is_prefix_of(text) {
        match number_value(
            trimmed(text.skip("Content-Length:"@.len() as int)),
            usize::MAX as nat,
        ) {
            Some(length) => HeaderStep::More(Some(length as usize)),
            None => HeaderStep::BadLength,
        }
    } else {
        HeaderStep::More(length)
    }
}

/// Reads one line of a header.
pub fn read_header_line(line: &str, length: Option<usize>) -> (r: HeaderStep)
    ensures
        r == header_effect(line@, length),
{
    let text = crate::text::trim_end(line);
    if text.as_str().is_empty() {
        return match length {
            Some(length) => HeaderStep::Done(length),
            None => HeaderStep::NoLength,
        };
    }
    match strip_prefix(text.as_str(), "Content-Length:") {
        None => HeaderStep::More(length),
        Some(rest) => match parse_number(trim(rest.as_str()).as_str(), usize::MAX as u64) {
            Some(number) => HeaderStep::More(Some(number as usize)),
            None => HeaderStep::BadLength,
        },
    }
}

pub proof fn digits_are_no_space(n: nat)
    ensures
        decimal(n).len() > 0,
        !whitespace(decimal(n)[0]),
        !whitespace(decimal(n).last()),
        decimal(n)[0] != '+',
    decreases n,
{
    if n >= 10 {
        digits_are_no_space(n / 10);
        assert(decimal(n)[0] == decimal(n / 10)[0]);
    }
}

/// The lines of a frame's header give back the length of its body.
pub proof fn frames_are_read_back(length: nat, known: Option<usize>)
    requires
        length <= usize::MAX,
    ensures
        header_effect("Content-Length: "@ + decimal(length) + "\r\n"@, known) == HeaderStep::More(
            Some(length as usize),
        ),
        header_effect("\r\n"@, Some(length as usize)) == HeaderStep::Done(length as usize),
{
    reveal_strlit("Content-Length: ");
    reveal_strlit("Content-Length:");
    reveal_strlit("\r\n");
    digits_are_no_space(length);
    decimal_reads_back(length);
    let digits = decimal(length);
    let text = "Content-Length: "@ + digits;
    let line = text + "\r\n"@;
    assert(line.drop_last().drop_last() =~= text);
    assert(line.last() == '\n');
    assert(line.drop_last().last() == '\r');
    assert(text.last() == digits.last());
    reveal_with_fuel(trimmed_end, 3);
    assert(trimmed_end(line) == text);
    let name = "Content-Length:"@;
    assert(name =~= text.take(name.len() as int));
    let rest = text.skip(name.len() as int);
    assert(rest[0] == ' ');
    assert(rest.drop_first() =~= digits);
    reveal_with_fuel(trimmed_start, 2);
    assert(trimmed_start(rest) == digits);
    assert(trimmed_end(digits) == digits);
    assert("\r\n"@.drop_last().drop_last() =~= Seq::<char>::empty());
    assert("\r\n"@.last() == '\n' && "\r\n"@.drop_last().last() == '\r');
    assert(trimmed_end("\r\n"@) =~= Seq::<char>::empty());
}

/// What a message that came in is.
#[derive(Debug, Clone, Copy, PartialEq, Eq, Structural)]
pub enum Incoming {
    /// The answer that is waited for.
    Answer,
    /// The answer that is waited for, and it is an error.
    Failure,
    /// A request of the server, to be acknowledged so that it never stalls.
    Request,
    /// A notification, or an answer that nobody waits for.
    Other,
}

/// What a message that came in is, while the answer to a request is waited for.
pub open spec fn incoming_kind(message: Json, id: u64) -> Incoming {
    if message.field("method"@) is None && message.field("id"@) == Some(Json::Whole(id)) {
        if message.field("error"@) is Some {
            Incoming::Failure
        } else {
            Incoming::Answer
        }
    } else if message.field("id"@) is Some && message.field("method"@) is Some {
        Incoming::Request
    } else {
        Incoming::Other
    }
}

/// What the body of a message holds, or nothing where it is no JSON document.
pub fn read_body(bytes: &[u8]) -> (r: Option<Json>)
    ensures
        r == json_document(bytes@),
{
    parse_json(bytes)
}

/// What a message that came in is, while the answer to a request is waited for.
pub fn classify(message: &Json, id: u64) -> (r: Incoming)
    ensures
        r == incoming_kind(*message, id),
{
    let no_method = message.get("method").is_none();
    let (has_id, own) = match message.get("id") {
        Some(value) => (
            true,
            match value.as_u64() {
                Some(number) => number == id,
                None => false,
            },
        ),
        None => (false, false),
    };
    if no_method && own {
        if message.get("error").is_some() {
            Incoming::Failure
        } else {
            Incoming::Answer
        }
    } else if has_id && !no_method {
        Incoming::Request
    } else {
        Incoming::Other
    }
}

/// The server advertised the capability: it is there and neither null nor false.
pub open spec fn advertises(capabilities: Json, capability: Seq<char>) -> bool {
    match capabilities.field(capability) {
        None => false,
        Some(Json::Null) => false,
        Some(Json::Bool(b)) => b,
        Some(_) => true,
    }
}

/// Whether the server advertised a capability.
pub fn supports(capabilities: &Json, capability: &str) -> (r: bool)
    ensures
        r == advertises(*capabilities, capability@),
{
    match capabilities.get(capability) {
        None => false,
        Some(value) => match value {
            Json::Null => false,
            Json::Bool(b) => *b,
            _ => true,
        },
    }
}

/// A request of the server never ends the wait for an answer.
pub proof fn requests_are_not_answers(message: Json, id: u64)
    requires
        message.field("method"@) is Some,
    ensures
        incoming_kind(message, id) != Incoming::Answer,
        incoming_kind(message, id) != Incoming::Failure,
{
}

/// A capability that is missing, null or false is not there, and one that says anything else
/// is.
pub proof fn capabilities_are_advertised(capabilities: Json, capability: Seq<char>)
    ensures
        !advertises(capabilities, capability) <==> {
            ||| capabilities.field(capability) is None
            ||| capabilities.field(capability) == Some(Json::Null)
            ||| capabilities.field(capability) == Some(Json::Bool(false))
        },
{
}

/// An answer is one to the request that waits: it has the request's number and no method,
/// and it is a failure exactly where it holds an error.
pub proof fn answers_are_told_by_their_number(message: Json, id: u64)
    ensures
        incoming_kind(message, id) == Incoming::Answer ==> message.field("id"@) == Some(
            Json::Whole(id),
        ) && message.field("error"@) is None,
        incoming_kind(message, id) == Incoming::Failure ==> message.field("id"@) == Some(
            Json::Whole(id),
        ) && message.field("error"@) is Some,
        incoming_kind(message, id) == Incoming::Request <==> message.field("id"@) is Some
            && message.field("method"@) is Some,
        message.field("method"@) is None && message.field("id"@) == Some(Json::Whole(id))
            ==> incoming_kind(message, id) == Incoming::Answer || incoming_kind(message, id)
            == Incoming::Failure,
{
}

} // verus!
