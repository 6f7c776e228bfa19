//! Messages as they travel: a header with the length, an empty line, the payload.
use crate::lines::{line_count, line_of, line_text, lines_in};
use crate::lsp::wire::{digits_are_no_space, header_text};
use crate::text::{
    ascii_lowered, concat, cut_once, decimal, decimal_reads_back, decimal_text, first_index,
    lower_ascii, number_value, parse_number, same, split, split_once, trim, trimmed, trimmed_end,
    trimmed_start,
};
use crate::utf8::read_utf8;
use vstd::prelude::*;
use vstd::string::*;
use vstd::utf8::*;

verus! {

/// Upper bound for one message. Search responses are bounded by their limit;
/// nothing legitimate approaches this.
pub const MAX_FRAME_BYTES: usize = 33_554_432;

/// The most bytes of a header before it must have ended.
pub const MAX_HEADER_BYTES: usize = 4096;

/// Why bytes are no message.
#[derive(Debug, Clone, Copy, PartialEq, Eq, Structural)]
pub enum FrameFault {
    /// The connection closed in the middle of a header.
    ClosedMidHeader,
    OversizedHeader,
    NonUtf8Header,
    MissingLength,
    TooLarge,
    /// The connection closed in the middle of a payload.
    ClosedMidPayload,
}

/// A message as it travels.
pub open spec fn frame_bytes(payload: Seq<u8>) -> Seq<u8> {
    encode_utf8(header_text(payload.len())) + payload
}

fn push_all(out: &mut Vec<u8>, bytes: &[u8])
    ensures
        final(out)@ == old(out)@ + bytes@,
{
    let ghost start = out@;
    let mut i: usize = 0;
    assert(out@ =~= start + bytes@.take(0));
    while i < bytes.len()
        invariant
            i <= bytes@.len(),
            out@ == start + bytes@.take(i as int),
        decreases bytes@.len() - i,
    {
        out.push(bytes[i]);
        i += 1;
        assert(out@ =~= start + bytes@.take(i as int));
    }
    assert(bytes@.take(i as int) =~= bytes@);
}

/// A message as it travels.
pub fn write_frame(payload: &Vec<u8>) -> (r: Vec<u8>)
    ensures
        r@ == frame_bytes(payload@),
{
    let mut header = concat("Content-Length: ", decimal_text(payload.len() as u64).as_str());
    header.append("\r\n\r\n");
    let mut out: Vec<u8> = Vec::new();
    push_all(&mut out, header.as_str().as_bytes());
    assert(out@ =~= encode_utf8(header@));
    push_all(&mut out, payload.as_slice());
    out
}

/// The bytes end with an empty line.
pub open spec fn ends_blank(bytes: Seq<u8>) -> bool {
    let n = bytes.len();
    n >= 4 && bytes[n - 4] == 13 && bytes[n - 3] == 10 && bytes[n - 2] == 13 && bytes[n - 1] == 10
}

/// The length that a header line gives: it is called `content-length`, whatever the
/// case, and its value is a number.
pub open spec fn line_length(line: Seq<char>) -> Option<nat> {
    match cut_once(line, ':') {
        Some((name, value)) => if ascii_lowered(name) == "content-length"@ {
            number_value(trimmed(value), usize::MAX as nat)
        } else {
            None
        },
        None => None,
    }
}

/// The length that the first header line from `i` on gives that gives one.
pub open spec fn length_from(header: Seq<char>, i: int) -> Option<nat>
    decreases line_count(header) - i,
{
    if i >= line_count(header) {
        None
    } else {
        match line_length(line_text(header, i)) {
            Some(length) => Some(length),
            None => length_from(header, i + 1),
        }
    }
}

/// The length of the payload after a header.
pub open spec fn payload_length(header: Seq<u8>) -> Result<usize, FrameFault> {
    if !valid_utf8(header) {
        Err(FrameFault::NonUtf8Header)
    } else {
        match length_from(decode_utf8(header), 0) {
            None => Err(FrameFault::MissingLength),
            Some(length) => if length > MAX_FRAME_BYTES {
                Err(FrameFault::TooLarge)
            } else {
                Ok(length as usize)
            },
        }
    }
}

fn read_line_length(line: &str) -> (r: Option<usize>)
    ensures
        match r {
            Some(length) => line_length(line@) == Some(length as nat),
            None => line_length(line@) is None,
        },
{
    match split_once(line, ':') {
        None => None,
        Some((name, value)) => {
            if !same(lower_ascii(name.as_str()).as_str(), "content-length") {
                return None;
            }
            match parse_number(trim(value.as_str()).as_str(), usize::MAX as u64) {
                Some(length) => Some(length as usize),
                None => None,
            }
        },
    }
}

/// The length of the payload after a header.
pub fn content_length(header: &Vec<u8>) -> (r: Result<usize, FrameFault>)
    ensures
        r == payload_length(header@),
{
    let text = match read_utf8(header.as_slice()) {
        Ok(text) => text,
        Err(_) => {
            return Err(FrameFault::NonUtf8Header);
        },
    };
    let total: usize = lines_in(text.as_str());
    let mut i: usize = 0;
    while i < total
        invariant
            valid_utf8(header@),
            text@ == decode_utf8(header@),
            length_from(text@, 0) == length_from(text@, i as int),
            i <= total == line_count(text@),
        decreases total - i,
    {
        if let Some(line) = line_of(text.as_str(), i) {
            if let Some(length) = read_line_length(line.as_str()) {
                if length > MAX_FRAME_BYTES {
                    return Err(FrameFault::TooLarge);
                }
                return Ok(length);
            }
        }
        i += 1;
    }
    Err(FrameFault::MissingLength)
}

/// What the next byte of a header, or the end of the connection, leads to.
#[derive(Debug, Clone, Copy, PartialEq, Eq, Structural)]
pub enum HeaderEvent {
    /// The header goes on.
    More,
    /// The header is over: a payload of this length follows.
    Payload(usize),
    /// The peer hung up between two messages.
    End,
    Fault(FrameFault),
}

/// What the header leads to once the byte is there.
pub open spec fn header_event(header: Seq<u8>, byte: Option<u8>) -> HeaderEvent {
    match byte {
        None => if header.len() == 0 {
            HeaderEvent::End
        } else {
            HeaderEvent::Fault(FrameFault::ClosedMidHeader)
        },
        Some(byte) => if ends_blank(header.push(byte)) {
            match payload_length(header.push(byte)) {
                Ok(length) => HeaderEvent::Payload(length),
                Err(fault) => HeaderEvent::Fault(fault),
            }
        } else if header.len() + 1 > MAX_HEADER_BYTES {
            HeaderEvent::Fault(FrameFault::OversizedHeader)
        } else {
            HeaderEvent::More
        },
    }
}

/// Takes the next byte of a header, or the end of the connection.
pub fn step_header(header: &mut Vec<u8>, byte: Option<u8>) -> (r: HeaderEvent)
    ensures
        r == header_event(old(header)@, byte),
        final(header)@ == match byte {
            Some(byte) => old(header)@.push(byte),
            None => old(header)@,
        },
{
    let byte = match byte {
        Some(byte) => byte,
        None => {
            return if header.len() == 0 {
                HeaderEvent::End
            } else {
                HeaderEvent::Fault(FrameFault::ClosedMidHeader)
            };
        },
    };
    header.push(byte);
    let n: usize = header.len();
    if n >= 4 && header[n - 4] == 13 && header[n - 3] == 10 && header[n - 2] == 13 && header[n - 1]
        == 10 {
        match content_length(header) {
            Ok(length) => HeaderEvent::Payload(length),
            Err(fault) => HeaderEvent::Fault(fault),
        }
    } else if n > MAX_HEADER_BYTES {
        HeaderEvent::Fault(FrameFault::OversizedHeader)
    } else {
        HeaderEvent::More
    }
}

/// What the bytes lead to when the first `n` of them are a header that goes on: the
/// payload and how many bytes the message took.
pub open spec fn frame_from(bytes: Seq<u8>, n: int) -> Result<
    Option<(Seq<u8>, nat)>,
    FrameFault,
>
    decreases bytes.len() - n,
{
    let next = if n < bytes.len() {
        Some(bytes[n])
    } else {
        None
    };
    match header_event(bytes.take(n), next) {
        HeaderEvent::End => Ok(None),
        HeaderEvent::Fault(fault) => Err(fault),
        HeaderEvent::More => if n < bytes.len() {
            frame_from(bytes, n + 1)
        } else {
            Ok(None)
        },
        HeaderEvent::Payload(length) => if n + 1 + length > bytes.len() {
            Err(FrameFault::ClosedMidPayload)
        } else {
            Ok(Some((bytes.subrange(n + 1, n + 1 + length), (n + 1 + length) as nat)))
        },
    }
}

/// Reads one message from the front of the bytes: its payload, and how many bytes it
/// took. Nothing where there are no bytes.
pub fn read_frame(bytes: &Vec<u8>) -> (r: Result<Option<(Vec<u8>, usize)>, FrameFault>)
    ensures
        match r {
            Ok(Some((payload, taken))) => frame_from(bytes@, 0) == Ok::<
                Option<(Seq<u8>, nat)>,
                FrameFault,
            >(Some((payload@, taken as nat))),
            Ok(None) => frame_from(bytes@, 0) == Ok::<Option<(Seq<u8>, nat)>, FrameFault>(None),
            Err(fault) => frame_from(bytes@, 0) == Err::<Option<(Seq<u8>, nat)>, FrameFault>(
                fault,
            ),
        },
{
    let mut header: Vec<u8> = Vec::new();
    let mut n: usize = 0;
    assert(bytes@.take(0) =~= header@);
    loop
        invariant
            n <= bytes@.len(),
            header@ == bytes@.take(n as int),
            frame_from(bytes@, 0) == frame_from(bytes@, n as int),
        decreases bytes@.len() - n,
    {
        let next = if n < bytes.len() {
            Some(bytes[n])
        } else {
            None
        };
        let event = step_header(&mut header, next);
        match event {
            HeaderEvent::End => {
                return Ok(None);
            },
            HeaderEvent::Fault(fault) => {
                return Err(fault);
            },
            HeaderEvent::Payload(length) => {
                let from: usize = n + 1;
                if length > bytes.len() - from {
                    return Err(FrameFault::ClosedMidPayload);
                }
                let mut payload: Vec<u8> = Vec::new();
                push_all(
                    &mut payload,
                    vstd::slice::slice_subrange(bytes.as_slice(), from, from + length),
                );
                assert(payload@ =~= bytes@.subrange(from as int, from + length));
                return Ok(Some((payload, from + length)));
            },
            HeaderEvent::More => {
                assert(header@ =~= bytes@.take(n + 1));
                n += 1;
            },
        }
    }
}

proof fn ascii_byte(c: char)
    requires
        c as int <= 0x7f,
    ensures
        encode_scalar(c as u32) == seq![(c as int) as u8],
{
    let n = c as u32;
    assert((n & 0x7f) as u8 == n as u8) by (bit_vector)
        requires
            n <= 0x7f,
    ;
    assert(encode_scalar(n) =~= seq![n as u8]);
}

/// ASCII text takes one byte for each character, with the same number.
pub proof fn ascii_is_encoded_as_itself(s: Seq<char>)
    requires
        forall|i: int| 0 <= i < s.len() ==> (#[trigger] s[i]) as int <= 0x7f,
    ensures
        encode_utf8(s).len() == s.len(),
        forall|i: int| 0 <= i < s.len() ==> (#[trigger] encode_utf8(s)[i]) == (s[i] as int) as u8,
    decreases s.len(),
{
    if s.len() > 0 {
        let rest = s.drop_first();
        assert forall|i: int| 0 <= i < rest.len() implies (#[trigger] rest[i]) as int <= 0x7f by {
            assert(rest[i] == s[i + 1]);
        }
        ascii_is_encoded_as_itself(rest);
        ascii_byte(s[0]);
        assert forall|i: int| 0 <= i < s.len() implies (#[trigger] encode_utf8(s)[i]) == (
        s[i] as int) as u8 by {
            if i > 0 {
                assert(encode_utf8(s)[i] == encode_utf8(rest)[i - 1]);
                assert(rest[i - 1] == s[i]);
            }
        }
    }
}

proof fn digits_are_digits(n: nat)
    ensures
        forall|i: int| 0 <= i < decimal(n).len() ==> '0' <= (#[trigger] decimal(n)[i]) <= '9',
    decreases n,
{
    if n >= 10 {
        digits_are_digits(n / 10);
        let front = decimal(n / 10);
        assert forall|i: int| 0 <= i < decimal(n).len() implies '0' <= (#[trigger] decimal(n)[i])
            <= '9' by {
            if i < front.len() {
                assert(decimal(n)[i] == front[i]);
            }
        }
    }
}

/// What a header holds: ASCII, and carriage returns only in its last four bytes.
proof fn header_facts(length: nat)
    ensures
        ({
            let bytes = encode_utf8(header_text(length));
            let n = bytes.len();
            &&& n >= 5
            &&& n == header_text(length).len()
            &&& ends_blank(bytes)
            &&& forall|i: int| 0 <= i < n - 4 ==> (#[trigger] bytes[i]) != 13
        }),
{
    reveal_strlit("Content-Length: ");
    reveal_strlit("\r\n\r\n");
    digits_are_digits(length);
    decimal_reads_back(length);
    let text = header_text(length);
    let digits = decimal(length);
    assert forall|i: int| 0 <= i < text.len() implies (#[trigger] text[i]) as int <= 0x7f by {
        if 16 <= i < 16 + digits.len() {
            assert(text[i] == digits[i - 16]);
        }
    }
    ascii_is_encoded_as_itself(text);
    let bytes = encode_utf8(text);
    let n = bytes.len();
    assert(text[n - 4] == '\r' && text[n - 3] == '\n' && text[n - 2] == '\r' && text[n - 1]
        == '\n');
    assert forall|i: int| 0 <= i < n - 4 implies (#[trigger] bytes[i]) != 13 by {
        if i >= 16 {
            assert(text[i] == digits[i - 16]);
        }
    }
}

proof fn split_of_plain(a: Seq<char>, c: char)
    requires
        forall|i: int| 0 <= i < a.len() ==> a[i] != c,
    ensures
        split(a, c) == seq![a],
    decreases a.len(),
{
    if a.len() > 0 {
        split_of_plain(a.drop_last(), c);
        assert(seq![a.drop_last()].drop_last() =~= Seq::<Seq<char>>::empty());
        assert(a.drop_last().push(a.last()) =~= a);
        assert(split(a, c) =~= seq![a]);
    } else {
        assert(a =~= Seq::<char>::empty());
    }
}

/// The line of a header gives the length.
proof fn header_line_length(length: nat)
    requires
        length <= usize::MAX,
    ensures
        line_length("Content-Length: "@ + decimal(length)) == Some(length),
{
    reveal_strlit("Content-Length: ");
    reveal_strlit("content-length");
    let digits = decimal(length);
    let line = "Content-Length: "@ + digits;
    digits_are_no_space(length);
    decimal_reads_back(length);
    let name = line.take(14);
    let value = line.skip(15);
    first_colon(line, 14);
    assert(cut_once(line, ':') == Some((name, value)));
    assert(ascii_lowered(name) =~= "content-length"@);
    assert(value[0] == ' ');
    assert(value.drop_first() =~= digits);
    reveal_with_fuel(trimmed_start, 2);
    assert(trimmed_start(value) == digits);
    assert(trimmed_end(digits) == digits);
}

proof fn first_colon(s: Seq<char>, at: int)
    requires
        0 <= at < s.len(),
        s[at] == ':',
        forall|i: int| 0 <= i < at ==> s[i] != ':',
    ensures
        first_index(s, ':') == at,
    decreases at,
{
    if at > 0 {
        first_colon(s.drop_first(), at - 1);
    }
}

/// A header gives the length that it was written with.
proof fn header_is_read_back(length: nat)
    requires
        length <= MAX_FRAME_BYTES,
    ensures
        payload_length(encode_utf8(header_text(length))) == Ok::<usize, FrameFault>(
            length as usize,
        ),
{
    reveal_strlit("Content-Length: ");
    reveal_strlit("\r\n\r\n");
    reveal_strlit("\r");
    digits_are_digits(length);
    let text = header_text(length);
    let digits = decimal(length);
    encode_utf8_valid_utf8(text);
    encode_utf8_decode_utf8(text);
    let line = "Content-Length: "@ + digits;
    let first = line.push('\r');
    assert forall|i: int| 0 <= i < first.len() implies first[i] != '\n' by {
        if 16 <= i < 16 + digits.len() {
            assert(first[i] == digits[i - 16]);
        }
    }
    split_of_plain(first, '\n');
    let a = first.push('\n');
    assert(a.drop_last() =~= first);
    assert(split(a, '\n') =~= seq![first, Seq::empty()]);
    let b = a.push('\r');
    assert(b.drop_last() =~= a);
    assert(split(b, '\n') =~= seq![first, seq!['\r']]);
    let c = b.push('\n');
    assert(c.drop_last() =~= b);
    assert(split(c, '\n') =~= seq![first, seq!['\r'], Seq::empty()]);
    assert(text =~= c);
    assert(line_count(text) == 2);
    assert("\r"@.is_suffix_of(first));
    assert(line_text(text, 0) =~= line);
    header_line_length(length);
}

proof fn header_goes_on(bytes: Seq<u8>, header: Seq<u8>, n: int)
    requires
        header.len() <= bytes.len(),
        bytes.take(header.len() as int) == header,
        ends_blank(header),
        header.len() <= MAX_HEADER_BYTES,
        forall|i: int| 0 <= i < header.len() - 4 ==> (#[trigger] header[i]) != 13,
        0 <= n < header.len(),
    ensures
        frame_from(bytes, n) == frame_from(bytes, header.len() - 1),
    decreases header.len() - n,
{
    if n < header.len() - 1 {
        let now = bytes.take(n).push(bytes[n]);
        assert(bytes[n] == header[n]);
        assert(!ends_blank(now)) by {
            if now.len() >= 4 {
                assert(now[n - 3] == header[n - 3]) by {
                    assert(bytes.take(header.len() as int)[n - 3] == bytes[n - 3]);
                }
                assert(header[n - 3] != 13);
            }
        }
        header_goes_on(bytes, header, n + 1);
    }
}

proof fn short_decimal(n: nat, digits: nat)
    requires
        digits >= 1,
        n < vstd::arithmetic::power::pow(10, digits),
    ensures
        decimal(n).len() <= digits,
    decreases digits,
{
    vstd::arithmetic::power::lemma_pow1(10);
    if n >= 10 {
        if digits == 1 {
            assert(false);
        } else {
            reveal(vstd::arithmetic::power::pow);
            assert(vstd::arithmetic::power::pow(10, digits) == 10
                * vstd::arithmetic::power::pow(10, (digits - 1) as nat));
            short_decimal(n / 10, (digits - 1) as nat);
        }
    }
}

/// A message is read back as it was written, whatever follows it: its payload, and
/// where the next message starts.
pub proof fn frames_round_trip(payload: Seq<u8>, rest: Seq<u8>)
    requires
        payload.len() <= MAX_FRAME_BYTES,
    ensures
        frame_from(frame_bytes(payload) + rest, 0) == Ok::<Option<(Seq<u8>, nat)>, FrameFault>(
            Some((payload, frame_bytes(payload).len())),
        ),
        frame_from(Seq::empty(), 0) == Ok::<Option<(Seq<u8>, nat)>, FrameFault>(None),
{
    let header = encode_utf8(header_text(payload.len()));
    let bytes = frame_bytes(payload) + rest;
    let k = header.len();
    header_facts(payload.len());
    reveal_strlit("Content-Length: ");
    reveal_strlit("\r\n\r\n");
    assert(decimal(payload.len()).len() <= 20) by {
        assert(payload.len() < vstd::arithmetic::power::pow(10, 8)) by {
            reveal_with_fuel(vstd::arithmetic::power::pow, 9);
        }
        short_decimal(payload.len(), 8);
    }
    assert(bytes.take(k as int) =~= header);
    header_goes_on(bytes, header, 0);
    assert(bytes.take(k - 1).push(bytes[k - 1]) =~= header);
    header_is_read_back(payload.len());
    assert(bytes.subrange(k as int, (k + payload.len()) as int) =~= payload);
    assert(Seq::<u8>::empty().take(0) =~= Seq::<u8>::empty());
}

/// A payload is announced only where it is not too large; a peer that hangs up between two
/// messages ends the connection, and one that hangs up within a header breaks it.
pub proof fn headers_are_read_to_their_end(header: Seq<u8>, byte: Option<u8>)
    ensures
        payload_length(header) matches Ok(length) ==> length <= 33_554_432 && valid_utf8(
            header,
        ),
        header_event(header, None) == HeaderEvent::End <==> header.len() == 0,
        header_event(header, byte) == HeaderEvent::End ==> byte is None,
        header_event(header, byte) is Payload ==> byte is Some && header_event(
            header,
            byte,
        )->Payload_0 <= 33_554_432,
        header_event(header, byte) is More ==> header.len() < 4096,
{
}

/// Of several lengths the first that a header names counts.
pub proof fn the_first_length_counts(header: Seq<char>, i: int, k: int)
    requires
        0 <= i <= k < line_count(header),
        line_length(line_text(header, k)) is Some,
        forall|j: int| i <= j < k ==> line_length(#[trigger] line_text(header, j)) is None,
    ensures
        length_from(header, i) == line_length(line_text(header, k)),
    decreases k - i,
{
    if i < k {
        assert(line_length(line_text(header, i)) is None);
        the_first_length_counts(header, i + 1, k);
    }
}

} // verus!
