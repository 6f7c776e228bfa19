//! What a tokenizer is made of, and which tokenizers take every text.
use crate::json::Json;
use crate::text::{contains, has, same};
use vstd::prelude::*;
use vstd::string::*;

verus! {

/// The parts of a tokenizer, each as the JSON value that it is written as.
pub struct TokenizerParts {
    /// What changes the characters of a text.
    pub normalizer: Json,
    /// What cuts a text into words.
    pub pre_tokenizer: Json,
    /// What puts special tokens round the others.
    pub post_processor: Json,
    /// The tokens that are found before a text is cut into words.
    pub added_tokens: Json,
    /// How long inputs are cut.
    pub truncation: Json,
    /// How short inputs are filled up.
    pub padding: Json,
}

/// Whose tokenizer it is. The two differ in what their parts do with some texts.
#[derive(Debug, Clone, Copy, PartialEq, Eq, Structural)]
pub enum Owner {
    /// The library's own, for models that it feeds with ids. No special tokens are put
    /// round an input.
    Library,
    /// A loaded ONNX model's. Special tokens are put round each input, and a pattern
    /// that cannot be followed to its end stops the program.
    Onnx,
}

/// Why a tokenizer cannot be used.
#[derive(Debug, Clone, Copy, PartialEq, Eq, Structural)]
pub enum TokenizerFault {
    /// Its parts cannot be written.
    Unreadable,
    /// It changes the characters of a text in a way that is not relied on.
    Normalizer,
    /// It cuts words in a way that is not relied on.
    PreTokenizer,
    /// It puts special tokens round the others in a way that is not relied on.
    PostProcessor,
    /// Its added tokens take the blanks round them from both sides, or can be emptied.
    AddedTokens,
    /// It cuts inputs to a length that its stride does not fit into.
    Truncation,
    /// It fills inputs up beyond measure.
    Padding,
    /// It finds tokens in a way that is not relied on.
    Model,
}

/// What is said of a tokenizer that cannot be used.
pub fn tokenizer_message(fault: TokenizerFault) -> (r: &'static str)
    ensures
        r@ == match fault {
            TokenizerFault::Unreadable => "the tokenizer's parts cannot be read"@,
            TokenizerFault::Normalizer => "the tokenizer's normalizer is not supported"@,
            TokenizerFault::PreTokenizer => "the tokenizer's pre-tokenizer is not supported"@,
            TokenizerFault::PostProcessor => "the tokenizer's post-processor is not supported"@,
            TokenizerFault::AddedTokens => "the tokenizer's added tokens are not supported"@,
            TokenizerFault::Truncation => "the tokenizer's truncation is not supported"@,
            TokenizerFault::Padding => "the tokenizer's padding is not supported"@,
            TokenizerFault::Model => "the tokenizer's model is not supported"@,
        },
{
    match fault {
        TokenizerFault::Unreadable => "the tokenizer's parts cannot be read",
        TokenizerFault::Normalizer => "the tokenizer's normalizer is not supported",
        TokenizerFault::PreTokenizer => "the tokenizer's pre-tokenizer is not supported",
        TokenizerFault::PostProcessor => "the tokenizer's post-processor is not supported",
        TokenizerFault::AddedTokens => "the tokenizer's added tokens are not supported",
        TokenizerFault::Truncation => "the tokenizer's truncation is not supported",
        TokenizerFault::Padding => "the tokenizer's padding is not supported",
        TokenizerFault::Model => "the tokenizer's model is not supported",
    }
}

/// The text under a name, where there is one.
pub open spec fn text_under(part: Json, name: Seq<char>) -> Option<Seq<char>> {
    match part.field(name) {
        Some(Json::Text(text)) => Some(text@),
        _ => None,
    }
}

/// The values that are listed under a name, where there are any.
pub open spec fn list_under(part: Json, name: Seq<char>) -> Option<Seq<Json>> {
    match part.field(name) {
        Some(Json::List(items)) => Some(items@),
        _ => None,
    }
}

/// The whole number under a name, where there is one.
pub open spec fn number_under(part: Json, name: Seq<char>) -> Option<u64> {
    match part.field(name) {
        Some(Json::Whole(n)) => Some(n),
        _ => None,
    }
}

/// Whether what stands under a name is true.
pub open spec fn set_under(part: Json, name: Seq<char>) -> bool {
    part.field(name) == Some(Json::Bool(true))
}

/// Whether the text under `name` is `text`.
fn is_text(part: &Json, name: &str, text: &str) -> (r: bool)
    ensures
        r == (text_under(*part, name@) == Some(text@)),
{
    match part.get(name) {
        Some(Json::Text(found)) => same(found.as_str(), text),
        _ => false,
    }
}

/// The values that are listed under a name.
fn listed<'a>(part: &'a Json, name: &str) -> (r: Option<&'a Vec<Json>>)
    ensures
        match r {
            Some(items) => list_under(*part, name@) == Some(items@),
            None => list_under(*part, name@) is None,
        },
{
    match part.get(name) {
        Some(Json::List(items)) => Some(items),
        _ => None,
    }
}

/// The whole number under a name.
fn number(part: &Json, name: &str) -> (r: Option<u64>)
    ensures
        r == number_under(*part, name@),
{
    match part.get(name) {
        Some(Json::Whole(n)) => Some(*n),
        _ => None,
    }
}

/// Whether what stands under a name is true.
fn is_set(part: &Json, name: &str) -> (r: bool)
    ensures
        r == set_under(*part, name@),
{
    match part.get(name) {
        Some(Json::Bool(b)) => *b,
        _ => false,
    }
}

/// Whether a part is of a kind.
pub open spec fn of_kind(part: Json, kind: Seq<char>) -> bool {
    text_under(part, "type"@) == Some(kind)
}

/// Whether a part is of a kind.
fn is_kind(part: &Json, kind: &str) -> (r: bool)
    ensures
        r == of_kind(*part, kind@),
{
    is_text(part, "type", kind)
}

/// A normalizer of one step that takes every text and leaves something of every added
/// token: one of the Unicode forms, or lower case. An ONNX model's can also be the one
/// that BERT models use.
pub open spec fn steady_normalizer(part: Json, owner: Owner) -> bool {
    ||| of_kind(part, "NFC"@)
    ||| of_kind(part, "NFD"@)
    ||| of_kind(part, "NFKC"@)
    ||| of_kind(part, "NFKD"@)
    ||| of_kind(part, "Lowercase"@)
    ||| owner is Onnx && of_kind(part, "BertNormalizer"@)
}

/// A normalizer that takes every text: none, one step, or steps in sequence.
pub open spec fn sound_normalizer(part: Json, owner: Owner) -> bool {
    ||| part is Null
    ||| steady_normalizer(part, owner)
    ||| of_kind(part, "Sequence"@) && match list_under(part, "normalizers"@) {
        Some(steps) => forall|i: int|
            0 <= i < steps.len() ==> steady_normalizer(#[trigger] steps[i], owner),
        None => false,
    }
}

fn is_steady_normalizer(part: &Json, owner: Owner) -> (r: bool)
    ensures
        r == steady_normalizer(*part, owner),
{
    is_kind(part, "NFC") || is_kind(part, "NFD") || is_kind(part, "NFKC") || is_kind(part, "NFKD")
        || is_kind(part, "Lowercase") || (match owner {
        Owner::Onnx => is_kind(part, "BertNormalizer"),
        Owner::Library => false,
    })
}

fn is_sound_normalizer(part: &Json, owner: Owner) -> (r: bool)
    ensures
        r == sound_normalizer(*part, owner),
{
    if let Json::Null = part {
        return true;
    }
    if is_steady_normalizer(part, owner) {
        return true;
    }
    if !is_kind(part, "Sequence") {
        return false;
    }
    match listed(part, "normalizers") {
        None => false,
        Some(steps) => {
            let mut i: usize = 0;
            while i < steps.len()
                invariant
                    i <= steps@.len(),
                    !(part is Null),
                    !steady_normalizer(*part, owner),
                    list_under(*part, "normalizers"@) == Some(steps@),
                    forall|j: int| 0 <= j < i ==> steady_normalizer(#[trigger] steps@[j], owner),
                decreases steps@.len() - i,
            {
                if !is_steady_normalizer(&steps[i], owner) {
                    let ghost found = list_under(*part, "normalizers"@)->0;
                    assert(!steady_normalizer(found[i as int], owner));
                    return false;
                }
                i += 1;
            }
            true
        },
    }
}

/// What moves the beginning of what a pattern found behind what it has read.
pub const KEPT_OUT: &'static str = "\\K";

/// A pattern whose finds end no earlier than they begin.
pub open spec fn sound_pattern(pattern: Json) -> bool {
    match pattern.field("Regex"@) {
        Some(Json::Text(regex)) => !(has(regex@, KEPT_OUT@)),
        Some(_) => false,
        None => pattern.field("String"@) is Some,
    }
}

fn is_sound_pattern(pattern: &Json) -> (r: bool)
    ensures
        r == sound_pattern(*pattern),
{
    match pattern.get("Regex") {
        Some(Json::Text(regex)) => !contains(regex.as_str(), KEPT_OUT),
        Some(_) => false,
        None => pattern.get("String").is_some(),
    }
}

/// A pre-tokenizer of one step that takes every text. An ONNX model's follows no
/// pattern that a file brings, nor the one of byte-level models.
pub open spec fn steady_pre_tokenizer(part: Json, owner: Owner) -> bool {
    ||| of_kind(part, "BertPreTokenizer"@)
    ||| of_kind(part, "Whitespace"@)
    ||| of_kind(part, "WhitespaceSplit"@)
    ||| of_kind(part, "Metaspace"@)
    ||| of_kind(part, "Punctuation"@)
    ||| of_kind(part, "Digits"@)
    ||| of_kind(part, "CharDelimiterSplit"@)
    ||| of_kind(part, "UnicodeScripts"@)
    ||| of_kind(part, "FixedLength"@) && (number_under(part, "length"@) matches Some(n) && n > 0)
    ||| of_kind(part, "ByteLevel"@) && (owner is Library || part.field("use_regex"@) == Some(
        Json::Bool(false),
    ))
    ||| of_kind(part, "Split"@) && owner is Library && (part.field("pattern"@) matches Some(
        pattern,
    ) && sound_pattern(pattern))
}

/// A pre-tokenizer that takes every text: none, one step, or steps in sequence.
pub open spec fn sound_pre_tokenizer(part: Json, owner: Owner) -> bool {
    ||| part is Null
    ||| steady_pre_tokenizer(part, owner)
    ||| of_kind(part, "Sequence"@) && match list_under(part, "pretokenizers"@) {
        Some(steps) => forall|i: int|
            0 <= i < steps.len() ==> steady_pre_tokenizer(#[trigger] steps[i], owner),
        None => false,
    }
}

fn is_steady_pre_tokenizer(part: &Json, owner: Owner) -> (r: bool)
    ensures
        r == steady_pre_tokenizer(*part, owner),
{
    if is_kind(part, "BertPreTokenizer") || is_kind(part, "Whitespace") || is_kind(
        part,
        "WhitespaceSplit",
    ) || is_kind(part, "Metaspace") || is_kind(part, "Punctuation") || is_kind(part, "Digits")
        || is_kind(part, "CharDelimiterSplit") || is_kind(part, "UnicodeScripts") {
        return true;
    }
    if is_kind(part, "FixedLength") {
        if let Some(n) = number(part, "length") {
            if n > 0 {
                return true;
            }
        }
    }
    let library = match owner {
        Owner::Library => true,
        Owner::Onnx => false,
    };
    if is_kind(part, "ByteLevel") {
        if library {
            return true;
        }
        if let Some(Json::Bool(b)) = part.get("use_regex") {
            if !*b {
                return true;
            }
        }
    }
    if is_kind(part, "Split") && library {
        if let Some(pattern) = part.get("pattern") {
            return is_sound_pattern(pattern);
        }
    }
    false
}

fn is_sound_pre_tokenizer(part: &Json, owner: Owner) -> (r: bool)
    ensures
        r == sound_pre_tokenizer(*part, owner),
{
    if let Json::Null = part {
        return true;
    }
    if is_steady_pre_tokenizer(part, owner) {
        return true;
    }
    if !is_kind(part, "Sequence") {
        return false;
    }
    match listed(part, "pretokenizers") {
        None => false,
        Some(steps) => {
            let mut i: usize = 0;
            while i < steps.len()
                invariant
                    i <= steps@.len(),
                    !(part is Null),
                    !steady_pre_tokenizer(*part, owner),
                    list_under(*part, "pretokenizers"@) == Some(steps@),
                    forall|j: int| 0 <= j < i ==> steady_pre_tokenizer(#[trigger] steps@[j], owner),
                decreases steps@.len() - i,
            {
                if !is_steady_pre_tokenizer(&steps[i], owner) {
                    let ghost found = list_under(*part, "pretokenizers"@)->0;
                    assert(!steady_pre_tokenizer(found[i as int], owner));
                    return false;
                }
                i += 1;
            }
            true
        },
    }
}

/// The most pieces that a template is made of, and processors that a sequence holds.
pub const MOST_PIECES: usize = 16;

/// A piece of a template for one text: the text itself, or a special token. Where
/// special tokens are put round an input, the template knows the token, and it is one.
pub open spec fn sound_piece(template: Json, piece: Json, owner: Owner) -> bool {
    match piece.field("Sequence"@) {
        Some(sequence) => text_under(sequence, "id"@) == Some("A"@),
        None => match piece.field("SpecialToken"@) {
            Some(token) => owner is Library || match text_under(token, "id"@) {
                Some(id) => match template.field("special_tokens"@) {
                    Some(known) => match known.field(id) {
                        Some(special) => list_under(special, "ids"@) matches Some(ids) && ids.len()
                            == 1,
                        None => false,
                    },
                    None => false,
                },
                None => false,
            },
            None => false,
        },
    }
}

fn is_sound_piece(template: &Json, piece: &Json, owner: Owner) -> (r: bool)
    ensures
        r == sound_piece(*template, *piece, owner),
{
    if let Some(sequence) = piece.get("Sequence") {
        return is_text(sequence, "id", "A");
    }
    let token = match piece.get("SpecialToken") {
        Some(token) => token,
        None => {
            return false;
        },
    };
    if let Owner::Library = owner {
        return true;
    }
    let id = match token.get("id") {
        Some(Json::Text(id)) => id,
        _ => {
            return false;
        },
    };
    match template.get("special_tokens") {
        Some(known) => match known.get(id.as_str()) {
            Some(special) => match listed(special, "ids") {
                Some(ids) => ids.len() == 1,
                None => false,
            },
            None => false,
        },
        None => false,
    }
}

/// A piece of a template that stands for a text.
pub open spec fn has_text(piece: Json) -> bool {
    piece.field("Sequence"@) is Some
}

/// A template that one text is enough for, and that has the text once at most: what was
/// cut off each time is joined with what was cut off every other time.
pub open spec fn sound_template(part: Json, owner: Owner) -> bool {
    &&& of_kind(part, "TemplateProcessing"@)
    &&& match list_under(part, "single"@) {
        Some(pieces) => {
            &&& pieces.len() <= MOST_PIECES
            &&& forall|i: int|
                0 <= i < pieces.len() ==> sound_piece(part, #[trigger] pieces[i], owner)
            &&& forall|i: int, j: int|
                0 <= i < j < pieces.len() ==> !(has_text(#[trigger] pieces[i]) && has_text(
                    #[trigger] pieces[j],
                ))
        },
        None => false,
    }
}

fn is_sound_template(part: &Json, owner: Owner) -> (r: bool)
    ensures
        r == sound_template(*part, owner),
{
    if !is_kind(part, "TemplateProcessing") {
        return false;
    }
    match listed(part, "single") {
        None => false,
        Some(pieces) => {
            if pieces.len() > MOST_PIECES {
                return false;
            }
            let mut text: Option<usize> = None;
            let mut i: usize = 0;
            while i < pieces.len()
                invariant
                    i <= pieces@.len() <= MOST_PIECES,
                    of_kind(*part, "TemplateProcessing"@),
                    list_under(*part, "single"@) == Some(pieces@),
                    text matches Some(at) ==> at < i && has_text(pieces@[at as int]),
                    forall|j: int|
                        0 <= j < i && has_text(#[trigger] pieces@[j]) ==> text == Some(j as usize),
                    forall|j: int|
                        0 <= j < i ==> sound_piece(*part, #[trigger] pieces@[j], owner),
                decreases pieces@.len() - i,
            {
                if !is_sound_piece(part, &pieces[i], owner) {
                    return false;
                }
                if pieces[i].get("Sequence").is_some() {
                    if text.is_some() {
                        return false;
                    }
                    text = Some(i);
                }
                i += 1;
            }
            true
        },
    }
}

/// A post-processor of one step that takes what it is given as it comes.
pub open spec fn steady_post_processor(part: Json) -> bool {
    ||| of_kind(part, "BertProcessing"@)
    ||| of_kind(part, "RobertaProcessing"@)
    ||| of_kind(part, "ByteLevel"@)
}

fn is_steady_post_processor(part: &Json) -> (r: bool)
    ensures
        r == steady_post_processor(*part),
{
    is_kind(part, "BertProcessing") || is_kind(part, "RobertaProcessing") || is_kind(
        part,
        "ByteLevel",
    )
}

/// A post-processor that takes every input: none, one step, or steps in sequence, of
/// which one at most is a template.
pub open spec fn sound_post_processor(part: Json, owner: Owner) -> bool {
    ||| part is Null
    ||| steady_post_processor(part)
    ||| sound_template(part, owner)
    ||| of_kind(part, "Sequence"@) && match list_under(part, "processors"@) {
        Some(steps) => {
            &&& steps.len() <= MOST_PIECES
            &&& forall|i: int|
                0 <= i < steps.len() ==> steady_post_processor(#[trigger] steps[i])
                    || sound_template(steps[i], owner)
            &&& forall|i: int, j: int|
                0 <= i < j < steps.len() ==> steady_post_processor(#[trigger] steps[i])
                    || steady_post_processor(#[trigger] steps[j])
        },
        None => false,
    }
}

fn is_sound_post_processor(part: &Json, owner: Owner) -> (r: bool)
    ensures
        r == sound_post_processor(*part, owner),
{
    if let Json::Null = part {
        return true;
    }
    if is_steady_post_processor(part) || is_sound_template(part, owner) {
        return true;
    }
    if !is_kind(part, "Sequence") {
        return false;
    }
    match listed(part, "processors") {
        None => false,
        Some(steps) => {
            if steps.len() > MOST_PIECES {
                return false;
            }
            let mut template: Option<usize> = None;
            let mut i: usize = 0;
            while i < steps.len()
                invariant
                    i <= steps@.len() <= MOST_PIECES,
                    !(part is Null),
                    !steady_post_processor(*part),
                    !sound_template(*part, owner),
                    list_under(*part, "processors"@) == Some(steps@),
                    match template {
                        Some(at) => at < i && !steady_post_processor(steps@[at as int]),
                        None => true,
                    },
                    forall|j: int|
                        0 <= j < i ==> template == Some(j as usize) || steady_post_processor(
                            #[trigger] steps@[j],
                        ),
                    forall|j: int|
                        0 <= j < i ==> steady_post_processor(#[trigger] steps@[j])
                            || sound_template(steps@[j], owner),
                decreases steps@.len() - i,
            {
                if !is_steady_post_processor(&steps[i]) {
                    if template.is_some() || !is_sound_template(&steps[i], owner) {
                        return false;
                    }
                    template = Some(i);
                }
                i += 1;
            }
            true
        },
    }
}

/// Added tokens of which none takes the blanks before it where one takes those behind
/// it.
pub open spec fn sound_added_tokens(part: Json) -> bool {
    match part {
        Json::List(tokens) => forall|i: int, j: int|
            0 <= i < tokens@.len() && 0 <= j < tokens@.len() ==> !(set_under(
                #[trigger] tokens@[i],
                "lstrip"@,
            ) && set_under(#[trigger] tokens@[j], "rstrip"@)),
        _ => false,
    }
}

fn are_sound_added_tokens(part: &Json) -> (r: bool)
    ensures
        r == sound_added_tokens(*part),
{
    match part {
        Json::List(tokens) => {
            let mut left: Option<usize> = None;
            let mut right: Option<usize> = None;
            let mut i: usize = 0;
            while i < tokens.len()
                invariant
                    i <= tokens@.len(),
                    *part == Json::List(*tokens),
                    match left {
                        Some(at) => at < i && set_under(tokens@[at as int], "lstrip"@),
                        None => forall|j: int|
                            0 <= j < i ==> !set_under(#[trigger] tokens@[j], "lstrip"@),
                    },
                    match right {
                        Some(at) => at < i && set_under(tokens@[at as int], "rstrip"@),
                        None => forall|j: int|
                            0 <= j < i ==> !set_under(#[trigger] tokens@[j], "rstrip"@),
                    },
                decreases tokens@.len() - i,
            {
                if is_set(&tokens[i], "lstrip") {
                    left = Some(i);
                }
                if is_set(&tokens[i], "rstrip") {
                    right = Some(i);
                }
                i += 1;
            }
            left.is_none() || right.is_none()
        },
        _ => false,
    }
}

/// The room that is kept for special tokens: as many as a sound post-processor can put
/// round an input.
pub const SPECIAL_ROOM: u64 = 64;

/// Truncation whose stride is below the length that is left for an input.
pub open spec fn sound_truncation(part: Json, owner: Owner) -> bool {
    ||| part is Null
    ||| match (number_under(part, "max_length"@), number_under(part, "stride"@)) {
        (Some(length), Some(stride)) => match owner {
            Owner::Library => length == 0 || stride < length,
            Owner::Onnx => stride + SPECIAL_ROOM < length,
        },
        _ => false,
    }
}

fn is_sound_truncation(part: &Json, owner: Owner) -> (r: bool)
    ensures
        r == sound_truncation(*part, owner),
{
    if let Json::Null = part {
        return true;
    }
    match (number(part, "max_length"), number(part, "stride")) {
        (Some(length), Some(stride)) => match owner {
            Owner::Library => length == 0 || stride < length,
            Owner::Onnx => length > SPECIAL_ROOM && stride < length - SPECIAL_ROOM,
        },
        _ => false,
    }
}

/// The most tokens that an input is filled up to or by.
pub const MOST_PADDING: u64 = 1_048_576;

/// A length that inputs can be filled up to or by: within measure, and no more than
/// they are cut to, since what is cut off is filled up too.
pub open spec fn fills_up(length: u64, truncation: Json) -> bool {
    length <= MOST_PADDING && (truncation is Null || (number_under(
        truncation,
        "max_length"@,
    ) matches Some(cut) && length <= cut))
}

fn does_fill_up(length: u64, truncation: &Json) -> (r: bool)
    ensures
        r == fills_up(length, *truncation),
{
    if length > MOST_PADDING {
        return false;
    }
    if let Json::Null = truncation {
        return true;
    }
    match number(truncation, "max_length") {
        Some(cut) => length <= cut,
        None => false,
    }
}

/// Padding that stays within measure.
pub open spec fn sound_padding(part: Json, truncation: Json) -> bool {
    ||| part is Null
    ||| {
        &&& match part.field("strategy"@) {
            Some(Json::Text(strategy)) => strategy@ == "BatchLongest"@,
            Some(strategy) => number_under(strategy, "Fixed"@) matches Some(n) && fills_up(
                n,
                truncation,
            ),
            None => false,
        }
        &&& match part.field("pad_to_multiple_of"@) {
            Some(Json::Null) => true,
            Some(Json::Whole(n)) => fills_up(n, truncation),
            _ => false,
        }
    }
}

fn is_sound_padding(part: &Json, truncation: &Json) -> (r: bool)
    ensures
        r == sound_padding(*part, *truncation),
{
    if let Json::Null = part {
        return true;
    }
    let strategy = match part.get("strategy") {
        Some(Json::Text(strategy)) => same(strategy.as_str(), "BatchLongest"),
        Some(strategy) => match number(strategy, "Fixed") {
            Some(n) => does_fill_up(n, truncation),
            None => false,
        },
        None => false,
    };
    let multiple = match part.get("pad_to_multiple_of") {
        Some(Json::Null) => true,
        Some(Json::Whole(n)) => does_fill_up(*n, truncation),
        _ => false,
    };
    strategy && multiple
}

/// What keeps a tokenizer with these parts from being used.
pub open spec fn parts_fault(parts: Option<TokenizerParts>, owner: Owner) -> Option<
    TokenizerFault,
> {
    match parts {
        None => Some(TokenizerFault::Unreadable),
        Some(parts) => if !sound_normalizer(parts.normalizer, owner) {
            Some(TokenizerFault::Normalizer)
        } else if !sound_pre_tokenizer(parts.pre_tokenizer, owner) {
            Some(TokenizerFault::PreTokenizer)
        } else if !sound_post_processor(parts.post_processor, owner) {
            Some(TokenizerFault::PostProcessor)
        } else if !sound_added_tokens(parts.added_tokens) {
            Some(TokenizerFault::AddedTokens)
        } else if !sound_truncation(parts.truncation, owner) {
            Some(TokenizerFault::Truncation)
        } else if !sound_padding(parts.padding, parts.truncation) {
            Some(TokenizerFault::Padding)
        } else {
            None
        },
    }
}

/// What keeps a tokenizer with these parts from being used.
pub fn check_parts(parts: &Option<TokenizerParts>, owner: Owner) -> (r: Option<TokenizerFault>)
    ensures
        r == parts_fault(*parts, owner),
{
    match parts {
        None => Some(TokenizerFault::Unreadable),
        Some(parts) => if !is_sound_normalizer(&parts.normalizer, owner) {
            Some(TokenizerFault::Normalizer)
        } else if !is_sound_pre_tokenizer(&parts.pre_tokenizer, owner) {
            Some(TokenizerFault::PreTokenizer)
        } else if !is_sound_post_processor(&parts.post_processor, owner) {
            Some(TokenizerFault::PostProcessor)
        } else if !are_sound_added_tokens(&parts.added_tokens) {
            Some(TokenizerFault::AddedTokens)
        } else if !is_sound_truncation(&parts.truncation, owner) {
            Some(TokenizerFault::Truncation)
        } else if !is_sound_padding(&parts.padding, &parts.truncation) {
            Some(TokenizerFault::Padding)
        } else {
            None
        },
    }
}

/// The parts of a tokenizer that no longer cuts long inputs.
pub open spec fn without_truncation(parts: TokenizerParts) -> TokenizerParts {
    TokenizerParts { truncation: Json::Null, ..parts }
}

/// A tokenizer that can be used can be used without its truncation too.
pub proof fn truncation_can_go(parts: TokenizerParts, owner: Owner)
    requires
        parts_fault(Some(parts), owner) is None,
    ensures
        parts_fault(Some(without_truncation(parts)), owner) is None,
{
}

/// How words are cut, where special tokens stand and how inputs are cut may be relied on in
/// a model that is fed with ids wherever it may be in one that is not.
pub proof fn what_a_loaded_model_may_do_a_fed_one_may(parts: TokenizerParts)
    ensures
        sound_pre_tokenizer(parts.pre_tokenizer, Owner::Onnx) ==> sound_pre_tokenizer(
            parts.pre_tokenizer,
            Owner::Library,
        ),
        sound_truncation(parts.truncation, Owner::Onnx) ==> sound_truncation(
            parts.truncation,
            Owner::Library,
        ),
{
    if sound_pre_tokenizer(parts.pre_tokenizer, Owner::Onnx) {
        let part = parts.pre_tokenizer;
        if !(part is Null) && !steady_pre_tokenizer(part, Owner::Onnx) {
            let steps = list_under(part, "pretokenizers"@)->0;
            assert forall|i: int| 0 <= i < steps.len() implies steady_pre_tokenizer(
                #[trigger] steps[i],
                Owner::Library,
            ) by {
                assert(steady_pre_tokenizer(steps[i], Owner::Onnx));
            }
        }
    }
}

/// A tokenizer is relied on only where each of its parts may be.
pub proof fn a_sound_tokenizer_is_sound_in_every_part(parts: TokenizerParts, owner: Owner)
    ensures
        parts_fault(Some(parts), owner) is None <==> sound_normalizer(parts.normalizer, owner)
            && sound_pre_tokenizer(parts.pre_tokenizer, owner) && sound_post_processor(
            parts.post_processor,
            owner,
        ) && sound_added_tokens(parts.added_tokens) && sound_truncation(parts.truncation, owner)
            && sound_padding(parts.padding, parts.truncation),
        parts_fault(None, owner) is Some,
{
}

/// Inputs are filled up to no more than they are cut to, and inputs that are cut leave room
/// beside the stride.
pub proof fn filling_up_stays_within_what_is_cut(parts: TokenizerParts, owner: Owner, fixed: u64)
    requires
        parts_fault(Some(parts), owner) is None,
    ensures
        parts.padding.field("strategy"@) matches Some(strategy) ==> (!(parts.padding is Null)
            && !(strategy is Text) && number_under(strategy, "Fixed"@) == Some(fixed) ==> fixed
            <= MOST_PADDING && (number_under(parts.truncation, "max_length"@) matches Some(cut)
            ==> (!(parts.truncation is Null) ==> fixed <= cut))),
        !(parts.truncation is Null) && owner is Onnx ==> number_under(
            parts.truncation,
            "stride"@,
        )->0 < number_under(parts.truncation, "max_length"@)->0,
{
}

/// A model that is fed with ids is not relied on to normalize as BERT does, and a loaded one
/// is not relied on to split by patterns.
pub proof fn each_owner_is_relied_on_for_its_own(part: Json)
    ensures
        of_kind(part, "BertNormalizer"@) ==> sound_normalizer(part, Owner::Onnx)
            && !sound_normalizer(part, Owner::Library),
        of_kind(part, "Split"@) ==> !sound_pre_tokenizer(part, Owner::Onnx),
        of_kind(part, "ByteLevel"@) && part.field("use_regex"@) != Some(Json::Bool(false))
            ==> !sound_pre_tokenizer(part, Owner::Onnx),
        of_kind(part, "ByteLevel"@) ==> sound_pre_tokenizer(part, Owner::Library),
{
    reveal_strlit("NFC");
    reveal_strlit("NFD");
    reveal_strlit("NFKC");
    reveal_strlit("NFKD");
    reveal_strlit("Lowercase");
    reveal_strlit("BertNormalizer");
    reveal_strlit("Sequence");
    reveal_strlit("BertPreTokenizer");
    reveal_strlit("Whitespace");
    reveal_strlit("WhitespaceSplit");
    reveal_strlit("Metaspace");
    reveal_strlit("Punctuation");
    reveal_strlit("Digits");
    reveal_strlit("CharDelimiterSplit");
    reveal_strlit("UnicodeScripts");
    reveal_strlit("FixedLength");
    reveal_strlit("ByteLevel");
    reveal_strlit("Split");
    assert("BertNormalizer"@.len() == 14 && "NFC"@.len() == 3 && "NFD"@.len() == 3);
    assert("NFKC"@.len() == 4 && "NFKD"@.len() == 4 && "Lowercase"@.len() == 9);
    assert("Sequence"@.len() == 8 && "BertPreTokenizer"@.len() == 16);
    assert("Whitespace"@.len() == 10 && "WhitespaceSplit"@.len() == 15);
    assert("Metaspace"@.len() == 9 && "Metaspace"@[0] == 'M');
    assert("Punctuation"@.len() == 11 && "Digits"@.len() == 6);
    assert("CharDelimiterSplit"@.len() == 18 && "UnicodeScripts"@.len() == 14);
    assert("FixedLength"@.len() == 11 && "ByteLevel"@.len() == 9 && "ByteLevel"@[0] == 'B');
    assert("Split"@.len() == 5);
}

} // verus!
