//! Token counts for ONNX models, out of the tokenizer that a loaded model holds.
use crate::embedding::parts::{check_parts, parts_fault, Owner, TokenizerFault, TokenizerParts};
use crate::embedding::tokenize::outcome;
use crate::json::{plain, Json};
use crate::text::{chars_of, starts_with};
use fastembed::TextEmbedding;
use vstd::prelude::*;
use vstd::string::*;

verus! {

/// `fastembed::TextEmbedding`: an ONNX model that was loaded, with its tokenizer.
#[verifier::external_type_specification]
#[verifier::external_body]
pub struct ExTextEmbedding(TextEmbedding);

/// What the tokenizer of a loaded model is made of.
pub struct OnnxParts {
    /// What stands before and behind the search for tokens.
    pub tokenizer: TokenizerParts,
    /// The added tokens by their spelling, with their ids.
    pub spellings: Json,
    /// What finds the tokens of a word, as it describes itself.
    pub model: String,
}

/// What the tokenizer of a loaded model is made of, where its parts can be written.
pub uninterp spec fn onnx_parts(model: TextEmbedding) -> Option<OnnxParts>;

/// `serde_json::to_value` on the parts that the model's tokenizer hands out by
/// `get_normalizer`, `get_pre_tokenizer`, `get_post_processor`, `get_added_vocabulary`,
/// `get_truncation` and `get_padding`, and on the vocabulary of the added tokens, and the
/// text that `Debug` writes of what `get_model` hands out: what the tokenizer is made of,
/// each part with its kind.
#[verifier::external_body]
fn describe_onnx(model: &TextEmbedding) -> (r: Option<OnnxParts>)
    ensures
        r == onnx_parts(*model),
{
    let own = &model.tokenizer;
    let tokenizer = TokenizerParts {
        normalizer: plain(serde_json::to_value(own.get_normalizer()).ok()?),
        pre_tokenizer: plain(serde_json::to_value(own.get_pre_tokenizer()).ok()?),
        post_processor: plain(serde_json::to_value(own.get_post_processor()).ok()?),
        added_tokens: plain(serde_json::to_value(own.get_added_vocabulary()).ok()?),
        truncation: plain(serde_json::to_value(own.get_truncation()).ok()?),
        padding: plain(serde_json::to_value(own.get_padding()).ok()?),
    };
    let spellings = plain(serde_json::to_value(&**own.get_added_vocabulary().get_vocab()).ok()?);
    Some(OnnxParts { tokenizer, spellings, model: format!("{:?}", own.get_model()) })
}

/// A search for tokens that takes every word and rests on no weights: by merges, by
/// pieces of words, or by whole words.
pub open spec fn sound_model(model: Seq<char>) -> bool {
    "BPE("@.is_prefix_of(model) || "WordPiece("@.is_prefix_of(model) || "WordLevel("@.is_prefix_of(
        model,
    )
}

/// A character that every normalizer that is relied on leaves in its place, at most in
/// lower case: those of ASCII that leave a mark.
pub open spec fn marks(c: char) -> bool {
    '!' <= c <= '~'
}

/// A text of which a normalizer leaves something.
pub open spec fn leaves_a_mark(text: Seq<char>) -> bool {
    exists|i: int| 0 <= i < text.len() && marks(#[trigger] text[i])
}

fn is_marked(text: &str) -> (r: bool)
    ensures
        r == leaves_a_mark(text@),
{
    let chars = chars_of(text);
    let mut i: usize = 0;
    while i < chars.len()
        invariant
            i <= chars@.len(),
            chars@ == text@,
            forall|j: int| 0 <= j < i ==> !marks(#[trigger] text@[j]),
        decreases chars@.len() - i,
    {
        if '!' <= chars[i] && chars[i] <= '~' {
            assert(marks(text@[i as int]));
            return true;
        }
        i += 1;
    }
    false
}

/// Spellings of each of which a normalizer leaves something.
pub open spec fn sound_spellings(spellings: Json) -> bool {
    match spellings {
        Json::Object(members) => forall|i: int|
            0 <= i < members@.len() ==> leaves_a_mark((#[trigger] members@[i]).0@),
        _ => false,
    }
}

fn are_sound_spellings(spellings: &Json) -> (r: bool)
    ensures
        r == sound_spellings(*spellings),
{
    match spellings {
        Json::Object(members) => {
            let mut i: usize = 0;
            while i < members.len()
                invariant
                    i <= members@.len(),
                    *spellings == Json::Object(*members),
                    forall|j: int| 0 <= j < i ==> leaves_a_mark((#[trigger] members@[j]).0@),
                decreases members@.len() - i,
            {
                if !is_marked(members[i].0.as_str()) {
                    assert(!leaves_a_mark((*spellings)->Object_0@[i as int].0@));
                    return false;
                }
                i += 1;
            }
            true
        },
        _ => false,
    }
}

/// What keeps the tokens of a loaded model from being counted.
pub open spec fn onnx_fault(described: Option<OnnxParts>) -> Option<TokenizerFault> {
    match described {
        None => Some(TokenizerFault::Unreadable),
        Some(described) => match parts_fault(Some(described.tokenizer), Owner::Onnx) {
            Some(fault) => Some(fault),
            None => if !sound_spellings(described.spellings) {
                Some(TokenizerFault::AddedTokens)
            } else if !sound_model(described.model@) {
                Some(TokenizerFault::Model)
            } else {
                None
            },
        },
    }
}

/// What keeps the tokens of a loaded model from being counted.
pub fn check_onnx_parts(described: Option<OnnxParts>) -> (r: Option<TokenizerFault>)
    ensures
        r == onnx_fault(described),
{
    match described {
        None => Some(TokenizerFault::Unreadable),
        Some(described) => {
            let model = described.model;
            let spellings = described.spellings;
            let tokenizer = Some(described.tokenizer);
            match check_parts(&tokenizer, Owner::Onnx) {
                Some(fault) => Some(fault),
                None => if !are_sound_spellings(&spellings) {
                    Some(TokenizerFault::AddedTokens)
                } else if starts_with(model.as_str(), "BPE(") || starts_with(
                    model.as_str(),
                    "WordPiece(",
                ) || starts_with(model.as_str(), "WordLevel(") {
                    None
                } else {
                    Some(TokenizerFault::Model)
                },
            }
        },
    }
}

/// What tokenizing a text for a loaded model can give. A tokenizer whose model drops
/// merges at random can give more than one thing.
pub uninterp spec fn onnx_encodings(model: TextEmbedding, text: Seq<char>) -> Set<
    Result<Seq<u32>, Seq<char>>,
>;

/// What tokenizing a text for a loaded model can give where long texts are not cut.
pub uninterp spec fn uncut_onnx_encodings(model: TextEmbedding, text: Seq<char>) -> Set<
    Result<Seq<u32>, Seq<char>>,
>;

/// `Tokenizer::encode` with special tokens, on the tokenizer of a loaded model: the ids
/// of a text's tokens, or what went wrong; one of the things that the tokenizer can give
/// for the text. Which ids a text has is left unsaid: it rests on what the tokenizer
/// holds. Left out is what the call can panic on: normalizers that can empty an added
/// token or put text in front of all, damaged character maps, words of no length,
/// patterns that cannot be followed to their end, tokens that are drawn by weight,
/// templates that ask for a second text, meet more than two, have the text more than
/// once or name a token that they do not know, added tokens that take blanks from both sides, a length to cut to that
/// leaves no room beside the stride and the special tokens, and filling up beyond all
/// memory. A template adds the tokens that it names, as each that was read does.
#[verifier::external_body]
fn encode_onnx(model: &TextEmbedding, text: &str) -> (r: Result<Vec<u32>, String>)
    requires
        onnx_fault(onnx_parts(*model)) is None,
    ensures
        onnx_encodings(*model, text@).contains(outcome(r)),
{
    match model.tokenizer.encode(text, true) {
        Ok(encoding) => Ok(encoding.get_ids().to_vec()),
        Err(error) => Err(error.to_string()),
    }
}

/// `Tokenizer::clone` on the tokenizer of a loaded model, `Tokenizer::with_truncation`
/// without parameters on the copy, and `Tokenizer::encode` with special tokens on it:
/// the ids of all of a text's tokens, or what went wrong. What is said of cutting and of
/// panics is said with `encode_onnx`.
#[verifier::external_body]
fn encode_onnx_uncut(model: &TextEmbedding, text: &str) -> (r: Result<Vec<u32>, String>)
    requires
        onnx_fault(onnx_parts(*model)) is None,
    ensures
        uncut_onnx_encodings(*model, text@).contains(outcome(r)),
{
    let mut copy = model.tokenizer.clone();
    let _ = copy.with_truncation(None);
    match copy.encode(text, true) {
        Ok(encoding) => Ok(encoding.get_ids().to_vec()),
        Err(error) => Err(error.to_string()),
    }
}

/// The number of tokens, with what tokenizing a text gave.
pub open spec fn count_of(tokens: Result<Seq<u32>, Seq<char>>) -> Option<nat> {
    match tokens {
        Ok(ids) => Some(ids.len()),
        Err(_) => None,
    }
}

/// The number of tokens, with what tokenizing a text gave.
pub fn finish_count(tokens: Result<Vec<u32>, String>) -> (r: Option<usize>)
    ensures
        match r {
            Some(count) => count_of(outcome(tokens)) == Some(count as nat),
            None => count_of(outcome(tokens)) is None,
        },
{
    match tokens {
        Ok(ids) => Some(ids.len()),
        Err(_) => None,
    }
}

/// The number of tokens that a loaded model reads of a text, special tokens among them.
/// The tokenizer cuts long texts, so the count is within its limit. There is none where
/// the text cannot be tokenized, or the tokenizer does not take every text.
pub fn count_onnx_tokens(model: &TextEmbedding, text: &str) -> (r: Option<usize>)
    ensures
        if onnx_fault(onnx_parts(*model)) is Some {
            r is None
        } else {
            exists|tokens: Result<Seq<u32>, Seq<char>>| #[trigger]
                onnx_encodings(*model, text@).contains(tokens) && match r {
                    Some(count) => count_of(tokens) == Some(count as nat),
                    None => count_of(tokens) is None,
                }
        },
{
    if check_onnx_parts(describe_onnx(model)).is_some() {
        return None;
    }
    let tokens = encode_onnx(model, text);
    let ghost given = outcome(tokens);
    assert(onnx_encodings(*model, text@).contains(given));
    finish_count(tokens)
}

/// The number of a text's tokens for a loaded model, special tokens among them, with
/// truncation disabled. There is none where the text cannot be tokenized, or the
/// tokenizer does not take every text.
pub fn count_onnx_tokens_untruncated(model: &TextEmbedding, text: &str) -> (r: Option<usize>)
    ensures
        if onnx_fault(onnx_parts(*model)) is Some {
            r is None
        } else {
            exists|tokens: Result<Seq<u32>, Seq<char>>| #[trigger]
                uncut_onnx_encodings(*model, text@).contains(tokens) && match r {
                    Some(count) => count_of(tokens) == Some(count as nat),
                    None => count_of(tokens) is None,
                }
        },
{
    if check_onnx_parts(describe_onnx(model)).is_some() {
        return None;
    }
    let tokens = encode_onnx_uncut(model, text);
    let ghost given = outcome(tokens);
    assert(uncut_onnx_encodings(*model, text@).contains(given));
    finish_count(tokens)
}

/// A loaded model is relied on only where its tokenizer is sound, its added tokens leave a
/// mark and it finds tokens in one of the ways that are known.
pub proof fn a_sound_model_is_sound_in_every_part(described: OnnxParts)
    ensures
        onnx_fault(Some(described)) is None <==> parts_fault(
            Some(described.tokenizer),
            Owner::Onnx,
        ) is None && sound_spellings(described.spellings) && sound_model(described.model@),
        onnx_fault(None) is Some,
{
}

/// An added token that is relied on has a visible character.
pub proof fn added_tokens_are_visible(described: OnnxParts, i: int)
    requires
        onnx_fault(Some(described)) is None,
        described.spellings is Object,
        0 <= i < described.spellings->Object_0@.len(),
    ensures
        exists|k: int|
            0 <= k < described.spellings->Object_0@[i].0@.len() && '!'
                <= #[trigger] described.spellings->Object_0@[i].0@[k] <= '~',
{
    let members = described.spellings->Object_0@;
    let text = members[i].0@;
    assert(sound_spellings(described.spellings));
    assert(leaves_a_mark(members[i].0@));
    let k = choose|k: int| 0 <= k < text.len() && marks(#[trigger] text[k]);
    assert('!' <= text[k] <= '~');
}

} // verus!
