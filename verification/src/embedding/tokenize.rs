//! Token ids for a model, out of its own tokenizer.
use crate::embedding::backend::{head, input_ids, judged_text, judgement_ids, judgement_text};
use crate::embedding::parts::{
    check_parts, parts_fault, truncation_can_go, without_truncation, Owner, TokenizerFault,
    TokenizerParts,
};
use crate::embedding::resolve::ModelRef;
use crate::json::{plain, Json};
use crate::text::concat;
use tokenizers::Tokenizer;
use vstd::prelude::*;
use vstd::string::*;

verus! {

/// `tokenizers::Tokenizer`: a tokenizer that was read from a model's files.
#[verifier::external_type_specification]
#[verifier::external_body]
pub struct ExTokenizer(Tokenizer);

/// What a tokenizer is made of, where its parts can be written.
pub uninterp spec fn parts(tokenizer: Tokenizer) -> Option<TokenizerParts>;

/// `serde_json::to_value` on the parts that `Tokenizer::get_normalizer`,
/// `get_pre_tokenizer`, `get_post_processor`, `get_added_vocabulary`, `get_truncation`
/// and `get_padding` hand out: what the tokenizer is made of, each part with its kind.
#[verifier::external_body]
fn describe(tokenizer: &Tokenizer) -> (r: Option<TokenizerParts>)
    ensures
        r == parts(*tokenizer),
{
    Some(TokenizerParts {
        normalizer: plain(serde_json::to_value(tokenizer.get_normalizer()).ok()?),
        pre_tokenizer: plain(serde_json::to_value(tokenizer.get_pre_tokenizer()).ok()?),
        post_processor: plain(serde_json::to_value(tokenizer.get_post_processor()).ok()?),
        added_tokens: plain(serde_json::to_value(tokenizer.get_added_vocabulary()).ok()?),
        truncation: plain(serde_json::to_value(tokenizer.get_truncation()).ok()?),
        padding: plain(serde_json::to_value(tokenizer.get_padding()).ok()?),
    })
}

/// The tokenizer without its truncation.
pub uninterp spec fn untruncated(tokenizer: Tokenizer) -> Tokenizer;

/// `Tokenizer::clone`: the same tokenizer once more.
#[verifier::external_body]
fn copy(tokenizer: &Tokenizer) -> (r: Tokenizer)
    ensures
        r == *tokenizer,
{
    tokenizer.clone()
}

/// `Tokenizer::with_truncation` without parameters: long inputs are no longer cut. The
/// other parts stay.
#[verifier::external_body]
fn clear_truncation(tokenizer: &mut Tokenizer)
    ensures
        *final(tokenizer) == untruncated(*old(tokenizer)),
        parts(*old(tokenizer)) matches Some(whole) ==> parts(*final(tokenizer)) == Some(
            without_truncation(whole),
        ),
{
    let _ = tokenizer.with_truncation(None);
}

/// The tokenizer that cuts no input: the tokenizer itself, where it cuts none.
pub open spec fn uncut(tokenizer: Tokenizer) -> Tokenizer {
    if parts(tokenizer) matches Some(own) && own.truncation is Null {
        tokenizer
    } else {
        untruncated(tokenizer)
    }
}

/// What keeps a tokenizer from being used.
pub open spec fn tokenizer_fault(tokenizer: Tokenizer) -> Option<TokenizerFault> {
    parts_fault(parts(tokenizer), Owner::Library)
}

/// A model's tokenizer, as its files have it, that takes every text.
pub struct ModelTokenizer {
    tokenizer: Tokenizer,
    whole: Option<Tokenizer>,
}

impl View for ModelTokenizer {
    type V = Tokenizer;

    closed spec fn view(&self) -> Tokenizer {
        self.tokenizer
    }
}

impl ModelTokenizer {
    #[verifier::type_invariant]
    spec fn takes_every_text(self) -> bool {
        &&& tokenizer_fault(self.tokenizer) is None
        &&& match self.whole {
            Some(whole) => whole == uncut(self.tokenizer) && tokenizer_fault(whole) is None,
            None => self.tokenizer == uncut(self.tokenizer),
        }
    }

    /// The tokenizer as it was read from a model's files.
    pub fn new(tokenizer: Tokenizer) -> (r: Result<Self, TokenizerFault>)
        ensures
            match r {
                Ok(own) => own@ == tokenizer && tokenizer_fault(tokenizer) is None,
                Err(fault) => tokenizer_fault(tokenizer) == Some(fault),
            },
    {
        let described = describe(&tokenizer);
        if let Some(fault) = check_parts(&described, Owner::Library) {
            return Err(fault);
        }
        let whole = match &described {
            Some(own) => match own.truncation {
                Json::Null => None,
                _ => {
                    proof {
                        truncation_can_go(*own, Owner::Library);
                    }
                    let mut whole = copy(&tokenizer);
                    clear_truncation(&mut whole);
                    Some(whole)
                },
            },
            None => None,
        };
        Ok(Self { tokenizer, whole })
    }

    /// The ids of a text's tokens, or what went wrong.
    fn tokens(&self, text: &str) -> (r: Result<Vec<u32>, String>)
        ensures
            encodings(self@, text@).contains(outcome(r)),
    {
        proof {
            use_type_invariant(self);
        }
        encode(&self.tokenizer, text)
    }

    /// The ids of a text's tokens where none is cut off, or what went wrong.
    fn all_tokens(&self, text: &str) -> (r: Result<Vec<u32>, String>)
        ensures
            encodings(uncut(self@), text@).contains(outcome(r)),
    {
        proof {
            use_type_invariant(self);
        }
        match &self.whole {
            Some(whole) => encode(whole, text),
            None => encode(&self.tokenizer, text),
        }
    }

    /// The id of a token, where it is known.
    fn id_of(&self, token: &str) -> (r: Option<u32>)
        ensures
            r == known_id(self@, token@),
    {
        token_id(&self.tokenizer, token)
    }
}

/// What tokenizing a text gives: the ids of its tokens, or what went wrong.
pub open spec fn outcome(tokens: Result<Vec<u32>, String>) -> Result<Seq<u32>, Seq<char>> {
    match tokens {
        Ok(ids) => Ok(ids@),
        Err(error) => Err(error@),
    }
}

/// What tokenizing a text can give. A tokenizer whose model drops merges at random can
/// give more than one thing.
pub uninterp spec fn encodings(tokenizer: Tokenizer, text: Seq<char>) -> Set<
    Result<Seq<u32>, Seq<char>>,
>;

/// `Tokenizer::encode` without special tokens: the ids of a text's tokens, or what went
/// wrong; one of the things that the tokenizer can give for the text. Which ids a text
/// has is left unsaid: it rests on what the tokenizer holds. Left out is what the call
/// can panic on: normalizers that can empty an added token or put text in front of
/// all, damaged character maps, words of no length, patterns whose finds end before
/// they begin, templates that ask for a second text, meet more than two or have the text
/// more than once, added tokens that take blanks from both sides, a stride that is not below the length that texts
/// are cut to, and filling up beyond all memory.
#[verifier::external_body]
fn encode(tokenizer: &Tokenizer, text: &str) -> (r: Result<Vec<u32>, String>)
    requires
        tokenizer_fault(*tokenizer) is None,
    ensures
        encodings(*tokenizer, text@).contains(outcome(r)),
{
    match tokenizer.encode(text, false) {
        Ok(encoding) => Ok(encoding.get_ids().to_vec()),
        Err(error) => Err(error.to_string()),
    }
}

/// The tokens that a tokenizer knows, with their ids.
pub uninterp spec fn vocabulary(tokenizer: Tokenizer) -> Map<Seq<char>, u32>;

/// The id of a token, where the tokenizer knows it.
pub open spec fn known_id(tokenizer: Tokenizer, token: Seq<char>) -> Option<u32> {
    if vocabulary(tokenizer).contains_key(token) {
        Some(vocabulary(tokenizer)[token])
    } else {
        None
    }
}

/// `Tokenizer::token_to_id`: the id of a token, where it is one of those that the
/// tokenizer knows.
#[verifier::external_body]
fn token_id(tokenizer: &Tokenizer, token: &str) -> (r: Option<u32>)
    ensures
        match r {
            Some(id) => vocabulary(*tokenizer).contains_pair(token@, id),
            None => !vocabulary(*tokenizer).contains_key(token@),
        },
{
    tokenizer.token_to_id(token)
}

/// The ids that a model reads of an input's tokens.
pub open spec fn model_ids(
    tokens: Seq<u32>,
    max_sequence_length: usize,
    terminal: Option<u32>,
) -> Seq<u32> {
    let kept = head(
        tokens,
        if max_sequence_length >= 2 {
            max_sequence_length - 1
        } else {
            1
        },
    );
    match terminal {
        Some(id) => kept.push(id),
        None => kept,
    }
}

/// What one rendered input comes to, with what tokenizing it gave.
pub open spec fn input_result(
    tokens: Result<Seq<u32>, Seq<char>>,
    max_sequence_length: usize,
    terminal: Option<u32>,
) -> Result<Seq<u32>, Seq<char>> {
    match tokens {
        Err(error) => Err("tokenizing input: "@ + error),
        Ok(tokens) => if model_ids(tokens, max_sequence_length, terminal).len() == 0 {
            Err("input tokenized to zero tokens"@)
        } else {
            Ok(model_ids(tokens, max_sequence_length, terminal))
        },
    }
}

/// What one rendered input comes to, with what tokenizing it gave.
pub fn finish_input(
    tokens: Result<Vec<u32>, String>,
    max_sequence_length: usize,
    terminal: Option<u32>,
) -> (r: Result<Vec<u32>, String>)
    ensures
        outcome(r) == input_result(outcome(tokens), max_sequence_length, terminal),
{
    match tokens {
        Err(error) => Err(concat("tokenizing input: ", error.as_str())),
        Ok(tokens) => match input_ids(&tokens, max_sequence_length, terminal) {
            Some(ids) => Ok(ids),
            None => Err("input tokenized to zero tokens".to_owned()),
        },
    }
}

/// The ids that a model reads of a rendered input.
pub fn model_input(
    tokenizer: &ModelTokenizer,
    text: &str,
    max_sequence_length: usize,
    terminal: Option<u32>,
) -> (r: Result<Vec<u32>, String>)
    ensures
        exists|tokens: Result<Seq<u32>, Seq<char>>| #[trigger]
            encodings(tokenizer@, text@).contains(tokens) && outcome(r) == input_result(
                tokens,
                max_sequence_length,
                terminal,
            ),
{
    let tokens = tokenizer.tokens(text);
    let ghost given = outcome(tokens);
    let ids = finish_input(tokens, max_sequence_length, terminal);
    assert(encodings(tokenizer@, text@).contains(given));
    ids
}

/// The number of tokens that a model reads of an input, its terminal token among them.
pub open spec fn read_tokens(tokens: nat, max_sequence_length: usize) -> nat {
    if tokens < max_sequence_length {
        tokens + 1
    } else {
        max_sequence_length as nat
    }
}

/// The number of tokens that a model reads of an input, its terminal token among them.
pub fn counted_tokens(tokens: usize, max_sequence_length: usize) -> (r: usize)
    ensures
        r == read_tokens(tokens as nat, max_sequence_length),
{
    if tokens < max_sequence_length {
        tokens + 1
    } else {
        max_sequence_length
    }
}

/// The number of tokens that a model reads of a text, where it can be tokenized.
pub fn count_tokens(
    tokenizer: &ModelTokenizer,
    text: &str,
    max_sequence_length: usize,
) -> (r: Option<usize>)
    ensures
        exists|tokens: Result<Seq<u32>, Seq<char>>| #[trigger]
            encodings(tokenizer@, text@).contains(tokens) && match tokens {
                Ok(ids) => r matches Some(count) && count == read_tokens(
                    ids.len(),
                    max_sequence_length,
                ),
                Err(_) => r is None,
            },
{
    let tokens = tokenizer.tokens(text);
    assert(encodings(tokenizer@, text@).contains(outcome(tokens)));
    match tokens {
        Ok(tokens) => Some(counted_tokens(tokens.len(), max_sequence_length)),
        Err(_) => None,
    }
}

/// The number of tokens of a text without any limit, its terminal token among them,
/// where it can be tokenized and counted.
pub fn count_tokens_untruncated(tokenizer: &ModelTokenizer, text: &str) -> (r: Option<usize>)
    ensures
        exists|tokens: Result<Seq<u32>, Seq<char>>| #[trigger]
            encodings(uncut(tokenizer@), text@).contains(tokens) && match tokens {
                Ok(ids) => if ids.len() < usize::MAX {
                    r matches Some(count) && count == ids.len() + 1
                } else {
                    r is None
                },
                Err(_) => r is None,
            },
{
    let tokens = tokenizer.all_tokens(text);
    assert(encodings(uncut(tokenizer@), text@).contains(outcome(tokens)));
    match tokens {
        Ok(tokens) => tokens.len().checked_add(1),
        Err(_) => None,
    }
}

/// The first of two tokens that is known.
pub fn first_known(first: Option<u32>, second: Option<u32>) -> (r: Option<u32>)
    ensures
        r == if first is Some {
            first
        } else {
            second
        },
{
    match first {
        Some(id) => Some(id),
        None => second,
    }
}

/// The token that ends an input: `<|endoftext|>`, or else `</s>`, where the tokenizer
/// knows one of them.
pub fn terminal_token(tokenizer: &ModelTokenizer) -> (r: Option<u32>)
    ensures
        r == match known_id(tokenizer@, "<|endoftext|>"@) {
            Some(id) => Some(id),
            None => known_id(tokenizer@, "</s>"@),
        },
{
    first_known(tokenizer.id_of("<|endoftext|>"), tokenizer.id_of("</s>"))
}

/// The two tokens that a judgement chooses between.
pub fn answer_tokens(yes: Option<u32>, no: Option<u32>) -> (r: Result<(u32, u32), &'static str>)
    ensures
        match (yes, no) {
            (Some(yes), Some(no)) => r == Ok::<(u32, u32), &'static str>((yes, no)),
            (None, _) => r matches Err(message) && message@
                == "reranker tokenizer has no `yes` token"@,
            (Some(_), None) => r matches Err(message) && message@
                == "reranker tokenizer has no `no` token"@,
        },
{
    match (yes, no) {
        (Some(yes), Some(no)) => Ok((yes, no)),
        (None, _) => Err("reranker tokenizer has no `yes` token"),
        (Some(_), None) => Err("reranker tokenizer has no `no` token"),
    }
}

/// The two tokens that a judgement chooses between, as the tokenizer knows them.
pub fn judgement_tokens(tokenizer: &ModelTokenizer) -> (r: Result<(u32, u32), &'static str>)
    ensures
        match (known_id(tokenizer@, "yes"@), known_id(tokenizer@, "no"@)) {
            (Some(yes), Some(no)) => r == Ok::<(u32, u32), &'static str>((yes, no)),
            (None, _) => r matches Err(message) && message@
                == "reranker tokenizer has no `yes` token"@,
            (Some(_), None) => r matches Err(message) && message@
                == "reranker tokenizer has no `no` token"@,
        },
{
    answer_tokens(tokenizer.id_of("yes"), tokenizer.id_of("no"))
}

/// The instruction that every judgement begins with.
pub const SYSTEM_PROMPT: &'static str =
    "Judge whether the Document meets the requirements based on the Query and the Instruct provided. Note that the answer can only be \"yes\" or \"no\".";

/// The text before what is judged.
pub fn judgement_prefix() -> (r: String)
    ensures
        r@ == "<|im_start|>system\n"@ + SYSTEM_PROMPT@ + "<|im_end|>\n<|im_start|>user\n"@,
{
    let mut text = concat("<|im_start|>system\n", SYSTEM_PROMPT);
    text.append("<|im_end|>\n<|im_start|>user\n");
    text
}

/// The text after what is judged.
pub fn judgement_suffix() -> (r: &'static str)
    ensures
        r@ == "<|im_end|>\n<|im_start|>assistant\n<think>\n\n</think>\n\n"@,
{
    "<|im_end|>\n<|im_start|>assistant\n<think>\n\n</think>\n\n"
}

/// The ids of a fixed part of every judgement.
pub fn frame_ids(tokenizer: &ModelTokenizer, text: &str) -> (r: Result<Vec<u32>, String>)
    ensures
        exists|tokens: Result<Seq<u32>, Seq<char>>| #[trigger]
            encodings(tokenizer@, text@).contains(tokens) && outcome(r) == match tokens {
                Ok(ids) => Ok::<Seq<u32>, Seq<char>>(ids),
                Err(error) => Err("tokenizing: "@ + error),
            },
{
    let tokens = tokenizer.tokens(text);
    assert(encodings(tokenizer@, text@).contains(outcome(tokens)));
    match tokens {
        Ok(ids) => Ok(ids),
        Err(error) => Err(concat("tokenizing: ", error.as_str())),
    }
}

/// The most tokens that a judgement takes.
pub const JUDGEMENT_TOKENS: usize = 2048;

/// Identity of a reranker. Rerankers produce scores and no stored vectors, so this
/// decides nothing: it is recorded with results so that they can be reproduced.
#[derive(Debug)]
pub struct RerankerIdentity {
    pub model: String,
    pub revision: Option<String>,
    pub model_hash: Option<String>,
    pub max_sequence_length: usize,
}

/// The identity of the reranker that a reference names.
pub fn reranker_identity(reference: &ModelRef, model_hash: Option<String>) -> (r: RerankerIdentity)
    ensures
        r.model_hash == model_hash,
        r.max_sequence_length == JUDGEMENT_TOKENS,
        match reference {
            ModelRef::HuggingFace { repo, revision } => r.model@ == "hf:"@ + repo@ && (
            r.revision matches Some(used) && used@ == match revision {
                Some(revision) => revision@,
                None => "main"@,
            }),
            ModelRef::Directory(dir) => r.model@ == "dir:"@ + dir@ && r.revision is None,
            ModelRef::Named(name) => r.model@ == name@ && r.revision is None,
        },
{
    match reference {
        ModelRef::HuggingFace { repo, revision } => RerankerIdentity {
            model: concat("hf:", repo.as_str()),
            revision: Some(
                match revision {
                    Some(revision) => revision.clone(),
                    None => "main".to_owned(),
                },
            ),
            model_hash,
            max_sequence_length: JUDGEMENT_TOKENS,
        },
        ModelRef::Directory(dir) => RerankerIdentity {
            model: concat("dir:", dir.as_str()),
            revision: None,
            model_hash,
            max_sequence_length: JUDGEMENT_TOKENS,
        },
        ModelRef::Named(name) => RerankerIdentity {
            model: name.clone(),
            revision: None,
            model_hash,
            max_sequence_length: JUDGEMENT_TOKENS,
        },
    }
}

/// What a judgement comes to, with what tokenizing its body gave: its frame, round as
/// much of the body as there is room for.
pub open spec fn judgement_result(
    prefix: Seq<u32>,
    body: Result<Seq<u32>, Seq<char>>,
    suffix: Seq<u32>,
    max_tokens: int,
) -> Result<Seq<u32>, Seq<char>> {
    let room = max_tokens - (prefix.len() + suffix.len());
    match body {
        Err(error) => Err("tokenizing judgement: "@ + error),
        Ok(body) => Ok(
            prefix + head(
                body,
                if room >= 16 {
                    room
                } else {
                    16
                },
            ) + suffix,
        ),
    }
}

/// What a judgement comes to, with what tokenizing its body gave.
pub fn finish_judgement(
    prefix: &Vec<u32>,
    body: Result<Vec<u32>, String>,
    suffix: &Vec<u32>,
    max_tokens: usize,
) -> (r: Result<Vec<u32>, String>)
    ensures
        outcome(r) == judgement_result(prefix@, outcome(body), suffix@, max_tokens as int),
{
    match body {
        Err(error) => Err(concat("tokenizing judgement: ", error.as_str())),
        Ok(body) => Ok(judgement_ids(prefix, &body, suffix, max_tokens)),
    }
}

/// The ids of the judgement of a document.
pub fn judgement_input(
    tokenizer: &ModelTokenizer,
    prefix: &Vec<u32>,
    suffix: &Vec<u32>,
    max_tokens: usize,
    instruction: &str,
    query: &str,
    document: &str,
) -> (r: Result<Vec<u32>, String>)
    ensures
        exists|body: Result<Seq<u32>, Seq<char>>| #[trigger]
            encodings(
                tokenizer@,
                judged_text(instruction@, query@, document@),
            ).contains(body) && outcome(r) == judgement_result(
                prefix@,
                body,
                suffix@,
                max_tokens as int,
            ),
{
    let text = judgement_text(instruction, query, document);
    let body = tokenizer.tokens(text.as_str());
    let ghost given = outcome(body);
    let ids = finish_judgement(prefix, body, suffix, max_tokens);
    assert(encodings(tokenizer@, text@).contains(given));
    ids
}

/// A model reads the first tokens of an input, as many as its length leaves beside the
/// token that ends it, and that token comes last; no input is longer than the model takes.
pub proof fn a_model_reads_the_front_of_an_input(
    tokens: Seq<u32>,
    max_sequence_length: usize,
    terminal: Option<u32>,
)
    requires
        max_sequence_length >= 2,
    ensures
        ({
            let ids = model_ids(tokens, max_sequence_length, terminal);
            let kept = if terminal is Some {
                ids.len() - 1
            } else {
                ids.len() as int
            };
            &&& ids.len() <= max_sequence_length
            &&& 0 <= kept <= tokens.len()
            &&& ids.take(kept) == tokens.take(kept)
            &&& terminal matches Some(id) ==> ids.last() == id
            &&& kept == tokens.len() || kept == max_sequence_length - 1
        }),
{
    let ids = model_ids(tokens, max_sequence_length, terminal);
    let kept = if terminal is Some {
        ids.len() - 1
    } else {
        ids.len() as int
    };
    assert(ids.take(kept) =~= tokens.take(kept));
}

/// The number of tokens that is counted for an input is the number that the model reads of
/// it with the token that ends it, and never beyond its length.
pub proof fn what_is_counted_is_what_is_read(
    tokens: Seq<u32>,
    max_sequence_length: usize,
    terminal: u32,
)
    requires
        max_sequence_length >= 2,
    ensures
        read_tokens(tokens.len(), max_sequence_length) == model_ids(
            tokens,
            max_sequence_length,
            Some(terminal),
        ).len(),
        read_tokens(tokens.len(), max_sequence_length) <= max_sequence_length,
{
}

/// A judgement begins with its prefix and ends with its suffix, with the front of what is
/// judged between; it keeps to the limit where that leaves room for sixteen tokens, and
/// nothing of a body that fits is lost.
pub proof fn a_judgement_keeps_its_frame(
    prefix: Seq<u32>,
    body: Seq<u32>,
    suffix: Seq<u32>,
    max_tokens: int,
)
    ensures
        judgement_result(
            prefix,
            Ok::<Seq<u32>, Seq<char>>(body),
            suffix,
            max_tokens,
        ) matches Ok(ids) && {
            let kept = ids.len() - prefix.len() - suffix.len();
            &&& 0 <= kept <= body.len()
            &&& ids == prefix + body.take(kept) + suffix
            &&& max_tokens - prefix.len() - suffix.len() >= 16 ==> ids.len() <= max_tokens
            &&& prefix.len() + body.len() + suffix.len() <= max_tokens ==> kept == body.len()
        },
{
    let result = judgement_result(prefix, Ok::<Seq<u32>, Seq<char>>(body), suffix, max_tokens);
    if let Ok(ids) = result {
        let kept = ids.len() - prefix.len() - suffix.len();
        assert(ids =~= prefix + body.take(kept) + suffix);
    }
}

/// An input that gives no token is refused, and so is one that cannot be tokenized; any
/// other is what the model reads of it.
pub proof fn empty_inputs_are_refused(
    tokens: Result<Seq<u32>, Seq<char>>,
    max_sequence_length: usize,
    terminal: Option<u32>,
)
    requires
        max_sequence_length >= 2,
    ensures
        match input_result(tokens, max_sequence_length, terminal) {
            Ok(ids) => tokens is Ok && ids.len() > 0 && ids == model_ids(
                tokens->Ok_0,
                max_sequence_length,
                terminal,
            ),
            Err(_) => tokens is Err || (tokens->Ok_0.len() == 0 && terminal is None),
        },
{
    if tokens is Ok {
        a_model_reads_the_front_of_an_input(tokens->Ok_0, max_sequence_length, terminal);
    }
}

} // verus!
