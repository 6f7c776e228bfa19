//! A deterministic model for tests: tokens counted in hashed buckets.
use crate::embedding::contract::{ExecutionInfo, ModelContract, Pooling, PromptContract};
use crate::embedding::render::{prompts_wf, render_inputs, rendered_at, EmbedRequest, RenderError};
use crate::hashing::{sha256, sha256_digest};
use crate::text::{alphanumeric, chars_of, decimal, decimal_text, is_alphanumeric};
use vstd::bytes::{spec_u64_from_le_bytes, u64_from_le_bytes};
use vstd::prelude::*;
use vstd::slice::slice_subrange;
use vstd::string::*;
use vstd::utf8::encode_utf8;

verus! {

/// The version of this package.
pub const PACKAGE_VERSION: &'static str = "0.1.0";

/// The parts of `s` between characters that are neither letters nor numbers.
pub open spec fn word_parts(s: Seq<char>) -> Seq<Seq<char>>
    decreases s.len(),
{
    if s.len() == 0 {
        seq![Seq::empty()]
    } else {
        let rest = word_parts(s.drop_last());
        if !alphanumeric(s.last()) {
            rest.push(Seq::empty())
        } else {
            rest.drop_last().push(rest.last().push(s.last()))
        }
    }
}

/// The bucket of a token: the first eight bytes of its hash, least significant
/// first, modulo the number of buckets.
pub open spec fn token_bucket(token: Seq<char>, buckets: usize) -> int {
    spec_u64_from_le_bytes(sha256_digest(encode_utf8(token)).take(8)) as int % buckets as int
}

/// How many of the tokens, which are the parts that are not empty, fall into
/// bucket `b`.
pub open spec fn bucket_count(parts: Seq<Seq<char>>, buckets: usize, b: int) -> int
    decreases parts.len(),
{
    if parts.len() == 0 {
        0
    } else {
        bucket_count(parts.drop_last(), buckets, b) + if parts.last().len() > 0 && token_bucket(
            parts.last(),
            buckets,
        ) == b {
            1int
        } else {
            0
        }
    }
}

/// `counts` holds the number of tokens of `text` in each bucket.
pub open spec fn counts_tokens(counts: Seq<u64>, text: Seq<char>, buckets: usize) -> bool {
    &&& counts.len() == buckets
    &&& forall|b: int|
        0 <= b < buckets ==> (#[trigger] counts[b]) == bucket_count(word_parts(text), buckets, b)
}

/// Every token of `text` has a bucket: there are buckets, or no tokens.
pub open spec fn has_buckets(text: Seq<char>, buckets: usize) -> bool {
    buckets > 0 || forall|i: int| 0 <= i < text.len() ==> !alphanumeric(#[trigger] text[i])
}

/// `counts` holds the token counts of input `i`, as it is rendered.
pub open spec fn counts_input(
    counts: Seq<u64>,
    contract: ModelContract,
    request: EmbedRequest<'_>,
    i: int,
) -> bool {
    match rendered_at(contract, request, i) {
        Ok(text) => counts_tokens(counts, text, contract.native_dimensions),
        Err(_) => false,
    }
}

fn bucket_of(token: &str, buckets: usize) -> (r: usize)
    requires
        buckets > 0,
    ensures
        r == token_bucket(token@, buckets),
        r < buckets,
{
    let digest = sha256(token.as_bytes());
    let head = slice_subrange(digest.as_slice(), 0, 8);
    assert(head@ =~= digest@.take(8));
    let value: u64 = u64_from_le_bytes(head);
    (value % buckets as u64) as usize
}

fn add_token(counts: &mut Vec<u64>, token: &str, Ghost(parts): Ghost<Seq<Seq<char>>>)
    requires
        old(counts)@.len() > 0 || token@.len() == 0,
        token@.len() > 0 ==> forall|b: int|
            0 <= b < old(counts)@.len() ==> (#[trigger] old(counts)@[b]) < u64::MAX,
        forall|b: int|
            0 <= b < old(counts)@.len() ==> (#[trigger] old(counts)@[b]) == bucket_count(
                parts,
                old(counts)@.len() as usize,
                b,
            ),
    ensures
        final(counts)@.len() == old(counts)@.len(),
        forall|b: int|
            0 <= b < old(counts)@.len() ==> (#[trigger] final(counts)@[b]) <= old(counts)@[b] + if (
            token@.len() > 0) {
                1int
            } else {
                0
            },
        forall|b: int|
            0 <= b < old(counts)@.len() ==> (#[trigger] final(counts)@[b]) == bucket_count(
                parts.push(token@),
                old(counts)@.len() as usize,
                b,
            ),
{
    let ghost longer = parts.push(token@);
    assert(longer.drop_last() =~= parts);
    assert(longer.last() == token@);
    if !token.is_empty() {
        let buckets: usize = counts.len();
        let b: usize = bucket_of(token, buckets);
        let count: u64 = counts[b];
        counts.set(b, count + 1);
    }
}

/// Counts the tokens of `text` in each bucket.
pub fn token_counts(text: &str, buckets: usize) -> (r: Vec<u64>)
    requires
        has_buckets(text@, buckets),
    ensures
        counts_tokens(r@, text@, buckets),
{
    let chars = chars_of(text);
    let mut counts: Vec<u64> = Vec::new();
    while counts.len() < buckets
        invariant
            counts@.len() <= buckets,
            forall|b: int| 0 <= b < counts@.len() ==> (#[trigger] counts@[b]) == 0,
        decreases buckets - counts@.len(),
    {
        counts.push(0);
    }
    let mut token = String::new();
    let ghost mut parts: Seq<Seq<char>> = Seq::empty();
    let mut i: usize = 0;
    assert(parts.push(token@) =~= word_parts(chars@.take(0)));
    while i < chars.len()
        invariant
            i <= chars@.len(),
            has_buckets(chars@, buckets),
            buckets > 0 || token@.len() == 0,
            counts@.len() == buckets,
            forall|b: int| 0 <= b < buckets ==> 2 * (#[trigger] counts@[b]) + token@.len() <= i,
            parts.push(token@) == word_parts(chars@.take(i as int)),
            forall|b: int|
                0 <= b < buckets ==> (#[trigger] counts@[b]) == bucket_count(parts, buckets, b),
        decreases chars@.len() - i,
    {
        let c = chars[i];
        assert(c == chars@[i as int]);
        assert(chars@.take(i + 1).drop_last() =~= chars@.take(i as int));
        assert(parts.push(token@).drop_last() =~= parts);
        if !is_alphanumeric(c) {
            add_token(&mut counts, token.as_str(), Ghost(parts));
            proof {
                parts = parts.push(token@);
            }
            token = String::new();
        } else {
            token.push(c);
        }
        i += 1;
        assert(parts.push(token@) =~= word_parts(chars@.take(i as int)));
    }
    assert(chars@.take(i as int) =~= text@);
    add_token(&mut counts, token.as_str(), Ghost(parts));
    counts
}

/// Deterministic, offline embedding backend for tests and development builds.
/// Hashes whitespace tokens into a fixed number of buckets, so texts sharing
/// vocabulary get similar vectors. Not a quality model.
#[derive(Debug)]
pub struct HashEmbedder {
    pub contract: ModelContract,
    pub execution: ExecutionInfo,
}

impl HashEmbedder {
    pub fn new(dimensions: usize) -> (r: Self)
        ensures
            r.contract.model@ == "token-hash-"@ + decimal(dimensions as nat),
            r.contract.revision is None,
            r.contract.model_hash is None,
            r.contract.tokenizer_hash is None,
            r.contract.pooling == Pooling::ModelDefined,
            r.contract.normalize,
            r.contract.native_dimensions == dimensions,
            r.contract.max_sequence_length == 512,
            r.contract.prompts == PromptContract::Symmetric,
            r.contract.quantization is None,
            r.execution.backend@ == "hash-test"@,
            r.execution.backend_version@ == PACKAGE_VERSION@,
            r.execution.runtime_version is None,
            r.execution.execution_provider@ == "cpu"@,
            r.execution.cache_path is None,
    {
        let mut model = "token-hash-".to_owned();
        model.append(decimal_text(dimensions as u64).as_str());
        Self {
            contract: ModelContract {
                model,
                revision: None,
                model_hash: None,
                tokenizer_hash: None,
                pooling: Pooling::ModelDefined,
                normalize: true,
                native_dimensions: dimensions,
                max_sequence_length: 512,
                prompts: PromptContract::Symmetric,
                quantization: None,
            },
            execution: ExecutionInfo {
                backend: "hash-test".to_owned(),
                backend_version: PACKAGE_VERSION.to_owned(),
                runtime_version: None,
                execution_provider: "cpu".to_owned(),
                cache_path: None,
            },
        }
    }

    /// The bucket counts of every input, in order: the vectors of the model
    /// before they are normalized.
    pub fn count_inputs(&self, request: &EmbedRequest<'_>) -> (r: Result<
        Vec<Vec<u64>>,
        RenderError,
    >)
        requires
            prompts_wf(self.contract.prompts),
            forall|i: int|
                0 <= i < request.inputs@.len() ==> match #[trigger] rendered_at(
                    self.contract,
                    *request,
                    i,
                ) {
                    Ok(text) => has_buckets(text, self.contract.native_dimensions),
                    Err(_) => true,
                },
        ensures
            match r {
                Ok(vectors) => {
                    &&& vectors@.len() == request.inputs@.len()
                    &&& forall|i: int|
                        0 <= i < vectors@.len() ==> counts_input(
                            (#[trigger] vectors@[i])@,
                            self.contract,
                            *request,
                            i,
                        )
                },
                Err(error) => exists|i: int|
                    0 <= i < request.inputs@.len() && #[trigger] rendered_at(
                        self.contract,
                        *request,
                        i,
                    ) == Err::<Seq<char>, RenderError>(error),
            },
    {
        let texts = match render_inputs(&self.contract, request) {
            Ok(texts) => texts,
            Err(error) => {
                return Err(error);
            },
        };
        let dims: usize = self.contract.native_dimensions;
        assert forall|j: int| 0 <= j < texts@.len() implies has_buckets(
            (#[trigger] texts@[j])@,
            dims,
        ) by {
            assert(rendered_at(self.contract, *request, j) == Ok::<Seq<char>, RenderError>(
                texts@[j]@,
            ));
        }
        let mut out: Vec<Vec<u64>> = Vec::new();
        let mut i: usize = 0;
        while i < texts.len()
            invariant
                i <= texts@.len(),
                out@.len() == i,
                dims == self.contract.native_dimensions,
                forall|j: int|
                    0 <= j < texts@.len() ==> has_buckets((#[trigger] texts@[j])@, dims),
                texts@.len() == request.inputs@.len(),
                forall|j: int|
                    0 <= j < texts@.len() ==> rendered_at(self.contract, *request, j) == Ok::<
                        Seq<char>,
                        RenderError,
                    >((#[trigger] texts@[j])@),
                forall|j: int|
                    0 <= j < i ==> counts_input(
                        (#[trigger] out@[j])@,
                        self.contract,
                        *request,
                        j,
                    ),
            decreases texts@.len() - i,
        {
            assert(rendered_at(self.contract, *request, i as int) == Ok::<Seq<char>, RenderError>(
                texts@[i as int]@,
            ));
            out.push(token_counts(texts[i].as_str(), dims));
            i += 1;
        }
        Ok(out)
    }
}

/// Words are cut at every character that is neither a letter nor a digit and hold no such
/// character.
pub proof fn words_hold_only_letters_and_digits(s: Seq<char>)
    ensures
        word_parts(s).len() >= 1,
        forall|i: int, j: int|
            0 <= i < word_parts(s).len() && 0 <= j < word_parts(s)[i].len() ==> alphanumeric(
                #[trigger] word_parts(s)[i][j],
            ),
    decreases s.len(),
{
    if s.len() > 0 {
        let front = s.drop_last();
        words_hold_only_letters_and_digits(front);
        let (before, after) = (word_parts(front), word_parts(s));
        assert forall|i: int, j: int|
            0 <= i < after.len() && 0 <= j < after[i].len() implies alphanumeric(
            #[trigger] after[i][j],
        ) by {
            if i < before.len() - 1 {
                assert(after[i] == before[i]);
                assert(alphanumeric(before[i][j]));
            } else if alphanumeric(s.last()) {
                assert(after[i] == before.last().push(s.last()));
                if j < before.last().len() {
                    assert(alphanumeric(before[before.len() - 1][j]));
                }
            } else if i < before.len() {
                assert(after[i] == before[i]);
                assert(alphanumeric(before[i][j]));
            }
        }
    }
}

/// A separator begins a new word, and a letter or digit goes on with the last one.
pub proof fn separators_begin_words(s: Seq<char>, c: char)
    ensures
        !alphanumeric(c) ==> word_parts(s.push(c)) == word_parts(s).push(Seq::empty()),
        alphanumeric(c) ==> word_parts(s.push(c)).len() == word_parts(s).len() && word_parts(
            s.push(c),
        ).last() == word_parts(s).last().push(c),
{
    assert(s.push(c).drop_last() =~= s);
    words_hold_only_letters_and_digits(s);
}

/// The counts of the first `n` buckets.
pub open spec fn counted_below(parts: Seq<Seq<char>>, buckets: usize, n: nat) -> int
    decreases n,
{
    if n == 0 {
        0
    } else {
        counted_below(parts, buckets, (n - 1) as nat) + bucket_count(parts, buckets, n - 1)
    }
}

/// The words of a list that are not empty.
pub open spec fn words_in(parts: Seq<Seq<char>>) -> nat
    decreases parts.len(),
{
    if parts.len() == 0 {
        0
    } else {
        words_in(parts.drop_last()) + if parts.last().len() > 0 {
            1nat
        } else {
            0
        }
    }
}

/// Every word is counted in one bucket: the counts add up to the number of words.
pub proof fn every_word_is_counted_once(parts: Seq<Seq<char>>, buckets: usize)
    requires
        buckets > 0,
    ensures
        counted_below(parts, buckets, buckets as nat) == words_in(parts),
    decreases parts.len(),
{
    if parts.len() == 0 {
        nothing_is_counted(parts, buckets, buckets as nat);
    } else {
        every_word_is_counted_once(parts.drop_last(), buckets);
        one_word_is_counted(parts, buckets, buckets as nat);
        let b = token_bucket(parts.last(), buckets);
        assert(0 <= b < buckets);
    }
}

proof fn nothing_is_counted(parts: Seq<Seq<char>>, buckets: usize, n: nat)
    requires
        parts.len() == 0,
    ensures
        counted_below(parts, buckets, n) == 0,
    decreases n,
{
    if n > 0 {
        nothing_is_counted(parts, buckets, (n - 1) as nat);
    }
}

proof fn one_word_is_counted(parts: Seq<Seq<char>>, buckets: usize, n: nat)
    requires
        parts.len() > 0,
        buckets > 0,
    ensures
        counted_below(parts, buckets, n) == counted_below(parts.drop_last(), buckets, n) + if (
        parts.last().len() > 0 && 0 <= token_bucket(parts.last(), buckets) < n) {
            1int
        } else {
            0
        },
    decreases n,
{
    if n > 0 {
        one_word_is_counted(parts, buckets, (n - 1) as nat);
    }
}

/// The counts of a text add up to the number of its words.
pub proof fn counts_add_up_to_the_words(counts: Seq<u64>, text: Seq<char>, buckets: usize)
    requires
        counts_tokens(counts, text, buckets),
        buckets > 0,
    ensures
        counts.len() == buckets,
        counted_below(word_parts(text), buckets, buckets as nat) == words_in(word_parts(text)),
        forall|b: int|
            0 <= b < buckets ==> #[trigger] counts[b] <= words_in(word_parts(text)),
{
    let parts = word_parts(text);
    every_word_is_counted_once(parts, buckets);
    assert forall|b: int| 0 <= b < buckets implies #[trigger] counts[b] <= words_in(parts) by {
        one_bucket_is_part_of_all(parts, buckets, b);
    }
}

proof fn one_bucket_is_part_of_all(parts: Seq<Seq<char>>, buckets: usize, b: int)
    ensures
        0 <= bucket_count(parts, buckets, b) <= words_in(parts),
    decreases parts.len(),
{
    if parts.len() > 0 {
        one_bucket_is_part_of_all(parts.drop_last(), buckets, b);
    }
}

} // verus!
