use codeindex::embedding::onnx::{check_onnx_parts, finish_count, OnnxParts};
use codeindex::embedding::parts::{
    check_parts, tokenizer_message, Owner, TokenizerFault, TokenizerParts,
};
use codeindex::embedding::resolve::ModelRef;
use codeindex::embedding::tokenize::{
    answer_tokens, count_tokens, count_tokens_untruncated, counted_tokens, finish_input,
    finish_judgement, first_known, frame_ids, judgement_input, judgement_prefix,
    judgement_suffix, judgement_tokens, model_input, reranker_identity, terminal_token,
    ModelTokenizer,
};
use codeindex::json::Json;
use codeindex::lsp::wire::read_body;
use tokenizers::Tokenizer;

const NO_STEPS: &str = r#""truncation":null,"padding":null,"post_processor":null"#;

fn load(steps: &str, added: &str, normalizer: &str, words: &str) -> Tokenizer {
    let text = format!(
        r#"{{"version":"1.0",{steps},"added_tokens":{added},
        "normalizer":{normalizer},"pre_tokenizer":{words},
        "decoder":null,"model":{{"type":"WordLevel",
        "vocab":{{"[UNK]":0,"yes":1,"no":2,"one":3,"two":4,"</s>":5}},"unk_token":"[UNK]"}}}}"#
    );
    text.parse().unwrap()
}

fn read(steps: &str) -> Result<ModelTokenizer, TokenizerFault> {
    ModelTokenizer::new(load(steps, "[]", "null", r#"{"type":"WhitespaceSplit"}"#))
}

fn tokenizer() -> ModelTokenizer {
    read(NO_STEPS).unwrap_or_else(|fault| panic!("{fault:?}"))
}

fn fault_of(tokenizer: Tokenizer) -> Option<TokenizerFault> {
    ModelTokenizer::new(tokenizer).err()
}

#[test]
fn files_decide_how_inputs_are_cut() {
    let tokenizer = read(
        r#""truncation":{"direction":"Right","max_length":2,"strategy":"LongestFirst","stride":1},
        "padding":null,
        "post_processor":{"type":"TemplateProcessing",
        "single":[{"Sequence":{"id":"A","type_id":0}},{"SpecialToken":{"id":"</s>","type_id":0}}],
        "pair":[{"Sequence":{"id":"A","type_id":0}},{"Sequence":{"id":"B","type_id":1}}],
        "special_tokens":{"</s>":{"id":"</s>","ids":[5],"tokens":["</s>"]}}}"#,
    )
    .unwrap_or_else(|fault| panic!("{fault:?}"));
    let text = "one two yes no one";
    assert_eq!(model_input(&tokenizer, text, 10, Some(5)).unwrap(), vec![3, 4, 5]);
    assert_eq!(count_tokens(&tokenizer, text, 10), Some(3));
    assert_eq!(count_tokens_untruncated(&tokenizer, text), Some(6));
    assert_eq!(terminal_token(&tokenizer), Some(5));
}

#[test]
fn files_decide_how_inputs_are_filled_up() {
    let tokenizer = read(
        r#""truncation":null,
        "padding":{"strategy":{"Fixed":4},"direction":"Right","pad_to_multiple_of":null,
        "pad_id":2,"pad_type_id":0,"pad_token":"no"},"post_processor":null"#,
    )
    .unwrap_or_else(|fault| panic!("{fault:?}"));
    assert_eq!(model_input(&tokenizer, "one", 10, None).unwrap(), vec![3, 2, 2, 2]);
}

#[test]
fn steps_that_do_not_take_every_text_are_refused() {
    let cut = |length: usize, stride: usize| {
        read(&format!(
            r#""truncation":{{"direction":"Right","max_length":{length},
            "strategy":"LongestFirst","stride":{stride}}},"padding":null,"post_processor":null"#
        ))
        .err()
    };
    assert_eq!(cut(2, 2), Some(TokenizerFault::Truncation));
    assert_eq!(cut(2, 1), None);
    assert_eq!(cut(0, 7), None);
    let filled = |strategy: &str| {
        read(&format!(
            r#""truncation":null,"padding":{{"strategy":{strategy},"direction":"Right",
            "pad_to_multiple_of":null,"pad_id":0,"pad_type_id":0,"pad_token":"[UNK]"}},
            "post_processor":null"#
        ))
        .err()
    };
    assert_eq!(filled(r#"{"Fixed":9}"#), None);
    assert_eq!(filled(r#"{"Fixed":9000000000000000}"#), Some(TokenizerFault::Padding));
    assert_eq!(filled(r#""BatchLongest""#), None);
    let template = |id: &str| {
        format!(
            r#"{{"type":"TemplateProcessing","single":[{{"Sequence":{{"id":"{id}","type_id":0}}}}],
            "pair":[{{"Sequence":{{"id":"A","type_id":0}}}},{{"Sequence":{{"id":"B","type_id":0}}}}],
            "special_tokens":{{}}}}"#
        )
    };
    let processed = |processor: &str| {
        read(&format!(r#""truncation":null,"padding":null,"post_processor":{processor}"#)).err()
    };
    let bytes = r#"{"type":"ByteLevel","add_prefix_space":false,"trim_offsets":true,
        "use_regex":false}"#;
    assert_eq!(processed(&template("A")), None);
    assert_eq!(processed(&template("B")), Some(TokenizerFault::PostProcessor));
    let twice = template("A").replacen(
        r#""single":["#,
        r#""single":[{"Sequence":{"id":"A","type_id":0}},"#,
        1,
    );
    assert_eq!(processed(&twice), Some(TokenizerFault::PostProcessor));
    let (one, two) = (template("A"), template("A"));
    assert_eq!(
        processed(&format!(r#"{{"type":"Sequence","processors":[{bytes},{one}]}}"#)),
        None
    );
    assert_eq!(
        processed(&format!(r#"{{"type":"Sequence","processors":[{one},{two}]}}"#)),
        Some(TokenizerFault::PostProcessor)
    );
}

#[test]
fn parts_that_do_not_take_every_text_are_refused() {
    let normalized = |normalizer: &str| fault_of(load(NO_STEPS, "[]", normalizer, "null"));
    let map = r#"{"type":"Precompiled","precompiled_charsmap":"BAAAAAAAAAA="}"#;
    let strip = r#"{"type":"Strip","strip_left":true,"strip_right":true}"#;
    let front = r#"{"type":"Replace","pattern":{"Regex":"^"},"content":"x"}"#;
    for kind in ["NFC", "NFD", "NFKC", "NFKD", "Lowercase"] {
        assert_eq!(normalized(&format!(r#"{{"type":"{kind}"}}"#)), None);
    }
    for part in [map, strip, front] {
        assert_eq!(normalized(part), Some(TokenizerFault::Normalizer));
        let nested = format!(r#"{{"type":"Sequence","normalizers":[{{"type":"NFC"}},{part}]}}"#);
        assert_eq!(normalized(&nested), Some(TokenizerFault::Normalizer));
    }
    assert_eq!(
        normalized(r#"{"type":"Sequence","normalizers":[{"type":"NFD"},{"type":"Lowercase"}]}"#),
        None
    );
    let cut = |words: &str| fault_of(load(NO_STEPS, "[]", "null", words));
    let fixed = |length: usize| format!(r#"{{"type":"FixedLength","length":{length}}}"#);
    assert_eq!(cut(&fixed(0)), Some(TokenizerFault::PreTokenizer));
    assert_eq!(cut(&fixed(10)), None);
    let split = |regex: &str| {
        format!(
            r#"{{"type":"Split","pattern":{{"Regex":"{regex}"}},"behavior":"Isolated",
            "invert":false}}"#
        )
    };
    assert_eq!(cut(&split("a+")), None);
    assert_eq!(cut(&split(r"(?=a\\K)")), Some(TokenizerFault::PreTokenizer));
    let both = format!(r#"{{"type":"Sequence","pretokenizers":[{},{}]}}"#, split("a"), fixed(3));
    assert_eq!(cut(&both), None);
}

#[test]
fn added_tokens_take_blanks_from_one_side() {
    let added = |left: bool, right: bool| {
        let tokens = format!(
            r#"[{{"id":6,"content":"a","single_word":false,"lstrip":false,"rstrip":{right},
            "normalized":false,"special":false}},
            {{"id":7,"content":" ","single_word":false,"lstrip":{left},"rstrip":false,
            "normalized":false,"special":false}}]"#
        );
        fault_of(load(NO_STEPS, &tokens, "null", "null"))
    };
    assert_eq!(added(true, false), None);
    assert_eq!(added(false, true), None);
    assert_eq!(added(true, true), Some(TokenizerFault::AddedTokens));
}

fn json(text: &str) -> Json {
    read_body(text.as_bytes()).unwrap()
}

fn onnx(normalizer: &str, words: &str, processor: &str, model: &str) -> OnnxParts {
    OnnxParts {
        tokenizer: TokenizerParts {
            normalizer: json(normalizer),
            pre_tokenizer: json(words),
            post_processor: json(processor),
            added_tokens: json(
                r#"[{"id":0,"content":"[PAD]","single_word":false,"lstrip":false,
                "rstrip":false,"normalized":true,"special":true}]"#,
            ),
            truncation: json(
                r#"{"direction":"Right","max_length":512,"strategy":"LongestFirst","stride":0}"#,
            ),
            padding: json(
                r#"{"strategy":"BatchLongest","direction":"Right","pad_to_multiple_of":null,
                "pad_id":0,"pad_type_id":0,"pad_token":"[PAD]"}"#,
            ),
        },
        spellings: json(r#"{"[CLS]":101,"[PAD]":0}"#),
        model: model.to_string(),
    }
}

const BERT: &str = r#"{"type":"BertNormalizer","clean_text":true,"handle_chinese_chars":true,
    "strip_accents":null,"lowercase":true}"#;
const BERT_WORDS: &str = r#"{"type":"BertPreTokenizer"}"#;
const PIECES: &str = "WordPiece(WordPiece { unk_token: \"[UNK]\" })";

fn framed(token: &str) -> String {
    format!(
        r#"{{"type":"TemplateProcessing","single":[{{"SpecialToken":{{"id":"{token}","type_id":0}}}},
        {{"Sequence":{{"id":"A","type_id":0}}}}],"pair":[],
        "special_tokens":{{"[CLS]":{{"id":"[CLS]","ids":[101],"tokens":["[CLS]"]}}}}}}"#
    )
}

#[test]
fn onnx_tokenizers_are_tested_before_they_count() {
    let fault = |parts: OnnxParts| check_onnx_parts(Some(parts));
    assert_eq!(fault(onnx(BERT, BERT_WORDS, &framed("[CLS]"), PIECES)), None);
    assert_eq!(check_onnx_parts(None), Some(TokenizerFault::Unreadable));
    assert_eq!(
        fault(onnx(BERT, BERT_WORDS, &framed("[SEP]"), PIECES)),
        Some(TokenizerFault::PostProcessor)
    );
    assert_eq!(
        fault(onnx(BERT, BERT_WORDS, "null", "Unigram(Unigram { vocab: 2 })")),
        Some(TokenizerFault::Model)
    );
    let bytes = |regex: bool| {
        format!(
            r#"{{"type":"ByteLevel","add_prefix_space":true,"trim_offsets":true,"use_regex":{regex}}}"#
        )
    };
    assert_eq!(fault(onnx("null", &bytes(false), "null", "BPE(BPE { })")), None);
    assert_eq!(
        fault(onnx("null", &bytes(true), "null", "BPE(BPE { })")),
        Some(TokenizerFault::PreTokenizer)
    );
    let mut short = onnx(BERT, BERT_WORDS, "null", PIECES);
    short.tokenizer.truncation = json(r#"{"max_length":64,"stride":0}"#);
    assert_eq!(fault(short), Some(TokenizerFault::Truncation));
    let mut blank = onnx(BERT, BERT_WORDS, "null", PIECES);
    blank.spellings = json(r#"{"\u0001":3,"[PAD]":0}"#);
    assert_eq!(fault(blank), Some(TokenizerFault::AddedTokens));
    assert_eq!(finish_count(Ok(vec![101, 7, 102])), Some(3));
    assert_eq!(finish_count(Err("bad".into())), None);
}

#[test]
fn faults_are_said() {
    assert_eq!(
        tokenizer_message(TokenizerFault::Normalizer),
        "the tokenizer's normalizer is not supported"
    );
    assert_eq!(
        check_parts(&None, Owner::Library),
        Some(TokenizerFault::Unreadable)
    );
}

#[test]
fn patterns_cut_texts() {
    let words = r#"{"type":"Split","pattern":{"Regex":"\\s+(?!\\S)|\\s+"},
        "behavior":"Removed","invert":false}"#;
    let tokenizer = ModelTokenizer::new(load(NO_STEPS, "[]", r#"{"type":"Lowercase"}"#, words))
        .unwrap_or_else(|fault| panic!("{fault:?}"));
    assert_eq!(model_input(&tokenizer, "One two  one", 10, None).unwrap(), vec![3, 4, 3]);
}

#[test]
fn texts_become_ids() {
    let tokenizer = tokenizer();
    let terminal = terminal_token(&tokenizer);
    assert_eq!(terminal, Some(5));
    assert_eq!(model_input(&tokenizer, "one two yes", 10, terminal).unwrap(), vec![3, 4, 1, 5]);
    assert_eq!(model_input(&tokenizer, "one two yes", 3, terminal).unwrap(), vec![3, 4, 5]);
    assert_eq!(
        model_input(&tokenizer, "", 10, None).unwrap_err(),
        "input tokenized to zero tokens"
    );
}

#[test]
fn counts_hold_the_terminal_token() {
    let tokenizer = tokenizer();
    assert_eq!(count_tokens(&tokenizer, "one two", 10), Some(3));
    assert_eq!(count_tokens(&tokenizer, "one two yes no", 3), Some(3));
    assert_eq!(count_tokens_untruncated(&tokenizer, "one two yes no"), Some(5));
    assert_eq!(counted_tokens(7, 7), 7);
    assert_eq!(counted_tokens(6, 7), 7);
}

#[test]
fn judgements_answer_yes_or_no() {
    let tokenizer = tokenizer();
    assert_eq!(judgement_tokens(&tokenizer), Ok((1, 2)));
    assert_eq!(answer_tokens(None, Some(2)), Err("reranker tokenizer has no `yes` token"));
    assert_eq!(answer_tokens(Some(1), None), Err("reranker tokenizer has no `no` token"));
    assert_eq!(first_known(None, Some(4)), Some(4));
    let prefix = frame_ids(&tokenizer, "one").unwrap();
    let suffix = frame_ids(&tokenizer, "two").unwrap();
    let ids =
        judgement_input(&tokenizer, &prefix, &suffix, 2048, "one", "yes", "no").unwrap();
    // The frame stands round the six words of what is judged.
    assert_eq!(ids.len(), 8);
    assert_eq!((ids[0], ids[2], ids[4], ids[6], ids[7]), (3, 3, 1, 2, 4));
}

#[test]
fn what_failed_is_said() {
    assert_eq!(
        finish_input(Err("bad".into()), 4, None).unwrap_err(),
        "tokenizing input: bad"
    );
    assert_eq!(
        finish_judgement(&vec![], Err("bad".into()), &vec![], 4).unwrap_err(),
        "tokenizing judgement: bad"
    );
    assert_eq!(finish_judgement(&vec![1], Ok(vec![2]), &vec![3], 4).unwrap(), vec![1, 2, 3]);
}

#[test]
fn the_frame_is_fixed() {
    assert!(judgement_prefix().starts_with("<|im_start|>system\nJudge whether the Document"));
    assert!(judgement_prefix().ends_with("or \"no\".<|im_end|>\n<|im_start|>user\n"));
    assert_eq!(
        judgement_suffix(),
        "<|im_end|>\n<|im_start|>assistant\n<think>\n\n</think>\n\n"
    );
}

#[test]
fn rerankers_are_identified() {
    let hub = ModelRef::parse("hf:a/b").unwrap();
    let identity = reranker_identity(&hub, Some("h".into()));
    assert_eq!(identity.model, "hf:a/b");
    assert_eq!(identity.revision.as_deref(), Some("main"));
    assert_eq!(identity.model_hash.as_deref(), Some("h"));
    assert_eq!(identity.max_sequence_length, 2048);
    let local = reranker_identity(&ModelRef::Directory("/m".into()), None);
    assert_eq!(local.model, "dir:/m");
    assert_eq!(local.revision, None);
}
