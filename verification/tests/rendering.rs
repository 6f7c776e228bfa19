use codeindex::embedding::contract::{
    EmbeddingTask, ModelContract, PairedPrompts, Pooling, PromptContract,
};
use codeindex::embedding::messages::render_message;
use codeindex::embedding::render::{
    render_input, render_inputs, EmbedRequest, EmbeddingRole, RenderError,
};
use codeindex::text_map::TextMap;

fn contract(prompts: PromptContract) -> ModelContract {
    ModelContract {
        model: "test-model".into(),
        revision: None,
        model_hash: None,
        tokenizer_hash: None,
        pooling: Pooling::Mean,
        normalize: true,
        native_dimensions: 4,
        max_sequence_length: 512,
        prompts,
        quantization: None,
    }
}

#[test]
fn symmetric_models_render_verbatim_and_reject_tasks() {
    let contract = contract(PromptContract::Symmetric);
    let rendered = render_input(&contract, EmbeddingRole::Document, None, None, "text").unwrap();
    assert_eq!(rendered, "text");
    let rendered = render_input(&contract, EmbeddingRole::Query, None, None, "text").unwrap();
    assert_eq!(rendered, "text");
    let task = EmbeddingTask::new("t", "instruction");
    assert!(render_input(&contract, EmbeddingRole::Query, Some(&task), None, "text").is_err());
}

#[test]
fn query_instruction_renders_qwen_template() {
    let with_default = contract(PromptContract::QueryInstruction {
        query_template: "Instruct: {instruction}\nQuery:{query}".into(),
        default_instruction: Some("Given a web search query, retrieve passages".into()),
    });
    let task = EmbeddingTask::new("edit", "Retrieve code needing edits");
    assert_eq!(
        render_input(&with_default, EmbeddingRole::Query, Some(&task), None, "fix bug").unwrap(),
        "Instruct: Retrieve code needing edits\nQuery:fix bug"
    );
    // No task falls back to the model's shipped default instruction.
    assert_eq!(
        render_input(&with_default, EmbeddingRole::Query, None, None, "fix bug").unwrap(),
        "Instruct: Given a web search query, retrieve passages\nQuery:fix bug"
    );
    // Documents embed raw for instruction models.
    assert_eq!(
        render_input(&with_default, EmbeddingRole::Document, None, None, "fn f() {}").unwrap(),
        "fn f() {}"
    );
    let no_default = contract(PromptContract::QueryInstruction {
        query_template: "Instruct: {instruction}\nQuery:{query}".into(),
        default_instruction: None,
    });
    assert!(render_input(&no_default, EmbeddingRole::Query, None, None, "q").is_err());
}

#[test]
fn role_prefixes_apply_per_side_and_space_prompt_wins() {
    let contract = contract(PromptContract::RolePrefixes {
        query: "QUERY: ".into(),
        document: "DOC: ".into(),
    });
    assert_eq!(
        render_input(&contract, EmbeddingRole::Query, None, None, "text").unwrap(),
        "QUERY: text"
    );
    assert_eq!(
        render_input(&contract, EmbeddingRole::Document, None, None, "text").unwrap(),
        "DOC: text"
    );
    // An explicit space-level document prompt overrides the model default.
    assert_eq!(
        render_input(&contract, EmbeddingRole::Document, None, Some("SPACE: "), "text").unwrap(),
        "SPACE: text"
    );
}

fn paired() -> ModelContract {
    let mut tasks = TextMap::new();
    tasks.insert(
        "nl2code".to_string(),
        PairedPrompts { query: "Q[nl2code]: ".into(), document: "P[nl2code]: ".into() },
    );
    contract(PromptContract::PairedTask { tasks })
}

#[test]
fn paired_task_requires_profile_and_document_prompt() {
    let contract = paired();
    let task = EmbeddingTask::new("nl2code", "");
    assert_eq!(
        render_input(&contract, EmbeddingRole::Query, Some(&task), None, "q").unwrap(),
        "Q[nl2code]: q"
    );
    assert!(render_input(&contract, EmbeddingRole::Query, None, None, "q").is_err());
    // Documents require the space to have chosen a task profile prompt.
    assert!(render_input(&contract, EmbeddingRole::Document, None, None, "d").is_err());
    assert_eq!(
        render_input(&contract, EmbeddingRole::Document, None, Some("P[nl2code]: "), "d").unwrap(),
        "P[nl2code]: d"
    );
}

#[test]
fn every_refused_rendering_has_its_error() {
    let task = EmbeddingTask::new("other", "do it");
    let render = |contract: &ModelContract, role: EmbeddingRole, task: Option<&EmbeddingTask>| {
        render_input(contract, role, task, None, "x").unwrap_err()
    };
    let symmetric = contract(PromptContract::Symmetric);
    assert_eq!(render(&symmetric, EmbeddingRole::Query, Some(&task)), RenderError::Symmetric);
    let fixed = contract(PromptContract::RolePrefixes { query: "q".into(), document: "d".into() });
    assert_eq!(render(&fixed, EmbeddingRole::Query, Some(&task)), RenderError::FixedPrefix);
    let bare = contract(PromptContract::QueryInstruction {
        query_template: "{query}".into(),
        default_instruction: None,
    });
    assert_eq!(render(&bare, EmbeddingRole::Query, None), RenderError::InstructionRequired);
    let paired = paired();
    assert_eq!(
        render(&paired, EmbeddingRole::Document, None),
        RenderError::DocumentPromptRequired
    );
    assert_eq!(render(&paired, EmbeddingRole::Query, None), RenderError::ProfileRequired);
    assert_eq!(render(&paired, EmbeddingRole::Query, Some(&task)), RenderError::UnknownProfile);
    assert_eq!(
        render_message(RenderError::UnknownProfile, &paired, "other"),
        "model test-model has no task profile \"other\""
    );
    assert_eq!(
        render_message(RenderError::ProfileRequired, &paired, ""),
        "model test-model requires a task profile for queries; available: nl2code"
    );
    assert_eq!(
        render_message(RenderError::Symmetric, &symmetric, ""),
        "model test-model is symmetric and does not accept task instructions"
    );
}

#[test]
fn a_request_renders_each_input() {
    let fixed = contract(PromptContract::RolePrefixes { query: "q:".into(), document: "d:".into() });
    let inputs = vec!["a", "b"];
    let documents = render_inputs(&fixed, &EmbedRequest::documents(&inputs, None)).unwrap();
    assert_eq!(documents, vec!["d:a".to_string(), "d:b".to_string()]);
    let queries = render_inputs(&fixed, &EmbedRequest::queries(&inputs, None)).unwrap();
    assert_eq!(queries, vec!["q:a".to_string(), "q:b".to_string()]);
    let task = EmbeddingTask::new("t", "i");
    let refused = render_inputs(&fixed, &EmbedRequest::queries(&inputs, Some(&task)));
    assert_eq!(refused.unwrap_err(), RenderError::FixedPrefix);
}

#[test]
fn an_instruction_may_name_the_query() {
    let contract = contract(PromptContract::QueryInstruction {
        query_template: "{instruction}|{query}".into(),
        default_instruction: Some("see {query}".into()),
    });
    // What replaces the instruction is itself searched for the query's place.
    assert_eq!(
        render_input(&contract, EmbeddingRole::Query, None, None, "q").unwrap(),
        "see q|q"
    );
}
