//! Rendering inputs through a model's prompt contract.
use crate::embedding::contract::{EmbeddingTask, ModelContract, PromptContract};
use crate::replace::{replace, replaced};
use vstd::prelude::*;
use vstd::string::*;

verus! {

/// Which side of asymmetric retrieval an input belongs to. Instruction-aware
/// models render the two sides differently.
#[derive(Debug, Clone, Copy, PartialEq, Eq, Structural)]
pub enum EmbeddingRole {
    Query,
    Document,
}

/// One typed embedding call. Inputs are raw texts; rendering through the model's
/// prompt contract happens inside the backend, so persisted representation
/// content never carries prompt text.
#[derive(Debug)]
pub struct EmbedRequest<'a> {
    pub role: EmbeddingRole,
    /// Query-side task instruction/profile. `None` uses the model's default
    /// query prompt when one exists.
    pub task: Option<&'a EmbeddingTask>,
    /// Document-side prompt from the embedding space's contract. `None` falls
    /// back to the model's own document prefix (or verbatim text).
    pub document_prompt: Option<&'a str>,
    pub inputs: &'a Vec<&'a str>,
}

impl<'a> EmbedRequest<'a> {
    pub fn documents(inputs: &'a Vec<&'a str>, document_prompt: Option<&'a str>) -> (r: Self)
        ensures
            r.role == EmbeddingRole::Document,
            r.task is None,
            r.document_prompt == document_prompt,
            r.inputs == inputs,
    {
        Self { role: EmbeddingRole::Document, task: None, document_prompt, inputs }
    }

    pub fn queries(inputs: &'a Vec<&'a str>, task: Option<&'a EmbeddingTask>) -> (r: Self)
        ensures
            r.role == EmbeddingRole::Query,
            r.task == task,
            r.document_prompt is None,
            r.inputs == inputs,
    {
        Self { role: EmbeddingRole::Query, task, document_prompt: None, inputs }
    }
}

/// Why an input cannot be rendered.
#[derive(Debug, Clone, Copy, PartialEq, Eq, Structural)]
pub enum RenderError {
    /// Documents are rendered per task profile and the space names none.
    DocumentPromptRequired,
    /// The model takes no task instructions.
    Symmetric,
    /// The model requires a task instruction and defines no default.
    InstructionRequired,
    /// The model has a fixed query prefix and takes no task instructions.
    FixedPrefix,
    /// The model requires a task profile.
    ProfileRequired,
    /// The model has no such task profile.
    UnknownProfile,
}

/// What rendering gives for a document.
pub open spec fn document_text(
    prompts: PromptContract,
    document_prompt: Option<Seq<char>>,
    text: Seq<char>,
) -> Result<Seq<char>, RenderError> {
    match document_prompt {
        Some(prompt) => Ok(prompt + text),
        None => match prompts {
            PromptContract::RolePrefixes { document, .. } => Ok(document@ + text),
            PromptContract::PairedTask { .. } => Err(RenderError::DocumentPromptRequired),
            _ => Ok(text),
        },
    }
}

/// What rendering gives for a query.
pub open spec fn query_text(
    prompts: PromptContract,
    task: Option<&EmbeddingTask>,
    text: Seq<char>,
) -> Result<Seq<char>, RenderError> {
    match prompts {
        PromptContract::Symmetric => if task is Some {
            Err(RenderError::Symmetric)
        } else {
            Ok(text)
        },
        PromptContract::QueryInstruction { query_template, default_instruction } => {
            if task is None && default_instruction is None {
                Err(RenderError::InstructionRequired)
            } else {
                let instruction = match task {
                    Some(task) => task.instruction@,
                    None => default_instruction->0@,
                };
                Ok(
                    replaced(
                        replaced(query_template@, "{instruction}"@, instruction),
                        "{query}"@,
                        text,
                    ),
                )
            }
        },
        PromptContract::RolePrefixes { query, .. } => if task is Some {
            Err(RenderError::FixedPrefix)
        } else {
            Ok(query@ + text)
        },
        PromptContract::PairedTask { tasks } => match task {
            None => Err(RenderError::ProfileRequired),
            Some(task) => if tasks@.contains_key(task.id@) {
                Ok(tasks@[task.id@].query@ + text)
            } else {
                Err(RenderError::UnknownProfile)
            },
        },
    }
}

/// What rendering gives.
pub open spec fn rendered(
    prompts: PromptContract,
    role: EmbeddingRole,
    task: Option<&EmbeddingTask>,
    document_prompt: Option<Seq<char>>,
    text: Seq<char>,
) -> Result<Seq<char>, RenderError> {
    match role {
        EmbeddingRole::Document => document_text(prompts, document_prompt, text),
        EmbeddingRole::Query => query_text(prompts, task, text),
    }
}

/// The text of an optional prompt.
pub open spec fn prompt_view(prompt: Option<&str>) -> Option<Seq<char>> {
    match prompt {
        Some(prompt) => Some(prompt@),
        None => None,
    }
}

/// A profile map that lookups may rely on.
pub open spec fn prompts_wf(prompts: PromptContract) -> bool {
    prompts matches PromptContract::PairedTask { tasks } ==> tasks.wf()
}

fn prefixed(prefix: &str, text: &str) -> (r: String)
    ensures
        r@ == prefix@ + text@,
{
    let mut out = prefix.to_owned();
    out.append(text);
    out
}

/// Render one input for a role through the model's prompt contract.
///
/// Unknown or unsupported combinations error rather than silently embedding
/// unrendered text: a missing prompt is a retrieval-quality bug that should fail
/// loudly.
pub fn render_input(
    contract: &ModelContract,
    role: EmbeddingRole,
    task: Option<&EmbeddingTask>,
    document_prompt: Option<&str>,
    text: &str,
) -> (r: Result<String, RenderError>)
    requires
        prompts_wf(contract.prompts),
    ensures
        match r {
            Ok(out) => rendered(
                contract.prompts,
                role,
                task,
                prompt_view(document_prompt),
                text@,
            ) == Ok::<Seq<char>, RenderError>(out@),
            Err(error) => rendered(
                contract.prompts,
                role,
                task,
                prompt_view(document_prompt),
                text@,
            ) == Err::<Seq<char>, RenderError>(error),
        },
{
    match role {
        EmbeddingRole::Document => {
            if let Some(prompt) = document_prompt {
                return Ok(prefixed(prompt, text));
            }
            match &contract.prompts {
                PromptContract::RolePrefixes { query: _, document } => Ok(
                    prefixed(document.as_str(), text),
                ),
                PromptContract::PairedTask { tasks: _ } => Err(RenderError::DocumentPromptRequired),
                _ => Ok(text.to_owned()),
            }
        },
        EmbeddingRole::Query => match &contract.prompts {
            PromptContract::Symmetric => if task.is_some() {
                Err(RenderError::Symmetric)
            } else {
                Ok(text.to_owned())
            },
            PromptContract::QueryInstruction { query_template, default_instruction } => {
                let instruction = match task {
                    Some(task) => task.instruction.as_str(),
                    None => match default_instruction {
                        Some(default) => default.as_str(),
                        None => {
                            return Err(RenderError::InstructionRequired);
                        },
                    },
                };
                proof {
                    reveal_strlit("{instruction}");
                    reveal_strlit("{query}");
                }
                let with_instruction = replace(
                    query_template.as_str(),
                    "{instruction}",
                    instruction,
                );
                Ok(replace(with_instruction.as_str(), "{query}", text))
            },
            PromptContract::RolePrefixes { query, document: _ } => if task.is_some() {
                Err(RenderError::FixedPrefix)
            } else {
                Ok(prefixed(query.as_str(), text))
            },
            PromptContract::PairedTask { tasks } => match task {
                None => Err(RenderError::ProfileRequired),
                Some(task) => match tasks.get(task.id.as_str()) {
                    Some(pair) => Ok(prefixed(pair.query.as_str(), text)),
                    None => Err(RenderError::UnknownProfile),
                },
            },
        },
    }
}

/// What rendering gives for input `i` of a request.
pub open spec fn rendered_at(contract: ModelContract, request: EmbedRequest<'_>, i: int) -> Result<
    Seq<char>,
    RenderError,
> {
    rendered(
        contract.prompts,
        request.role,
        request.task,
        prompt_view(request.document_prompt),
        request.inputs@[i]@,
    )
}

/// Render every input of a request. Backends call this before encoding. The
/// first input that cannot be rendered gives the error.
pub fn render_inputs(contract: &ModelContract, request: &EmbedRequest<'_>) -> (r: Result<
    Vec<String>,
    RenderError,
>)
    requires
        prompts_wf(contract.prompts),
    ensures
        match r {
            Ok(out) => out@.len() == request.inputs@.len() && forall|i: int|
                0 <= i < out@.len() ==> rendered_at(*contract, *request, i) == Ok::<
                    Seq<char>,
                    RenderError,
                >((#[trigger] out@[i])@),
            Err(error) => exists|i: int|
                0 <= i < request.inputs@.len() && #[trigger] rendered_at(*contract, *request, i)
                    == Err::<Seq<char>, RenderError>(error) && forall|j: int|
                    0 <= j < i ==> #[trigger] rendered_at(*contract, *request, j) is Ok,
        },
{
    let mut out: Vec<String> = Vec::new();
    let mut i: usize = 0;
    while i < request.inputs.len()
        invariant
            i <= request.inputs@.len(),
            prompts_wf(contract.prompts),
            out@.len() == i,
            forall|j: int|
                0 <= j < i ==> rendered_at(*contract, *request, j) == Ok::<Seq<char>, RenderError>(
                    (#[trigger] out@[j])@,
                ),
        decreases request.inputs@.len() - i,
    {
        match render_input(
            contract,
            request.role,
            request.task,
            request.document_prompt,
            request.inputs[i],
        ) {
            Ok(text) => out.push(text),
            Err(error) => {
                assert(rendered_at(*contract, *request, i as int) == Err::<Seq<char>, RenderError>(
                    error,
                ));
                assert forall|j: int| 0 <= j < i implies #[trigger] rendered_at(
                    *contract,
                    *request,
                    j,
                ) is Ok by {
                    assert(rendered_at(*contract, *request, j) == Ok::<Seq<char>, RenderError>(
                        out@[j]@,
                    ));
                }
                return Err(error);
            },
        }
        i += 1;
    }
    Ok(out)
}

/// A document is never rendered with a query's task, and a query never with a
/// document's prompt.
pub proof fn roles_are_rendered_apart(
    prompts: PromptContract,
    task: Option<&EmbeddingTask>,
    other_task: Option<&EmbeddingTask>,
    prompt: Option<Seq<char>>,
    other_prompt: Option<Seq<char>>,
    text: Seq<char>,
)
    ensures
        rendered(prompts, EmbeddingRole::Document, task, prompt, text) == rendered(
            prompts,
            EmbeddingRole::Document,
            other_task,
            prompt,
            text,
        ),
        rendered(prompts, EmbeddingRole::Query, task, prompt, text) == rendered(
            prompts,
            EmbeddingRole::Query,
            task,
            other_prompt,
            text,
        ),
{
}

/// What is embedded holds the text it was asked for, at its end: of a document behind the
/// prompt that is given for it, else behind the model's document prefix; of a query behind
/// the model's query prefix. A model that takes both sides alike adds nothing.
pub proof fn a_text_follows_its_prompt(
    prompts: PromptContract,
    task: Option<&EmbeddingTask>,
    prompt: Option<Seq<char>>,
    text: Seq<char>,
)
    ensures
        prompt matches Some(given) ==> rendered(
            prompts,
            EmbeddingRole::Document,
            task,
            prompt,
            text,
        ) == Ok::<Seq<char>, RenderError>(given + text),
        prompt is None ==> (prompts matches PromptContract::RolePrefixes { query, document }
            ==> rendered(prompts, EmbeddingRole::Document, task, prompt, text) == Ok::<
            Seq<char>,
            RenderError,
        >(document@ + text)),
        prompt is None && (prompts is Symmetric || prompts is QueryInstruction) ==> rendered(
            prompts,
            EmbeddingRole::Document,
            task,
            prompt,
            text,
        ) == Ok::<Seq<char>, RenderError>(text),
        prompt is None && prompts is PairedTask ==> rendered(
            prompts,
            EmbeddingRole::Document,
            task,
            prompt,
            text,
        ) is Err,
        task is None ==> (prompts matches PromptContract::RolePrefixes { query, document }
            ==> rendered(prompts, EmbeddingRole::Query, task, prompt, text) == Ok::<
            Seq<char>,
            RenderError,
        >(query@ + text)),
        task is None && prompts is Symmetric ==> rendered(
            prompts,
            EmbeddingRole::Query,
            task,
            prompt,
            text,
        ) == Ok::<Seq<char>, RenderError>(text),
{
}

/// A task that the model cannot take is refused and never passed over; a model that needs
/// one is not run without. A task profile is rendered with its own query prefix.
pub proof fn tasks_are_taken_or_refused(
    prompts: PromptContract,
    task: Option<&EmbeddingTask>,
    prompt: Option<Seq<char>>,
    text: Seq<char>,
)
    ensures
        task is Some && (prompts is Symmetric || prompts is RolePrefixes) ==> rendered(
            prompts,
            EmbeddingRole::Query,
            task,
            prompt,
            text,
        ) is Err,
        task is None && prompts is PairedTask ==> rendered(
            prompts,
            EmbeddingRole::Query,
            task,
            prompt,
            text,
        ) is Err,
        prompts matches PromptContract::QueryInstruction { default_instruction, .. } ==> (rendered(
            prompts,
            EmbeddingRole::Query,
            task,
            prompt,
            text,
        ) is Err <==> task is None && default_instruction is None),
        prompts matches PromptContract::PairedTask { tasks } ==> (task matches Some(own) ==> {
            let out = rendered(prompts, EmbeddingRole::Query, task, prompt, text);
            &&& out is Ok <==> tasks@.contains_key(own.id@)
            &&& out matches Ok(whole) ==> whole == tasks@[own.id@].query@ + text
        }),
{
}

/// A task's instruction stands where the template asks for it, and the query where the
/// template asks for that: of a template with both once, in the model's own default where
/// no task is given.
pub proof fn a_template_is_filled_in(
    prompts: PromptContract,
    template: String,
    default_instruction: Option<String>,
    task: Option<&EmbeddingTask>,
    prompt: Option<Seq<char>>,
    text: Seq<char>,
    before: Seq<char>,
    between: Seq<char>,
    after: Seq<char>,
)
    requires
        prompts == (PromptContract::QueryInstruction {
            query_template: template,
            default_instruction,
        }),
        template@ == before + "{instruction}"@ + between + "{query}"@ + after,
        !before.contains('{') && !between.contains('{') && !after.contains('{'),
        task is Some || default_instruction is Some,
        ({
            let instruction = match task {
                Some(task) => task.instruction@,
                None => default_instruction->0@,
            };
            !instruction.contains('{')
        }),
    ensures
        rendered(prompts, EmbeddingRole::Query, task, prompt, text) == Ok::<Seq<char>, RenderError>(
            before + (match task {
                Some(task) => task.instruction@,
                None => default_instruction->0@,
            }) + between + text + after,
        ),
{
    let instruction = match task {
        Some(task) => task.instruction@,
        None => default_instruction->0@,
    };
    reveal_strlit("{instruction}");
    reveal_strlit("{query}");
    let tail = between + "{query}"@ + after;
    assert(template@ =~= before + "{instruction}"@ + tail);
    crate::replace::one_place_is_replaced(before, "{instruction}"@, tail, instruction);
    assert forall|j: int| !crate::text::occurs_at(tail, "{instruction}"@, j) by {
        if crate::text::occurs_at(tail, "{instruction}"@, j) {
            let found = tail.subrange(j, j + "{instruction}"@.len());
            assert(found[0] == '{' && found[1] == 'i');
            assert(tail[j] == '{' && tail[j + 1] == 'i');
            if j < between.len() {
                assert(tail[j] == between[j]);
            } else if j >= between.len() + 7 {
                assert(tail[j] == after[j - between.len() - 7]);
            } else {
                assert(tail[j] == "{query}"@[j - between.len()]);
                assert(tail[j + 1] == if j == between.len() + 6 {
                    after[0]
                } else {
                    "{query}"@[j + 1 - between.len()]
                });
            }
        }
    }
    crate::replace::nothing_is_replaced(tail, "{instruction}"@, instruction);
    let half = before + instruction + between;
    let first = crate::replace::replaced(template@, "{instruction}"@, instruction);
    assert(first =~= half + "{query}"@ + after);
    assert(!half.contains('{')) by {
        assert forall|i: int| 0 <= i < half.len() implies half[i] != '{' by {
            if i < before.len() {
                assert(half[i] == before[i]);
            } else if i < before.len() + instruction.len() {
                assert(half[i] == instruction[i - before.len()]);
            } else {
                assert(half[i] == between[i - before.len() - instruction.len()]);
            }
        }
    }
    crate::replace::one_place_is_replaced(half, "{query}"@, after, text);
    assert forall|j: int| !crate::text::occurs_at(after, "{query}"@, j) by {
        if crate::text::occurs_at(after, "{query}"@, j) {
            assert(after.subrange(j, j + "{query}"@.len())[0] == after[j]);
        }
    }
    crate::replace::nothing_is_replaced(after, "{query}"@, text);
}

/// Each input of a request is rendered by itself, with the request's role, task and prompt.
pub proof fn inputs_are_rendered_by_themselves(
    contract: ModelContract,
    request: EmbedRequest<'_>,
    i: int,
    j: int,
)
    requires
        0 <= i < request.inputs@.len(),
        0 <= j < request.inputs@.len(),
        request.inputs@[i]@ == request.inputs@[j]@,
    ensures
        rendered_at(contract, request, i) == rendered_at(contract, request, j),
        contract.prompts is Symmetric && request.task is None && request.document_prompt is None
            ==> rendered_at(contract, request, i) == Ok::<Seq<char>, RenderError>(
            request.inputs@[i]@,
        ),
{
}

} // verus!
