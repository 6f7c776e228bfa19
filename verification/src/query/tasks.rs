//! Built-in retrieval intents.
use crate::text::same;
use vstd::prelude::*;

verus! {

/// The instruction of a built-in retrieval intent. The ids are stable: they are
/// passed in place of a hand-written instruction.
pub open spec fn preset_text(id: Seq<char>) -> Option<Seq<char>> {
    if id == "code-search"@ {
        Some("Given a code search query, retrieve relevant code implementations"@)
    } else if id == "locate-edit-targets"@ {
        Some("Given a software change request, retrieve code regions likely to require editing"@)
    } else if id == "explain-behavior"@ {
        Some("Given a question about repository behavior, retrieve code that provides evidence for the answer"@)
    } else if id == "find-analogues"@ {
        Some("Given a code fragment, retrieve functionally equivalent implementations"@)
    } else if id == "diagnose-failure"@ {
        Some("Given a failure report, retrieve implementation, tests, configuration, and error-handling paths relevant to diagnosing it"@)
    } else {
        None
    }
}

/// The instruction of a built-in retrieval intent.
pub fn task_preset(id: &str) -> (r: Option<&'static str>)
    ensures
        match r {
            Some(text) => preset_text(id@) == Some(text@),
            None => preset_text(id@) is None,
        },
{
    if same(id, "code-search") {
        Some("Given a code search query, retrieve relevant code implementations")
    } else if same(id, "locate-edit-targets") {
        Some("Given a software change request, retrieve code regions likely to require editing")
    } else if same(id, "explain-behavior") {
        Some("Given a question about repository behavior, retrieve code that provides evidence for the answer")
    } else if same(id, "find-analogues") {
        Some("Given a code fragment, retrieve functionally equivalent implementations")
    } else if same(id, "diagnose-failure") {
        Some("Given a failure report, retrieve implementation, tests, configuration, and error-handling paths relevant to diagnosing it")
    } else {
        None
    }
}

/// The ids of the built-in retrieval intents, in the order in which they are listed.
pub fn preset_ids() -> (r: Vec<&'static str>)
    ensures
        r@.len() == 5,
        r@[0]@ == "code-search"@,
        r@[1]@ == "locate-edit-targets"@,
        r@[2]@ == "explain-behavior"@,
        r@[3]@ == "find-analogues"@,
        r@[4]@ == "diagnose-failure"@,
        forall|i: int| 0 <= i < 5 ==> preset_text((#[trigger] r@[i])@) is Some,
{
    vec![
        "code-search",
        "locate-edit-targets",
        "explain-behavior",
        "find-analogues",
        "diagnose-failure",
    ]
}

} // verus!
