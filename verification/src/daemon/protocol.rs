//! What the daemon and its clients say to each other.
use crate::embedding::contract::EmbeddingTask;
use crate::json::Json;
use crate::query::rank::Score;
use crate::text::{clone_opt, concat, decimal, decimal_text};
use vstd::prelude::*;
use vstd::string::*;

verus! {

pub const PROTOCOL_VERSION: u32 = 1;

/// How many hits a search gives that does not say.
pub const DEFAULT_LIMIT: usize = 10;

#[derive(Debug)]
pub struct Request {
    pub id: u64,
    pub method: String,
    pub params: Json,
}

#[derive(Debug)]
pub struct Response {
    pub id: u64,
    pub result: Option<Json>,
    pub error: Option<String>,
}

#[derive(Debug)]
pub struct AddParams {
    pub root: String,
}

#[derive(Debug)]
pub struct AddResult {
    pub label: String,
    pub root: String,
    pub db: String,
    /// What the project's job is doing.
    pub job: String,
}

#[derive(Debug)]
pub struct RemoveParams {
    pub needle: String,
    pub purge: bool,
}

#[derive(Debug)]
pub struct RemoveResult {
    pub label: String,
    pub root: String,
    /// What was deleted, when it was safe to delete.
    pub purged: Option<String>,
}

#[derive(Debug)]
pub struct NeedleParams {
    pub needle: String,
}

#[derive(Debug)]
pub struct JobState {
    pub phase: String,
    pub detail: String,
    pub finished: bool,
    pub error: Option<String>,
}

impl Clone for JobState {
    fn clone(&self) -> (r: Self)
        ensures
            r == *self,
    {
        JobState {
            phase: self.phase.clone(),
            detail: self.detail.clone(),
            finished: self.finished,
            error: clone_opt(&self.error),
        }
    }
}

#[derive(Debug)]
pub struct ProjectSummary {
    pub label: String,
    pub root: String,
    pub db: String,
    /// Nothing until the first index run creates the database.
    pub units: Option<i64>,
    pub spaces: Vec<String>,
    pub job: Option<JobState>,
}

#[derive(Debug)]
pub struct StatusResult {
    pub version: String,
    pub protocol: u32,
    pub pid: u32,
    pub uptime_seconds: u64,
    pub projects: Vec<ProjectSummary>,
}

#[derive(Debug)]
pub struct SearchParams {
    /// Label or path; when absent, the working directory resolves the project.
    pub project: Option<String>,
    pub cwd: Option<String>,
    pub query: String,
    /// Space id; defaults to the project's default space, falling back to
    /// lexical-only retrieval when no space is available.
    pub space: Option<String>,
    pub task: Option<String>,
    pub instruction: Option<String>,
    pub filter: Option<String>,
    pub limit: usize,
    /// `hybrid`, `dense` or `lexical`; defaults per project configuration.
    pub retrieval: Option<String>,
    /// `auto`, `off` or `always`.
    pub compress: Option<String>,
    pub no_graph: bool,
    /// `include`, `exclude` or `only`; resolved by the client, which knows where in
    /// the tree the caller stands.
    pub tests: Option<String>,
}

impl Default for SearchParams {
    fn default() -> (r: Self)
        ensures
            r.project is None,
            r.cwd is None,
            r.query@.len() == 0,
            r.space is None,
            r.task is None,
            r.instruction is None,
            r.filter is None,
            r.limit == 0,
            r.retrieval is None,
            r.compress is None,
            !r.no_graph,
            r.tests is None,
    {
        SearchParams {
            project: None,
            cwd: None,
            query: String::new(),
            space: None,
            task: None,
            instruction: None,
            filter: None,
            limit: 0,
            retrieval: None,
            compress: None,
            no_graph: false,
            tests: None,
        }
    }
}

/// Search output: the one shape shared by direct searches and the daemon.
#[derive(Debug)]
pub struct SearchResults {
    pub query: String,
    pub compressed_query: Option<String>,
    pub space: Option<String>,
    pub task: Option<EmbeddingTask>,
    pub matched: usize,
    pub hits: Vec<SearchHit>,
}

#[derive(Debug)]
pub struct SearchHit {
    pub selector: String,
    pub score: Score,
    pub rerank_score: Option<Score>,
    /// `source#rank` contributions from each fused list.
    pub sources: Vec<String>,
    pub project: String,
    pub path: String,
    pub lines: (usize, usize),
    pub language: String,
    pub kind: String,
    pub name: String,
    pub scope: Option<String>,
}

/// The response carries the outcome of the request.
pub open spec fn answers(response: Response, id: u64, outcome: Result<Json, String>) -> bool {
    response.id == id && match outcome {
        Ok(value) => response.result == Some(value) && response.error is None,
        Err(error) => response.result is None && response.error == Some(error),
    }
}

/// The response to a request that was handled.
pub fn respond(id: u64, outcome: Result<Json, String>) -> (r: Response)
    ensures
        answers(r, id, outcome),
{
    match outcome {
        Ok(value) => Response { id, result: Some(value), error: None },
        Err(error) => Response { id, result: None, error: Some(error) },
    }
}

/// The response to bytes that are no request.
pub fn malformed_request(detail: &str) -> (r: Response)
    ensures
        r.id == 0,
        r.result is None,
        r.error is Some,
        r.error->0@ == "malformed request: "@ + detail@,
{
    Response { id: 0, result: None, error: Some(concat("malformed request: ", detail)) }
}

/// What is said of an answer to another request.
pub open spec fn crossed_text(answered: u64, pending: u64) -> Seq<char> {
    "daemon answered request "@ + decimal(answered as nat) + " while "@ + decimal(pending as nat)
        + " was pending"@
}

/// What the client takes from a response while a request is pending.
pub open spec fn is_taken(response: Response, pending: u64, taken: Result<Json, String>) -> bool {
    match taken {
        Ok(value) => response.id == pending && response.result == Some(value)
            && response.error is None,
        Err(message) => if response.id != pending {
            message@ == crossed_text(response.id, pending)
        } else {
            match response.error {
                Some(error) => message == error,
                None => response.result is None && message@ == "daemon returned an empty response"@,
            }
        },
    }
}

/// What a response is to the request that is pending: its result, or why there is
/// none. An error counts even beside a result.
pub fn accept_response(pending: u64, response: Response) -> (r: Result<Json, String>)
    ensures
        is_taken(response, pending, r),
{
    if response.id != pending {
        let mut text = concat("daemon answered request ", decimal_text(response.id).as_str());
        text.append(" while ");
        text.append(decimal_text(pending).as_str());
        text.append(" was pending");
        return Err(text);
    }
    if let Some(error) = response.error {
        return Err(error);
    }
    match response.result {
        Some(result) => Ok(result),
        None => Err("daemon returned an empty response".to_owned()),
    }
}

/// What was answered to a request is what the client takes from the response.
pub proof fn an_answer_reaches_the_client(
    id: u64,
    outcome: Result<Json, String>,
    response: Response,
    taken: Result<Json, String>,
)
    requires
        answers(response, id, outcome),
        is_taken(response, id, taken),
    ensures
        taken == outcome,
{
}

} // verus!
