//! The service surfaces: the HTTP routes and the JSON-RPC methods, as
//! decisions on plain values.

use vstd::prelude::*;
use vstd::string::StringExecFns;
use crate::error::{
    CodeRagError, http_status_of, MCP_APPLICATION_ERROR, MCP_INVALID_PARAMS, MCP_METHOD_NOT_FOUND,
};
use crate::search::SearchResult;
use crate::text::{append_chars, chars_of, same_text, string_from_chars};

verus! {

/// The body of a search request.
#[derive(Debug)]
pub struct SearchRequest {
    pub query: String,
    pub limit: usize,
    pub ext: Option<String>,
    pub dir: Option<String>,
    pub no_rerank: bool,
    pub max_tokens: Option<usize>,
    pub expand: bool,
}

/// The number of results of a request that names none.
pub fn default_limit() -> (limit: usize)
    ensures
        limit == 5,
{
    5
}

impl SearchRequest {
    /// The request that a body stands for: what the body leaves out gets
    /// its default, 5 for the limit and false for the switches.
    pub fn with_defaults(
        query: String,
        limit: Option<usize>,
        ext: Option<String>,
        dir: Option<String>,
        no_rerank: Option<bool>,
        max_tokens: Option<usize>,
        expand: Option<bool>,
    ) -> (request: SearchRequest)
        ensures
            request.query == query,
            request.limit == (match limit {
                Some(limit) => limit,
                None => 5usize,
            }),
            request.ext == ext,
            request.dir == dir,
            request.no_rerank == (no_rerank == Some(true)),
            request.max_tokens == max_tokens,
            request.expand == (expand == Some(true)),
    {
        SearchRequest {
            query,
            limit: match limit {
                Some(limit) => limit,
                None => default_limit(),
            },
            ext,
            dir,
            no_rerank: match no_rerank {
                Some(flag) => flag,
                None => false,
            },
            max_tokens,
            expand: match expand {
                Some(flag) => flag,
                None => false,
            },
        }
    }
}

/// What the HTTP service is started with.
#[derive(Debug)]
pub struct ServerStartConfig {
    pub host: String,
    pub port: u16,
    pub db_path: String,
    pub embedding_model: String,
    pub reranker_model: String,
    pub embedding_model_path: Option<String>,
    pub reranker_model_path: Option<String>,
    pub device: String,
    pub llm_enabled: bool,
    pub llm_host: String,
    pub llm_model: String,
}

/// What a request is for.
#[derive(Debug)]
pub enum Route {
    /// `GET /health`.
    Health,
    /// `POST /search`, or `POST /v1/{workspace}/search`: a search in this
    /// workspace.
    Search { workspace: String },
    /// Anything else.
    Unknown,
}

/// What a `Route` holds, as mathematical values.
pub enum RouteModel {
    Health,
    Search { workspace: Seq<char> },
    Unknown,
}

impl View for Route {
    type V = RouteModel;

    open spec fn view(&self) -> RouteModel {
        match self {
            Route::Health => RouteModel::Health,
            Route::Search { workspace } => RouteModel::Search { workspace: workspace@ },
            Route::Unknown => RouteModel::Unknown,
        }
    }
}

/// Whether `path` is the search path of a named workspace: `/v1/`, a name
/// of at least one character without a slash, and `/search`.
pub open spec fn is_workspace_path(path: Seq<char>, workspace: Seq<char>) -> bool {
    &&& path == "/v1/"@ + workspace + "/search"@
    &&& workspace.len() > 0
    &&& !workspace.contains('/')
}

/// The route of a request with this method and path.
pub open spec fn route_of(method: Seq<char>, path: Seq<char>) -> RouteModel {
    if method == "GET"@ && path == "/health"@ {
        RouteModel::Health
    } else if method == "POST"@ && path == "/search"@ {
        RouteModel::Search { workspace: "default"@ }
    } else if method == "POST"@ && exists|workspace: Seq<char>| is_workspace_path(path, workspace) {
        RouteModel::Search { workspace: choose|workspace: Seq<char>| is_workspace_path(path, workspace) }
    } else {
        RouteModel::Unknown
    }
}

/// The workspace that `path` names, if it is the search path of a
/// workspace.
pub fn workspace_of_path(path: &str) -> (workspace: Option<String>)
    ensures
        match workspace {
            Some(name) => is_workspace_path(path@, name@),
            None => forall|name: Seq<char>| !is_workspace_path(path@, name),
        },
{
    proof {
        reveal_strlit("/v1/");
        reveal_strlit("/search");
    }
    let chars = chars_of(path);
    let head = chars_of("/v1/");
    let tail = chars_of("/search");
    if chars.len() <= head.len() + tail.len() {
        assert forall|name: Seq<char>| !is_workspace_path(path@, name) by {
            if is_workspace_path(path@, name) {
                lemma_workspace_path_shape(path@, name);
            }
        }
        return None;
    }
    let end: usize = chars.len() - tail.len();
    let mut name: Vec<char> = Vec::new();
    let mut i: usize = head.len();
    while i < end
        invariant
            head.len() <= i <= end,
            end == chars.len() - 7,
            head.len() == 4,
            chars@ == path@,
            name@ == chars@.subrange(4, i as int),
            !name@.contains('/'),
        decreases end - i,
    {
        if chars[i] == '/' {
            assert forall|other: Seq<char>| !is_workspace_path(path@, other) by {
                if is_workspace_path(path@, other) {
                    lemma_workspace_path_shape(path@, other);
                    assert(other[i - 4] == '/');
                    assert(other.contains('/'));
                }
            }
            return None;
        }
        let ghost before = name@;
        name.push(chars[i]);
        assert(name@ =~= chars@.subrange(4, i + 1));
        assert(!name@.contains('/')) by {
            if name@.contains('/') {
                let at = choose|at: int| 0 <= at < name@.len() && name@[at] == '/';
                if at < before.len() {
                    assert(before[at] == '/');
                }
            }
        }
        i += 1;
    }
    let mut whole: Vec<char> = Vec::new();
    append_chars(&mut whole, &head);
    append_chars(&mut whole, &name);
    append_chars(&mut whole, &tail);
    if !same_chars(&whole, &chars) {
        assert forall|other: Seq<char>| !is_workspace_path(path@, other) by {
            if is_workspace_path(path@, other) {
                lemma_workspace_path_shape(path@, other);
                assert(other =~= name@);
                assert(whole@ =~= "/v1/"@ + other + "/search"@);
            }
        }
        return None;
    }
    Some(string_from_chars(&name))
}

/// Whether two vectors hold the same characters.
fn same_chars(left: &Vec<char>, right: &Vec<char>) -> (same: bool)
    ensures
        same == (left@ == right@),
{
    if left.len() != right.len() {
        return false;
    }
    let mut i: usize = 0;
    while i < left.len()
        invariant
            i <= left.len(),
            left.len() == right.len(),
            forall|j: int| 0 <= j < i ==> left@[j] == right@[j],
        decreases left.len() - i,
    {
        if left[i] != right[i] {
            return false;
        }
        i += 1;
    }
    assert(left@ =~= right@);
    true
}

/// The search path of a workspace is eleven characters longer than the
/// name, which stands in it from the fifth character on.
pub proof fn lemma_workspace_path_shape(path: Seq<char>, name: Seq<char>)
    requires
        is_workspace_path(path, name),
    ensures
        path.len() == name.len() + 11,
        forall|k: int| 0 <= k < name.len() ==> path[k + 4] == #[trigger] name[k],
{
    reveal_strlit("/v1/");
    reveal_strlit("/search");
    let whole = "/v1/"@ + name + "/search"@;
    assert(whole.len() == 4 + name.len() + 7);
    assert forall|k: int| 0 <= k < name.len() implies whole[k + 4] == #[trigger] name[k] by {
        assert(("/v1/"@ + name)[k + 4] == name[k]);
    }
}

/// The search path of a workspace names one workspace only.
pub proof fn lemma_workspace_path_unique(path: Seq<char>, first: Seq<char>, second: Seq<char>)
    requires
        is_workspace_path(path, first),
        is_workspace_path(path, second),
    ensures
        first == second,
{
    lemma_workspace_path_shape(path, first);
    lemma_workspace_path_shape(path, second);
    assert(first =~= second);
}

/// Finds the route of a request.
pub fn route(method: &str, path: &str) -> (found: Route)
    ensures
        found@ == route_of(method@, path@),
{
    if same_text(method, "GET") && same_text(path, "/health") {
        return Route::Health;
    }
    if !same_text(method, "POST") {
        proof {
            reveal_strlit("GET");
            reveal_strlit("POST");
        }
        return Route::Unknown;
    }
    proof {
        reveal_strlit("GET");
        reveal_strlit("POST");
    }
    if same_text(path, "/search") {
        return Route::Search { workspace: "default".to_owned() };
    }
    match workspace_of_path(path) {
        Some(workspace) => {
            proof {
                let chosen = choose|name: Seq<char>| is_workspace_path(path@, name);
                lemma_workspace_path_unique(path@, workspace@, chosen);
            }
            Route::Search { workspace }
        },
        None => Route::Unknown,
    }
}

/// The HTTP status of a search: 200 with results, else the status of the
/// error.
pub fn response_status(outcome: &Result<Vec<SearchResult>, CodeRagError>) -> (status: u16)
    ensures
        status == match outcome {
            Ok(_) => 200u16,
            Err(error) => http_status_of(*error),
        },
{
    match outcome {
        Ok(_) => 200,
        Err(error) => error.http_status(),
    }
}

/// What a JSON-RPC request holds that the server goes by.
#[derive(Debug)]
pub struct McpRequest {
    pub method: String,
    /// Whether the request has an id, that is, asks for a response.
    pub has_id: bool,
    /// Whether the request has parameters.
    pub has_params: bool,
    /// The name of the tool that the parameters call; empty where they name
    /// none.
    pub tool: String,
    /// Whether the parameters hold arguments for the tool.
    pub has_arguments: bool,
    pub query: Option<String>,
    pub limit: Option<u64>,
    pub workspace: Option<String>,
}

/// What the server does for a request.
#[derive(Debug)]
pub enum McpAction {
    /// Describe the server and what it can do.
    Initialize,
    /// List the tools: the one `search` tool.
    ListTools,
    /// Search, and report the results or the failure.
    Search { query: String, limit: usize, workspace: String },
    /// Report an error.
    Fail { code: i32, message: String },
    /// Do nothing.
    Nothing,
}

/// What an `McpAction` holds, as mathematical values.
pub enum ActionModel {
    Initialize,
    ListTools,
    Search { query: Seq<char>, limit: usize, workspace: Seq<char> },
    Fail { code: i32, message: Seq<char> },
    Nothing,
}

impl View for McpAction {
    type V = ActionModel;

    open spec fn view(&self) -> ActionModel {
        match self {
            McpAction::Initialize => ActionModel::Initialize,
            McpAction::ListTools => ActionModel::ListTools,
            McpAction::Search { query, limit, workspace } => ActionModel::Search {
                query: query@,
                limit: *limit,
                workspace: workspace@,
            },
            McpAction::Fail { code, message } => ActionModel::Fail {
                code: *code,
                message: message@,
            },
            McpAction::Nothing => ActionModel::Nothing,
        }
    }
}

/// An optional text, or a default where there is none.
pub open spec fn text_or(text: Option<String>, default: Seq<char>) -> Seq<char> {
    match text {
        Some(text) => text@,
        None => default,
    }
}

/// The limit of a tool call: the one given, as far as the machine can
/// count, else 10.
pub open spec fn tool_limit(limit: Option<u64>) -> usize {
    match limit {
        Some(limit) => if limit > usize::MAX {
            usize::MAX
        } else {
            limit as usize
        },
        None => 10,
    }
}

/// What the server does for a request: it answers `initialize` and
/// `tools/list`, ignores `notifications/initialized`, and on `tools/call`
/// searches if the `search` tool is called with arguments. A call without
/// parameters or arguments has invalid parameters; another tool, like
/// another method of a request that asks for a response, is not found;
/// another method of a notification is ignored.
pub open spec fn action_of(request: McpRequest) -> ActionModel {
    if request.method@ == "initialize"@ {
        ActionModel::Initialize
    } else if request.method@ == "notifications/initialized"@ {
        ActionModel::Nothing
    } else if request.method@ == "tools/list"@ {
        ActionModel::ListTools
    } else if request.method@ == "tools/call"@ {
        if !request.has_params {
            ActionModel::Fail { code: MCP_INVALID_PARAMS, message: "Invalid params"@ }
        } else if request.tool@ != "search"@ {
            ActionModel::Fail {
                code: MCP_METHOD_NOT_FOUND,
                message: "Tool not found: "@ + request.tool@,
            }
        } else if !request.has_arguments {
            ActionModel::Fail { code: MCP_INVALID_PARAMS, message: "Missing arguments"@ }
        } else {
            ActionModel::Search {
                query: text_or(request.query, Seq::empty()),
                limit: tool_limit(request.limit),
                workspace: text_or(request.workspace, "default"@),
            }
        }
    } else if request.has_id {
        ActionModel::Fail { code: MCP_METHOD_NOT_FOUND, message: "Method not found"@ }
    } else {
        ActionModel::Nothing
    }
}

/// Whether the server writes a response: only to a request that has an id
/// and is no notification that it merely took note of.
pub open spec fn responds_to(request: McpRequest) -> bool {
    request.has_id && !(action_of(request) is Nothing)
}

/// Decides what the server does for a request.
pub fn dispatch(request: &McpRequest) -> (action: McpAction)
    ensures
        action@ == action_of(*request),
{
    let method = request.method.as_str();
    if same_text(method, "initialize") {
        McpAction::Initialize
    } else if same_text(method, "notifications/initialized") {
        McpAction::Nothing
    } else if same_text(method, "tools/list") {
        McpAction::ListTools
    } else if same_text(method, "tools/call") {
        if !request.has_params {
            McpAction::Fail { code: MCP_INVALID_PARAMS, message: "Invalid params".to_owned() }
        } else if !same_text(request.tool.as_str(), "search") {
            McpAction::Fail {
                code: MCP_METHOD_NOT_FOUND,
                message: "Tool not found: ".to_owned().concat(request.tool.as_str()),
            }
        } else if !request.has_arguments {
            McpAction::Fail { code: MCP_INVALID_PARAMS, message: "Missing arguments".to_owned() }
        } else {
            let query = match &request.query {
                Some(query) => query.clone(),
                None => String::new(),
            };
            let limit: usize = match request.limit {
                Some(limit) => if limit > usize::MAX as u64 {
                    usize::MAX
                } else {
                    limit as usize
                },
                None => 10,
            };
            let workspace = match &request.workspace {
                Some(workspace) => workspace.clone(),
                None => "default".to_owned(),
            };
            McpAction::Search { query, limit, workspace }
        }
    } else if request.has_id {
        McpAction::Fail { code: MCP_METHOD_NOT_FOUND, message: "Method not found".to_owned() }
    } else {
        McpAction::Nothing
    }
}

/// Whether the server writes a response to a request.
pub fn responds(request: &McpRequest) -> (writes: bool)
    ensures
        writes == responds_to(*request),
{
    if !request.has_id {
        return false;
    }
    match dispatch(request) {
        McpAction::Nothing => false,
        _ => true,
    }
}

/// The error that a tool reports for a failed search.
pub fn search_failure(error: &CodeRagError) -> (action: McpAction)
    ensures
        action@ == (ActionModel::Fail {
            code: MCP_APPLICATION_ERROR,
            message: "Search failed: "@ + crate::error::error_label(*error)
                + crate::error::error_detail(*error),
        }),
{
    let detail = error.message();
    let message = "Search failed: ".to_owned().concat(detail.as_str());
    assert(message@ =~= "Search failed: "@ + crate::error::error_label(*error)
        + crate::error::error_detail(*error));
    McpAction::Fail { code: error.mcp_code(), message }
}

} // verus!
