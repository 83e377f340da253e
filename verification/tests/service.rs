use code_rag::bm25::{lexical_directory, merge_policy, MergePolicy};
use code_rag::embedding::{
    degrades_to_cpu, device, dimension, embedding_model, execution_providers, find_embedding_model,
    reranker_known, reranker_model, Device, EmbeddingModelName, ExecutionProvider, RerankerModelName,
};
use code_rag::error::{AppError, CodeRagError};
use code_rag::server::{
    default_limit, dispatch, responds, response_status, route, search_failure, workspace_of_path,
    McpAction, McpRequest, Route, SearchRequest,
};
use code_rag::storage::{delete_predicate, filename_predicate, table_name, workspace_predicate};
use code_rag::telemetry::AppMode;

fn request(method: &str, has_id: bool) -> McpRequest {
    McpRequest {
        method: method.to_string(),
        has_id,
        has_params: false,
        tool: String::new(),
        has_arguments: false,
        query: None,
        limit: None,
        workspace: None,
    }
}

fn call(tool: &str, has_arguments: bool) -> McpRequest {
    let mut request = request("tools/call", true);
    request.has_params = true;
    request.tool = tool.to_string();
    request.has_arguments = has_arguments;
    request
}

fn failure(action: &McpAction) -> (i32, &str) {
    match action {
        McpAction::Fail { code, message } => (*code, message.as_str()),
        _ => panic!("expected a failure"),
    }
}

#[test]
fn request_defaults() {
    assert_eq!(default_limit(), 5);
    let bare = SearchRequest::with_defaults("q".to_string(), None, None, None, None, None, None);
    assert_eq!((bare.query.as_str(), bare.limit, bare.no_rerank, bare.expand), ("q", 5, false, false));
    assert_eq!((bare.ext, bare.dir, bare.max_tokens), (None, None, None));
    let full = SearchRequest::with_defaults(
        "q".to_string(),
        Some(0),
        Some("rs".to_string()),
        Some("src".to_string()),
        Some(true),
        Some(100),
        Some(true),
    );
    assert_eq!((full.limit, full.no_rerank, full.expand, full.max_tokens), (0, true, true, Some(100)));
    assert_eq!((full.ext.as_deref(), full.dir.as_deref()), (Some("rs"), Some("src")));
    let off = SearchRequest::with_defaults("q".to_string(), Some(9), None, None, Some(false), None, Some(false));
    assert_eq!((off.limit, off.no_rerank, off.expand), (9, false, false));
}

#[test]
fn routes() {
    assert!(matches!(route("GET", "/health"), Route::Health));
    assert!(matches!(route("POST", "/health"), Route::Unknown));
    assert!(matches!(route("get", "/health"), Route::Unknown));
    match route("POST", "/search") {
        Route::Search { workspace } => assert_eq!(workspace, "default"),
        _ => panic!("expected a search"),
    }
    match route("POST", "/v1/docs/search") {
        Route::Search { workspace } => assert_eq!(workspace, "docs"),
        _ => panic!("expected a search"),
    }
    match route("POST", "/v1/search/search") {
        Route::Search { workspace } => assert_eq!(workspace, "search"),
        _ => panic!("expected a search"),
    }
    for path in ["/v1//search", "/v1/a/b/search", "/v1/a/search/", "/v2/a/search", "/v1/a/find", "/search/", "/", ""] {
        assert!(matches!(route("POST", path), Route::Unknown), "path {:?}", path);
    }
    assert!(matches!(route("GET", "/search"), Route::Unknown));
    assert!(matches!(route("GET", "/v1/docs/search"), Route::Unknown));
    assert_eq!(workspace_of_path("/v1/team-a/search"), Some("team-a".to_string()));
    assert_eq!(workspace_of_path("/v1/\u{e9}/search"), Some("\u{e9}".to_string()));
    assert_eq!(workspace_of_path("/V1/a/search"), None);
}

#[test]
fn statuses() {
    assert_eq!(response_status(&Ok(vec![])), 200);
    assert_eq!(response_status(&Err(CodeRagError::WorkspaceNotFound("w".to_string()))), 404);
    assert_eq!(response_status(&Err(CodeRagError::Search("boom".to_string()))), 500);
    assert_eq!(response_status(&Err(CodeRagError::ReadOnly)), 500);
    assert_eq!(AppError::new("x".to_string()).status(), 500);
    assert_eq!(AppError::new("x".to_string()).message, "x");
}

#[test]
fn error_messages() {
    let cases = vec![
        (CodeRagError::Io("disk".to_string()), "IO error: disk"),
        (CodeRagError::Config("bad".to_string()), "Configuration error: bad"),
        (CodeRagError::Database("db".to_string()), "Database error: db"),
        (CodeRagError::Embedding("model".to_string()), "Embedding error: model"),
        (CodeRagError::Search("s".to_string()), "Search error: s"),
        (CodeRagError::Server("bind".to_string()), "Server error: bind"),
        (CodeRagError::Serialization("json".to_string()), "Serialization error: json"),
        (CodeRagError::Tantivy("lock".to_string()), "Tantivy error: lock"),
        (CodeRagError::ReadOnly, "Index is read-only"),
        (CodeRagError::WorkspaceNotFound("docs".to_string()), "Workspace not found: docs"),
        (CodeRagError::Generic("".to_string()), "Generic error: "),
    ];
    for (error, message) in cases {
        assert_eq!(error.message(), message);
        assert_eq!(error.mcp_code(), -32000);
        let expected = if matches!(error, CodeRagError::WorkspaceNotFound(_)) { 404 } else { 500 };
        assert_eq!(error.http_status(), expected);
    }
}

#[test]
fn mcp_methods() {
    assert!(matches!(dispatch(&request("initialize", true)), McpAction::Initialize));
    assert!(matches!(dispatch(&request("tools/list", true)), McpAction::ListTools));
    assert!(matches!(dispatch(&request("notifications/initialized", false)), McpAction::Nothing));
    assert!(matches!(dispatch(&request("notifications/initialized", true)), McpAction::Nothing));
    assert!(matches!(dispatch(&request("notifications/other", false)), McpAction::Nothing));
    assert_eq!(failure(&dispatch(&request("resources/list", true))), (-32601, "Method not found"));
    assert_eq!(failure(&dispatch(&request("Initialize", true))), (-32601, "Method not found"));
    assert!(responds(&request("initialize", true)));
    assert!(!responds(&request("initialize", false)));
    assert!(!responds(&request("notifications/initialized", true)));
    assert!(responds(&request("resources/list", true)));
    assert!(!responds(&request("resources/list", false)));
}

#[test]
fn mcp_tool_calls() {
    assert_eq!(failure(&dispatch(&request("tools/call", true))), (-32602, "Invalid params"));
    assert_eq!(failure(&dispatch(&call("grep", true))), (-32601, "Tool not found: grep"));
    assert_eq!(failure(&dispatch(&call("", true))), (-32601, "Tool not found: "));
    assert_eq!(failure(&dispatch(&call("search", false))), (-32602, "Missing arguments"));
    match dispatch(&call("search", true)) {
        McpAction::Search { query, limit, workspace } => {
            assert_eq!((query.as_str(), limit, workspace.as_str()), ("", 10, "default"));
        }
        _ => panic!("expected a search"),
    }
    let mut full = call("search", true);
    full.query = Some("parse json".to_string());
    full.limit = Some(3);
    full.workspace = Some("docs".to_string());
    match dispatch(&full) {
        McpAction::Search { query, limit, workspace } => {
            assert_eq!((query.as_str(), limit, workspace.as_str()), ("parse json", 3, "docs"));
        }
        _ => panic!("expected a search"),
    }
    full.limit = Some(u64::MAX);
    match dispatch(&full) {
        McpAction::Search { limit, .. } => assert_eq!(limit, usize::MAX),
        _ => panic!("expected a search"),
    }
    assert_eq!(
        failure(&search_failure(&CodeRagError::Database("table missing".to_string()))),
        (-32000, "Search failed: Database error: table missing")
    );
}

#[test]
fn merge_policies() {
    assert_eq!(merge_policy("log"), MergePolicy::Log { min_layer_size: 8 });
    assert_eq!(merge_policy("fast-write"), MergePolicy::Log { min_layer_size: 10 });
    assert_eq!(merge_policy("fast-search"), MergePolicy::Default);
    assert_eq!(merge_policy("anything"), MergePolicy::Log { min_layer_size: 8 });
    assert_eq!(merge_policy("FAST-SEARCH"), MergePolicy::Log { min_layer_size: 8 });
    assert_eq!(lexical_directory(), "bm25_index");
}

#[test]
fn devices_and_providers() {
    assert_eq!(device("cpu"), Device::Cpu);
    assert_eq!(device("CUDA"), Device::Cuda);
    assert_eq!(device("Metal"), Device::Metal);
    assert_eq!(device("auto"), Device::Auto);
    assert_eq!(device("tpu"), Device::Auto);
    assert_eq!(device(""), Device::Auto);
    assert_eq!(execution_providers(Device::Cpu, true, true), vec![ExecutionProvider::Cpu]);
    assert_eq!(execution_providers(Device::Cuda, true, false), vec![ExecutionProvider::Cuda, ExecutionProvider::Cpu]);
    assert_eq!(execution_providers(Device::Cuda, false, true), vec![ExecutionProvider::Cpu]);
    assert_eq!(execution_providers(Device::Metal, false, true), vec![ExecutionProvider::CoreMl, ExecutionProvider::Cpu]);
    assert_eq!(execution_providers(Device::Metal, true, false), vec![ExecutionProvider::Cpu]);
    assert_eq!(execution_providers(Device::Auto, true, true), vec![ExecutionProvider::Cuda, ExecutionProvider::CoreMl, ExecutionProvider::Cpu]);
    assert_eq!(execution_providers(Device::Auto, false, true), vec![ExecutionProvider::CoreMl, ExecutionProvider::Cpu]);
    assert_eq!(execution_providers(Device::Auto, false, false), vec![ExecutionProvider::Cpu]);
    assert!(degrades_to_cpu(Device::Cuda, false, true));
    assert!(degrades_to_cpu(Device::Metal, true, false));
    assert!(!degrades_to_cpu(Device::Cuda, true, false));
    assert!(!degrades_to_cpu(Device::Auto, false, false));
    assert!(!degrades_to_cpu(Device::Cpu, false, false));
}

#[test]
fn model_names() {
    assert_eq!(find_embedding_model("nomic-embed-text-v1.5"), Some(EmbeddingModelName::NomicEmbedTextV15));
    assert_eq!(find_embedding_model("All-MiniLM-L6-v2"), Some(EmbeddingModelName::AllMiniLML6V2));
    assert_eq!(find_embedding_model("BGE-BASE-EN-V1.5"), Some(EmbeddingModelName::BGEBaseENV15));
    assert_eq!(find_embedding_model("bge-small-en-v1.5"), Some(EmbeddingModelName::BGESmallENV15));
    assert_eq!(find_embedding_model("multilingual-e5-large"), Some(EmbeddingModelName::MultilingualE5Large));
    assert_eq!(find_embedding_model("gpt"), None);
    assert_eq!(embedding_model("gpt"), EmbeddingModelName::NomicEmbedTextV15);
    assert_eq!(embedding_model("bge-small-en-v1.5"), EmbeddingModelName::BGESmallENV15);
    assert!(reranker_known("BGE-reranker-base"));
    assert!(!reranker_known("bge-reranker-v2-m3"));
    assert_eq!(reranker_model("bge-reranker-v2-m3"), RerankerModelName::BGERerankerBase);
    assert_eq!(dimension(Some(384)), 384);
    assert_eq!(dimension(None), 768);
}

#[test]
fn store_predicates() {
    assert_eq!(table_name(), "code_chunks");
    assert_eq!(filename_predicate("src/a.rs"), "filename = 'src/a.rs'");
    assert_eq!(filename_predicate("it's.rs"), "filename = 'it''s.rs'");
    assert_eq!(filename_predicate("''"), "filename = ''''''");
    assert_eq!(workspace_predicate("default"), "workspace = 'default'");
    assert_eq!(delete_predicate("o'neil", "a.rs"), "workspace = 'o''neil' AND filename = 'a.rs'");
}

#[test]
fn modes() {
    assert_ne!(AppMode::Cli, AppMode::Server);
}
