//! The errors that the search engine reports, and how the service surfaces
//! show them.

use vstd::prelude::*;
use vstd::string::StringExecFns;

verus! {

/// An error of a request handler, shown to the client as its message.
#[derive(Debug)]
pub struct AppError {
    pub message: String,
}

impl AppError {
    /// An error with this message.
    pub fn new(message: String) -> (error: AppError)
        ensures
            error.message == message,
    {
        AppError { message }
    }

    /// The HTTP status under which the error is sent: always 500.
    pub fn status(&self) -> (status: u16)
        ensures
            status == 500,
    {
        500
    }
}

/// What can go wrong in the search engine.
#[derive(Debug)]
pub enum CodeRagError {
    /// A file or the network failed.
    Io(String),
    /// The configuration could not be read.
    Config(String),
    /// The vector store failed.
    Database(String),
    /// The embedding model failed.
    Embedding(String),
    /// The retrieval pipeline failed.
    Search(String),
    /// The HTTP service failed.
    Server(String),
    /// A value could not be written or read as JSON.
    Serialization(String),
    /// The lexical store failed.
    Tantivy(String),
    /// A write was attempted on a read-only handle.
    ReadOnly,
    /// There is neither data nor a directory for the workspace.
    WorkspaceNotFound(String),
    /// Anything else.
    Generic(String),
}

/// The kind of the error, in words, as it stands in front of the detail.
pub open spec fn error_label(error: CodeRagError) -> Seq<char> {
    match error {
        CodeRagError::Io(_) => "IO error: "@,
        CodeRagError::Config(_) => "Configuration error: "@,
        CodeRagError::Database(_) => "Database error: "@,
        CodeRagError::Embedding(_) => "Embedding error: "@,
        CodeRagError::Search(_) => "Search error: "@,
        CodeRagError::Server(_) => "Server error: "@,
        CodeRagError::Serialization(_) => "Serialization error: "@,
        CodeRagError::Tantivy(_) => "Tantivy error: "@,
        CodeRagError::ReadOnly => "Index is read-only"@,
        CodeRagError::WorkspaceNotFound(_) => "Workspace not found: "@,
        CodeRagError::Generic(_) => "Generic error: "@,
    }
}

/// The detail that the error carries; empty where it carries none.
pub open spec fn error_detail(error: CodeRagError) -> Seq<char> {
    match error {
        CodeRagError::Io(detail) => detail@,
        CodeRagError::Config(detail) => detail@,
        CodeRagError::Database(detail) => detail@,
        CodeRagError::Embedding(detail) => detail@,
        CodeRagError::Search(detail) => detail@,
        CodeRagError::Server(detail) => detail@,
        CodeRagError::Serialization(detail) => detail@,
        CodeRagError::Tantivy(detail) => detail@,
        CodeRagError::ReadOnly => Seq::empty(),
        CodeRagError::WorkspaceNotFound(detail) => detail@,
        CodeRagError::Generic(detail) => detail@,
    }
}

/// The HTTP status of an error: 404 for a workspace that is not there, 500
/// for everything else.
pub open spec fn http_status_of(error: CodeRagError) -> u16 {
    if error is WorkspaceNotFound {
        404
    } else {
        500
    }
}

/// The JSON-RPC code under which a tool reports a failed search.
pub const MCP_APPLICATION_ERROR: i32 = -32000;

/// The JSON-RPC code for a method or a tool that does not exist.
pub const MCP_METHOD_NOT_FOUND: i32 = -32601;

/// The JSON-RPC code for a call without usable parameters.
pub const MCP_INVALID_PARAMS: i32 = -32602;

impl CodeRagError {
    /// The message of the error: its kind, then its detail.
    pub fn message(&self) -> (text: String)
        ensures
            text@ == error_label(*self) + error_detail(*self),
    {
        match self {
            CodeRagError::Io(detail) => "IO error: ".to_owned().concat(detail.as_str()),
            CodeRagError::Config(detail) => "Configuration error: ".to_owned().concat(
                detail.as_str(),
            ),
            CodeRagError::Database(detail) => "Database error: ".to_owned().concat(detail.as_str()),
            CodeRagError::Embedding(detail) => "Embedding error: ".to_owned().concat(
                detail.as_str(),
            ),
            CodeRagError::Search(detail) => "Search error: ".to_owned().concat(detail.as_str()),
            CodeRagError::Server(detail) => "Server error: ".to_owned().concat(detail.as_str()),
            CodeRagError::Serialization(detail) => "Serialization error: ".to_owned().concat(
                detail.as_str(),
            ),
            CodeRagError::Tantivy(detail) => "Tantivy error: ".to_owned().concat(detail.as_str()),
            CodeRagError::ReadOnly => {
                let text = "Index is read-only".to_owned();
                assert(text@ + Seq::<char>::empty() =~= text@);
                text
            },
            CodeRagError::WorkspaceNotFound(detail) => "Workspace not found: ".to_owned().concat(
                detail.as_str(),
            ),
            CodeRagError::Generic(detail) => "Generic error: ".to_owned().concat(detail.as_str()),
        }
    }

    /// The HTTP status under which the error is sent.
    pub fn http_status(&self) -> (status: u16)
        ensures
            status == http_status_of(*self),
    {
        match self {
            CodeRagError::WorkspaceNotFound(_) => 404,
            _ => 500,
        }
    }

    /// The JSON-RPC code under which the error is sent: that of an
    /// application error, whatever its kind.
    pub fn mcp_code(&self) -> (code: i32)
        ensures
            code == MCP_APPLICATION_ERROR,
    {
        MCP_APPLICATION_ERROR
    }
}

} // verus!
