//! The closed tables of the chunker: which file extensions map to which
//! language, and which node kinds make a chunk.

use vstd::prelude::*;
use crate::syntax::SourceLanguage;
use crate::text::{contains, contains_text, chars_of, same_text};

verus! {

/// The language that files with this extension are written in, if any.
pub open spec fn language_of(extension: Seq<char>) -> Option<SourceLanguage> {
    if extension == "rs"@ {
        Some(SourceLanguage::Rust)
    } else if extension == "py"@ {
        Some(SourceLanguage::Python)
    } else if extension == "go"@ {
        Some(SourceLanguage::Go)
    } else if extension == "c"@ {
        Some(SourceLanguage::C)
    } else if extension == "h"@ {
        Some(SourceLanguage::C)
    } else if extension == "cpp"@ {
        Some(SourceLanguage::Cpp)
    } else if extension == "hpp"@ {
        Some(SourceLanguage::Cpp)
    } else if extension == "cc"@ {
        Some(SourceLanguage::Cpp)
    } else if extension == "cxx"@ {
        Some(SourceLanguage::Cpp)
    } else if extension == "js"@ {
        Some(SourceLanguage::JavaScript)
    } else if extension == "jsx"@ {
        Some(SourceLanguage::JavaScript)
    } else if extension == "ts"@ {
        Some(SourceLanguage::TypeScript)
    } else if extension == "tsx"@ {
        Some(SourceLanguage::TypeScript)
    } else if extension == "java"@ {
        Some(SourceLanguage::Java)
    } else if extension == "cs"@ {
        Some(SourceLanguage::CSharp)
    } else if extension == "rb"@ {
        Some(SourceLanguage::Ruby)
    } else if extension == "php"@ {
        Some(SourceLanguage::Php)
    } else if extension == "html"@ {
        Some(SourceLanguage::Html)
    } else if extension == "css"@ {
        Some(SourceLanguage::Css)
    } else if extension == "sh"@ {
        Some(SourceLanguage::Bash)
    } else if extension == "bash"@ {
        Some(SourceLanguage::Bash)
    } else if extension == "ps1"@ {
        Some(SourceLanguage::PowerShell)
    } else if extension == "yaml"@ {
        Some(SourceLanguage::Yaml)
    } else if extension == "yml"@ {
        Some(SourceLanguage::Yaml)
    } else if extension == "json"@ {
        Some(SourceLanguage::Json)
    } else if extension == "zig"@ {
        Some(SourceLanguage::Zig)
    } else if extension == "ex"@ {
        Some(SourceLanguage::Elixir)
    } else if extension == "exs"@ {
        Some(SourceLanguage::Elixir)
    } else if extension == "hs"@ {
        Some(SourceLanguage::Haskell)
    } else if extension == "sol"@ {
        Some(SourceLanguage::Solidity)
    } else {
        None
    }
}

/// Decides `language_of`.
pub fn language_for_extension(extension: &str) -> (language: Option<SourceLanguage>)
    ensures
        language == language_of(extension@),
{
    if same_text(extension, "rs") {
        Some(SourceLanguage::Rust)
    } else if same_text(extension, "py") {
        Some(SourceLanguage::Python)
    } else if same_text(extension, "go") {
        Some(SourceLanguage::Go)
    } else if same_text(extension, "c") {
        Some(SourceLanguage::C)
    } else if same_text(extension, "h") {
        Some(SourceLanguage::C)
    } else if same_text(extension, "cpp") {
        Some(SourceLanguage::Cpp)
    } else if same_text(extension, "hpp") {
        Some(SourceLanguage::Cpp)
    } else if same_text(extension, "cc") {
        Some(SourceLanguage::Cpp)
    } else if same_text(extension, "cxx") {
        Some(SourceLanguage::Cpp)
    } else if same_text(extension, "js") {
        Some(SourceLanguage::JavaScript)
    } else if same_text(extension, "jsx") {
        Some(SourceLanguage::JavaScript)
    } else if same_text(extension, "ts") {
        Some(SourceLanguage::TypeScript)
    } else if same_text(extension, "tsx") {
        Some(SourceLanguage::TypeScript)
    } else if same_text(extension, "java") {
        Some(SourceLanguage::Java)
    } else if same_text(extension, "cs") {
        Some(SourceLanguage::CSharp)
    } else if same_text(extension, "rb") {
        Some(SourceLanguage::Ruby)
    } else if same_text(extension, "php") {
        Some(SourceLanguage::Php)
    } else if same_text(extension, "html") {
        Some(SourceLanguage::Html)
    } else if same_text(extension, "css") {
        Some(SourceLanguage::Css)
    } else if same_text(extension, "sh") {
        Some(SourceLanguage::Bash)
    } else if same_text(extension, "bash") {
        Some(SourceLanguage::Bash)
    } else if same_text(extension, "ps1") {
        Some(SourceLanguage::PowerShell)
    } else if same_text(extension, "yaml") {
        Some(SourceLanguage::Yaml)
    } else if same_text(extension, "yml") {
        Some(SourceLanguage::Yaml)
    } else if same_text(extension, "json") {
        Some(SourceLanguage::Json)
    } else if same_text(extension, "zig") {
        Some(SourceLanguage::Zig)
    } else if same_text(extension, "ex") {
        Some(SourceLanguage::Elixir)
    } else if same_text(extension, "exs") {
        Some(SourceLanguage::Elixir)
    } else if same_text(extension, "hs") {
        Some(SourceLanguage::Haskell)
    } else if same_text(extension, "sol") {
        Some(SourceLanguage::Solidity)
    } else {
        None
    }
}

/// Whether a node of this kind is a semantic unit in some language.
pub open spec fn is_semantic_kind(kind: Seq<char>) -> bool {
    kind == "function_item"@
    || kind == "impl_item"@
    || kind == "struct_item"@
    || kind == "enum_item"@
    || kind == "mod_item"@
    || kind == "const_item"@
    || kind == "static_item"@
    || kind == "function_definition"@
    || kind == "class_definition"@
    || kind == "function_statement"@
    || kind == "function_declaration"@
    || kind == "method_declaration"@
    || kind == "type_declaration"@
    || kind == "class_specifier"@
    || kind == "struct_specifier"@
    || kind == "class_declaration"@
    || kind == "method_definition"@
    || kind == "arrow_function"@
    || kind == "interface_declaration"@
    || kind == "record_declaration"@
    || kind == "method"@
    || kind == "class"@
    || kind == "script_element"@
    || kind == "style_element"@
    || kind == "rule_set"@
    || kind == "media_statement"@
    || kind == "keyframes_statement"@
    || kind == "param_block"@
    || kind == "block_mapping_pair"@
    || kind == "pair"@
    || kind == "object"@
    || kind == "Decls"@
    || kind == "FnProto"@
    || kind == "ContainerField"@
    || kind == "call"@
    || kind == "do_block"@
    || kind == "signature"@
    || kind == "function"@
    || kind == "contract_declaration"@
    || kind == "interface_definition"@
    || kind == "library_definition"@
}

/// Decides `is_semantic_kind`.
pub fn semantic_kind(kind: &str) -> (yes: bool)
    ensures
        yes == is_semantic_kind(kind@),
{
    same_text(kind, "function_item")
    || same_text(kind, "impl_item")
    || same_text(kind, "struct_item")
    || same_text(kind, "enum_item")
    || same_text(kind, "mod_item")
    || same_text(kind, "const_item")
    || same_text(kind, "static_item")
    || same_text(kind, "function_definition")
    || same_text(kind, "class_definition")
    || same_text(kind, "function_statement")
    || same_text(kind, "function_declaration")
    || same_text(kind, "method_declaration")
    || same_text(kind, "type_declaration")
    || same_text(kind, "class_specifier")
    || same_text(kind, "struct_specifier")
    || same_text(kind, "class_declaration")
    || same_text(kind, "method_definition")
    || same_text(kind, "arrow_function")
    || same_text(kind, "interface_declaration")
    || same_text(kind, "record_declaration")
    || same_text(kind, "method")
    || same_text(kind, "class")
    || same_text(kind, "script_element")
    || same_text(kind, "style_element")
    || same_text(kind, "rule_set")
    || same_text(kind, "media_statement")
    || same_text(kind, "keyframes_statement")
    || same_text(kind, "param_block")
    || same_text(kind, "block_mapping_pair")
    || same_text(kind, "pair")
    || same_text(kind, "object")
    || same_text(kind, "Decls")
    || same_text(kind, "FnProto")
    || same_text(kind, "ContainerField")
    || same_text(kind, "call")
    || same_text(kind, "do_block")
    || same_text(kind, "signature")
    || same_text(kind, "function")
    || same_text(kind, "contract_declaration")
    || same_text(kind, "interface_definition")
    || same_text(kind, "library_definition")
}

/// Whether files with this extension are scripts, whose top-level statements are
/// units of their own.
pub open spec fn is_script_extension(extension: Seq<char>) -> bool {
    extension == "py"@
    || extension == "js"@
    || extension == "ts"@
    || extension == "jsx"@
    || extension == "tsx"@
    || extension == "rb"@
    || extension == "lua"@
    || extension == "sh"@
    || extension == "bash"@
    || extension == "ps1"@
}

/// Decides `is_script_extension`.
pub fn script_extension(extension: &str) -> (yes: bool)
    ensures
        yes == is_script_extension(extension@),
{
    same_text(extension, "py")
    || same_text(extension, "js")
    || same_text(extension, "ts")
    || same_text(extension, "jsx")
    || same_text(extension, "tsx")
    || same_text(extension, "rb")
    || same_text(extension, "lua")
    || same_text(extension, "sh")
    || same_text(extension, "bash")
    || same_text(extension, "ps1")
}

/// Whether a node of this kind is a top-level statement of a script.
pub open spec fn is_script_statement_kind(kind: Seq<char>) -> bool {
    kind == "if_statement"@
    || kind == "flow_statement"@
    || kind == "expression_statement"@
    || kind == "assignment"@
    || kind == "variable_declaration"@
    || kind == "lexical_declaration"@
    || kind == "function_call"@
    || kind == "call"@
    || kind == "command"@
    || kind == "pipeline"@
    || kind == "if_expression"@
    || kind == "for_expression"@
}

/// Decides `is_script_statement_kind`.
pub fn script_statement_kind(kind: &str) -> (yes: bool)
    ensures
        yes == is_script_statement_kind(kind@),
{
    same_text(kind, "if_statement")
    || same_text(kind, "flow_statement")
    || same_text(kind, "expression_statement")
    || same_text(kind, "assignment")
    || same_text(kind, "variable_declaration")
    || same_text(kind, "lexical_declaration")
    || same_text(kind, "function_call")
    || same_text(kind, "call")
    || same_text(kind, "command")
    || same_text(kind, "pipeline")
    || same_text(kind, "if_expression")
    || same_text(kind, "for_expression")
}

/// Whether a node of this kind at this depth is a top-level statement of a
/// script: a direct child of the root, or for PowerShell also a grandchild.
pub open spec fn is_script_chunk(extension: Seq<char>, kind: Seq<char>, depth: int) -> bool {
    is_script_extension(extension) && (depth == 1 || (extension == "ps1"@ && depth == 2))
        && is_script_statement_kind(kind)
}

/// Whether a node of this kind at this depth makes a chunk.
pub open spec fn is_chunkable(extension: Seq<char>, kind: Seq<char>, depth: int) -> bool {
    is_semantic_kind(kind) || (extension == "rb"@ && kind == "module"@) || is_script_chunk(
        extension,
        kind,
        depth,
    )
}

/// Decides `is_chunkable`.
pub fn chunkable(extension: &str, kind: &str, depth: usize) -> (yes: bool)
    ensures
        yes == is_chunkable(extension@, kind@, depth as int),
{
    semantic_kind(kind) || (same_text(extension, "rb") && same_text(kind, "module")) || (
    script_extension(extension) && (depth == 1 || (same_text(extension, "ps1") && depth == 2))
        && script_statement_kind(kind))
}

/// Whether a node of this kind is a container: a chunk of its own whose
/// children are visited too.
pub open spec fn is_container_kind(kind: Seq<char>) -> bool {
    contains_text(kind, "class"@) || contains_text(kind, "impl"@) || contains_text(
        kind,
        "struct"@,
    ) || kind == "element"@ || kind == "stylesheet"@
}

/// Decides `is_container_kind`.
pub fn container_kind(kind: &str) -> (yes: bool)
    ensures
        yes == is_container_kind(kind@),
{
    let chars = chars_of(kind);
    contains(&chars, &chars_of("class")) || contains(&chars, &chars_of("impl")) || contains(
        &chars,
        &chars_of("struct"),
    ) || same_text(kind, "element") || same_text(kind, "stylesheet")
}

} // verus!
