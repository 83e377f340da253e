//! Concrete syntax trees as plain values, and the parser that produces them.

use vstd::prelude::*;
use tree_sitter::{Language, Node, Parser};
use tree_sitter_bash::LANGUAGE as BASH;
use tree_sitter_c::LANGUAGE as C;
use tree_sitter_c_sharp::LANGUAGE as C_SHARP;
use tree_sitter_cpp::LANGUAGE as CPP;
use tree_sitter_css::LANGUAGE as CSS;
use tree_sitter_elixir::LANGUAGE as ELIXIR;
use tree_sitter_go::LANGUAGE as GO;
use tree_sitter_haskell::LANGUAGE as HASKELL;
use tree_sitter_html::LANGUAGE as HTML;
use tree_sitter_java::LANGUAGE as JAVA;
use tree_sitter_javascript::LANGUAGE as JAVASCRIPT;
use tree_sitter_json::LANGUAGE as JSON;
use tree_sitter_php::LANGUAGE_PHP as PHP;
use tree_sitter_powershell::LANGUAGE as POWERSHELL;
use tree_sitter_python::LANGUAGE as PYTHON;
use tree_sitter_ruby::LANGUAGE as RUBY;
use tree_sitter_rust::LANGUAGE as RUST;
use tree_sitter_solidity::LANGUAGE as SOLIDITY;
use tree_sitter_typescript::LANGUAGE_TYPESCRIPT as TYPESCRIPT;
use tree_sitter_yaml::LANGUAGE as YAML;
use tree_sitter_zig::LANGUAGE as ZIG;

verus! {

/// The languages the chunker can parse.
#[derive(Clone, Copy, Debug, PartialEq, Eq, Structural)]
pub enum SourceLanguage {
    Rust,
    Python,
    Go,
    C,
    Cpp,
    JavaScript,
    TypeScript,
    Java,
    CSharp,
    Ruby,
    Php,
    Html,
    Css,
    Bash,
    PowerShell,
    Yaml,
    Json,
    Zig,
    Elixir,
    Haskell,
    Solidity,
}

/// One node of a concrete syntax tree: its kind, the byte range and the
/// zero-based rows it spans in the source, and its children in source order.
#[derive(Debug)]
pub struct SyntaxNode {
    pub kind: String,
    pub start_byte: usize,
    pub end_byte: usize,
    pub start_row: usize,
    pub end_row: usize,
    pub children: Vec<SyntaxNode>,
}

/// `tree_sitter::Node`, a node of the parser's own tree. Nothing is known
/// of what it holds; it is only handed to `syntax_node`.
#[verifier::external_type_specification]
#[verifier::external_body]
pub struct ExNode<'tree>(Node<'tree>);

/// The syntax tree that the parser builds for `source` in `language`, or
/// `None` when it builds none. Parsing is a function of the grammar and the
/// bytes alone.
pub uninterp spec fn syntax_tree(language: SourceLanguage, source: Seq<u8>) -> Option<SyntaxNode>;

/// Copies a parser node and everything below it into a `SyntaxNode`.
/// Trusted: reads `Node::kind`, `start_byte`, `end_byte`, the rows of
/// `start_position` and `end_position`, and `Node::children`, one for one.
#[verifier::external_body]
fn syntax_node(node: &Node) -> SyntaxNode {
    SyntaxNode {
        kind: node.kind().to_string(),
        start_byte: node.start_byte(),
        end_byte: node.end_byte(),
        start_row: node.start_position().row,
        end_row: node.end_position().row,
        children: node.children(&mut node.walk()).map(|child| syntax_node(&child)).collect(),
    }
}

/// Parses `source` with the grammar of `language`. Trusted: stands for
/// `Parser::set_language` followed by `Parser::parse` on a fresh parser; the
/// tree is `None` when the grammar is refused or the parser returns no tree.
#[verifier::external_body]
pub(crate) fn parse_source(language: SourceLanguage, source: &[u8]) -> (tree: Option<SyntaxNode>)
    ensures
        tree == syntax_tree(language, source@),
{
    let grammar = match language {
        SourceLanguage::Rust => RUST, SourceLanguage::Python => PYTHON, SourceLanguage::Go => GO,
        SourceLanguage::C => C, SourceLanguage::Cpp => CPP, SourceLanguage::JavaScript => JAVASCRIPT,
        SourceLanguage::TypeScript => TYPESCRIPT, SourceLanguage::Java => JAVA, SourceLanguage::CSharp => C_SHARP,
        SourceLanguage::Ruby => RUBY, SourceLanguage::Php => PHP, SourceLanguage::Html => HTML,
        SourceLanguage::Css => CSS, SourceLanguage::Bash => BASH, SourceLanguage::PowerShell => POWERSHELL,
        SourceLanguage::Yaml => YAML, SourceLanguage::Json => JSON, SourceLanguage::Zig => ZIG,
        SourceLanguage::Elixir => ELIXIR, SourceLanguage::Haskell => HASKELL, SourceLanguage::Solidity => SOLIDITY,
    };
    let mut parser = Parser::new();
    parser.set_language(&Language::new(grammar)).ok()?;
    parser.parse(source, None).map(|tree| syntax_node(&tree.root_node()))
}

} // verus!
