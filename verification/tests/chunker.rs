use code_rag::indexer::{chunk_id, extract_name, find_calls, read_text, ChunkError, CodeChunk, CodeChunker};
use code_rag::syntax::{SourceLanguage, SyntaxNode};

fn node(kind: &str, start_byte: usize, end_byte: usize, start_row: usize, end_row: usize, children: Vec<SyntaxNode>) -> SyntaxNode {
    SyntaxNode { kind: kind.to_string(), start_byte, end_byte, start_row, end_row, children }
}

fn leaf(kind: &str, start_byte: usize, end_byte: usize) -> SyntaxNode {
    node(kind, start_byte, end_byte, 0, 0, vec![])
}

#[test]
fn test_chunk_overlap() {
    let chunker = CodeChunker::new(10, 2);
    let text = "1234567890EXTRA"; // 15 chars
    let chunks = chunker.split_text(text);

    assert_eq!(chunks.len(), 2);
    assert_eq!(chunks[0], "1234567890");
    assert_eq!(chunks[1], "90EXTRA");
    assert!(chunks[1].starts_with("90"));
}

#[test]
fn test_chunk_file_streaming() {
    let chunker = CodeChunker::default();
    let code = "fn main() { println!(\"Hello\"); }";

    let chunks = chunker.chunk_file("test.rs", code.as_bytes(), 0).unwrap();
    // Should find main function
    assert!(!chunks.is_empty());
    assert!(chunks.iter().any(|c| c.code.contains("fn main")));
}

#[test]
fn test_exact_size_limit() {
    let chunker = CodeChunker::new(5, 0);
    let text = "1234567890";
    let chunks = chunker.split_text(text);
    assert_eq!(chunks.len(), 2);
    assert_eq!(chunks[0], "12345");
    assert_eq!(chunks[1], "67890");
}

#[test]
fn test_small_text_no_split() {
    let chunker = CodeChunker::new(100, 10);
    let text = "Short text";
    let chunks = chunker.split_text(text);
    assert_eq!(chunks.len(), 1);
    assert_eq!(chunks[0], "Short text");
}

#[test]
fn test_binary_file_skip() {
    let chunker = CodeChunker::default();
    // Construct binary content with null bytes
    let binary_content = vec![0x00, 0xFF, 0xFE, 0x00, 0x41];

    let chunks = chunker.chunk_file("test.rs", &binary_content, 0).unwrap();
    assert!(
        chunks.is_empty(),
        "Binary file should be skipped even if extension matches"
    );
}

#[test]
fn test_language_detection() {
    let _chunker = CodeChunker::default();

    assert!(CodeChunker::get_language("rs").is_some(), "Rust not detected");
    assert!(CodeChunker::get_language("py").is_some(), "Python not detected");
    assert!(CodeChunker::get_language("go").is_some(), "Go not detected");
    assert!(CodeChunker::get_language("js").is_some(), "JavaScript not detected");
    assert!(CodeChunker::get_language("sh").is_some(), "Bash not detected");
    assert!(CodeChunker::get_language("ps1").is_some(), "PowerShell not detected");
    assert!(CodeChunker::get_language("json").is_some(), "JSON not detected");
    assert!(CodeChunker::get_language("yaml").is_some(), "YAML not detected");
    assert!(
        CodeChunker::get_language("unknown").is_none(),
        "Unknown extension should return None"
    );
}

#[test]
fn test_chunking_rust_file() {
    let chunker = CodeChunker::default();
    let rust_code = r#"
fn main() {
    println!("Hello, world!");
}

fn helper() {
    println!("Helper function");
}
"#;

    let chunks = chunker.chunk_file("test.rs", rust_code.as_bytes(), 0).unwrap();
    assert!(
        chunks.len() >= 2,
        "Expected at least 2 chunks (main + helper), got {}",
        chunks.len()
    );
    assert!(
        chunks.iter().any(|c| c.code.contains("main")),
        "Should contain main function"
    );
    assert!(
        chunks.iter().any(|c| c.code.contains("helper")),
        "Should contain helper function"
    );
}

#[test]
fn test_chunking_python_file() {
    let chunker = CodeChunker::default();
    let python_code = r#"
def greet(name):
    return f"Hello, {name}"

class Calculator:
    def add(self, a, b):
        return a + b
"#;

    let chunks = chunker.chunk_file("test.py", python_code.as_bytes(), 0).unwrap();
    assert!(!chunks.is_empty(), "Python file should produce chunks");
    assert!(
        chunks
            .iter()
            .any(|c| c.code.contains("greet") || c.code.contains("Calculator")),
        "Should contain function or class"
    );
}

#[test]
fn language_table_is_closed() {
    let table = [
        ("rs", SourceLanguage::Rust), ("py", SourceLanguage::Python), ("go", SourceLanguage::Go),
        ("c", SourceLanguage::C), ("h", SourceLanguage::C), ("cpp", SourceLanguage::Cpp),
        ("hpp", SourceLanguage::Cpp), ("cc", SourceLanguage::Cpp), ("cxx", SourceLanguage::Cpp),
        ("js", SourceLanguage::JavaScript), ("jsx", SourceLanguage::JavaScript),
        ("ts", SourceLanguage::TypeScript), ("tsx", SourceLanguage::TypeScript),
        ("java", SourceLanguage::Java), ("cs", SourceLanguage::CSharp), ("rb", SourceLanguage::Ruby),
        ("php", SourceLanguage::Php), ("html", SourceLanguage::Html), ("css", SourceLanguage::Css),
        ("sh", SourceLanguage::Bash), ("bash", SourceLanguage::Bash), ("ps1", SourceLanguage::PowerShell),
        ("yaml", SourceLanguage::Yaml), ("yml", SourceLanguage::Yaml), ("json", SourceLanguage::Json),
        ("zig", SourceLanguage::Zig), ("ex", SourceLanguage::Elixir), ("exs", SourceLanguage::Elixir),
        ("hs", SourceLanguage::Haskell), ("sol", SourceLanguage::Solidity),
    ];
    for (ext, language) in table {
        assert_eq!(CodeChunker::get_language(ext), Some(language), "extension {}", ext);
    }
    for ext in ["", "RS", "lua", "txt", "dockerfile", ".rs", "rs "] {
        assert_eq!(CodeChunker::get_language(ext), None, "extension {:?}", ext);
    }
}

#[test]
fn every_grammar_parses() {
    let chunker = CodeChunker::default();
    let files = [
        ("a.rs", "fn f() {}\n"), ("a.py", "def f():\n    pass\n"), ("a.go", "package m\nfunc f() {}\n"),
        ("a.c", "int f(void) { return 0; }\n"), ("a.cpp", "class A { int f(); };\n"),
        ("a.js", "function f() {}\n"), ("a.ts", "class A { f(): void {} }\n"),
        ("a.java", "class A { void f() {} }\n"), ("a.cs", "class A { void F() {} }\n"),
        ("a.rb", "class A\n  def f\n  end\nend\n"), ("a.php", "<?php function f() {} ?>\n"),
        ("a.html", "<html><script>var a = 1;</script></html>\n"), ("a.css", "a { color: red; }\n"),
        ("a.sh", "f() { echo hi; }\n"), ("a.ps1", "function F { param($a) }\n"),
        ("a.yaml", "a: 1\n"), ("a.json", "{\"a\": 1}\n"), ("a.ex", "defmodule A do\n  def f, do: 1\nend\n"),
        ("a.hs", "f :: Int -> Int\nf x = x\n"), ("a.sol", "contract A { }\n"),
    ];
    for (name, code) in files {
        let chunks = chunker.chunk_file(name, code.as_bytes(), 7).unwrap();
        assert!(!chunks.is_empty(), "no chunk for {}", name);
        for chunk in &chunks {
            assert_eq!(chunk.filename, name);
            assert_eq!(chunk.last_modified, 7);
            assert!(1 <= chunk.line_start && chunk.line_start <= chunk.line_end);
        }
    }
    // The Zig grammar parses as well; its node kinds are not in the table of units.
    assert!(chunker.chunk_file("a.zig", b"fn f() void {}\n", 0).is_ok());
}

#[test]
fn rust_functions_become_chunks_with_lines_and_calls() {
    let chunker = CodeChunker::default();
    let code = "fn a() {\n    b();\n    println!(\"x\");\n}\n\nfn b() {}\n";
    let chunks = chunker.chunk_file("src\\lib.rs", code.as_bytes(), 42).unwrap();
    assert_eq!(chunks.len(), 2);
    assert_eq!(chunks[0].filename, "src/lib.rs");
    assert_eq!(chunks[0].code, "fn a() {\n    b();\n    println!(\"x\");\n}");
    assert_eq!((chunks[0].line_start, chunks[0].line_end), (1, 4));
    assert_eq!(chunks[0].last_modified, 42);
    assert_eq!(chunks[0].calls, vec!["b".to_string(), "println".to_string()]);
    assert_eq!(chunks[1].code, "fn b() {}");
    assert_eq!((chunks[1].line_start, chunks[1].line_end), (6, 6));
    assert!(chunks[1].calls.is_empty());
}

#[test]
fn unknown_extension_and_missing_extension_give_nothing() {
    let chunker = CodeChunker::default();
    let code = b"fn main() {}";
    assert!(chunker.chunk_file("notes.txt", code, 0).unwrap().is_empty());
    assert!(chunker.chunk_file("Makefile", code, 0).unwrap().is_empty());
    assert!(chunker.chunk_file(".rs", code, 0).unwrap().is_empty());
    assert!(chunker.chunk_file("dir.rs/file", code, 0).unwrap().is_empty());
    assert_eq!(chunker.chunk_file("dir/file.tar.rs", code, 0).unwrap().len(), 1);
}

#[test]
fn null_byte_after_the_sniffed_bytes_does_not_count() {
    let chunker = CodeChunker::default();
    let mut code = b"fn main() {}\n".to_vec();
    code.extend(std::iter::repeat(b' ').take(1024));
    code.push(0);
    let chunks = chunker.chunk_file("a.rs", &code, 0).unwrap();
    assert!(chunks.iter().any(|c| c.code == "fn main() {}"));
    let mut early = vec![b' '; 1023];
    early.push(0);
    early.extend_from_slice(b"\nfn main() {}\n");
    assert!(chunker.chunk_file("a.rs", &early, 0).unwrap().is_empty());
}

#[test]
fn invalid_syntax_does_not_fail() {
    let chunker = CodeChunker::default();
    let code = "def python_function():\n    print('This is not Rust!')\n";
    assert!(chunker.chunk_file("broken.rs", code.as_bytes(), 0).is_ok());
    assert!(chunker.chunk_file("empty.rs", b"", 0).unwrap().is_empty());
}

#[test]
fn oversize_unit_is_split_and_keeps_its_lines() {
    let chunker = CodeChunker::new(16, 4);
    let code = "fn long_name() {\n    let x = 1;\n}\n";
    let chunks = chunker.chunk_file("a.rs", code.as_bytes(), 3).unwrap();
    let unit = "fn long_name() {\n    let x = 1;\n}";
    let pieces = chunker.split_text(unit);
    assert_eq!(pieces.len(), 3);
    assert_eq!(chunks.len(), pieces.len());
    for (chunk, piece) in chunks.iter().zip(pieces.iter()) {
        assert_eq!(&chunk.code, piece);
        assert_eq!((chunk.line_start, chunk.line_end), (1, 3));
        assert_eq!(chunk.last_modified, 3);
    }
}

#[test]
fn split_windows_overlap_exactly() {
    let chunker = CodeChunker::new(10, 3);
    let text = "abcdefghijklmnopqrstuvwxyz0123456789";
    let pieces = chunker.split_text(text);
    assert_eq!(pieces, vec!["abcdefghij", "hijklmnopq", "opqrstuvwx", "vwxyz01234", "23456789"]);
    for pair in pieces.windows(2) {
        assert!(pair[0].chars().count() <= 10 && pair[1].chars().count() <= 10);
        let left: Vec<char> = pair[0].chars().collect();
        let right: Vec<char> = pair[1].chars().collect();
        assert_eq!(&left[left.len() - 3..], &right[..3]);
    }
}

#[test]
fn split_counts_characters_but_fits_bytes() {
    // Six characters of two bytes each: twelve bytes.
    let text = "éééééé";
    assert_eq!(CodeChunker::new(12, 0).split_text(text), vec![text.to_string()]);
    assert_eq!(CodeChunker::new(11, 0).split_text(text), vec![text.to_string()]);
    assert_eq!(CodeChunker::new(5, 0).split_text(text), vec!["ééééé".to_string(), "é".to_string()]);
    assert_eq!(CodeChunker::new(4, 2).split_text(text), vec!["éééé".to_string(), "éééé".to_string()]);
}

#[test]
fn split_edge_cases() {
    assert_eq!(CodeChunker::new(0, 0).split_text(""), vec!["".to_string()]);
    assert_eq!(CodeChunker::new(0, 5).split_text("abc"), vec!["".to_string(); 3]);
    assert_eq!(CodeChunker::new(3, 3).split_text("abcde"), vec!["abc", "bcd", "cde"]);
    assert_eq!(CodeChunker::new(3, 9).split_text("abcde"), vec!["abc", "bcd", "cde"]);
    assert_eq!(CodeChunker::new(2, 1).split_text("abc"), vec!["ab", "bc"]);
    assert_eq!(CodeChunker::new(usize::MAX, 0).split_text("abc"), vec!["abc"]);
}

#[test]
fn default_chunker() {
    let chunker = CodeChunker::default();
    assert_eq!(chunker.max_chunk_size, 1024);
    assert_eq!(chunker.chunk_overlap, 128);
}

#[test]
fn traverse_follows_the_tree() {
    let chunker = CodeChunker::default();
    //          0         1         2         3
    //          0123456789012345678901234567890123456789
    let source = b"impl A { fn f() { g(); } } fn h() {}    ";
    let call = node("call_expression", 18, 21, 0, 0, vec![leaf("identifier", 18, 19), leaf("arguments", 19, 21)]);
    let function = node("function_item", 9, 24, 0, 0, vec![leaf("identifier", 12, 13), node("block", 16, 24, 0, 0, vec![call])]);
    let container = node("impl_item", 0, 26, 0, 0, vec![leaf("type_identifier", 5, 6), function]);
    let other = node("function_item", 27, 36, 2, 2, vec![leaf("identifier", 30, 31)]);
    let root = node("source_file", 0, 40, 0, 2, vec![container, other]);
    let chunks = chunker.traverse(&root, source, "a.rs", "rs", 9, 0).unwrap();
    assert_eq!(chunks.len(), 3);
    assert_eq!(chunks[0].code, "impl A { fn f() { g(); } }");
    assert_eq!(chunks[0].calls, vec!["g".to_string()]);
    assert_eq!(chunks[1].code, "fn f() { g(); }");
    assert_eq!(chunks[1].calls, vec!["g".to_string()]);
    assert_eq!(chunks[2].code, "fn h() {}");
    assert_eq!((chunks[2].line_start, chunks[2].line_end), (3, 3));
    assert!(chunks.iter().all(|c| c.filename == "a.rs" && c.last_modified == 9));
}

#[test]
fn units_inside_a_unit_that_is_no_container_are_not_visited() {
    let chunker = CodeChunker::default();
    let source = b"fn f() { fn g() {} }";
    let inner = leaf("function_item", 9, 18);
    let outer = node("function_item", 0, 20, 0, 0, vec![inner]);
    let root = node("source_file", 0, 20, 0, 0, vec![outer]);
    let chunks = chunker.traverse(&root, source, "a.rs", "rs", 0, 0).unwrap();
    assert_eq!(chunks.len(), 1);
    assert_eq!(chunks[0].code, "fn f() { fn g() {} }");
}

#[test]
fn script_statements_count_at_the_top_only() {
    let chunker = CodeChunker::default();
    let source = b"x = 1\nif y:\n    z = 2\n";
    let nested = leaf("expression_statement", 16, 21);
    let statement = leaf("expression_statement", 0, 5);
    let branch = node("if_statement", 6, 21, 1, 2, vec![node("block", 16, 21, 2, 2, vec![nested])]);
    let root = node("module", 0, 22, 0, 3, vec![statement, branch]);
    let chunks = chunker.traverse(&root, source, "a.py", "py", 0, 0).unwrap();
    assert_eq!(chunks.iter().map(|c| c.code.as_str()).collect::<Vec<_>>(), vec!["x = 1", "if y:\n    z = 2"]);
    // The same tree is no script in Rust: nothing is a unit.
    let rust = chunker.traverse(&root, source, "a.rs", "rs", 0, 0).unwrap();
    assert!(rust.is_empty());
    // At the root itself a statement is no unit.
    let alone = leaf("expression_statement", 0, 5);
    assert!(chunker.traverse(&alone, source, "a.py", "py", 0, 0).unwrap().is_empty());
    assert_eq!(chunker.traverse(&alone, source, "a.py", "py", 0, 1).unwrap().len(), 1);
    assert!(chunker.traverse(&alone, source, "a.py", "py", 0, 2).unwrap().is_empty());
    assert_eq!(chunker.traverse(&alone, source, "a.ps1", "ps1", 0, 2).unwrap().len(), 1);
    assert!(chunker.traverse(&alone, source, "a.ps1", "ps1", 0, 3).unwrap().is_empty());
}

#[test]
fn ruby_modules_are_units() {
    let chunker = CodeChunker::default();
    let source = b"module M; end";
    let module = leaf("module", 0, 13);
    assert_eq!(chunker.traverse(&module, source, "a.rb", "rb", 0, 1).unwrap().len(), 1);
    assert!(chunker.traverse(&module, source, "a.py", "py", 0, 1).unwrap().is_empty());
}

#[test]
fn node_beyond_the_source_fails() {
    let chunker = CodeChunker::default();
    let source = b"fn f() {}";
    let beyond = leaf("function_item", 0, 10);
    assert_eq!(chunker.traverse(&beyond, source, "a.rs", "rs", 0, 0).err(), Some(ChunkError::UnexpectedEof));
    let name_beyond = node("function_item", 0, 9, 0, 0, vec![node("call_expression", 0, 9, 0, 0, vec![leaf("identifier", 5, 12)])]);
    assert_eq!(chunker.traverse(&name_beyond, source, "a.rs", "rs", 0, 0).err(), Some(ChunkError::UnexpectedEof));
    // An empty or inverted range reads nothing, wherever it lies.
    let empty = leaf("function_item", 50, 50);
    assert!(chunker.traverse(&empty, source, "a.rs", "rs", 0, 0).unwrap().is_empty());
    let inverted = leaf("function_item", 50, 3);
    assert!(chunker.traverse(&inverted, source, "a.rs", "rs", 0, 0).unwrap().is_empty());
}

#[test]
fn node_over_the_size_guard_is_left_out_with_its_children() {
    let chunker = CodeChunker::default();
    let source = b"struct A { }";
    let inner = leaf("function_item", 0, 6);
    let huge = node("struct_item", 0, 10 * 1024 * 1024 + 1, 0, 0, vec![inner]);
    assert!(chunker.traverse(&huge, source, "a.rs", "rs", 0, 0).unwrap().is_empty());
    let at_limit = node("struct_item", 0, 10 * 1024 * 1024, 0, 0, vec![]);
    assert_eq!(chunker.traverse(&at_limit, source, "a.rs", "rs", 0, 0).err(), Some(ChunkError::UnexpectedEof));
}

#[test]
fn empty_unit_is_skipped_but_its_children_are_visited() {
    let chunker = CodeChunker::default();
    let source = b"fn f() {}";
    let inner = leaf("function_item", 0, 9);
    let empty = node("function_item", 4, 4, 0, 0, vec![inner]);
    let chunks = chunker.traverse(&empty, source, "a.rs", "rs", 0, 0).unwrap();
    assert_eq!(chunks.len(), 1);
    assert_eq!(chunks[0].code, "fn f() {}");
}

#[test]
fn lines_saturate() {
    let chunker = CodeChunker::default();
    let source = b"fn f() {}";
    let last = node("function_item", 0, 9, usize::MAX - 1, usize::MAX, vec![]);
    let chunks = chunker.traverse(&last, source, "a.rs", "rs", 0, 0).unwrap();
    assert_eq!((chunks[0].line_start, chunks[0].line_end), (usize::MAX, usize::MAX));
}

#[test]
fn calls_are_found_in_source_order() {
    //              0123456789012345678901234
    let source = b"a(b(), c!()); d.e(); f";
    let inner = node("call_expression", 2, 5, 0, 0, vec![leaf("identifier", 2, 3)]);
    let mac = node("macro_invocation", 7, 11, 0, 0, vec![leaf("identifier", 7, 8)]);
    let outer = node("call_expression", 0, 12, 0, 0, vec![leaf("identifier", 0, 1), node("arguments", 1, 12, 0, 0, vec![inner, mac])]);
    let method = node("call", 14, 19, 0, 0, vec![leaf("field_expression", 14, 17)]);
    let nameless = node("call_expression", 21, 22, 0, 0, vec![leaf("number", 21, 22)]);
    let root = node("block", 0, 22, 0, 0, vec![outer, method, nameless]);
    assert_eq!(find_calls(&root, source).unwrap(), vec!["a", "b", "c", "d.e"]);
    assert_eq!(extract_name(&root.children[0], source).unwrap(), Some("a".to_string()));
    assert_eq!(extract_name(&root.children[2], source).unwrap(), None);
    // The node itself is not looked at, only what lies below it.
    assert!(find_calls(&root.children[1], source).unwrap().is_empty());
    let scoped = node("call_expression", 0, 5, 0, 0, vec![leaf("scoped_identifier", 0, 100)]);
    assert_eq!(extract_name(&scoped, source).err(), Some(ChunkError::UnexpectedEof));
}

#[test]
fn text_is_decoded_lossily() {
    let source = [b'a', 0xFF, b'b', 0xE2, 0x82, 0xAC];
    assert_eq!(read_text(&source, 0, 6).unwrap(), "a\u{FFFD}b\u{20AC}");
    assert_eq!(read_text(&source, 2, 3).unwrap(), "b");
    assert_eq!(read_text(&source, 4, 4).unwrap(), "");
    assert_eq!(read_text(&source, 9, 2).unwrap(), "");
    assert_eq!(read_text(&source, 0, 7).err(), Some(ChunkError::UnexpectedEof));
}

#[test]
fn chunk_ids() {
    assert_eq!(chunk_id("src/a.rs", 1, 10), "src/a.rs-1-10");
    assert_eq!(chunk_id("", 0, 0), "-0-0");
    assert_eq!(chunk_id("x", -5, 1234567890), "x--5-1234567890");
    assert_eq!(chunk_id("x", i128::MIN, i128::MAX), format!("x-{}-{}", i128::MIN, i128::MAX));
    let chunk = CodeChunk {
        filename: "dir/file.py".to_string(),
        code: "pass".to_string(),
        line_start: 7,
        line_end: 109,
        last_modified: 0,
        calls: vec![],
    };
    assert_eq!(chunk.id(), "dir/file.py-7-109");
    // File names that hold hyphens and digits still give ids of their own.
    assert_ne!(chunk_id("a-1", 2, 3), chunk_id("a", 1, 23));
    assert_ne!(chunk_id("a", 12, 3), chunk_id("a", 1, 23));
    assert_ne!(chunk_id("a-1-2", 3, 4), chunk_id("a", 1, 2));
    assert_eq!(chunk_id("a-1", 2, 3), "a-1-2-3");
}

#[test]
fn test_streaming_large_file() {
    let mut code = String::new();
    for i in 0..10_000 {
        code.push_str(&format!("fn func_{}() {{ println!(\"val={}\"); }}\n", i, i));
    }

    let chunker = CodeChunker::default();
    let chunks = chunker.chunk_file("large_test.rs", code.as_bytes(), 0).unwrap();

    assert!(!chunks.is_empty());
    assert!(chunks.len() >= 9_000, "Expected chunks > 9000, got {}", chunks.len());

    // Check first and last
    assert!(chunks.iter().any(|c| c.code.contains("fn func_0")));
    assert!(chunks.iter().any(|c| c.code.contains("fn func_9999")));
}

#[test]
fn test_empty_file_indexing() {
    let chunker = CodeChunker::default();
    let chunks = chunker.chunk_file("empty.rs", b"", 0).unwrap();
    assert_eq!(chunks.len(), 0, "Empty file should produce 0 chunks");
}

#[test]
fn test_large_file_chunking() {
    let chunker = CodeChunker::default();

    // 5MB of roughly valid looking code
    let chunk = "// This is a test comment line to fill up space.\n";
    let iterations = (5 * 1024 * 1024) / chunk.len();
    let code = chunk.repeat(iterations);

    let start = std::time::Instant::now();
    let _chunks = chunker.chunk_file("large_test.rs", code.as_bytes(), 0).unwrap();
    let duration = start.elapsed();

    assert!(
        duration.as_secs() < 5,
        "Chunking 5MB should take less than 5 seconds (was {:?})",
        duration
    );
}

#[test]
fn test_invalid_syntax() {
    let chunker = CodeChunker::default();
    let code = "def python_function():\n    print('This is not Rust!')\n";

    let _chunks = chunker.chunk_file("broken.rs", code.as_bytes(), 0).unwrap();
    // Returns a result without panicking; the count depends on how the parser recovers.
}
