//! Chunking of source files into semantic code units.

use vstd::prelude::*;
use vstd::slice::slice_subrange;
use vstd::utf8::encode_utf8;
use crate::kinds::{
    chunkable, container_kind, is_chunkable, is_container_kind, language_for_extension,
    language_of,
};
use crate::search::copy_texts;
use crate::syntax::{parse_source, syntax_tree, SourceLanguage, SyntaxNode};
use crate::text::{
    append_chars, chars_of, decimal, decimal_text, is_digit, lemma_deep_view_concat,
    lemma_deep_view_push, lemma_natural_digits_are_digits, lemma_natural_digits_injective,
    lossy_text, natural_digits, replace_char, replaced_char, same_text, string_from_chars,
    utf8_lossy,
};

verus! {

/// A single logical unit of code extracted from a source file.
#[derive(Debug)]
pub struct CodeChunk {
    /// Source file path, with forward slashes.
    pub filename: String,
    /// The text of the unit.
    pub code: String,
    /// First line of the unit, counted from 1.
    pub line_start: usize,
    /// Last line of the unit, counted from 1.
    pub line_end: usize,
    /// Modification time of the source file, in seconds since the epoch.
    pub last_modified: i64,
    /// Names of the functions, methods and macros that the unit calls, in
    /// source order.
    pub calls: Vec<String>,
}

/// What a `CodeChunk` holds, as mathematical values.
pub struct ChunkModel {
    pub filename: Seq<char>,
    pub code: Seq<char>,
    pub line_start: int,
    pub line_end: int,
    pub last_modified: int,
    pub calls: Seq<Seq<char>>,
}

impl View for CodeChunk {
    type V = ChunkModel;

    open spec fn view(&self) -> ChunkModel {
        ChunkModel {
            filename: self.filename@,
            code: self.code@,
            line_start: self.line_start as int,
            line_end: self.line_end as int,
            last_modified: self.last_modified as int,
            calls: self.calls.deep_view(),
        }
    }
}

impl DeepView for CodeChunk {
    type V = ChunkModel;

    open spec fn deep_view(&self) -> ChunkModel {
        self@
    }
}

/// The id of the chunk of `filename` that spans the lines from `line_start`
/// to `line_end`: the three joined by hyphens, the lines in decimal.
pub open spec fn chunk_id_of(filename: Seq<char>, line_start: int, line_end: int) -> Seq<char> {
    filename + seq!['-'] + decimal(line_start) + seq!['-'] + decimal(line_end)
}

/// Computes `chunk_id_of`.
pub fn chunk_id(filename: &str, line_start: i128, line_end: i128) -> (id: String)
    ensures
        id@ == chunk_id_of(filename@, line_start as int, line_end as int),
{
    let mut id = chars_of(filename);
    id.push('-');
    append_chars(&mut id, &decimal_text(line_start));
    id.push('-');
    append_chars(&mut id, &decimal_text(line_end));
    assert(id@ =~= chunk_id_of(filename@, line_start as int, line_end as int));
    string_from_chars(&id)
}

impl CodeChunk {
    /// The id of this chunk, which tells it from the other chunks of its
    /// workspace.
    pub fn id(&self) -> (id: String)
        ensures
            id@ == chunk_id_of(self@.filename, self@.line_start, self@.line_end),
    {
        chunk_id(self.filename.as_str(), self.line_start as i128, self.line_end as i128)
    }
}

/// Why a syntax tree could not be turned into chunks.
#[derive(Clone, Copy, Debug, PartialEq, Eq, Structural)]
pub enum ChunkError {
    /// A node names bytes beyond the end of the source.
    UnexpectedEof,
}

/// The bytes of `source` from `start` up to `end`. An empty or inverted
/// range is empty wherever it lies; a non-empty one must end inside the
/// source.
pub open spec fn source_range(source: Seq<u8>, start: int, end: int) -> Result<
    Seq<u8>,
    ChunkError,
> {
    if end <= start {
        Ok(Seq::empty())
    } else if end > source.len() {
        Err(ChunkError::UnexpectedEof)
    } else {
        Ok(source.subrange(start, end))
    }
}

/// Reads `source_range` and decodes it lossily.
pub fn read_text(source: &[u8], start: usize, end: usize) -> (text: Result<String, ChunkError>)
    ensures
        match source_range(source@, start as int, end as int) {
            Ok(bytes) => text is Ok && text->Ok_0@ == utf8_lossy(bytes),
            Err(e) => text == Err::<String, ChunkError>(e),
        },
{
    if end <= start {
        let empty = slice_subrange(source, 0, 0);
        assert(empty@ =~= Seq::<u8>::empty());
        Ok(lossy_text(empty))
    } else if end > source.len() {
        Err(ChunkError::UnexpectedEof)
    } else {
        Ok(lossy_text(slice_subrange(source, start, end)))
    }
}

/// Whether a node of this kind names what a call invokes.
pub open spec fn is_name_kind(kind: Seq<char>) -> bool {
    kind == "identifier"@ || kind == "field_expression"@ || kind == "scoped_identifier"@
}

/// Whether a node of this kind is a call.
pub open spec fn is_call_kind(kind: Seq<char>) -> bool {
    kind == "call_expression"@ || kind == "call"@ || kind == "macro_invocation"@
}

/// Decides `is_name_kind`.
pub fn name_kind(kind: &str) -> (yes: bool)
    ensures
        yes == is_name_kind(kind@),
{
    same_text(kind, "identifier") || same_text(kind, "field_expression") || same_text(
        kind,
        "scoped_identifier",
    )
}

/// Decides `is_call_kind`.
pub fn call_kind(kind: &str) -> (yes: bool)
    ensures
        yes == is_call_kind(kind@),
{
    same_text(kind, "call_expression") || same_text(kind, "call") || same_text(
        kind,
        "macro_invocation",
    )
}

/// The name of a call: the text of the first child, from child `from` on,
/// whose kind names what is called; `None` when there is no such child.
pub open spec fn call_name_from(node: SyntaxNode, source: Seq<u8>, from: int) -> Result<
    Option<Seq<char>>,
    ChunkError,
>
    decreases node.children.len() - from,
{
    if from < 0 || from >= node.children.len() {
        Ok(None)
    } else if is_name_kind(node.children[from].kind@) {
        match source_range(
            source,
            node.children[from].start_byte as int,
            node.children[from].end_byte as int,
        ) {
            Ok(bytes) => Ok(Some(utf8_lossy(bytes))),
            Err(e) => Err(e),
        }
    } else {
        call_name_from(node, source, from + 1)
    }
}

/// The name of the call `node`, from its first naming child.
pub open spec fn call_name(node: SyntaxNode, source: Seq<u8>) -> Result<
    Option<Seq<char>>,
    ChunkError,
> {
    call_name_from(node, source, 0)
}

/// The name that the node itself adds to a list of calls: its call name if
/// it is a call and has one.
pub open spec fn own_call(node: SyntaxNode, source: Seq<u8>) -> Result<
    Seq<Seq<char>>,
    ChunkError,
> {
    if is_call_kind(node.kind@) {
        match call_name(node, source) {
            Ok(Some(name)) => Ok(seq![name]),
            Ok(None) => Ok(Seq::empty()),
            Err(e) => Err(e),
        }
    } else {
        Ok(Seq::empty())
    }
}

/// The calls below `node`, from child `from` on: for each child in source
/// order, the child's own call and then the calls below the child.
pub open spec fn calls_from(node: SyntaxNode, source: Seq<u8>, from: int) -> Result<
    Seq<Seq<char>>,
    ChunkError,
>
    decreases node, node.children.len() - from,
{
    if from < 0 || from >= node.children.len() {
        Ok(Seq::empty())
    } else {
        match own_call(node.children[from], source) {
            Err(e) => Err(e),
            Ok(own) => match calls_from(node.children[from], source, 0) {
                Err(e) => Err(e),
                Ok(below) => match calls_from(node, source, from + 1) {
                    Err(e) => Err(e),
                    Ok(rest) => Ok(own + below + rest),
                },
            },
        }
    }
}

/// The calls below `node`, in source order.
pub open spec fn calls_below(node: SyntaxNode, source: Seq<u8>) -> Result<
    Seq<Seq<char>>,
    ChunkError,
> {
    calls_from(node, source, 0)
}

/// What a result of texts holds, as mathematical values.
pub open spec fn texts_model(result: Result<Vec<String>, ChunkError>) -> Result<
    Seq<Seq<char>>,
    ChunkError,
> {
    match result {
        Ok(texts) => Ok(texts.deep_view()),
        Err(e) => Err(e),
    }
}

/// Reads the name of the call `node` from the source.
pub fn extract_name(node: &SyntaxNode, source: &[u8]) -> (name: Result<Option<String>, ChunkError>)
    ensures
        match call_name(*node, source@) {
            Ok(Some(text)) => name is Ok && name->Ok_0 is Some && name->Ok_0->Some_0@ == text,
            Ok(None) => name is Ok && name->Ok_0 is None,
            Err(e) => name == Err::<Option<String>, ChunkError>(e),
        },
{
    let mut i: usize = 0;
    while i < node.children.len()
        invariant
            i <= node.children.len(),
            call_name(*node, source@) == call_name_from(*node, source@, i as int),
        decreases node.children.len() - i,
    {
        let child = &node.children[i];
        if name_kind(child.kind.as_str()) {
            return match read_text(source, child.start_byte, child.end_byte) {
                Ok(text) => Ok(Some(text)),
                Err(e) => Err(e),
            };
        }
        i += 1;
    }
    Ok(None)
}

/// Collects the names of the calls below `node`, in source order.
pub fn find_calls(node: &SyntaxNode, source: &[u8]) -> (calls: Result<Vec<String>, ChunkError>)
    ensures
        texts_model(calls) == calls_below(*node, source@),
    decreases *node,
{
    let mut calls: Vec<String> = Vec::new();
    let mut i: usize = 0;
    while i < node.children.len()
        invariant
            i <= node.children.len(),
            calls_below(*node, source@) == match calls_from(*node, source@, i as int) {
                Ok(rest) => Ok(calls.deep_view() + rest),
                Err(e) => Err(e),
            },
        decreases node.children.len() - i,
    {
        let child = &node.children[i];
        let ghost before = calls.deep_view();
        if call_kind(child.kind.as_str()) {
            match extract_name(child, source) {
                Ok(Some(name)) => {
                    proof {
                        lemma_deep_view_push(calls@, calls@.push(name), name);
                    }
                    calls.push(name);
                },
                Ok(None) => {},
                Err(e) => {
                    return Err(e);
                },
            }
        }
        match find_calls(child, source) {
            Ok(mut below) => {
                proof {
                    lemma_deep_view_concat(calls@, below@);
                }
                calls.append(&mut below);
            },
            Err(e) => {
                return Err(e);
            },
        }
        proof {
            let own = own_call(*child, source@)->Ok_0;
            let below = calls_from(*child, source@, 0)->Ok_0;
            assert(calls.deep_view() == before + own + below);
            match calls_from(*node, source@, i + 1) {
                Ok(rest) => {
                    assert(before + (own + below + rest) =~= before + own + below + rest);
                },
                Err(e) => {},
            }
        }
        i += 1;
    }
    assert(calls.deep_view() + Seq::<Seq<char>>::empty() =~= calls.deep_view());
    Ok(calls)
}

/// Splits source files into semantic code units.
#[derive(Debug)]
pub struct CodeChunker {
    /// Largest number of characters in a chunk; longer units are split.
    pub max_chunk_size: usize,
    /// Number of characters that adjacent pieces of a split unit share.
    pub chunk_overlap: usize,
}

/// Nodes that span more bytes than this are left out, with all below them.
pub const MAX_NODE_BYTES: usize = 10 * 1024 * 1024;

/// Number of leading bytes that are searched for a null byte.
pub const SNIFF_BYTES: usize = 1024;

/// How far the start of a window moves from one piece to the next.
pub open spec fn split_step(max: int, overlap: int) -> int {
    if max > overlap {
        max - overlap
    } else {
        1
    }
}

/// The windows of `max` characters over `chars`, the first starting at
/// `start` and each next one `step` further, up to and including the first
/// window that reaches the end of `chars`.
pub open spec fn windows_from(chars: Seq<char>, max: int, step: int, start: int) -> Seq<Seq<char>>
    decreases
        (if start < chars.len() {
            chars.len() - start
        } else {
            0
        }),
{
    if start < 0 || start >= chars.len() || step <= 0 {
        Seq::empty()
    } else if start + max >= chars.len() {
        seq![chars.subrange(start, chars.len() as int)]
    } else {
        seq![chars.subrange(start, start + max)] + windows_from(chars, max, step, start + step)
    }
}

/// The pieces of `text`: the text itself when its UTF-8 encoding has at most
/// `max` bytes, else its windows of `max` characters, adjacent ones sharing
/// `overlap` characters.
pub open spec fn split_pieces(text: Seq<char>, max: int, overlap: int) -> Seq<Seq<char>> {
    if encode_utf8(text).len() <= max {
        seq![text]
    } else {
        windows_from(text, max, split_step(max, overlap), 0)
    }
}

/// The zero-based index of the last `c` in `text`, or -1 when there is none.
pub open spec fn last_index_of(text: Seq<char>, c: char) -> int
    decreases text.len(),
{
    if text.len() == 0 {
        -1
    } else if text.last() == c {
        text.len() - 1
    } else {
        last_index_of(text.drop_last(), c)
    }
}

/// The extension of a path with forward slashes: what follows the last dot
/// of the last component, when that dot is not the component's first
/// character; empty otherwise.
pub open spec fn extension_of(path: Seq<char>) -> Seq<char> {
    let name = path.subrange(last_index_of(path, '/') + 1, path.len() as int);
    let dot = last_index_of(name, '.');
    if dot <= 0 {
        Seq::empty()
    } else {
        name.subrange(dot + 1, name.len() as int)
    }
}

/// Whether one of the first `SNIFF_BYTES` bytes of `source` is null.
pub open spec fn looks_binary(source: Seq<u8>) -> bool {
    exists|i: int| 0 <= i < source.len() && i < SNIFF_BYTES && source[i] == 0
}

/// The line, counted from 1, of a zero-based row; the last representable
/// line for the last representable row.
pub open spec fn line_of_row(row: int) -> int {
    if row < usize::MAX {
        row + 1
    } else {
        usize::MAX as int
    }
}

/// The depth of the children of a node at `depth`. Depths are counted up to
/// 3; deeper levels are not told apart.
pub open spec fn child_depth(depth: int) -> int {
    if depth < 3 {
        depth + 1
    } else {
        3
    }
}

/// The number of bytes that a node spans; zero for an inverted range.
pub open spec fn span_of(node: SyntaxNode) -> int {
    if node.end_byte >= node.start_byte {
        node.end_byte - node.start_byte
    } else {
        0
    }
}

/// One chunk for each piece of a unit's text, all with the unit's file,
/// lines, modification time and calls.
pub open spec fn unit_chunks(
    pieces: Seq<Seq<char>>,
    filename: Seq<char>,
    node: SyntaxNode,
    mtime: int,
    calls: Seq<Seq<char>>,
) -> Seq<ChunkModel> {
    Seq::new(
        pieces.len(),
        |i: int|
            ChunkModel {
                filename,
                code: pieces[i],
                line_start: line_of_row(node.start_row as int),
                line_end: line_of_row(node.end_row as int),
                last_modified: mtime,
                calls,
            },
    )
}

/// The chunks of the subtree at `node`, in source order.
///
/// A chunkable node that spans more than `MAX_NODE_BYTES` yields nothing,
/// nor does anything below it. A chunkable node of at least one byte yields
/// the pieces of its text; what lies below it is visited only if it is a
/// container. Every other node yields what its children yield.
pub open spec fn node_chunks(
    chunker: CodeChunker,
    node: SyntaxNode,
    source: Seq<u8>,
    filename: Seq<char>,
    extension: Seq<char>,
    mtime: int,
    depth: int,
) -> Result<Seq<ChunkModel>, ChunkError>
    decreases node, node.children.len() + 1,
{
    if is_chunkable(extension, node.kind@, depth) && span_of(node) > MAX_NODE_BYTES {
        Ok(Seq::empty())
    } else if is_chunkable(extension, node.kind@, depth) && span_of(node) > 0 {
        match source_range(source, node.start_byte as int, node.end_byte as int) {
            Err(e) => Err(e),
            Ok(bytes) => match calls_below(node, source) {
                Err(e) => Err(e),
                Ok(calls) => {
                    let own = unit_chunks(
                        split_pieces(
                            utf8_lossy(bytes),
                            chunker.max_chunk_size as int,
                            chunker.chunk_overlap as int,
                        ),
                        filename,
                        node,
                        mtime,
                        calls,
                    );
                    if is_container_kind(node.kind@) {
                        match children_chunks(
                            chunker,
                            node,
                            source,
                            filename,
                            extension,
                            mtime,
                            depth,
                            0,
                        ) {
                            Err(e) => Err(e),
                            Ok(below) => Ok(own + below),
                        }
                    } else {
                        Ok(own)
                    }
                },
            },
        }
    } else {
        children_chunks(chunker, node, source, filename, extension, mtime, depth, 0)
    }
}

/// The chunks of the subtrees at the children of `node` from child `from`
/// on, in source order; `depth` is the depth of `node`.
pub open spec fn children_chunks(
    chunker: CodeChunker,
    node: SyntaxNode,
    source: Seq<u8>,
    filename: Seq<char>,
    extension: Seq<char>,
    mtime: int,
    depth: int,
    from: int,
) -> Result<Seq<ChunkModel>, ChunkError>
    decreases node, node.children.len() - from,
{
    if from < 0 || from >= node.children.len() {
        Ok(Seq::empty())
    } else {
        match node_chunks(
            chunker,
            node.children[from],
            source,
            filename,
            extension,
            mtime,
            child_depth(depth),
        ) {
            Err(e) => Err(e),
            Ok(first) => match children_chunks(
                chunker,
                node,
                source,
                filename,
                extension,
                mtime,
                depth,
                from + 1,
            ) {
                Err(e) => Err(e),
                Ok(rest) => Ok(first + rest),
            },
        }
    }
}

/// The chunks of a file: none for an extension outside the language table,
/// for a source that looks binary, and for a source that the parser gives no
/// tree for; else the chunks of the syntax tree.
pub open spec fn file_chunks(
    chunker: CodeChunker,
    filename: Seq<char>,
    source: Seq<u8>,
    mtime: int,
) -> Result<Seq<ChunkModel>, ChunkError> {
    let normalized = replaced_char(filename, '\\', '/');
    let extension = extension_of(normalized);
    match language_of(extension) {
        None => Ok(Seq::empty()),
        Some(language) => if looks_binary(source) {
            Ok(Seq::empty())
        } else {
            match syntax_tree(language, source) {
                None => Ok(Seq::empty()),
                Some(root) => node_chunks(chunker, root, source, normalized, extension, mtime, 0),
            }
        },
    }
}

/// What a result of chunks holds, as mathematical values.
pub open spec fn chunks_model(result: Result<Vec<CodeChunk>, ChunkError>) -> Result<
    Seq<ChunkModel>,
    ChunkError,
> {
    match result {
        Ok(chunks) => Ok(chunks.deep_view()),
        Err(e) => Err(e),
    }
}

/// A text has at most as many characters as its UTF-8 encoding has bytes.
pub proof fn lemma_chars_at_most_bytes(text: Seq<char>)
    ensures
        text.len() <= encode_utf8(text).len(),
    decreases text.len(),
{
    if text.len() > 0 {
        lemma_chars_at_most_bytes(text.drop_first());
    }
}

/// Computes `last_index_of` within the first `end` characters of `text`,
/// as an index plus one (zero when there is none).
fn last_index_within(text: &Vec<char>, start: usize, end: usize, c: char) -> (after: usize)
    requires
        start <= end <= text.len(),
    ensures
        after == last_index_of(text@.subrange(start as int, end as int), c) + 1,
        after <= end - start,
{
    let mut i: usize = end;
    while i > start
        invariant
            start <= i <= end <= text.len(),
            last_index_of(text@.subrange(start as int, end as int), c) == last_index_of(
                text@.subrange(start as int, i as int),
                c,
            ),
        decreases i,
    {
        let ghost part = text@.subrange(start as int, i as int);
        assert(part.last() == text@[i - 1]);
        if text[i - 1] == c {
            return i - start;
        }
        assert(part.drop_last() =~= text@.subrange(start as int, i - 1));
        i -= 1;
    }
    0
}

/// Computes `extension_of`.
pub fn extension(path: &Vec<char>) -> (ext: Vec<char>)
    ensures
        ext@ == extension_of(path@),
{
    assert(path@.subrange(0, path.len() as int) =~= path@);
    let name_start = last_index_within(path, 0, path.len(), '/');
    let dot_after = last_index_within(path, name_start, path.len(), '.');
    let mut ext: Vec<char> = Vec::new();
    if dot_after <= 1 {
        return ext;
    }
    let ghost name = path@.subrange(name_start as int, path.len() as int);
    let mut i: usize = name_start + dot_after;
    while i < path.len()
        invariant
            name_start + dot_after <= i <= path.len(),
            ext@ == path@.subrange(name_start + dot_after, i as int),
        decreases path.len() - i,
    {
        ext.push(path[i]);
        assert(ext@ =~= path@.subrange(name_start + dot_after, i + 1));
        i += 1;
    }
    assert(ext@ =~= name.subrange(dot_after as int, name.len() as int));
    ext
}

/// Decides `looks_binary`.
pub fn has_null_byte(source: &[u8]) -> (binary: bool)
    ensures
        binary == looks_binary(source@),
{
    let mut i: usize = 0;
    while i < source.len() && i < SNIFF_BYTES
        invariant
            forall|j: int| 0 <= j < i ==> source@[j] != 0,
        decreases source.len() - i,
    {
        if source[i] == 0 {
            return true;
        }
        i += 1;
    }
    false
}

impl Default for CodeChunker {
    /// A chunker for chunks of at most 1024 characters with 128 shared.
    fn default() -> (chunker: Self)
        ensures
            chunker.max_chunk_size == 1024,
            chunker.chunk_overlap == 128,
    {
        CodeChunker::new(1024, 128)
    }
}

impl CodeChunker {
    /// A chunker for chunks of at most `max_chunk_size` characters, with
    /// `chunk_overlap` characters shared between the pieces of a split unit.
    pub fn new(max_chunk_size: usize, chunk_overlap: usize) -> (chunker: Self)
        ensures
            chunker.max_chunk_size == max_chunk_size,
            chunker.chunk_overlap == chunk_overlap,
    {
        CodeChunker { max_chunk_size, chunk_overlap }
    }

    /// The language of files with this extension, by the closed table.
    pub fn get_language(extension: &str) -> (language: Option<SourceLanguage>)
        ensures
            language == language_of(extension@),
    {
        language_for_extension(extension)
    }

    /// Splits a text into pieces of at most `max_chunk_size` characters.
    pub fn split_text(&self, text: &str) -> (pieces: Vec<String>)
        ensures
            pieces.deep_view() == split_pieces(
                text@,
                self.max_chunk_size as int,
                self.chunk_overlap as int,
            ),
    {
        let mut pieces: Vec<String> = Vec::new();
        if text.as_bytes().len() <= self.max_chunk_size {
            pieces.push(text.to_owned());
            assert(pieces.deep_view() =~= seq![text@]);
            return pieces;
        }
        let chars = chars_of(text);
        let total = chars.len();
        let max = self.max_chunk_size;
        let step: usize = if max > self.chunk_overlap {
            max - self.chunk_overlap
        } else {
            1
        };
        let mut start: usize = 0;
        while start < total
            invariant
                total == chars.len(),
                chars@ == text@,
                encode_utf8(text@).len() > self.max_chunk_size,
                max == self.max_chunk_size,
                step == split_step(max as int, self.chunk_overlap as int),
                windows_from(chars@, max as int, step as int, 0) == pieces.deep_view()
                    + windows_from(chars@, max as int, step as int, start as int),
            decreases total - start,
        {
            let reaches_end = total - start <= max;
            let end: usize = if reaches_end {
                total
            } else {
                start + max
            };
            let mut window: Vec<char> = Vec::new();
            let mut i: usize = start;
            while i < end
                invariant
                    start <= i <= end <= chars.len(),
                    window@ == chars@.subrange(start as int, i as int),
                decreases end - i,
            {
                window.push(chars[i]);
                assert(window@ =~= chars@.subrange(start as int, i + 1));
                i += 1;
            }
            let piece = string_from_chars(&window);
            proof {
                lemma_deep_view_push(pieces@, pieces@.push(piece), piece);
            }
            let ghost before = pieces.deep_view();
            pieces.push(piece);
            if reaches_end {
                assert(before + seq![piece@] =~= before.push(piece@));
                return pieces;
            }
            proof {
                let rest = windows_from(chars@, max as int, step as int, start + step);
                assert(before + (seq![piece@] + rest) =~= before.push(piece@) + rest);
            }
            start += step;
        }
        assert(pieces.deep_view() + Seq::<Seq<char>>::empty() =~= pieces.deep_view());
        pieces
    }

    /// Builds the chunks of one unit from the pieces of its text.
    fn chunks_of_unit(
        pieces: Vec<String>,
        filename: &str,
        node: &SyntaxNode,
        mtime: i64,
        calls: &Vec<String>,
    ) -> (chunks: Vec<CodeChunk>)
        ensures
            chunks.deep_view() == unit_chunks(
                pieces.deep_view(),
                filename@,
                *node,
                mtime as int,
                calls.deep_view(),
            ),
    {
        let line_start: usize = node.start_row.saturating_add(1);
        let line_end: usize = node.end_row.saturating_add(1);
        let mut chunks: Vec<CodeChunk> = Vec::new();
        let mut i: usize = 0;
        while i < pieces.len()
            invariant
                i <= pieces.len(),
                chunks@.len() == i,
                line_start == line_of_row(node.start_row as int),
                line_end == line_of_row(node.end_row as int),
                forall|j: int|
                    0 <= j < i ==> chunks@[j]@ == (ChunkModel {
                        filename: filename@,
                        code: pieces@[j]@,
                        line_start: line_start as int,
                        line_end: line_end as int,
                        last_modified: mtime as int,
                        calls: calls.deep_view(),
                    }),
            decreases pieces.len() - i,
        {
            chunks.push(
                CodeChunk {
                    filename: filename.to_owned(),
                    code: pieces[i].clone(),
                    line_start,
                    line_end,
                    last_modified: mtime,
                    calls: copy_texts(calls),
                },
            );
            i += 1;
        }
        assert(chunks.deep_view() =~= unit_chunks(
            pieces.deep_view(),
            filename@,
            *node,
            mtime as int,
            calls.deep_view(),
        ));
        chunks
    }

    /// Chunks one file, given its path, its bytes and its modification time.
    ///
    /// Backslashes in the path become forward slashes. A file whose
    /// extension is outside the language table, whose first bytes hold a
    /// null byte, or for which the parser gives no tree yields no chunks.
    /// The call fails only when the tree names bytes beyond the source.
    pub fn chunk_file(&self, filename: &str, source: &[u8], mtime: i64) -> (chunks: Result<
        Vec<CodeChunk>,
        ChunkError,
    >)
        ensures
            chunks_model(chunks) == file_chunks(*self, filename@, source@, mtime as int),
    {
        let path = replace_char(&chars_of(filename), '\\', '/');
        let normalized = string_from_chars(&path);
        let ext = string_from_chars(&extension(&path));
        let language = match Self::get_language(ext.as_str()) {
            Some(language) => language,
            None => {
                let none: Vec<CodeChunk> = Vec::new();
                assert(none.deep_view() =~= Seq::<ChunkModel>::empty());
                return Ok(none);
            },
        };
        if has_null_byte(source) {
            let none: Vec<CodeChunk> = Vec::new();
            assert(none.deep_view() =~= Seq::<ChunkModel>::empty());
            return Ok(none);
        }
        match parse_source(language, source) {
            Some(root) => self.traverse(&root, source, normalized.as_str(), ext.as_str(), mtime, 0),
            None => {
                let none: Vec<CodeChunk> = Vec::new();
                assert(none.deep_view() =~= Seq::<ChunkModel>::empty());
                Ok(none)
            },
        }
    }

    /// Collects the chunks of the subtree at `node`, which lies at `depth`
    /// below the root.
    pub fn traverse(
        &self,
        node: &SyntaxNode,
        source: &[u8],
        filename: &str,
        extension: &str,
        mtime: i64,
        depth: usize,
    ) -> (chunks: Result<Vec<CodeChunk>, ChunkError>)
        ensures
            chunks_model(chunks) == node_chunks(
                *self,
                *node,
                source@,
                filename@,
                extension@,
                mtime as int,
                depth as int,
            ),
        decreases *node,
    {
        let mut chunks: Vec<CodeChunk> = Vec::new();
        if chunkable(extension, node.kind.as_str(), depth) {
            let span: usize = if node.end_byte >= node.start_byte {
                node.end_byte - node.start_byte
            } else {
                0
            };
            if span > MAX_NODE_BYTES {
                assert(chunks.deep_view() =~= Seq::<ChunkModel>::empty());
                return Ok(chunks);
            }
            if span > 0 {
                let code = match read_text(source, node.start_byte, node.end_byte) {
                    Ok(code) => code,
                    Err(e) => {
                        return Err(e);
                    },
                };
                let calls = match find_calls(node, source) {
                    Ok(calls) => calls,
                    Err(e) => {
                        return Err(e);
                    },
                };
                let pieces = self.split_text(code.as_str());
                chunks = Self::chunks_of_unit(pieces, filename, node, mtime, &calls);
                if !container_kind(node.kind.as_str()) {
                    return Ok(chunks);
                }
            }
        }
        let ghost whole = node_chunks(
            *self,
            *node,
            source@,
            filename@,
            extension@,
            mtime as int,
            depth as int,
        );
        assert(chunks.deep_view() + Seq::<ChunkModel>::empty() =~= chunks.deep_view());
        assert(Seq::<ChunkModel>::empty() + chunks.deep_view() =~= chunks.deep_view());
        let next_depth: usize = if depth < 3 {
            depth + 1
        } else {
            3
        };
        let mut i: usize = 0;
        while i < node.children.len()
            invariant
                i <= node.children.len(),
                next_depth == child_depth(depth as int),
                whole == node_chunks(
                    *self,
                    *node,
                    source@,
                    filename@,
                    extension@,
                    mtime as int,
                    depth as int,
                ),
                whole == match children_chunks(
                    *self,
                    *node,
                    source@,
                    filename@,
                    extension@,
                    mtime as int,
                    depth as int,
                    i as int,
                ) {
                    Ok(rest) => Ok::<Seq<ChunkModel>, ChunkError>(chunks.deep_view() + rest),
                    Err(e) => Err::<Seq<ChunkModel>, ChunkError>(e),
                },
            decreases node.children.len() - i,
        {
            let ghost before = chunks.deep_view();
            match self.traverse(&node.children[i], source, filename, extension, mtime, next_depth) {
                Ok(mut below) => {
                    proof {
                        lemma_deep_view_concat(chunks@, below@);
                    }
                    let ghost first = below.deep_view();
                    chunks.append(&mut below);
                    proof {
                        match children_chunks(
                            *self,
                            *node,
                            source@,
                            filename@,
                            extension@,
                            mtime as int,
                            depth as int,
                            i + 1,
                        ) {
                            Ok(rest) => {
                                assert(before + (first + rest) =~= (before + first) + rest);
                            },
                            Err(e) => {},
                        }
                    }
                },
                Err(e) => {
                    assert(children_chunks(
                        *self,
                        *node,
                        source@,
                        filename@,
                        extension@,
                        mtime as int,
                        depth as int,
                        i as int,
                    ) == Err::<Seq<ChunkModel>, ChunkError>(e));
                    return Err(e);
                },
            }
            i += 1;
        }
        assert(chunks.deep_view() + Seq::<ChunkModel>::empty() =~= chunks.deep_view());
        Ok(chunks)
    }
}

/// Whether the last `overlap` characters of `left` are the first `overlap`
/// characters of `right`.
pub open spec fn shares_overlap(left: Seq<char>, right: Seq<char>, overlap: int) -> bool {
    &&& left.len() >= overlap
    &&& right.len() >= overlap
    &&& left.subrange(left.len() - overlap, left.len() as int) == right.subrange(0, overlap)
}

/// Every window has at most `max` characters.
pub proof fn lemma_windows_bounded(chars: Seq<char>, max: int, step: int, start: int)
    requires
        max >= 0,
    ensures
        forall|i: int|
            0 <= i < windows_from(chars, max, step, start).len() ==> (#[trigger] windows_from(
                chars,
                max,
                step,
                start,
            )[i]).len() <= max,
    decreases
        (if start < chars.len() {
            chars.len() - start
        } else {
            0
        }),
{
    if start < 0 || start >= chars.len() || step <= 0 {
    } else if start + max >= chars.len() {
    } else {
        lemma_windows_bounded(chars, max, step, start + step);
        let all = windows_from(chars, max, step, start);
        let rest = windows_from(chars, max, step, start + step);
        assert forall|i: int| 0 <= i < all.len() implies (#[trigger] all[i]).len() <= max by {
            if i > 0 {
                assert(all[i] == rest[i - 1]);
            }
        }
    }
}

/// Whether `window` is what window number `i` of `count` should be when
/// the first window starts at `start`: it starts `i` steps further, inside
/// the text, has `max` characters or ends where the text ends, and is
/// followed by another window exactly when it stops short of that end and
/// the next start lies inside the text.
pub open spec fn window_placed(
    chars: Seq<char>,
    max: int,
    step: int,
    start: int,
    i: int,
    count: int,
    window: Seq<char>,
) -> bool {
    let from = start + i * step;
    &&& from < chars.len()
    &&& window == chars.subrange(
        from,
        if from + max >= chars.len() {
            chars.len() as int
        } else {
            from + max
        },
    )
    &&& (i + 1 < count) == (from + max < chars.len() && from + step < chars.len())
}

/// There is at least one window, and each is placed as `window_placed`
/// says.
pub proof fn lemma_windows_positions(chars: Seq<char>, max: int, step: int, start: int)
    requires
        max >= 0,
        step > 0,
        0 <= start < chars.len(),
    ensures
        windows_from(chars, max, step, start).len() >= 1,
        forall|i: int|
            0 <= i < windows_from(chars, max, step, start).len() ==> #[trigger] window_placed(
                chars,
                max,
                step,
                start,
                i,
                windows_from(chars, max, step, start).len() as int,
                windows_from(chars, max, step, start)[i],
            ),
    decreases chars.len() - start,
{
    let all = windows_from(chars, max, step, start);
    if start + max >= chars.len() {
        assert(all.len() == 1);
        assert forall|i: int| 0 <= i < all.len() implies #[trigger] window_placed(
            chars,
            max,
            step,
            start,
            i,
            all.len() as int,
            all[i],
        ) by {
            assert(i == 0);
            assert(i * step == 0);
        }
    } else {
        let rest = windows_from(chars, max, step, start + step);
        assert(all == seq![chars.subrange(start, start + max)] + rest);
        if start + step < chars.len() {
            lemma_windows_positions(chars, max, step, start + step);
        }
        assert forall|i: int| 0 <= i < all.len() implies #[trigger] window_placed(
            chars,
            max,
            step,
            start,
            i,
            all.len() as int,
            all[i],
        ) by {
            if i == 0 {
                assert(i * step == 0);
            } else {
                assert(all[i] == rest[i - 1]);
                assert(window_placed(
                    chars,
                    max,
                    step,
                    start + step,
                    i - 1,
                    rest.len() as int,
                    rest[i - 1],
                ));
                assert(start + step + (i - 1) * step == start + i * step) by (nonlinear_arith);
            }
        }
    }
}

/// Adjacent windows share exactly `overlap` characters when the step is
/// `max - overlap`.
pub proof fn lemma_windows_overlap(chars: Seq<char>, max: int, overlap: int, start: int)
    requires
        1 <= overlap < max,
        0 <= start,
    ensures
        forall|i: int|
            0 <= i < windows_from(chars, max, max - overlap, start).len() - 1
                ==> #[trigger] shares_overlap(
                windows_from(chars, max, max - overlap, start)[i],
                windows_from(chars, max, max - overlap, start)[i + 1],
                overlap,
            ),
    decreases
        (if start < chars.len() {
            chars.len() - start
        } else {
            0
        }),
{
    let step = max - overlap;
    let all = windows_from(chars, max, step, start);
    if start >= chars.len() {
    } else if start + max >= chars.len() {
    } else {
        let rest = windows_from(chars, max, step, start + step);
        lemma_windows_overlap(chars, max, overlap, start + step);
        lemma_windows_positions(chars, max, step, start + step);
        assert forall|i: int| 0 <= i < all.len() - 1 implies #[trigger] shares_overlap(
            all[i],
            all[i + 1],
            overlap,
        ) by {
            if i == 0 {
                let left = all[0];
                let right = rest[0];
                assert(all[1] == right);
                assert(window_placed(chars, max, step, start + step, 0, rest.len() as int, right));
                assert(0 * step == 0);
                assert(left.subrange(left.len() - overlap, left.len() as int) =~= right.subrange(
                    0,
                    overlap,
                ));
            } else {
                assert(all[i] == rest[i - 1]);
                assert(all[i + 1] == rest[i]);
                assert(shares_overlap(rest[i - 1], rest[i - 1 + 1], overlap));
            }
        }
    }
}

/// Every piece of a split text has at most `max` characters.
pub proof fn lemma_pieces_bounded(text: Seq<char>, max: nat, overlap: nat)
    ensures
        forall|i: int|
            0 <= i < split_pieces(text, max as int, overlap as int).len() ==> (
            #[trigger] split_pieces(text, max as int, overlap as int)[i]).len() <= max,
{
    lemma_chars_at_most_bytes(text);
    lemma_windows_bounded(text, max as int, split_step(max as int, overlap as int), 0);
}

/// With an overlap of at least one character and less than the chunk size,
/// every two adjacent pieces of a split text share exactly `overlap`
/// characters: the last `overlap` of the one are the first `overlap` of the
/// next.
pub proof fn lemma_pieces_overlap(text: Seq<char>, max: nat, overlap: nat)
    requires
        1 <= overlap < max,
    ensures
        forall|i: int|
            0 <= i < split_pieces(text, max as int, overlap as int).len() - 1
                ==> #[trigger] shares_overlap(
                split_pieces(text, max as int, overlap as int)[i],
                split_pieces(text, max as int, overlap as int)[i + 1],
                overlap as int,
            ),
{
    lemma_windows_overlap(text, max as int, overlap as int, 0);
}

/// A text that does not fit one piece is cut into windows that start one
/// step apart, the first at the start of the text, each of `max` characters
/// or ending where the text ends, and only the last of them reaches that
/// end or has no start left after it.
pub proof fn lemma_pieces_positions(text: Seq<char>, max: nat, overlap: nat)
    requires
        encode_utf8(text).len() > max,
    ensures
        split_pieces(text, max as int, overlap as int).len() >= 1,
        forall|i: int|
            0 <= i < split_pieces(text, max as int, overlap as int).len()
                ==> #[trigger] window_placed(
                text,
                max as int,
                split_step(max as int, overlap as int),
                0,
                i,
                split_pieces(text, max as int, overlap as int).len() as int,
                split_pieces(text, max as int, overlap as int)[i],
            ),
{
    assert(text.len() > 0) by {
        if text.len() == 0 {
            assert(encode_utf8(text).len() == 0);
        }
    }
    lemma_windows_positions(text, max as int, split_step(max as int, overlap as int), 0);
}

/// Whether a chunk is one of the file `filename` as it was at `mtime`: it
/// carries that name and time, its lines are counted from 1, and its code
/// has at most `max` characters.
pub open spec fn chunk_of_file(chunk: ChunkModel, filename: Seq<char>, mtime: int, max: int) -> bool {
    &&& chunk.filename == filename
    &&& chunk.last_modified == mtime
    &&& 1 <= chunk.line_start
    &&& 1 <= chunk.line_end
    &&& chunk.code.len() <= max
}

/// Every chunk of a subtree is a chunk of the file that is chunked.
pub proof fn lemma_node_chunks_of_file(
    chunker: CodeChunker,
    node: SyntaxNode,
    source: Seq<u8>,
    filename: Seq<char>,
    extension: Seq<char>,
    mtime: int,
    depth: int,
)
    ensures
        node_chunks(chunker, node, source, filename, extension, mtime, depth) matches Ok(chunks)
            ==> forall|i: int|
            0 <= i < chunks.len() ==> chunk_of_file(
                #[trigger] chunks[i],
                filename,
                mtime,
                chunker.max_chunk_size as int,
            ),
    decreases node, node.children.len() + 1,
{
    lemma_children_chunks_of_file(chunker, node, source, filename, extension, mtime, depth, 0);
    if is_chunkable(extension, node.kind@, depth) && span_of(node) > 0 && span_of(node)
        <= MAX_NODE_BYTES {
        match source_range(source, node.start_byte as int, node.end_byte as int) {
            Ok(bytes) => {
                lemma_pieces_bounded(
                    utf8_lossy(bytes),
                    chunker.max_chunk_size as nat,
                    chunker.chunk_overlap as nat,
                );
            },
            Err(e) => {},
        }
    }
}

/// Every chunk of the subtrees at the children is a chunk of the file that
/// is chunked.
pub proof fn lemma_children_chunks_of_file(
    chunker: CodeChunker,
    node: SyntaxNode,
    source: Seq<u8>,
    filename: Seq<char>,
    extension: Seq<char>,
    mtime: int,
    depth: int,
    from: int,
)
    ensures
        children_chunks(chunker, node, source, filename, extension, mtime, depth, from) matches Ok(
            chunks,
        ) ==> forall|i: int|
            0 <= i < chunks.len() ==> chunk_of_file(
                #[trigger] chunks[i],
                filename,
                mtime,
                chunker.max_chunk_size as int,
            ),
    decreases node, node.children.len() - from,
{
    if 0 <= from < node.children.len() {
        lemma_node_chunks_of_file(
            chunker,
            node.children[from],
            source,
            filename,
            extension,
            mtime,
            child_depth(depth),
        );
        lemma_children_chunks_of_file(
            chunker,
            node,
            source,
            filename,
            extension,
            mtime,
            depth,
            from + 1,
        );
    }
}

/// Every chunk of a file carries the file's name with forward slashes and
/// the file's modification time, has lines counted from 1, and holds at
/// most `max_chunk_size` characters of code.
pub proof fn lemma_file_chunks_of_file(
    chunker: CodeChunker,
    filename: Seq<char>,
    source: Seq<u8>,
    mtime: int,
)
    ensures
        file_chunks(chunker, filename, source, mtime) matches Ok(chunks) ==> forall|i: int|
            0 <= i < chunks.len() ==> chunk_of_file(
                #[trigger] chunks[i],
                replaced_char(filename, '\\', '/'),
                mtime,
                chunker.max_chunk_size as int,
            ),
{
    let normalized = replaced_char(filename, '\\', '/');
    let extension = extension_of(normalized);
    match language_of(extension) {
        Some(language) => {
            match syntax_tree(language, source) {
                Some(root) => {
                    lemma_node_chunks_of_file(
                        chunker,
                        root,
                        source,
                        normalized,
                        extension,
                        mtime,
                        0,
                    );
                },
                None => {},
            }
        },
        None => {},
    }
}

/// Two texts that end in a hyphen and the digits of a number each, and are
/// equal, have equal fronts and equal numbers.
proof fn lemma_numbered_suffix(front: Seq<char>, a: int, other: Seq<char>, b: int)
    requires
        0 <= a,
        0 <= b,
        front + seq!['-'] + natural_digits(a) == other + seq!['-'] + natural_digits(b),
    ensures
        front == other,
        a == b,
{
    let da = natural_digits(a);
    let db = natural_digits(b);
    let left = front + seq!['-'] + da;
    let right = other + seq!['-'] + db;
    lemma_natural_digits_are_digits(a);
    lemma_natural_digits_are_digits(b);
    if da.len() < db.len() {
        // the hyphen in front of the shorter number would be a digit of the longer
        let at = left.len() - da.len() - 1;
        assert(left[at] == '-');
        assert(right[at] == db[at - (right.len() - db.len())]);
        assert(is_digit(right[at]));
    } else if db.len() < da.len() {
        let at = right.len() - db.len() - 1;
        assert(right[at] == '-');
        assert(left[at] == da[at - (left.len() - da.len())]);
        assert(is_digit(left[at]));
    } else {
        assert(da =~= db) by {
            assert forall|i: int| 0 <= i < da.len() implies da[i] == db[i] by {
                assert(left[front.len() + 1 + i] == da[i]);
                assert(right[other.len() + 1 + i] == db[i]);
            }
        }
        lemma_natural_digits_injective(a, b);
        assert(front =~= other) by {
            assert forall|i: int| 0 <= i < front.len() implies front[i] == other[i] by {
                assert(left[i] == front[i]);
                assert(right[i] == other[i]);
            }
        }
    }
}

/// The id tells chunks apart by file and lines: chunks with lines that are
/// not negative have the same id only if they lie in the same file and span
/// the same lines.
pub proof fn lemma_chunk_id_injective(
    filename: Seq<char>,
    line_start: int,
    line_end: int,
    other: Seq<char>,
    other_start: int,
    other_end: int,
)
    requires
        0 <= line_start,
        0 <= line_end,
        0 <= other_start,
        0 <= other_end,
        chunk_id_of(filename, line_start, line_end) == chunk_id_of(other, other_start, other_end),
    ensures
        filename == other,
        line_start == other_start,
        line_end == other_end,
{
    lemma_numbered_suffix(
        filename + seq!['-'] + natural_digits(line_start),
        line_end,
        other + seq!['-'] + natural_digits(other_start),
        other_end,
    );
    lemma_numbered_suffix(filename, line_start, other, other_start);
}

} // verus!
