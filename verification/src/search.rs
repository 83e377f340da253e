//! Search results and the rank fusion of vector and lexical hits.

use vstd::prelude::*;
use vstd::string::StringExecFns;
use crate::context::{optimized, ContextError, ContextOptimizer, MergedChunk, MergedModel};
use crate::indexer::{chunk_id, chunk_id_of};
use crate::order::{
    in_order, lemma_key_order, lemma_stable_sort_in_order, map_owned, sort_stable, stable_sort,
};
use crate::score::Score;
use crate::text::{
    chars_of, contains, contains_text, ends_with, ends_with_text, lemma_deep_view_push,
    replace_char, replaced_char, same_text, string_from_chars,
};

verus! {

/// One ranked result of a search.
#[derive(Debug)]
pub struct SearchResult {
    /// Position in the response, counted from 1; 0 until ranks are assigned.
    pub rank: usize,
    /// Relevance; meaningful only relative to the other results of the
    /// same response.
    pub score: Score,
    pub filename: String,
    pub code: String,
    pub line_start: i32,
    pub line_end: i32,
    /// Modification time of the source file when it was indexed; 0 where
    /// the hit came from the lexical store alone, which keeps none.
    pub last_modified: i64,
    pub calls: Vec<String>,
}

/// What a `SearchResult` holds, as mathematical values.
pub struct ResultModel {
    pub rank: int,
    pub score: Score,
    pub filename: Seq<char>,
    pub code: Seq<char>,
    pub line_start: int,
    pub line_end: int,
    pub last_modified: int,
    pub calls: Seq<Seq<char>>,
}

impl View for SearchResult {
    type V = ResultModel;

    open spec fn view(&self) -> ResultModel {
        ResultModel {
            rank: self.rank as int,
            score: self.score,
            filename: self.filename@,
            code: self.code@,
            line_start: self.line_start as int,
            line_end: self.line_end as int,
            last_modified: self.last_modified as int,
            calls: self.calls.deep_view(),
        }
    }
}

impl DeepView for SearchResult {
    type V = ResultModel;

    open spec fn deep_view(&self) -> ResultModel {
        self@
    }
}

/// Copies a vector of texts.
pub fn copy_texts(texts: &Vec<String>) -> (copy: Vec<String>)
    ensures
        copy.deep_view() == texts.deep_view(),
{
    let mut copy: Vec<String> = Vec::new();
    let mut i: usize = 0;
    while i < texts.len()
        invariant
            i <= texts.len(),
            copy@.len() == i,
            forall|j: int| 0 <= j < i ==> copy@[j]@ == texts@[j]@,
        decreases texts.len() - i,
    {
        copy.push(texts[i].clone());
        i += 1;
    }
    assert(copy.deep_view() =~= texts.deep_view());
    copy
}

impl SearchResult {
    /// A copy of this result.
    pub fn duplicate(&self) -> (copy: SearchResult)
        ensures
            copy@ == self@,
    {
        SearchResult {
            rank: self.rank,
            score: self.score,
            filename: self.filename.clone(),
            code: self.code.clone(),
            line_start: self.line_start,
            line_end: self.line_end,
            last_modified: self.last_modified,
            calls: copy_texts(&self.calls),
        }
    }
}

/// One row of an answer of the vector store, rows in order of nearness.
#[derive(Debug)]
pub struct VectorHit {
    pub id: String,
    pub filename: String,
    pub code: String,
    pub line_start: i32,
    pub line_end: i32,
    pub last_modified: i64,
    pub calls: Vec<String>,
}

/// What a `VectorHit` holds, as mathematical values.
pub struct HitModel {
    pub id: Seq<char>,
    pub filename: Seq<char>,
    pub code: Seq<char>,
    pub line_start: int,
    pub line_end: int,
    pub last_modified: int,
    pub calls: Seq<Seq<char>>,
}

impl View for VectorHit {
    type V = HitModel;

    open spec fn view(&self) -> HitModel {
        HitModel {
            id: self.id@,
            filename: self.filename@,
            code: self.code@,
            line_start: self.line_start as int,
            line_end: self.line_end as int,
            last_modified: self.last_modified as int,
            calls: self.calls.deep_view(),
        }
    }
}

impl DeepView for VectorHit {
    type V = HitModel;

    open spec fn deep_view(&self) -> HitModel {
        self@
    }
}

/// One hit of the lexical store, hits in order of their BM25 scores.
#[derive(Debug)]
pub struct BM25Result {
    pub id: String,
    pub filename: String,
    pub code: String,
    pub line_start: u64,
    pub line_end: u64,
    pub score: Score,
}

/// What a `BM25Result` holds, as mathematical values.
pub struct LexicalModel {
    pub id: Seq<char>,
    pub filename: Seq<char>,
    pub code: Seq<char>,
    pub line_start: u64,
    pub line_end: u64,
    pub score: Score,
}

impl View for BM25Result {
    type V = LexicalModel;

    open spec fn view(&self) -> LexicalModel {
        LexicalModel {
            id: self.id@,
            filename: self.filename@,
            code: self.code@,
            line_start: self.line_start,
            line_end: self.line_end,
            score: self.score,
        }
    }
}

impl DeepView for BM25Result {
    type V = LexicalModel;

    open spec fn deep_view(&self) -> LexicalModel {
        self@
    }
}

/// A candidate for the response, with the ranks it reached: in the answers
/// of the vector store, one rank for each time it was returned, and in the
/// answer of the lexical store.
#[derive(Debug)]
pub struct Candidate {
    pub result: SearchResult,
    pub vector_ranks: Vec<usize>,
    pub bm25_rank: Option<usize>,
}

/// What a `Candidate` holds, as mathematical values.
pub struct CandidateModel {
    pub result: ResultModel,
    pub vector_ranks: Seq<usize>,
    pub bm25_rank: Option<usize>,
}

impl View for Candidate {
    type V = CandidateModel;

    open spec fn view(&self) -> CandidateModel {
        CandidateModel {
            result: self.result@,
            vector_ranks: self.vector_ranks@,
            bm25_rank: self.bm25_rank,
        }
    }
}

impl DeepView for Candidate {
    type V = CandidateModel;

    open spec fn deep_view(&self) -> CandidateModel {
        self@
    }
}

/// The view of an optional text.
pub open spec fn text_of(text: Option<String>) -> Option<Seq<char>> {
    match text {
        Some(text) => Some(text@),
        None => None,
    }
}

/// How many hits to ask each store for: the limit itself when nothing is
/// re-ranked, else five times the limit, at least 50 and at most what the
/// machine can count.
pub open spec fn fetch_limit_of(limit: int, no_rerank: bool) -> int {
    if no_rerank {
        limit
    } else if 5 * limit > usize::MAX {
        usize::MAX as int
    } else if 5 * limit < 50 {
        50
    } else {
        5 * limit
    }
}

/// Computes `fetch_limit_of`.
pub fn fetch_limit(limit: usize, no_rerank: bool) -> (fetch: usize)
    ensures
        fetch == fetch_limit_of(limit as int, no_rerank),
{
    if no_rerank {
        limit
    } else if limit > usize::MAX / 5 {
        usize::MAX
    } else if limit * 5 < 50 {
        50
    } else {
        limit * 5
    }
}

/// An extension filter without its leading dot, if it has one.
pub open spec fn clean_extension(ext: Seq<char>) -> Seq<char> {
    if ext.len() > 0 && ext[0] == '.' {
        ext.drop_first()
    } else {
        ext
    }
}

/// A directory filter with forward slashes.
pub open spec fn clean_directory(dir: Seq<char>) -> Seq<char> {
    replaced_char(dir, '\\', '/')
}

/// The predicate that keeps the rows whose file name ends with the
/// extension.
pub open spec fn extension_clause(ext: Seq<char>) -> Seq<char> {
    "filename LIKE '%."@ + clean_extension(ext) + "'"@
}

/// The predicate that keeps the rows whose file name holds the directory.
pub open spec fn directory_clause(dir: Seq<char>) -> Seq<char> {
    "filename LIKE '%"@ + clean_directory(dir) + "%'"@
}

/// The predicate handed to the vector store: the clauses of the filters
/// that are set, joined by `AND`; none when no filter is set.
pub open spec fn vector_filter_of(ext: Option<Seq<char>>, dir: Option<Seq<char>>) -> Option<
    Seq<char>,
> {
    match (ext, dir) {
        (None, None) => None,
        (Some(ext), None) => Some(extension_clause(ext)),
        (None, Some(dir)) => Some(directory_clause(dir)),
        (Some(ext), Some(dir)) => Some(
            extension_clause(ext) + " AND "@ + directory_clause(dir),
        ),
    }
}

/// Whether a file name passes the filters that are set: it ends with a dot
/// and the extension, and with forward slashes it holds the directory.
pub open spec fn passes_filters(
    filename: Seq<char>,
    ext: Option<Seq<char>>,
    dir: Option<Seq<char>>,
) -> bool {
    &&& ext matches Some(ext) ==> ends_with_text(filename, seq!['.'] + clean_extension(ext))
    &&& dir matches Some(dir) ==> contains_text(
        replaced_char(filename, '\\', '/'),
        clean_directory(dir),
    )
}

/// Computes `clean_extension`.
pub fn strip_dot(ext: &str) -> (clean: Vec<char>)
    ensures
        clean@ == clean_extension(ext@),
{
    let chars = chars_of(ext);
    if chars.len() > 0 && chars[0] == '.' {
        let mut clean: Vec<char> = Vec::new();
        let mut i: usize = 1;
        while i < chars.len()
            invariant
                1 <= i <= chars.len(),
                clean@ == chars@.subrange(1, i as int),
            decreases chars.len() - i,
        {
            clean.push(chars[i]);
            assert(clean@ =~= chars@.subrange(1, i + 1));
            i += 1;
        }
        assert(clean@ =~= chars@.drop_first());
        clean
    } else {
        chars
    }
}

/// Builds the predicate for the vector store.
pub fn vector_filter(ext: &Option<String>, dir: &Option<String>) -> (filter: Option<String>)
    ensures
        text_of(filter) == vector_filter_of(text_of(*ext), text_of(*dir)),
{
    let mut filter: Option<String> = None;
    if let Some(ext) = ext {
        let mut clause = "filename LIKE '%.".to_owned();
        clause.append(string_from_chars(&strip_dot(ext.as_str())).as_str());
        clause.append("'");
        filter = Some(clause);
    }
    if let Some(dir) = dir {
        let mut clause = "filename LIKE '%".to_owned();
        clause.append(string_from_chars(&replace_char(&chars_of(dir.as_str()), '\\', '/')).as_str());
        clause.append("%'");
        filter = match filter {
            Some(first) => {
                let mut both = first;
                both.append(" AND ");
                both.append(clause.as_str());
                Some(both)
            },
            None => Some(clause),
        };
    }
    filter
}

/// Decides `passes_filters`.
pub fn filename_passes(filename: &str, ext: &Option<String>, dir: &Option<String>) -> (passes: bool)
    ensures
        passes == passes_filters(filename@, text_of(*ext), text_of(*dir)),
{
    let name = chars_of(filename);
    if let Some(ext) = ext {
        let mut suffix: Vec<char> = Vec::new();
        suffix.push('.');
        let clean = strip_dot(ext.as_str());
        let mut i: usize = 0;
        while i < clean.len()
            invariant
                i <= clean.len(),
                suffix@ == seq!['.'] + clean@.take(i as int),
            decreases clean.len() - i,
        {
            suffix.push(clean[i]);
            assert(suffix@ =~= seq!['.'] + clean@.take(i + 1));
            i += 1;
        }
        assert(clean@.take(clean.len() as int) =~= clean@);
        if !ends_with(&name, &suffix) {
            return false;
        }
    }
    if let Some(dir) = dir {
        let wanted = replace_char(&chars_of(dir.as_str()), '\\', '/');
        if !contains(&replace_char(&name, '\\', '/'), &wanted) {
            return false;
        }
    }
    true
}

/// The ranks, counted from 1, at which `id` stands among the first `n` hits
/// of `list`.
pub open spec fn ranks_in_list(list: Seq<HitModel>, id: Seq<char>, n: int) -> Seq<usize>
    decreases n,
{
    if n <= 0 {
        Seq::empty()
    } else if list[n - 1].id == id {
        ranks_in_list(list, id, n - 1).push(n as usize)
    } else {
        ranks_in_list(list, id, n - 1)
    }
}

/// The ranks at which `id` stands in the first `m` lists, list by list.
pub open spec fn ranks_upto(lists: Seq<Seq<HitModel>>, id: Seq<char>, m: int) -> Seq<usize>
    decreases m,
{
    if m <= 0 {
        Seq::empty()
    } else {
        ranks_upto(lists, id, m - 1) + ranks_in_list(lists[m - 1], id, lists[m - 1].len() as int)
    }
}

/// Whether a hit with this id is among `seen`.
pub open spec fn knows(seen: Seq<HitModel>, id: Seq<char>) -> bool {
    exists|k: int| 0 <= k < seen.len() && (#[trigger] seen[k]).id == id
}

/// `seen` extended by the hits among the first `n` of `list` whose ids were
/// not seen before, each where its id first occurs.
pub open spec fn seen_in_list(seen: Seq<HitModel>, list: Seq<HitModel>, n: int) -> Seq<HitModel>
    decreases n,
{
    if n <= 0 {
        seen
    } else if knows(seen_in_list(seen, list, n - 1), list[n - 1].id) {
        seen_in_list(seen, list, n - 1)
    } else {
        seen_in_list(seen, list, n - 1).push(list[n - 1])
    }
}

/// For each id in the first `m` lists, the hit where it first occurs, in
/// the order of these first occurrences.
pub open spec fn seen_upto(lists: Seq<Seq<HitModel>>, m: int) -> Seq<HitModel>
    decreases m,
{
    if m <= 0 {
        Seq::empty()
    } else {
        seen_in_list(seen_upto(lists, m - 1), lists[m - 1], lists[m - 1].len() as int)
    }
}

/// The result that a vector hit becomes: its payload, with no rank and no
/// score yet.
pub open spec fn result_of_hit(hit: HitModel) -> ResultModel {
    ResultModel {
        rank: 0,
        score: Score { bits: 0 },
        filename: hit.filename,
        code: hit.code,
        line_start: hit.line_start,
        line_end: hit.line_end,
        last_modified: hit.last_modified,
        calls: hit.calls,
    }
}

/// The result that a lexical hit becomes: its lines cut to 32 bits, and
/// neither modification time nor calls, which the lexical store keeps not.
pub open spec fn result_of_lexical(hit: LexicalModel) -> ResultModel {
    ResultModel {
        rank: 0,
        score: Score { bits: 0 },
        filename: hit.filename,
        code: hit.code,
        line_start: crate::ops::cut_to_i32(hit.line_start as int) as int,
        line_end: crate::ops::cut_to_i32(hit.line_end as int) as int,
        last_modified: 0,
        calls: Seq::empty(),
    }
}

/// The id of a result, derived from its file name and lines.
pub open spec fn result_id(result: ResultModel) -> Seq<char> {
    chunk_id_of(result.filename, result.line_start, result.line_end)
}

/// Whether a lexical hit with this id is among `taken`.
pub open spec fn holds_id(taken: Seq<LexicalModel>, id: Seq<char>) -> bool {
    exists|k: int| 0 <= k < taken.len() && (#[trigger] taken[k]).id == id
}

/// The lexical hits among the first `n` that join the candidates: those
/// whose id is neither the id of a vector candidate nor of an earlier
/// lexical hit that joined, and whose file name passes the filters.
pub open spec fn extras_upto(
    ids: Seq<Seq<char>>,
    hits: Seq<LexicalModel>,
    ext: Option<Seq<char>>,
    dir: Option<Seq<char>>,
    n: int,
) -> Seq<LexicalModel>
    decreases n,
{
    if n <= 0 {
        Seq::empty()
    } else if ids.contains(hits[n - 1].id) || holds_id(
        extras_upto(ids, hits, ext, dir, n - 1),
        hits[n - 1].id,
    ) || !passes_filters(hits[n - 1].filename, ext, dir) {
        extras_upto(ids, hits, ext, dir, n - 1)
    } else {
        extras_upto(ids, hits, ext, dir, n - 1).push(hits[n - 1])
    }
}

/// The rank, counted from 1, of the last of the first `n` hits with this
/// id, if there is one.
pub open spec fn last_rank(hits: Seq<LexicalModel>, id: Seq<char>, n: int) -> Option<usize>
    decreases n,
{
    if n <= 0 {
        None
    } else if hits[n - 1].id == id {
        Some(n as usize)
    } else {
        last_rank(hits, id, n - 1)
    }
}

/// The results that stand for the vector hits, one for each id.
pub open spec fn vector_pool(lists: Seq<Seq<HitModel>>) -> Seq<ResultModel> {
    seen_upto(lists, lists.len() as int).map_values(|hit: HitModel| result_of_hit(hit))
}

/// The candidate results: one for each id among the vector hits, then the
/// lexical hits that join them.
pub open spec fn pool_of(
    lists: Seq<Seq<HitModel>>,
    hits: Seq<LexicalModel>,
    ext: Option<Seq<char>>,
    dir: Option<Seq<char>>,
) -> Seq<ResultModel> {
    vector_pool(lists) + extras_upto(
        vector_pool(lists).map_values(|result: ResultModel| result_id(result)),
        hits,
        ext,
        dir,
        hits.len() as int,
    ).map_values(|hit: LexicalModel| result_of_lexical(hit))
}

/// A result with the ranks that its id reached in the two stores.
pub open spec fn candidate_of(
    result: ResultModel,
    lists: Seq<Seq<HitModel>>,
    hits: Seq<LexicalModel>,
) -> CandidateModel {
    CandidateModel {
        result,
        vector_ranks: ranks_upto(lists, result_id(result), lists.len() as int),
        bm25_rank: last_rank(hits, result_id(result), hits.len() as int),
    }
}

/// The candidates of a search, each with its ranks.
pub open spec fn candidates_of(
    lists: Seq<Seq<HitModel>>,
    hits: Seq<LexicalModel>,
    ext: Option<Seq<char>>,
    dir: Option<Seq<char>>,
) -> Seq<CandidateModel> {
    pool_of(lists, hits, ext, dir).map_values(
        |result: ResultModel| candidate_of(result, lists, hits),
    )
}

impl SearchResult {
    /// The id of this result, derived from its file name and lines.
    pub fn id(&self) -> (id: String)
        ensures
            id@ == result_id(self@),
    {
        chunk_id(self.filename.as_str(), self.line_start as i128, self.line_end as i128)
    }
}

impl VectorHit {
    /// A copy of this hit.
    pub fn duplicate(&self) -> (copy: VectorHit)
        ensures
            copy@ == self@,
    {
        VectorHit {
            id: self.id.clone(),
            filename: self.filename.clone(),
            code: self.code.clone(),
            line_start: self.line_start,
            line_end: self.line_end,
            last_modified: self.last_modified,
            calls: copy_texts(&self.calls),
        }
    }

    /// The result that stands for this hit.
    pub fn to_result(&self) -> (result: SearchResult)
        ensures
            result@ == result_of_hit(self@),
    {
        SearchResult {
            rank: 0,
            score: Score { bits: 0 },
            filename: self.filename.clone(),
            code: self.code.clone(),
            line_start: self.line_start,
            line_end: self.line_end,
            last_modified: self.last_modified,
            calls: copy_texts(&self.calls),
        }
    }
}

impl BM25Result {
    /// The result that stands for this hit.
    pub fn to_result(&self) -> (result: SearchResult)
        ensures
            result@ == result_of_lexical(self@),
    {
        let calls: Vec<String> = Vec::new();
        assert(calls.deep_view() =~= Seq::<Seq<char>>::empty());
        SearchResult {
            rank: 0,
            score: Score { bits: 0 },
            filename: self.filename.clone(),
            code: self.code.clone(),
            line_start: #[verifier::truncate]
            (self.line_start as i32),
            line_end: #[verifier::truncate]
            (self.line_end as i32),
            last_modified: 0,
            calls,
        }
    }
}

/// Decides `knows`.
fn id_known(seen: &Vec<VectorHit>, id: &str) -> (known: bool)
    ensures
        known == knows(seen.deep_view(), id@),
{
    let mut k: usize = 0;
    while k < seen.len()
        invariant
            k <= seen.len(),
            forall|j: int| 0 <= j < k ==> seen@[j].id@ != id@,
        decreases seen.len() - k,
    {
        if same_text(seen[k].id.as_str(), id) {
            assert(seen.deep_view()[k as int].id == id@);
            return true;
        }
        k += 1;
    }
    assert forall|j: int| 0 <= j < seen.deep_view().len() implies (#[trigger] seen.deep_view()[j]).id
        != id@ by {
        assert(seen.deep_view()[j] == seen@[j]@);
    }
    false
}

/// Decides `holds_id`.
fn id_taken(taken: &Vec<BM25Result>, id: &str) -> (held: bool)
    ensures
        held == holds_id(taken.deep_view(), id@),
{
    let mut k: usize = 0;
    while k < taken.len()
        invariant
            k <= taken.len(),
            forall|j: int| 0 <= j < k ==> taken@[j].id@ != id@,
        decreases taken.len() - k,
    {
        if same_text(taken[k].id.as_str(), id) {
            assert(taken.deep_view()[k as int].id == id@);
            return true;
        }
        k += 1;
    }
    assert forall|j: int| 0 <= j < taken.deep_view().len() implies (
    #[trigger] taken.deep_view()[j]).id != id@ by {
        assert(taken.deep_view()[j] == taken@[j]@);
    }
    false
}

/// Whether `id` is one of `ids`.
fn text_among(ids: &Vec<String>, id: &str) -> (found: bool)
    ensures
        found == ids.deep_view().contains(id@),
{
    let mut k: usize = 0;
    while k < ids.len()
        invariant
            k <= ids.len(),
            forall|j: int| 0 <= j < k ==> ids@[j]@ != id@,
        decreases ids.len() - k,
    {
        if same_text(ids[k].as_str(), id) {
            assert(ids.deep_view()[k as int] == id@);
            return true;
        }
        k += 1;
    }
    assert forall|j: int| 0 <= j < ids.deep_view().len() implies ids.deep_view()[j] != id@ by {
        assert(ids.deep_view()[j] == ids@[j]@);
    }
    false
}

/// For each id among the hits, a copy of the hit where it first occurs.
pub fn first_seen(lists: &Vec<Vec<VectorHit>>) -> (seen: Vec<VectorHit>)
    ensures
        seen.deep_view() == seen_upto(lists.deep_view(), lists.len() as int),
{
    let mut seen: Vec<VectorHit> = Vec::new();
    assert(seen.deep_view() =~= Seq::<HitModel>::empty());
    let mut m: usize = 0;
    while m < lists.len()
        invariant
            m <= lists.len(),
            seen.deep_view() == seen_upto(lists.deep_view(), m as int),
        decreases lists.len() - m,
    {
        let list = &lists[m];
        let ghost start = seen.deep_view();
        assert(lists.deep_view()[m as int] == list.deep_view());
        let mut n: usize = 0;
        while n < list.len()
            invariant
                n <= list.len(),
                seen.deep_view() == seen_in_list(start, list.deep_view(), n as int),
            decreases list.len() - n,
        {
            assert(list.deep_view()[n as int] == list@[n as int]@);
            if !id_known(&seen, list[n].id.as_str()) {
                let copy = list[n].duplicate();
                proof {
                    lemma_deep_view_push(seen@, seen@.push(copy), copy);
                }
                seen.push(copy);
            }
            n += 1;
        }
        m += 1;
    }
    seen
}

/// The ranks that `id` reached in the answers of the vector store.
pub fn vector_ranks(lists: &Vec<Vec<VectorHit>>, id: &str) -> (ranks: Vec<usize>)
    ensures
        ranks@ == ranks_upto(lists.deep_view(), id@, lists.len() as int),
{
    let mut ranks: Vec<usize> = Vec::new();
    let mut m: usize = 0;
    while m < lists.len()
        invariant
            m <= lists.len(),
            ranks@ == ranks_upto(lists.deep_view(), id@, m as int),
        decreases lists.len() - m,
    {
        let list = &lists[m];
        let ghost start = ranks@;
        assert(lists.deep_view()[m as int] == list.deep_view());
        assert(start + Seq::<usize>::empty() =~= start);
        let mut n: usize = 0;
        while n < list.len()
            invariant
                n <= list.len(),
                ranks@ == start + ranks_in_list(list.deep_view(), id@, n as int),
            decreases list.len() - n,
        {
            assert(list.deep_view()[n as int] == list@[n as int]@);
            if same_text(list[n].id.as_str(), id) {
                ranks.push(n + 1);
                assert(ranks@ =~= start + ranks_in_list(list.deep_view(), id@, n + 1));
            }
            n += 1;
        }
        m += 1;
    }
    ranks
}

/// The rank that `id` reached in the answer of the lexical store.
pub fn lexical_rank(hits: &Vec<BM25Result>, id: &str) -> (rank: Option<usize>)
    ensures
        rank == last_rank(hits.deep_view(), id@, hits.len() as int),
{
    let mut n: usize = hits.len();
    while n > 0
        invariant
            n <= hits.len(),
            last_rank(hits.deep_view(), id@, hits.len() as int) == last_rank(
                hits.deep_view(),
                id@,
                n as int,
            ),
        decreases n,
    {
        assert(hits.deep_view()[n - 1] == hits@[n - 1]@);
        if same_text(hits[n - 1].id.as_str(), id) {
            return Some(n);
        }
        n -= 1;
    }
    None
}

/// Gathers the candidates of a search from the answers of the two stores:
/// one candidate for each id among the vector hits, then the lexical hits
/// that are new and pass the filters; each with the ranks that its id
/// reached. `lists` holds one answer of the vector store for each query,
/// `hits` the answer of the lexical store, empty where there is none.
pub fn gather_candidates(
    lists: &Vec<Vec<VectorHit>>,
    hits: &Vec<BM25Result>,
    ext: &Option<String>,
    dir: &Option<String>,
) -> (candidates: Vec<Candidate>)
    ensures
        candidates.deep_view() == candidates_of(
            lists.deep_view(),
            hits.deep_view(),
            text_of(*ext),
            text_of(*dir),
        ),
{
    let seen = first_seen(lists);
    let mut pool: Vec<SearchResult> = Vec::new();
    let mut ids: Vec<String> = Vec::new();
    let mut i: usize = 0;
    while i < seen.len()
        invariant
            i <= seen.len(),
            pool.len() == i,
            ids.len() == i,
            forall|j: int| 0 <= j < i ==> pool@[j]@ == result_of_hit(seen@[j]@),
            forall|j: int| 0 <= j < i ==> ids@[j]@ == result_id(result_of_hit(seen@[j]@)),
        decreases seen.len() - i,
    {
        let result = seen[i].to_result();
        ids.push(result.id());
        pool.push(result);
        i += 1;
    }
    let ghost vectors = vector_pool(lists.deep_view());
    let ghost known = vectors.map_values(|result: ResultModel| result_id(result));
    assert(pool.deep_view() =~= vectors);
    assert(ids.deep_view() =~= known);
    let mut extras: Vec<BM25Result> = Vec::new();
    assert(extras.deep_view() =~= Seq::<LexicalModel>::empty());
    let mut n: usize = 0;
    while n < hits.len()
        invariant
            n <= hits.len(),
            ids.deep_view() == known,
            extras.deep_view() == extras_upto(
                known,
                hits.deep_view(),
                text_of(*ext),
                text_of(*dir),
                n as int,
            ),
            pool.deep_view() == vectors + extras.deep_view().map_values(
                |hit: LexicalModel| result_of_lexical(hit),
            ),
        decreases hits.len() - n,
    {
        let hit = &hits[n];
        assert(hits.deep_view()[n as int] == hit@);
        if !text_among(&ids, hit.id.as_str()) && !id_taken(&extras, hit.id.as_str())
            && filename_passes(hit.filename.as_str(), ext, dir) {
            let copy = BM25Result {
                id: hit.id.clone(),
                filename: hit.filename.clone(),
                code: hit.code.clone(),
                line_start: hit.line_start,
                line_end: hit.line_end,
                score: hit.score,
            };
            let result = hit.to_result();
            proof {
                lemma_deep_view_push(extras@, extras@.push(copy), copy);
                lemma_deep_view_push(pool@, pool@.push(result), result);
                let old_extras = extras.deep_view();
                assert(old_extras.push(copy@).map_values(
                    |hit: LexicalModel| result_of_lexical(hit),
                ) =~= old_extras.map_values(|hit: LexicalModel| result_of_lexical(hit)).push(
                    result@,
                ));
                assert((vectors + old_extras.map_values(
                    |hit: LexicalModel| result_of_lexical(hit),
                )).push(result@) =~= vectors + old_extras.map_values(
                    |hit: LexicalModel| result_of_lexical(hit),
                ).push(result@));
            }
            extras.push(copy);
            pool.push(result);
        }
        n += 1;
    }
    let ghost all = pool_of(lists.deep_view(), hits.deep_view(), text_of(*ext), text_of(*dir));
    assert(pool.deep_view() == all);
    let fill = |result: SearchResult, index: usize| -> (candidate: Candidate)
        ensures
            candidate@ == candidate_of(result@, lists.deep_view(), hits.deep_view()),
        {
            let id = result.id();
            let ranks = vector_ranks(lists, id.as_str());
            let rank = lexical_rank(hits, id.as_str());
            Candidate { result, vector_ranks: ranks, bm25_rank: rank }
        };
    let candidates = map_owned(pool, fill);
    assert(candidates.deep_view() =~= candidates_of(
        lists.deep_view(),
        hits.deep_view(),
        text_of(*ext),
        text_of(*dir),
    )) by {
        assert forall|j: int| 0 <= j < candidates.len() implies candidates.deep_view()[j]
            == candidate_of(all[j], lists.deep_view(), hits.deep_view()) by {
            assert(pool.deep_view()[j] == pool@[j]@);
        }
    }
    candidates
}

/// `result` with another score.
pub open spec fn with_score(result: ResultModel, score: Score) -> ResultModel {
    ResultModel { score, ..result }
}

/// `result` with another rank.
pub open spec fn with_rank(result: ResultModel, rank: int) -> ResultModel {
    ResultModel { rank, ..result }
}

/// The order of results from the highest score down.
pub open spec fn score_above() -> spec_fn(ResultModel, ResultModel) -> bool {
    |a: ResultModel, b: ResultModel| a.score.key() > b.score.key()
}

/// The results after the first `n` entries of a re-ranking are applied:
/// each entry gives the score of the result at its index, and an entry
/// with an index beyond the results changes nothing.
pub open spec fn rescored_upto(
    results: Seq<ResultModel>,
    reranked: Seq<(usize, Score)>,
    n: int,
) -> Seq<ResultModel>
    decreases n,
{
    if n <= 0 {
        results
    } else if reranked[n - 1].0 < results.len() {
        rescored_upto(results, reranked, n - 1).update(
            reranked[n - 1].0 as int,
            with_score(
                rescored_upto(results, reranked, n - 1)[reranked[n - 1].0 as int],
                reranked[n - 1].1,
            ),
        )
    } else {
        rescored_upto(results, reranked, n - 1)
    }
}

/// The results with the scores of a re-ranking, from the highest score
/// down.
pub open spec fn reranked_order(results: Seq<ResultModel>, reranked: Seq<(usize, Score)>) -> Seq<
    ResultModel,
> {
    stable_sort(rescored_upto(results, reranked, reranked.len() as int), score_above())
}

/// The first `limit` results, ranked from 1 in the order they stand in.
pub open spec fn ranked_prefix(results: Seq<ResultModel>, limit: int) -> Seq<ResultModel> {
    Seq::new(
        if results.len() <= limit {
            results.len()
        } else {
            limit as nat
        },
        |i: int| with_rank(results[i], i + 1),
    )
}

/// The results that stand for merged chunks: ranked from 1 in the order
/// they stand in, each with the top score, the code and the lines of its
/// chunk, and without calls.
pub open spec fn results_of_chunks(chunks: Seq<MergedModel>) -> Seq<ResultModel> {
    Seq::new(
        chunks.len(),
        |i: int|
            ResultModel {
                rank: i + 1,
                score: chunks[i].max_score,
                filename: chunks[i].filename,
                code: chunks[i].code,
                line_start: chunks[i].start_line,
                line_end: chunks[i].end_line,
                last_modified: 0,
                calls: Seq::empty(),
            },
    )
}

/// The response of a search, from the candidates in order of their fused
/// scores: re-ranked if a re-ranking is given, cut to `limit` and ranked,
/// and packed into `max_tokens` if that is set.
pub open spec fn response_of(
    ordered: Seq<ResultModel>,
    reranked: Option<Seq<(usize, Score)>>,
    limit: int,
    max_tokens: Option<usize>,
) -> Result<Seq<ResultModel>, ContextError> {
    let top = ranked_prefix(
        match reranked {
            Some(reranked) => reranked_order(ordered, reranked),
            None => ordered,
        },
        limit,
    );
    match max_tokens {
        None => Ok(top),
        Some(tokens) => match optimized(top, tokens as int) {
            Ok(chunks) => Ok(results_of_chunks(chunks)),
            Err(e) => Err(e),
        },
    }
}

/// What a result of search results holds, as mathematical values.
pub open spec fn results_model(result: Result<Vec<SearchResult>, ContextError>) -> Result<
    Seq<ResultModel>,
    ContextError,
> {
    match result {
        Ok(results) => Ok(results.deep_view()),
        Err(e) => Err(e),
    }
}

impl SearchResult {
    /// This result with another score.
    pub fn scored(self, score: Score) -> (result: SearchResult)
        ensures
            result@ == with_score(self@, score),
    {
        SearchResult {
            rank: self.rank,
            score,
            filename: self.filename,
            code: self.code,
            line_start: self.line_start,
            line_end: self.line_end,
            last_modified: self.last_modified,
            calls: self.calls,
        }
    }

    /// This result with another rank.
    pub fn ranked(self, rank: usize) -> (result: SearchResult)
        ensures
            result@ == with_rank(self@, rank as int),
    {
        SearchResult {
            rank,
            score: self.score,
            filename: self.filename,
            code: self.code,
            line_start: self.line_start,
            line_end: self.line_end,
            last_modified: self.last_modified,
            calls: self.calls,
        }
    }
}

/// Re-ranking keeps the number of results, and changes nothing of a result
/// but its score.
pub proof fn lemma_rescored_keeps(results: Seq<ResultModel>, reranked: Seq<(usize, Score)>, n: int)
    ensures
        rescored_upto(results, reranked, n).len() == results.len(),
        forall|i: int|
            0 <= i < results.len() ==> (#[trigger] rescored_upto(results, reranked, n)[i])
                == with_score(results[i], rescored_upto(results, reranked, n)[i].score),
    decreases n,
{
    if n > 0 {
        lemma_rescored_keeps(results, reranked, n - 1);
    }
}

/// Gives each candidate the score that `fuse` computes from its ranks.
pub fn score_candidates<F: Fn(&Vec<usize>, Option<usize>) -> Score>(
    candidates: Vec<Candidate>,
    fuse: F,
) -> (results: Vec<SearchResult>)
    requires
        forall|ranks: &Vec<usize>, rank: Option<usize>| call_requires(fuse, (ranks, rank)),
    ensures
        results.len() == candidates.len(),
        forall|i: int|
            0 <= i < results.len() ==> {
                &&& call_ensures(
                    fuse,
                    (&candidates@[i].vector_ranks, candidates@[i].bm25_rank),
                    (#[trigger] results@[i]).score,
                )
                &&& results@[i]@ == with_score(candidates@[i]@.result, results@[i].score)
            },
{
    let ghost given = candidates@;
    let total = candidates.len();
    let mut rest = candidates;
    let mut results: Vec<SearchResult> = Vec::new();
    let mut done: usize = 0;
    while rest.len() > 0
        invariant
            total == given.len(),
            done + rest.len() == total,
            rest@ == given.skip(done as int),
            results.len() == done,
            forall|ranks: &Vec<usize>, rank: Option<usize>| call_requires(fuse, (ranks, rank)),
            forall|i: int|
                0 <= i < done ==> {
                    &&& call_ensures(
                        fuse,
                        (&given[i].vector_ranks, given[i].bm25_rank),
                        (#[trigger] results@[i]).score,
                    )
                    &&& results@[i]@ == with_score(given[i]@.result, results@[i].score)
                },
        decreases rest.len(),
    {
        let candidate = rest.remove(0);
        assert(candidate == given[done as int]);
        let score = fuse(&candidate.vector_ranks, candidate.bm25_rank);
        results.push(candidate.result.scored(score));
        assert(given.skip(done as int).skip(1) =~= given.skip(done + 1));
        done += 1;
    }
    results
}

/// Puts results in order from the highest score down; results that tie
/// keep their order.
pub fn order_by_score(results: Vec<SearchResult>) -> (ordered: Vec<SearchResult>)
    ensures
        ordered.deep_view() == stable_sort(results.deep_view(), score_above()),
        ordered.len() == results.len(),
{
    let above = |a: &SearchResult, b: &SearchResult| -> (higher: bool)
        ensures
            higher == (a.score.key() > b.score.key()),
        { b.score.precedes(a.score) };
    sort_stable(results, above, Ghost(score_above()))
}

/// Applies a re-ranking: each entry gives the score of the result at its
/// index; the results are then put in order from the highest score down.
pub fn apply_rerank(results: Vec<SearchResult>, reranked: &Vec<(usize, Score)>) -> (ordered: Vec<
    SearchResult,
>)
    ensures
        ordered.deep_view() == reranked_order(results.deep_view(), reranked@),
{
    let ghost before = results.deep_view();
    let mut scores: Vec<Score> = Vec::new();
    let mut i: usize = 0;
    while i < results.len()
        invariant
            i <= results.len(),
            scores.len() == i,
            forall|j: int| 0 <= j < i ==> scores@[j] == results@[j].score,
        decreases results.len() - i,
    {
        scores.push(results[i].score);
        i += 1;
    }
    let mut n: usize = 0;
    while n < reranked.len()
        invariant
            n <= reranked.len(),
            scores.len() == results.len(),
            before == results.deep_view(),
            forall|j: int|
                0 <= j < scores.len() ==> scores@[j] == (#[trigger] rescored_upto(
                    before,
                    reranked@,
                    n as int,
                )[j]).score,
        decreases reranked.len() - n,
    {
        proof {
            lemma_rescored_keeps(before, reranked@, n as int);
        }
        let (index, score) = reranked[n];
        if index < scores.len() {
            scores.set(index, score);
        }
        n += 1;
    }
    proof {
        lemma_rescored_keeps(before, reranked@, reranked.len() as int);
    }
    let rescore = |result: SearchResult, index: usize| -> (scored: SearchResult)
        requires
            index < scores.len(),
        ensures
            scored@ == with_score(result@, scores@[index as int]),
        { result.scored(scores[index]) };
    let rescored = map_owned(results, rescore);
    assert(rescored.deep_view() =~= rescored_upto(before, reranked@, reranked.len() as int)) by {
        assert forall|j: int| 0 <= j < rescored.len() implies rescored.deep_view()[j]
            == rescored_upto(before, reranked@, reranked.len() as int)[j] by {
            assert(call_ensures(rescore, (results@[j], j as usize), rescored@[j as usize as int]));
            assert(before[j] == results@[j]@);
        }
    }
    order_by_score(rescored)
}

/// Keeps the first `limit` results and ranks them from 1.
pub fn truncate_and_rank(results: Vec<SearchResult>, limit: usize) -> (top: Vec<SearchResult>)
    ensures
        top.deep_view() == ranked_prefix(results.deep_view(), limit as int),
{
    let ghost before = results.deep_view();
    let mut kept = results;
    kept.truncate(limit);
    assert(kept.len() == if before.len() <= limit {
        before.len()
    } else {
        limit as nat
    });
    assert forall|j: int| 0 <= j < kept.len() implies (#[trigger] kept@[j])@ == before[j] by {
        assert(kept@[j] == results@[j]);
    }
    let number = |result: SearchResult, index: usize| -> (ranked: SearchResult)
        requires
            index < usize::MAX,
        ensures
            ranked@ == with_rank(result@, index + 1),
        { result.ranked(index + 1) };
    let top = map_owned(kept, number);
    assert(top.deep_view() =~= ranked_prefix(before, limit as int)) by {
        assert forall|j: int| 0 <= j < top.len() implies top.deep_view()[j] == with_rank(
            before[j],
            j + 1,
        ) by {
            assert(call_ensures(number, (kept@[j], j as usize), top@[j as usize as int]));
        }
    }
    top
}

/// The results that stand for merged chunks.
pub fn chunks_to_results(chunks: Vec<MergedChunk>) -> (results: Vec<SearchResult>)
    ensures
        results.deep_view() == results_of_chunks(chunks.deep_view()),
{
    let convert = |chunk: MergedChunk, index: usize| -> (result: SearchResult)
        requires
            index < usize::MAX,
        ensures
            result@ == (ResultModel {
                rank: index + 1,
                score: chunk@.max_score,
                filename: chunk@.filename,
                code: chunk@.code,
                line_start: chunk@.start_line,
                line_end: chunk@.end_line,
                last_modified: 0,
                calls: Seq::empty(),
            }),
        {
            let calls: Vec<String> = Vec::new();
            assert(calls.deep_view() =~= Seq::<Seq<char>>::empty());
            SearchResult {
                rank: index + 1,
                score: chunk.max_score,
                filename: chunk.filename,
                code: chunk.code,
                line_start: chunk.start_line,
                line_end: chunk.end_line,
                last_modified: 0,
                calls,
            }
        };
    let results = map_owned(chunks, convert);
    assert(results.deep_view() =~= results_of_chunks(chunks.deep_view())) by {
        assert forall|j: int| 0 <= j < results.len() implies results.deep_view()[j]
            == results_of_chunks(chunks.deep_view())[j] by {
            assert(call_ensures(convert, (chunks@[j], j as usize), results@[j as usize as int]));
        }
    }
    results
}

/// Builds the response of a search from the candidates in order of their
/// fused scores: applies the re-ranking if there is one, keeps the first
/// `limit` results and ranks them, and packs them into `max_tokens` if that
/// is set.
///
/// Fails exactly when a token budget is set and the tokenizer gives no
/// count for one of the merged chunks.
pub fn finish_search(
    ordered: Vec<SearchResult>,
    reranked: Option<Vec<(usize, Score)>>,
    limit: usize,
    max_tokens: Option<usize>,
) -> (response: Result<Vec<SearchResult>, ContextError>)
    ensures
        results_model(response) == response_of(
            ordered.deep_view(),
            match reranked {
                Some(reranked) => Some(reranked@),
                None => None,
            },
            limit as int,
            max_tokens,
        ),
{
    let reordered = match &reranked {
        Some(reranked) => apply_rerank(ordered, reranked),
        None => ordered,
    };
    let top = truncate_and_rank(reordered, limit);
    match max_tokens {
        None => Ok(top),
        Some(tokens) => match ContextOptimizer::new(tokens).optimize(top) {
            Ok(chunks) => Ok(chunks_to_results(chunks)),
            Err(e) => Err(e),
        },
    }
}

/// Results put in order by score stand from the highest score down: no
/// result has a higher score than one in front of it.
pub proof fn lemma_ordered_by_score(results: Seq<ResultModel>)
    ensures
        in_order(stable_sort(results, score_above()), score_above()),
        forall|i: int, j: int|
            0 <= i < j < stable_sort(results, score_above()).len() ==> (#[trigger] stable_sort(
                results,
                score_above(),
            )[i]).score.key() >= (#[trigger] stable_sort(results, score_above())[j]).score.key(),
{
    lemma_key_order(score_above(), |result: ResultModel| result.score.key());
    lemma_stable_sort_in_order(results, score_above());
    let sorted = stable_sort(results, score_above());
    assert forall|i: int, j: int| 0 <= i < j < sorted.len() implies (#[trigger] sorted[i]).score.key()
        >= (#[trigger] sorted[j]).score.key() by {
        assert(!score_above()(sorted[j], sorted[i]));
    }
}

/// A response without a token budget holds at most `limit` results, ranked
/// 1, 2, 3 and so on in the order they stand in.
pub proof fn lemma_response_ranks(
    ordered: Seq<ResultModel>,
    reranked: Option<Seq<(usize, Score)>>,
    limit: nat,
)
    ensures
        response_of(ordered, reranked, limit as int, None) matches Ok(results) && results.len()
            <= limit && results.len() <= ordered.len() && forall|i: int|
            0 <= i < results.len() ==> (#[trigger] results[i]).rank == i + 1,
{
    match reranked {
        Some(entries) => {
            lemma_rescored_keeps(ordered, entries, entries.len() as int);
            crate::order::lemma_stable_sort_permutes(
                rescored_upto(ordered, entries, entries.len() as int),
                score_above(),
            );
            rescored_upto(ordered, entries, entries.len() as int).to_multiset_ensures();
            stable_sort(
                rescored_upto(ordered, entries, entries.len() as int),
                score_above(),
            ).to_multiset_ensures();
        },
        None => {},
    }
}

/// Whether no two hits of `seen` have the same id.
pub open spec fn ids_distinct(seen: Seq<HitModel>) -> bool {
    forall|i: int, j: int| 0 <= i < j < seen.len() ==> (#[trigger] seen[i]).id != (#[trigger] seen[j]).id
}

/// Extending hits with distinct ids by a list gives hits with distinct ids.
pub proof fn lemma_seen_in_list_distinct(seen: Seq<HitModel>, list: Seq<HitModel>, n: int)
    requires
        ids_distinct(seen),
    ensures
        ids_distinct(seen_in_list(seen, list, n)),
    decreases n,
{
    if n > 0 {
        lemma_seen_in_list_distinct(seen, list, n - 1);
        let front = seen_in_list(seen, list, n - 1);
        let all = seen_in_list(seen, list, n);
        if !knows(front, list[n - 1].id) {
            assert forall|i: int, j: int| 0 <= i < j < all.len() implies (#[trigger] all[i]).id != (
            #[trigger] all[j]).id by {
                if j == front.len() {
                    assert(all[i] == front[i]);
                } else {
                    assert(all[i] == front[i]);
                    assert(all[j] == front[j]);
                }
            }
        }
    }
}

/// Each id among the vector hits stands for one candidate: no two of the
/// hits that are kept have the same id.
pub proof fn lemma_seen_ids_distinct(lists: Seq<Seq<HitModel>>, m: int)
    ensures
        ids_distinct(seen_upto(lists, m)),
    decreases m,
{
    if m > 0 {
        lemma_seen_ids_distinct(lists, m - 1);
        lemma_seen_in_list_distinct(seen_upto(lists, m - 1), lists[m - 1], lists[m - 1].len() as int);
    }
}

} // verus!
