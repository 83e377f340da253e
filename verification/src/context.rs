//! Merging of neighbouring search results and packing within a token budget.

use vstd::prelude::*;
use vstd::string::StringExecFns;
use crate::order::{precedes_text, sort_stable, stable_sort, text_before};
use crate::score::Score;
use crate::search::{ResultModel, SearchResult};
use crate::text::{chars_of, lemma_deep_view_concat, lemma_deep_view_push, same_text};
use crate::tokenizer::{cl100k_token_count, count_tokens};

verus! {

/// A block of code merged from one or more search results of one file that
/// lie close together.
#[derive(Debug)]
pub struct MergedChunk {
    pub filename: String,
    /// First line of the block: the least first line of its contributors.
    pub start_line: i32,
    /// Last line of the block: the greatest last line of its contributors.
    pub end_line: i32,
    /// The code of the contributors, in order of their first lines, one per
    /// line group, with a marker where lines between two of them are
    /// missing.
    pub code: String,
    /// The scores of the contributors, in order of their first lines.
    pub scores: Vec<Score>,
    /// The highest of `scores` in the total order.
    pub max_score: Score,
}

/// What a `MergedChunk` holds, as mathematical values.
pub struct MergedModel {
    pub filename: Seq<char>,
    pub start_line: int,
    pub end_line: int,
    pub code: Seq<char>,
    pub scores: Seq<Score>,
    pub max_score: Score,
}

impl View for MergedChunk {
    type V = MergedModel;

    open spec fn view(&self) -> MergedModel {
        MergedModel {
            filename: self.filename@,
            start_line: self.start_line as int,
            end_line: self.end_line as int,
            code: self.code@,
            scores: self.scores@,
            max_score: self.max_score,
        }
    }
}

impl DeepView for MergedChunk {
    type V = MergedModel;

    open spec fn deep_view(&self) -> MergedModel {
        self@
    }
}

/// Why a set of results could not be packed.
#[derive(Clone, Copy, Debug, PartialEq, Eq, Structural)]
pub enum ContextError {
    /// The tokenizer gave no count for the code of a merged chunk.
    Tokenizer,
}

/// Packs search results into a token budget.
#[derive(Debug)]
pub struct ContextOptimizer {
    /// The largest number of tokens that the chunks handed back may hold
    /// together.
    pub token_limit: usize,
}

/// A result joins the chunk in front of it when it starts at most this many
/// lines after the chunk ends.
pub const MERGE_DISTANCE: i64 = 5;

/// The merged chunk of a single result.
pub open spec fn single(result: ResultModel) -> MergedModel {
    MergedModel {
        filename: result.filename,
        start_line: result.line_start,
        end_line: result.line_end,
        code: result.code,
        scores: seq![result.score],
        max_score: result.score,
    }
}

/// What stands between the code of a chunk that ends at line `end` and the
/// code of a result that starts at line `start`: a line break, and a gap
/// marker too when at least one line between them is missing.
pub open spec fn joint(end: int, start: int) -> Seq<char> {
    if start > end + 1 {
        "\n"@ + "... (gap) ...\n"@
    } else {
        "\n"@
    }
}

/// The chunk `current` extended by `result`.
pub open spec fn absorbed(current: MergedModel, result: ResultModel) -> MergedModel {
    MergedModel {
        filename: current.filename,
        start_line: current.start_line,
        end_line: if result.line_end > current.end_line {
            result.line_end
        } else {
            current.end_line
        },
        code: current.code + joint(current.end_line, result.line_start) + result.code,
        scores: current.scores.push(result.score),
        max_score: if current.max_score.key() < result.score.key() {
            result.score
        } else {
            current.max_score
        },
    }
}

/// Whether `result` joins a chunk that ends at line `end`.
pub open spec fn joins(end: int, result: ResultModel) -> bool {
    result.line_start <= end + MERGE_DISTANCE
}

/// The merged chunks of results of one file in order of their first lines:
/// each result joins the chunk in front of it if it starts close enough to
/// where that chunk ends, and starts a chunk of its own otherwise.
pub open spec fn merge_sorted(sorted: Seq<ResultModel>) -> Seq<MergedModel>
    decreases sorted.len(),
{
    if sorted.len() == 0 {
        Seq::empty()
    } else {
        let front = merge_sorted(sorted.drop_last());
        if front.len() > 0 && joins(front.last().end_line, sorted.last()) {
            front.drop_last().push(absorbed(front.last(), sorted.last()))
        } else {
            front.push(single(sorted.last()))
        }
    }
}

/// The results among `results` that lie in `filename`, in their order.
pub open spec fn group_of(results: Seq<ResultModel>, filename: Seq<char>) -> Seq<ResultModel>
    decreases results.len(),
{
    if results.len() == 0 {
        Seq::empty()
    } else if results.last().filename == filename {
        group_of(results.drop_last(), filename).push(results.last())
    } else {
        group_of(results.drop_last(), filename)
    }
}

/// The order of results by first line.
pub open spec fn starts_before() -> spec_fn(ResultModel, ResultModel) -> bool {
    |a: ResultModel, b: ResultModel| a.line_start < b.line_start
}

/// The order of merged chunks from the highest top score down.
pub open spec fn score_higher() -> spec_fn(MergedModel, MergedModel) -> bool {
    |a: MergedModel, b: MergedModel| a.max_score.key() > b.max_score.key()
}

/// The order of merged chunks for reading: by file name, and within a file
/// by first line.
pub open spec fn reads_before() -> spec_fn(MergedModel, MergedModel) -> bool {
    |a: MergedModel, b: MergedModel|
        if a.filename == b.filename {
            a.start_line < b.start_line
        } else {
            text_before(a.filename, b.filename)
        }
}

/// The merged chunks of the file `filename`.
pub open spec fn merged_of_file(results: Seq<ResultModel>, filename: Seq<char>) -> Seq<
    MergedModel,
> {
    merge_sorted(stable_sort(group_of(results, filename), starts_before()))
}

/// Whether no result in front of result `i` lies in the same file.
pub open spec fn opens_file(results: Seq<ResultModel>, i: int) -> bool {
    forall|j: int| 0 <= j < i ==> (#[trigger] results[j]).filename != results[i].filename
}

/// The merged chunks of the files that the first `n` results open, file by
/// file in the order in which the files first occur.
pub open spec fn merged_upto(results: Seq<ResultModel>, n: int) -> Seq<MergedModel>
    decreases n,
{
    if n <= 0 {
        Seq::empty()
    } else if opens_file(results, n - 1) {
        merged_upto(results, n - 1) + merged_of_file(results, results[n - 1].filename)
    } else {
        merged_upto(results, n - 1)
    }
}

/// The merged chunks of all results.
pub open spec fn merged_all(results: Seq<ResultModel>) -> Seq<MergedModel> {
    merged_upto(results, results.len() as int)
}

/// The tokens that the first `n` of `costed` use up when each chunk in turn
/// is taken if it still fits the limit, and passed over if not.
pub open spec fn used_upto(costed: Seq<(MergedModel, usize)>, limit: int, n: int) -> int
    decreases n,
{
    if n <= 0 {
        0
    } else if used_upto(costed, limit, n - 1) + costed[n - 1].1 <= limit {
        used_upto(costed, limit, n - 1) + costed[n - 1].1
    } else {
        used_upto(costed, limit, n - 1)
    }
}

/// The chunks taken among the first `n` of `costed`.
pub open spec fn taken_upto(costed: Seq<(MergedModel, usize)>, limit: int, n: int) -> Seq<
    MergedModel,
>
    decreases n,
{
    if n <= 0 {
        Seq::empty()
    } else if used_upto(costed, limit, n - 1) + costed[n - 1].1 <= limit {
        taken_upto(costed, limit, n - 1).push(costed[n - 1].0)
    } else {
        taken_upto(costed, limit, n - 1)
    }
}

/// The chunks of `costed` that a greedy pass takes within `limit`.
pub open spec fn within_budget(costed: Seq<(MergedModel, usize)>, limit: int) -> Seq<
    MergedModel,
> {
    taken_upto(costed, limit, costed.len() as int)
}

/// The number of tokens of a chunk's code; 0 where the tokenizer gives none.
pub open spec fn chunk_tokens(chunk: MergedModel) -> int {
    match cl100k_token_count(chunk.code) {
        Some(count) => count as int,
        None => 0,
    }
}

/// Each chunk with the number of its tokens.
pub open spec fn with_tokens(chunks: Seq<MergedModel>) -> Seq<(MergedModel, usize)> {
    Seq::new(
        chunks.len(),
        |i: int|
            (chunks[i], match cl100k_token_count(chunks[i].code) {
                Some(count) => count,
                None => 0usize,
            }),
    )
}

/// Whether the tokenizer gives a count for every chunk.
pub open spec fn all_counted(chunks: Seq<MergedModel>) -> bool {
    forall|i: int| 0 <= i < chunks.len() ==> cl100k_token_count((#[trigger] chunks[i]).code) is Some
}

/// The merged chunks of `results` that fit `limit` tokens, ordered for
/// reading: neighbouring results are merged file by file, the merged chunks
/// are ranked from the highest top score down, taken greedily while they
/// fit, and what was taken is put in order of file name and first line.
pub open spec fn optimized(results: Seq<ResultModel>, limit: int) -> Result<
    Seq<MergedModel>,
    ContextError,
> {
    let ranked = stable_sort(merged_all(results), score_higher());
    if all_counted(ranked) {
        Ok(stable_sort(within_budget(with_tokens(ranked), limit), reads_before()))
    } else {
        Err(ContextError::Tokenizer)
    }
}

/// What a result of merged chunks holds, as mathematical values.
pub open spec fn merged_model(result: Result<Vec<MergedChunk>, ContextError>) -> Result<
    Seq<MergedModel>,
    ContextError,
> {
    match result {
        Ok(chunks) => Ok(chunks.deep_view()),
        Err(e) => Err(e),
    }
}

/// Whether result `i` opens its file.
fn is_first_of_file(results: &Vec<SearchResult>, i: usize) -> (first: bool)
    requires
        i < results.len(),
    ensures
        first == opens_file(results.deep_view(), i as int),
{
    let mut j: usize = 0;
    while j < i
        invariant
            j <= i < results.len(),
            forall|k: int| 0 <= k < j ==> results@[k].filename@ != results@[i as int].filename@,
        decreases i - j,
    {
        if same_text(results[j].filename.as_str(), results[i].filename.as_str()) {
            assert(results.deep_view()[j as int].filename == results.deep_view()[i as int].filename);
            return false;
        }
        j += 1;
    }
    assert forall|k: int| 0 <= k < i implies (#[trigger] results.deep_view()[k]).filename
        != results.deep_view()[i as int].filename by {
        assert(results.deep_view()[k] == results@[k]@);
    }
    true
}

/// Copies the results that lie in `filename`.
fn collect_group(results: &Vec<SearchResult>, filename: &str) -> (group: Vec<SearchResult>)
    ensures
        group.deep_view() == group_of(results.deep_view(), filename@),
{
    let mut group: Vec<SearchResult> = Vec::new();
    let mut i: usize = 0;
    assert(results.deep_view().take(0) =~= Seq::<ResultModel>::empty());
    assert(group.deep_view() =~= Seq::<ResultModel>::empty());
    while i < results.len()
        invariant
            i <= results.len(),
            group.deep_view() == group_of(results.deep_view().take(i as int), filename@),
        decreases results.len() - i,
    {
        let ghost part = results.deep_view().take(i + 1);
        assert(part.drop_last() =~= results.deep_view().take(i as int));
        assert(part.last() == results@[i as int]@);
        if same_text(results[i].filename.as_str(), filename) {
            let copy = results[i].duplicate();
            proof {
                lemma_deep_view_push(group@, group@.push(copy), copy);
            }
            group.push(copy);
        }
        i += 1;
    }
    assert(results.deep_view().take(results.len() as int) =~= results.deep_view());
    group
}

impl ContextOptimizer {
    /// An optimizer that packs up to `token_limit` tokens.
    pub fn new(token_limit: usize) -> (optimizer: Self)
        ensures
            optimizer.token_limit == token_limit,
    {
        ContextOptimizer { token_limit }
    }

    /// The merged chunk of a single result.
    pub fn from_single(result: &SearchResult) -> (chunk: MergedChunk)
        ensures
            chunk@ == single(result@),
    {
        let mut scores: Vec<Score> = Vec::new();
        scores.push(result.score);
        assert(scores@ =~= seq![result.score]);
        MergedChunk {
            filename: result.filename.clone(),
            start_line: result.line_start,
            end_line: result.line_end,
            code: result.code.clone(),
            scores,
            max_score: result.score,
        }
    }

    /// Extends `current` by `result`.
    pub fn absorb(current: MergedChunk, result: &SearchResult) -> (chunk: MergedChunk)
        ensures
            chunk@ == absorbed(current@, result@),
    {
        let had_gap = (result.line_start as i64) > (current.end_line as i64) + 1;
        let end_line: i32 = if result.line_end > current.end_line {
            result.line_end
        } else {
            current.end_line
        };
        let max_score = current.max_score.max(result.score);
        let ghost old_code = current.code@;
        let mut code = current.code;
        code.append("\n");
        if had_gap {
            code.append("... (gap) ...\n");
        }
        assert(code@ =~= old_code + joint(current.end_line as int, result.line_start as int));
        code.append(result.code.as_str());
        let mut scores = current.scores;
        scores.push(result.score);
        MergedChunk {
            filename: current.filename,
            start_line: current.start_line,
            end_line,
            code,
            scores,
            max_score,
        }
    }

    /// Merges results of one file that are in order of their first lines.
    pub fn merge_in_order(sorted: &Vec<SearchResult>) -> (merged: Vec<MergedChunk>)
        ensures
            merged.deep_view() == merge_sorted(sorted.deep_view()),
    {
        let mut merged: Vec<MergedChunk> = Vec::new();
        let mut k: usize = 0;
        assert(sorted.deep_view().take(0) =~= Seq::<ResultModel>::empty());
        assert(merged.deep_view() =~= Seq::<MergedModel>::empty());
        while k < sorted.len()
            invariant
                k <= sorted.len(),
                merged.deep_view() == merge_sorted(sorted.deep_view().take(k as int)),
            decreases sorted.len() - k,
        {
            let result = &sorted[k];
            let ghost part = sorted.deep_view().take(k + 1);
            let ghost front = merged.deep_view();
            assert(part.drop_last() =~= sorted.deep_view().take(k as int));
            assert(part.last() == result@);
            let close = merged.len() > 0 && (result.line_start as i64) <= (merged[merged.len()
                - 1].end_line as i64) + MERGE_DISTANCE;
            if close {
                assert(front.last() == merged@[merged.len() - 1]@);
                let current = merged.pop().unwrap();
                let ghost kept = merged@;
                let chunk = Self::absorb(current, result);
                proof {
                    lemma_deep_view_push(kept, kept.push(chunk), chunk);
                    assert(merged.deep_view() =~= front.drop_last());
                }
                merged.push(chunk);
            } else {
                let chunk = Self::from_single(result);
                proof {
                    lemma_deep_view_push(merged@, merged@.push(chunk), chunk);
                }
                merged.push(chunk);
            }
            k += 1;
        }
        assert(sorted.deep_view().take(sorted.len() as int) =~= sorted.deep_view());
        merged
    }

    /// Merges neighbouring results file by file, the files in the order in
    /// which they first occur.
    pub fn merge_adjacent(results: &Vec<SearchResult>) -> (merged: Vec<MergedChunk>)
        ensures
            merged.deep_view() == merged_all(results.deep_view()),
    {
        let mut merged: Vec<MergedChunk> = Vec::new();
        let mut i: usize = 0;
        assert(merged.deep_view() =~= Seq::<MergedModel>::empty());
        while i < results.len()
            invariant
                i <= results.len(),
                merged.deep_view() == merged_upto(results.deep_view(), i as int),
            decreases results.len() - i,
        {
            if is_first_of_file(results, i) {
                let group = collect_group(results, results[i].filename.as_str());
                let by_start = |a: &SearchResult, b: &SearchResult| -> (less: bool)
                    ensures
                        less == (a.line_start < b.line_start),
                    { a.line_start < b.line_start };
                let sorted = sort_stable(group, by_start, Ghost(starts_before()));
                let mut chunks = Self::merge_in_order(&sorted);
                proof {
                    lemma_deep_view_concat(merged@, chunks@);
                    assert(results.deep_view()[i as int] == results@[i as int]@);
                }
                merged.append(&mut chunks);
            }
            i += 1;
        }
        merged
    }

    /// Ranks merged chunks from the highest top score down.
    pub fn rank_by_score(merged: Vec<MergedChunk>) -> (ranked: Vec<MergedChunk>)
        ensures
            ranked.deep_view() == stable_sort(merged.deep_view(), score_higher()),
    {
        let higher = |a: &MergedChunk, b: &MergedChunk| -> (above: bool)
            ensures
                above == (a.max_score.key() > b.max_score.key()),
            { b.max_score.precedes(a.max_score) };
        sort_stable(merged, higher, Ghost(score_higher()))
    }

    /// Takes the chunks that fit `limit` tokens, greedily in the order
    /// given; each chunk comes with the number of its tokens.
    pub fn select_within_budget(costed: Vec<(MergedChunk, usize)>, limit: usize) -> (taken: Vec<
        MergedChunk,
    >)
        ensures
            taken.deep_view() == within_budget(costed.deep_view(), limit as int),
    {
        let ghost all = costed.deep_view();
        let ghost given = costed@;
        let mut rest = costed;
        let mut taken: Vec<MergedChunk> = Vec::new();
        let mut used: usize = 0;
        let ghost mut done: int = 0;
        assert(taken.deep_view() =~= Seq::<MergedModel>::empty());
        while rest.len() > 0
            invariant
                0 <= done <= all.len(),
                all.len() == given.len(),
                rest@ == given.skip(done),
                forall|i: int| 0 <= i < given.len() ==> (#[trigger] given[i]).deep_view() == all[i],
                taken.deep_view() == taken_upto(all, limit as int, done),
                used == used_upto(all, limit as int, done),
                used <= limit,
            decreases rest.len(),
        {
            let (chunk, cost) = rest.remove(0);
            assert((chunk, cost) == given[done]);
            assert(all[done] == (chunk@, cost));
            if cost <= limit - used {
                proof {
                    lemma_deep_view_push(taken@, taken@.push(chunk), chunk);
                }
                taken.push(chunk);
                used = used + cost;
            }
            proof {
                assert(given.skip(done).skip(1) =~= given.skip(done + 1));
                done = done + 1;
            }
        }
        assert(given.skip(done).len() == 0);
        taken
    }

    /// Puts chunks in order of file name and, within a file, first line.
    pub fn order_for_reading(chunks: Vec<MergedChunk>) -> (ordered: Vec<MergedChunk>)
        ensures
            ordered.deep_view() == stable_sort(chunks.deep_view(), reads_before()),
    {
        let earlier = |a: &MergedChunk, b: &MergedChunk| -> (less: bool)
            ensures
                less == reads_before()(a@, b@),
            {
                if same_text(a.filename.as_str(), b.filename.as_str()) {
                    a.start_line < b.start_line
                } else {
                    precedes_text(&chars_of(a.filename.as_str()), &chars_of(b.filename.as_str()))
                }
            };
        sort_stable(chunks, earlier, Ghost(reads_before()))
    }

    /// Merges and selects chunks to fit within the token budget.
    ///
    /// Fails exactly when the tokenizer gives no count for one of the
    /// merged chunks.
    pub fn optimize(&self, results: Vec<SearchResult>) -> (chunks: Result<
        Vec<MergedChunk>,
        ContextError,
    >)
        ensures
            merged_model(chunks) == optimized(results.deep_view(), self.token_limit as int),
    {
        let merged = Self::merge_adjacent(&results);
        let ranked = Self::rank_by_score(merged);
        let ghost all = ranked.deep_view();
        let ghost given = ranked@;
        let mut rest = ranked;
        let mut costed: Vec<(MergedChunk, usize)> = Vec::new();
        let ghost mut done: int = 0;
        assert(costed.deep_view() =~= with_tokens(all).take(0));
        while rest.len() > 0
            invariant
                0 <= done <= all.len(),
                all.len() == given.len(),
                rest@ == given.skip(done),
                forall|i: int| 0 <= i < given.len() ==> (#[trigger] given[i]).deep_view() == all[i],
                costed.deep_view() == with_tokens(all).take(done),
                forall|i: int| 0 <= i < done ==> cl100k_token_count((#[trigger] all[i]).code) is Some,
                all == stable_sort(merged_all(results.deep_view()), score_higher()),
            decreases rest.len(),
        {
            let chunk = rest.remove(0);
            assert(chunk == given[done]);
            assert(all[done] == chunk@);
            match count_tokens(chunk.code.as_str()) {
                Some(count) => {
                    proof {
                        lemma_deep_view_push(costed@, costed@.push((chunk, count)), (chunk, count));
                        assert(with_tokens(all).take(done + 1) =~= with_tokens(all).take(done).push(
                            (chunk@, count),
                        ));
                    }
                    costed.push((chunk, count));
                },
                None => {
                    assert(!all_counted(all));
                    return Err(ContextError::Tokenizer);
                },
            }
            proof {
                assert(given.skip(done).skip(1) =~= given.skip(done + 1));
                done = done + 1;
            }
        }
        assert(given.skip(done).len() == 0);
        assert(with_tokens(all).take(done) =~= with_tokens(all));
        assert(all_counted(all));
        let taken = Self::select_within_budget(costed, self.token_limit);
        Ok(Self::order_for_reading(taken))
    }
}

} // verus!
