//! What holds of every packed context: it stays within the budget, and each
//! merged chunk spans exactly the results that went into it.

use vstd::prelude::*;
use crate::context::{
    absorbed, chunk_tokens, group_of, joins, merge_sorted, merged_all, merged_of_file,
    merged_upto, optimized, opens_file, reads_before, score_higher, single, starts_before,
    taken_upto, used_upto, with_tokens, within_budget, MergedModel,
};
use crate::order::{
    in_order, insert_position, lemma_insert_position, lemma_stable_sort_in_order,
    lemma_stable_sort_permutes, lemma_text_before_asymmetric, lemma_text_before_between,
    lemma_text_before_total, stable_sort, strict_weak_order, text_before,
};
use crate::search::ResultModel;

verus! {

/// The tokens of all `chunks` together.
pub open spec fn tokens_total(chunks: Seq<MergedModel>) -> int
    decreases chunks.len(),
{
    if chunks.len() == 0 {
        0
    } else {
        tokens_total(chunks.drop_last()) + chunk_tokens(chunks.last())
    }
}

/// Inserting a chunk anywhere adds its tokens to the total.
pub proof fn lemma_tokens_total_insert(chunks: Seq<MergedModel>, at: int, chunk: MergedModel)
    requires
        0 <= at <= chunks.len(),
    ensures
        tokens_total(chunks.insert(at, chunk)) == tokens_total(chunks) + chunk_tokens(chunk),
    decreases chunks.len(),
{
    let longer = chunks.insert(at, chunk);
    if at == chunks.len() {
        assert(longer.drop_last() =~= chunks);
    } else {
        assert(longer.drop_last() =~= chunks.drop_last().insert(at, chunk));
        assert(longer.last() == chunks.last());
        lemma_tokens_total_insert(chunks.drop_last(), at, chunk);
    }
}

/// Sorting does not change the total.
pub proof fn lemma_tokens_total_sorted(
    chunks: Seq<MergedModel>,
    before: spec_fn(MergedModel, MergedModel) -> bool,
)
    ensures
        tokens_total(stable_sort(chunks, before)) == tokens_total(chunks),
    decreases chunks.len(),
{
    if chunks.len() > 0 {
        let sorted = stable_sort(chunks.drop_last(), before);
        lemma_tokens_total_sorted(chunks.drop_last(), before);
        lemma_insert_position(sorted, chunks.last(), before);
        lemma_tokens_total_insert(
            sorted,
            insert_position(sorted, chunks.last(), before),
            chunks.last(),
        );
    }
}

/// What a greedy pass takes uses exactly the tokens it counts, and never
/// more than the limit.
pub proof fn lemma_taken_within_limit(ranked: Seq<MergedModel>, limit: int, n: int)
    requires
        0 <= limit,
        0 <= n <= ranked.len(),
    ensures
        tokens_total(taken_upto(with_tokens(ranked), limit, n)) == used_upto(
            with_tokens(ranked),
            limit,
            n,
        ),
        used_upto(with_tokens(ranked), limit, n) <= limit,
    decreases n,
{
    if n > 0 {
        lemma_taken_within_limit(ranked, limit, n - 1);
        let costed = with_tokens(ranked);
        let front = taken_upto(costed, limit, n - 1);
        if used_upto(costed, limit, n - 1) + costed[n - 1].1 <= limit {
            assert(front.push(costed[n - 1].0).drop_last() =~= front);
        }
    }
}

/// The chunks that `optimized` hands back hold at most `limit` tokens
/// together.
pub proof fn lemma_optimized_within_budget(results: Seq<ResultModel>, limit: nat)
    ensures
        optimized(results, limit as int) matches Ok(chunks) ==> tokens_total(chunks) <= limit,
{
    let ranked = stable_sort(merged_all(results), score_higher());
    lemma_taken_within_limit(ranked, limit as int, ranked.len() as int);
    lemma_tokens_total_sorted(within_budget(with_tokens(ranked), limit as int), reads_before());
}

/// The contributors of each merged chunk of `merge_sorted`: the results
/// that went into it, in order.
pub open spec fn runs_of(sorted: Seq<ResultModel>) -> Seq<Seq<ResultModel>>
    decreases sorted.len(),
{
    if sorted.len() == 0 {
        Seq::empty()
    } else {
        let front = runs_of(sorted.drop_last());
        let merged = merge_sorted(sorted.drop_last());
        if merged.len() > 0 && front.len() > 0 && joins(merged.last().end_line, sorted.last()) {
            front.drop_last().push(front.last().push(sorted.last()))
        } else {
            front.push(seq![sorted.last()])
        }
    }
}

/// The chunk that the results of `run` merge into, taken in order.
pub open spec fn merge_run(run: Seq<ResultModel>) -> MergedModel
    decreases run.len(),
{
    if run.len() <= 1 {
        single(run[0])
    } else {
        absorbed(merge_run(run.drop_last()), run.last())
    }
}

/// Whether `chunk` spans exactly `run`: it starts where the first of the
/// run starts, which is the least first line of the run, and it ends at the
/// greatest last line of the run.
pub open spec fn spans_run(chunk: MergedModel, run: Seq<ResultModel>) -> bool {
    &&& run.len() >= 1
    &&& chunk.start_line == run[0].line_start
    &&& forall|i: int| 0 <= i < run.len() ==> chunk.start_line <= (#[trigger] run[i]).line_start
    &&& forall|i: int| 0 <= i < run.len() ==> (#[trigger] run[i]).line_end <= chunk.end_line
    &&& exists|i: int| 0 <= i < run.len() && (#[trigger] run[i]).line_end == chunk.end_line
}

/// A run in order of first lines merges into a chunk that spans it.
pub proof fn lemma_merge_run_spans(run: Seq<ResultModel>)
    requires
        run.len() >= 1,
        in_order(run, starts_before()),
    ensures
        spans_run(merge_run(run), run),
    decreases run.len(),
{
    if run.len() == 1 {
        assert(run[0].line_end == merge_run(run).end_line);
    } else {
        let front = run.drop_last();
        assert(in_order(front, starts_before())) by {
            assert forall|i: int, j: int| 0 <= i < j < front.len() implies !starts_before()(
                #[trigger] front[j],
                #[trigger] front[i],
            ) by {
                assert(front[i] == run[i]);
                assert(front[j] == run[j]);
            }
        }
        lemma_merge_run_spans(front);
        let chunk = merge_run(run);
        let before = merge_run(front);
        assert(front[0] == run[0]);
        assert forall|i: int| 0 <= i < run.len() implies chunk.start_line <= (
        #[trigger] run[i]).line_start by {
            if i > 0 {
                assert(!starts_before()(run[i], run[0]));
            }
        }
        assert forall|i: int| 0 <= i < run.len() implies (#[trigger] run[i]).line_end
            <= chunk.end_line by {
            if i < front.len() {
                assert(front[i] == run[i]);
            }
        }
        let at = choose|i: int| 0 <= i < front.len() && (#[trigger] front[i]).line_end
            == before.end_line;
        assert(front[at] == run[at]);
        if run.last().line_end > before.end_line {
            assert(run[run.len() - 1].line_end == chunk.end_line);
        } else {
            assert(run[at].line_end == chunk.end_line);
        }
    }
}

/// There is one run for each merged chunk, each chunk is what its run
/// merges into, and every result of a run is one of the results given.
pub proof fn lemma_runs_match_chunks(sorted: Seq<ResultModel>)
    ensures
        runs_of(sorted).len() == merge_sorted(sorted).len(),
        forall|k: int|
            0 <= k < runs_of(sorted).len() ==> {
                &&& (#[trigger] runs_of(sorted)[k]).len() >= 1
                &&& merge_sorted(sorted)[k] == merge_run(runs_of(sorted)[k])
            },
        forall|k: int, i: int|
            0 <= k < runs_of(sorted).len() && 0 <= i < runs_of(sorted)[k].len()
                ==> sorted.contains(#[trigger] runs_of(sorted)[k][i]),
    decreases sorted.len(),
{
    if sorted.len() > 0 {
        let rest = sorted.drop_last();
        let last = sorted.last();
        lemma_runs_match_chunks(rest);
        let front = runs_of(rest);
        let merged = merge_sorted(rest);
        let runs = runs_of(sorted);
        assert forall|k: int, i: int| 0 <= k < runs.len() && 0 <= i < runs[k].len() implies
            sorted.contains(#[trigger] runs[k][i]) by {
            let item = runs[k][i];
            if item == last {
                assert(sorted[sorted.len() - 1] == last);
            } else {
                if merged.len() > 0 && front.len() > 0 && joins(merged.last().end_line, last) {
                    if k < front.len() - 1 {
                        assert(runs[k] == front[k]);
                    } else {
                        assert(runs[k] == front.last().push(last));
                        assert(item == front[front.len() - 1][i]);
                    }
                } else {
                    if k < front.len() {
                        assert(runs[k] == front[k]);
                    }
                }
                assert(rest.contains(item));
                let at = choose|at: int| 0 <= at < rest.len() && rest[at] == item;
                assert(sorted[at] == item);
            }
        }
        if merged.len() > 0 && front.len() > 0 && joins(merged.last().end_line, last) {
            let run = front.last().push(last);
            assert(run.drop_last() =~= front.last());
            assert(merge_run(run) == absorbed(merge_run(front.last()), last));
            assert forall|k: int| 0 <= k < runs.len() implies {
                &&& (#[trigger] runs[k]).len() >= 1
                &&& merge_sorted(sorted)[k] == merge_run(runs[k])
            } by {
                if k < front.len() - 1 {
                    assert(runs[k] == front[k]);
                }
            }
        } else {
            assert forall|k: int| 0 <= k < runs.len() implies {
                &&& (#[trigger] runs[k]).len() >= 1
                &&& merge_sorted(sorted)[k] == merge_run(runs[k])
            } by {
                if k < front.len() {
                    assert(runs[k] == front[k]);
                }
            }
        }
    }
}

/// Every run of results that are in order of first lines is in that order
/// too.
pub proof fn lemma_runs_in_order(sorted: Seq<ResultModel>)
    requires
        in_order(sorted, starts_before()),
    ensures
        forall|k: int|
            0 <= k < runs_of(sorted).len() ==> in_order(
                #[trigger] runs_of(sorted)[k],
                starts_before(),
            ),
    decreases sorted.len(),
{
    if sorted.len() > 0 {
        let rest = sorted.drop_last();
        let last = sorted.last();
        assert(in_order(rest, starts_before())) by {
            assert forall|i: int, j: int| 0 <= i < j < rest.len() implies !starts_before()(
                #[trigger] rest[j],
                #[trigger] rest[i],
            ) by {
                assert(rest[i] == sorted[i]);
                assert(rest[j] == sorted[j]);
            }
        }
        lemma_runs_in_order(rest);
        lemma_runs_match_chunks(rest);
        let front = runs_of(rest);
        let merged = merge_sorted(rest);
        let runs = runs_of(sorted);
        assert forall|k: int| 0 <= k < runs.len() implies in_order(
            #[trigger] runs[k],
            starts_before(),
        ) by {
            if merged.len() > 0 && front.len() > 0 && joins(merged.last().end_line, last) {
                if k < front.len() - 1 {
                    assert(runs[k] == front[k]);
                } else {
                    let old_run = front[front.len() - 1];
                    let run = runs[k];
                    assert(run == old_run.push(last));
                    assert forall|i: int, j: int| 0 <= i < j < run.len() implies !starts_before()(
                        #[trigger] run[j],
                        #[trigger] run[i],
                    ) by {
                        if j < old_run.len() {
                            assert(run[i] == old_run[i]);
                            assert(run[j] == old_run[j]);
                        } else {
                            assert(run[i] == front[front.len() - 1][i]);
                            assert(rest.contains(run[i]));
                            let at = choose|at: int| 0 <= at < rest.len() && rest[at] == run[i];
                            assert(sorted[at] == run[i]);
                            assert(sorted[sorted.len() - 1] == last);
                            assert(!starts_before()(sorted[sorted.len() - 1], sorted[at]));
                        }
                    }
                }
            } else {
                if k < front.len() {
                    assert(runs[k] == front[k]);
                }
            }
        }
    }
}

/// Results in order of their first lines merge into chunks each of which
/// spans exactly its contributors: its first line is the least first line
/// among them and its last line the greatest last line.
pub proof fn lemma_merged_spans(sorted: Seq<ResultModel>)
    requires
        in_order(sorted, starts_before()),
    ensures
        runs_of(sorted).len() == merge_sorted(sorted).len(),
        forall|k: int|
            0 <= k < merge_sorted(sorted).len() ==> spans_run(
                #[trigger] merge_sorted(sorted)[k],
                runs_of(sorted)[k],
            ),
{
    lemma_runs_match_chunks(sorted);
    lemma_runs_in_order(sorted);
    assert forall|k: int| 0 <= k < merge_sorted(sorted).len() implies spans_run(
        #[trigger] merge_sorted(sorted)[k],
        runs_of(sorted)[k],
    ) by {
        let run = runs_of(sorted)[k];
        assert(run.len() >= 1);
        lemma_merge_run_spans(run);
    }
}

/// What a sorted sequence holds, the sequence given holds.
pub proof fn lemma_sorted_contains<T>(items: Seq<T>, before: spec_fn(T, T) -> bool, item: T)
    requires
        stable_sort(items, before).contains(item),
    ensures
        items.contains(item),
{
    lemma_stable_sort_permutes(items, before);
    vstd::seq_lib::to_multiset_contains(stable_sort(items, before), item);
    vstd::seq_lib::to_multiset_contains(items, item);
}

/// What a greedy pass takes is among the chunks it was given.
pub proof fn lemma_taken_contains(
    costed: Seq<(MergedModel, usize)>,
    limit: int,
    n: int,
    chunk: MergedModel,
)
    requires
        0 <= n <= costed.len(),
        taken_upto(costed, limit, n).contains(chunk),
    ensures
        exists|j: int| 0 <= j < n && (#[trigger] costed[j]).0 == chunk,
    decreases n,
{
    if n > 0 {
        let front = taken_upto(costed, limit, n - 1);
        let taken = taken_upto(costed, limit, n);
        let at = choose|at: int| 0 <= at < taken.len() && taken[at] == chunk;
        if used_upto(costed, limit, n - 1) + costed[n - 1].1 <= limit && at == front.len() {
            assert(costed[n - 1].0 == chunk);
        } else {
            assert(front[at] == chunk);
            lemma_taken_contains(costed, limit, n - 1, chunk);
        }
    }
}

/// Every merged chunk of the files that the first `n` results open is a
/// merged chunk of the file of one of these results.
pub proof fn lemma_merged_upto_contains(results: Seq<ResultModel>, n: int, chunk: MergedModel)
    requires
        0 <= n <= results.len(),
        merged_upto(results, n).contains(chunk),
    ensures
        exists|i: int|
            0 <= i < n && (#[trigger] merged_of_file(results, results[i].filename)).contains(chunk),
    decreases n,
{
    if n > 0 {
        let front = merged_upto(results, n - 1);
        let all = merged_upto(results, n);
        let at = choose|at: int| 0 <= at < all.len() && all[at] == chunk;
        if opens_file(results, n - 1) && at >= front.len() {
            let own = merged_of_file(results, results[n - 1].filename);
            assert(own[at - front.len()] == chunk);
        } else {
            assert(front[at] == chunk);
            lemma_merged_upto_contains(results, n - 1, chunk);
        }
    }
}

/// Every chunk that `optimized` hands back is what a run of results of one
/// file merges into, the results of that file taken in order of their
/// first lines, and it spans that run: its first line is the least first
/// line of the run and its last line the greatest last line.
pub proof fn lemma_optimized_chunks_span(results: Seq<ResultModel>, limit: int, c: int)
    requires
        optimized(results, limit) is Ok,
        0 <= c < optimized(results, limit)->Ok_0.len(),
    ensures
        exists|i: int, k: int|
            0 <= i < results.len() && 0 <= k < (#[trigger] runs_of(
                stable_sort(group_of(results, results[i].filename), starts_before()),
            )).len() && optimized(results, limit)->Ok_0[c] == merge_run(
                #[trigger] runs_of(
                    stable_sort(group_of(results, results[i].filename), starts_before()),
                )[k],
            ) && spans_run(
                optimized(results, limit)->Ok_0[c],
                runs_of(stable_sort(group_of(results, results[i].filename), starts_before()))[k],
            ),
{
    let chunks = optimized(results, limit)->Ok_0;
    let chunk = chunks[c];
    let merged = merged_all(results);
    let ranked = stable_sort(merged, score_higher());
    let costed = with_tokens(ranked);
    let taken = within_budget(costed, limit);
    assert(chunks.contains(chunk));
    lemma_sorted_contains(taken, reads_before(), chunk);
    lemma_taken_contains(costed, limit, costed.len() as int, chunk);
    let j = choose|j: int| 0 <= j < costed.len() && (#[trigger] costed[j]).0 == chunk;
    assert(ranked[j] == chunk);
    assert(ranked.contains(chunk));
    lemma_sorted_contains(merged, score_higher(), chunk);
    lemma_merged_upto_contains(results, results.len() as int, chunk);
    let i = choose|i: int|
        0 <= i < results.len() && (#[trigger] merged_of_file(results, results[i].filename)).contains(
            chunk,
        );
    let sorted = stable_sort(group_of(results, results[i].filename), starts_before());
    lemma_stable_sort_in_order(group_of(results, results[i].filename), starts_before());
    lemma_merged_spans(sorted);
    lemma_runs_match_chunks(sorted);
    let k = choose|k: int| 0 <= k < merge_sorted(sorted).len() && merge_sorted(sorted)[k] == chunk;
    assert(spans_run(merge_sorted(sorted)[k], runs_of(sorted)[k]));
    assert(runs_of(sorted)[k].len() >= 1);
}

/// The order for reading is a strict weak order.
pub proof fn lemma_reads_before_is_order()
    ensures
        strict_weak_order(reads_before()),
{
    let before = reads_before();
    assert forall|a: MergedModel, b: MergedModel| !(#[trigger] before(a, b) && #[trigger] before(
        b,
        a,
    )) by {
        lemma_text_before_asymmetric(a.filename, b.filename);
    }
    assert forall|a: MergedModel, b: MergedModel, c: MergedModel| #[trigger]
        before(a, c) implies #[trigger] before(a, b) || #[trigger] before(b, c) by {
        if a.filename == c.filename {
            if b.filename != a.filename {
                lemma_text_before_total(a.filename, b.filename);
            }
        } else if b.filename != a.filename && b.filename != c.filename {
            lemma_text_before_between(a.filename, b.filename, c.filename);
        }
    }
}

/// The chunks that `optimized` hands back stand in order of file name and,
/// within a file, of first line.
pub proof fn lemma_optimized_in_reading_order(results: Seq<ResultModel>, limit: int)
    ensures
        optimized(results, limit) matches Ok(chunks) ==> in_order(chunks, reads_before()),
{
    let ranked = stable_sort(merged_all(results), score_higher());
    lemma_reads_before_is_order();
    lemma_stable_sort_in_order(within_budget(with_tokens(ranked), limit), reads_before());
}

} // verus!
