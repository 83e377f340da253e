use code_rag::context::{ContextOptimizer, MergedChunk};
use code_rag::score::Score;
use code_rag::search::SearchResult;
use code_rag::tokenizer::token_count;

fn score(value: f32) -> Score {
    Score::from_bits(value.to_bits())
}

fn result(rank: usize, value: f32, filename: &str, code: &str, line_start: i32, line_end: i32) -> SearchResult {
    SearchResult {
        rank,
        score: score(value),
        filename: filename.to_string(),
        code: code.to_string(),
        line_start,
        line_end,
        last_modified: 0,
        calls: vec![],
    }
}

fn spans(chunks: &[MergedChunk]) -> Vec<(String, i32, i32)> {
    chunks.iter().map(|c| (c.filename.clone(), c.start_line, c.end_line)).collect()
}

#[test]
fn test_merge_adjacent() {
    let r1 = result(1, 0.9, "A.rs", "fn a() {}", 10, 12);
    let r2 = result(2, 0.8, "A.rs", "fn b() {}", 14, 16);

    let optimizer = ContextOptimizer::new(1000);
    let merged = optimizer.optimize(vec![r1, r2]).unwrap();

    // Should merge because 14 <= 12 + 5
    assert_eq!(merged.len(), 1);
    assert_eq!(merged[0].start_line, 10);
    assert_eq!(merged[0].end_line, 16);
}

#[test]
fn test_budget_limit() {
    let r1 = result(1, 0.9, "A.rs", &"long code ".repeat(100), 1, 10);

    let optimizer = ContextOptimizer::new(10); // Very small budget
    let merged = optimizer.optimize(vec![r1]).unwrap();

    // Should be rejected
    assert_eq!(merged.len(), 0);
}

#[test]
fn test_context_optimizer_merging() {
    let results = vec![
        result(1, 0.9, "test.rs", "line1\nline2\n", 10, 11),
        result(2, 0.85, "test.rs", "line3\nline4\n", 12, 13),
        result(3, 0.80, "other.rs", "other code\n", 100, 101),
    ];

    let optimizer = ContextOptimizer::new(1000);
    let merged = optimizer.optimize(results).expect("Optimization failed");

    // Expecting 2 chunks: 1 merged for test.rs, 1 for other.rs
    assert_eq!(merged.len(), 2);

    // Check merged chunk
    let merged_chunk = merged.iter().find(|c| c.filename == "test.rs").unwrap();
    assert_eq!(merged_chunk.start_line, 10);
    assert_eq!(merged_chunk.end_line, 13);
    assert!(merged_chunk.code.contains("line1"));
    assert!(merged_chunk.code.contains("line4"));
}

#[test]
fn test_context_optimizer_budgeting() {
    let mut results = vec![];

    // Create many small chunks
    for i in 0..10 {
        results.push(result(i + 1, 1.0 - (i as f32 * 0.01), &format!("file{}.rs", i), "some tokens here", 1, 2));
    }

    let optimizer = ContextOptimizer::new(10);
    let optimized = optimizer.optimize(results).expect("Optimization failed");

    assert!(optimized.len() < 10);
    assert!(!optimized.is_empty());
}

#[test]
fn token_counts_of_known_texts() {
    assert_eq!(token_count(""), Some(0));
    assert_eq!(token_count("hello world"), Some(2));
    assert_eq!(token_count("some tokens here"), Some(3));
    assert_eq!(token_count("<|endoftext|>"), Some(1));
}

#[test]
fn budget_takes_the_best_that_fit() {
    // Three tokens each; a budget of 10 holds the three best.
    let mut results = vec![];
    for i in 0..10 {
        results.push(result(i + 1, 1.0 - (i as f32 * 0.01), &format!("file{}.rs", i), "some tokens here", 1, 2));
    }
    let optimized = ContextOptimizer::new(10).optimize(results).unwrap();
    assert_eq!(spans(&optimized), vec![
        ("file0.rs".to_string(), 1, 2),
        ("file1.rs".to_string(), 1, 2),
        ("file2.rs".to_string(), 1, 2),
    ]);
    let total: usize = optimized.iter().map(|c| token_count(&c.code).unwrap()).sum();
    assert!(total <= 10);
}

#[test]
fn oversized_chunk_is_passed_over_and_later_ones_still_fit() {
    let results = vec![
        result(1, 0.9, "big.rs", &"long code ".repeat(100), 1, 10),
        result(2, 0.5, "small.rs", "hello world", 1, 1),
        result(3, 0.4, "tiny.rs", "hello", 1, 1),
    ];
    let optimized = ContextOptimizer::new(3).optimize(results).unwrap();
    assert_eq!(spans(&optimized), vec![("small.rs".to_string(), 1, 1), ("tiny.rs".to_string(), 1, 1)]);
    let none = ContextOptimizer::new(0).optimize(vec![result(1, 0.9, "a.rs", "hello", 1, 1)]).unwrap();
    assert!(none.is_empty());
    let empty_code = ContextOptimizer::new(0).optimize(vec![result(1, 0.9, "a.rs", "", 1, 1)]).unwrap();
    assert_eq!(empty_code.len(), 1);
}

#[test]
fn no_results_give_no_chunks() {
    assert!(ContextOptimizer::new(100).optimize(vec![]).unwrap().is_empty());
}

#[test]
fn merging_joins_code_and_marks_gaps() {
    let results = vec![
        result(1, 0.2, "a.rs", "third", 20, 22),
        result(2, 0.9, "a.rs", "first", 10, 12),
        result(3, 0.5, "a.rs", "second", 13, 30),
        result(4, 0.1, "a.rs", "fourth", 35, 36),
        result(5, 0.3, "a.rs", "fifth", 42, 43),
    ];
    let merged = ContextOptimizer::merge_adjacent(&results);
    assert_eq!(merged.len(), 2);
    // first (10-12), second (13-30) adjacent, third (20-22) inside, fourth (35) after a gap of four lines.
    assert_eq!(merged[0].code, "first\nsecond\nthird\n... (gap) ...\nfourth");
    assert_eq!((merged[0].start_line, merged[0].end_line), (10, 36));
    assert_eq!(merged[0].scores, vec![score(0.9), score(0.5), score(0.2), score(0.1)]);
    assert_eq!(merged[0].max_score, score(0.9));
    // fifth starts six lines after line 36: a chunk of its own.
    assert_eq!(merged[1].code, "fifth");
    assert_eq!((merged[1].start_line, merged[1].end_line), (42, 43));
    assert_eq!(merged[1].scores, vec![score(0.3)]);
}

#[test]
fn merge_distance_is_five_lines() {
    let near = vec![result(1, 0.5, "a.rs", "x", 1, 10), result(2, 0.5, "a.rs", "y", 15, 16)];
    let merged = ContextOptimizer::merge_adjacent(&near);
    assert_eq!(merged.len(), 1);
    assert_eq!(merged[0].code, "x\n... (gap) ...\ny");
    let far = vec![result(1, 0.5, "a.rs", "x", 1, 10), result(2, 0.5, "a.rs", "y", 16, 17)];
    assert_eq!(ContextOptimizer::merge_adjacent(&far).len(), 2);
    let touching = vec![result(1, 0.5, "a.rs", "x", 1, 10), result(2, 0.5, "a.rs", "y", 11, 12)];
    assert_eq!(ContextOptimizer::merge_adjacent(&touching)[0].code, "x\ny");
    let extreme = vec![
        result(1, 0.5, "a.rs", "x", i32::MIN, i32::MAX),
        result(2, 0.5, "a.rs", "y", i32::MAX, i32::MAX),
    ];
    let merged = ContextOptimizer::merge_adjacent(&extreme);
    assert_eq!(merged.len(), 1);
    assert_eq!((merged[0].start_line, merged[0].end_line), (i32::MIN, i32::MAX));
}

#[test]
fn files_are_kept_apart_and_come_in_order_of_first_occurrence() {
    let results = vec![
        result(1, 0.5, "b.rs", "b1", 1, 2),
        result(2, 0.5, "a.rs", "a1", 1, 2),
        result(3, 0.5, "b.rs", "b2", 3, 4),
    ];
    let merged = ContextOptimizer::merge_adjacent(&results);
    assert_eq!(spans(&merged), vec![("b.rs".to_string(), 1, 4), ("a.rs".to_string(), 1, 2)]);
    assert_eq!(merged[0].code, "b1\nb2");
}

#[test]
fn chunks_are_ranked_by_top_score_and_read_in_file_order() {
    let merged = ContextOptimizer::merge_adjacent(&vec![
        result(1, 0.1, "b.rs", "low", 1, 2),
        result(2, 0.9, "a.rs", "high", 50, 51),
        result(3, 0.5, "a.rs", "mid", 1, 2),
        result(4, -1.0, "c.rs", "negative", 1, 2),
    ]);
    let ranked = ContextOptimizer::rank_by_score(merged);
    assert_eq!(ranked.iter().map(|c| c.code.as_str()).collect::<Vec<_>>(), vec!["high", "mid", "low", "negative"]);
    let ordered = ContextOptimizer::order_for_reading(ranked);
    assert_eq!(spans(&ordered), vec![
        ("a.rs".to_string(), 1, 2),
        ("a.rs".to_string(), 50, 51),
        ("b.rs".to_string(), 1, 2),
        ("c.rs".to_string(), 1, 2),
    ]);
}

#[test]
fn selection_is_greedy_in_the_order_given() {
    let chunk = |name: &str| ContextOptimizer::from_single(&result(1, 0.5, name, "x", 1, 1));
    let costed = vec![(chunk("a"), 6), (chunk("b"), 5), (chunk("c"), 4), (chunk("d"), 1)];
    let taken = ContextOptimizer::select_within_budget(costed, 10);
    assert_eq!(taken.iter().map(|c| c.filename.as_str()).collect::<Vec<_>>(), vec!["a", "c"]);
    let costed = vec![(chunk("a"), usize::MAX), (chunk("b"), usize::MAX), (chunk("c"), 0)];
    let taken = ContextOptimizer::select_within_budget(costed, usize::MAX);
    assert_eq!(taken.iter().map(|c| c.filename.as_str()).collect::<Vec<_>>(), vec!["a", "c"]);
}

#[test]
fn single_and_absorb() {
    let first = result(1, 0.25, "a.rs", "one", 3, 9);
    let chunk = ContextOptimizer::from_single(&first);
    assert_eq!((chunk.filename.as_str(), chunk.start_line, chunk.end_line, chunk.code.as_str()), ("a.rs", 3, 9, "one"));
    assert_eq!(chunk.scores, vec![score(0.25)]);
    assert_eq!(chunk.max_score, score(0.25));
    let second = result(2, 0.75, "ignored.rs", "two", 5, 6);
    let both = ContextOptimizer::absorb(chunk, &second);
    assert_eq!((both.filename.as_str(), both.start_line, both.end_line, both.code.as_str()), ("a.rs", 3, 9, "one\ntwo"));
    assert_eq!(both.scores, vec![score(0.25), score(0.75)]);
    assert_eq!(both.max_score, score(0.75));
}
