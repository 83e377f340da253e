use code_rag::context::ContextError;
use code_rag::indexer::CodeChunker;
use code_rag::llm::search_queries;
use code_rag::score::Score;
use code_rag::search::{
    apply_rerank, fetch_limit, filename_passes, finish_search, first_seen, gather_candidates,
    lexical_rank, order_by_score, score_candidates, truncate_and_rank, vector_filter, vector_ranks,
    BM25Result, SearchResult, VectorHit,
};

fn score(value: f32) -> Score {
    Score::from_bits(value.to_bits())
}

fn value(score: Score) -> f32 {
    f32::from_bits(score.to_bits())
}

fn hit(filename: &str, line_start: i32, line_end: i32, code: &str) -> VectorHit {
    VectorHit {
        id: format!("{}-{}-{}", filename, line_start, line_end),
        filename: filename.to_string(),
        code: code.to_string(),
        line_start,
        line_end,
        last_modified: 11,
        calls: vec!["call".to_string()],
    }
}

fn lexical(filename: &str, line_start: u64, line_end: u64, code: &str) -> BM25Result {
    BM25Result {
        id: format!("{}-{}-{}", filename, line_start, line_end),
        filename: filename.to_string(),
        code: code.to_string(),
        line_start,
        line_end,
        score: score(1.0),
    }
}

fn plain(filename: &str, value: f32) -> SearchResult {
    SearchResult {
        rank: 0,
        score: score(value),
        filename: filename.to_string(),
        code: String::new(),
        line_start: 0,
        line_end: 0,
        last_modified: 0,
        calls: Vec::new(),
    }
}

fn names(results: &[SearchResult]) -> Vec<&str> {
    results.iter().map(|r| r.filename.as_str()).collect()
}

fn rrf(ranks: &Vec<usize>, bm25: Option<usize>) -> Score {
    let k = 60.0f64;
    let vector: f64 = ranks.iter().map(|r| 1.0 / (k + *r as f64)).sum();
    let lexical = bm25.map(|r| 1.0 / (k + r as f64)).unwrap_or(0.0);
    score(vector as f32 * 1.0 + lexical as f32 * 1.0)
}

#[test]
fn test_sorting_logic() {
    let results = vec![plain("A", 0.1), plain("B", 0.9), plain("C", 0.5)];

    let results = order_by_score(results);

    assert_eq!(results[0].filename, "B"); // 0.9
    assert_eq!(results[1].filename, "C"); // 0.5
    assert_eq!(results[2].filename, "A"); // 0.1
}

#[test]
fn sorting_is_stable_and_total() {
    let results = vec![
        plain("nan", f32::NAN),
        plain("one", 1.0),
        plain("first zero", 0.0),
        plain("minus zero", -0.0),
        plain("second zero", 0.0),
        plain("minus", -3.5),
        plain("infinite", f32::INFINITY),
        plain("other one", 1.0),
    ];
    let ordered = order_by_score(results);
    assert_eq!(names(&ordered), vec!["nan", "infinite", "one", "other one", "first zero", "second zero", "minus zero", "minus"]);
}

#[test]
fn fetch_limits() {
    assert_eq!(fetch_limit(5, true), 5);
    assert_eq!(fetch_limit(0, true), 0);
    assert_eq!(fetch_limit(5, false), 50);
    assert_eq!(fetch_limit(0, false), 50);
    assert_eq!(fetch_limit(10, false), 50);
    assert_eq!(fetch_limit(11, false), 55);
    assert_eq!(fetch_limit(100, false), 500);
    assert_eq!(fetch_limit(usize::MAX, false), usize::MAX);
    assert_eq!(fetch_limit(usize::MAX / 5, false), usize::MAX / 5 * 5);
    assert_eq!(fetch_limit(usize::MAX / 5 + 1, false), usize::MAX);
    assert_eq!(fetch_limit(usize::MAX, true), usize::MAX);
}

#[test]
fn vector_filters() {
    let some = |text: &str| Some(text.to_string());
    assert_eq!(vector_filter(&None, &None), None);
    assert_eq!(vector_filter(&some("rs"), &None), some("filename LIKE '%.rs'"));
    assert_eq!(vector_filter(&some(".rs"), &None), some("filename LIKE '%.rs'"));
    assert_eq!(vector_filter(&some("..rs"), &None), some("filename LIKE '%..rs'"));
    assert_eq!(vector_filter(&some(""), &None), some("filename LIKE '%.'"));
    assert_eq!(vector_filter(&None, &some("src\\core")), some("filename LIKE '%src/core%'"));
    assert_eq!(
        vector_filter(&some(".py"), &some("a/b")),
        some("filename LIKE '%.py' AND filename LIKE '%a/b%'")
    );
}

#[test]
fn client_side_filters() {
    let some = |text: &str| Some(text.to_string());
    assert!(filename_passes("src/a.rs", &None, &None));
    assert!(filename_passes("src/a.rs", &some("rs"), &None));
    assert!(filename_passes("src/a.rs", &some(".rs"), &None));
    assert!(!filename_passes("src/a.rs", &some("s"), &None));
    assert!(!filename_passes("src/a.rsx", &some("rs"), &None));
    assert!(!filename_passes("rs", &some("rs"), &None));
    assert!(filename_passes("src\\core\\a.rs", &None, &some("src/core")));
    assert!(filename_passes("src/core/a.rs", &None, &some("src\\core")));
    assert!(!filename_passes("src/a.rs", &None, &some("core")));
    assert!(filename_passes("src/a.rs", &some("rs"), &some("")));
    assert!(!filename_passes("src/a.py", &some("rs"), &some("src")));
    assert!(!filename_passes("lib/a.rs", &some("rs"), &some("src")));
}

#[test]
fn candidates_carry_their_ranks() {
    let lists = vec![
        vec![hit("a.rs", 1, 5, "first a"), hit("b.rs", 1, 5, "b"), hit("a.rs", 1, 5, "second a")],
        vec![hit("c.rs", 2, 3, "c"), hit("a.rs", 1, 5, "third a")],
    ];
    let hits = vec![
        lexical("b.rs", 1, 5, "b"),
        lexical("d.rs", 9, 9, "d"),
        lexical("d.py", 1, 1, "filtered"),
        lexical("d.rs", 9, 9, "d again"),
        lexical("c.rs", 2, 3, "c"),
    ];
    let seen = first_seen(&lists);
    assert_eq!(seen.iter().map(|h| h.code.as_str()).collect::<Vec<_>>(), vec!["first a", "b", "c"]);
    assert_eq!(vector_ranks(&lists, "a.rs-1-5"), vec![1, 3, 2]);
    assert_eq!(vector_ranks(&lists, "c.rs-2-3"), vec![1]);
    assert!(vector_ranks(&lists, "d.rs-9-9").is_empty());
    assert_eq!(lexical_rank(&hits, "d.rs-9-9"), Some(4));
    assert_eq!(lexical_rank(&hits, "b.rs-1-5"), Some(1));
    assert_eq!(lexical_rank(&hits, "a.rs-1-5"), None);

    let candidates = gather_candidates(&lists, &hits, &Some("rs".to_string()), &None);
    let summary: Vec<(&str, Vec<usize>, Option<usize>)> = candidates
        .iter()
        .map(|c| (c.result.code.as_str(), c.vector_ranks.clone(), c.bm25_rank))
        .collect();
    assert_eq!(summary, vec![
        ("first a", vec![1, 3, 2], None),
        ("b", vec![2], Some(1)),
        ("c", vec![1], Some(5)),
        ("d", vec![], Some(4)),
    ]);
    let a = &candidates[0].result;
    assert_eq!((a.rank, a.score, a.last_modified), (0, Score::from_bits(0), 11));
    assert_eq!(a.calls, vec!["call".to_string()]);
    let d = &candidates[3].result;
    assert_eq!((d.filename.as_str(), d.line_start, d.line_end, d.last_modified), ("d.rs", 9, 9, 0));
    assert!(d.calls.is_empty());
}

#[test]
fn without_lexical_hits_candidates_are_the_vector_hits() {
    let lists = vec![vec![hit("a.rs", 1, 5, "a"), hit("b.rs", 1, 5, "b")]];
    let candidates = gather_candidates(&lists, &vec![], &None, &None);
    assert_eq!(candidates.len(), 2);
    assert!(candidates.iter().all(|c| c.bm25_rank.is_none()));
    assert!(gather_candidates(&vec![], &vec![], &None, &None).is_empty());
    assert!(gather_candidates(&vec![vec![], vec![]], &vec![], &None, &None).is_empty());
}

#[test]
fn stored_id_decides_what_is_new_and_derived_id_what_ranks_it_has() {
    let mut odd = hit("a.rs", 1, 5, "odd");
    odd.id = "something else".to_string();
    let lists = vec![vec![odd, hit("a.rs", 1, 5, "plain")]];
    let candidates = gather_candidates(&lists, &vec![], &None, &None);
    assert_eq!(candidates.len(), 2);
    assert_eq!(candidates[0].vector_ranks, vec![2]);
    assert_eq!(candidates[1].vector_ranks, vec![2]);
}

#[test]
fn lexical_lines_are_cut_to_32_bits() {
    let wide = lexical("a.rs", (1u64 << 32) + 7, u64::MAX, "x");
    let result = wide.to_result();
    assert_eq!((result.line_start, result.line_end), (7, -1));
}

#[test]
fn hybrid_scores_fuse_both_ranks() {
    let lists = vec![vec![hit("auth.rs", 1, 5, "authenticate_user")], vec![hit("login.rs", 1, 5, "user_login")]];
    let hits = vec![lexical("auth.rs", 1, 5, "authenticate_user")];
    let candidates = gather_candidates(&lists, &hits, &None, &None);
    let scored = score_candidates(candidates, rrf);
    assert_eq!(names(&scored), vec!["auth.rs", "login.rs"]);
    assert!((value(scored[0].score) - 2.0 / 61.0).abs() < 1e-6);
    assert!((value(scored[1].score) - 1.0 / 61.0).abs() < 1e-6);
    let ordered = order_by_score(scored);
    assert_eq!(names(&ordered), vec!["auth.rs", "login.rs"]);
    let response = finish_search(ordered, None, 5, None).unwrap();
    assert_eq!(response.iter().map(|r| r.rank).collect::<Vec<_>>(), vec![1, 2]);
}

#[test]
fn expansion_widens_the_query_set() {
    let expanded = search_queries("authentication", Some(vec!["authentication".to_string(), "login".to_string()]));
    assert_eq!(expanded, vec!["authentication", "login"]);
    assert_eq!(search_queries("authentication", None), vec!["authentication"]);
}

#[test]
fn rerank_replaces_scores_and_reorders() {
    let ordered = vec![plain("a", 0.9), plain("b", 0.8), plain("c", 0.7), plain("d", 0.6)];
    let reranked = vec![(2, score(5.0)), (0, score(-1.0)), (9, score(100.0)), (3, score(0.85)), (2, score(0.95))];
    let result = apply_rerank(ordered, &reranked);
    assert_eq!(names(&result), vec!["c", "d", "b", "a"]);
    assert_eq!(result.iter().map(|r| value(r.score)).collect::<Vec<_>>(), vec![0.95, 0.85, 0.8, -1.0]);
    let untouched = apply_rerank(vec![plain("a", 0.1), plain("b", 0.2)], &vec![]);
    assert_eq!(names(&untouched), vec!["b", "a"]);
}

#[test]
fn truncation_ranks_from_one() {
    let results = vec![plain("a", 0.9), plain("b", 0.8), plain("c", 0.7)];
    let top = truncate_and_rank(results, 2);
    assert_eq!(names(&top), vec!["a", "b"]);
    assert_eq!(top.iter().map(|r| r.rank).collect::<Vec<_>>(), vec![1, 2]);
    assert_eq!(truncate_and_rank(vec![plain("a", 0.9)], 5).len(), 1);
    assert!(truncate_and_rank(vec![plain("a", 0.9)], 0).is_empty());
    assert!(truncate_and_rank(vec![], 3).is_empty());
}

#[test]
fn response_without_candidates_is_empty() {
    assert_eq!(finish_search(vec![], None, 5, None).map(|r| r.len()), Ok::<usize, ContextError>(0));
    assert_eq!(finish_search(vec![], Some(vec![(0, score(1.0))]), 5, Some(10)).map(|r| r.len()), Ok(0));
}

#[test]
fn response_with_rerank_and_limit() {
    let ordered = vec![plain("a", 0.9), plain("b", 0.8), plain("c", 0.7)];
    let response = finish_search(ordered, Some(vec![(0, score(0.1)), (1, score(0.2)), (2, score(0.3))]), 2, None).unwrap();
    assert_eq!(names(&response), vec!["c", "b"]);
    assert_eq!(response.iter().map(|r| r.rank).collect::<Vec<_>>(), vec![1, 2]);
}

#[test]
fn context_budget_scenario() {
    // Ten results of identical code, each far more than ten tokens.
    let code = "fn compute(values: &[u32]) -> u32 { values.iter().map(|v| v * 2).sum() }";
    let mut ordered = vec![];
    for i in 0..10 {
        let mut result = plain(&format!("file{}.rs", i), 1.0 - i as f32 * 0.01);
        result.code = code.to_string();
        result.line_start = 1;
        result.line_end = 3;
        ordered.push(result);
    }
    let response = finish_search(ordered, None, 10, Some(10)).unwrap();
    assert!(response.len() <= 1);
    assert_eq!(response.len(), 0);
}

#[test]
fn budgeted_response_stands_for_merged_chunks() {
    let mut first = plain("b.rs", 0.4);
    first.code = "hello".to_string();
    first.line_start = 10;
    first.line_end = 11;
    first.calls = vec!["f".to_string()];
    first.last_modified = 99;
    let mut second = plain("b.rs", 0.9);
    second.code = "world".to_string();
    second.line_start = 12;
    second.line_end = 14;
    let mut third = plain("a.rs", 0.5);
    third.code = "other".to_string();
    third.line_start = 1;
    third.line_end = 1;
    let ordered = order_by_score(vec![first, second, third]);
    let response = finish_search(ordered, None, 3, Some(100)).unwrap();
    assert_eq!(response.len(), 2);
    assert_eq!((response[0].rank, response[0].filename.as_str(), response[0].code.as_str()), (1, "a.rs", "other"));
    assert_eq!((response[1].rank, response[1].filename.as_str(), response[1].code.as_str()), (2, "b.rs", "hello\nworld"));
    assert_eq!((response[1].line_start, response[1].line_end), (10, 14));
    assert_eq!(response[1].score, score(0.9));
    assert!(response[1].calls.is_empty());
    assert_eq!(response[1].last_modified, 0);
}

#[test]
fn result_ids_and_copies() {
    let mut result = plain("dir/a.rs", 0.5);
    result.line_start = -3;
    result.line_end = 12;
    assert_eq!(result.id(), "dir/a.rs--3-12");
    let copy = result.duplicate();
    assert_eq!((copy.filename.as_str(), copy.line_start, copy.line_end, copy.score), ("dir/a.rs", -3, 12, score(0.5)));
    let rescored = copy.scored(score(0.75)).ranked(4);
    assert_eq!((rescored.rank, rescored.score), (4, score(0.75)));
}

#[test]
fn chunk_and_search_roundtrip() {
    let chunker = CodeChunker::default();
    let chunks = chunker.chunk_file("a.rs", b"fn hello_world() { println!(\"hi\"); }", 3).unwrap();
    assert_eq!(chunks.len(), 1);
    // The stores hand back what was indexed: the row of the chunk, under its id.
    let rows: Vec<VectorHit> = chunks
        .iter()
        .map(|c| VectorHit {
            id: c.id(),
            filename: c.filename.clone(),
            code: c.code.clone(),
            line_start: c.line_start as i32,
            line_end: c.line_end as i32,
            last_modified: c.last_modified,
            calls: c.calls.clone(),
        })
        .collect();
    let lexical: Vec<BM25Result> = chunks
        .iter()
        .map(|c| BM25Result {
            id: c.id(),
            filename: c.filename.clone(),
            code: c.code.clone(),
            line_start: c.line_start as u64,
            line_end: c.line_end as u64,
            score: score(0.3),
        })
        .collect();
    let candidates = gather_candidates(&vec![rows], &lexical, &None, &None);
    assert_eq!(candidates.len(), 1);
    assert_eq!((candidates[0].vector_ranks.clone(), candidates[0].bm25_rank), (vec![1], Some(1)));
    let ordered = order_by_score(score_candidates(candidates, rrf));
    let response = finish_search(ordered, None, 1, None).unwrap();
    assert_eq!(response.len(), 1);
    assert_eq!((response[0].rank, response[0].filename.as_str(), response[0].last_modified), (1, "a.rs", 3));
    assert!(response[0].code.contains("hello_world"));
    assert_eq!(response[0].calls, vec!["println".to_string()]);
}
