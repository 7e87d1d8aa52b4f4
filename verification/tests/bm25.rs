use kondi::bm25::{rank, BM25Index, SearchPlan};
use kondi::catalog::CatalogEntry;
use kondi::json::Json;

fn entry(server: &str, name: &str, description: &str) -> CatalogEntry {
    CatalogEntry {
        server: server.to_string(),
        name: name.to_string(),
        description: description.to_string(),
        input_schema: Json::Object(vec![]),
    }
}

/// The BM25 scores of the documents, computed from the plan as the daemon
/// computes them (k1 = 1.2, b = 0.75), as the bits of the `f32` values.
fn score_keys(index: &BM25Index, terms: &[Vec<(usize, usize)>]) -> Vec<u32> {
    let k1 = 1.2_f32;
    let b = 0.75_f32;
    let count = index.num_docs();
    let n = count as f32;
    let total: usize = (0..count).map(|d| index.doc_length(d)).sum();
    let avg = total as f32 / n;
    let mut scores = vec![0.0_f32; count];
    for postings in terms {
        let df = postings.len() as f32;
        let idf = ((n - df + 0.5) / (df + 0.5) + 1.0).ln();
        for &(doc, tf) in postings {
            let tf = tf as f32;
            let dl = index.doc_length(doc) as f32;
            let tf_norm = tf * (k1 + 1.0) / (tf + k1 * (1.0 - b + b * dl / avg));
            scores[doc] += idf * tf_norm;
        }
    }
    scores.iter().map(|s| s.to_bits()).collect()
}

/// Searches and returns the positions of the results.
fn search(entries: &[CatalogEntry], query: &str, top_k: usize) -> Vec<usize> {
    let index = BM25Index::build(entries);
    match index.plan(query, top_k) {
        SearchPlan::NoEntries => Vec::new(),
        SearchPlan::AllEntries(v) => v,
        SearchPlan::Terms(ts) => rank(&score_keys(&index, &ts), top_k),
    }
}

#[test]
fn test_bm25_search_finds_matching_tool() {
    let entries = vec![
        entry("github", "create_issue", "Create a new issue in a repository"),
        entry("slack", "send_message", "Send a message to a Slack channel"),
    ];
    let results = search(&entries, "github issue", 5);
    assert!(!results.is_empty(), "expected results");
    assert_eq!(entries[results[0]].name, "create_issue");
}

#[test]
fn test_bm25_search_empty_query_returns_entries() {
    let entries = vec![
        entry("github", "create_issue", "Create a new issue"),
        entry("slack", "send_message", "Send a message"),
    ];
    let results = search(&entries, "", 10);
    assert_eq!(results.len(), 2);
}

#[test]
fn test_bm25_search_no_match_returns_empty() {
    let entries = vec![entry("github", "create_issue", "Create a new issue")];
    let results = search(&entries, "xyzzy_nonexistent_term", 5);
    assert!(results.is_empty());
}

#[test]
fn test_bm25_search_top_k_limit() {
    let entries: Vec<_> = (0..10)
        .map(|i| entry("server", &format!("tool_{i}"), "generic tool description"))
        .collect();
    let results = search(&entries, "generic tool", 3);
    assert!(results.len() <= 3);
}

#[test]
fn test_bm25_empty_index() {
    let results = search(&[], "anything", 5);
    assert!(results.is_empty());
}

#[test]
fn test_bm25_scores_by_relevance() {
    let entries = vec![
        entry("github", "create_issue", "Create a new issue in a GitHub repository"),
        entry("github", "list_issues", "List all issues in a GitHub repository"),
        entry("slack", "send_message", "Send a message to a Slack channel"),
    ];
    let results = search(&entries, "create issue", 5);
    assert!(!results.is_empty());
    let top_name = entries[results[0]].name.as_str();
    assert!(
        top_name == "create_issue" || top_name == "list_issues",
        "expected a github tool, got: {top_name}"
    );
}

#[test]
fn bm25_postings_count_occurrences() {
    let entries = vec![
        entry("github", "create_issue", "Create a new issue in a repository"),
        entry("slack", "send_message", "Send a message to a Slack channel"),
    ];
    let index = BM25Index::build(&entries);
    assert_eq!(index.num_docs(), 2);
    // "github create_issue Create a new issue in a repository"
    assert_eq!(index.doc_length(0), 10);
    assert_eq!(index.postings(&"issue".to_string()), vec![(0, 2)]);
    assert_eq!(index.postings(&"create".to_string()), vec![(0, 2)]);
    assert_eq!(index.postings(&"a".to_string()), vec![(0, 2), (1, 2)]);
    assert_eq!(index.postings(&"slack".to_string()), vec![(1, 2)]);
    assert!(index.postings(&"nothing".to_string()).is_empty());
}

#[test]
fn bm25_plan_keeps_repeated_query_tokens() {
    let entries = vec![entry("github", "create_issue", "Create a new issue")];
    let index = BM25Index::build(&entries);
    match index.plan("issue ISSUE missing", 5) {
        SearchPlan::Terms(ts) => assert_eq!(ts, vec![vec![(0, 2)], vec![(0, 2)]]),
        _ => panic!("expected terms"),
    }
}

#[test]
fn bm25_plan_empty_query_takes_first_entries() {
    let entries = vec![
        entry("a", "one", ""),
        entry("b", "two", ""),
        entry("c", "three", ""),
    ];
    let index = BM25Index::build(&entries);
    match index.plan("  --  ", 2) {
        SearchPlan::AllEntries(v) => assert_eq!(v, vec![0, 1]),
        _ => panic!("expected all entries"),
    }
}

#[test]
fn rank_orders_by_key_then_position() {
    assert_eq!(rank(&vec![5, 0, 7, 5, 1], 10), vec![2, 0, 3, 4]);
    assert_eq!(rank(&vec![5, 0, 7, 5, 1], 2), vec![2, 0]);
    assert_eq!(rank(&vec![0, 0], 3), Vec::<usize>::new());
    assert_eq!(rank(&vec![3, 3, 3], 0), Vec::<usize>::new());
}

#[test]
fn larger_top_k_only_appends() {
    let keys: Vec<u32> = vec![3, 0, 7, 3, 1, 7];
    let small = rank(&keys, 2);
    let large = rank(&keys, 10);
    assert_eq!(large, vec![2, 5, 0, 3, 4]);
    assert_eq!(small, large[..2].to_vec());
}
