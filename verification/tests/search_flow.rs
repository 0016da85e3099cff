use semantic_file_finder::search::{
    build_result, collect_hits, file_type_accepted, file_type_label, label_or_unknown, modified_label,
    select_hits, sort_by_score, IndexHit, SearchParams, SearchResponse, SearchResult,
};

fn key(f: f32) -> i32 {
    let b = f.to_bits() as i32;
    if b < 0 {
        b ^ 0x7fff_ffff
    } else {
        b
    }
}

fn hit(path: &str, score: f32) -> IndexHit {
    IndexHit { path: path.to_string(), score: key(score) }
}

fn result(path: &str, score: f32) -> SearchResult {
    SearchResult {
        path: path.to_string(),
        score: key(score),
        summary: String::new(),
        file_type: "txt".to_string(),
        size: 0,
        modified: String::new(),
    }
}

fn params(directory: Option<&str>, threshold: f32) -> SearchParams {
    SearchParams {
        top_k: 10,
        threshold: key(threshold),
        file_types: Vec::new(),
        directory: directory.map(|d| d.to_string()),
    }
}

#[test]
fn incomplete_index_entries_are_dropped() {
    let entries = vec![
        (Some("/a".to_string()), Some(key(0.9))),
        (None, Some(key(0.8))),
        (Some("/c".to_string()), None),
        (Some("/d".to_string()), Some(key(0.1))),
    ];
    let hits = collect_hits(entries);
    let paths: Vec<&str> = hits.iter().map(|h| h.path.as_str()).collect();
    assert_eq!(paths, vec!["/a", "/d"]);
    assert_eq!(hits[1].score, key(0.1));
}

#[test]
fn hits_below_threshold_or_outside_directory_are_dropped() {
    let hits = vec![
        hit("/home/u/docs/a.txt", 0.9),
        hit("/home/u/docs/b.txt", 0.4),
        hit("/tmp/c.txt", 0.95),
        hit("/home/u/docs/d.txt", 0.5),
    ];
    let kept = select_hits(hits, &params(Some("/home/u"), 0.5));
    let paths: Vec<&str> = kept.iter().map(|h| h.path.as_str()).collect();
    assert_eq!(paths, vec!["/home/u/docs/a.txt", "/home/u/docs/d.txt"]);
}

#[test]
fn without_directory_only_threshold_applies() {
    let hits = vec![hit("/x", 0.2), hit("/y", 0.7), hit("/z", f32::NAN)];
    let kept = select_hits(hits, &params(None, 0.5));
    let paths: Vec<&str> = kept.iter().map(|h| h.path.as_str()).collect();
    // A NaN score is not below the threshold, so it stays.
    assert_eq!(paths, vec!["/y", "/z"]);
}

#[test]
fn file_type_label_defaults_to_unknown() {
    assert_eq!(file_type_label(Some("pdf".to_string())), "pdf");
    assert_eq!(file_type_label(None), "unknown");
}

#[test]
fn file_type_filter() {
    let none: Vec<String> = Vec::new();
    assert!(file_type_accepted("anything", &none));
    let types = vec![".PDF".to_string(), "txt".to_string()];
    assert!(file_type_accepted("pdf", &types));
    assert!(file_type_accepted("TXT", &types));
    assert!(!file_type_accepted("unknown", &types));
}

#[test]
fn modification_time_text() {
    assert_eq!(modified_label(0), "1970-01-01 00:00:00");
    assert_eq!(modified_label(1431648000), "2015-05-15 00:00:00");
    // u64::MAX wraps to -1 as an i64.
    assert_eq!(modified_label(u64::MAX), "1969-12-31 23:59:59");
    assert_eq!(modified_label(i64::MAX as u64), "Unknown");
    assert_eq!(label_or_unknown(None), "Unknown");
    assert_eq!(label_or_unknown(Some("x".to_string())), "x");
}

#[test]
fn result_summary_is_the_first_200_characters() {
    let content: String = std::iter::repeat('文').take(300).collect();
    let r = build_result(hit("/a.txt", 0.8), "txt".to_string(), 1234, 0, Some(content));
    assert_eq!(r.summary.chars().count(), 200);
    assert!(r.summary.chars().all(|c| c == '文'));
    assert_eq!(r.path, "/a.txt");
    assert_eq!(r.score, key(0.8));
    assert_eq!(r.size, 1234);
    assert_eq!(r.file_type, "txt");
    assert_eq!(r.modified, "1970-01-01 00:00:00");
    let unread = build_result(hit("/b", 0.1), "unknown".to_string(), 0, 0, None);
    assert_eq!(unread.summary, "");
}

#[test]
fn results_come_by_descending_score_and_ties_keep_their_order() {
    let input = vec![
        result("a", 0.3),
        result("b", 0.9),
        result("c", 0.5),
        result("d", 0.9),
        result("e", 0.0),
        result("f", -0.0),
        result("g", 0.5),
    ];
    let sorted = sort_by_score(input);
    let paths: Vec<&str> = sorted.iter().map(|r| r.path.as_str()).collect();
    assert_eq!(paths, vec!["b", "d", "c", "g", "a", "e", "f"]);
}

#[test]
fn sorting_with_nan_keeps_every_result() {
    let input = vec![result("a", 0.3), result("n", f32::NAN), result("b", 0.9)];
    let sorted = sort_by_score(input);
    let mut paths: Vec<&str> = sorted.iter().map(|r| r.path.as_str()).collect();
    paths.sort();
    assert_eq!(paths, vec!["a", "b", "n"]);
}

#[test]
fn sorting_nothing_gives_nothing() {
    assert!(sort_by_score(Vec::new()).is_empty());
}

#[test]
fn response_counts_its_results() {
    let r = SearchResponse::from_results(vec![result("a", 0.5), result("b", 0.6)]);
    assert_eq!(r.total, 2);
    assert_eq!(r.results.len(), 2);
    assert_eq!(r.query_time_ms, 0);
    let empty = SearchResponse::from_results(Vec::new());
    assert_eq!(empty.total, 0);
}

fn facts(ext: Option<&str>, content: Option<&str>, size: u64) -> semantic_file_finder::search::FileFacts {
    semantic_file_finder::search::FileFacts {
        size,
        modified_secs: 86_400,
        extension: ext.map(|e| e.to_string()),
        content: content.map(|c| c.to_string()),
    }
}

#[test]
fn finished_search_drops_unexamined_and_rejected_files_and_sorts() {
    let found = vec![
        (hit("/d/a.txt", 0.6), Some(facts(Some("txt"), Some("alpha"), 5))),
        (hit("/d/b.pdf", 0.9), Some(facts(Some("pdf"), None, 7))),
        (hit("/d/gone.txt", 0.99), None),
        (hit("/d/c.TXT", 0.8), Some(facts(Some("TXT"), Some("gamma"), 9))),
        (hit("/d/noext", 0.7), Some(facts(None, Some("x"), 1))),
    ];
    let types = vec![".txt".to_string()];
    let results = semantic_file_finder::search::finish_search(found, &types);
    let paths: Vec<&str> = results.iter().map(|r| r.path.as_str()).collect();
    assert_eq!(paths, vec!["/d/c.TXT", "/d/a.txt"]);
    assert_eq!(results[0].file_type, "TXT");
    assert_eq!(results[0].summary, "gamma");
    assert_eq!(results[0].size, 9);
    assert_eq!(results[0].modified, "1970-01-02 00:00:00");
    assert_eq!(results[1].summary, "alpha");
}

#[test]
fn finished_search_without_types_keeps_every_examined_file() {
    let found = vec![
        (hit("/x", 0.1), Some(facts(None, None, 0))),
        (hit("/y", 0.2), Some(facts(Some("md"), Some("# t"), 3))),
        (hit("/z", 0.3), None),
    ];
    let results = semantic_file_finder::search::finish_search(found, &Vec::new());
    let paths: Vec<&str> = results.iter().map(|r| r.path.as_str()).collect();
    assert_eq!(paths, vec!["/y", "/x"]);
    assert_eq!(results[1].file_type, "unknown");
    assert_eq!(results[1].summary, "");
}

#[test]
fn sorting_sorted_results_changes_nothing() {
    let input = vec![result("p", 0.2), result("q", 0.7), result("r", 0.2), result("s", 0.9)];
    let once = sort_by_score(input);
    let once_paths: Vec<String> = once.iter().map(|r| r.path.clone()).collect();
    let twice = sort_by_score(once);
    let twice_paths: Vec<String> = twice.iter().map(|r| r.path.clone()).collect();
    assert_eq!(once_paths, vec!["s", "q", "p", "r"]);
    assert_eq!(twice_paths, once_paths);
}

#[test]
fn every_result_passes_the_search_filters() {
    let hits = vec![
        hit("/docs/a.txt", 0.7),
        hit("/docs/b.md", 0.9),
        hit("/other/c.txt", 0.95),
        hit("/docs/d.txt", 0.3),
        hit("/docs/e.txt", 0.55),
    ];
    let mut p = params(Some("/docs"), 0.5);
    p.file_types = vec!["txt".to_string()];
    let selected = select_hits(hits, &p);
    let found: Vec<_> = selected
        .into_iter()
        .map(|h| {
            let ext = h.path.rsplit('.').next().map(|e| e.to_string());
            (h, Some(facts_for(ext)))
        })
        .collect();
    let results = semantic_file_finder::search::finish_search(found, &p.file_types);
    let paths: Vec<&str> = results.iter().map(|r| r.path.as_str()).collect();
    assert_eq!(paths, vec!["/docs/a.txt", "/docs/e.txt"]);
    for r in &results {
        assert!(r.path.starts_with("/docs"));
        assert!(!semantic_file_finder::score::score_less_than(r.score, key(0.5)));
        assert_eq!(r.file_type, "txt");
    }
}

fn facts_for(ext: Option<String>) -> semantic_file_finder::search::FileFacts {
    semantic_file_finder::search::FileFacts { size: 1, modified_secs: 0, extension: ext, content: None }
}
