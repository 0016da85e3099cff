use semantic_file_finder::config::{config_or_default, default_config, AppConfig, DEFAULT_THRESHOLD_KEY};
use semantic_file_finder::indexing::{batch_ranges, is_excluded, selected_for_index, FileOutcome, IndexTally, BATCH_SIZE};
use semantic_file_finder::protocol::{check_response_line, parsed_content, require_started, WorkerError, WorkerKind};
use semantic_file_finder::state::AppState;

fn config_with_types(types: &[&str]) -> AppConfig {
    let mut c = default_config();
    c.file_types = types.iter().map(|t| t.to_string()).collect();
    c
}

#[test]
fn default_configuration() {
    let c = default_config();
    assert_eq!(c.default_directory, None);
    assert_eq!(c.excluded_dirs, vec![".git", "node_modules", ".DS_Store", "__pycache__", "target"]);
    assert_eq!(c.top_k, 10);
    assert_eq!(f32::from_bits(c.threshold as u32), 0.5);
    assert_eq!(c.threshold, DEFAULT_THRESHOLD_KEY);
    assert!(c.file_types.is_empty());
}

#[test]
fn stored_configuration_wins_over_default() {
    let mut stored = default_config();
    stored.top_k = 3;
    stored.default_directory = Some("/data".to_string());
    let c = config_or_default(Some(stored));
    assert_eq!(c.top_k, 3);
    assert_eq!(c.default_directory.as_deref(), Some("/data"));
    assert_eq!(config_or_default(None).top_k, 10);
}

#[test]
fn new_state_takes_the_reported_count() {
    let s = AppState::new(default_config(), Some(42));
    assert!(!s.is_indexing());
    assert_eq!(s.get_indexed_count(), 42);
    assert_eq!(s.get_index_target(), 0);
    assert_eq!(s.get_last_update(), None);
    assert_eq!(AppState::new(default_config(), None).get_indexed_count(), 0);
}

#[test]
fn indexing_cannot_start_twice() {
    let mut s = AppState::new(default_config(), Some(7));
    assert!(s.start_indexing().is_ok());
    assert!(s.is_indexing());
    assert_eq!(s.get_indexed_count(), 0);
    assert_eq!(s.get_index_target(), 0);
    s.set_index_target(5);
    let mut t = IndexTally::new(5);
    t.record_outcome(&FileOutcome::Embedded);
    t.record_outcome(&FileOutcome::ParseFailed);
    t.record_outcome(&FileOutcome::Embedded);
    s.record_progress(&t);
    let err = s.start_indexing().unwrap_err();
    assert_eq!(err.message(), "Indexing is already in progress");
    // The refused request changed nothing.
    assert!(s.is_indexing());
    assert_eq!(s.get_indexed_count(), 2);
    assert_eq!(s.get_index_target(), 5);
}

fn is_rfc3339_utc(t: &str) -> bool {
    let b = t.as_bytes();
    let digit = |i: usize| b[i].is_ascii_digit();
    b.len() >= 25
        && (0..4).all(digit)
        && b[4] == b'-'
        && digit(5) && digit(6)
        && b[7] == b'-'
        && digit(8) && digit(9)
        && b[10] == b'T'
        && digit(11) && digit(12)
        && b[13] == b':'
        && digit(14) && digit(15)
        && b[16] == b':'
        && digit(17) && digit(18)
        && t.ends_with("+00:00")
}

#[test]
fn finishing_records_the_time() {
    let mut s = AppState::new(default_config(), None);
    s.start_indexing().unwrap();
    s.set_index_target(3);
    let mut t = IndexTally::new(3);
    for _ in 0..3 {
        t.record_outcome(&FileOutcome::Embedded);
    }
    s.record_progress(&t);
    s.finish_indexing(&t, "2026-03-16T10:00:00+00:00".to_string());
    assert!(!s.is_indexing());
    assert_eq!(s.get_indexed_count(), 3);
    assert_eq!(s.get_index_target(), 3);
    assert_eq!(s.get_last_update().as_deref(), Some("2026-03-16T10:00:00+00:00"));
    assert!(s.start_indexing().is_ok());
    let mut u = IndexTally::new(4);
    u.record_outcome(&FileOutcome::EmbedFailed);
    u.record_outcome(&FileOutcome::Embedded);
    s.finish_indexing_now(&u);
    let stamp = s.get_last_update().unwrap();
    assert!(is_rfc3339_utc(&stamp), "{}", stamp);
    assert!(!s.is_indexing());
    // A finished run is settled: no more indexed than found.
    assert_eq!(s.get_indexed_count(), 1);
    assert_eq!(s.get_index_target(), 4);
    assert!(s.get_indexed_count() <= s.get_index_target());
    // Changing the configuration keeps it so.
    s.update_config(default_config());
    assert!(!s.is_indexing());
    assert!(s.get_last_update().is_some());
}

#[test]
fn status_reflects_the_state() {
    let mut c = default_config();
    c.default_directory = Some("/docs".to_string());
    let mut s = AppState::new(c, Some(9));
    s.set_index_target(12);
    let st = s.index_status(2048);
    assert!(!st.is_indexing);
    assert_eq!(st.indexed_files, 9);
    assert_eq!(st.indexed_target, 12);
    assert_eq!(st.last_update, None);
    assert_eq!(st.index_size_bytes, 2048);
    assert_eq!(st.default_directory.as_deref(), Some("/docs"));
}

#[test]
fn search_needs_an_index() {
    let s = AppState::new(default_config(), Some(0));
    assert!(s.search_params(None, None, None, None).is_none());
}

#[test]
fn search_settings_fall_back_to_configuration() {
    let s = AppState::new(config_with_types(&[".md"]), Some(4));
    let p = s.search_params(None, None, None, None).unwrap();
    assert_eq!(p.top_k, 10);
    assert_eq!(p.threshold, DEFAULT_THRESHOLD_KEY);
    assert_eq!(p.file_types, vec![".md"]);
    assert_eq!(p.directory, None);
    let own = vec!["pdf".to_string()];
    let q = s.search_params(Some(3), Some(0), Some(&own), Some("/x")).unwrap();
    assert_eq!(q.top_k, 3);
    assert_eq!(q.threshold, 0);
    assert_eq!(q.file_types, vec!["pdf"]);
    assert_eq!(q.directory.as_deref(), Some("/x"));
}

#[test]
fn updating_configuration_keeps_the_status() {
    let mut s = AppState::new(default_config(), Some(5));
    s.update_config(config_with_types(&["txt"]));
    assert_eq!(s.get_config().file_types, vec!["txt"]);
    assert_eq!(s.get_indexed_count(), 5);
}

#[test]
fn excluded_names() {
    let excluded = default_config().excluded_dirs;
    assert!(is_excluded(Some("node_modules"), &excluded));
    assert!(is_excluded(Some(".git"), &excluded));
    assert!(!is_excluded(Some("src"), &excluded));
    assert!(!is_excluded(None, &excluded));
    assert!(is_excluded(None, &vec![String::new()]));
}

#[test]
fn files_selected_for_indexing() {
    let none: Vec<String> = Vec::new();
    assert!(selected_for_index(None, &none));
    let types = vec![".txt".to_string(), "PDF".to_string()];
    assert!(selected_for_index(Some("TXT"), &types));
    assert!(selected_for_index(Some("pdf"), &types));
    assert!(!selected_for_index(Some("md"), &types));
    assert!(!selected_for_index(None, &types));
}

#[test]
fn batches_of_ten() {
    assert_eq!(BATCH_SIZE, 10);
    assert_eq!(batch_ranges(25, BATCH_SIZE), vec![(0, 10), (10, 20), (20, 25)]);
    assert_eq!(batch_ranges(20, BATCH_SIZE), vec![(0, 10), (10, 20)]);
    assert_eq!(batch_ranges(3, BATCH_SIZE), vec![(0, 3)]);
    assert!(batch_ranges(0, BATCH_SIZE).is_empty());
}

#[test]
fn tally_counts_indexed_files() {
    let mut t = IndexTally::new(4);
    t.begin_batch();
    t.record_outcome(&FileOutcome::ParseFailed);
    assert!(!t.batch_ready());
    t.record_outcome(&FileOutcome::Embedded);
    assert!(t.batch_ready());
    t.begin_batch();
    assert!(!t.batch_ready());
    t.record_outcome(&FileOutcome::EmbedFailed);
    t.record_outcome(&FileOutcome::Embedded);
    assert!(t.batch_ready());
    assert_eq!(t.target(), 4);
    assert_eq!(t.processed(), 4);
    assert_eq!(t.indexed(), 2);
}

#[test]
fn worker_scripts_and_handshakes() {
    assert_eq!(WorkerKind::Embedding.script_name(), "embedding_worker.py");
    assert_eq!(WorkerKind::Parser.script_name(), "parser_worker.py");
    assert_eq!(WorkerKind::Indexer.script_name(), "indexer_worker.py");
    assert!(WorkerKind::Embedding.handshake_accepts(Some("loaded")));
    assert!(WorkerKind::Embedding.handshake_accepts(Some("initialized")));
    assert!(!WorkerKind::Embedding.handshake_accepts(Some("error")));
    assert!(!WorkerKind::Embedding.handshake_accepts(None));
    assert!(WorkerKind::Indexer.handshake_accepts(Some("initialized")));
    assert!(!WorkerKind::Indexer.handshake_accepts(Some("loaded")));
    assert!(WorkerKind::Parser.handshake_accepts(None));
    assert!(!WorkerKind::Parser.sends_init());
    assert!(WorkerKind::Indexer.sends_init());
}

#[test]
fn blank_replies_are_errors() {
    assert!(matches!(check_response_line(""), Err(WorkerError::EmptyResponse)));
    assert!(matches!(check_response_line("  \t\n"), Err(WorkerError::EmptyResponse)));
    assert!(matches!(check_response_line("\u{3000}\n"), Err(WorkerError::EmptyResponse)));
    assert!(check_response_line("{\"status\": \"ok\"}\n").is_ok());
    assert_eq!(WorkerError::EmptyResponse.message(), "Empty response from worker");
}

#[test]
fn parse_replies_need_content() {
    assert_eq!(parsed_content(Some("text".to_string())).ok(), Some("text".to_string()));
    let e = parsed_content(None).unwrap_err();
    assert_eq!(e.message(), "Invalid parse response");
    let w = require_started::<u8>(None, WorkerKind::Indexer).unwrap_err();
    assert_eq!(w.message(), "Indexer worker not initialized");
    assert_eq!(require_started(Some(5u8), WorkerKind::Parser).ok(), Some(5));
    assert_eq!(WorkerError::NotInitialized(WorkerKind::Embedding).message(), "Embedding worker not initialized");
    assert_eq!(WorkerError::InvalidEmbeddingResponse.message(), "Invalid embedding response");
}
