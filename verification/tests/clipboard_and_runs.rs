use semantic_file_finder::clipboard::{
    linux_clipboard_tools, linux_copy_result, linux_tool_copied, windows_copy_result, ClipboardError,
};
use semantic_file_finder::config::default_config;
use semantic_file_finder::indexing::{batch_ranges, FileOutcome, IndexTally, BATCH_SIZE};
use semantic_file_finder::state::AppState;

#[test]
fn linux_tools_in_order() {
    let tools = linux_clipboard_tools();
    assert_eq!(tools.len(), 2);
    assert_eq!(tools[0].program, "wl-copy");
    assert!(tools[0].args.is_empty());
    assert_eq!(tools[1].program, "xclip");
    assert_eq!(tools[1].args, vec!["-selection", "clipboard"]);
}

#[test]
fn clipboard_outcomes() {
    assert!(linux_tool_copied(true, true));
    assert!(!linux_tool_copied(true, false));
    assert!(!linux_tool_copied(false, true));
    assert!(linux_copy_result(true).is_ok());
    assert_eq!(
        linux_copy_result(false).unwrap_err().message(),
        "Failed to copy path: wl-copy/xclip unavailable"
    );
    assert!(windows_copy_result(true).is_ok());
    assert_eq!(windows_copy_result(false).unwrap_err().message(), "Failed to copy path");
    assert_eq!(ClipboardError::NoStdin.message(), "Failed to open clipboard stdin");
    assert_eq!(ClipboardError::Unsupported.message(), "Clipboard copy is not supported on this platform");
}

#[test]
fn stored_counts_of_a_run_rise_within_the_target() {
    let outcomes = [
        FileOutcome::Embedded,
        FileOutcome::ParseFailed,
        FileOutcome::Embedded,
        FileOutcome::EmbedFailed,
        FileOutcome::Embedded,
    ];
    let files = 23usize;
    let mut state = AppState::new(default_config(), Some(100));
    state.start_indexing().unwrap();
    state.set_index_target(files);
    let mut tally = IndexTally::new(files);
    let mut stored = Vec::new();
    let mut k = 0;
    for (start, end) in batch_ranges(files, BATCH_SIZE) {
        tally.begin_batch();
        for _ in start..end {
            tally.record_outcome(&outcomes[k % outcomes.len()]);
            k += 1;
        }
        state.record_progress(&tally);
        assert_eq!(state.get_index_target(), files);
        stored.push(state.get_indexed_count());
    }
    state.finish_indexing(&tally, "2026-01-01T00:00:00+00:00".to_string());
    stored.push(state.get_indexed_count());
    assert_eq!(stored, vec![6, 12, 14, 14]);
    assert!(stored.windows(2).all(|w| w[0] <= w[1]));
    assert!(stored.iter().all(|&n| n <= files));
    assert_eq!(tally.processed(), files);
}
