use xprompt::history::{get_history_candidate, get_history_item, record_line, HistoryStore};

fn sample() -> HistoryStore {
    HistoryStore::from_text("ls -la\ngit status\ngit commit\n")
}

#[test]
fn parses_one_entry_per_line() {
    let h = sample();
    assert_eq!(h.len(), 3);
    assert_eq!(get_history_item(&h, 0), "git commit");
    assert_eq!(get_history_item(&h, 2), "ls -la");
}

#[test]
fn parses_crlf_and_unterminated_last_line() {
    let h = HistoryStore::from_text("a\r\nb\r\nc");
    assert_eq!(h.len(), 3);
    assert_eq!(get_history_item(&h, 0), "c");
    assert_eq!(get_history_item(&h, 1), "b");
    assert_eq!(get_history_item(&h, 2), "a");
}

#[test]
fn keeps_empty_lines_and_lone_carriage_returns() {
    let h = HistoryStore::from_text("x\n\ny\r");
    assert_eq!(h.len(), 3);
    assert_eq!(get_history_item(&h, 0), "y\r");
    assert_eq!(get_history_item(&h, 1), "");
    assert_eq!(get_history_item(&h, 2), "x");
}

#[test]
fn empty_text_is_empty_history() {
    assert_eq!(HistoryStore::from_text("").len(), 0);
    assert_eq!(HistoryStore::new().len(), 0);
}

#[test]
fn suggests_newest_matching_entry() {
    let h = sample();
    assert_eq!(get_history_candidate(&h, "gi"), "git commit");
    assert_eq!(get_history_candidate(&h, "git s"), "git status");
    assert_eq!(get_history_candidate(&h, "l"), "ls -la");
}

#[test]
fn no_match_returns_prefix_itself() {
    let h = sample();
    assert_eq!(get_history_candidate(&h, "cargo"), "cargo");
    assert_eq!(get_history_candidate(&h, "git commit --amend"), "git commit --amend");
}

#[test]
fn empty_prefix_gets_no_suggestion() {
    assert_eq!(get_history_candidate(&sample(), ""), "");
    assert_eq!(get_history_candidate(&HistoryStore::new(), ""), "");
}

#[test]
fn entry_lookup_out_of_range_is_empty() {
    let h = sample();
    assert_eq!(get_history_item(&h, -1), "");
    assert_eq!(get_history_item(&h, 3), "");
    assert_eq!(get_history_item(&h, i32::MAX), "");
    assert_eq!(get_history_item(&h, i32::MIN), "");
    assert_eq!(get_history_item(&h, 1), "git status");
}

#[test]
fn lookups_repeat_identically() {
    let h = sample();
    let a = get_history_candidate(&h, "git");
    let b = get_history_candidate(&h, "git");
    assert_eq!(a, b);
    assert_eq!(get_history_item(&h, 1), get_history_item(&h, 1));
}

#[test]
fn absent_history_suggests_prefix() {
    let h = HistoryStore::from_text("");
    assert_eq!(get_history_candidate(&h, "ls"), "ls");
}

#[test]
fn record_line_is_command_and_newline() {
    assert_eq!(record_line("echo hi"), "echo hi\n");
    assert_eq!(record_line(""), "\n");
}

#[test]
fn non_ascii_prefix_match() {
    let h = HistoryStore::from_text("échec\nécho\n");
    assert_eq!(get_history_candidate(&h, "éch"), "écho");
}
