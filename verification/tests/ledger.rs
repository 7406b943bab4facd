use feed_bridge::ledger::{Ledger, LedgerPhase};

fn lines(ids: &[&str]) -> Vec<String> {
    ids.iter().map(|s| s.to_string()).collect()
}

#[test]
fn new_ledger_has_read_nothing() {
    let ledger = Ledger::new(3);
    assert_eq!(ledger.phase(), LedgerPhase::Uninitialized);
    assert_eq!(ledger.max_retained(), 3);
    assert!(!ledger.contains("https://x/1"));
}

#[test]
fn loaded_lines_count_as_posted() {
    let mut ledger = Ledger::new(10);
    ledger.load(lines(&["https://x/1", "https://x/2", "https://x/1"]));
    assert_eq!(ledger.phase(), LedgerPhase::Loaded);
    assert!(ledger.contains("https://x/1"));
    assert!(ledger.contains("https://x/2"));
    assert!(!ledger.contains("https://x/3"));
    assert!(!ledger.contains("https://x/"));
}

#[test]
fn lines_beyond_the_window_still_count_as_posted() {
    let mut ledger = Ledger::new(1);
    ledger.load(lines(&["a", "b", "c"]));
    assert!(ledger.contains("a"));
    assert_eq!(ledger.rewrite(), lines(&["c"]));
}

#[test]
fn rewrite_keeps_the_most_recent_in_order() {
    let mut ledger = Ledger::new(2);
    ledger.load(lines(&["h1", "h2", "h3", "h4", "h5"]));
    ledger.record("n1".to_string());
    assert_eq!(ledger.phase(), LedgerPhase::Appending);
    let kept = ledger.rewrite();
    assert_eq!(kept, lines(&["h5", "n1"]));
    assert_eq!(ledger.phase(), LedgerPhase::Rewritten);
}

#[test]
fn rewrite_keeps_everything_that_fits() {
    let mut ledger = Ledger::new(5);
    ledger.load(lines(&["a", "b"]));
    ledger.record("c".to_string());
    ledger.record("d".to_string());
    assert_eq!(ledger.rewrite(), lines(&["a", "b", "c", "d"]));
}

#[test]
fn recording_does_not_change_what_counts_as_posted() {
    let mut ledger = Ledger::new(5);
    ledger.load(lines(&["a"]));
    ledger.record("b".to_string());
    assert!(ledger.contains("a"));
    assert!(!ledger.contains("b"));
}

#[test]
fn nothing_is_kept_with_a_window_of_zero() {
    let mut ledger = Ledger::new(0);
    ledger.load(lines(&["a", "b"]));
    ledger.record("c".to_string());
    assert!(ledger.contains("b"));
    assert_eq!(ledger.rewrite(), Vec::<String>::new());
}
