use bnetchat::history::MessageLog;
use bnetchat::session::{Category, Notification};

fn note(text: &str, timestamp: u64) -> Notification {
    Notification { category: Category::Chat, text: text.to_string(), timestamp }
}

#[test]
fn log_keeps_messages_in_order() {
    let mut log = MessageLog::new();
    assert_eq!(log.len(), 0);
    log.add_message(note("a", 1));
    log.add_message(note("b", 2));
    assert_eq!(log.len(), 2);
    assert_eq!(log.get(0), Some(&note("a", 1)));
    assert_eq!(log.get(1), Some(&note("b", 2)));
    assert_eq!(log.get(2), None);
}

#[test]
fn oldest_messages_go_when_the_limit_is_passed() {
    let mut log = MessageLog::with_limit(3);
    for i in 0..5u64 {
        log.add_message(note("m", i));
    }
    assert_eq!(log.len(), 3);
    assert_eq!(log.get(0), Some(&note("m", 2)));
    assert_eq!(log.get(1), Some(&note("m", 3)));
    assert_eq!(log.get(2), Some(&note("m", 4)));
}

#[test]
fn default_limit_is_a_thousand() {
    let mut log = MessageLog::new();
    for i in 0..1_001u64 {
        log.add_message(note("m", i));
    }
    assert_eq!(log.len(), 1_000);
    assert_eq!(log.get(0), Some(&note("m", 1)));
    assert_eq!(log.get(999), Some(&note("m", 1_000)));
}

#[test]
fn log_with_limit_zero_keeps_nothing() {
    let mut log = MessageLog::with_limit(0);
    log.add_message(note("a", 1));
    assert_eq!(log.len(), 0);
    assert_eq!(log.get(0), None);
}

#[test]
fn clear_empties_the_log() {
    let mut log = MessageLog::with_limit(2);
    log.add_message(note("a", 1));
    log.clear();
    assert_eq!(log.len(), 0);
    log.add_message(note("b", 2));
    assert_eq!(log.get(0), Some(&note("b", 2)));
}
