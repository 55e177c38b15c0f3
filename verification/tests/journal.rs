use keryx_miner::journal::{
    enabled, log_msg, record_message, takes_message, LogLevel, LOG_KEPT, LOG_LIMIT,
};

#[test]
fn messages_are_lines() {
    let mut log = String::new();
    log_msg(&mut log, "one");
    log_msg(&mut log, "two…");
    assert_eq!(log, "one\ntwo…\n");
}

#[test]
fn a_full_log_is_kept_whole() {
    let mut log = "a".repeat(LOG_LIMIT - 4);
    log_msg(&mut log, "bcd");
    assert_eq!(log.len(), LOG_LIMIT);
    assert!(log.ends_with("abcd\n"));
}

#[test]
fn a_log_over_its_limit_is_cut() {
    let mut log = "a".repeat(LOG_LIMIT - 3);
    log_msg(&mut log, "bcd");
    assert_eq!(log.len(), LOG_KEPT);
    assert!(log.ends_with("aabcd\n"));
    let mut log = "x\n".to_string();
    log_msg(&mut log, &"b".repeat(LOG_LIMIT));
    assert_eq!(log.len(), LOG_KEPT);
    assert_eq!(log, format!("{}\n", "b".repeat(LOG_KEPT - 1)));
}

#[test]
fn a_cut_does_not_go_through_a_character() {
    // Characters of three bytes, and a cut behind 32771, 32772 or 32773 bytes.
    let log = "…".repeat(21846);
    assert_eq!(log.len(), LOG_LIMIT + 2);
    assert!(!takes_message(&log, ""));
    assert!(takes_message(&log, "a"));
    assert!(!takes_message(&log, "aa"));
    assert!(takes_message("short", "message"));
    let ascii = "a".repeat(LOG_LIMIT);
    assert!(takes_message(&ascii, "message"));
    let mixed = format!("{}…{}", "a".repeat(LOG_KEPT), "b".repeat(LOG_KEPT - 2));
    for extra in 0..4 {
        let msg = "c".repeat(extra);
        let whole = format!("{mixed}{msg}\n");
        let fits = whole.len() <= LOG_LIMIT || whole.is_char_boundary(whole.len() - LOG_KEPT);
        assert_eq!(takes_message(&mixed, &msg), fits);
    }
}

#[test]
fn only_relevant_records_are_logged() {
    assert!(enabled(LogLevel::Error, "hyper"));
    assert!(enabled(LogLevel::Warn, "h2::client"));
    assert!(!enabled(LogLevel::Info, "tonic::transport"));
    assert!(!enabled(LogLevel::Trace, ""));
    assert!(enabled(LogLevel::Info, "keryx_miner::client"));
    assert!(enabled(LogLevel::Debug, "x::pom_gpu"));
    assert!(enabled(LogLevel::Trace, "x::slm"));
}

#[test]
fn records_show_their_level() {
    assert_eq!(
        record_message(LogLevel::Error, "hyper", "broken"),
        Some("[ERROR] broken".to_string())
    );
    assert_eq!(
        record_message(LogLevel::Info, "pom", "N=5 chunks"),
        Some("[INFO] N=5 chunks".to_string())
    );
    assert_eq!(record_message(LogLevel::Info, "hyper", "noise"), None);
    for (level, name) in [
        (LogLevel::Error, "ERROR"),
        (LogLevel::Warn, "WARN"),
        (LogLevel::Info, "INFO"),
        (LogLevel::Debug, "DEBUG"),
        (LogLevel::Trace, "TRACE"),
    ] {
        assert_eq!(level.name(), name);
    }
}
