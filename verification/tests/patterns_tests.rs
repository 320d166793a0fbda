use log_analyzer::entry::LogEntry;
use log_analyzer::instant::Timestamp;
use log_analyzer::patterns::{detect_patterns, scan, signature, Matches, Pattern};
use regex::Regex;

fn message(text: &str) -> LogEntry {
    LogEntry {
        timestamp: Timestamp::new(0, 0).unwrap(),
        level: "INFO".to_string(),
        message: text.to_string(),
        metadata: None,
    }
}

fn batch(texts: &[&str]) -> Vec<LogEntry> {
    let mut logs = Vec::new();
    for text in texts {
        logs.push(message(text));
    }
    logs
}

#[test]
fn the_known_signatures() {
    assert_eq!(signature(0), Some("failed to connect"));
    assert_eq!(signature(1), Some("timeout"));
    assert_eq!(signature(2), Some("exception"));
    assert_eq!(signature(3), Some(r"error code \d+"));
    assert_eq!(signature(4), Some("invalid (request|response)"));
    assert_eq!(signature(5), None);
    assert_eq!(signature(usize::MAX), None);
}

#[test]
fn every_known_signature_compiles() {
    for k in 0..5 {
        assert!(Regex::new(signature(k).unwrap()).is_ok());
    }
}

#[test]
fn no_message_no_pattern() {
    assert_eq!(detect_patterns(&Vec::new()), Vec::new());
}

#[test]
fn no_match_no_pattern() {
    let logs = batch(&["service started", "all good", "Timeout with a capital", "error code x"]);
    assert_eq!(detect_patterns(&logs), Vec::new());
}

#[test]
fn timeout_is_found_inside_a_message() {
    let logs = batch(&["service started", "connection timeout occurred"]);
    assert_eq!(
        detect_patterns(&logs),
        vec![Pattern {
            pattern: "timeout".to_string(),
            occurrences: 1,
            examples: vec!["connection timeout occurred".to_string()],
        }]
    );
}

#[test]
fn each_signature_is_found() {
    let logs = batch(&[
        "invalid response from peer",
        "error code 42",
        "unhandled exception in worker",
        "read timeout",
        "failed to connect to db",
    ]);
    let found = detect_patterns(&logs);
    assert_eq!(
        found,
        vec![
            Pattern {
                pattern: "failed to connect".to_string(),
                occurrences: 1,
                examples: vec!["failed to connect to db".to_string()],
            },
            Pattern {
                pattern: "timeout".to_string(),
                occurrences: 1,
                examples: vec!["read timeout".to_string()],
            },
            Pattern {
                pattern: "exception".to_string(),
                occurrences: 1,
                examples: vec!["unhandled exception in worker".to_string()],
            },
            Pattern {
                pattern: r"error code \d+".to_string(),
                occurrences: 1,
                examples: vec!["error code 42".to_string()],
            },
            Pattern {
                pattern: "invalid (request|response)".to_string(),
                occurrences: 1,
                examples: vec!["invalid response from peer".to_string()],
            },
        ]
    );
}

#[test]
fn error_code_needs_a_digit() {
    let logs = batch(&[
        "error code",
        "error code ",
        "error code: 5",
        "error code 7 seen",
        "error  code 7",
    ]);
    let found = detect_patterns(&logs);
    assert_eq!(found.len(), 1);
    assert_eq!(found[0].pattern, r"error code \d+");
    assert_eq!(found[0].occurrences, 1);
    assert_eq!(found[0].examples, vec!["error code 7 seen".to_string()]);
}

#[test]
fn invalid_needs_request_or_response() {
    let logs = batch(&[
        "invalid request",
        "invalid response",
        "invalid reply",
        "invalid  request",
        "an invalid requestor",
    ]);
    let found = detect_patterns(&logs);
    assert_eq!(found.len(), 1);
    assert_eq!(found[0].pattern, "invalid (request|response)");
    assert_eq!(found[0].occurrences, 3);
    assert_eq!(
        found[0].examples,
        vec![
            "invalid request".to_string(),
            "invalid response".to_string(),
            "an invalid requestor".to_string(),
        ]
    );
}

#[test]
fn matching_observes_case() {
    let logs = batch(&["TIMEOUT", "Exception", "Failed to connect", "timeout"]);
    let found = detect_patterns(&logs);
    assert_eq!(found.len(), 1);
    assert_eq!(found[0].pattern, "timeout");
    assert_eq!(found[0].occurrences, 1);
}

#[test]
fn at_most_three_examples_in_batch_order() {
    let logs = batch(&["timeout a", "nothing", "timeout b", "timeout c", "timeout d", "timeout e"]);
    let found = detect_patterns(&logs);
    assert_eq!(found.len(), 1);
    assert_eq!(found[0].occurrences, 5);
    assert_eq!(
        found[0].examples,
        vec!["timeout a".to_string(), "timeout b".to_string(), "timeout c".to_string()]
    );
}

#[test]
fn examples_are_as_many_as_matches_up_to_three() {
    for n in 0..6usize {
        let mut logs = Vec::new();
        for i in 0..n {
            logs.push(message(&format!("exception {}", i)));
        }
        let found = detect_patterns(&logs);
        if n == 0 {
            assert!(found.is_empty());
        } else {
            assert_eq!(found.len(), 1);
            assert_eq!(found[0].occurrences, n);
            assert_eq!(found[0].examples.len(), n.min(3));
        }
    }
}

#[test]
fn repeated_messages_count_each_time() {
    let logs = batch(&["timeout", "timeout", "timeout", "timeout"]);
    let found = detect_patterns(&logs);
    assert_eq!(found.len(), 1);
    assert_eq!(found[0].occurrences, 4);
    assert_eq!(
        found[0].examples,
        vec!["timeout".to_string(), "timeout".to_string(), "timeout".to_string()]
    );
}

#[test]
fn one_message_may_show_several_signatures() {
    let logs = batch(&["timeout exception: failed to connect"]);
    let found = detect_patterns(&logs);
    assert_eq!(found.len(), 3);
    assert_eq!(found[0].pattern, "failed to connect");
    assert_eq!(found[1].pattern, "timeout");
    assert_eq!(found[2].pattern, "exception");
}

#[test]
fn scan_uses_the_matcher_it_is_given() {
    let matcher = Regex::new("^a+$").unwrap();
    let logs = batch(&["aaa", "b", "a", "ab", "aa", "aaaa"]);
    assert_eq!(
        scan("only a", &matcher, &logs),
        Some(Pattern {
            pattern: "only a".to_string(),
            occurrences: 4,
            examples: vec!["aaa".to_string(), "a".to_string(), "aa".to_string()],
        })
    );
    assert_eq!(scan("only a", &matcher, &batch(&["b", "c"])), None);
    assert_eq!(scan("only a", &matcher, &Vec::new()), None);
}

#[test]
fn matches_start_empty() {
    let matches = Matches::new();
    assert_eq!(matches, Matches { occurrences: 0, examples: Vec::new() });
    assert_eq!(matches.into_pattern("x"), None);
}

#[test]
fn a_message_that_did_not_match_changes_nothing() {
    let mut matches = Matches::new();
    matches.observe(&"a".to_string(), false);
    assert_eq!(matches, Matches { occurrences: 0, examples: Vec::new() });
    matches.observe(&"b".to_string(), true);
    matches.observe(&"c".to_string(), false);
    assert_eq!(matches, Matches { occurrences: 1, examples: vec!["b".to_string()] });
}

#[test]
fn the_fourth_match_counts_but_is_no_example() {
    let mut matches = Matches::new();
    for text in ["a", "b", "c"] {
        matches.observe(&text.to_string(), true);
    }
    assert_eq!(
        matches,
        Matches {
            occurrences: 3,
            examples: vec!["a".to_string(), "b".to_string(), "c".to_string()],
        }
    );
    matches.observe(&"d".to_string(), true);
    assert_eq!(
        matches,
        Matches {
            occurrences: 4,
            examples: vec!["a".to_string(), "b".to_string(), "c".to_string()],
        }
    );
    assert_eq!(
        matches.into_pattern("letters"),
        Some(Pattern {
            pattern: "letters".to_string(),
            occurrences: 4,
            examples: vec!["a".to_string(), "b".to_string(), "c".to_string()],
        })
    );
}
