use llm_inference::models::ChatMessage;
use llm_inference::state::{SessionMap, SessionRecord};

fn user(text: &str) -> ChatMessage {
    ChatMessage::new("user", text)
}

fn contents(history: &Vec<ChatMessage>) -> Vec<String> {
    history.iter().map(|m| m.content.clone()).collect()
}

#[test]
fn a_new_store_is_empty() {
    let sessions = SessionMap::new();
    assert_eq!(sessions.len(), 0);
    assert!(!sessions.contains_key("s1"));
    assert!(sessions.get("s1").is_none());
    assert!(sessions.history("s1").is_empty());
    assert!(sessions.session_ids().is_empty());
    assert!(sessions.snapshot().is_empty());
}

#[test]
fn test_persistence_flow() {
    let mut sessions = SessionMap::new();
    sessions.insert("test-session".to_string(), vec![user("hello")]);
    let written = sessions.snapshot();
    let reloaded = SessionMap::from_records(&written);
    assert!(reloaded.contains_key("test-session"));
    assert_eq!(reloaded.get("test-session").unwrap()[0].content, "hello");
}

#[test]
fn test_session_management() {
    let mut sessions = SessionMap::new();
    sessions.insert("a".to_string(), vec![user("1")]);
    sessions.insert("b".to_string(), vec![user("2")]);
    sessions.insert("a".to_string(), vec![user("3")]);
    assert_eq!(sessions.session_ids(), vec!["a".to_string(), "b".to_string()]);
    assert_eq!(sessions.len(), 2);
    assert_eq!(contents(&sessions.history("a")), vec!["3"]);
    assert!(sessions.remove("a"));
    assert!(!sessions.remove("a"));
    assert_eq!(sessions.session_ids(), vec!["b".to_string()]);
    assert_eq!(contents(&sessions.history("b")), vec!["2"]);
    assert!(sessions.history("a").is_empty());
}

#[test]
fn loading_skips_the_records_that_could_not_be_decoded() {
    let records: Vec<SessionRecord> = vec![
        SessionRecord { session_id: "a".to_string(), history: Some(vec![user("1")]) },
        SessionRecord { session_id: "broken".to_string(), history: None },
        SessionRecord { session_id: "b".to_string(), history: Some(Vec::new()) },
        SessionRecord { session_id: "a".to_string(), history: Some(vec![user("2"), user("3")]) },
        SessionRecord { session_id: "b".to_string(), history: None },
    ];
    let sessions = SessionMap::from_records(&records);
    assert_eq!(sessions.len(), 2);
    assert!(!sessions.contains_key("broken"));
    assert_eq!(contents(&sessions.history("a")), vec!["2", "3"]);
    assert!(sessions.contains_key("b"));
    assert!(sessions.history("b").is_empty());
    assert_eq!(sessions.session_ids(), vec!["a".to_string(), "b".to_string()]);
}

#[test]
fn the_first_turn_seeds_the_session() {
    let mut sessions = SessionMap::new();
    let context = sessions.begin_turn("s1", "hi");
    assert_eq!(context.len(), 2);
    assert_eq!(context[0].role, "system");
    assert_eq!(context[0].content, "You are a helpful AI assistant.");
    assert_eq!(context[1].role, "user");
    assert_eq!(context[1].content, "hi");
    assert_eq!(sessions.len(), 1);
    let again = sessions.begin_turn("s1", "more");
    assert_eq!(contents(&again), vec!["You are a helpful AI assistant.", "hi", "more"]);
    assert_eq!(sessions.len(), 1);
}

#[test]
fn a_turn_on_a_session_without_system_message_adds_none() {
    let mut sessions = SessionMap::new();
    sessions.insert("s".to_string(), vec![user("old")]);
    let context = sessions.begin_turn("s", "new");
    assert_eq!(contents(&context), vec!["old", "new"]);
    sessions.insert("e".to_string(), Vec::new());
    let context = sessions.begin_turn("e", "first");
    assert_eq!(contents(&context), vec!["first"]);
}

#[test]
fn a_session_never_grows_beyond_the_cap() {
    let mut sessions = SessionMap::new();
    let mut round: usize = 0;
    while round < 30 {
        let context = sessions.begin_turn("s", &format!("q{}", round));
        assert!(context.len() <= 20);
        assert!(sessions.complete_turn("s", &format!("a{}", round)));
        round += 1;
    }
    let history = sessions.history("s");
    // 20 after the last prune, and the answer appended after it
    assert_eq!(history.len(), 21);
    assert_eq!(history[0].role, "system");
    assert_eq!(history[20].content, "a29");
    assert_eq!(history[19].content, "q29");
    assert_eq!(history[1].content, "q20");
    let mut i: usize = 1;
    while i < history.len() {
        assert_ne!(history[i].role, "system");
        i += 1;
    }
}

#[test]
fn completing_a_turn_appends_the_answer() {
    let mut sessions = SessionMap::new();
    sessions.begin_turn("s", "q");
    sessions.begin_turn("t", "other");
    assert!(sessions.complete_turn("s", "answer"));
    let history = sessions.history("s");
    assert_eq!(history.len(), 3);
    assert_eq!(history[2].role, "assistant");
    assert_eq!(history[2].content, "answer");
    assert_eq!(sessions.history("t").len(), 2);
    assert!(!sessions.complete_turn("gone", "answer"));
    assert!(!sessions.contains_key("gone"));
    assert_eq!(sessions.len(), 2);
}

#[test]
fn rollback_in_the_store() {
    let mut sessions = SessionMap::new();
    sessions.begin_turn("s", "q1");
    sessions.complete_turn("s", "a1");
    sessions.begin_turn("s", "q2");
    sessions.begin_turn("t", "keep");
    assert!(sessions.rollback("s", 1));
    assert_eq!(contents(&sessions.history("s")), vec![
        "You are a helpful AI assistant.",
        "q1",
        "a1"
    ]);
    assert!(sessions.rollback("s", 50));
    assert_eq!(contents(&sessions.history("s")), vec!["You are a helpful AI assistant."]);
    assert!(sessions.contains_key("s"));
    assert!(!sessions.rollback("nobody", 1));
    assert_eq!(sessions.history("t").len(), 2);
    sessions.insert("u".to_string(), vec![user("a"), user("b")]);
    assert!(sessions.rollback("u", 2));
    assert!(sessions.contains_key("u"));
    assert!(sessions.history("u").is_empty());
}

#[test]
fn a_snapshot_holds_every_session() {
    let mut sessions = SessionMap::new();
    sessions.begin_turn("s1", "a");
    sessions.insert("s2".to_string(), Vec::new());
    sessions.begin_turn("s3", "c");
    sessions.remove("s1");
    let records = sessions.snapshot();
    assert_eq!(records.len(), 2);
    assert_eq!(records[0].session_id, "s2");
    assert!(records[0].history.as_ref().unwrap().is_empty());
    assert_eq!(records[1].session_id, "s3");
    assert_eq!(contents(records[1].history.as_ref().unwrap()), vec![
        "You are a helpful AI assistant.",
        "c"
    ]);
    // the snapshot is a copy
    sessions.complete_turn("s3", "later");
    assert_eq!(records[1].history.as_ref().unwrap().len(), 2);
}

#[test]
fn session_ids_are_compared_letter_for_letter() {
    let mut sessions = SessionMap::new();
    sessions.insert("abc".to_string(), vec![user("1")]);
    assert!(!sessions.contains_key("ab"));
    assert!(!sessions.contains_key("abcd"));
    assert!(!sessions.contains_key("ABC"));
    assert!(!sessions.contains_key(""));
    sessions.insert("".to_string(), vec![user("2")]);
    assert!(sessions.contains_key(""));
    sessions.insert("é".to_string(), vec![user("3")]);
    assert!(sessions.contains_key("é"));
    assert!(!sessions.contains_key("e"));
    assert_eq!(sessions.len(), 3);
}
