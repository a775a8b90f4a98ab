use llm_inference::config::{Config, LimitsConfig};
use llm_inference::models::{
    clone_history, default_device, default_max_token, default_top_k, ChatMessage, ModelsList,
};
use llm_inference::routes::{
    admit_chat_turn, admit_completion, clamp_max_tokens, find_model, is_ready, prune_history,
    rollback, rollback_amount, starts_with_system, MAX_HISTORY_LENGTH,
};
use llm_inference::state::{AdmissionError, SessionMap};

fn numbered(role: &str, count: usize, from: usize) -> Vec<ChatMessage> {
    let mut messages: Vec<ChatMessage> = Vec::new();
    let mut i: usize = 0;
    while i < count {
        messages.push(ChatMessage::new(role, &format!("m{}", from + i)));
        i += 1;
    }
    messages
}

fn contents(history: &Vec<ChatMessage>) -> Vec<String> {
    history.iter().map(|m| m.content.clone()).collect()
}

#[test]
fn history_cap_is_twenty() {
    assert_eq!(MAX_HISTORY_LENGTH, 20);
}

#[test]
fn pruning_keeps_the_system_message_and_the_recent_nineteen() {
    let mut history: Vec<ChatMessage> = vec![ChatMessage::new("system", "be kind")];
    history.extend(numbered("user", 24, 1));
    assert_eq!(history.len(), 25);
    prune_history(&mut history);
    assert_eq!(history.len(), 20);
    assert_eq!(history[0].role, "system");
    assert_eq!(history[0].content, "be kind");
    let mut i: usize = 1;
    while i < 20 {
        assert_eq!(history[i].role, "user");
        assert_eq!(history[i].content, format!("m{}", i + 5));
        i += 1;
    }
}

#[test]
fn pruning_without_a_system_message_keeps_the_recent_twenty() {
    let mut history: Vec<ChatMessage> = numbered("user", 25, 0);
    prune_history(&mut history);
    assert_eq!(history.len(), 20);
    let mut i: usize = 0;
    while i < 20 {
        assert_eq!(history[i].content, format!("m{}", i + 5));
        i += 1;
    }
}

#[test]
fn pruning_leaves_a_history_within_the_cap_alone() {
    let mut exact: Vec<ChatMessage> = numbered("user", 20, 0);
    prune_history(&mut exact);
    assert_eq!(contents(&exact), contents(&numbered("user", 20, 0)));
    let mut empty: Vec<ChatMessage> = Vec::new();
    prune_history(&mut empty);
    assert!(empty.is_empty());
    let mut one_over: Vec<ChatMessage> = vec![ChatMessage::new("system", "s")];
    one_over.extend(numbered("assistant", 20, 0));
    prune_history(&mut one_over);
    assert_eq!(one_over.len(), 20);
    assert_eq!(one_over[0].content, "s");
    assert_eq!(one_over[1].content, "m1");
    assert_eq!(one_over[19].content, "m19");
}

#[test]
fn only_a_system_message_in_front_is_kept_for_its_role() {
    let mut history: Vec<ChatMessage> = numbered("user", 21, 0);
    history[3] = ChatMessage::new("system", "late");
    prune_history(&mut history);
    assert_eq!(history.len(), 20);
    assert_eq!(history[0].content, "m1");
    assert_eq!(history[2].content, "late");
    let mut upper: Vec<ChatMessage> = vec![ChatMessage::new("System", "s")];
    upper.extend(numbered("user", 20, 0));
    prune_history(&mut upper);
    assert_eq!(upper[0].content, "m0");
}

#[test]
fn starts_with_system_reads_the_first_role() {
    assert!(!starts_with_system(&Vec::new()));
    assert!(starts_with_system(&vec![ChatMessage::new("system", "")]));
    assert!(!starts_with_system(&vec![ChatMessage::new("user", "system")]));
    assert!(!starts_with_system(&vec![
        ChatMessage::new("user", "a"),
        ChatMessage::new("system", "b")
    ]));
}

#[test]
fn rollback_removes_the_last_messages() {
    let mut history: Vec<ChatMessage> = vec![ChatMessage::new("system", "s")];
    history.extend(numbered("user", 4, 0));
    rollback(&mut history, 2);
    assert_eq!(contents(&history), vec!["s", "m0", "m1"]);
    rollback(&mut history, 0);
    assert_eq!(history.len(), 3);
}

#[test]
fn rollback_beyond_the_start_keeps_the_system_message() {
    let mut history: Vec<ChatMessage> = vec![ChatMessage::new("system", "s")];
    history.extend(numbered("user", 4, 0));
    rollback(&mut history, 9);
    assert_eq!(history.len(), 1);
    assert_eq!(history[0].role, "system");
    assert_eq!(history[0].content, "s");
    let mut exact: Vec<ChatMessage> = vec![ChatMessage::new("system", "s")];
    exact.extend(numbered("user", 2, 0));
    rollback(&mut exact, 3);
    assert_eq!(contents(&exact), vec!["s"]);
    rollback(&mut exact, usize::MAX);
    assert_eq!(contents(&exact), vec!["s"]);
}

#[test]
fn rollback_beyond_the_start_clears_a_history_without_system_message() {
    let mut history: Vec<ChatMessage> = numbered("user", 3, 0);
    rollback(&mut history, 4);
    assert!(history.is_empty());
    let mut exact: Vec<ChatMessage> = numbered("user", 3, 0);
    rollback(&mut exact, 3);
    assert!(exact.is_empty());
    let mut empty: Vec<ChatMessage> = Vec::new();
    rollback(&mut empty, 1);
    assert!(empty.is_empty());
}

#[test]
fn rollback_amount_defaults_to_one() {
    assert_eq!(rollback_amount(None), 1);
    assert_eq!(rollback_amount(Some(0)), 0);
    assert_eq!(rollback_amount(Some(7)), 7);
    assert_eq!(rollback_amount(Some(u64::MAX)), usize::MAX);
}

#[test]
fn token_budget_is_held_to_the_limit() {
    let limits: LimitsConfig = Config::default().limits;
    assert_eq!(clamp_max_tokens(50, &limits), 50);
    assert_eq!(clamp_max_tokens(2048, &limits), 2048);
    assert_eq!(clamp_max_tokens(2049, &limits), 2048);
    assert_eq!(clamp_max_tokens(usize::MAX, &limits), 2048);
}

#[test]
fn test_prompt_length_validation() {
    let mut config = Config::default();
    config.limits.max_prompt_length = 10;
    let outcome = admit_completion(
        "This is a very long prompt that exceeds the limit",
        50,
        &config.limits,
    );
    assert_eq!(outcome, Err(AdmissionError::PromptTooLong { limit: 10 }));
    assert_eq!(outcome.unwrap_err().status(), 400);
    assert_eq!(admit_completion("short", 50, &config.limits), Ok(50));
    assert_eq!(admit_completion("0123456789", 5000, &config.limits), Ok(2048));
    assert!(admit_completion("0123456789a", 50, &config.limits).is_err());
}

#[test]
fn a_chat_request_without_session_touches_no_session() {
    let limits: LimitsConfig = Config::default().limits;
    let mut sessions = SessionMap::new();
    let turn = admit_chat_turn(&mut sessions, &limits, None, "Hello", 5000).unwrap();
    assert_eq!(turn.max_token, 2048);
    assert!(turn.messages.is_none());
    assert_eq!(sessions.len(), 0);
}

#[test]
fn a_chat_request_with_session_records_the_user_turn() {
    let limits: LimitsConfig = Config::default().limits;
    let mut sessions = SessionMap::new();
    let turn = admit_chat_turn(&mut sessions, &limits, Some("s1"), "world", 50).unwrap();
    assert_eq!(turn.max_token, 50);
    let messages = turn.messages.unwrap();
    assert_eq!(messages.len(), 2);
    assert_eq!(messages[0].role, "system");
    assert_eq!(messages[0].content, "You are a helpful AI assistant.");
    assert_eq!(messages[1].role, "user");
    assert_eq!(messages[1].content, "world");
    assert_eq!(contents(&sessions.history("s1")), contents(&messages));
}

#[test]
fn a_chat_request_that_is_refused_leaves_the_sessions_alone() {
    let mut limits: LimitsConfig = Config::default().limits;
    limits.max_prompt_length = 4;
    limits.max_sessions = 1;
    let mut sessions = SessionMap::new();
    let too_long = admit_chat_turn(&mut sessions, &limits, Some("s1"), "hello", 50);
    assert_eq!(too_long.unwrap_err(), AdmissionError::PromptTooLong { limit: 4 });
    assert_eq!(sessions.len(), 0);
    assert!(admit_chat_turn(&mut sessions, &limits, Some("s1"), "hi", 50).is_ok());
    // the limit counts live sessions, whichever session the request names
    let full = admit_chat_turn(&mut sessions, &limits, Some("s1"), "hi", 50);
    assert_eq!(full.unwrap_err(), AdmissionError::SessionLimitExceeded { limit: 1 });
    let other = admit_chat_turn(&mut sessions, &limits, Some("s2"), "hi", 50);
    assert_eq!(other.unwrap_err().status(), 429);
    assert_eq!(sessions.len(), 1);
    assert_eq!(sessions.history("s1").len(), 2);
    // a request without session is not held to the session limit
    assert!(admit_chat_turn(&mut sessions, &limits, None, "hi", 50).is_ok());
    // the prompt is checked first
    let both = admit_chat_turn(&mut sessions, &limits, Some("s2"), "hello", 50);
    assert_eq!(both.unwrap_err(), AdmissionError::PromptTooLong { limit: 4 });
}

#[test]
fn prompt_length_counts_bytes() {
    let mut limits: LimitsConfig = Config::default().limits;
    limits.max_prompt_length = 3;
    assert!(admit_completion("abc", 1, &limits).is_ok());
    // two letters, four bytes
    assert!(admit_completion("éé", 1, &limits).is_err());
}

#[test]
fn admission_error_messages() {
    assert_eq!(
        AdmissionError::PromptTooLong { limit: 8192 }.message(),
        "Prompt exceeds maximum length of 8192 characters"
    );
    assert_eq!(
        AdmissionError::SessionLimitExceeded { limit: 1000 }.message(),
        "Maximum number of sessions (1000) reached"
    );
    assert_eq!(AdmissionError::PromptTooLong { limit: 0 }.message(),
        "Prompt exceeds maximum length of 0 characters");
    assert_eq!(AdmissionError::RateLimitExceeded.message(), "Rate limit exceeded");
    assert_eq!(AdmissionError::RateLimitExceeded.status(), 429);
    assert_eq!(AdmissionError::SessionLimitExceeded { limit: 1 }.status(), 429);
    assert_eq!(AdmissionError::PromptTooLong { limit: 1 }.status(), 400);
}

#[test]
fn find_model_goes_by_id_or_display_name() {
    let config = Config::default();
    let models = &config.models.available_models;
    assert_eq!(find_model(models, "qwen").unwrap().name, "Qwen/Qwen2.5-0.5B-Instruct");
    assert_eq!(find_model(models, "microsoft/Phi-3.5-mini-instruct").unwrap().id, "phi");
    assert!(find_model(models, "Qwen").is_none());
    assert!(find_model(models, "").is_none());
    assert!(find_model(&Vec::new(), "qwen").is_none());
}

#[test]
fn find_model_takes_the_first_match() {
    let mut config = Config::default();
    config.models.available_models[1].name = "qwen".to_string();
    let found = find_model(&config.models.available_models, "qwen").unwrap();
    assert_eq!(found.id, "qwen");
}

#[test]
fn readiness_needs_a_model() {
    assert!(!is_ready(0));
    assert!(is_ready(1));
    assert!(is_ready(2));
}

#[test]
fn request_defaults() {
    assert_eq!(default_max_token(), 128);
    assert_eq!(default_top_k(), 10);
    assert_eq!(default_device(), "cpu");
}

#[test]
fn messages_are_copied_whole() {
    let message = ChatMessage::new("user", "hi");
    let copy = message.clone();
    assert_eq!(copy.role, "user");
    assert_eq!(copy.content, "hi");
    let history: Vec<ChatMessage> = vec![message, ChatMessage::new("assistant", "ho")];
    let copied = clone_history(&history);
    assert_eq!(contents(&copied), vec!["hi", "ho"]);
    assert_eq!(copied[1].role, "assistant");
    let list = ModelsList { models: vec!["a".to_string()] };
    assert_eq!(list.models.len(), 1);
}
