use llm_inference::engine_mock::MockEngine;
use llm_inference::config::Config;
use llm_inference::relay::{
    fault_message, panic_message, Frame, RelayPhase, StreamRelay, UpstreamEvent,
};
use llm_inference::routes::admit_chat_turn;
use llm_inference::state::SessionMap;

fn token(text: &str) -> UpstreamEvent {
    UpstreamEvent::Token(text.to_string())
}

fn payload(frame: Option<Frame>) -> Option<String> {
    frame.map(|f| f.data())
}

#[test]
fn test_chat_completions_sse() {
    let engine = MockEngine::new();
    let sessions = SessionMap::new();
    let mut relay = StreamRelay::new(None);
    let mut body = String::new();
    for event in engine.events("world") {
        if let Some(frame) = relay.step(&sessions, event) {
            body.push_str("data: ");
            body.push_str(&frame.data());
            body.push_str("\n\n");
        }
    }
    assert!(body.contains("hello"));
    assert!(body.contains("world"));
    assert_eq!(relay.phase(), RelayPhase::Completed);
}

#[test]
fn a_chat_turn_from_end_to_end() {
    let engine = MockEngine::new();
    let limits = Config::default().limits;
    let mut sessions = SessionMap::new();
    let turn = admit_chat_turn(&mut sessions, &limits, Some("s1"), "world", 10).unwrap();
    assert_eq!(turn.max_token, 10);
    assert_eq!(turn.messages.unwrap().len(), 2);

    let mut relay = StreamRelay::new(Some("s1".to_string()));
    let mut sent: Vec<String> = Vec::new();
    for event in engine.events("world") {
        if let Some(frame) = relay.step(&sessions, event) {
            assert!(matches!(frame, Frame::Token(_)));
            sent.push(frame.data());
        }
    }
    assert_eq!(sent, engine.replies("world"));
    assert_eq!(sent.concat(), "hello world\ndone");
    assert!(relay.is_finished());
    assert_eq!(relay.tokens(), 5);
    assert_eq!(relay.response(), "hello world\ndone");
    assert!(relay.finish(&mut sessions));

    let history = sessions.history("s1");
    assert_eq!(history.len(), 3);
    assert_eq!(history[0].role, "system");
    assert_eq!(history[0].content, "You are a helpful AI assistant.");
    assert_eq!(history[1].role, "user");
    assert_eq!(history[1].content, "world");
    assert_eq!(history[2].role, "assistant");
    assert_eq!(history[2].content, "hello world\ndone");
}

#[test]
fn a_relay_starts_with_nothing() {
    let relay = StreamRelay::new(Some("s".to_string()));
    assert_eq!(relay.phase(), RelayPhase::Started);
    assert!(!relay.is_finished());
    assert_eq!(relay.tokens(), 0);
    assert_eq!(relay.response(), "");
    assert_eq!(relay.session_id(), Some("s"));
    assert_eq!(StreamRelay::new(None).session_id(), None);
}

#[test]
fn a_deleted_session_stops_the_stream() {
    let mut sessions = SessionMap::new();
    sessions.begin_turn("s1", "q");
    sessions.begin_turn("s2", "other");
    let mut relay = StreamRelay::new(Some("s1".to_string()));
    assert_eq!(payload(relay.step(&sessions, token("a"))), Some("a".to_string()));
    assert_eq!(relay.phase(), RelayPhase::Streaming);
    assert!(sessions.remove("s1"));
    assert!(relay.step(&sessions, token("b")).is_none());
    assert_eq!(relay.phase(), RelayPhase::Cancelled);
    assert!(relay.is_finished());
    assert_eq!(relay.response(), "a");
    assert_eq!(relay.tokens(), 1);
    // nothing is forwarded any more, whatever comes
    assert!(relay.step(&sessions, token("c")).is_none());
    assert!(relay.step(&sessions, UpstreamEvent::EngineError("e".to_string())).is_none());
    assert!(relay.step(&sessions, UpstreamEvent::Fault).is_none());
    assert!(relay.step(&sessions, UpstreamEvent::End).is_none());
    assert_eq!(relay.phase(), RelayPhase::Cancelled);
    // and no assistant message is written, not even to a session that was
    // made anew under the same id
    assert!(!relay.finish(&mut sessions));
    assert!(!sessions.contains_key("s1"));
    sessions.begin_turn("s1", "again");
    assert!(!relay.finish(&mut sessions));
    assert_eq!(sessions.history("s1").len(), 2);
    assert_eq!(sessions.history("s2").len(), 2);
}

#[test]
fn a_session_deleted_before_the_first_fragment() {
    let sessions = SessionMap::new();
    let mut relay = StreamRelay::new(Some("never".to_string()));
    assert!(relay.step(&sessions, token("a")).is_none());
    assert_eq!(relay.phase(), RelayPhase::Cancelled);
    assert_eq!(relay.tokens(), 0);
}

#[test]
fn a_session_deleted_after_the_last_fragment_gets_no_answer() {
    let mut sessions = SessionMap::new();
    sessions.begin_turn("s1", "q");
    let mut relay = StreamRelay::new(Some("s1".to_string()));
    assert!(relay.step(&sessions, token("a")).is_some());
    assert!(relay.step(&sessions, UpstreamEvent::End).is_none());
    assert_eq!(relay.phase(), RelayPhase::Completed);
    sessions.remove("s1");
    assert!(!relay.finish(&mut sessions));
    assert_eq!(sessions.len(), 0);
}

#[test]
fn a_breakdown_gives_one_terminal_error() {
    let mut sessions = SessionMap::new();
    sessions.begin_turn("s1", "q");
    let mut relay = StreamRelay::new(Some("s1".to_string()));
    let mut frames: Vec<Frame> = Vec::new();
    let events: Vec<UpstreamEvent> = vec![
        token("par"),
        token("tial"),
        UpstreamEvent::Fault,
        token("late"),
        UpstreamEvent::Fault,
        UpstreamEvent::EngineError("late".to_string()),
        UpstreamEvent::End,
    ];
    for event in events {
        if let Some(frame) = relay.step(&sessions, event) {
            frames.push(frame);
        }
    }
    assert_eq!(frames.len(), 3);
    assert!(matches!(&frames[0], Frame::Token(t) if t == "par"));
    assert!(matches!(&frames[1], Frame::Token(t) if t == "tial"));
    assert!(matches!(&frames[2], Frame::Error(e) if e == "Inference engine panicked"));
    assert_eq!(frames[2].data(), "__ERROR__:Inference engine panicked");
    assert_eq!(relay.phase(), RelayPhase::Failed);
    assert!(!relay.finish(&mut sessions));
    assert_eq!(sessions.history("s1").len(), 2);

    // the next request is served as if nothing had happened
    let mut next = StreamRelay::new(Some("s1".to_string()));
    assert_eq!(payload(next.step(&sessions, token("ok"))), Some("ok".to_string()));
    assert!(next.step(&sessions, UpstreamEvent::End).is_none());
    assert!(next.finish(&mut sessions));
    assert_eq!(sessions.history("s1")[2].content, "ok");
}

#[test]
fn a_breakdown_before_the_first_fragment() {
    let sessions = SessionMap::new();
    let mut relay = StreamRelay::new(None);
    let frame = relay.step(&sessions, UpstreamEvent::Fault).unwrap();
    assert_eq!(frame.data(), "__ERROR__:Inference engine panicked");
    assert_eq!(relay.phase(), RelayPhase::Failed);
    assert!(relay.step(&sessions, UpstreamEvent::Fault).is_none());
}

#[test]
fn an_engine_error_is_sent_on_and_the_stream_goes_on() {
    let mut sessions = SessionMap::new();
    sessions.begin_turn("s1", "q");
    let mut relay = StreamRelay::new(Some("s1".to_string()));
    assert_eq!(payload(relay.step(&sessions, token("a"))), Some("a".to_string()));
    let error = relay.step(&sessions, UpstreamEvent::EngineError("model busy".to_string()));
    assert_eq!(payload(error), Some("__ERROR__:model busy".to_string()));
    assert_eq!(relay.phase(), RelayPhase::Streaming);
    assert_eq!(payload(relay.step(&sessions, token("b"))), Some("b".to_string()));
    assert!(relay.step(&sessions, UpstreamEvent::End).is_none());
    assert_eq!(relay.phase(), RelayPhase::Completed);
    assert_eq!(relay.response(), "ab");
    assert_eq!(relay.tokens(), 2);
    assert!(relay.finish(&mut sessions));
    assert_eq!(sessions.history("s1")[2].content, "ab");
}

#[test]
fn an_engine_error_does_not_look_at_the_session() {
    let sessions = SessionMap::new();
    let mut relay = StreamRelay::new(Some("gone".to_string()));
    let error = relay.step(&sessions, UpstreamEvent::EngineError("e".to_string()));
    assert_eq!(payload(error), Some("__ERROR__:e".to_string()));
    assert_eq!(relay.phase(), RelayPhase::Streaming);
    assert!(relay.step(&sessions, token("a")).is_none());
    assert_eq!(relay.phase(), RelayPhase::Cancelled);
}

#[test]
fn a_consumer_that_went_away_cancels_the_request() {
    let mut sessions = SessionMap::new();
    sessions.begin_turn("s1", "q");
    let mut relay = StreamRelay::new(Some("s1".to_string()));
    assert!(relay.step(&sessions, token("a")).is_some());
    assert!(relay.step(&sessions, UpstreamEvent::Disconnected).is_none());
    assert_eq!(relay.phase(), RelayPhase::Cancelled);
    assert!(relay.step(&sessions, token("b")).is_none());
    assert!(!relay.finish(&mut sessions));
    assert_eq!(sessions.history("s1").len(), 2);
}

#[test]
fn a_request_without_session_settles_nothing() {
    let mut sessions = SessionMap::new();
    sessions.begin_turn("s1", "q");
    let mut relay = StreamRelay::new(None);
    assert!(relay.step(&sessions, token("a")).is_some());
    assert!(relay.step(&sessions, UpstreamEvent::End).is_none());
    assert!(!relay.finish(&mut sessions));
    assert_eq!(sessions.history("s1").len(), 2);
    assert_eq!(sessions.len(), 1);
}

#[test]
fn an_unfinished_request_settles_nothing() {
    let mut sessions = SessionMap::new();
    sessions.begin_turn("s1", "q");
    let mut relay = StreamRelay::new(Some("s1".to_string()));
    assert!(!relay.finish(&mut sessions));
    assert!(relay.step(&sessions, token("a")).is_some());
    assert!(!relay.finish(&mut sessions));
    assert_eq!(sessions.history("s1").len(), 2);
}

#[test]
fn empty_fragments_are_counted() {
    let sessions = SessionMap::new();
    let mut relay = StreamRelay::new(None);
    assert_eq!(payload(relay.step(&sessions, token(""))), Some(String::new()));
    assert_eq!(payload(relay.step(&sessions, token(""))), Some(String::new()));
    assert_eq!(relay.tokens(), 2);
    assert_eq!(relay.response(), "");
}

#[test]
fn a_frame_goes_out_as_its_payload() {
    assert_eq!(Frame::Token("hi".to_string()).data(), "hi");
    assert_eq!(Frame::Token("__ERROR__:".to_string()).data(), "__ERROR__:");
    assert_eq!(Frame::Error("bad".to_string()).data(), "__ERROR__:bad");
    assert_eq!(Frame::Error(String::new()).data(), "__ERROR__:");
}

#[test]
fn what_is_reported_of_a_breakdown() {
    assert_eq!(fault_message(), "Inference engine panicked");
    assert_eq!(panic_message(Some("index out of bounds".to_string())), "index out of bounds");
    assert_eq!(panic_message(None), "unknown panic");
}

#[test]
fn a_whole_stream_at_once() {
    let engine = MockEngine::new();
    let mut sessions = SessionMap::new();
    sessions.begin_turn("s1", "world");
    let mut relay = StreamRelay::new(Some("s1".to_string()));
    let frames = relay.run(&sessions, &engine.events("world"));
    let sent: Vec<String> = frames.iter().map(|f| f.data()).collect();
    assert_eq!(sent, vec!["hello", " ", "world", "\n", "done"]);
    assert_eq!(relay.phase(), RelayPhase::Completed);
    assert!(relay.finish(&mut sessions));
    assert_eq!(sessions.history("s1")[2].content, "hello world\ndone");
}

#[test]
fn a_whole_stream_is_its_events_one_by_one() {
    let sessions = SessionMap::new();
    let events: Vec<UpstreamEvent> = vec![
        token("a"),
        UpstreamEvent::EngineError("e".to_string()),
        token("b"),
        UpstreamEvent::Fault,
        token("c"),
        UpstreamEvent::End,
    ];
    let mut at_once = StreamRelay::new(None);
    let whole: Vec<String> = at_once.run(&sessions, &events).iter().map(|f| f.data()).collect();
    let mut stepwise = StreamRelay::new(None);
    let mut single: Vec<String> = Vec::new();
    for event in events {
        if let Some(frame) = stepwise.step(&sessions, event) {
            single.push(frame.data());
        }
    }
    assert_eq!(whole, single);
    assert_eq!(whole, vec!["a", "__ERROR__:e", "b", "__ERROR__:Inference engine panicked"]);
    assert_eq!(at_once.phase(), RelayPhase::Failed);
    assert_eq!(at_once.response(), "ab");
    assert_eq!(at_once.tokens(), 2);
    let mut empty = StreamRelay::new(None);
    assert!(empty.run(&sessions, &Vec::new()).is_empty());
    assert_eq!(empty.phase(), RelayPhase::Started);
}
