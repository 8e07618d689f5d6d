use gdbg::dap_frame::DapFrameDecoder;
use gdbg::json::{json_text, parse_json, Json, DEEPEST_NESTING};
use gdbg::launch::{stop_wait, Wait};
use gdbg::session::{
    extract_system_process_id, handle_stack_response, stack_trace_arguments, Action, Driver,
    HitEvent, Incoming, State,
};

fn json(text: &str) -> Json {
    parse_json(text.as_bytes()).unwrap()
}

const STOPPED: &str = "{\"type\":\"event\",\"event\":\"stopped\",\"body\":{\"reason\":\"breakpoint\"}}";

#[test]
fn dap_stopped_without_thread_id_wakes_waiters() {
    let mut state = State::new();
    let mut driver = Driver::new();
    state.action_generation = 1;
    state.armed_action_generation = 0;
    let message = json("{\"type\":\"event\",\"event\":\"stopped\",\"body\":{\"reason\":\"pause\"}}");
    let action = driver.dispatch_incoming(&mut state, &message);
    assert!(matches!(action, Action::Wake));
    assert!(state.paused);
    assert!(state.pending_hit.is_some());
    assert_eq!(stop_wait(&state, false), Wait::Done);
    assert!(state.pending_is_unscoped);
}

#[test]
fn only_the_stop_of_the_running_request_ends_the_wait() {
    let mut state = State::new();
    state.begin_action();
    assert_eq!(stop_wait(&state, false), Wait::Continue);
    assert_eq!(stop_wait(&state, true), Wait::TimedOut);
    state.pending_hit = Some(HitEvent::unknown());
    assert_eq!(stop_wait(&state, false), Wait::Continue);
    state.pending_action_generation = state.action_generation;
    assert_eq!(stop_wait(&state, true), Wait::Done);
    state.clear_pending();
    assert!(state.pending_hit.is_none());
    state.mark_dead();
    assert_eq!(stop_wait(&state, true), Wait::Terminated);
}

#[test]
fn a_consumed_stop_cannot_be_recreated_by_a_late_stack_helper() {
    let mut state = State::new();
    state.stop_generation = 7;
    state.pending_hit = Some(HitEvent::unknown());
    let body =
        json("{\"stackFrames\":[{\"name\":\"old_stop\",\"line\":10,\"source\":{\"path\":\"old.rs\"}}]}");
    handle_stack_response(&mut state, &body, 7);
    assert_eq!(state.pending_hit.take().unwrap().file.as_deref(), Some("old.rs"));

    handle_stack_response(&mut state, &body, 7);
    assert!(state.pending_hit.is_none());
}

#[test]
fn stopped_frame_queued_before_action_keeps_the_previous_generation() {
    let mut state = State::new();
    let mut driver = Driver::new();
    state.action_generation = 1;
    state.armed_action_generation = 0;
    driver.dispatch_incoming(&mut state, &json(STOPPED));
    assert_eq!(state.pending_action_generation, 0);

    state.armed_action_generation = 1;
    driver.dispatch_incoming(&mut state, &json(STOPPED));
    assert_eq!(state.pending_action_generation, 1);
}

#[test]
fn extract_system_process_id_accepts_number() {
    let body = json("{\"systemProcessId\":12345,\"name\":\"dotnet\"}");
    assert_eq!(extract_system_process_id(&body), Some(12345));
}

#[test]
fn extract_system_process_id_accepts_string() {
    let body = json("{\"systemProcessId\":\"67890\"}");
    assert_eq!(extract_system_process_id(&body), Some(67890));
}

#[test]
fn extract_system_process_id_rejects_garbage() {
    assert_eq!(extract_system_process_id(&json("{\"systemProcessId\":null}")), None);
    assert_eq!(extract_system_process_id(&json("{\"systemProcessId\":\"not-a-pid\"}")), None);
    assert_eq!(extract_system_process_id(&json("{\"systemProcessId\":4294967296}")), None);
    assert_eq!(extract_system_process_id(&json("{\"name\":\"missing field\"}")), None);
}

#[test]
fn a_stop_with_a_thread_asks_for_its_frames() {
    let mut state = State::new();
    let mut driver = Driver::new();
    let message = json("{\"type\":\"event\",\"event\":\"stopped\",\"body\":{\"threadId\":3}}");
    match driver.dispatch_incoming(&mut state, &message) {
        Action::FetchStack { seq, bytes, stop_generation } => {
            assert_eq!(seq, 1);
            assert_eq!(stop_generation, 1);
            let text = String::from_utf8(bytes).unwrap();
            assert!(text.contains("\"command\":\"stackTrace\""), "{text}");
            assert!(text.contains("\"threadId\":3"), "{text}");
        }
        other => panic!("{other:?}"),
    }
    assert_eq!(state.current_thread, Some(3));
    assert!(!state.pending_is_unscoped);
    assert_eq!(driver.next_seq, 2);
    assert_eq!(driver.pending.len(), 1);
}

#[test]
fn a_request_is_answered_once_and_only_in_flight() {
    let mut state = State::new();
    let mut driver = Driver::new();
    let (seq, bytes) = driver.begin_call(&mut state, "threads", Json::Object(Vec::new()), false);
    driver.call_sent(seq, "threads");
    let text = String::from_utf8(bytes).unwrap();
    assert!(text.starts_with("Content-Length: "), "{text}");
    assert!(text.contains("\"type\":\"request\""), "{text}");
    let reply = json("{\"type\":\"response\",\"request_seq\":1,\"success\":true,\"body\":{\"threads\":[]}}");
    match driver.dispatch_incoming(&mut state, &reply) {
        Action::Reply { seq: 1, result: Ok(body) } => {
            assert_eq!(json_text(&body), "{\"threads\":[]}");
        }
        other => panic!("{other:?}"),
    }
    assert!(matches!(driver.dispatch_incoming(&mut state, &reply), Action::Nothing));
}

#[test]
fn a_refused_request_is_answered_with_its_message() {
    let mut state = State::new();
    let mut driver = Driver::new();
    let (seq, _) = driver.begin_call(&mut state, "evaluate", Json::Null, false);
    driver.call_sent(seq, "evaluate");
    let reply = json("{\"type\":\"response\",\"request_seq\":1,\"success\":false,\"message\":\"no such variable\"}");
    match driver.dispatch_incoming(&mut state, &reply) {
        Action::Reply { result: Err(text), .. } => assert!(text.contains("no such variable")),
        other => panic!("{other:?}"),
    }
}

#[test]
fn messages_are_read_out_of_the_byte_stream() {
    let mut state = State::new();
    let mut driver = Driver::new();
    assert!(matches!(driver.next_message(&mut state), Incoming::NeedMore));
    let event = "{\"type\":\"event\",\"event\":\"output\",\"body\":{\"output\":\"hello\\n\"}}";
    let frame = format!("Content-Length: {}\r\n\r\n{}", event.len(), event);
    driver.receive(frame.as_bytes());
    match driver.next_message(&mut state) {
        Incoming::Message(Action::Output(text)) => assert_eq!(text, "hello\n"),
        other => panic!("{other:?}"),
    }
    driver.receive(b"Content-Length: 3\r\n\r\n{x}");
    assert!(matches!(driver.next_message(&mut state), Incoming::Dropped));
    assert!(matches!(driver.next_message(&mut state), Incoming::NeedMore));
}

#[test]
fn output_of_another_category_is_not_shown() {
    let mut state = State::new();
    let mut driver = Driver::new();
    let telemetry =
        json("{\"type\":\"event\",\"event\":\"output\",\"body\":{\"category\":\"telemetry\",\"output\":\"x\"}}");
    assert!(matches!(driver.dispatch_incoming(&mut state, &telemetry), Action::Nothing));
}

#[test]
fn the_life_of_a_session_follows_the_events() {
    let mut state = State::new();
    let mut driver = Driver::new();
    assert!(state.alive && !state.initialized && !state.paused);
    driver.dispatch_incoming(&mut state, &json("{\"type\":\"event\",\"event\":\"initialized\"}"));
    assert!(state.initialized);
    driver.dispatch_incoming(&mut state, &json(STOPPED));
    assert!(state.paused);
    driver.dispatch_incoming(&mut state, &json("{\"type\":\"event\",\"event\":\"continued\"}"));
    assert!(!state.paused);
    let named = json("{\"type\":\"event\",\"event\":\"process\",\"body\":{\"systemProcessId\":77}}");
    assert!(matches!(driver.dispatch_incoming(&mut state, &named), Action::Identify(77)));
    driver.dispatch_incoming(&mut state, &json("{\"type\":\"event\",\"event\":\"exited\"}"));
    assert!(state.terminated && !state.alive);
}

#[test]
fn an_armed_request_owns_the_next_stop() {
    let mut state = State::new();
    let mut driver = Driver::new();
    state.begin_action();
    let generation = state.action_generation;
    driver.begin_call(&mut state, "continue", Json::Null, true);
    assert_eq!(state.armed_action_generation, generation);
    driver.dispatch_incoming(&mut state, &json(STOPPED));
    assert_eq!(state.pending_action_generation, generation);
    assert!(state.take_pending_hit().is_some());
    assert!(state.take_pending_hit().is_none());
}

#[test]
fn frames_of_an_earlier_stop_are_ignored() {
    let mut state = State::new();
    state.stop_generation = 8;
    let body = json("{\"stackFrames\":[{\"name\":\"f\",\"line\":1}]}");
    assert!(!handle_stack_response(&mut state, &body, 7));
    assert!(state.call_frames.is_empty());
    assert!(handle_stack_response(&mut state, &body, 8));
    assert_eq!(state.call_frames.len(), 1);
    assert_eq!(state.pending_hit.unwrap().frame_symbol.as_deref(), Some("f"));
}

#[test]
fn pending_requests_are_drained_when_the_connection_ends() {
    let mut state = State::new();
    let mut driver = Driver::new();
    for command in ["threads", "scopes"] {
        let (seq, _) = driver.begin_call(&mut state, command, Json::Null, false);
        driver.call_sent(seq, command);
    }
    let drained: Vec<(i64, String)> =
        driver.drain_pending().into_iter().map(|call| (call.seq, call.command)).collect();
    assert_eq!(drained, vec![(1, "threads".to_string()), (2, "scopes".to_string())]);
    assert!(driver.pending.is_empty());
}

#[test]
fn a_stack_is_asked_for_one_thread() {
    assert!(json_text(&stack_trace_arguments(5)).contains("\"threadId\":5"));
}

#[test]
fn numbers_keep_their_text() {
    for text in ["1.5", "-0.25", "1e300", "5e-324", "0.1", "4.35", "123456789.12345679", "1.0"] {
        let value = json(text);
        let written = json_text(&value);
        assert_eq!(json_text(&json(&written)), written, "{text}");
    }
    assert_eq!(json_text(&json("[1.5,{\"a\":2.5}]")), "[1.5,{\"a\":2.5}]");
    assert_eq!(json_text(&json("18446744073709551615")), "18446744073709551615");
}

#[test]
fn a_sent_request_reads_back() {
    let mut state = State::new();
    let mut driver = Driver::new();
    let arguments = json("{\"rate\":0.3,\"name\":\"\u{e9}\\n\",\"path\":[1,null,true]}");
    let expected = "{\"arguments\":{\"name\":\"\u{e9}\\n\",\"path\":[1,null,true],\"rate\":0.3},\
                    \"command\":\"launch\",\"seq\":1,\"type\":\"request\"}";
    let (_, bytes) = driver.begin_call(&mut state, "launch", arguments, false);
    let mut decoder = DapFrameDecoder::new();
    decoder.inbox.extend_from_slice(&bytes);
    decoder.inbox.extend_from_slice(b"Content-");
    let body = decoder.next_frame().unwrap().unwrap();
    assert_eq!(json_text(&parse_json(&body).unwrap()), expected);
    assert_eq!(decoder.inbox, b"Content-");
}

#[test]
fn nesting_is_read_down_to_its_limit() {
    let nested = |depth: usize| format!("{}{}", "[".repeat(depth), "]".repeat(depth));
    let deepest = DEEPEST_NESTING as usize;
    assert_eq!(json_text(&json(&nested(deepest))), nested(deepest));
    assert!(parse_json(nested(deepest + 1).as_bytes()).is_none());
}

#[test]
fn the_highest_thread_that_stopped_is_current() {
    let mut state = State::new();
    let mut driver = Driver::new();
    let mut stop = |state: &mut State, body: &str| {
        let message = format!("{{\"type\":\"event\",\"event\":\"stopped\",\"body\":{body}}}");
        driver.dispatch_incoming(state, &json(&message));
        state.current_thread
    };
    assert_eq!(stop(&mut state, "{}"), None);
    assert_eq!(stop(&mut state, "{\"threadId\":5}"), Some(5));
    assert_eq!(stop(&mut state, "{\"threadId\":3}"), Some(5));
    assert_eq!(stop(&mut state, "{}"), Some(5));
    assert_eq!(stop(&mut state, "{\"threadId\":8}"), Some(8));
}

#[test]
fn a_stop_ends_the_selection_of_a_thread() {
    let mut state = State::new();
    let mut driver = Driver::new();
    let mut stop = |state: &mut State, body: &str| {
        let message = format!("{{\"type\":\"event\",\"event\":\"stopped\",\"body\":{body}}}");
        driver.dispatch_incoming(state, &json(&message));
        state.current_thread
    };
    state.select_thread(7);
    assert_eq!(stop(&mut state, "{\"threadId\":3}"), Some(3));
    state.select_thread(2);
    assert_eq!(stop(&mut state, "{\"threadId\":1}"), Some(3));
    state.select_thread(9);
    assert_eq!(stop(&mut state, "{}"), Some(3));
    assert_eq!(stop(&mut state, "{\"threadId\":4}"), Some(4));
}

#[test]
fn a_new_request_forgets_the_stop_of_an_earlier_one() {
    let mut state = State::new();
    state.paused = true;
    state.pending_hit = Some(HitEvent::unknown());
    state.begin_wait();
    assert!(state.pending_hit.is_none());
    assert!(!state.paused);
    state.pending_hit = Some(HitEvent::unknown());
    state.pending_is_unscoped = true;
    state.begin_wait();
    assert!(state.pending_hit.is_some());
}
