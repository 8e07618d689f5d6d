use gdbg::debug_command::{
    add_locals, answer_field, catch_answer, dap_thread_ids, evaluate_arguments,
    execution_arguments, execution_request, filter_arguments, format_backtrace, frame_id,
    has_variable, is_unsupported_message, list_source, list_threads, locals_answer,
    looks_unsupported, no_locals, parse_assignment, parse_command, pause_timeout,
    scope_references, scopes_arguments, set_expression_arguments, set_variable_arguments,
    source_location, thread_answer, variables_arguments, Command, Execution, ListError,
};
use gdbg::json::{json_text, parse_json, Json};
use gdbg::session::State;

fn json(text: &str) -> Json {
    parse_json(text.as_bytes()).unwrap()
}

#[test]
fn lines_stand_for_commands() {
    assert!(matches!(parse_command(" c "), Command::Execute(Execution::Continue)));
    assert!(matches!(parse_command("stepi"), Command::Execute(Execution::StepIn)));
    assert!(matches!(parse_command("n"), Command::Execute(Execution::Next)));
    assert!(matches!(parse_command("finish"), Command::Execute(Execution::StepOut)));
    assert!(matches!(parse_command("pause"), Command::Pause));
    assert!(matches!(parse_command("restart"), Command::Restart));
    assert!(matches!(parse_command("catch off"), Command::CatchNothing));
    assert!(matches!(parse_command("bt"), Command::Backtrace));
    assert!(matches!(parse_command("delete 3"), Command::DeleteBreakpoint(3)));
    assert!(matches!(parse_command("delete x"), Command::InvalidBreakpointId));
    assert!(matches!(parse_command("locals"), Command::Locals));
    assert!(matches!(parse_command("thread list"), Command::Threads));
    assert!(matches!(parse_command("thread -4"), Command::SelectThread(-4)));
    assert!(matches!(parse_command("list"), Command::ListSource(None)));
    assert!(matches!(parse_command("quit"), Command::Exit));
    match parse_command("catch raised, uncaught") {
        Command::Catch(filters) => assert_eq!(filters, vec!["raised", "uncaught"]),
        other => panic!("{other:?}"),
    }
    match parse_command("bfn run if x > 1") {
        Command::BreakFunction { name, condition } => {
            assert_eq!(name, "run");
            assert_eq!(condition.as_deref(), Some("x > 1"));
        }
        other => panic!("{other:?}"),
    }
    match parse_command("break a.c:3") {
        Command::Break(b) => assert_eq!((b.file.as_str(), b.line), ("a.c", 3)),
        other => panic!("{other:?}"),
    }
    match parse_command("p x + 1") {
        Command::Print(e) => assert_eq!(e, "x + 1"),
        other => panic!("{other:?}"),
    }
    match parse_command("set x = 2") {
        Command::Assign(rest) => {
            let sides = parse_assignment(&rest).unwrap();
            assert_eq!(sides, ("x".to_string(), "2".to_string()));
        }
        other => panic!("{other:?}"),
    }
    assert!(matches!(parse_command("dance"), Command::Unsupported(_)));
}

#[test]
fn an_assignment_has_two_sides() {
    assert_eq!(parse_assignment("x"), None);
    assert_eq!(parse_assignment("= 1"), None);
    assert_eq!(parse_assignment("a == b"), Some(("a".to_string(), "= b".to_string())));
}

#[test]
fn execution_goes_to_the_thread_of_the_last_stop() {
    let mut state = State::new();
    assert_eq!(json_text(&execution_arguments(&state)), "{\"threadId\":1}");
    state.current_thread = Some(9);
    assert_eq!(json_text(&execution_arguments(&state)), "{\"threadId\":9}");
    assert_eq!(execution_request(Execution::Continue), "continue");
    assert_eq!(execution_request(Execution::StepIn), "stepIn");
    assert_eq!(execution_request(Execution::Next), "next");
    assert_eq!(execution_request(Execution::StepOut), "stepOut");
}

#[test]
fn requests_carry_their_arguments() {
    let filters = vec!["raised".to_string(), "uncaught".to_string()];
    assert_eq!(json_text(&filter_arguments(&filters)), "{\"filters\":[\"raised\",\"uncaught\"]}");
    assert_eq!(catch_answer(&filters), "exception breakpoints: raised, uncaught");
    assert_eq!(
        json_text(&evaluate_arguments("x", Some(4))),
        "{\"context\":\"repl\",\"expression\":\"x\",\"frameId\":4}"
    );
    assert_eq!(
        json_text(&set_expression_arguments("x", "1", None)),
        "{\"expression\":\"x\",\"value\":\"1\"}"
    );
    assert_eq!(json_text(&scopes_arguments(2)), "{\"frameId\":2}");
    assert_eq!(json_text(&variables_arguments(7)), "{\"variablesReference\":7}");
    assert_eq!(
        json_text(&set_variable_arguments(7, "x", "1")),
        "{\"name\":\"x\",\"value\":\"1\",\"variablesReference\":7}"
    );
}

#[test]
fn adapters_refuse_in_many_words() {
    assert!(looks_unsupported("Request NOT SUPPORTED by adapter"));
    assert!(is_unsupported_message("not supported"));
    assert!(!looks_unsupported("undefined variable"));
}

#[test]
fn locals_are_gathered_by_name() {
    let reply = json(
        "{\"variables\":[{\"name\":\"b\",\"value\":\"2\"},{\"name\":\"a\",\"value\":\"1\",\"type\":\"int\"}]}",
    );
    let mut locals = no_locals();
    add_locals(&mut locals, &reply);
    let text = locals_answer(&locals);
    assert!(text.contains("\"a\""), "{text}");
    assert!(text.contains("\"b\""), "{text}");
    assert!(has_variable(&reply, "a"));
    assert!(!has_variable(&reply, "c"));
}

#[test]
fn scopes_name_their_variables() {
    let reply = json(
        "{\"scopes\":[{\"name\":\"Locals\",\"variablesReference\":3},{\"name\":\"Globals\",\"variablesReference\":4}]}",
    );
    assert_eq!(scope_references(&reply, true), vec![3]);
    assert_eq!(scope_references(&reply, false), vec![3, 4]);
}

#[test]
fn a_backtrace_lists_the_frames() {
    let mut state = State::new();
    assert_eq!(format_backtrace(&state), "(no frames \u{2014} program not paused)");
    let reply = json(
        "{\"stackFrames\":[{\"id\":11,\"name\":\"inner\",\"line\":3,\"source\":{\"path\":\"a.c\"}},{\"name\":\"main\",\"line\":9}]}",
    );
    state.record_frames(&reply);
    assert_eq!(format_backtrace(&state), "#0 inner at a.c:3\n#1 main at ?:9");
    assert_eq!(frame_id(&state), Some(11));
    assert_eq!(source_location(&state, None), Ok(("a.c".to_string(), 3)));
}

#[test]
fn a_source_location_is_a_file_and_a_line() {
    let mut state = State::new();
    assert_eq!(source_location(&state, Some("b.c: 12")), Ok(("b.c".to_string(), 12)));
    assert_eq!(source_location(&state, Some("b.c")), Err(ListError::ExpectedLocation));
    assert_eq!(source_location(&state, Some("b.c:x")), Err(ListError::InvalidLine));
    assert_eq!(source_location(&state, None), Err(ListError::NoFrame));
    state.record_frames(&json("{\"stackFrames\":[{\"name\":\"f\"}]}"));
    assert_eq!(source_location(&state, None), Err(ListError::NoSource));
}

#[test]
fn a_listing_shows_ten_lines_around() {
    let source: String = (1..=40).map(|n| format!("line {n}\n")).collect();
    let listing = list_source(&source, 20);
    let shown: Vec<&str> = listing.lines().collect();
    assert_eq!(shown.len(), 21);
    assert_eq!(shown[0], "      10  line 10");
    assert_eq!(shown[10], "->    20  line 20");
    assert_eq!(shown[20], "      30  line 30");
    assert_eq!(list_source("only", 1), "->     1  only\n");
}

#[test]
fn threads_are_listed_with_the_current_one_marked() {
    let reply = json("{\"threads\":[{\"id\":1,\"name\":\"main\"},{\"id\":2,\"name\":\"io\"}]}");
    assert_eq!(dap_thread_ids(&reply), vec![1, 2]);
    assert_eq!(list_threads(&reply, &[], Some(2), None), "  1  main\n* 2  io");
    let noted = list_threads(&reply, &[1, 2, 3], None, Some(44));
    assert!(noted.ends_with("(note: adapter exposed 2 DAP thread(s), but /proc/44/task has 3 OS thread(s); only DAP ids are switchable)"), "{noted}");
    assert_eq!(list_threads(&json("{}"), &[], None, None), "(no threads)");
    assert!(list_threads(&json("{}"), &[8], None, None).ends_with("  8  <os thread>"));
    assert_eq!(thread_answer(-3), "switched to thread -3");
}

#[test]
fn a_pause_that_stops_nothing_names_the_threads() {
    assert_eq!(
        pause_timeout(&[1, 2], Some(9)),
        "timeout waiting for stopped event after pause requested for DAP thread(s) [1, 2] in attached pid 9; the adapter may not be able to interrupt this runtime state"
    );
}

#[test]
fn an_answer_without_the_field_is_empty() {
    assert_eq!(answer_field(&json("{\"result\":\"5\"}"), "result"), "5");
    assert_eq!(answer_field(&json("{}"), "result"), "");
}

#[test]
fn json_texts_are_read_and_written() {
    let value = json("{\"b\":[1,-2,true,null],\"a\":1.5,\"s\":\"q\\\"\"}");
    assert_eq!(json_text(&value), "{\"a\":1.5,\"b\":[1,-2,true,null],\"s\":\"q\\\"\"}");
    assert_eq!(value.get_array("b").unwrap().len(), 4);
    assert_eq!(value.get_i64("a"), None);
    assert_eq!(value.get_str("s"), Some("q\""));
    assert!(parse_json(b"{\"a\":").is_none());
    assert!(parse_json(b"\xff").is_none());
}
