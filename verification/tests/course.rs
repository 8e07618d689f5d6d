use gdbg::breakpoints::SetCommand;
use gdbg::course::{begin, pause_answer, pause_refused, resume, Step, Task};
use gdbg::debug_command::parse_command;
use gdbg::json::{json_text, parse_json, Json};
use gdbg::launch::{after_stage, Stage, StageError};
use gdbg::session::State;

fn json(text: &str) -> Json {
    parse_json(text.as_bytes()).unwrap()
}

fn run(state: &mut State, line: &str) -> Step {
    begin(state, parse_command(line), Some("/w"))
}

/// Feeds the replies to a command; gives the requests that it made and the step
/// at which it stands then.
fn feed(state: &mut State, line: &str, replies: Vec<Result<Json, String>>) -> (Vec<String>, Step) {
    let mut step = run(state, line);
    let mut sent = Vec::new();
    for reply in replies {
        match step {
            Step::Call { command, arguments, next } => {
                sent.push(format!("{command} {}", json_text(&arguments)));
                step = resume(state, next, reply);
            }
            other => panic!("no request to answer: {other:?}"),
        }
    }
    (sent, step)
}

fn stopped() -> State {
    let mut state = State::new();
    state.record_frames(&json(
        "{\"stackFrames\":[{\"id\":5,\"name\":\"f\",\"line\":3,\"source\":{\"path\":\"/s.c\"}}]}",
    ));
    state
}

fn done(step: Step) -> String {
    match step {
        Step::Done(text) => text,
        other => panic!("not done: {other:?}"),
    }
}

fn failed(step: Step) -> String {
    match step {
        Step::Failed(text) => text,
        other => panic!("not failed: {other:?}"),
    }
}

#[test]
fn an_execution_command_is_a_new_action() {
    let mut state = State::new();
    state.current_thread = Some(4);
    match run(&mut state, "n") {
        Step::Execute { command, arguments } => {
            assert_eq!(command, "next");
            assert_eq!(json_text(&arguments), "{\"threadId\":4}");
        }
        other => panic!("{other:?}"),
    }
    assert_eq!(state.action_generation, 1);
}

#[test]
fn an_expression_is_evaluated_in_the_frame() {
    let mut state = stopped();
    let (sent, step) = feed(&mut state, "p x + 1", vec![Ok(json("{\"result\":\"7\"}"))]);
    assert_eq!(sent, vec!["evaluate {\"context\":\"repl\",\"expression\":\"x + 1\",\"frameId\":5}"]);
    assert_eq!(done(step), "7");
    let (_, step) = feed(&mut state, "p y", vec![Err("DAP evaluate: no y".to_string())]);
    assert_eq!(failed(step), "DAP evaluate: no y");
}

#[test]
fn an_assignment_falls_back_to_the_scopes() {
    let mut state = stopped();
    let (sent, step) = feed(
        &mut state,
        "set x = 2",
        vec![
            Err("DAP setExpression: Not yet implemented".to_string()),
            Ok(json("{\"scopes\":[{\"variablesReference\":10},{\"variablesReference\":0},{\"variablesReference\":11}]}")),
            Ok(json("{\"variables\":[{\"name\":\"y\"}]}")),
            Ok(json("{\"variables\":[{\"name\":\"x\"}]}")),
            Ok(json("{\"value\":\"2\"}")),
        ],
    );
    assert_eq!(
        sent,
        vec![
            "setExpression {\"expression\":\"x\",\"frameId\":5,\"value\":\"2\"}",
            "scopes {\"frameId\":5}",
            "variables {\"variablesReference\":10}",
            "variables {\"variablesReference\":11}",
            "setVariable {\"name\":\"x\",\"value\":\"2\",\"variablesReference\":11}",
        ]
    );
    assert_eq!(done(step), "2");
}

#[test]
fn a_variable_that_is_nowhere_is_not_set() {
    let mut state = stopped();
    let (_, step) = feed(
        &mut state,
        "set x = 2",
        vec![
            Err("DAP setExpression: request failed".to_string()),
            Ok(json("{\"scopes\":[{\"variablesReference\":10}]}")),
            Ok(json("{\"variables\":[]}")),
        ],
    );
    assert_eq!(failed(step), "variable `x` not found in any frame scope");
    let (_, step) =
        feed(&mut state, "set x = 2", vec![Err("DAP setExpression: type mismatch".to_string())]);
    assert_eq!(failed(step), "DAP setExpression: type mismatch");
    assert_eq!(failed(run(&mut state, "set x")), "usage: dbg set <lhs> = <expr>");
    let mut running = State::new();
    let (_, step) =
        feed(&mut running, "set x = 2", vec![Err("DAP setExpression: unsupported".to_string())]);
    assert_eq!(failed(step), "no active frame");
}

#[test]
fn locals_come_from_every_scope_of_the_frame() {
    let mut state = stopped();
    let (sent, step) = feed(
        &mut state,
        "locals",
        vec![
            Ok(json("{\"scopes\":[{\"name\":\"Locals\",\"variablesReference\":1},{\"name\":\"Globals\",\"variablesReference\":2},{\"name\":\"Closure\",\"variablesReference\":3}]}")),
            Ok(json("{\"variables\":[{\"name\":\"a\",\"value\":\"1\"},{\"name\":\"n\"}]}")),
            Ok(json("{\"variables\":[{\"name\":\"a\",\"value\":\"9\"},{\"name\":\"b\",\"value\":\"2\"}]}")),
        ],
    );
    assert_eq!(sent[1..], ["variables {\"variablesReference\":1}", "variables {\"variablesReference\":3}"]);
    assert_eq!(done(step), "{\"a\":\"1\",\"b\":\"2\",\"n\":null}");
    assert_eq!(failed(run(&mut State::new(), "locals")), "locals: not paused");
}

#[test]
fn a_pause_goes_to_the_threads_that_there_are() {
    let mut state = State::new();
    let (sent, step) =
        feed(&mut state, "pause", vec![Ok(json("{\"threads\":[{\"id\":1},{\"id\":2}]}"))]);
    assert_eq!(sent, vec!["threads {}"]);
    assert!(matches!(step, Step::Pause(ids) if ids == vec![1, 2]));
    assert_eq!(state.action_generation, 1);
    let (_, step) = feed(&mut state, "pause", vec![Ok(json("{}"))]);
    assert_eq!(failed(step), "pause: adapter reported no DAP threads to pause");
    assert_eq!(state.action_generation, 1);
    state.current_thread = Some(8);
    assert!(matches!(run(&mut state, "pause"), Step::Pause(ids) if ids == vec![8]));
}

#[test]
fn a_pause_ends_in_one_of_three_ways() {
    assert_eq!(pause_refused(1, Some("no".to_string())).as_deref(), Some("no"));
    assert_eq!(pause_refused(2, Some("no".to_string())), None);
    assert_eq!(pause_answer(Ok(()), &[1], None).unwrap(), "paused");
    assert_eq!(pause_answer(Err("gone".to_string()), &[1], None).unwrap_err(), "gone");
    let late = "timeout waiting for stopped event".to_string();
    assert!(pause_answer(Err(late), &[1, 2], Some(3)).unwrap_err().contains("[1, 2] in attached pid 3"));
}

#[test]
fn a_restart_forgets_the_old_program() {
    let mut state = stopped();
    state.launched_pid = Some(44);
    let (sent, step) = feed(&mut state, "restart", vec![Ok(json("{}"))]);
    assert_eq!(sent, vec!["restart {}"]);
    assert!(matches!(step, Step::TrackRestart));
    assert!(state.call_frames.is_empty());
    assert_eq!(state.launched_pid, None);
}

#[test]
fn a_thread_is_selected_even_without_frames() {
    let mut state = stopped();
    let (sent, step) = feed(&mut state, "thread 3", vec![Err("DAP stackTrace: timeout".to_string())]);
    assert_eq!(sent, vec!["stackTrace {\"levels\":20,\"startFrame\":0,\"threadId\":3}"]);
    assert_eq!(done(step), "switched to thread 3");
    assert_eq!(state.current_thread, Some(3));
    assert_eq!(state.call_frames.len(), 1);
    let (_, step) = feed(&mut state, "thread 4", vec![Ok(json("{\"stackFrames\":[]}"))]);
    assert_eq!(done(step), "switched to thread 4");
    assert!(state.call_frames.is_empty());
}

#[test]
fn exceptions_are_caught_by_filters() {
    let mut state = State::new();
    let (sent, step) = feed(&mut state, "catch raised uncaught", vec![Ok(json("{}"))]);
    assert_eq!(sent, vec!["setExceptionBreakpoints {\"filters\":[\"raised\",\"uncaught\"]}"]);
    assert_eq!(done(step), "exception breakpoints: raised, uncaught");
    let (sent, step) = feed(&mut state, "catch off", vec![Ok(json("{}"))]);
    assert_eq!(sent, vec!["setExceptionBreakpoints {\"filters\":[]}"]);
    assert_eq!(done(step), "exception breakpoints cleared");
}

#[test]
fn commands_that_need_no_request_answer_at_once() {
    let mut state = stopped();
    assert_eq!(done(run(&mut state, "bt")), "#0 f at /s.c:3");
    assert_eq!(done(run(&mut state, "breakpoints")), "(no breakpoints set)");
    assert!(matches!(run(&mut state, "list"), Step::ReadSource { path, line: 3 } if path == "/s.c"));
    assert_eq!(failed(run(&mut state, "list x")), "list: expected file:line");
    assert_eq!(failed(run(&mut state, "list x:y")), "list: invalid line number");
    assert_eq!(failed(run(&mut State::new(), "list")), "list: no current frame");
    assert_eq!(failed(run(&mut state, "delete x")), "delete: invalid breakpoint id");
    assert_eq!(failed(run(&mut state, "dance")), "dap: unsupported command `dance`");
    assert!(matches!(run(&mut state, "quit"), Step::Exit));
    let (_, step) = feed(&mut state, "threads", vec![Ok(json("{\"threads\":[]}"))]);
    assert!(matches!(step, Step::ListThreads(_)));
}

#[test]
fn a_change_of_breakpoints_is_sent_and_finished() {
    let mut state = State::new();
    match run(&mut state, "break a.c:7 if n > 2") {
        Step::Change(change) => {
            assert!(matches!(change.command, SetCommand::SetBreakpoints));
            let text = json_text(&change.arguments);
            assert!(text.contains("/w/a.c"), "{text}");
            assert!(text.contains("\"condition\":\"n > 2\""), "{text}");
            let reply = Ok(json("{\"breakpoints\":[{\"verified\":true}]}"));
            state.breakpoints.finish(change, reply).unwrap();
        }
        other => panic!("{other:?}"),
    }
    assert_eq!(done(run(&mut state, "breakpoints")), "1: /w/a.c:7");
    assert!(matches!(run(&mut state, "bfn main"), Step::Change(_)));
    assert!(failed(run(&mut state, "delete 0")).contains("start at 1"));
    assert!(failed(run(&mut state, "delete 9")).contains("no breakpoint id 9"));
}

#[test]
fn a_task_is_resumed_with_its_reply() {
    let mut state = State::new();
    let step = resume(&mut state, Task::Confirm("fine".to_string()), Ok(Json::Null));
    assert_eq!(done(step), "fine");
}

#[test]
fn a_handshake_goes_through_its_stages() {
    let mut stage = Stage::Initialize;
    let mut seen = vec![stage];
    while stage != Stage::Ready {
        stage = after_stage(stage, Ok(()), false, None).unwrap();
        seen.push(stage);
    }
    assert_eq!(
        seen,
        vec![
            Stage::Initialize,
            Stage::SendLaunch,
            Stage::AwaitInitialized,
            Stage::Configure,
            Stage::AwaitLaunch,
            Stage::Ready,
        ]
    );
    let refused = || StageError::Refused("no".to_string());
    let error = |stage, e, attach, pid| after_stage(stage, Err(e), attach, pid).unwrap_err();
    assert_eq!(error(Stage::Initialize, refused(), false, None), "DAP initialize: no");
    assert_eq!(error(Stage::Initialize, StageError::TimedOut, false, None), "DAP initialize: timeout");
    assert_eq!(error(Stage::SendLaunch, StageError::Gone, false, None), "DAP driver thread gone");
    assert_eq!(
        error(Stage::AwaitInitialized, StageError::TimedOut, false, None),
        "timeout waiting for DAP initialized event"
    );
    assert_eq!(
        error(Stage::AwaitInitialized, StageError::Gone, false, None),
        "adapter terminated before initialized event"
    );
    assert_eq!(error(Stage::Configure, refused(), false, Some(3)), "DAP configurationDone: no");
    assert!(error(Stage::Configure, refused(), true, Some(3)).contains("attaching to pid 3"));
    assert_eq!(error(Stage::AwaitLaunch, refused(), false, None), "DAP launch: no");
    assert_eq!(
        error(Stage::AwaitLaunch, StageError::TimedOut, false, None),
        "DAP launch: timeout waiting for response"
    );
}
