use gdbg::breakpoints::{
    allocate_breakpoint_id, breakpoint_response_verified, function_breakpoint_value,
    function_breakpoints_verified, parse_break, resolve_breakpoint_path_from, BreakLoc, BreakSpec,
    BreakpointError, Breakpoints, FunctionBreakpoint, LineBreakpoint, PendingChange, SetCommand,
};
use gdbg::debug_command::{parse_command, Command};
use gdbg::json::{json_text, parse_json, Json};

/// An adapter that answers with prepared replies.
struct Adapter {
    replies: Vec<Result<Json, String>>,
    calls: usize,
}

impl Adapter {
    fn new(replies: Vec<Result<Json, String>>) -> Adapter {
        Adapter { replies, calls: 0 }
    }

    fn settle(
        &mut self,
        table: &mut Breakpoints,
        change: Result<PendingChange, BreakpointError>,
    ) -> Result<String, BreakpointError> {
        let change = change?;
        self.calls += 1;
        let reply = if self.replies.is_empty() { Ok(verified(0)) } else { self.replies.remove(0) };
        table.finish(change, reply)
    }

    fn set(&mut self, table: &mut Breakpoints, spec: &BreakSpec) -> Result<String, BreakpointError> {
        let change = table.begin_set_breakpoint(spec, None);
        self.settle(table, change)
    }

    fn set_function(&mut self, table: &mut Breakpoints) -> Result<String, BreakpointError> {
        let change = table.begin_set_function_breakpoint("worker", Some("ready"), Some("hit"));
        self.settle(table, change)
    }

    fn run(&mut self, table: &mut Breakpoints, line: &str) -> Result<String, BreakpointError> {
        match parse_command(line) {
            Command::ListBreakpoints => Ok(table.format_breakpoints()),
            Command::DeleteBreakpoint(id) => {
                let change = table.begin_delete_breakpoint(id);
                self.settle(table, change)
            }
            other => panic!("not a breakpoint command: {other:?}"),
        }
    }
}

fn json(text: &str) -> Json {
    parse_json(text.as_bytes()).unwrap()
}

fn verified(count: usize) -> Json {
    let entries: Vec<&str> = (0..count).map(|_| "{\"verified\":true}").collect();
    json(&format!("{{\"breakpoints\":[{}]}}", entries.join(",")))
}

fn spec(file: &str, line: u32) -> BreakSpec {
    BreakSpec { file: file.to_string(), line, condition: None, log_message: None }
}

fn full_spec(file: &str, line: u32, condition: &str, log: &str) -> BreakSpec {
    BreakSpec {
        file: file.to_string(),
        line,
        condition: Some(condition.to_string()),
        log_message: Some(log.to_string()),
    }
}

fn assert_no_breakpoint_state(table: &Breakpoints, next_id: u32) {
    assert!(table.lines.is_empty());
    assert!(table.functions.is_empty());
    assert_eq!(table.next_breakpoint_id, next_id);
}

#[test]
fn line_breakpoint_id_exhaustion() {
    let mut table = Breakpoints::new();
    let mut adapter = Adapter::new(Vec::new());
    table.next_breakpoint_id = 0;
    let error = adapter.set(&mut table, &full_spec("main.rs", 10, "ready", "hit")).unwrap_err();
    assert!(error.message().contains("id space exhausted"), "unexpected error: {error:?}");
    assert_eq!(adapter.calls, 0);
    assert_no_breakpoint_state(&table, 0);
}

#[test]
fn function_breakpoint_id_exhaustion() {
    let mut table = Breakpoints::new();
    let mut adapter = Adapter::new(Vec::new());
    table.next_breakpoint_id = 0;
    let error = adapter.set_function(&mut table).unwrap_err();
    assert!(error.message().contains("id space exhausted"), "unexpected error: {error:?}");
    assert_eq!(adapter.calls, 0);
    assert_no_breakpoint_state(&table, 0);
}

#[test]
fn breakpoint_id_exhaustion_does_not_reuse_ids() {
    let mut occupied = Breakpoints::new();
    occupied.next_breakpoint_id = 42;
    occupied.lines.push(LineBreakpoint {
        file: "occupied.rs".to_string(),
        line: 1,
        id: 42,
        condition: None,
        log_message: None,
    });
    occupied.functions.push(FunctionBreakpoint {
        name: "occupied".to_string(),
        id: 43,
        condition: None,
        log_message: None,
    });
    assert_eq!(allocate_breakpoint_id(&mut occupied).unwrap(), 44);
    assert_eq!(occupied.lines[0].id, 42);
    assert_eq!(occupied.functions[0].id, 43);

    occupied.next_breakpoint_id = u32::MAX;
    occupied.functions.push(FunctionBreakpoint {
        name: "maximum".to_string(),
        id: u32::MAX,
        condition: None,
        log_message: None,
    });
    assert!(allocate_breakpoint_id(&mut occupied).is_err());
    assert_eq!(occupied.next_breakpoint_id, u32::MAX);
    assert_eq!(occupied.functions[1].id, u32::MAX);

    let mut table = Breakpoints::new();
    let mut adapter = Adapter::new(vec![Ok(verified(1))]);
    table.next_breakpoint_id = u32::MAX;
    adapter.set(&mut table, &spec("first.rs", 1)).unwrap();
    let error = adapter.set(&mut table, &full_spec("second.rs", 2, "retry", "retry")).unwrap_err();
    assert!(error.message().contains("id space exhausted"), "unexpected error: {error:?}");
    assert_eq!(adapter.calls, 1);
    let listing = adapter.run(&mut table, "breakpoints").unwrap();
    assert!(listing.contains(&u32::MAX.to_string()));
    assert!(!listing.contains("second.rs"));
    assert_eq!(table.next_breakpoint_id, 0);
    assert_eq!(table.lines.len(), 1);
}

#[test]
fn breakpoint_adapter_rejection_rolls_back_and_retry_succeeds() {
    let mut table = Breakpoints::new();
    let mut adapter = Adapter::new(vec![
        Err("adapter rejected breakpoint".to_string()),
        Ok(verified(1)),
        Ok(verified(0)),
        Ok(verified(1)),
    ]);
    let wanted = full_spec("retry.rs", 7, "ready", "hit");
    assert!(adapter.set(&mut table, &wanted).is_err());
    assert_no_breakpoint_state(&table, 1);

    adapter.set(&mut table, &wanted).unwrap();
    let listing = adapter.run(&mut table, "breakpoints").unwrap();
    assert!(listing.contains("retry.rs:7"));
    assert!(listing.starts_with("1:"));

    adapter.run(&mut table, "breakpoint delete 1").unwrap();
    assert_eq!(adapter.run(&mut table, "breakpoints").unwrap(), "(no breakpoints set)");

    adapter.set(&mut table, &spec("after.rs", 3)).unwrap();
    let listing = adapter.run(&mut table, "breakpoints").unwrap();
    assert!(listing.starts_with("2:"));
    assert!(listing.contains("after.rs:3"));
    assert_eq!(adapter.calls, 4);
}

#[test]
fn function_breakpoint_adapter_rejection_rolls_back_and_retry_succeeds() {
    let mut table = Breakpoints::new();
    let mut adapter =
        Adapter::new(vec![Ok(json("{\"breakpoints\":[{\"verified\":false}]}")), Ok(verified(1))]);
    assert!(adapter.set_function(&mut table).is_err());
    assert_no_breakpoint_state(&table, 1);

    adapter.set_function(&mut table).unwrap();
    assert_eq!(adapter.run(&mut table, "breakpoints").unwrap(), "1: function worker");
    assert_eq!(adapter.calls, 2);
}

#[test]
fn line_breakpoint_partial_adapter_rejection_rolls_back_and_retry_succeeds() {
    let mut table = Breakpoints::new();
    let mut adapter = Adapter::new(vec![
        Ok(verified(1)),
        Ok(json("{\"breakpoints\":[{\"verified\":false},{\"verified\":true}]}")),
        Ok(verified(2)),
    ]);
    let first = spec("partial.rs", 3);
    let second = full_spec("partial.rs", 7, "ready", "hit");

    adapter.set(&mut table, &first).unwrap();
    assert!(adapter.set(&mut table, &second).is_err());
    let listing = adapter.run(&mut table, "breakpoints").unwrap();
    assert!(listing.starts_with("1: "));
    assert!(listing.ends_with("partial.rs:3"));
    assert_eq!(table.next_breakpoint_id, 2);
    assert!(!table.lines.iter().any(|b| b.line == 7 && b.condition.is_some()));
    assert!(!table.lines.iter().any(|b| b.line == 7 && b.log_message.is_some()));

    adapter.set(&mut table, &second).unwrap();
    let listing = adapter.run(&mut table, "breakpoints").unwrap();
    let mut entries = listing.lines();
    assert!(entries.next().unwrap().ends_with("partial.rs:3"));
    assert!(entries.next().unwrap().ends_with("partial.rs:7"));
    assert!(entries.next().is_none());
    assert_eq!(adapter.calls, 3);
}

#[test]
fn breakpoint_failure_keeps_break_unbreak_listing_consistent() {
    let mut table = Breakpoints::new();
    let mut adapter = Adapter::new(vec![
        Ok(verified(1)),
        Ok(json("{\"breakpoints\":[{\"verified\":false}]}")),
        Ok(verified(0)),
    ]);
    adapter.set(&mut table, &spec("consistent.rs", 4)).unwrap();
    assert!(adapter.run(&mut table, "breakpoint delete 1").is_err());
    assert!(adapter.run(&mut table, "breakpoints").unwrap().contains("consistent.rs:4"));

    adapter.run(&mut table, "breakpoint delete 1").unwrap();
    assert_eq!(adapter.run(&mut table, "breakpoints").unwrap(), "(no breakpoints set)");
    assert!(adapter.run(&mut table, "breakpoint delete 1").is_err());
}

#[test]
fn parse_break_file_line() {
    let b = parse_break("break app.go:10").unwrap();
    assert_eq!(b.file, "app.go");
    assert_eq!(b.line, 10);
}

#[test]
fn dap_function_logpoint_uses_log_message() {
    let value = function_breakpoint_value("worker", None, Some("hit {x}"));
    assert_eq!(value.get("name").and_then(Json::as_str), Some("worker"));
    assert_eq!(value.get("logMessage").and_then(Json::as_str), Some("hit {x}"));
    assert!(value.get("name").unwrap().as_str().unwrap() != "hit {x}");
}

#[test]
fn dap_rejects_unverified_function_breakpoints() {
    assert!(!function_breakpoints_verified(&json("{\"breakpoints\":[{\"verified\":false}]}"), 1));
    assert!(function_breakpoints_verified(&json("{\"breakpoints\":[{\"verified\":true}]}"), 1));
}

#[test]
fn dap_breakpoint_ids_cover_line_and_function_breakpoints() {
    let mut table = Breakpoints::new();
    table.lines.push(LineBreakpoint {
        file: "/tmp/main.rs".to_string(),
        line: 10,
        id: 1,
        condition: None,
        log_message: None,
    });
    table.functions.push(FunctionBreakpoint {
        name: "worker".to_string(),
        id: 2,
        condition: None,
        log_message: None,
    });
    let ids: Vec<u32> =
        table.lines.iter().map(|b| b.id).chain(table.functions.iter().map(|b| b.id)).collect();
    assert_eq!(ids, vec![1, 2]);
    assert_ne!(ids[0], ids[1]);
}

#[test]
fn resolve_breakpoint_path_preserves_absolute_path() {
    let path = "/mnt/storage/ravendb/v72-experimental/src/Voron/Data/Graphs/Hnsw.Parallel.cs";
    assert_eq!(resolve_breakpoint_path_from(None, path), path);
}

#[test]
fn resolve_breakpoint_path_expands_relative_path_from_start_cwd() {
    let resolved = resolve_breakpoint_path_from(
        Some("/mnt/storage/ravendb/v72-experimental"),
        "src/Voron/Data/Graphs/Hnsw.Parallel.cs",
    );
    assert_eq!(
        resolved,
        "/mnt/storage/ravendb/v72-experimental/src/Voron/Data/Graphs/Hnsw.Parallel.cs"
    );
}

#[test]
fn resolve_breakpoint_path_keeps_relative_when_cwd_unavailable() {
    let path = "src/Voron/Data/Graphs/Hnsw.Parallel.cs";
    assert_eq!(resolve_breakpoint_path_from(None, path), path);
}

#[test]
fn a_break_command_needs_a_line_number() {
    assert!(parse_break("break main").is_none());
    assert!(parse_break("break app.go:x").is_none());
    assert!(parse_break("next").is_none());
}

#[test]
fn a_request_lists_every_breakpoint_of_the_file() {
    let mut table = Breakpoints::new();
    let mut adapter = Adapter::new(vec![Ok(verified(1)), Ok(verified(1))]);
    adapter.set(&mut table, &spec("/src/a.c", 3)).unwrap();
    adapter.set(&mut table, &spec("/src/b.c", 4)).unwrap();
    let change = table.begin_set_breakpoint(&full_spec("/src/a.c", 9, "x > 1", "x is {x}"), None);
    let change = change.unwrap();
    assert!(matches!(change.command, SetCommand::SetBreakpoints));
    assert_eq!(change.expected, 2);
    let arguments = json_text(&change.arguments);
    assert!(arguments.contains("\"path\":\"/src/a.c\""), "{arguments}");
    assert!(arguments.contains("\"line\":3"), "{arguments}");
    assert!(arguments.contains("\"line\":9"), "{arguments}");
    assert!(arguments.contains("\"condition\":\"x > 1\""), "{arguments}");
    assert!(arguments.contains("\"logMessage\":\"x is {x}\""), "{arguments}");
    assert!(!arguments.contains("b.c"), "{arguments}");
}

#[test]
fn the_same_breakpoint_twice_is_one_breakpoint() {
    let mut table = Breakpoints::new();
    let mut adapter = Adapter::new(vec![Ok(verified(1)), Ok(verified(1))]);
    adapter.set(&mut table, &spec("twice.rs", 5)).unwrap();
    adapter.set(&mut table, &spec("twice.rs", 5)).unwrap();
    assert_eq!(adapter.run(&mut table, "breakpoints").unwrap(), "1: twice.rs:5");
    assert_eq!(table.next_breakpoint_id, 2);
}

#[test]
fn every_refusal_has_its_error() {
    let mut table = Breakpoints::new();
    let mut adapter = Adapter::new(vec![
        Err("gone".to_string()),
        Ok(json("{\"breakpoints\":[{\"verified\":false}]}")),
        Ok(json("{}")),
        Ok(verified(1)),
        Ok(json("{\"breakpoints\":[{\"verified\":true}]}")),
    ]);
    let wanted = spec("e.rs", 2);
    match adapter.set(&mut table, &wanted) {
        Err(BreakpointError::Adapter(text)) => assert!(text.contains("gone"), "{text}"),
        other => panic!("{other:?}"),
    }
    assert!(matches!(
        adapter.set(&mut table, &wanted),
        Err(BreakpointError::LineNotVerified { line: 2, .. })
    ));
    match adapter.set_function(&mut table) {
        Err(BreakpointError::FunctionNotVerified(name)) => assert_eq!(name, "worker"),
        other => panic!("{other:?}"),
    }
    assert!(matches!(adapter.run(&mut table, "breakpoint delete 9"), Err(BreakpointError::UnknownId(9))));
    assert!(matches!(table.begin_delete_breakpoint(0), Err(BreakpointError::ZeroId)));
    adapter.set(&mut table, &wanted).unwrap();
    match adapter.run(&mut table, "breakpoint delete 1") {
        Err(e @ BreakpointError::IdNotVerified(1)) => assert!(e.message().contains('1')),
        other => panic!("{other:?}"),
    }
    assert_eq!(table.lines.len(), 1);
}

#[test]
fn a_structured_location_is_a_line_or_a_function() {
    let mut table = Breakpoints::new();
    let line = table
        .begin_structured(&BreakLoc::FileLine("x.c".to_string(), 4), None, None, Some("/w"))
        .unwrap()
        .unwrap();
    assert!(matches!(line.command, SetCommand::SetBreakpoints));
    assert!(json_text(&line.arguments).contains("/w/x.c"));
    table.finish(line, Ok(verified(1))).unwrap();
    let function = table
        .begin_structured(&BreakLoc::Function("run".to_string()), None, None, None)
        .unwrap()
        .unwrap();
    assert!(matches!(function.command, SetCommand::SetFunctionBreakpoints));
    table.finish(function, Ok(verified(1))).unwrap();
    assert_eq!(table.format_breakpoints(), "1: /w/x.c:4\n2: function run");
}

#[test]
fn every_entry_of_a_response_must_be_verified() {
    let partly = json("{\"breakpoints\":[{\"verified\":true},{\"verified\":false}]}");
    assert!(!breakpoint_response_verified(&partly, 2));
    assert!(!breakpoint_response_verified(&verified(1), 2));
    assert!(!breakpoint_response_verified(&verified(2), 1));
    assert!(breakpoint_response_verified(&verified(2), 2));
}
