use gdbg::json::json_text;
use gdbg::launch::{
    call_error_text, configuration_error_text, connect_decide, disconnect_arguments,
    extract_host_port, initialize_arguments, initialized_wait, parse_ptrace_scope,
    preflight_attach, preflight_attach_decide, prompt_wait, requires_listener_owner,
    scan_for_marker, AttachRefusal, Connect, Wait,
};
use gdbg::process::{
    find_new_descendant, holds_socket, kill_order, listener_inode, listener_owned_by,
    owned_kill_order,
    parse_start_time, process_children, task_threads, Capture, ProcessIdentity,
};
use gdbg::session::State;

fn identity(start_time: u64) -> ProcessIdentity {
    ProcessIdentity { start_time, exe_device: 2, exe_inode: 3 }
}

#[test]
fn extract_host_port_delve() {
    let line = "DAP server listening at: 127.0.0.1:34407\n";
    assert_eq!(extract_host_port(line).as_deref(), Some("127.0.0.1:34407"));
}

#[test]
fn extract_host_port_lldb_dap_bracketed() {
    let line = "Listening for: connection://[127.0.0.1]:38191\n";
    assert_eq!(extract_host_port(line).as_deref(), Some("127.0.0.1:38191"));
}

#[test]
fn restart_tracking_accepts_a_reused_pid_only_with_new_identity() {
    let old = ProcessIdentity { start_time: 1, exe_device: 2, exe_inode: 3 };
    let replacement = ProcessIdentity { start_time: 4, exe_device: 2, exe_inode: 3 };
    assert_eq!(find_new_descendant(&[(10, old)], &[(10, old)]), None);
    assert_eq!(
        find_new_descendant(&[(10, old)], &[(10, replacement)]),
        Some((10, replacement))
    );
}

#[test]
fn preflight_attach_passes_when_ptrace_unrestricted() {
    assert!(preflight_attach_decide(1234, true, 0).is_ok());
}

#[test]
fn preflight_attach_blocks_when_ptrace_restricted() {
    for scope in [1, 2, 3] {
        let msg = preflight_attach_decide(1234, true, scope).unwrap_err().message();
        assert!(
            msg.contains(&format!("kernel.yama.ptrace_scope = {scope}")),
            "missing scope value in error: {msg}"
        );
        assert!(
            msg.contains("relaunch the target through `dbg start"),
            "missing primary fix instruction: {msg}"
        );
        assert!(
            msg.contains("sysctl kernel.yama.ptrace_scope=0"),
            "missing sysctl fix instruction: {msg}"
        );
    }
}

#[test]
fn preflight_attach_rejects_dead_pid() {
    let msg = preflight_attach_decide(99999, false, 0).unwrap_err().message();
    assert!(msg.contains("no process with pid 99999"), "unexpected error: {msg}");
}

#[test]
fn dap_capture_includes_thread_descendants() {
    let contents = vec!["100 101\n".to_string(), "101 102\n".to_string()];
    assert_eq!(process_children(&contents), vec![100, 101, 102]);
}

#[test]
fn lines_without_an_address_are_passed_over() {
    assert_eq!(extract_host_port("starting up"), None);
    assert_eq!(extract_host_port("at :80"), None);
    assert_eq!(extract_host_port("port 127.0.0.1:99999"), None);
}

#[test]
fn the_marker_line_is_found_among_complete_lines() {
    let mut bytes = b"warming up 1.2.3.4:5\nDAP server listening at: 127.0.0.1:40001\nDAP".to_vec();
    assert_eq!(scan_for_marker(&mut bytes, "listening at").as_deref(), Some("127.0.0.1:40001"));
    assert_eq!(bytes, b"DAP");
    let mut partial = b"DAP server listening at: 127.0.0.1:4".to_vec();
    assert_eq!(scan_for_marker(&mut partial, "listening at"), None);
    assert_eq!(partial.len(), 36);
    let mut broken = b"\xff listening at: 127.0.0.1:40001\n".to_vec();
    assert_eq!(scan_for_marker(&mut broken, "\u{fffd} listening").as_deref(), Some("127.0.0.1:40001"));
}

#[test]
fn the_kernels_restriction_is_read_from_its_file() {
    assert_eq!(parse_ptrace_scope(Some("1\n")), 1);
    assert_eq!(parse_ptrace_scope(Some("garbage")), 0);
    assert_eq!(parse_ptrace_scope(Some("99999999999")), 0);
    assert_eq!(parse_ptrace_scope(None), 0);
}

#[test]
fn the_handshake_names_the_client() {
    let text = json_text(&initialize_arguments("delve"));
    assert!(text.contains("\"adapterID\":\"delve\""), "{text}");
    assert!(text.contains("\"clientID\":\"dbg-cli\""), "{text}");
    assert_eq!(json_text(&disconnect_arguments(true)), "{\"terminateDebuggee\":false}");
    assert_eq!(json_text(&disconnect_arguments(false)), "{\"terminateDebuggee\":true}");
}

#[test]
fn waiting_for_the_adapter_ends_in_one_way() {
    let mut state = State::new();
    assert_eq!(initialized_wait(&state, false), Wait::Continue);
    assert_eq!(initialized_wait(&state, true), Wait::TimedOut);
    state.terminated = true;
    assert_eq!(initialized_wait(&state, false), Wait::Terminated);
    state.initialized = true;
    assert_eq!(initialized_wait(&state, false), Wait::Done);
}

#[test]
fn waiting_for_the_first_stop_gives_up_quietly() {
    let mut state = State::new();
    assert_eq!(prompt_wait(&state, false, false), Wait::Continue);
    assert_eq!(prompt_wait(&state, true, false), Wait::Done);
    assert_eq!(prompt_wait(&state, false, true), Wait::Done);
    state.paused = true;
    assert_eq!(prompt_wait(&state, false, false), Wait::Done);
}

#[test]
fn errors_say_which_request_failed() {
    assert_eq!(call_error_text("next", None), "DAP next: timeout");
    assert_eq!(call_error_text("next", Some("no thread")), "DAP next: no thread");
    assert_eq!(configuration_error_text(false, Some(5), "e"), "e");
    assert_eq!(
        configuration_error_text(true, None, "e"),
        "DAP configurationDone failed during attach: e"
    );
    assert!(configuration_error_text(true, Some(5), "e").contains("attaching to pid 5: e."));
}

#[test]
fn a_preassigned_port_must_belong_to_its_adapter() {
    assert!(requires_listener_owner(true, "/opt/NetCoreDbg/netcoredbg"));
    assert!(!requires_listener_owner(false, "netcoredbg"));
    assert!(!requires_listener_owner(true, "dlv"));
    assert_eq!(connect_decide(true, false, false), Connect::AwaitOwner);
    assert_eq!(connect_decide(true, false, true), Connect::NotOwned);
    assert_eq!(connect_decide(true, true, true), Connect::Try);
    assert_eq!(connect_decide(false, false, true), Connect::Try);
}

#[test]
fn a_start_time_follows_a_name_with_brackets() {
    let stat = "42 (a) b) S 1 2 3 4 5 6 7 8 9 10 11 12 13 14 15 16 17 18 4711 20";
    assert_eq!(parse_start_time(stat), Some(4711));
    assert_eq!(parse_start_time("42 (a) S 1 2"), None);
}

#[test]
fn a_walk_visits_every_descendant_once() {
    let mut walk = Capture::new(vec![10, 20]);
    let mut seen = Vec::new();
    while let Some(pid) = walk.next_pid() {
        seen.push(pid);
        let children: &[u32] = if pid == 20 { &[30, 10] } else { &[] };
        let found = if pid == 30 { None } else { Some(identity(u64::from(pid))) };
        walk.supply(pid, found, children);
    }
    assert_eq!(seen, vec![20, 10, 30]);
    let pids: Vec<u32> = walk.tree.iter().map(|entry| entry.0).collect();
    assert_eq!(pids, vec![20, 10]);
}

#[test]
fn the_last_descendant_is_killed_first() {
    let tree = [(10, identity(1)), (20, identity(2))];
    assert_eq!(kill_order(&tree), vec![(20, identity(2)), (10, identity(1))]);
    assert_eq!(
        owned_kill_order(5, identity(9), Some(identity(9)), &tree),
        vec![(5, identity(9)), (20, identity(2)), (10, identity(1))]
    );
    assert!(owned_kill_order(5, identity(9), Some(identity(8)), &tree).is_empty());
    assert!(owned_kill_order(5, identity(9), None, &tree).is_empty());
}

#[test]
fn threads_are_listed_in_order() {
    let names = vec!["12".to_string(), "self".to_string(), "7".to_string()];
    assert_eq!(task_threads(&names), vec![7, 12]);
}

#[test]
fn a_listener_is_found_by_its_port() {
    let table = "  sl  local_address rem_address st tx rx tr tm retr uid timeout inode\n   0: 0100007F:1F90 00000000:0000 0A 00000000:00000000 00:00000000 00000000 1000 0 31337 1\n".to_string();
    let tables = vec![String::new(), table];
    assert_eq!(listener_inode("127.0.0.1:8080", &tables), Some(31337));
    assert_eq!(listener_inode("127.0.0.1:8081", &tables), None);
    assert_eq!(listener_inode("nowhere", &tables), None);
    let links = vec!["/dev/null".to_string(), "socket:[31337]".to_string()];
    assert!(holds_socket(&links, 31337));
    assert!(!holds_socket(&links, 3133));
    let parent = vec!["/dev/null".to_string()];
    assert!(listener_owned_by("127.0.0.1:8080", &tables, &[links.clone()]));
    assert!(listener_owned_by("127.0.0.1:8080", &tables, &[parent.clone(), links.clone()]));
    assert!(!listener_owned_by("127.0.0.1:8080", &tables, &[parent]));
    assert!(!listener_owned_by("127.0.0.1:8081", &tables, &[links]));
}

#[test]
fn an_attach_is_tried_where_the_process_files_are_not_there() {
    assert!(preflight_attach(7, None, Some("1\n")).is_ok());
    assert!(preflight_attach(7, Some(true), None).is_ok());
    assert!(preflight_attach(7, Some(true), Some("0\n")).is_ok());
    assert!(matches!(
        preflight_attach(7, Some(true), Some("1\n")),
        Err(AttachRefusal::Restricted { pid: 7, ptrace_scope: 1 })
    ));
    assert!(matches!(
        preflight_attach(7, Some(false), Some("0")),
        Err(AttachRefusal::NoSuchProcess(7))
    ));
}
