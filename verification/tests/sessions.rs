use gdbg::date::{epoch_days_to_ymd, timestamp};
use gdbg::db::{
    anchored_components, check_kernel_consistency, check_target_consistency, escape_sql_like,
    find_project_root, has_layer, has_op_layer, like_param, needs_recompute, newest_first,
    other_session_path, parse_load_target, saved_file_name, saved_session_name, schema_tables,
    session_dir, timeline_filter_for, timeline_layer_id, validate_saved_session_name,
    validate_schema, validate_sql_identifier, Filters, Layer, LoadTarget, SavedSession,
    SchemaError, SqlFilter, GDBG_SCHEMA_VERSION,
};
use gdbg::repl::{read_arguments, read_line, Invocation, ReplCommand};
use rusqlite::Connection;

fn strings(v: &[&str]) -> Vec<String> {
    v.iter().map(|s| s.to_string()).collect()
}

fn layer(id: i64, source: &str) -> Layer {
    Layer { id, source: source.to_string() }
}

#[test]
fn save_rejects_names_that_can_escape_gpu_directory() {
    for name in ["../outside", "a/b", "a\\b", "", ".", "..", "a space"] {
        assert!(validate_saved_session_name(name).is_err(), "accepted unsafe name {name:?}");
    }
}

#[test]
fn kernel_filter_params() {
    let mut filters = Filters::new();
    assert_eq!(filters.kernel_filter_params().clause(), "1=1");
    filters.focus = Some("sgemm".to_string());
    assert!(filters.kernel_filter_params().clause().contains("launches.kernel_name LIKE ?"));
    filters.ignore = Some("copy".to_string());
    assert!(filters.kernel_filter_params().clause().contains("NOT LIKE ?"));
    let filter = filters.kernel_filter_params();
    assert_eq!(filter.params.len(), 2);
    assert!(filter.clause().contains("launches.kernel_name"));
}

#[test]
fn open_refuses_unstamped_old_format() {
    let counts = vec![1; schema_tables().len()];
    let err = validate_schema(0, &counts).unwrap_err().message("legacy.gpu.db");
    assert!(err.contains("schema_version=0"), "{err}");
    assert!(err.contains("No migration path"), "{err}");
    assert!(err.contains("re-run `gdbg"), "{err}");
}

#[test]
fn open_refuses_future_version() {
    let counts = vec![1; schema_tables().len()];
    let err = validate_schema(99, &counts).unwrap_err().message("future.gpu.db");
    assert!(err.contains("schema_version=99"));
}

#[test]
fn gpudb_open_rejects_missing_required_tables() {
    let counts: Vec<i64> =
        schema_tables().iter().map(|t| if t == "metrics" { 0 } else { 1 }).collect();
    let error = validate_schema(GDBG_SCHEMA_VERSION, &counts).unwrap_err();
    assert!(matches!(error, SchemaError::Missing(_)));
    let error = error.message("incomplete.gpu.db");
    assert!(error.contains("missing required table(s): metrics"), "{error}");
}

#[test]
fn attach_and_detach_reject_sql_identifier_injection() {
    assert!(validate_sql_identifier("other; DROP TABLE meta;--").is_err());
    assert!(validate_sql_identifier("other").is_ok());
    assert!(validate_sql_identifier("9a").is_err());
    assert!(validate_sql_identifier("").is_err());
}

/// The launches and regions of a session with two profiler steps.
fn session() -> Connection {
    let conn = Connection::open_in_memory().unwrap();
    conn.execute_batch(
        "CREATE TABLE launches (kernel_name TEXT, start_us REAL, duration_us REAL, layer_id INTEGER);
         CREATE TABLE regions (name TEXT, start_us REAL, duration_us REAL);
         INSERT INTO regions VALUES ('ProfilerStep#1', 500.0, 20000.0), ('ProfilerStep#2', 20500.0, 25000.0);
         INSERT INTO launches VALUES
           ('void cutlass::Kernel<float>', 1000.0, 500.0, 1),
           ('void cutlass::Kernel<float>', 2000.0, 480.0, 1),
           ('void cutlass::Kernel<float>', 10000.0, 510.0, 1),
           ('void cutlass::Kernel<float>', 20000.0, 490.0, 1),
           ('void cutlass::Kernel<float>', 30000.0, 520.0, 1),
           ('void cutlass::Kernel<float>', 40000.0, 505.0, 1),
           ('ampere_sgemm_128x32_tn', 1600.0, 200.0, 1),
           ('void cutlass::Kernel<float>', 1000.0, 500.0, 3),
           ('void cutlass::Kernel<float>', 2000.0, 480.0, 3);",
    )
    .unwrap();
    conn
}

fn count(conn: &Connection, filter: &SqlFilter, also: &str) -> i64 {
    let sql = format!("SELECT COUNT(*) FROM launches WHERE {} AND {also}", filter.clause());
    conn.query_row(&sql, rusqlite::params_from_iter(filter.params().iter()), |row| row.get(0)).unwrap()
}

#[test]
fn region_filter_restricts_launches() {
    let conn = session();
    let mut filters = Filters::new();
    let before = count(&conn, &filters.kernel_filter_params(), "1=1");
    filters.region_filter = Some("Step#1".to_string());
    let filter = filters.kernel_filter_params();
    let filtered = count(&conn, &filter, "1=1");
    assert!(filtered > 0, "region filter should match some launches");
    assert!(filtered < before, "region filter should exclude launches outside the region");
    assert_eq!(count(&conn, &filter, "start_us > 20500"), 0);
}

#[test]
fn breakdown_no_double_count() {
    let conn = session();
    let layers = [layer(1, "nsys"), layer(2, "ncu"), layer(3, "torch")];
    let id = timeline_layer_id(&layers);
    assert_eq!(id, Some(1), "timeline should prefer nsys layer");
    let total = |clause: &str| -> f64 {
        let sql = format!(
            "SELECT SUM(duration_us) FROM launches WHERE kernel_name LIKE '%cutlass%' AND {clause}"
        );
        conn.query_row(&sql, [], |row| row.get(0)).unwrap()
    };
    assert!((total(&timeline_filter_for("launches", id)) - 3005.0).abs() < 0.1);
    assert!((total(&timeline_filter_for("launches", None)) - 3985.0).abs() < 0.1);
}

#[test]
fn filters_select_by_name() {
    let conn = session();
    let mut filters = Filters::new();
    filters.set_focus("sgemm");
    assert_eq!(count(&conn, &filters.kernel_filter_params(), "1=1"), 1);
    filters.reset();
    filters.set_ignore("sgemm");
    assert_eq!(count(&conn, &filters.kernel_filter_params(), "1=1"), 8);
    filters.set_focus("100%");
    assert_eq!(count(&conn, &filters.kernel_filter_params(), "1=1"), 0);
    filters.set_region("Step#2");
    assert_eq!(filters.kernel_filter_params().params().len(), 3);
}

#[test]
fn wildcards_are_escaped() {
    assert_eq!(escape_sql_like("50%_o'k"), "50\\%_o''k");
    assert_eq!(like_param("a%"), "%a\\%%");
    assert_eq!(SqlFilter::default().clause(), "1=1");
}

#[test]
fn a_valid_schema_is_accepted() {
    assert_eq!(schema_tables().len(), 10);
    assert!(validate_schema(GDBG_SCHEMA_VERSION, &vec![1; 10]).is_ok());
}

#[test]
fn sessions_are_found_by_name_or_path() {
    assert!(validate_saved_session_name("run-1_b").is_ok());
    assert_eq!(saved_file_name("run"), "run.gpu.db");
    assert!(matches!(parse_load_target("run.gpu.db"), LoadTarget::Saved(n) if n == "run"));
    assert!(matches!(parse_load_target("run"), LoadTarget::Saved(n) if n == "run"));
    assert!(matches!(parse_load_target("a/run.gpu.db"), LoadTarget::Path(p) if p == "a/run.gpu.db"));
    assert_eq!(other_session_path("/p/.dbg/gpu", "old"), "/p/.dbg/gpu/old.gpu.db");
    assert_eq!(other_session_path("/p/.dbg/gpu", "x.gpu.db"), "x.gpu.db");
    assert_eq!(saved_session_name("/g/run.gpu.db", "run.gpu.db").as_deref(), Some("run"));
    assert_eq!(saved_session_name("/g/run.db", "run.db"), None);
    assert_eq!(saved_session_name("/g/notes.txt", "notes.txt"), None);
}

#[test]
fn the_nearest_repository_is_the_project() {
    assert_eq!(find_project_root("/a/b/c", &[false, true, true, false]), "/a/b");
    assert_eq!(find_project_root("/a/b/c", &[false, false, false, false]), "/a/b/c");
    assert_eq!(session_dir("/a/b"), "/a/b/.dbg/gpu");
}

#[test]
fn a_path_that_goes_up_is_not_anchored() {
    assert_eq!(anchored_components("/a//./b"), Some(strings(&["a", "b"])));
    assert_eq!(anchored_components("/a/../b"), None);
}

#[test]
fn layers_are_looked_up_by_source() {
    let layers = [layer(4, "torch"), layer(2, "torch"), layer(7, "proton")];
    assert!(has_layer(&layers, "torch"));
    assert!(!has_layer(&layers, "nsys"));
    assert!(has_op_layer(&layers));
    assert_eq!(timeline_layer_id(&layers), Some(2));
    assert_eq!(timeline_layer_id(&layers[2..]), Some(7));
    assert_eq!(timeline_layer_id(&[layer(1, "ncu")]), None);
    assert_eq!(timeline_filter_for("l", Some(3)), "l.layer_id = 3");
    assert!(!needs_recompute(&strings(&["torch"]), "torch"));
    assert!(needs_recompute(&strings(&["torch"]), "nsys"));
    assert!(needs_recompute(&strings(&["torch", "proton"]), "torch"));
}

#[test]
fn inconsistent_collections_are_warned_about() {
    let rows = vec![
        ("nsys".to_string(), "h1".to_string()),
        ("ncu".to_string(), "h2".to_string()),
        ("torch".to_string(), "h1".to_string()),
    ];
    assert_eq!(
        check_target_consistency(&rows).as_deref(),
        Some("target file changed between collection phases: nsys vs ncu")
    );
    assert_eq!(check_target_consistency(&rows[..1]), None);
    let orphans = strings(&["a", "b", "c", "d"]);
    assert_eq!(
        check_kernel_consistency(true, true, &orphans),
        ["4 kernels in torch layer but not nsys (different run?): a, b, c"]
    );
    assert!(check_kernel_consistency(false, true, &orphans).is_empty());
    assert!(check_kernel_consistency(true, true, &[]).is_empty());
}

#[test]
fn the_newest_session_is_listed_first() {
    let saved = |name: &str, created: &str| SavedSession {
        name: name.to_string(),
        device: "A100".to_string(),
        kernel_count: 3,
        layers: strings(&["nsys"]),
        created: created.to_string(),
    };
    let sessions = [
        saved("a", "2025-01-01T00:00:00Z"),
        saved("b", "2025-03-01T00:00:00Z"),
        saved("c", "2025-01-01T00:00:00Z"),
    ];
    let names: Vec<String> = newest_first(&sessions).into_iter().map(|s| s.name).collect();
    assert_eq!(names, vec!["b", "a", "c"]);
}

#[test]
fn days_are_dates() {
    assert_eq!(epoch_days_to_ymd(0), (1970, 1, 1));
    assert_eq!(epoch_days_to_ymd(11_016), (2000, 2, 29));
    assert_eq!(epoch_days_to_ymd(19_782), (2024, 2, 29));
    assert_eq!(timestamp(1_709_210_096), "2024-02-29T12:34:56Z");
    assert_eq!(timestamp(0), "1970-01-01T00:00:00Z");
}

#[test]
fn a_line_is_a_command_with_arguments() {
    assert!(read_line("   ").is_none());
    let (command, name, args) = read_line(" k 5  sgemm ").unwrap();
    assert_eq!(command, ReplCommand::Kernels);
    assert_eq!(name, "k");
    assert_eq!(args, strings(&["5", "sgemm"]));
    assert_eq!(read_line("idle a b").unwrap().0, ReplCommand::IdleBetween);
    assert_eq!(read_line("frobnicate").unwrap().0, ReplCommand::Unknown);
}

#[test]
fn the_profiler_is_called_for_one_thing() {
    assert_eq!(read_arguments(&[]), Invocation::Usage);
    assert_eq!(read_arguments(&strings(&["ls"])), Invocation::List);
    assert_eq!(read_arguments(&strings(&["diff", "a"])), Invocation::DiffUsage);
    assert_eq!(read_arguments(&strings(&["diff", "a", "b"])), Invocation::Diff);
    assert_eq!(read_arguments(&strings(&["--from"])), Invocation::FromUsage);
    assert_eq!(read_arguments(&strings(&["--from", "x"])), Invocation::From);
    assert_eq!(read_arguments(&strings(&["check"])), Invocation::Check);
    assert_eq!(read_arguments(&strings(&["-h"])), Invocation::Usage);
    assert_eq!(read_arguments(&strings(&["train.py"])), Invocation::Profile);
}
