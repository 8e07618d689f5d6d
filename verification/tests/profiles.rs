use gdbg::chrome_trace::{
    extract_tuple, innermost_op, kernel_launch, kernel_launches, op_invocation, op_invocations,
    ops_of_launches, parse_i64, parse_u32, validate_supported_events, Fault, TraceError, TraceEvent, MAX_TRACE_EVENTS,
};
use gdbg::import::{check_import_size, grew_message, BoundedRead, Progress, MAX_IMPORT_BYTES};
use gdbg::json::{parse_json, Json};
use gdbg::kernel::{
    has_readable_suffix, prepare_kernel_name, strip_parenthesized_groups, KernelPatterns,
};
use gdbg::ncu::{
    classify_boundedness, collect_metrics, find_col, measured_launch, metric_record, ncu_rows,
    nonnegative_i64, parse_csv_line, valid_dim, KernelMetrics, NcuError, NcuRow,
};
use gdbg::nsys::{candidates, copy_kind, duration, find_table, runtime_stands_in, wall_time, Wanted};
use gdbg::intervals::Span;
use gdbg::number::{is_at_most, is_finite, is_less, is_whole, key_of, truncate};

// ---------------------------------------------------------------------------
// Names of kernels
// ---------------------------------------------------------------------------

fn normalize_kernel_name(raw: &str) -> String {
    KernelPatterns::new().normalize_kernel_name(&prepare_kernel_name(raw))
}

#[test]
fn removes_profiler_specific_signature_and_prefix() {
    assert_eq!(
        normalize_kernel_name("void at::native::foo<float>(int, float)"),
        "at::native::foo<float>"
    );
    assert_eq!(normalize_kernel_name("at::native::foo<float>"), "at::native::foo<float>");
}

#[test]
fn removes_numeric_display_suffix() {
    assert_eq!(normalize_kernel_name("kernel [12]"), "kernel");
}

#[test]
fn correlates_cutlass_names_with_elided_ncu_namespace() {
    let nsys = "void cutlass::Kernel2<cutlass_80_simt_sgemm_64x64_8x5_tn_align1>(T1::Params)";
    let ncu = "void Kernel2<cutlass_80_simt_sgemm_64x64_8x5_tn_align1>(Params)";
    assert_eq!(normalize_kernel_name(nsys), normalize_kernel_name(ncu));
}

#[test]
fn correlates_typed_profiler_literals() {
    let nsys = "void sgemm_largek_lds64<(bool)1, (bool)0, (int)5>(float *)";
    let torch = "void sgemm_largek_lds64<true, false, 5>(float*)";
    let ncu = "void sgemm_largek_lds64<1, 0, 5>(float *)";
    assert_eq!(normalize_kernel_name(nsys), normalize_kernel_name(torch));
    assert_eq!(normalize_kernel_name(torch), normalize_kernel_name(ncu));
}

#[test]
fn correlates_anonymous_namespace_spellings() {
    let nsys = "void at::native::<unnamed>::multi_tensor_apply_kernel<at::native::<unnamed>::TensorListMetadata<(int)2>>(T1)";
    let torch = "void at::native::(anonymous namespace)::multi_tensor_apply_kernel<at::native::(anonymous namespace)::TensorListMetadata<2>>(float)";
    let ncu = "void unnamed>::multi_tensor_apply_kernel<unnamed>::TensorListMetadata<2>>(T1)";
    assert_eq!(normalize_kernel_name(nsys), normalize_kernel_name(torch));
    assert_eq!(normalize_kernel_name(torch), normalize_kernel_name(ncu));
}

#[test]
fn correlates_lambda_spellings() {
    let nsys = "void at::native::reduce_kernel<(int)128, at::native::sum_functor<float>::operator ()(T1)::[lambda(float) (instance 1)]>(T2)";
    let torch = "void at::native::reduce_kernel<128, at::native::sum_functor<float>::operator()(T1)::{lambda(float)#1}>(T2)";
    assert_eq!(normalize_kernel_name(nsys), normalize_kernel_name(torch));
}

#[test]
fn a_name_is_compact() {
    assert_eq!(normalize_kernel_name("const k < 7ull , x & >"), "k<7,x>");
    assert_eq!(
        normalize_kernel_name("a::b::multi_tensor_apply_kernel<c::D>"),
        "multi_tensor_apply_kernel<D>"
    );
}

#[test]
fn unmatched_brackets_are_kept() {
    assert_eq!(strip_parenthesized_groups("f(a(b)c)d)e"), "fd)e");
    assert_eq!(strip_parenthesized_groups("f(a"), "f");
}

// ---------------------------------------------------------------------------
// Bounded reads
// ---------------------------------------------------------------------------

/// Reads `content` as a file would be read.
fn read_bounded(content: &[u8], limit: u64) -> Result<Vec<u8>, String> {
    let mut read = BoundedRead::new(limit);
    let mut at = 0;
    loop {
        let wanted = read.wanted().min(content.len() - at);
        match read.supply(&content[at..at + wanted]) {
            Progress::More => at += wanted,
            Progress::Complete => return Ok(read.bytes),
            Progress::TooLong => return Err(grew_message("Chrome trace", "trace.json", limit)),
        }
    }
}

#[test]
fn chrome_trace_bounded_read_accepts_exact_limit_and_rejects_one_more_byte() {
    assert_eq!(read_bounded(b"12345678", 8).unwrap(), b"12345678");
    let error = read_bounded(b"123456789", 8).unwrap_err();
    assert!(error.contains("maximum input size of 8 bytes"));
}

#[test]
fn ncu_bounded_read_accepts_exact_limit_and_rejects_one_more_byte() {
    assert_eq!(read_bounded(b"12345678", 8).unwrap(), b"12345678");
    let error = read_bounded(b"123456789", 8).unwrap_err();
    assert!(error.contains("maximum input size of 8 bytes"));
}

#[test]
fn long_files_are_read_in_chunks() {
    let content = vec![7u8; 20_000];
    assert_eq!(read_bounded(&content, 20_000).unwrap().len(), 20_000);
    assert!(read_bounded(&content, 19_999).is_err());
}

#[test]
fn a_file_is_refused_by_its_size() {
    assert!(check_import_size("NCU CSV", "a.csv", MAX_IMPORT_BYTES).is_ok());
    assert_eq!(
        check_import_size("NCU CSV", "a.csv", MAX_IMPORT_BYTES + 1).unwrap_err(),
        "NCU CSV a.csv is too large (268435457 bytes; maximum is 268435456)"
    );
}

// ---------------------------------------------------------------------------
// Deep metrics
// ---------------------------------------------------------------------------

fn bits(x: f64) -> Option<u64> {
    Some(x.to_bits())
}

fn numbers_of(rows: &[Option<NcuRow>]) -> Vec<Option<u64>> {
    rows.iter()
        .map(|row| row.as_ref().and_then(|r| r.value.parse::<f64>().ok()).map(f64::to_bits))
        .collect()
}

fn read_metrics(content: &str) -> Result<Vec<KernelMetrics>, NcuError> {
    let rows = ncu_rows(content)?;
    let numbers = numbers_of(&rows);
    collect_metrics(&rows, &numbers)
}

#[test]
fn classify_memory_bound() {
    assert_eq!(classify_boundedness(bits(30.0), bits(80.0)).as_deref(), Some("memory"));
}

#[test]
fn classify_compute_bound() {
    assert_eq!(classify_boundedness(bits(85.0), bits(20.0)).as_deref(), Some("compute"));
}

#[test]
fn classify_latency_bound() {
    assert_eq!(classify_boundedness(bits(5.0), bits(3.0)).as_deref(), Some("latency"));
}

const BASIC: &str = "\"ID\",\"Kernel Name\",\"Metric Name\",\"Metric Unit\",\"Metric Value\"
\"1\",\"my_kernel\",\"gpu__time_duration.sum\",\"nsecond\",\"500000\"
\"1\",\"my_kernel\",\"sm__warps_active.avg.pct_of_peak_sustained_active\",\"%\",\"67.5\"
\"1\",\"my_kernel\",\"sm__throughput.avg.pct_of_peak_sustained_elapsed\",\"%\",\"31.2\"
\"1\",\"my_kernel\",\"dram__throughput.avg.pct_of_peak_sustained_elapsed\",\"%\",\"78.4\"
";

#[test]
fn import_ncu_csv_basic() {
    let kernels = read_metrics(BASIC).unwrap();
    assert_eq!(kernels.len(), 1);
    assert_eq!(kernels[0].name, "my_kernel");
    let record = metric_record(&kernels[0]);
    let occupancy = f64::from_bits(record.occupancy.unwrap());
    assert!((occupancy - 67.5).abs() < 0.1);
    assert_eq!(record.boundedness.as_deref(), Some("memory"));
    let launch = measured_launch(&kernels[0]).unwrap().unwrap();
    assert_eq!(f64::from_bits(launch.duration), 500_000.0);
    assert_eq!(launch.grid_x, 0);
    assert_eq!(launch.stream, None);
}

#[test]
fn the_greater_share_bounds_a_kernel() {
    assert_eq!(classify_boundedness(bits(50.0), bits(50.0)).as_deref(), Some("memory"));
    assert_eq!(classify_boundedness(bits(50.0), bits(49.0)).as_deref(), Some("compute"));
    assert_eq!(classify_boundedness(bits(10.0), bits(0.0)).as_deref(), Some("compute"));
    assert_eq!(classify_boundedness(bits(-1.0), bits(5.0)), None);
    assert_eq!(classify_boundedness(bits(f64::NAN), bits(5.0)), None);
    assert_eq!(classify_boundedness(None, bits(5.0)), None);
}

#[test]
fn fields_may_be_quoted() {
    assert_eq!(parse_csv_line("a, \"b,c\" ,\"say \"\"hi\"\"\""), vec!["a", "b,c", "say \"hi\""]);
    assert_eq!(parse_csv_line(""), vec![""]);
    assert!(parse_csv_line("a,\"open").is_empty());
    let headers = vec!["ID".to_string(), "Kernel Name".to_string()];
    assert_eq!(find_col(&headers, "Kernel Name"), Some(1));
    assert_eq!(find_col(&headers, "Metric"), None);
}

#[test]
fn lines_that_say_nothing_are_passed_over() {
    let content = "==PROF== noise\n\"Kernel Name\",\"Metric Name\",\"Metric Value\"\n\n==WARN==\n\"k\",\"m\",\"1,234\"\n\"k\",\"\",\"1\"\n\"k\",\"n\",\"n/a\"\n";
    let rows = ncu_rows(content).unwrap();
    assert_eq!(rows.len(), 5);
    assert_eq!(rows[2].as_ref().unwrap().value, "1234");
    assert!(rows[0].is_none() && rows[1].is_none() && rows[3].is_none());
    let kernels = read_metrics(content).unwrap();
    assert_eq!(kernels[0].get("m"), bits(1234.0));
    assert_eq!(kernels[0].get("n"), None);
}

#[test]
fn a_table_without_its_columns_is_refused() {
    assert_eq!(ncu_rows("a,b\n").unwrap_err(), NcuError::NoHeader);
    assert_eq!(ncu_rows("Kernel Name,Metric\n").unwrap_err(), NcuError::MissingColumns);
    assert!(NcuError::MissingColumns.message().contains("Metric Value"));
}

#[test]
fn too_many_kernels_are_refused() {
    let rows: Vec<Option<NcuRow>> = vec![None, None];
    assert!(collect_metrics(&rows, &[None, None]).unwrap().is_empty());
    let many: Vec<Option<NcuRow>> = (0..1_000_001).map(|_| None).collect();
    let numbers = vec![None; many.len()];
    assert_eq!(collect_metrics(&many, &numbers).unwrap_err(), NcuError::TooManyRows);
    assert_eq!(
        NcuError::TooManyKernels.message(),
        "NCU CSV exceeds the maximum of 100000 kernels"
    );
}

#[test]
fn the_last_reading_counts() {
    let content = "Kernel Name,Metric Name,Metric Value\nk,m,1\nj,m,5\nk,m,2\n";
    let kernels = read_metrics(content).unwrap();
    assert_eq!(kernels.len(), 2);
    assert_eq!(kernels[0].get("m"), bits(2.0));
    assert_eq!(kernels[1].name, "j");
}

#[test]
fn counts_are_whole_and_not_negative() {
    assert_eq!(nonnegative_i64(bits(32.9)), Some(32));
    assert_eq!(nonnegative_i64(bits(-0.0)), Some(0));
    assert_eq!(nonnegative_i64(bits(-1.0)), None);
    assert_eq!(nonnegative_i64(bits(f64::INFINITY)), None);
    assert_eq!(nonnegative_i64(bits(1e300)), None);
    assert_eq!(nonnegative_i64(bits(9_223_372_036_854_775_808.0)), Some(i64::MAX));
    assert_eq!(valid_dim(256.0f64.to_bits(), "grid_x").unwrap(), 256);
    assert_eq!(valid_dim(1.5f64.to_bits(), "grid_x").unwrap_err().name, "grid_x");
    assert!(valid_dim(4_294_967_296.0f64.to_bits(), "block_y").is_err());
    assert!(valid_dim((-3.0f64).to_bits(), "block_y").is_err());
}

#[test]
fn a_faulty_dimension_refuses_the_launch() {
    let content = "Kernel Name,Metric Name,Metric Value\nk,Duration,10\nk,launch__block_size_z,2.5\n";
    let kernels = read_metrics(content).unwrap();
    let error = measured_launch(&kernels[0]).unwrap_err();
    assert_eq!(error.name, "block_z");
    assert_eq!(f64::from_bits(error.value), 2.5);
    let idle = "Kernel Name,Metric Name,Metric Value\nk,Duration,0\n";
    assert_eq!(measured_launch(&read_metrics(idle).unwrap()[0]).unwrap(), None);
}

#[test]
fn numbers_are_compared_by_their_bits() {
    for (a, b) in [(1.0f64, 2.0f64), (-2.0, -1.0), (-1.0, 0.0), (1.0e-310, 1.0)] {
        assert!(is_less(a.to_bits(), b.to_bits()));
        assert!(!is_less(b.to_bits(), a.to_bits()));
        assert!(is_at_most(a.to_bits(), b.to_bits()));
        assert!(key_of(a.to_bits()) < key_of(b.to_bits()));
    }
    assert!(!is_less((-0.0f64).to_bits(), 0.0f64.to_bits()));
    assert!(is_finite(f64::MAX.to_bits()));
    assert!(!is_finite(f64::NAN.to_bits()));
    assert_eq!(truncate((-2.7f64).to_bits()), -2);
    assert_eq!(truncate(1e300f64.to_bits()), i64::MAX);
    assert!(is_whole(4_503_599_627_370_497.0f64.to_bits()));
    assert!(!is_whole(0.5f64.to_bits()));
}

// ---------------------------------------------------------------------------
// Traces
// ---------------------------------------------------------------------------

fn event(name: &str, cat: &str, ts: Option<f64>, dur: Option<f64>, args: Option<Json>) -> TraceEvent {
    let end = ts.unwrap_or(0.0) + dur.unwrap_or(0.0);
    let window = end - ts.unwrap_or(0.0);
    TraceEvent {
        name: name.to_string(),
        cat: cat.to_string(),
        ph: "X".to_string(),
        ts: ts.map(f64::to_bits),
        dur: dur.map(f64::to_bits),
        end: end.to_bits(),
        window: window.to_bits(),
        args,
    }
}

fn args(text: &str) -> Option<Json> {
    Some(parse_json(text.as_bytes()).unwrap())
}

#[test]
fn import_chrome_trace_basic() {
    let events = vec![
        event(
            "ampere_sgemm_128x32",
            "kernel",
            Some(1000.0),
            Some(50.5),
            args("{\"grid\":[128,1,1],\"block\":[256,1,1],\"stream\":7}"),
        ),
        event("aten::linear", "cpu_op", Some(900.0), Some(120.0), None),
    ];
    assert!(validate_supported_events(&events).is_ok());
    let launches = kernel_launches(&events).unwrap();
    assert_eq!(launches.len(), 1);
    let (name, launch) = &launches[0];
    assert_eq!(name, "ampere_sgemm_128x32");
    assert_eq!(launch.grid, Some((128, 1, 1)));
    assert_eq!(launch.block, Some((256, 1, 1)));
    assert_eq!(launch.stream, Some(7));
    assert_eq!(f64::from_bits(launch.duration), 50.5);
    let ops = op_invocations(&events).unwrap();
    assert_eq!(ops.len(), 1);
    assert_eq!(ops[0].name, "aten::linear");
    assert_eq!(ops_of_launches(&ops, &[launch.start, 0.0f64.to_bits()]), vec![Some(0), None]);
}

#[test]
fn malformed_supported_event_is_rejected_without_a_zero_row() {
    let events = vec![event("k", "kernel", None, Some(1.0), None)];
    let error = validate_supported_events(&events).unwrap_err();
    assert!(error.message().contains("missing ts"));
    assert!(kernel_launch(&events[0]).is_err());
    assert!(kernel_launches(&events).is_err());
}

#[test]
fn trace_with_no_supported_events_is_rejected() {
    let mut metadata = event("process_name", "", None, None, None);
    metadata.ph = "M".to_string();
    let error = validate_supported_events(&[metadata]).unwrap_err();
    assert!(error.message().contains("no supported complete events"));
}

#[test]
fn every_faulty_event_has_its_error() {
    let fault = |e: TraceEvent| validate_supported_events(&[e]).unwrap_err();
    assert!(matches!(fault(event("  ", "kernel", Some(1.0), Some(1.0), None)), TraceError::EmptyName));
    assert!(matches!(
        fault(event("k", "kernel", Some(1.0), Some(1.0), args("[1]"))),
        TraceError::ArgsNotObject
    ));
    assert!(matches!(
        fault(event("k", "kernel", Some(1.0), None, None)),
        TraceError::MissingDur
    ));
    assert!(matches!(
        fault(event("k", "cpu_op", Some(1.0), Some(-1.0), None)),
        TraceError::InvalidTiming(_, _)
    ));
    assert!(matches!(
        fault(event("k", "cpu_op", Some(f64::MAX), Some(f64::MAX), None)),
        TraceError::EndOverflows
    ));
    match fault(event("k", "kernel", Some(1.0), Some(1.0), args("{\"grid\":[1,2]}"))) {
        e @ TraceError::Field(_, Fault::NotThree) => {
            assert_eq!(e.message(), "Chrome trace field grid must contain three integers");
        }
        other => panic!("{other:?}"),
    }
    match fault(event("k", "kernel", Some(1.0), Some(1.0), args("{\"block\":[1,2,-3]}"))) {
        e @ TraceError::Field(_, Fault::NotAnInteger) => {
            assert_eq!(e.message(), "Chrome trace field block[2] must be a non-negative integer");
        }
        other => panic!("{other:?}"),
    }
    let many: Vec<TraceEvent> =
        (0..MAX_TRACE_EVENTS + 1).map(|_| event("", "", None, None, None)).collect();
    assert_eq!(
        validate_supported_events(&many).unwrap_err().message(),
        "Chrome trace contains 1000001 events; maximum is 1000000"
    );
}

#[test]
fn fields_are_integers_in_range() {
    assert_eq!(parse_u32(&Json::Int(4_294_967_295), "s").unwrap(), u32::MAX);
    assert_eq!(
        parse_u32(&Json::Int(4_294_967_296), "s").unwrap_err().message(),
        "Chrome trace field s exceeds u32::MAX"
    );
    assert_eq!(
        parse_i64(&Json::Int(9_223_372_036_854_775_808), "c").unwrap_err().message(),
        "Chrome trace field c exceeds SQLite integer range"
    );
    let split = args("{\"grid_x\":4,\"grid_y\":5,\"grid_z\":6}");
    assert_eq!(
        extract_tuple(&split, "grid", "grid_x", "grid_y", "grid_z").unwrap(),
        Some((4, 5, 6))
    );
    let scalar = args("{\"grid\":4}");
    assert_eq!(
        extract_tuple(&scalar, "grid", "x", "y", "z").unwrap_err().message(),
        "Chrome trace field grid must be an array"
    );
}

#[test]
fn the_innermost_call_is_the_shortest_around() {
    let call = |name: &str, ts: f64, dur: f64| {
        op_invocation(&event(name, "cpu_op", Some(ts), Some(dur), args("{\"module\":\"m\",\"Input Dims\":[[1,2]]}")))
            .unwrap()
            .unwrap()
    };
    let ops = vec![call("outer", 0.0, 100.0), call("inner", 10.0, 20.0), call("other", 10.0, 20.0)];
    assert_eq!(innermost_op(&ops, 15.0f64.to_bits()), Some(1));
    assert_eq!(innermost_op(&ops, 50.0f64.to_bits()), Some(0));
    assert_eq!(innermost_op(&ops, 101.0f64.to_bits()), None);
    assert_eq!(ops[0].module.as_deref(), Some("m"));
    assert_eq!(ops[0].input_shapes.as_deref(), Some("[[1,2]]"));
}

// ---------------------------------------------------------------------------
// Recordings
// ---------------------------------------------------------------------------

#[test]
fn find_table_missing() {
    let wanted = vec!["NOPE".to_string()];
    assert_eq!(find_table(&wanted, &[false]).unwrap_err(), "no matching table (tried: NOPE)");
}

#[test]
fn import_wall_time_empty() {
    assert_eq!(wall_time(&[]).to_string(), "0");
}

#[test]
fn the_first_table_that_is_there_is_read() {
    let names = candidates(Wanted::Kernels);
    assert_eq!(find_table(&names, &[false, true]).unwrap(), "CUPTI_ACTIVITY_KIND_CONCURRENT_KERNEL");
    assert_eq!(find_table(&names, &[true, true]).unwrap(), "CUPTI_ACTIVITY_KIND_KERNEL");
    assert_eq!(candidates(Wanted::RuntimeNames), vec!["StringIds"]);
    assert!(runtime_stands_in(false, true, true));
    assert!(!runtime_stands_in(true, true, true));
    assert_eq!(copy_kind(1), "H2D");
    assert_eq!(copy_kind(8), "Peer");
    assert_eq!(duration(10, 25), 15);
}

#[test]
fn wall_time_is_from_the_first_start_to_the_last_end() {
    let spans = [
        Span { start: 500, duration: 10 },
        Span { start: 100, duration: 900 },
        Span { start: 600, duration: 50 },
    ];
    assert_eq!(wall_time(&spans), 900);
}

#[test]
fn only_a_number_is_a_display_suffix() {
    assert_eq!(normalize_kernel_name("kernel [7]"), "kernel");
    assert_eq!(normalize_kernel_name("kernel [x1]"), "kernel[x1]");
    assert_eq!(normalize_kernel_name("kernel [x]"), "kernel[x]");
    assert_eq!(normalize_kernel_name("kernel [1x]"), "kernel[1x]");
}

#[test]
fn a_suffix_is_read_by_its_bytes() {
    assert!(has_readable_suffix("kernel [12]"));
    assert!(has_readable_suffix("kernel"));
    assert!(!has_readable_suffix("kernel []"));
    assert!(!has_readable_suffix("kernel [\u{e9}1]"));
}
