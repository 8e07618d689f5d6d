use gdbg::advice::{
    assess_op, classify_op, classify_workload, limiting_factor, missing_layers,
    more_streams_could_help, overhead_exceeds, parallelism_verdict, suggest, Conclusion, Facts,
    KernelTime, Layers, OpBound, Parallelism, Suggestion,
};
use gdbg::arguments::{escape_regex, number_at, parse_count, parse_pattern, trunc};
use gdbg::chains::{chain_kernels, critical_chains, StreamLaunch};
use gdbg::graph::{glyph_of, graph_width, stream_graph};
use gdbg::groups::{intern, ranked_totals, totals_by_name};
use gdbg::hotspot::{find_hottest_window, window_kernels};
use gdbg::intervals::{
    compute_gpu_gaps, gpu_busy, idle_report, merge_intervals, xfer_kernel_overlap, Interval, Span,
};
use gdbg::memory::{alloc_op, churn_report, memory_report, AllocEvent, AllocOp};
use gdbg::order::{order, order2};
use gdbg::regressions::{classify_change, largest_changes, regressions, BeforeAfter, Change};
use gdbg::sequences::{detect_kernel_sequences, fusion_candidates, fusion_pairs, TimedLaunch};
use gdbg::timing::{
    detect_warmup_count, idle_between, launch_gaps, outliers, summarize, tail_over_2x_median,
    warmup_report, Clustering,
};
use gdbg::transfers::{
    class_label, limit, size_distribution, small_transfers, transfer_note, transfer_verdict,
    Transfer, TransferVerdict,
};

/// Microseconds in nanoseconds.
fn us(n: i64) -> i64 {
    n * 1000
}

fn strings(v: &[&str]) -> Vec<String> {
    v.iter().map(|s| s.to_string()).collect()
}

fn work(v: &[(i64, i64)]) -> Vec<Interval> {
    v.iter().map(|&(start, dur)| Interval { start: us(start), end: us(start + dur) }).collect()
}

#[test]
fn trunc_edge_cases() {
    assert_eq!(trunc("hello", 10), "hello");
    assert_eq!(trunc("hello world", 8), "hello...");
    assert_eq!(trunc("abc", 3), "abc");
    assert_eq!(trunc("αβγδ", 10), "αβγδ");
    assert_eq!(trunc("αβγδ", 4), "αβγδ");
    let t = trunc("αβγδεζ", 4);
    assert_eq!(t, "α...");
    assert_eq!(trunc("", 5), "");
}

#[test]
fn gap_merge_correctness() {
    let gaps = compute_gpu_gaps(&work(&[(0, 100), (50, 750), (600, 100), (900, 100)]));
    assert_eq!(gaps.len(), 1, "expected exactly 1 gap, got: {gaps:?}");
    assert_eq!(gaps[0].start, us(800));
    assert_eq!(gaps[0].duration, i128::from(us(100)));
}

#[test]
fn gaps_handles_overlapping_streams() {
    let mut launches = work(&[(0, 400), (200, 400), (800, 200)]);
    let gaps = compute_gpu_gaps(&launches);
    assert_eq!(gaps.len(), 1);
    assert_eq!((gaps[0].start, gaps[0].duration), (us(600), i128::from(us(200))));
    launches.extend(work(&[(550, 300)]));
    assert!(compute_gpu_gaps(&launches).is_empty());
}

#[test]
fn unicode_kernel_names_no_panic() {
    let names = strings(&["triton_poi_fused_αβ_kernel_0", "triton_poi_fused_αβ_kernel_0"]);
    let v = [
        StreamLaunch { start: us(43000), duration: us(150), stream: 7 },
        StreamLaunch { start: us(44000), duration: us(155), stream: 7 },
    ];
    let graph = stream_graph(&names, &v, 20).unwrap();
    assert_eq!(graph.kernels[0].name, "triton_poi_fused_αβ_kernel_0");
    assert_eq!(trunc(&graph.kernels[0].name, 20), "triton_poi_fused_...");
}

#[test]
fn variance_single_launch() {
    let solo = [Span { start: 0, duration: us(100) }];
    assert!(outliers(&solo).is_none());
    assert!(launch_gaps(&solo).is_empty());
    assert_eq!(tail_over_2x_median(&[us(100)]), None);
}

#[test]
fn empty_db_no_panic() {
    assert!(compute_gpu_gaps(&[]).is_empty());
    assert_eq!(gpu_busy(&[]), 0);
    assert_eq!(idle_report(&[], 5).count, 0);
    assert!(ranked_totals(&[], &[]).is_empty());
    assert!(critical_chains(&[], 10).is_empty());
    assert!(stream_graph(&[], &[], 20).is_none());
    assert!(detect_kernel_sequences(&[], &[], 5).is_empty());
    assert!(fusion_candidates(&[]).is_empty());
    assert_eq!(find_hottest_window(&[], 10).busy, 0);
    assert!(warmup_report(&[]).is_none());
    assert_eq!(memory_report(&[]).peak, 0);
    assert!(size_distribution(&[]).is_empty());
    assert!(largest_changes(&[]).is_empty());
    assert_eq!(summarize(&[]), None);
}

#[test]
fn merged_intervals_are_apart() {
    let merged = merge_intervals(&work(&[(0, 4), (2, 6), (8, 1), (20, 1)]));
    let spans: Vec<(i64, i64)> = merged.iter().map(|i| (i.start, i.end)).collect();
    assert_eq!(spans, vec![(0, us(9)), (us(20), us(21))]);
    assert_eq!(gpu_busy(&work(&[(20, 1), (0, 4), (2, 6), (8, 1)])), i128::from(us(10)));
}

#[test]
fn idle_times_are_summed_and_ranked() {
    let report = idle_report(&work(&[(0, 10), (20, 10), (60, 10), (71, 1)]), 1);
    assert_eq!(report.count, 2);
    assert_eq!(report.total, i128::from(us(40)));
    assert_eq!(report.longest.len(), 1);
    assert_eq!(report.longest[0].start, us(30));
}

#[test]
fn transfers_overlap_kernels_in_part() {
    let kernels = work(&[(0, 10), (5, 10), (30, 10)]);
    let transfers = work(&[(10, 10), (35, 10)]);
    assert_eq!(xfer_kernel_overlap(&kernels, &transfers), (20_000, 10_000));
}

#[test]
fn a_backward_transfer_counts_against_the_total() {
    let kernels = [Interval { start: 0, end: 20 }, Interval { start: 30, end: 25 }];
    let transfers = [Interval { start: 5, end: 10 }, Interval { start: 9, end: 7 }];
    assert_eq!(xfer_kernel_overlap(&kernels, &transfers), (3, 5));
}

#[test]
fn numbers_and_patterns_are_told_apart() {
    assert_eq!(parse_count(&strings(&["5", "x"])), 5);
    assert_eq!(parse_count(&strings(&["x"])), 10);
    assert_eq!(parse_pattern(&strings(&["5", "x"])).as_deref(), Some("x"));
    assert_eq!(parse_pattern(&strings(&["x", "y"])).as_deref(), Some("x"));
    assert_eq!(parse_pattern(&strings(&["5"])), None);
    assert_eq!(number_at(&strings(&["a", "7"]), 1, 3), 7);
    assert_eq!(number_at(&strings(&["a"]), 1, 3), 3);
    assert_eq!(escape_regex("a.b(c)"), "a\\.b\\(c\\)");
}

#[test]
fn totals_are_grouped_and_ranked() {
    let names = strings(&["a", "b", "a", "c", "b"]);
    let amounts = [10, 50, 10, 60, 10];
    let by_name: Vec<(String, usize, i128)> =
        totals_by_name(&names, &amounts).into_iter().map(|t| (t.name, t.count, t.total)).collect();
    assert_eq!(
        by_name,
        vec![("a".to_string(), 2, 20), ("b".to_string(), 2, 60), ("c".to_string(), 1, 60)]
    );
    let ranked: Vec<String> = ranked_totals(&names, &amounts).into_iter().map(|t| t.name).collect();
    assert_eq!(ranked, vec!["b", "c", "a"]);
    let interned = intern(&names);
    assert_eq!(interned.names, strings(&["a", "b", "c"]));
    assert_eq!(interned.ids, vec![0, 1, 0, 2, 1]);
}

#[test]
fn equal_keys_keep_their_order() {
    assert_eq!(order(&[3, 1, 2, 1]), vec![1, 3, 2, 0]);
    assert_eq!(order2(&[1, 1, 0], &[5, 4, 9]), vec![2, 1, 0]);
}

#[test]
fn the_hottest_window_is_the_busiest() {
    let v = [
        Span { start: 0, duration: 10 },
        Span { start: 100, duration: 30 },
        Span { start: 110, duration: 30 },
        Span { start: 300, duration: 10 },
    ];
    let hot = find_hottest_window(&v, 50);
    assert_eq!(hot.busy, 60);
    assert_eq!(hot.start, 90);
    assert_eq!((hot.lo, hot.hi), (1, 3));
    let names = strings(&["a", "b", "c", "d"]);
    let kernels = window_kernels(&names, &v, hot.start, 50, hot.lo, hot.hi);
    assert_eq!(kernels.len(), 2);
    assert_eq!(kernels[0].total, 30);
}

#[test]
fn slow_launches_are_counted() {
    assert_eq!(tail_over_2x_median(&[10, 10, 10, 21]), Some(1));
    assert_eq!(tail_over_2x_median(&[10, 10, 10, 20]), Some(0));
    assert_eq!(tail_over_2x_median(&[10, 10, 10]), None);
}

#[test]
fn a_warm_up_is_followed_by_steady_launches() {
    let durations = [5000, 300, 310, 290, 305, 295];
    assert_eq!(detect_warmup_count(&durations), 1);
    let report = warmup_report(&durations).unwrap();
    assert_eq!(report.steady_median, 295);
    assert_eq!((report.warmup_total, report.steady_total), (5000, 1500));
    assert_eq!(detect_warmup_count(&[300, 300, 300, 300]), 0);
}

#[test]
fn outliers_are_where_they_are() {
    let v: Vec<Span> = (0..30)
        .map(|i| Span { start: i * 100, duration: if i < 3 { 90 } else { 10 + i / 10 } })
        .collect();
    let o = outliers(&v).unwrap();
    assert_eq!(o.worst, 90);
    assert_eq!(o.slowest, vec![0, 1, 2]);
    assert_eq!((o.early, o.late), (3, 0));
    assert_eq!(o.clustering, Clustering::Early);
    let few: Vec<Span> = v[..5].to_vec();
    assert_eq!(outliers(&few).unwrap().clustering, Clustering::TooFew);
}

#[test]
fn times_are_summed_up() {
    let v = [
        Span { start: 0, duration: 10 },
        Span { start: 15, duration: 10 },
        Span { start: 20, duration: 5 },
        Span { start: 35, duration: 5 },
    ];
    let gaps = launch_gaps(&v);
    assert_eq!(gaps, vec![5, -5, 10]);
    let s = summarize(&gaps).unwrap();
    assert_eq!((s.count, s.total, s.shortest, s.longest), (2, 15, 5, 10));
    assert_eq!(idle_between(&[10, 20, 90], &[5, 12, 40]), vec![2, 20]);
}

#[test]
fn chains_go_on_over_short_gaps() {
    let launch = |start, stream| StreamLaunch { start, duration: 10, stream };
    let v = [launch(0, 1), launch(12, 1), launch(100, 1), launch(0, 2)];
    let chains = critical_chains(&v, 5);
    assert_eq!(chains.len(), 3);
    assert_eq!((chains[0].first, chains[0].count), (0, 2));
    assert_eq!((chains[0].span, chains[0].active), (22, 20));
    let names = strings(&["a", "b", "c", "d"]);
    let kernels = chain_kernels(&names, &v, &chains[0]);
    assert_eq!(kernels.len(), 2);
    assert_eq!(kernels[0].name, "a");
}

#[test]
fn close_launches_are_candidates_for_fusion() {
    let launch = |start| TimedLaunch { start, duration: 1000, stream: Some(1) };
    let v = [launch(0), launch(3000), launch(4500), launch(7500), launch(90_000)];
    let at = fusion_candidates(&v);
    assert_eq!(at, vec![1, 0, 2]);
    let names = strings(&["a", "b", "a", "b", "c"]);
    let pairs = fusion_pairs(&names, &v, &at, 10);
    assert_eq!(pairs.len(), 2);
    assert_eq!((pairs[0].first.as_str(), pairs[0].second.as_str()), ("a", "b"));
    assert_eq!((pairs[0].count, pairs[0].gap), (2, 4000));
}

#[test]
fn repeating_sequences_are_found() {
    let names = strings(&["x", "a", "b", "a", "b", "a", "b", "y"]);
    let amounts = [1, 10, 20, 10, 20, 10, 20, 1];
    let found = detect_kernel_sequences(&names, &amounts, 5);
    assert_eq!(found.len(), 1);
    assert_eq!((found[0].at, found[0].len, found[0].reps, found[0].total), (1, 2, 3, 90));
    assert!(detect_kernel_sequences(&strings(&["a", "a", "a", "a"]), &[1; 4], 5).is_empty());
}

#[test]
fn memory_is_followed_through_its_events() {
    let event = |time, op, address, bytes| AllocEvent { time, op, address, bytes };
    let events = [
        event(0, AllocOp::Alloc, 1, 100),
        event(10, AllocOp::Alloc, 2, 50),
        event(20, AllocOp::Free, 1, 0),
        event(30, AllocOp::Other, 9, 9),
        event(40, AllocOp::Free, 7, 0),
        event(50, AllocOp::Alloc, 3, 70),
    ];
    let report = memory_report(&events);
    assert_eq!((report.peak, report.peak_time), (150, 10));
    assert_eq!((report.leaked, report.leak_count), (120, 2));
    assert_eq!(report.lifetimes, vec![(100, 20)]);
    assert_eq!(alloc_op("alloc"), AllocOp::Alloc);
    assert_eq!(alloc_op("realloc"), AllocOp::Other);
    assert_eq!(churn_report(&[(5, 10); 11]), Some((11, 55)));
    assert_eq!(churn_report(&[(5, 10); 10]), None);
}

#[test]
fn a_graph_has_a_row_for_each_stream() {
    let launch = |start, duration, stream| StreamLaunch { start, duration, stream };
    let v = [launch(0, 50, 1), launch(50, 50, 1), launch(0, 100, 2)];
    let names = strings(&["short", "short", "long"]);
    let graph = stream_graph(&names, &v, 20).unwrap();
    assert_eq!((graph.from, graph.to), (0, 100));
    assert_eq!(graph.rows.len(), 2);
    assert_eq!(graph.rows[0], (1, "A".repeat(20)));
    assert_eq!(graph.rows[1], (2, "B".repeat(20)));
    assert_eq!(graph.kernels[0].name, "short");
    assert_eq!(graph_width(Some("80")), 80);
    assert_eq!(graph_width(Some("5")), 100);
    assert_eq!(graph_width(None), 100);
    assert_eq!((glyph_of(25), glyph_of(26), glyph_of(52), glyph_of(62)), ('Z', 'a', '0', '*'));
}

#[test]
fn transfers_are_judged() {
    assert_eq!(transfer_verdict(51, 10), Some(TransferVerdict::BandwidthBound));
    assert_eq!(transfer_verdict(16, 10), Some(TransferVerdict::TransferHeavy));
    assert_eq!(transfer_verdict(6, 10), Some(TransferVerdict::Mixed));
    assert_eq!(transfer_verdict(5, 10), Some(TransferVerdict::ComputeDominated));
    assert_eq!(transfer_verdict(5, 0), None);
    assert!(TransferVerdict::BandwidthBound.text().starts_with("BANDWIDTH-BOUND"));
    assert_eq!(transfer_note("H2D", 16_777_216, 4_000_000), "pageable? consider cudaMallocHost");
    assert_eq!(transfer_note("D2D", 16_777_216, 4_000_000), "");
    assert!(transfer_note("H2D", 100, 10).starts_with("tiny"));
    let v = [
        Transfer { bytes: 100, duration: 1 },
        Transfer { bytes: 2_000_000, duration: 10 },
        Transfer { bytes: 4096, duration: 2 },
    ];
    let small = small_transfers(&v);
    assert_eq!((small.count, small.bytes, small.duration, small.many), (2, 4196, 3, false));
    let classes: Vec<(usize, usize, i128, i128)> = size_distribution(&v)
        .iter()
        .map(|c| (c.class, c.count, c.duration, c.cumulative))
        .collect();
    assert_eq!(classes, vec![(0, 1, 1, 1), (1, 1, 2, 3), (3, 1, 10, 13)]);
    assert_eq!((limit(0), class_label(0), class_label(6)), (4096, "<4 KB", ">=1 GB"));
}

#[test]
fn changes_are_told_from_noise() {
    let k = |before, after| BeforeAfter { before, after };
    let percent = 10_000_000;
    assert_eq!(classify_change(k(0, 5), 1, percent), Change::New);
    assert_eq!(classify_change(k(5, 0), 1, percent), Change::Gone);
    assert_eq!(classify_change(k(100, 109), 1, percent), Change::Quiet);
    assert_eq!(classify_change(k(100, 110), 1, percent), Change::Slower);
    assert_eq!(classify_change(k(100, 90), 1, percent), Change::Faster);
    assert_eq!(classify_change(k(100, 90), 11, percent), Change::Quiet);
    let v = [k(100, 150), k(100, 200), k(100, 50), k(0, 7), k(9, 0)];
    let r = regressions(&v, 1, percent);
    assert_eq!(r.slower, vec![1, 0]);
    assert_eq!(r.faster, vec![2]);
    assert_eq!((r.new, r.gone), (vec![3], vec![4]));
    assert_eq!(r.net, 100);
    assert_eq!(largest_changes(&v), vec![1, 0, 2, 4, 3]);
}

#[test]
fn verdicts_follow_the_times() {
    assert_eq!(limiting_factor(Some(65), Some(50_000)), "registers");
    assert_eq!(limiting_factor(Some(64), Some(49_153)), "shared mem");
    assert_eq!(limiting_factor(None, None), "block size");
    assert_eq!(parallelism_verdict(104, 100), Some(Parallelism::Serial));
    assert_eq!(parallelism_verdict(105, 100), Some(Parallelism::Light));
    assert_eq!(parallelism_verdict(150, 100), Some(Parallelism::Moderate));
    assert_eq!(parallelism_verdict(250, 100), Some(Parallelism::High));
    assert_eq!(parallelism_verdict(0, 100), None);
    assert_eq!(Parallelism::Light.text(), "light overlap");
    assert!(more_streams_could_help(1, 11));
    assert!(!more_streams_could_help(2, 11));
    assert!(overhead_exceeds(2, 9_999));
    assert!(!overhead_exceeds(2, 10_000));
    assert_eq!(classify_op(100, 9), OpBound::Overhead);
    assert_eq!(classify_op(1001, 100), OpBound::Cpu);
    assert_eq!(classify_op(10, 21), OpBound::Gpu);
    assert_eq!(classify_op(50, 50), OpBound::Balanced);
    assert_eq!(classify_workload(49, 100), OpBound::Gpu);
    assert_eq!(classify_workload(101, 0), OpBound::Cpu);
    assert_eq!(assess_op(201, 100), "balanced");
    assert_eq!(assess_op(10_001, 100), "CPU-bound");
    assert_eq!(assess_op(50, 100), "GPU-bound");
}

fn facts() -> Facts {
    Facts {
        layers: Layers { nsys: true, ncu: true, torch: true, target: "train.py".to_string() },
        kernels: 2,
        failures: Vec::new(),
        top: Vec::new(),
        varying: Vec::new(),
        kernel_time: 100,
        transfer_time: 0,
        tiny: 0,
        dominant: None,
    }
}

#[test]
fn advice_is_about_what_is_missing() {
    let complete = suggest(&facts());
    assert!(complete.suggestions.is_empty());
    assert_eq!(complete.conclusion, Conclusion::AllLayers);
    assert!(missing_layers(&facts().layers).is_empty());

    let mut f = facts();
    f.layers.ncu = false;
    f.layers.torch = false;
    f.top = strings(&["a<1>", "b.c"]);
    f.varying = strings(&["v"]);
    f.transfer_time = 501;
    f.tiny = 11;
    f.dominant = Some(KernelTime { name: "a<1>".to_string(), time: 51 });
    let advice = suggest(&f);
    assert_eq!(missing_layers(&f.layers), strings(&["ncu", "torch"]));
    assert_eq!(advice.conclusion, Conclusion::Incomplete);
    let s = &advice.suggestions;
    assert_eq!(s.len(), 6);
    assert!(matches!(&s[0], Suggestion::NoMetrics(2, regex) if regex == "a<1>|b\\.c"));
    assert!(matches!(&s[1], Suggestion::NoOpMapping));
    assert!(matches!(&s[2], Suggestion::Varies(name) if name == "v"));
    assert!(matches!(&s[3], Suggestion::TransfersDominate));
    assert!(matches!(&s[4], Suggestion::ManyTinyKernels(11)));
    assert!(matches!(&s[5], Suggestion::OneKernelDominates(name) if name == "a<1>"));
}

#[test]
fn advice_on_an_empty_session_is_to_profile() {
    let mut f = facts();
    f.kernels = 0;
    assert_eq!(suggest(&f).conclusion, Conclusion::NoProfile);
    f.failures.push(("ncu".to_string(), "not found".to_string()));
    let advice = suggest(&f);
    assert_eq!(advice.conclusion, Conclusion::NoKernels);
    assert!(matches!(&advice.suggestions[0], Suggestion::Failed(phase, _) if phase == "ncu"));
}
