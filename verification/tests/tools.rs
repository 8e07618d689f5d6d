use gdbg::check::{
    check_all, check_minimum, dependencies, gpu_profiling_restricted, nsys_major_version,
};
use gdbg::collect::{
    cuda_compile_flags, decide_after_recording, detect_target, escape_python_str,
    fingerprint_lengths, layer_of, ncu_arguments, next_phase, nsight_systems,
    nsys_export_arguments, nsys_profile_arguments, target_fingerprint, torch_wrapper,
    AfterRecording, Phase, TargetKind,
};
use gdbg::deps::{
    ancestors_of, anchor_candidates, check_dep, extra_tool_dirs, find_bin, find_bundled_tool,
    find_tool_root, format_results, wanted_directory, BundledToolkit, DepStatus, Dependency,
    DependencyCheck, DirNode, SiblingFound, ToolkitAnchor, ToolkitRoot,
};

fn strings(v: &[&str]) -> Vec<String> {
    v.iter().map(|s| s.to_string()).collect()
}

#[test]
fn cuda_compile_flags_does_not_pass_lineinfo_with_capital_g() {
    let flags = cuda_compile_flags("out", "in.cu");
    assert!(flags.contains(&"-G"), "-G must stay: {flags:?}");
    assert!(!flags.contains(&"-lineinfo"), "-lineinfo must be dropped: {flags:?}");
    assert_eq!(flags, ["-g", "-G", "-o", "out", "in.cu"]);
}

#[test]
fn targets_are_told_by_name_and_imports() {
    assert_eq!(detect_target("a.cu", ""), TargetKind::CudaSource);
    assert_eq!(detect_target("a.out", "import torch"), TargetKind::Binary);
    assert_eq!(detect_target("t.py", "print(1)"), TargetKind::Python);
    assert_eq!(detect_target("t.py", "from torch import nn"), TargetKind::PythonTorch);
    assert_eq!(detect_target("t.py", "import torch\nimport triton"), TargetKind::PythonTriton);
}

#[test]
fn a_fingerprint_is_of_both_ends() {
    assert_eq!(fingerprint_lengths(10), (10, 0));
    assert_eq!(fingerprint_lengths(4096), (4096, 0));
    assert_eq!(fingerprint_lengths(4097), (4096, 4096));
    assert_eq!(fingerprint_lengths(8192), (4096, 4096));
    assert_eq!(target_fingerprint(8192, &[0; 4096], &[1; 4096]), "2000:0:1000");
    assert_eq!(target_fingerprint(3, &[1, 2, 255], &[]), "3:102:0");
    assert_eq!(target_fingerprint(8193, &[0; 4096], &[1; 4096]), "2001:0:1000");
}

#[test]
fn phases_follow_each_other() {
    let plan = |kind, found| {
        let mut phases = Vec::new();
        while let Some(phase) = next_phase(kind, found, phases.len()) {
            phases.push(phase);
        }
        phases
    };
    assert_eq!(plan(TargetKind::Binary, false), vec![Phase::Timeline, Phase::OpTimes]);
    assert_eq!(
        plan(TargetKind::CudaSource, true),
        vec![Phase::Compile, Phase::Timeline, Phase::DeepMetrics, Phase::OpTimes]
    );
    assert_eq!(
        plan(TargetKind::PythonTorch, true),
        vec![Phase::Timeline, Phase::DeepMetrics, Phase::TorchOps, Phase::OpTimes]
    );
    assert_eq!(plan(TargetKind::PythonTriton, false)[1], Phase::ProtonOps);
    assert_eq!(layer_of(Phase::Timeline), Some("nsys"));
    assert_eq!(layer_of(Phase::Compile), None);
}

#[test]
fn tools_are_called_with_their_arguments() {
    let args = strings(&["--epochs", "2"]);
    assert_eq!(
        nsys_profile_arguments("/t/trace", TargetKind::Python, "train.py", &args),
        strings(&[
            "profile",
            "-o",
            "/t/trace",
            "--force-overwrite=true",
            "--cuda-memory-usage=true",
            "python3",
            "train.py",
            "--epochs",
            "2",
        ])
    );
    assert!(!nsys_profile_arguments("b", TargetKind::Binary, "app", &[]).contains(&"python3".to_string()));
    assert_eq!(
        nsys_export_arguments("o.sqlite", "r.nsys-rep"),
        strings(&["export", "--type", "sqlite", "--output", "o.sqlite", "--force-overwrite=true", "r.nsys-rep"])
    );
    assert_eq!(
        ncu_arguments(&strings(&["a", "b"]), "app", &args),
        strings(&["--set", "full", "--csv", "--kernel-name", "regex:a|b", "app", "--epochs", "2"])
    );
}

#[test]
fn a_stream_is_imported_once() {
    assert_eq!(decide_after_recording(true, true, true, false), AfterRecording::Export);
    assert_eq!(decide_after_recording(false, true, true, false), AfterRecording::Import);
    assert_eq!(decide_after_recording(false, true, false, false), AfterRecording::ImporterMissing);
    assert_eq!(decide_after_recording(false, true, true, true), AfterRecording::NothingProduced);
    assert_eq!(decide_after_recording(false, false, true, false), AfterRecording::NothingProduced);
}

#[test]
fn names_are_quoted_for_python() {
    assert_eq!(escape_python_str("it's\\\n\r"), "'it\\'s\\\\\\n\\r'");
    let script = torch_wrapper("t'.py", &strings(&["x"]), "/tmp/o.json");
    assert!(script.starts_with("import sys, runpy\nsys.argv = ['t\\'.py', 'x']\n"), "{script}");
    assert!(script.ends_with("prof.export_chrome_trace('/tmp/o.json')\n"), "{script}");
}

#[test]
fn versions_are_release_years() {
    assert_eq!(nsys_major_version("NVIDIA Nsight Systems version 2023.4.4.54-234412822800v0"), Some(2023));
    assert_eq!(nsys_major_version("v2024.1"), Some(2024));
    assert_eq!(nsys_major_version("version 3.1"), None);
}

#[test]
fn the_driver_may_restrict_profiling() {
    assert!(gpu_profiling_restricted(Some("A: 0\nRmProfilingAdminOnly: 1\n")));
    assert!(!gpu_profiling_restricted(Some("RmProfilingAdminOnly: 0\n")));
    assert!(!gpu_profiling_restricted(None));
}

fn status(name: &'static str, ok: bool) -> DepStatus {
    DepStatus { name, ok, detail: "d".to_string(), install: "how", warning: None }
}

#[test]
fn warnings_stand_at_their_tools() {
    let all = check_all(vec![status("nsys", true), status("ncu", true)], true, Some(2023), false);
    assert!(all[0].warning.as_deref().unwrap().contains("QdstrmImporter"));
    assert!(all[1].warning.as_deref().unwrap().contains("restricted to admin"));
    let fine = check_all(vec![status("nsys", true), status("ncu", false)], true, Some(2023), true);
    assert!(fine[0].warning.is_none() && fine[1].warning.is_none());
}

#[test]
fn a_missing_recorder_is_reported() {
    assert_eq!(check_minimum(&[("gpu", vec![status("nsys", true)])]), None);
    let report = check_minimum(&[("gpu", vec![status("nsys", false)])]).unwrap();
    assert_eq!(report, "gpu:\n  nsys: MISSING (d)\n    install: how\n");
}

#[test]
fn results_are_listed_by_group() {
    let mut warned = status("ncu", true);
    warned.warning = Some("slow".to_string());
    let text = format_results(&[("a", vec![status("x", true)]), ("b", vec![warned])]);
    assert_eq!(text, "a:\n  x: ok (d)\nb:\n  ncu: ok (d)\n    WARNING: slow\n");
}

#[test]
fn a_dependency_is_found_or_missing() {
    let mut tools = dependencies();
    assert_eq!(tools.len(), 4);
    let nvcc = tools.pop().unwrap();
    let python = tools.pop().unwrap();
    let found = [Some("/usr/bin/python3".to_string())];
    let broken = check_dep(python, &found, false);
    assert!(!broken.ok);
    assert!(broken.detail.contains("found but broken"), "{}", broken.detail);
    let missing = check_dep(nvcc, &[None], true);
    assert_eq!((missing.ok, missing.detail.as_str()), (false, "not found"));
    let command = Dependency {
        name: "c",
        check: DependencyCheck::Command { program: "c", args: &[] },
        install: "",
    };
    assert_eq!(check_dep(command, &[], true).detail, "ok");
    assert_eq!(find_bin("dlv", &[None, Some("/b/dlv".to_string())]), "/b/dlv");
    assert_eq!(find_bin("dlv", &[None]), "dlv");
}

#[test]
fn tools_are_also_looked_for_at_home() {
    assert_eq!(
        extra_tool_dirs(Some("/home/u")),
        strings(&[
            "/home/u/.dotnet/tools",
            "/home/u/.ghcup/bin",
            "/home/u/.cargo/bin",
            "/home/u/.local/bin",
        ])
    );
    assert!(extra_tool_dirs(None).is_empty());
}

fn node(path: &str, name: &str, holds_tool: bool, entries: Vec<DirNode>) -> DirNode {
    DirNode { path: path.to_string(), name: name.to_string(), is_dir: true, holds_tool, entries }
}

const ROOTS: &[ToolkitRoot] = &[ToolkitRoot { path: "/opt", max_depth: 1, dir_filter: &["nsight"] }];

fn toolkit() -> BundledToolkit {
    BundledToolkit {
        name: "kit",
        bin_subdir: "host",
        roots: ROOTS,
        anchor: Some(ToolkitAnchor { bin: "nsys", walk_up: 2 }),
    }
}

#[test]
fn a_helper_is_searched_in_the_roots_first() {
    let there = node(
        "/opt",
        "opt",
        false,
        vec![node("/opt/cuda", "cuda", true, vec![]), node("/opt/nsight-1", "nsight-1", true, vec![])],
    );
    assert_eq!(
        find_bundled_tool(&toolkit(), &[there], &[], &[], "Importer").as_deref(),
        Some("/opt/nsight-1/host/Importer")
    );
    let nothing = node("/opt", "opt", false, vec![]);
    let candidates = anchor_candidates("/u/nsys/bin/nsys", 1, "host", "Importer");
    assert_eq!(
        candidates,
        strings(&["/u/nsys/bin/nsys/host/Importer", "/u/nsys/bin/host/Importer", "/u/nsys/host/Importer"])
    );
    assert_eq!(
        find_bundled_tool(&toolkit(), &[nothing], &candidates, &[false, false, true], "Importer").as_deref(),
        Some("/u/nsys/host/Importer")
    );
    assert_eq!(find_bundled_tool(&toolkit(), &[], &candidates, &[false; 3], "Importer"), None);
    assert!(!nsight_systems().roots.is_empty());
}

#[test]
fn a_helper_beside_the_anchor_is_one_level_up() {
    let candidates =
        anchor_candidates("/p/target-linux-x64/nsys", 1, "host-linux-x64", "QdstrmImporter");
    assert!(candidates.contains(&"/p/host-linux-x64/QdstrmImporter".to_string()));
    let near = anchor_candidates("/p/target-linux-x64/nsys", 0, "host-linux-x64", "QdstrmImporter");
    assert_eq!(near.len(), 2);
    let all = anchor_candidates("/a/b", usize::MAX, "s", "t");
    assert_eq!(all, strings(&["/a/b/s/t", "/a/s/t", "/s/t"]));
}

#[test]
fn names_are_filtered_by_their_beginning() {
    assert!(wanted_directory(&[], "any"));
    assert!(wanted_directory(&["nsight", "cuda"], "cuda-12"));
    assert!(!wanted_directory(&["nsight"], "my-nsight"));
}

#[test]
fn a_root_is_seen_from_its_tool() {
    assert_eq!(ancestors_of("/a/b/c", 1), strings(&["/a/b/c", "/a/b"]));
    let yes = SiblingFound { is_dir: true, has_marker: true };
    let no = SiblingFound { is_dir: true, has_marker: false };
    assert_eq!(find_tool_root("/a/bin/x", Some("lib"), &[no, no, yes], 3).as_deref(), Some("/a/lib"));
    assert_eq!(find_tool_root("/a/bin/x", Some("lib"), &[no, no, no], 3).as_deref(), Some("/a/bin"));
    assert_eq!(find_tool_root("/a/bin/x", None, &[], 3).as_deref(), Some("/a/bin"));
}
