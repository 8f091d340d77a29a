use agent_kit::analysis::AnalyzerRun;
use agent_kit::analyzer::{
    assemble_report, audit_args, clippy_args, deny_args, go_env, go_tool_args, gomaxprocs, lint_scope, lint_scope_args,
    plan_tool, tool_outcome, ToolExit, MAX_FINDINGS,
};
use agent_kit::findings::AnalysisFinding;

fn exit(code: i32, stdout: &str, stderr: &str) -> ToolExit {
    ToolExit { exec_error: None, timed_out: false, exit_code: code, stdout: stdout.to_string(), stderr: stderr.to_string() }
}

#[test]
fn lint_scope_is_per_package_dir_sorted_and_distinct() {
    let changed: Vec<String> =
        ["pkg/b/x.go", "pkg/a/y.go", "pkg/a/z.GO", "main.go", "lib.rs"].iter().map(|s| s.to_string()).collect();
    assert_eq!(lint_scope(&changed), vec!["./...", "./pkg/a/...", "./pkg/b/..."]);
}

#[test]
fn missing_tool_is_skipped_not_an_error() {
    let r = tool_outcome("gosec", &exit(127, "", "sh: gosec: not found"), false, 0, 5);
    assert_eq!((r.status.as_str(), r.reason.as_str()), ("skipped", "tool not found on PATH"));
    assert_eq!(r.tool, "gosec");
}

#[test]
fn timeout_and_exec_failure_are_recorded() {
    let mut x = exit(0, "", "");
    x.timed_out = true;
    assert_eq!(tool_outcome("t", &x, false, 0, 1).status, "timeout");
    let y = ToolExit { exec_error: Some("E".repeat(300)), timed_out: false, exit_code: 0, stdout: String::new(), stderr: String::new() };
    let r = tool_outcome("t", &y, false, 0, 1);
    assert_eq!(r.status, "failed");
    assert_eq!(r.reason.chars().count(), 120 + "… [truncated]".chars().count(), "bounded to 120 chars and a marker");
    assert!(r.reason.ends_with("[truncated]"));
}

#[test]
fn silent_nonzero_exit_is_a_failure_with_the_other_stream() {
    let r = tool_outcome("govet", &exit(1, "  build failed: x  ", ""), true, 0, 7);
    assert_eq!(r.status, "failed");
    assert_eq!(r.reason, "build failed: x");
    assert_eq!(r.duration_ms, 7);
}

#[test]
fn findings_make_a_nonzero_exit_ok() {
    let r = tool_outcome("golangci-lint", &exit(1, "{...}", ""), false, 3, 9);
    assert_eq!((r.status.as_str(), r.finding_count), ("ok", 3));
    let clean = tool_outcome("gofmt", &exit(0, "", ""), false, 0, u128::MAX);
    assert_eq!((clean.status.as_str(), clean.duration_ms), ("ok", u32::MAX));
}

fn run(tool: &str, status: &str) -> AnalyzerRun {
    AnalyzerRun { tool: tool.to_string(), status: status.to_string(), reason: String::new(), duration_ms: 0, finding_count: 0 }
}

fn finding(tool: &str, file: &str, line: u32, in_change: bool) -> AnalysisFinding {
    AnalysisFinding {
        tool: tool.to_string(),
        rule: "R".to_string(),
        severity: "warning".to_string(),
        file: file.to_string(),
        line,
        message: "m".to_string(),
        in_change,
    }
}

#[test]
fn report_sorts_runs_dedupes_and_puts_changed_first() {
    let runs = vec![run("gosec", "ok"), run("clippy", "skipped"), run("golangci-lint", "ok")];
    let findings = vec![
        finding("gosec", "old.go", 1, false),
        finding("golangci-lint", "new.go", 2, true),
        finding("gosec", "new.go", 2, true),
    ];
    let r = assemble_report(true, true, runs, findings);
    assert_eq!(r.language, "mixed");
    let tools: Vec<&str> = r.runs.iter().map(|x| x.tool.as_str()).collect();
    assert_eq!(tools, vec!["clippy", "golangci-lint", "gosec"]);
    assert_eq!(r.findings.len(), 2, "same (file, line, rule) from two tools kept once");
    assert_eq!(r.findings[0].file, "new.go");
    assert_eq!(r.findings[0].tool, "golangci-lint");
    assert_eq!(r.findings[1].file, "old.go");
}

#[test]
fn report_caps_findings() {
    let findings: Vec<AnalysisFinding> = (0..250).map(|i| finding("t", "a.go", i, i % 2 == 0)).collect();
    let r = assemble_report(true, false, vec![], findings);
    assert_eq!(r.language, "go");
    assert_eq!(r.findings.len(), MAX_FINDINGS);
    assert!(r.findings[..125].iter().all(|f| f.in_change));
    assert_eq!(assemble_report(false, true, vec![], vec![]).language, "rust");
}

#[test]
fn plan_tool_builds_the_command_or_skips() {
    let t = plan_tool(
        "golangci-lint",
        Some(("golangci-lint".to_string(), "run ".to_string())),
        "GOMAXPROCS=6 ",
        "--output.json.path stdout ./...",
        false,
        true,
    )
    .ok()
    .unwrap();
    assert_eq!(t.cmd, "GOMAXPROCS=6 run golangci-lint --output.json.path stdout ./...");
    assert_eq!(t.tool, "golangci-lint");
    assert!(t.network && !t.parse_stderr);
    let s = plan_tool("cargo-audit", None, "", "audit --json", false, false).err().unwrap();
    assert_eq!(s.status, "skipped");
    assert_eq!(s.reason, "tool unavailable via the configured provider");
    assert_eq!((s.duration_ms, s.finding_count), (0, 0));
}

#[test]
fn lint_scope_quotes_hostile_dirs() {
    let changed: Vec<String> = ["pkg/$(cmd)/x.go", "pkg/a/y.go", "it's/z.go", "main.go"].iter().map(|s| s.to_string()).collect();
    assert_eq!(lint_scope(&changed), vec!["./...", "./it's/...", "./pkg/$(cmd)/...", "./pkg/a/..."]);
    assert_eq!(lint_scope_args(&changed), "'./...' './it'\\''s/...' './pkg/$(cmd)/...' './pkg/a/...'");
}

#[test]
fn go_tool_args_are_exact_and_quoted() {
    let changed: Vec<String> = ["cmd/x/x.go", "cmd/x/y.GO", "lib.rs"].iter().map(|s| s.to_string()).collect();
    let a = go_tool_args(&changed, "--config '/etc/g.yml' ", 120);
    assert_eq!(a.golangci, "run --config '/etc/g.yml' --output.json.path stdout --timeout 120s './cmd/x/...'");
    assert_eq!(a.gosec, "-fmt=json -quiet './cmd/x/...'");
    assert_eq!(a.govet, "vet './cmd/x/...'");
    assert_eq!(a.gofmt, Some("-l 'cmd/x/x.go' 'cmd/x/y.GO'".to_string()));
    assert_eq!(go_tool_args(&["lib.rs".to_string()], "", 5).gofmt, None);
}

#[test]
fn gomaxprocs_shares_cpus_among_tools() {
    assert_eq!(gomaxprocs(16, 4), 4);
    assert_eq!(gomaxprocs(3, 4), 1);
    assert_eq!(gomaxprocs(8, 0), 8);
    assert_eq!(go_env(4), "GOMAXPROCS=4 ");
}

#[test]
fn rust_tool_args() {
    assert_eq!(clippy_args(&["a".to_string(), "b-c".to_string()]), "clippy --message-format=json --quiet -p a -p b-c ");
    assert_eq!(audit_args(""), "audit --json");
    assert_eq!(audit_args("--db '/db' -n "), "audit --db '/db' -n --json");
    assert_eq!(deny_args(), "--format json --offline check bans sources");
}
