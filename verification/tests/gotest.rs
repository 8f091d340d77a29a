use agent_kit::findings::{dedupe_findings, finalize, strip_location, AnalysisFinding, MAX_MSG};
use agent_kit::gotest::{
    cov_finding, coverage_below, coverage_rows, is_float_text, no_tests_finding, parse_benches, parse_races,
};

fn changed_go() -> Vec<String> {
    vec!["pkg/foo/foo.go".to_string(), "pkg/bar/bar.go".to_string()]
}

fn chars(s: &str) -> Vec<char> {
    s.chars().collect()
}

#[test]
fn positive_detects_data_race() {
    let out = "\
==================
WARNING: DATA RACE
Write at 0x00c0000b4010 by goroutine 8:
  example.com/pkg/counter.go:21 +0x64
Previous read at 0x00c0000b4010 by goroutine 7:
  example.com/pkg/counter.go:17 +0x64
==================
FAIL";
    let f = parse_races(out);
    assert_eq!(f.len(), 1, "one data race");
    assert_eq!(f[0].rule, "data-race");
    assert_eq!(f[0].severity, "error");
    assert_eq!(f[0].file, "example.com/pkg/counter.go");
    assert_eq!(f[0].line, 21);
}

#[test]
fn negative_clean_race_output_no_findings() {
    assert!(parse_races("ok  example.com/pkg  0.5s").is_empty());
}

#[test]
fn positive_reports_bench_results() {
    let out = "\
goos: linux
BenchmarkParse-8      1000000              210.5 ns/op            48 B/op
BenchmarkEncode-8       50000             30150 ns/op
PASS";
    let f = parse_benches(out);
    assert_eq!(f.len(), 2);
    assert_eq!(f[0].rule, "bench");
    assert_eq!(f[0].severity, "info");
    assert!(f[0].message.contains("BenchmarkParse-8"));
    assert!(f[0].message.contains("210.5 ns/op"));
    assert!(f[1].message.contains("30150 ns/op"));
}

#[test]
fn boundary_no_benchmarks_no_findings() {
    assert!(parse_benches("PASS\nok  example.com/pkg  0.1s").is_empty());
}

#[test]
fn corner_bench_line_without_nsop_is_ignored() {
    assert!(parse_benches("BenchmarkX-8   this is not a valid bench line").is_empty());
}

#[test]
fn adversarial_race_path_escaping_repo_is_stripped_not_dropped() {
    let out = "WARNING: DATA RACE\n  ../../etc/passwd.go:1 +0x0\n";
    let f = parse_races(out);
    assert_eq!(f.len(), 1);
    assert_eq!(f[0].file, "../../etc/passwd.go");
    let g = strip_location(f.into_iter().next().unwrap(), false);
    assert!(g.file.is_empty(), "escaping path cleared");
    assert_eq!(g.line, 0);
}

#[test]
fn race_location_searched_within_window() {
    let mut out = String::from("WARNING: DATA RACE\n");
    for _ in 0..39 {
        out.push_str("noise\n");
    }
    out.push_str("  a/b.go:9 +0x1\n");
    let f = parse_races(&out);
    assert_eq!(f.len(), 1);
    assert!(f[0].file.is_empty(), "the reference is past the window");
    assert_eq!(f[0].message, "data race detected under `go test -race`");
}

#[test]
fn bench_value_must_be_a_number() {
    assert!(parse_benches("BenchmarkX-8 100 fast ns/op").is_empty());
    let f = parse_benches("  BenchmarkY 5 1e3 ns/op");
    assert_eq!(f.len(), 1);
    assert_eq!(f[0].message, "BenchmarkY: 1e3 ns/op");
    assert_eq!(f[0].tool, "go test -bench");
}

#[test]
fn float_text_follows_the_f64_grammar() {
    for ok in ["1", "1.", ".5", "-2.5e-3", "+inf", "NaN", "Infinity", "3E7"] {
        assert!(is_float_text(&chars(ok)), "{ok}");
        assert!(ok.parse::<f64>().is_ok());
    }
    for bad in ["", ".", "e5", "1e", "1.2.3", "12%", "abc", " 1"] {
        assert!(!is_float_text(&chars(bad)), "{bad}");
        assert!(bad.parse::<f64>().is_err());
    }
}

#[test]
fn corner_no_test_files_flagged() {
    let out = "?   example.com/m/pkg/bar   [no test files]\n";
    let rows = coverage_rows(out, "example.com/m", &changed_go());
    assert_eq!(rows.len(), 1);
    assert!(rows[0].pct.is_none());
    let f = no_tests_finding(&rows[0]);
    assert_eq!(f.rule, "no-tests");
    assert_eq!(f.file, "pkg/bar/bar.go");
    assert!(f.in_change);
    assert!(f.message.contains("no test files"));
}

#[test]
fn coverage_rows_anchor_on_changed_files() {
    let out = "ok  \texample.com/m/pkg/foo\t0.2s\tcoverage: 12.3% of statements\n";
    let rows = coverage_rows(out, "example.com/m", &changed_go());
    assert_eq!(rows.len(), 1);
    assert_eq!(rows[0].import, "example.com/m/pkg/foo");
    assert_eq!(rows[0].file, "pkg/foo/foo.go");
    assert!(rows[0].in_change);
    assert_eq!(rows[0].pct.as_deref(), Some("12.3"));
    let cached = "ok  \texample.com/m/pkg/foo\t(cached)\tcoverage: 12.3% of statements\n";
    assert_eq!(coverage_rows(cached, "example.com/m", &changed_go())[0].pct.as_deref(), Some("12.3"));
    let statusless = "\texample.com/m/pkg/bar\t\tcoverage: 0.0% of statements\n";
    let r = coverage_rows(statusless, "example.com/m", &changed_go());
    assert_eq!(r[0].file, "pkg/bar/bar.go");
    assert_eq!(r[0].pct.as_deref(), Some("0.0"));
}

#[test]
fn negative_stray_coverage_word_without_package_skipped() {
    let out = "    some log: coverage: nonsense here\n";
    assert!(coverage_rows(out, "example.com/m", &changed_go()).is_empty());
}

#[test]
fn negative_coverage_non_result_lines_skipped() {
    let out = "=== RUN TestFoo\nPASS\nsome noise\n--- FAIL: x\n";
    assert!(coverage_rows(out, "example.com/m", &changed_go()).is_empty());
}

#[test]
fn coverage_outside_module_has_no_file() {
    let out = "ok  other.com/x  0.1s  coverage: 3.0% of statements\n";
    let rows = coverage_rows(out, "example.com/m", &changed_go());
    assert_eq!(rows.len(), 1);
    assert!(rows[0].file.is_empty());
    assert!(!rows[0].in_change);
}

#[test]
fn coverage_message_is_bounded() {
    let big = "a/".repeat(100_000);
    let f = cov_finding("coverage", "", false, &big);
    assert!(f.message.chars().count() <= MAX_MSG + 20);
    assert_eq!(f.tool, "go test -cover");
    assert_eq!(f.severity, "warning");
}

fn mk(file: &str, line: u32, rule: &str, tool: &str) -> AnalysisFinding {
    AnalysisFinding {
        tool: tool.to_string(),
        rule: rule.to_string(),
        severity: "warning".to_string(),
        file: file.to_string(),
        line,
        message: "m".to_string(),
        in_change: false,
    }
}

#[test]
fn dedupe_keeps_the_first_per_location_and_rule() {
    let v = vec![mk("a.go", 1, "x", "t1"), mk("a.go", 1, "x", "t2"), mk("a.go", 2, "x", "t1"), mk("a.go", 1, "y", "t1")];
    let d = dedupe_findings(v);
    assert_eq!(d.len(), 3);
    assert_eq!(d[0].tool, "t1");
    assert_eq!(d[1].line, 2);
    assert_eq!(d[2].rule, "y");
}

#[test]
fn finalize_drops_escapers_and_tags_the_change() {
    let changed = vec!["a.go".to_string()];
    assert!(finalize(mk("a.go", 1, "x", "t"), false, &changed).is_none());
    let f = finalize(mk("a.go", 1, "x", "t"), true, &changed).unwrap();
    assert!(f.in_change);
    let g = finalize(mk("b.go", 1, "x", "t"), true, &changed).unwrap();
    assert!(!g.in_change);
}

#[test]
fn coverage_threshold_is_decided_on_the_decimal_text() {
    assert_eq!(coverage_below("12.3", 50), Some(true));
    assert_eq!(coverage_below("49.9", 50), Some(true));
    assert_eq!(coverage_below("50.0", 50), Some(false));
    assert_eq!(coverage_below("100", 80), Some(false));
    assert_eq!(coverage_below("0.0", 1), Some(true));
    assert_eq!(coverage_below("99999999999999999999999.5", 255), Some(false));
    assert_eq!(coverage_below("1e2", 80), None);
    assert_eq!(coverage_below(".5", 1), None);
    assert_eq!(coverage_below("5.", 1), None);
    assert_eq!(coverage_below("", 1), None);
}
