use agent_kit::digest::{
    compute, should_summarize, summary_from_reply, summary_prompt, AnalysisDigest, RuleCount, DIGEST_MAX_FINDINGS,
    MAX_DIGEST_SUMMARY, SUMMARY_PROMPT_FINDINGS, SUMMARY_PROMPT_RULES,
};
use agent_kit::findings::AnalysisFinding;
use agent_kit::risk::FileRisk;

fn finding(tool: &str, rule: &str, sev: &str, file: &str, line: u32, in_change: bool) -> AnalysisFinding {
    AnalysisFinding {
        tool: tool.to_string(),
        rule: rule.to_string(),
        severity: sev.to_string(),
        file: file.to_string(),
        line,
        message: format!("{rule} at {file}:{line}"),
        in_change,
    }
}

/// Risk scores as hundredths (0.9 is 90).
fn risks(scores: &[(&str, u32)]) -> Vec<FileRisk> {
    scores
        .iter()
        .map(|(file, score)| FileRisk { file: file.to_string(), score: *score, level: "high".to_string(), reasons: vec![] })
        .collect()
}

fn digest(
    analysis: Vec<AnalysisFinding>,
    shellcheck: Vec<AnalysisFinding>,
    go_checks: Vec<AnalysisFinding>,
    nearby: Vec<AnalysisFinding>,
    risk: &[(&str, u32)],
) -> AnalysisDigest {
    compute(vec![analysis, shellcheck, go_checks, nearby], &risks(risk))
}

#[test]
fn positive_folds_every_report() {
    let d = digest(
        vec![finding("clippy", "r1", "warning", "a.rs", 1, true)],
        vec![finding("shellcheck", "SC2086", "warning", "x.sh", 2, true)],
        vec![finding("go-race", "race", "error", "y.go", 3, true)],
        vec![finding("nearby", "similar", "warning", "z.go", 4, false)],
        &[],
    );
    assert_eq!(d.total, 4);
    assert_eq!(d.findings.len(), 4);
    let d = digest(
        vec![finding("clippy", "r1", "warning", "a.rs", 1, true)],
        vec![],
        vec![finding("go-vet", "v", "error", "b.go", 2, true)],
        vec![],
        &[],
    );
    assert_eq!(d.total, 2);
}

#[test]
fn positive_ranks_in_change_and_high_risk_first() {
    let d = digest(
        vec![
            finding("clippy", "a", "warning", "low.rs", 1, true),
            finding("clippy", "b", "warning", "hi.rs", 1, true),
            finding("clippy", "c", "error", "old.rs", 1, false),
        ],
        vec![],
        vec![],
        vec![],
        &[("hi.rs", 90), ("low.rs", 10)],
    );
    let order: Vec<&str> = d.findings.iter().map(|x| x.file.as_str()).collect();
    assert_eq!(order, vec!["hi.rs", "low.rs", "old.rs"], "in-change + risk ranked");
}

#[test]
fn positive_error_before_warning_same_tier() {
    let d = digest(
        vec![
            finding("clippy", "w", "warning", "same.rs", 2, true),
            finding("clippy", "e", "error", "same.rs", 1, true),
        ],
        vec![],
        vec![],
        vec![],
        &[("same.rs", 50)],
    );
    assert_eq!(d.findings[0].severity, "error", "error foregrounded");
}

#[test]
fn positive_rule_counts_most_frequent_first() {
    let d = digest(
        vec![
            finding("golangci-lint", "errcheck", "warning", "a.go", 1, true),
            finding("golangci-lint", "errcheck", "warning", "a.go", 2, true),
            finding("golangci-lint", "errcheck", "warning", "b.go", 3, false),
            finding("golangci-lint", "gocritic", "warning", "c.go", 4, true),
        ],
        vec![],
        vec![],
        vec![],
        &[],
    );
    assert_eq!(d.rule_counts[0].rule, "errcheck");
    assert_eq!(d.rule_counts[0].count, 3);
    assert_eq!(d.rule_counts[0].in_change, 2);
    assert_eq!(d.rule_counts[1].rule, "gocritic");
    assert_eq!(d.in_change, 3);
}

#[test]
fn corner_no_findings_is_empty_digest() {
    let d = digest(vec![], vec![], vec![], vec![], &[]);
    assert_eq!(d.total, 0);
    assert!(d.findings.is_empty());
    assert!(d.rule_counts.is_empty());
}

#[test]
fn corner_no_risk_report_does_not_panic() {
    let d = digest(
        vec![
            finding("clippy", "b", "warning", "b.rs", 1, false),
            finding("clippy", "a", "error", "a.rs", 1, true),
        ],
        vec![],
        vec![],
        vec![],
        &[],
    );
    assert_eq!(d.findings[0].file, "a.rs", "in-change first even with no risk");
    assert_eq!(d.total, 2);
}

#[test]
fn boundary_cap_preserves_total() {
    for (n, expected_len) in [(DIGEST_MAX_FINDINGS as u32, DIGEST_MAX_FINDINGS), (DIGEST_MAX_FINDINGS as u32 + 1, DIGEST_MAX_FINDINGS)] {
        let findings: Vec<AnalysisFinding> = (0..n).map(|i| finding("clippy", "r", "warning", "f.rs", i, true)).collect();
        let d = digest(findings, vec![], vec![], vec![], &[]);
        assert_eq!(d.total, n, "total is the true count, pre-cap");
        assert_eq!(d.findings.len(), expected_len, "verbatim list capped");
        assert_eq!(d.rule_counts[0].count, n, "rule tally covers the whole set");
        assert_eq!(d.findings[0].line, 0, "tie-break by line");
    }
}

#[test]
fn adversarial_duplicate_finding_across_reports_deduped() {
    let dup = finding("nearby", "similar", "warning", "z.go", 7, true);
    let d = digest(vec![dup.clone()], vec![], vec![], vec![dup.clone(), dup.clone()], &[]);
    assert_eq!(d.total, 1, "identical finding across reports collapses to one");
    assert_eq!(d.rule_counts[0].count, 1);
}

#[test]
fn adversarial_finding_on_unknown_file_no_panic() {
    let d = digest(
        vec![
            finding("clippy", "a", "error", "../escape/ghost.rs", 1, true),
            finding("clippy", "b", "warning", "real.rs", 1, true),
        ],
        vec![],
        vec![],
        vec![],
        &[("real.rs", 80)],
    );
    assert_eq!(d.findings[0].file, "real.rs", "known high-risk file ranks first");
    assert_eq!(d.total, 2);
}

#[test]
fn summary_gate_at_forty_findings() {
    let findings: Vec<AnalysisFinding> = (0..40).map(|i| finding("t", "r", "warning", "f.rs", i, false)).collect();
    assert!(should_summarize(&digest(findings.clone(), vec![], vec![], vec![], &[])));
    assert!(!should_summarize(&digest(findings[..39].to_vec(), vec![], vec![], vec![], &[])));
}

fn small_digest() -> AnalysisDigest {
    AnalysisDigest {
        findings: vec![
            finding("clippy", "unwrap_used", "warning", "src/a.rs", 7, true),
            finding("gosec", "G104", "error", "b.go", 12, false),
        ],
        total: 2,
        in_change: 1,
        rule_counts: vec![
            RuleCount { tool: "clippy".to_string(), rule: "unwrap_used".to_string(), count: 1, in_change: 1 },
            RuleCount { tool: "gosec".to_string(), rule: "G104".to_string(), count: 1, in_change: 0 },
        ],
    }
}

#[test]
fn digest_summary_prompt_exact_text() {
    let p = summary_prompt(&small_digest());
    assert_eq!(
        p,
        "2 static-analysis finding(s), 1 on changed files.\n\nBy rule (most frequent first):\n  clippy/unwrap_used: 1 (1 on changed files)\n  gosec/G104: 1 (0 on changed files)\n\nTop findings (changed-file / high-risk first):\n  [warning] clippy/unwrap_used src/a.rs:7 (changed)\n  [error] gosec/G104 b.go:12 (pre-existing)\n"
    );
}

#[test]
fn digest_summary_prompt_sections_are_bounded() {
    let mut d = small_digest();
    d.rule_counts = (0..(SUMMARY_PROMPT_RULES + 5))
        .map(|i| RuleCount { tool: "t".to_string(), rule: format!("r{i}"), count: 1, in_change: 0 })
        .collect();
    d.findings = (0..(SUMMARY_PROMPT_FINDINGS as u32 + 5)).map(|i| finding("t", "r", "warning", "f.rs", i, false)).collect();
    let p = summary_prompt(&d);
    assert_eq!(p.matches(" on changed files)\n").count(), SUMMARY_PROMPT_RULES);
    assert_eq!(p.matches("(pre-existing)\n").count(), SUMMARY_PROMPT_FINDINGS);
    assert!(!p.contains(&format!("/r{}:", SUMMARY_PROMPT_RULES)));
    assert!(p.contains(&format!("/r{}:", SUMMARY_PROMPT_RULES - 1)));
}

#[test]
fn adversarial_summary_reply_is_trimmed_and_capped() {
    assert_eq!(summary_from_reply("  Two themes dominate.\n"), "Two themes dominate.");
    let s = summary_from_reply(&"x".repeat(MAX_DIGEST_SUMMARY * 4));
    assert!(s.chars().count() <= MAX_DIGEST_SUMMARY + 16, "bounded near the cap, got {}", s.chars().count());
    assert!(s.contains("[truncated]"), "truncation is honest");
    assert_eq!(summary_from_reply("   "), "");
}
