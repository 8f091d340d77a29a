use agent_kit::cochange::{CoChangeEntry, CoChangePartner};
use agent_kit::findings::AnalysisFinding;
use agent_kit::churn::FileChurn;
use agent_kit::risk::{
    compute, FileSalience, RiskInputs, W_API_CHANGE, W_CHURN_INCREASING, W_CRITICAL_SILO,
    W_MISSING_PARTNER, W_SINGLE_OWNER, W_STATIC_FINDING,
};
use agent_kit::salience::Salience;
use agent_kit::signatures::SignatureChange;
use agent_kit::style::Ratio;

/// A gate threshold of `n` hundredths.
fn hundredths(n: u64) -> Ratio {
    Ratio { num: n, den: 100 }
}

fn facts() -> RiskInputs {
    RiskInputs { salience: vec![], churn: vec![], cochange: vec![], findings: vec![], signatures: vec![] }
}

fn silo(file: &str) -> FileSalience {
    FileSalience { file: file.to_string(), centrality: "0.90".to_string(), class: Salience::CriticalSilo }
}

fn churn(path: &str, bus_factor: u32, trend: &str) -> FileChurn {
    FileChurn { path: path.to_string(), bus_factor, churn_trend: trend.to_string(), ..Default::default() }
}

fn entry(path: &str, partner: &str, in_diff: bool) -> CoChangeEntry {
    CoChangeEntry {
        path: path.to_string(),
        partners: vec![CoChangePartner {
            path: partner.to_string(),
            confidence: Ratio { num: 9, den: 10 },
            co_occurrences: 9,
            in_diff,
        }],
    }
}

fn finding_on(file: &str) -> AnalysisFinding {
    AnalysisFinding {
        tool: String::new(),
        rule: String::new(),
        severity: String::new(),
        file: file.to_string(),
        line: 0,
        message: String::new(),
        in_change: true,
    }
}

fn change_in(file: &str) -> SignatureChange {
    SignatureChange {
        file: file.to_string(),
        lang: String::new(),
        kind: String::new(),
        name: String::new(),
        before: String::new(),
        after: String::new(),
    }
}

#[test]
fn positive_critical_silo_plus_finding_scores_and_explains() {
    let mut f = facts();
    f.salience = vec![silo("core.go")];
    f.findings = vec![finding_on("core.go")];
    let r = compute(&f, hundredths(70));
    assert_eq!(r.files.len(), 1);
    let fr = &r.files[0];
    assert_eq!(fr.score, W_CRITICAL_SILO + W_STATIC_FINDING);
    assert_eq!(fr.level, "medium", "0.55 is medium");
    assert!(!r.gate_failed, "0.55 < 0.70 threshold");
    assert!(fr.reasons.iter().all(|x| !x.kind.is_empty() && !x.detail.is_empty()));
    assert_eq!(fr.reasons[0].detail, "load-bearing (centrality 0.90) and single-owner");
    assert_eq!(fr.reasons[1].detail, "1 static-analysis finding(s)");
}

#[test]
fn corner_critical_silo_suppresses_single_owner() {
    let mut f = facts();
    f.salience = vec![silo("core.go")];
    f.churn = vec![churn("core.go", 1, "stable")];
    let r = compute(&f, hundredths(70));
    let kinds: Vec<&str> = r.files[0].reasons.iter().map(|x| x.kind.as_str()).collect();
    assert!(kinds.contains(&"load_bearing"));
    assert!(!kinds.contains(&"single_owner"), "single_owner must be suppressed under CriticalSilo");
    assert_eq!(r.files[0].score, W_CRITICAL_SILO);
}

#[test]
fn positive_additive_reasons_sum() {
    let mut f = facts();
    f.churn = vec![churn("h.rs", 1, "increasing")];
    f.cochange = vec![entry("h.rs", "schema.rs", false)];
    f.signatures = vec![change_in("h.rs")];
    let r = compute(&f, hundredths(70));
    let fr = &r.files[0];
    let expect = W_SINGLE_OWNER + W_CHURN_INCREASING + W_MISSING_PARTNER + W_API_CHANGE;
    assert_eq!(fr.score, expect, "score {} != {expect}", fr.score);
    assert_eq!(fr.level, "medium");
    assert!(!r.gate_failed, "0.60 < 0.70 threshold");
    let details: Vec<&str> = fr.reasons.iter().map(|x| x.detail.as_str()).collect();
    assert_eq!(
        details,
        vec![
            "bus factor 1 (single-owner)",
            "churn accelerating",
            "usually changes with schema.rs (absent here)",
            "public signature(s) changed"
        ]
    );
}

#[test]
fn boundary_score_caps_and_gate_threshold() {
    let mut f = facts();
    f.salience = vec![silo("x.go")];
    f.churn = vec![churn("x.go", 1, "increasing")];
    f.cochange = vec![entry("x.go", "y.go", false)];
    f.findings = vec![finding_on("x.go")];
    f.signatures = vec![change_in("x.go")];
    let r = compute(&f, hundredths(70));
    assert!(r.files[0].score <= 100);
    assert_eq!(r.files[0].score, 100, "0.35+0.10+0.20+0.20+0.15 = 1.00");
    assert_eq!(r.files[0].level, "high");
    assert!(r.gate_failed);
    assert!(!compute(&f, hundredths(0)).gate_failed);
}

#[test]
fn corner_no_signals_empty() {
    let r = compute(&facts(), hundredths(70));
    assert!(r.files.is_empty());
    assert_eq!(r.max_score, 0);
    assert!(!r.gate_failed);
}

#[test]
fn files_ordered_riskiest_first_then_by_path() {
    let mut f = facts();
    f.signatures = vec![change_in("b.rs"), change_in("a.rs"), change_in("b.rs")];
    f.findings = vec![finding_on("c.rs"), finding_on("c.rs")];
    let r = compute(&f, hundredths(15));
    let order: Vec<&str> = r.files.iter().map(|x| x.file.as_str()).collect();
    assert_eq!(order, vec!["c.rs", "a.rs", "b.rs"]);
    assert_eq!(r.files[0].reasons[0].detail, "2 static-analysis finding(s)");
    assert_eq!(r.files[1].reasons.len(), 1, "one api reason per file");
    assert_eq!(r.max_score, W_STATIC_FINDING);
    assert!(r.gate_failed);
}

#[test]
fn partners_in_the_diff_and_pre_existing_findings_do_not_count() {
    let mut f = facts();
    f.cochange = vec![entry("h.rs", "schema.rs", true)];
    let mut old = finding_on("h.rs");
    old.in_change = false;
    f.findings = vec![old];
    assert!(compute(&f, hundredths(70)).files.is_empty());
}

#[test]
fn missing_partners_are_joined() {
    let mut f = facts();
    let mut e = entry("h.rs", "a.rs", false);
    e.partners.push(CoChangePartner { path: "b.rs".to_string(), confidence: Ratio { num: 1, den: 2 }, co_occurrences: 3, in_diff: true });
    e.partners.push(CoChangePartner { path: "c.rs".to_string(), confidence: Ratio { num: 1, den: 2 }, co_occurrences: 3, in_diff: false });
    f.cochange = vec![e];
    let r = compute(&f, hundredths(70));
    assert_eq!(r.files[0].reasons[0].detail, "usually changes with a.rs, c.rs (absent here)");
    assert_eq!(r.files[0].level, "low");
}

#[test]
fn load_bearing_names_its_class() {
    let mut f = facts();
    f.salience = vec![FileSalience { file: "s.go".to_string(), centrality: "0.75".to_string(), class: Salience::FoundationalStable }];
    let r = compute(&f, hundredths(0));
    assert_eq!(r.files[0].reasons[0].detail, "load-bearing (FoundationalStable, centrality 0.75)");
    assert_eq!(r.files[0].score, 25);
    assert!(!r.gate_failed);
}

#[test]
fn gate_threshold_is_an_exact_fraction() {
    // a critical silo alone scores 0.35
    let mut f = facts();
    f.salience = vec![silo("core.go")];
    assert!(compute(&f, Ratio { num: 35, den: 100 }).gate_failed);
    assert!(!compute(&f, Ratio { num: 351, den: 1000 }).gate_failed, "0.351 is above 0.35");
    assert!(compute(&f, Ratio { num: 7, den: 20 }).gate_failed, "7/20 is 0.35");
    assert!(!compute(&f, Ratio { num: 0, den: 100 }).gate_failed, "no threshold, no gate");
    assert!(!compute(&f, Ratio { num: 1, den: 0 }).gate_failed, "a zero denominator reads as 0");
}
