use agent_kit::findings::AnalysisFinding;
use agent_kit::nearby::{fold_hits, introduced_symbols, nearby_run, SearchHit, MAX_NEARBY_FINDINGS};

fn diff_with(patch: &str) -> Vec<String> {
    vec![patch.to_string()]
}

#[test]
fn positive_extracts_new_declarations() {
    let d = diff_with("+fn parse_header(x: u8) {}\n+    let y = 1;\n");
    assert_eq!(introduced_symbols(&d, 24), vec!["parse_header".to_string()]);
}

#[test]
fn positive_extracts_across_languages() {
    let d = diff_with(
        "+func HandleRequest() {}\n+def compute_total():\n+class OrderService:\n+type WidgetSet struct{}\n",
    );
    let got = introduced_symbols(&d, 24);
    assert!(got.contains(&"HandleRequest".to_string()));
    assert!(got.contains(&"compute_total".to_string()));
    assert!(got.contains(&"OrderService".to_string()));
    assert!(got.contains(&"WidgetSet".to_string()));
}

#[test]
fn negative_removed_lines_are_ignored() {
    let d = diff_with("-fn gone_function() {}\n context line\n");
    assert!(
        introduced_symbols(&d, 24).is_empty(),
        "declarations on removed/context lines are not 'introduced'"
    );
}

#[test]
fn negative_diff_file_header_not_treated_as_symbol() {
    let d = diff_with("+++ b/src/x.rs\n+fn kept_symbol() {}\n");
    assert_eq!(introduced_symbols(&d, 24), vec!["kept_symbol".to_string()]);
}

#[test]
fn boundary_short_names_below_min_len_skipped() {
    let d = diff_with("+fn ok() {}\n+fn also() {}\n");
    assert_eq!(introduced_symbols(&d, 24), vec!["also".to_string()]);
}

#[test]
fn boundary_symbol_cap_is_respected() {
    let mut patch = String::new();
    for i in 0..100 {
        patch.push_str(&format!("+fn function_number_{i:03}() {{}}\n"));
    }
    assert_eq!(introduced_symbols(&diff_with(&patch), 24).len(), 24);
}

#[test]
fn corner_duplicate_symbol_deduped() {
    let d = diff_with("+fn repeated_name() {}\n+fn repeated_name() {}\n");
    assert_eq!(introduced_symbols(&d, 24), vec!["repeated_name".to_string()]);
}

#[test]
fn adversarial_overlong_and_injection_names_rejected() {
    let long = "a".repeat(128 + 1);
    let d = diff_with(&format!(
        "+fn {long}() {{}}\n+fn ../../etc {{}}\n+fn name;rm -rf {{}}\n"
    ));
    let got = introduced_symbols(&d, 24);
    assert!(!got.iter().any(|s| s.len() > 128), "over-length symbol rejected");
    assert!(
        !got.iter().any(|s| s.contains('/') || s.contains(';') || s.contains('.')),
        "no path/shell metacharacters survive into a query term: {got:?}"
    );
}

#[test]
fn symbols_are_sorted_across_patches_and_keywords_need_a_boundary() {
    let d = vec![
        "+struct Zebra;\n+impl Apple {}\n".to_string(),
        "+xfn hidden_one() {}\n+pub fn Middle() {}\n+fnord notkeyword\n".to_string(),
    ];
    assert_eq!(
        introduced_symbols(&d, 10),
        vec!["Apple".to_string(), "Middle".to_string(), "Zebra".to_string()]
    );
    assert_eq!(introduced_symbols(&d, 1), vec!["Apple".to_string()]);
}

fn hit(path: &str, line: u32) -> SearchHit {
    SearchHit { path: path.to_string(), confined: !path.starts_with(".."), line }
}

#[test]
fn nearby_hits_outside_the_change_become_findings() {
    let changed = vec!["widget.go".to_string()];
    let mut found: Vec<AnalysisFinding> = Vec::new();
    fold_hits(&mut found, "WidgetProcessor", &[hit("widget.go", 10), hit("caller.go", 3), hit("../../x.go", 1)], &changed);
    assert_eq!(found.len(), 1, "in-change and escaping hits are dropped");
    let f = &found[0];
    assert_eq!(f.file, "caller.go");
    assert_eq!(f.line, 3);
    assert_eq!(f.rule, "similar-code");
    assert_eq!(f.severity, "info");
    assert_eq!(f.tool, "nearby-similar");
    assert!(!f.in_change);
    assert_eq!(
        f.message,
        "`WidgetProcessor` (introduced/changed here) also appears in this file — check whether it needs the same change or is a duplicate"
    );
}

#[test]
fn nearby_findings_capped() {
    let hits: Vec<SearchHit> = (0..10).map(|i| hit(&format!("f{i}.go"), i)).collect();
    let mut found: Vec<AnalysisFinding> = Vec::new();
    for _ in 0..30 {
        if found.len() >= MAX_NEARBY_FINDINGS {
            break;
        }
        fold_hits(&mut found, "SomeSymbol", &hits, &[]);
    }
    assert_eq!(found.len(), MAX_NEARBY_FINDINGS);
}

#[test]
fn nearby_run_status_from_query_outcomes() {
    let ok = nearby_run(0, 3, 3, 12, 4);
    assert_eq!((ok.status.as_str(), ok.reason.as_str(), ok.finding_count), ("ok", "", 4));
    let partial = nearby_run(1, 2, 3, 12, 4);
    assert_eq!((partial.status.as_str(), partial.reason.as_str()), ("partial", "1 of 3 queries failed"));
    let skipped = nearby_run(3, 0, 3, 12, 0);
    assert_eq!((skipped.status.as_str(), skipped.reason.as_str()), ("skipped", "search backend rejected every query"));
    assert_eq!(skipped.tool, "nearby-similar");
}
