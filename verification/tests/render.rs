use agent_kit::analysis::AnalyzerRun;
use agent_kit::callgraph::{CallEdge, CallGraph, CallGraphNode};
use agent_kit::findings::AnalysisFinding;
use agent_kit::render::{render_facts, render_facts_with, ChangeKind, ChangedFile, ReviewBundle, ReviewCommit};
use agent_kit::signatures::SignatureChange;

fn empty_graph() -> CallGraph {
    CallGraph { nodes: vec![], edges: vec![], changed_fns: vec![], packages: vec![], truncated: false }
}

fn file(path: &str, patch: &str) -> ChangedFile {
    ChangedFile {
        path: path.to_string(),
        change: ChangeKind::Modified,
        additions: 3,
        deletions: 1,
        is_binary: false,
        noisy: false,
        patch: patch.to_string(),
    }
}

fn bundle(files: Vec<ChangedFile>) -> ReviewBundle {
    ReviewBundle {
        project: "github".to_string(),
        relationship: "own".to_string(),
        default_branch: String::new(),
        base_rev: "main".to_string(),
        head_rev: "HEAD".to_string(),
        files,
        commits: vec![],
        signatures: vec![],
        signatures_truncated: false,
        callgraph: empty_graph(),
        runs: vec![],
        findings: vec![],
        style: String::new(),
    }
}

#[test]
fn minimal_bundle_renders_exactly() {
    let out = render_facts(&bundle(vec![file("a.rs", "@@ -1 +1 @@")]));
    assert_eq!(
        out,
        "## Grounded review facts (tool-derived — not model-generated)\n\n\
         Repo: github · own · default branch `unknown`\n\
         Change: `main`..`HEAD` — 1 changed file(s)\n\
         \nFiles:\n  modified  a.rs (+3/-1)\n\
         \nDiffs:\n### a.rs\n@@ -1 +1 @@\n"
    );
}

#[test]
fn commits_and_head_body_are_listed() {
    let mut b = bundle(vec![]);
    b.default_branch = "main".to_string();
    b.commits = vec![
        ReviewCommit { short: "abc1234".to_string(), summary: "fix: x".to_string(), age_days: 2, author: "ann".to_string(), body: "line one\nline two".to_string() },
        ReviewCommit { short: "def5678".to_string(), summary: "feat: y".to_string(), age_days: 10, author: "bob".to_string(), body: String::new() },
    ];
    let out = render_facts(&b);
    assert!(out.contains("default branch `main`"));
    assert!(out.contains("\nCommits (2):\n  abc1234 fix: x (2d, ann)\n  def5678 feat: y (10d, bob)\n  ---\n  line one\n  line two\n"));
    assert!(!out.contains("Diffs:"), "no patch, no diff section");
}

#[test]
fn diffs_over_budget_are_omitted_with_a_count() {
    let big = "x".repeat(500);
    let b = bundle(vec![file("a.rs", &big), file("b.rs", "small")]);
    let unbounded = render_facts_with(&b, 0);
    assert!(unbounded.contains("### a.rs") && unbounded.contains("### b.rs"));
    let prefix_len = render_facts_with(&b, 1).find("\nDiffs:\n").unwrap() + "\nDiffs:\n".len();
    let budget = prefix_len + 100;
    let out = render_facts_with(&b, budget);
    assert!(!out.contains("### a.rs"), "the big diff does not fit");
    assert!(out.contains("### b.rs\nsmall\n"), "the small one still does");
    assert!(out.ends_with(&format!("  … 1 file diff(s) omitted (context budget {budget} bytes)\n")));
    let kept = out.find("  … 1 file").unwrap();
    assert!(kept <= budget, "kept text stays within the budget");
}

#[test]
fn file_list_is_capped_and_notes_binary_and_generated() {
    let mut files: Vec<ChangedFile> = (0..203).map(|i| file(&format!("f{i}.rs"), "")).collect();
    files[0].is_binary = true;
    files[1].noisy = true;
    files[2].change = ChangeKind::TypeChange;
    let out = render_facts(&bundle(files));
    assert!(out.contains("  modified  f0.rs (+3/-1) [binary]\n"));
    assert!(out.contains("  modified  f1.rs (+3/-1) [generated/lockfile — diff omitted]\n"));
    assert!(out.contains("  typechange f2.rs (+3/-1)\n"));
    assert!(out.contains("  modified  f199.rs"));
    assert!(!out.contains("f200.rs"));
    assert!(out.contains("  … and 3 more (omitted from the listing)\n"));
}

fn sig(file: &str, kind: &str, name: &str, before: &str, after: &str) -> SignatureChange {
    SignatureChange {
        file: file.to_string(),
        lang: "go".to_string(),
        kind: kind.to_string(),
        name: name.to_string(),
        before: before.to_string(),
        after: after.to_string(),
    }
}

#[test]
fn signature_changes_are_grouped_by_file() {
    let mut b = bundle(vec![]);
    b.signatures = vec![
        sig("a.go", "modified", "F", "func F()", "func F(x int)"),
        sig("a.go", "added", "G", "", "func G()"),
        sig("b.go", "removed", "H", "func H()", ""),
    ];
    b.signatures_truncated = true;
    let out = render_facts(&b);
    assert!(out.contains(
        "\nAPI signature changes (3):\n  a.go\n    ~ F  func F()  →  func F(x int)\n    + G  func G()\n  b.go\n    - H  func H()\n    … more signature changes omitted (cap reached)\n"
    ));
}

fn node(id: u32, package: &str, name: &str) -> CallGraphNode {
    CallGraphNode { id, package: package.to_string(), name: name.to_string(), exported: true, file: "a.go".to_string(), line: 1 }
}

#[test]
fn call_graph_shows_the_blast_radius() {
    let mut b = bundle(vec![]);
    let mut nodes = vec![node(0, "pkg", "Target"), node(1, "", "main")];
    for i in 2..12 {
        nodes.push(node(i, "c", &format!("C{i}")));
    }
    let mut edges = vec![CallEdge { caller_id: 1, callee_id: 0 }, CallEdge { caller_id: 0, callee_id: 0 }];
    for i in 2..12 {
        edges.push(CallEdge { caller_id: i, callee_id: 0 });
    }
    edges.push(CallEdge { caller_id: 0, callee_id: 1 });
    b.callgraph = CallGraph { nodes, edges, changed_fns: vec![0, 1, 99], packages: vec![], truncated: true };
    let out = render_facts(&b);
    assert!(out.contains("\nCall graph — 12 fn(s), 13 edge(s) across 0 package(s); blast radius of 3 changed fn(s):\n"));
    assert!(out.contains("  pkg.Target  ← called by main, c.C2, c.C3, c.C4, c.C5, c.C6, c.C7, c.C8 (+3 more)  · calls 2\n"));
    assert!(out.contains("  main  ← called by pkg.Target  · calls 1\n"));
    assert!(out.contains("  (graph truncated — size cap reached)\n"));
}

fn finding(file: &str, in_change: bool) -> AnalysisFinding {
    AnalysisFinding {
        tool: "gosec".to_string(),
        rule: "G1".to_string(),
        severity: "warning".to_string(),
        file: file.to_string(),
        line: 4,
        message: "m".to_string(),
        in_change,
    }
}

#[test]
fn analysis_lists_runs_then_changed_findings_first() {
    let mut b = bundle(vec![]);
    b.runs = vec![
        AnalyzerRun { tool: "gosec".to_string(), status: "ok".to_string(), reason: String::new(), duration_ms: 12, finding_count: 2 },
        AnalyzerRun { tool: "clippy".to_string(), status: "skipped".to_string(), reason: "no crate".to_string(), duration_ms: 0, finding_count: 0 },
    ];
    b.findings = vec![finding("old.go", false), finding("new.go", true)];
    let out = render_facts(&b);
    assert!(out.contains(
        "\nAnalysis (static):\n  gosec: ok (2 finding(s), 12 ms)\n  clippy: skipped (0 finding(s), 0 ms) — no crate\nFindings:\n  warning gosec/G1 new.go:4 — m\n  warning gosec/G1 old.go:4 — m [pre-existing]\n"
    ));
}

#[test]
fn no_analyzer_run_says_nothing() {
    let mut b = bundle(vec![]);
    b.findings = vec![finding("a.go", true)];
    assert!(!render_facts(&b).contains("Analysis"));
}
