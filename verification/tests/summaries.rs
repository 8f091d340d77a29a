use agent_kit::summaries::{brace_walk, file_jobs, function_bodies, job_prompt, job_summary, SummaryJob};

fn lines(v: &[&str]) -> Vec<Vec<char>> {
    v.iter().map(|l| l.chars().collect()).collect()
}

#[test]
fn positive_extracts_function_bodies_go() {
    let src = "package p\n\nfunc Foo() int {\n\treturn 1\n}\n\nfunc (s *S) Bar() {\n\tx()\n}\n";
    let b = function_bodies(src, "go");
    assert_eq!(b.len(), 2);
    assert!(b.contains_key("Foo"));
    assert!(b.contains_key("S.Bar"), "method keyed by receiver type");
    assert!(b.get("Foo").unwrap().contains("return 1"));
}

#[test]
fn positive_extracts_rust_bodies() {
    let src = "pub fn a() -> u32 {\n    1\n}\nfn b() {}\n";
    let b = function_bodies(src, "rust");
    assert_eq!(b.len(), 2);
    assert!(b.get("a").unwrap().contains("-> u32"));
}

#[test]
fn corner_unbalanced_braces_do_not_hang_or_capture() {
    let src = "func Broken() {\n\tif x {\n";
    let b = function_bodies(src, "go");
    assert!(b.is_empty(), "an unterminated body is not captured");
}

#[test]
fn boundary_empty_text_yields_no_bodies() {
    assert!(function_bodies("", "go").is_empty());
    assert!(function_bodies("// just a comment\n", "rust").is_empty());
}

#[test]
fn body_is_the_exact_lines_through_the_close() {
    let src = "fn a() {\r\n    if x {\n        y();\n    }\n}\nfn b() {}\n";
    let b = function_bodies(src, "rust");
    assert_eq!(b.get("a").unwrap(), "fn a() {\n    if x {\n        y();\n    }\n}");
    assert_eq!(b.get("b").unwrap(), "fn b() {}");
    assert_eq!(b.get("c"), None);
}

#[test]
fn first_body_of_a_key_wins() {
    let src = "fn dup() { 1 }\nfn dup() { 2 }\n";
    let b = function_bodies(src, "rust");
    assert_eq!(b.len(), 1);
    assert_eq!(b.get("dup").unwrap(), "fn dup() { 1 }");
}

#[test]
fn brace_walk_stops_where_depth_returns_to_zero() {
    let ls = lines(&["fn f()", "{", "  {", "  }", "}", "tail"]);
    assert_eq!(brace_walk(&ls, 0), (4, true, true));
    let open = lines(&["fn f() {", "  x"]);
    assert_eq!(brace_walk(&open, 0), (2, false, true));
    let none = lines(&["fn f()", "x"]);
    assert_eq!(brace_walk(&none, 0), (2, false, false));
}

#[test]
fn brace_walk_runaway_guard() {
    let mut v = vec!["fn f() {"];
    for _ in 0..6000 {
        v.push("x");
    }
    let ls = lines(&v);
    assert_eq!(brace_walk(&ls, 0), (5001, false, true));
}

#[test]
fn summary_jobs_added_modified_and_unchanged() {
    let base = function_bodies("func Keep() {\n}\nfunc Change() {\n\treturn 1\n}\n", "go");
    let head = function_bodies(
        "func Keep() {\n}\nfunc Change() {\n\treturn 2\n}\nfunc Fresh() {\n}\n",
        "go",
    );
    let jobs = file_jobs("pkg/x.go", &base, &head);
    let kinds: Vec<(&str, &str)> = jobs.iter().map(|j| (j.name.as_str(), j.kind.as_str())).collect();
    assert_eq!(kinds, vec![("Change", "modified"), ("Fresh", "added")]);
    assert_eq!(jobs[0].before, "func Change() {\n\treturn 1\n}");
    assert_eq!(jobs[0].after, "func Change() {\n\treturn 2\n}");
    assert_eq!(jobs[1].before, "");
    assert_eq!(jobs[1].file, "pkg/x.go");
}

#[test]
fn summary_job_prompts() {
    let added = SummaryJob {
        name: "Fresh".to_string(),
        file: "x.go".to_string(),
        kind: "added".to_string(),
        before: String::new(),
        after: "func Fresh() {}".to_string(),
    };
    assert_eq!(
        job_prompt(&added),
        "A new function `Fresh` was added to x.go:\n\nfunc Fresh() {}\n\nWhat does it do, in one sentence?"
    );
    let modified = SummaryJob { kind: "modified".to_string(), before: "old".to_string(), after: "new".to_string(), ..added };
    assert_eq!(
        job_prompt(&modified),
        "The function `Fresh` in x.go was modified.\n\n--- before ---\nold\n\n--- after ---\nnew\n\nWhat changed, in one sentence?"
    );
}

#[test]
fn summary_kept_from_reply_trimmed_bounded_or_none() {
    let job = || SummaryJob {
        name: "F".to_string(),
        file: "x.go".to_string(),
        kind: "added".to_string(),
        before: String::new(),
        after: "func F() {}".to_string(),
    };
    assert!(job_summary(job(), "  \n ", "local", 5).is_none());
    let s = job_summary(job(), "  Adds a helper.\n", "local", 5).unwrap();
    assert_eq!((s.summary.as_str(), s.model.as_str(), s.duration_ms), ("Adds a helper.", "local", 5));
    let long = job_summary(job(), &"w".repeat(1000), &"m".repeat(200), 1).unwrap();
    assert!(long.summary.ends_with("[truncated]"));
    assert_eq!(long.model.chars().count(), 80 + "… [truncated]".chars().count());
}
