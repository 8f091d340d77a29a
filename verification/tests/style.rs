use agent_kit::style::{
    case_of, classify, commit_style, diff_matches, is_conventional, is_source, majority, median, pct,
    percentile_hist, Acc, CommitText, Kind, Ratio, CAMEL, MAX_LINE, MIXED, PASCAL, SCREAMING,
    SNAKE,
};

fn ratio(r: Ratio) -> f32 {
    if r.den == 0 {
        0.0
    } else {
        (r.num as f64 / r.den as f64) as f32
    }
}

fn conventional_re_is_match(s: &str) -> bool {
    is_conventional(s)
}

#[test]
fn positive_go_fingerprint_comments_indent_naming() {
    let src = "package p\n\n// Doc for Foo.\nfunc Foo() int {\n\treturn 1\n}\n\nfunc bar() {\n\thelperThing()\n}\n";
    let mut a = Acc::default();
    a.scan(src, "go");
    let f = a.finish();
    assert!(f.indent_tabs, "tab-indented bodies");
    assert!(ratio(f.comment_density) > 0.0);
    assert!(!f.naming.functions.is_empty());
    assert!(
        (ratio(f.naming.exported_ratio) - 0.5).abs() < 0.01,
        "1 of 2 exported"
    );
}

#[test]
fn positive_case_classification() {
    assert_eq!(case_of("fooBar"), CAMEL);
    assert_eq!(case_of("FooBar"), PASCAL);
    assert_eq!(case_of("foo_bar"), SNAKE);
    assert_eq!(case_of("FOO_BAR"), SCREAMING);
    assert_eq!(case_of("Foo_bar"), MIXED);
}

#[test]
fn positive_percentile_and_median() {
    let mut hist = [0u64; MAX_LINE + 1];
    for len in [10u64, 20, 30, 40, 100] {
        hist[len as usize] += 1;
    }
    assert_eq!(percentile_hist(&hist, 95), 100);
    assert_eq!(median(&[3, 1, 2]), 2);
    assert_eq!(median(&[]), 0);
}

#[test]
fn positive_rust_naming_and_fn_length() {
    let src = "pub fn do_thing(x: u32) -> u32 {\n    let count = x;\n    count\n}\n\nfn helper() {}\n";
    let mut a = Acc::default();
    a.scan(src, "rust");
    let f = a.finish();
    assert_eq!(f.naming.functions, "snake");
    assert!((ratio(f.naming.exported_ratio) - 0.5).abs() < 0.01);
    assert!(f.fn_len_median >= 1);
    assert!(!f.indent_tabs, "space-indented");
}

#[test]
fn corner_conventional_commit_detection() {
    assert!(conventional_re_is_match("feat(review): add style"));
    assert!(conventional_re_is_match("fix: bug"));
    assert!(!conventional_re_is_match("Add a thing"));
    assert!(!conventional_re_is_match("WIP"));
}

#[test]
fn adversarial_hostile_lines_bounded_no_oom() {
    let huge = "x".repeat(10_000_000);
    let src = format!("fn f() {{\nlet a = 1;\n{huge}\n}}\n");
    let mut a = Acc::default();
    a.scan(&src, "rust");
    let f = a.finish();
    assert_eq!(f.line_len_p95, MAX_LINE as u32, "clamped to the cap");
}

#[test]
fn boundary_empty_and_unknown() {
    let a = Acc::default();
    let f = a.finish();
    assert_eq!(ratio(f.comment_density), 0.0);
    assert_eq!(f.naming.functions, "unknown");
    assert_eq!(f.line_len_p95, 0);
    assert!(a.finish_if_seen().is_none(), "never scanned ⇒ None");
}

#[test]
fn exact_counts_of_a_go_file() {
    let src = "package p\n\n// Doc for Foo.\nfunc Foo() int {\n\treturn 1\n}\n\n/* block\n still */\nfunc bar() {\n\thelperThing()\n}\n";
    let mut a = Acc::default();
    a.scan(src, "go");
    assert_eq!(a.comment_lines, 3);
    assert_eq!(a.leading_comments, 2);
    assert_eq!(a.code_lines, 7);
    assert_eq!(a.tab_indents, 2);
    assert_eq!(a.fn_total, 2);
    assert_eq!(a.fn_exported, 1);
    assert_eq!(a.fn_hist, vec![3, 3]);
    assert!(a.seen);
    let f = a.finish();
    assert_eq!(f.comment_density, Ratio { num: 3, den: 7 });
    assert_eq!(f.doccomment_ratio, Ratio { num: 2, den: 3 });
    assert_eq!(f.fn_len_median, 3);
}

#[test]
fn variables_and_constants_are_classified() {
    let src = "package p\nconst MaxSize = 3\nfunc f() {\n\tmyValue := 1\n\tvar other_one := 2\n}\n";
    let mut a = Acc::default();
    a.scan(src, "go");
    assert_eq!(a.var_case, vec![1, 0, 1, 0, 0]);
    assert_eq!(a.const_case, vec![0, 1, 0, 0, 0]);
    let rs = "pub const LIMIT: u32 = 1;\nstatic mut COUNTER: u8 = 0;\nfn g() { let mut total = 0; let x = 1; }\n";
    let mut b = Acc::default();
    b.scan(rs, "rust");
    assert_eq!(b.const_case, vec![0, 0, 0, 2, 0]);
    assert_eq!(b.var_case, vec![0, 0, 2, 0, 0]);
}

#[test]
fn line_kinds_track_block_comments() {
    let lines: Vec<Vec<char>> = ["x = 1", "/* a", "b */ y", "", "# py", "// c"]
        .iter()
        .map(|l| l.chars().collect())
        .collect();
    let k = classify(&lines, "rust");
    assert!(k == vec![Kind::Code, Kind::Comment, Kind::Comment, Kind::Blank, Kind::Code, Kind::Comment]);
    let p = classify(&lines, "python");
    assert!(p == vec![Kind::Code, Kind::Code, Kind::Code, Kind::Blank, Kind::Comment, Kind::Code]);
}

#[test]
fn majority_keeps_the_last_of_equal_maxima() {
    assert_eq!(majority(&[2, 0, 2, 0, 0]), "snake");
    assert_eq!(majority(&[0, 0, 0, 0, 0]), "unknown");
    assert_eq!(majority(&[0, 0, 0, 0, 1]), "mixed");
}

#[test]
fn percentiles_of_sorted_values() {
    assert_eq!(pct(&[1, 2, 3, 4, 5, 6, 7, 8, 9, 10], 50), 5);
    assert_eq!(pct(&[1, 2, 3, 4, 5, 6, 7, 8, 9, 10], 95), 10);
    assert_eq!(pct(&[], 50), 0);
    assert_eq!(median(&[4, 1, 3, 2]), 3);
}

#[test]
fn commit_style_counts_conventions() {
    let commits = vec![
        CommitText { summary: "feat: one".to_string(), body: "why\n".to_string() },
        CommitText { summary: "Fix two".to_string(), body: "  \n".to_string() },
        CommitText { summary: "chore(ci)!: three".to_string(), body: String::new() },
    ];
    let c = commit_style(&commits);
    assert_eq!(c.sampled_commits, 3);
    assert_eq!(c.conventional_ratio, Ratio { num: 2, den: 3 });
    assert_eq!(c.body_present_ratio, Ratio { num: 1, den: 3 });
    assert_eq!(c.subject_len_p50, 9);
    assert_eq!(c.subject_len_p95, 17);
    assert_eq!(commit_style(&[]).sampled_commits, 0);
}

#[test]
fn conformance_compares_indent_and_fn_naming() {
    let mut a = Acc::default();
    a.scan("fn a_b() {\n    x\n}\n", "rust");
    let base = a.finish();
    let mut b = Acc::default();
    b.scan("fn c_d() {\n    y\n}\n", "rust");
    assert!(diff_matches(&base, &Some(b.finish())));
    let mut c = Acc::default();
    c.scan("fn cD() {\n\ty\n}\n", "rust");
    assert!(!diff_matches(&base, &Some(c.finish())));
    assert!(diff_matches(&base, &None));
}

#[test]
fn style_source_files_by_language_not_noise() {
    assert!(is_source("src/main.rs", false));
    assert!(is_source("cmd/x.go", false));
    assert!(is_source("lib/a.py", false));
    assert!(!is_source("src/main.rs", true), "noisy files never count");
    assert!(!is_source("README.md", false));
    assert!(!is_source("Cargo.toml", false));
    assert!(!is_source("Makefile", false));
}
