use agent_kit::render::ChangeKind;
use agent_kit::signatures::{
    add_file_changes, bound, diff_sigs, extract, recv_type, side_paths, side_usable, signature_from, SignatureChange, MAX_CHANGES,
    MAX_SIG,
};

fn chars(s: &str) -> Vec<char> {
    s.chars().collect()
}

fn text(v: &[char]) -> String {
    v.iter().collect()
}

#[test]
fn positive_go_signature_modified() {
    let base = "package p\n\nfunc Foo(a int) error {\n\treturn nil\n}\n";
    let head = "package p\n\nfunc Foo(a, b int) error {\n\treturn nil\n}\n";
    let changes = diff_sigs(extract(base, "go"), extract(head, "go"));
    assert_eq!(changes.len(), 1);
    assert_eq!(changes[0].kind, "modified");
    assert_eq!(changes[0].name, "Foo");
    assert_eq!(changes[0].before, "func Foo(a int) error");
    assert_eq!(changes[0].after, "func Foo(a, b int) error");
}

#[test]
fn positive_go_method_receiver_disambiguates() {
    let base = "package p\nfunc (a *A) Run() {}\nfunc (b *B) Run() {}\n";
    let head = "package p\nfunc (a *A) Run(x int) {}\nfunc (b *B) Run() {}\n";
    let changes = diff_sigs(extract(base, "go"), extract(head, "go"));
    assert_eq!(changes.len(), 1, "only A.Run changed");
    assert_eq!(changes[0].kind, "modified");
    assert_eq!(changes[0].after, "func (a *A) Run(x int)");
}

#[test]
fn positive_rust_added_and_removed() {
    let base = "pub fn keep() {}\nfn gone(x: u32) -> bool { true }\n";
    let head = "pub fn keep() {}\npub async fn fresh(y: &str) -> Result<()> { Ok(()) }\n";
    let mut changes = diff_sigs(extract(base, "rust"), extract(head, "rust"));
    changes.sort_by_key(|c| c.kind.clone());
    assert_eq!(changes.len(), 2);
    assert_eq!(changes[0].kind, "added");
    assert_eq!(changes[0].name, "fresh");
    assert!(changes[0]
        .after
        .contains("async fn fresh(y: &str) -> Result<()>"));
    assert_eq!(changes[1].kind, "removed");
    assert_eq!(changes[1].name, "gone");
}

#[test]
fn corner_rust_multiline_signature_normalized_to_one_line() {
    let base = "fn f(a: u32) {}\n";
    let head = "fn f(\n    a: u32,\n    b: u32,\n) -> u32 {\n    a\n}\n";
    let changes = diff_sigs(extract(base, "rust"), extract(head, "rust"));
    assert_eq!(changes.len(), 1);
    assert_eq!(changes[0].kind, "modified");
    assert_eq!(changes[0].after, "fn f( a: u32, b: u32, ) -> u32");
    assert!(!changes[0].after.contains('\n'));
}

#[test]
fn corner_identical_files_yield_no_changes() {
    let src = "package p\nfunc A() {}\nfunc B() int { return 1 }\n";
    assert!(diff_sigs(extract(src, "go"), extract(src, "go")).is_empty());
}

#[test]
fn boundary_empty_side_is_all_added_or_removed() {
    let head = "package p\nfunc New() {}\n";
    let added = diff_sigs(extract("", "go"), extract(head, "go"));
    assert_eq!(added.len(), 1);
    assert_eq!(added[0].kind, "added");
    let removed = diff_sigs(extract(head, "go"), extract("", "go"));
    assert_eq!(removed[0].kind, "removed");
}

#[test]
fn adversarial_hostile_long_signature_is_bounded() {
    let big = "a: u32, ".repeat(10_000);
    let head = format!("fn f({big}) {{}}\n");
    let sigs = extract(&head, "rust");
    assert_eq!(sigs.len(), 1);
    assert!(
        sigs[0].sig.chars().count() <= MAX_SIG + 20,
        "signature not bounded"
    );
}

#[test]
fn adversarial_garbage_input_never_panics() {
    for junk in ["func func func", "fn fn ( ) ) )", "\0\0func\0", "))((", ""] {
        let _ = diff_sigs(extract(junk, "go"), extract(junk, "rust"));
    }
}

#[test]
fn keys_come_out_sorted_and_grouped() {
    let base = "fn zeta() {}\nfn alpha() {}\n";
    let head = "fn zeta(x: u8) {}\nfn alpha(y: u8) {}\nfn mid() {}\n";
    let changes = diff_sigs(extract(base, "rust"), extract(head, "rust"));
    let names: Vec<&str> = changes.iter().map(|c| c.name.as_str()).collect();
    assert_eq!(names, vec!["alpha", "mid", "zeta"]);
    assert_eq!(changes[1].kind, "added");
    assert_eq!(changes[1].before, "");
    assert!(changes.iter().all(|c| c.file.is_empty() && c.lang.is_empty()));
}

#[test]
fn reordered_duplicates_cancel_out() {
    let base = "fn f(a: u8) {}\nfn f(b: u8) {}\n";
    let head = "fn f(b: u8) {}\nfn f(a: u8) {}\n";
    assert!(diff_sigs(extract(base, "rust"), extract(head, "rust")).is_empty());
}

#[test]
fn signature_stops_at_semicolon_and_bounds_lines() {
    assert_eq!(text(&signature_from(&chars("fn f(x: u8);\nfn g() {}"))), "fn f(x: u8)");
    let many = "fn f(\n\n\n\n\n\n\n\na) {}";
    assert_eq!(text(&signature_from(&chars(many))), "fn f(");
}

#[test]
fn recv_type_takes_last_token_without_stars() {
    assert_eq!(text(&recv_type(&chars("s *Server"))), "Server");
    assert_eq!(text(&recv_type(&chars("Server"))), "Server");
    assert_eq!(text(&recv_type(&chars("  "))), "");
}

#[test]
fn bound_cuts_with_an_ellipsis() {
    assert_eq!(text(&bound(&chars("abcdef"), 3)), "abc… [truncated]");
    assert_eq!(text(&bound(&chars("abc"), 3)), "abc");
}

#[test]
fn go_method_key_is_receiver_qualified() {
    let sigs = extract("func (s *Server) Run() {}\nfunc Run() {}\n", "go");
    assert_eq!(sigs.len(), 2);
    assert_eq!(sigs[0].key, "Server.Run");
    assert_eq!(sigs[0].name, "Run");
    assert_eq!(sigs[1].key, "Run");
}

#[test]
fn side_paths_by_change_kind() {
    let s = |x: &str| Some(x.to_string());
    assert_eq!(side_paths(ChangeKind::Added, &s("a.go"), &None), (None, s("a.go")));
    assert_eq!(side_paths(ChangeKind::Deleted, &None, &s("a.go")), (s("a.go"), None));
    assert_eq!(side_paths(ChangeKind::Modified, &s("a.go"), &None), (s("a.go"), s("a.go")));
    assert_eq!(side_paths(ChangeKind::Renamed, &s("new.go"), &s("old.go")), (s("old.go"), s("new.go")));
    assert!(side_usable(false, 1_000_000));
    assert!(!side_usable(false, 1_000_001));
    assert!(!side_usable(true, 10));
}

fn change(name: &str) -> SignatureChange {
    SignatureChange {
        file: String::new(),
        lang: String::new(),
        kind: "added".to_string(),
        name: name.to_string(),
        before: String::new(),
        after: format!("func {name}()"),
    }
}

#[test]
fn file_changes_stamped_and_capped() {
    let mut all: Vec<SignatureChange> = Vec::new();
    assert!(!add_file_changes(&mut all, "../x.go", "go", false, vec![change("A")]));
    assert!(all.is_empty(), "an escaping file adds nothing");
    assert!(!add_file_changes(&mut all, "a.go", "go", true, vec![change("A"), change("B")]));
    assert_eq!((all[1].file.as_str(), all[1].lang.as_str(), all[1].name.as_str()), ("a.go", "go", "B"));
    let many: Vec<SignatureChange> = (0..MAX_CHANGES).map(|i| change(&format!("F{i}"))).collect();
    assert!(add_file_changes(&mut all, "b.go", "go", true, many));
    assert_eq!(all.len(), MAX_CHANGES);
}

#[test]
fn empty_side_yields_one_kind() {
    let h = "func A() {}\nfunc B(x int) {}\n";
    let added = diff_sigs(vec![], extract(h, "go"));
    assert_eq!(added.len(), 2);
    assert!(added.iter().all(|c| c.kind == "added"));
    let removed = diff_sigs(extract(h, "go"), vec![]);
    assert_eq!(removed.len(), 2);
    assert!(removed.iter().all(|c| c.kind == "removed"));
    assert!(diff_sigs(extract(h, "go"), extract(h, "go")).is_empty());
}
