use agent_kit::gochecks::{
    go_check_cmd, go_check_run, go_file_line, go_module, go_scope, is_safe_dir, pkg_file, quoted_scope, rel_dir, sh_quote, GoCheck,
};

fn paths(v: &[&str]) -> Vec<String> {
    v.iter().map(|s| s.to_string()).collect()
}

#[test]
fn go_scope_is_per_dir() {
    let changed = paths(&["pkg/a/a.go", "pkg/a/b.go"]);
    assert_eq!(go_scope(&changed), vec!["./pkg/a/...".to_string()]);
}

#[test]
fn adversarial_go_scope_drops_injection_and_flag_dirs() {
    let changed = paths(&[
        "pkg/$(rm -rf ~)/evil.go",
        "pkg/a b/space.go",
        "../escape/x.go",
        "-flag/x.go",
        "pkg/clean/ok.go",
    ]);
    assert_eq!(
        go_scope(&changed),
        vec!["./pkg/clean/...".to_string()],
        "only the safe package survives; hostile paths never reach the shell"
    );
}

#[test]
fn go_scope_sorted_distinct_with_root_and_non_go() {
    let changed = paths(&["z/z.go", "main.go", "a/x.go", "a/y.GO", "docs/readme.md", "z/w.go"]);
    assert_eq!(go_scope(&changed), vec!["./...".to_string(), "./a/...".to_string(), "./z/...".to_string()]);
    assert!(go_scope(&[]).is_empty());
}

#[test]
fn boundary_is_safe_dir_charset() {
    assert!(is_safe_dir("pkg/a_b/c-d.e"));
    assert!(!is_safe_dir("pkg/../x"), "no `..`");
    assert!(!is_safe_dir("pkg/-x"), "no leading `-` segment");
    assert!(!is_safe_dir("pkg/a;b"), "no shell metachar");
    assert!(!is_safe_dir("pkg/a b"), "no whitespace");
    assert!(!is_safe_dir("pkg//x"), "no empty segment");
}

#[test]
fn adversarial_sh_quote_neutralises_metacharacters() {
    assert_eq!(sh_quote("a;b"), "'a;b'");
    assert_eq!(sh_quote("$(x)"), "'$(x)'");
    assert_eq!(sh_quote("a'b"), r"'a'\''b'");
}

#[test]
fn quoted_scope_joins_quoted_args() {
    assert_eq!(quoted_scope(&paths(&["./a/...", "./b c/..."])), "'./a/...' './b c/...'");
    assert_eq!(quoted_scope(&[]), "");
}

#[test]
fn rel_dir_maps_import_to_repo_dir() {
    for (import, module, expected) in [
        ("example.com/m/pkg/foo", "example.com/m", "pkg/foo"),
        ("example.com/m", "example.com/m", ""),
        ("other.com/x", "example.com/m", "other.com/x"),
        ("example.com/m/pkg", "", "example.com/m/pkg"),
    ] {
        assert_eq!(rel_dir(import, module), expected);
    }
}

#[test]
fn pkg_file_matches_directly_and_misses_otherwise() {
    let changed = paths(&["pkg/foo/foo.go", "pkg/bar/bar.go"]);
    assert_eq!(pkg_file(&changed, "pkg/foo"), ("pkg/foo/foo.go".to_string(), true));
    assert_eq!(pkg_file(&changed, "pkg/none"), (String::new(), false));
}

#[test]
fn go_file_line_finds_first_reference() {
    assert_eq!(
        go_file_line("      /home/u/repo/pkg/x.go:42 +0x1d"),
        Some(("home/u/repo/pkg/x.go".to_string(), 42))
    );
    assert_eq!(go_file_line("  ../../etc/passwd.go:1 +0x0"), Some(("../../etc/passwd.go".to_string(), 1)));
    assert_eq!(go_file_line("no reference here"), None);
    assert_eq!(go_file_line("a.go: b.go:7"), Some(("b.go".to_string(), 7)));
    assert_eq!(go_file_line("big.go:99999999999 ok.go:3"), Some(("ok.go".to_string(), 3)));
}

#[test]
fn go_module_reads_the_module_line() {
    assert_eq!(go_module("module github.com/acme/widget\n\ngo 1.22\n"), "github.com/acme/widget");
    assert_eq!(go_module("// header\n  module   example.com/m  \nrequire x v1\n"), "example.com/m");
    assert_eq!(go_module("go 1.22\n"), "");
    assert_eq!(go_module(""), "");
    assert_eq!(go_module("modules are fun\nmodule a/b\n"), "a/b");
}

#[test]
fn go_check_commands_over_the_quoted_scope() {
    let scope = quoted_scope(&["./pkg/a".to_string(), "./pkg/b".to_string()]);
    assert_eq!(go_check_cmd(GoCheck::Race, &scope), format!("go test -race -count=1 -run . -vet=off {scope}"));
    assert_eq!(go_check_cmd(GoCheck::Bench, &scope), format!("go test -bench=. -benchmem -run=^$ -count=1 -vet=off {scope}"));
    assert_eq!(go_check_cmd(GoCheck::Cover, &scope), format!("go test -cover -run . -count=1 -vet=off {scope}"));
}

#[test]
fn go_check_run_outcomes() {
    let ok = go_check_run(GoCheck::Race, None, false, 1, 2);
    assert_eq!((ok.tool.as_str(), ok.status.as_str(), ok.finding_count), ("go test -race", "ok", 2));
    let missing = go_check_run(GoCheck::Bench, None, false, 127, 0);
    assert_eq!((missing.status.as_str(), missing.reason.as_str()), ("skipped", "go toolchain not found on PATH"));
    let slow = go_check_run(GoCheck::Cover, None, true, 0, 0);
    assert_eq!((slow.tool.as_str(), slow.status.as_str()), ("go test -cover", "timeout"));
    let broken = go_check_run(GoCheck::Race, Some("sandbox down".to_string()), false, 0, 0);
    assert_eq!((broken.status.as_str(), broken.reason.as_str()), ("failed", "sandbox down"));
}
