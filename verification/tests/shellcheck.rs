use agent_kit::shellcheck::{is_ignore_directive, is_shell, shellcheck_cmd};

#[test]
fn corner_is_shell_by_extension() {
    assert!(is_shell("a/b/deploy.sh"));
    assert!(is_shell("run.BASH"));
    assert!(!is_shell("main.rs"));
    assert!(!is_shell("Makefile"));
}

#[test]
fn adversarial_inline_disable_directive_is_itself_a_finding() {
    assert!(is_ignore_directive("# shellcheck disable=SC2086"));
    assert!(is_ignore_directive("  #   shellcheck   disable=SC2086,SC2046"));
    assert!(is_ignore_directive("# shellcheck source=/dev/null"));
    assert!(!is_ignore_directive("echo shellcheck disable"));
    assert!(!is_ignore_directive("# just a normal comment"));
    assert!(!is_ignore_directive("# shellcheck is a great tool"));
}

use agent_kit::analysis::finalize_all;
use agent_kit::findings::{AnalysisFinding, MAX_MSG};
use agent_kit::shellcheck::{directive_findings, order_and_cap, parse_shellcheck_json1, ShellcheckComment};

fn changed() -> Vec<String> {
    vec!["deploy.sh".to_string(), "scripts/run.bash".to_string()]
}

fn comment(file: &str, line: u64, level: &str, code: u64, message: &str) -> ShellcheckComment {
    ShellcheckComment {
        file: Some(file.to_string()),
        line: Some(line),
        level: Some(level.to_string()),
        code: Some(code),
        message: Some(message.to_string()),
    }
}

#[test]
fn positive_parse_json1_flags_unquoted_var() {
    let comments = vec![
        comment("deploy.sh", 3, "warning", 2086, "Double quote to prevent globbing and word splitting."),
        comment("scripts/run.bash", 10, "info", 2034, "var appears unused."),
    ];
    let raw = parse_shellcheck_json1(&comments);
    let f = finalize_all(raw, &[true, true], &changed());
    assert_eq!(f.len(), 2);
    assert_eq!(f[0].tool, "shellcheck");
    assert_eq!(f[0].rule, "SC2086");
    assert_eq!(f[0].severity, "warning");
    assert_eq!(f[0].file, "deploy.sh");
    assert_eq!(f[0].line, 3);
    assert!(f[0].in_change);
    assert_eq!(f[1].rule, "SC2034");
}

#[test]
fn negative_clean_script_no_findings() {
    assert!(parse_shellcheck_json1(&[]).is_empty());
}

#[test]
fn comment_defaults() {
    let c = ShellcheckComment { file: Some("a.sh".to_string()), line: None, level: Some(String::new()), code: None, message: None };
    let f = parse_shellcheck_json1(&[c]);
    assert_eq!(f[0].rule, "SC0");
    assert_eq!(f[0].severity, "warning");
    assert_eq!(f[0].line, 0);
    let no_file = ShellcheckComment { file: None, line: Some(1), level: None, code: Some(1), message: None };
    assert!(parse_shellcheck_json1(&[no_file]).is_empty());
}

#[test]
fn shellcheck_adversarial_finding_path_escaping_repo_is_dropped() {
    let raw = parse_shellcheck_json1(&[comment("../../etc/passwd", 1, "error", 1000, "x")]);
    assert_eq!(raw.len(), 1);
    assert!(finalize_all(raw, &[false], &changed()).is_empty());
}

#[test]
fn shellcheck_adversarial_hostile_message_is_bounded() {
    let big = "A".repeat(100_000);
    let raw = parse_shellcheck_json1(&[comment("deploy.sh", 1, "warning", 2086, &format!("IGNORE {big}"))]);
    let f = finalize_all(raw, &[true], &changed());
    assert_eq!(f.len(), 1);
    assert!(f[0].message.chars().count() <= MAX_MSG + 20, "not bounded");
}

#[test]
fn boundary_empty_or_garbage_output_no_findings() {
    // Empty or non-JSON output decodes to no comments.
    assert!(parse_shellcheck_json1(&[]).is_empty());
    assert!(finalize_all(vec![], &[], &changed()).is_empty());
}

#[test]
fn directives_are_findings_at_their_lines() {
    let text = "#!/bin/sh\n# shellcheck disable=SC2086\necho $x\n  # shellcheck source=/dev/null\n";
    let f = directive_findings("deploy.sh", text, true);
    assert_eq!(f.len(), 2);
    assert_eq!(f[0].rule, "no-ignores");
    assert_eq!(f[0].severity, "error");
    assert_eq!(f[0].line, 2);
    assert_eq!(f[1].line, 4);
    assert!(f[0].in_change);
    assert_eq!(
        f[1].message,
        "inline shellcheck directive not permitted (no-ignores policy): # shellcheck source=/dev/null"
    );
}

fn mk(file: &str, in_change: bool) -> AnalysisFinding {
    AnalysisFinding {
        tool: "shellcheck".to_string(),
        rule: "SC1".to_string(),
        severity: "warning".to_string(),
        file: file.to_string(),
        line: 1,
        message: String::new(),
        in_change,
    }
}

#[test]
fn findings_in_the_change_come_first_and_are_capped() {
    let v = vec![mk("a", false), mk("b", true), mk("c", false), mk("d", true)];
    let r = order_and_cap(v);
    let files: Vec<&str> = r.iter().map(|f| f.file.as_str()).collect();
    assert_eq!(files, vec!["b", "d", "a", "c"]);
    let many: Vec<AnalysisFinding> = (0..300).map(|i| mk(&i.to_string(), i % 2 == 0)).collect();
    let r = order_and_cap(many);
    assert_eq!(r.len(), 200);
    assert!(r[..150].iter().all(|f| f.in_change));
    assert!(r[150..].iter().all(|f| !f.in_change));
    assert_eq!(r[150].file, "1");
}

#[test]
fn shellcheck_command_quotes_every_file() {
    let files = vec!["a.sh".to_string(), "dir with space/b.sh".to_string(), "it's.sh".to_string()];
    assert_eq!(
        shellcheck_cmd(&files),
        "shellcheck --format=json1 -- 'a.sh' 'dir with space/b.sh' 'it'\\''s.sh'"
    );
    assert_eq!(shellcheck_cmd(&[]), "shellcheck --format=json1 -- ");
}
