use agent_kit::decode::{
    audit_output_report, clippy_output_lines, deny_output_lines, golangci_output_issues, gosec_output_issues,
    graph_output, json_lines, parse_cargo_audit_output, parse_clippy_output, parse_golangci_output,
    parse_shellcheck_output, shellcheck_output_comments,
};
use agent_kit::json::{parse_json, Json};

fn s(x: &str) -> Option<String> {
    Some(x.to_string())
}

#[test]
fn json_text_decodes_to_plain_values() {
    let doc = parse_json(r#"{"b": [1, -2, 2.5, true, null, "x"], "a": {}}"#).unwrap();
    let Json::Obj(ms) = doc else { panic!("an object") };
    let names: Vec<&str> = ms.iter().map(|(k, _)| k.as_str()).collect();
    assert_eq!(names, vec!["a", "b"]);
    let Json::Arr(items) = &ms[1].1 else { panic!("a list") };
    assert!(matches!(items[0], Json::Num(Some(1))));
    assert!(matches!(items[1], Json::Num(None)), "negative numbers are no u64");
    assert!(matches!(items[2], Json::Num(None)), "fractions are no u64");
    assert!(matches!(items[3], Json::Bool(true)));
    assert!(matches!(items[4], Json::Null));
    assert!(matches!(items[5], Json::Str(ref t) if t == "x"));
    assert!(parse_json("not json").is_none());
    assert!(parse_json("{} {}").is_none());
}

#[test]
fn golangci_issues_are_read_member_by_member() {
    let out = r#"{"Issues":[
        {"FromLinter":"errcheck","Text":"unchecked error","Severity":"error","Pos":{"Filename":"a/b.go","Line":12}},
        {"FromLinter":"vet","Text":7,"Pos":{"Line":-3}}
    ],"Report":{}}"#;
    let issues = golangci_output_issues(out);
    assert_eq!(issues.len(), 2);
    assert_eq!(issues[0].from_linter, s("errcheck"));
    assert_eq!(issues[0].text, s("unchecked error"));
    assert_eq!(issues[0].filename, s("a/b.go"));
    assert_eq!(issues[0].line, Some(12));
    assert_eq!(issues[0].severity, s("error"));
    assert_eq!(issues[1].from_linter, s("vet"));
    assert_eq!(issues[1].text, None, "a number is not text");
    assert_eq!(issues[1].filename, None);
    assert_eq!(issues[1].line, None);
    assert!(golangci_output_issues("golangci-lint: panic").is_empty());
    assert!(golangci_output_issues(r#"{"Issues": {}}"#).is_empty());
}

#[test]
fn golangci_output_becomes_findings() {
    let out = r#"{"Issues":[{"FromLinter":"errcheck","Text":"unchecked","Severity":"","Pos":{"Filename":"a.go","Line":3}}]}"#;
    let f = parse_golangci_output(out, &["a.go".to_string()], &["a.go".to_string()]);
    assert_eq!(f.len(), 1);
    assert_eq!((f[0].tool.as_str(), f[0].rule.as_str(), f[0].file.as_str(), f[0].line), ("golangci-lint", "errcheck", "a.go", 3));
    assert!(f[0].in_change);
    assert!(parse_golangci_output("", &[], &[]).is_empty());
}

#[test]
fn gosec_line_is_text() {
    let out = r#"{"Issues":[{"rule_id":"G104","details":"errors unhandled","file":"/r/x.go","line":"12-14","severity":"LOW"}]}"#;
    let issues = gosec_output_issues(out);
    assert_eq!(issues.len(), 1);
    assert_eq!(issues[0].rule_id, s("G104"));
    assert_eq!(issues[0].file, s("/r/x.go"));
    assert_eq!(issues[0].line, s("12-14"));
    assert_eq!(issues[0].severity, s("LOW"));
}

#[test]
fn json_lines_skip_what_is_not_json() {
    let docs = json_lines("{\"a\":1}\nplain text\r\n[]\n");
    assert_eq!(docs.len(), 2);
    assert!(matches!(docs[0], Json::Obj(_)));
    assert!(matches!(docs[1], Json::Arr(_)));
}

#[test]
fn clippy_messages_are_read_per_line() {
    let out = [
        r#"{"reason":"compiler-artifact","target":{}}"#,
        "Compiling foo",
        r#"{"reason":"compiler-message","message":{"level":"warning","message":"unused","code":{"code":"dead_code"},"spans":[{"is_primary":true,"file_name":"src/a.rs","line_start":4}]}}"#,
    ]
    .join("\n")
        + "\n";
    let out = out.as_str();
    let lines = clippy_output_lines(out);
    assert_eq!(lines.len(), 2);
    assert_eq!(lines[0].reason, s("compiler-artifact"));
    assert!(!lines[0].has_message);
    assert!(lines[0].spans.is_none());
    assert!(lines[1].has_message);
    assert_eq!(lines[1].level, s("warning"));
    assert_eq!(lines[1].code, s("dead_code"));
    assert_eq!(lines[1].text, s("unused"));
    let spans = lines[1].spans.as_ref().unwrap();
    assert_eq!(spans.len(), 1);
    assert_eq!((spans[0].is_primary, spans[0].file_name.clone(), spans[0].line_start), (Some(true), s("src/a.rs"), Some(4)));
    let f = parse_clippy_output(out, &["src/a.rs".to_string()], &[]);
    assert_eq!(f.len(), 1);
    assert_eq!((f[0].rule.as_str(), f[0].file.as_str(), f[0].line), ("dead_code", "src/a.rs", 4));
}

#[test]
fn deny_reads_the_first_label_only() {
    let err = [
        r#"{"type":"diagnostic","fields":{"severity":"error","code":"banned","message":"crate banned","labels":[{"line":7,"span":"openssl"},{"line":9,"span":"x"}]}}"#,
        r#"{"type":"summary"}"#,
    ]
    .join("\n");
    let err = err.as_str();
    let lines = deny_output_lines(err);
    assert_eq!(lines.len(), 2);
    assert_eq!(lines[0].kind, s("diagnostic"));
    assert!(lines[0].has_fields);
    assert_eq!(lines[0].severity, s("error"));
    assert_eq!(lines[0].code, s("banned"));
    assert_eq!(lines[0].label_line, Some(7));
    assert_eq!(lines[0].label_span, s("openssl"));
    assert!(!lines[1].has_fields);
    assert_eq!(lines[1].label_line, None);
}

#[test]
fn audit_report_keeps_vulnerabilities_and_list_valued_warnings() {
    let out = r#"{"vulnerabilities":{"found":true,"list":[{"advisory":{"id":"RUSTSEC-1","title":"bad"},"package":{"name":"foo","version":"1.0.0"}}]},
        "warnings":{"yanked":[{"advisory":null,"package":{"name":"bar","version":"0.1.0"}}],"unmaintained":[],"note":"x"}}"#;
    let rep = audit_output_report(out);
    assert_eq!(rep.vulnerabilities.len(), 1);
    assert_eq!(rep.vulnerabilities[0].advisory_id, s("RUSTSEC-1"));
    assert_eq!(rep.vulnerabilities[0].pkg_version, s("1.0.0"));
    let kinds: Vec<&str> = rep.warnings.iter().map(|(k, _)| k.as_str()).collect();
    assert_eq!(kinds, vec!["unmaintained", "yanked"], "list-valued members only, in key order");
    assert_eq!(rep.warnings[1].1.len(), 1);
    assert_eq!(rep.warnings[1].1[0].pkg_name, s("bar"));
    assert_eq!(rep.warnings[1].1[0].advisory_id, None);
    let empty = audit_output_report("error: not json");
    assert!(empty.vulnerabilities.is_empty() && empty.warnings.is_empty());
    let f = parse_cargo_audit_output(out, true, &["Cargo.lock".to_string()]);
    assert_eq!(f.len(), 2);
    assert_eq!((f[0].rule.as_str(), f[0].severity.as_str()), ("RUSTSEC-1", "error"));
}

#[test]
fn shellcheck_json1_comments_become_findings() {
    let out = r#"{"comments":[{"file":"run.sh","line":3,"endLine":3,"column":1,"level":"warning","code":2086,"message":"Double quote"}]}"#;
    let cs = shellcheck_output_comments(out);
    assert_eq!(cs.len(), 1);
    assert_eq!((cs[0].file.clone(), cs[0].line, cs[0].code), (s("run.sh"), Some(3), Some(2086)));
    let f = parse_shellcheck_output(out);
    assert_eq!(f.len(), 1);
    assert_eq!((f[0].rule.as_str(), f[0].file.as_str(), f[0].line), ("SC2086", "run.sh", 3));
    assert!(parse_shellcheck_output("[]").is_empty());
}

#[test]
fn graph_output_reads_nodes_edges_and_packages() {
    let out = r#"{"truncated":false,
        "nodes":[{"id":1,"package":"p","name":"F","exported":true,"file":"p/f.go","line":10}],
        "edges":[{"caller_id":1,"callee_id":2}],
        "packages":"none"}"#;
    let g = graph_output(out).unwrap();
    assert_eq!(g.truncated, Some(false));
    let nodes = g.nodes.as_ref().unwrap();
    assert_eq!((nodes[0].id, nodes[0].name.clone(), nodes[0].exported, nodes[0].line), (Some(1), s("F"), Some(true), Some(10)));
    let edges = g.edges.as_ref().unwrap();
    assert_eq!((edges[0].caller_id, edges[0].callee_id), (Some(1), Some(2)));
    assert!(g.packages.is_none(), "a member that is not a list reads as absent");
    assert!(graph_output("panic: boom").is_none());
}
