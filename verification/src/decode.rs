//! Tool output read into the plain records that the parsers take: each
//! record field is the report's member at a fixed path, taken as text, as an
//! unsigned integer or as a flag, and absent when the member is missing or of
//! another JSON type. A text that is not JSON reads as no records (a stream
//! of one JSON document per line skips the lines that are not).
use vstd::prelude::*;

use crate::analysis::{
    audit_items, audit_warnings, clippy_of, deny_of, finalize_known, finalize_each, golangci_of, opt_str,
    parse_cargo_audit, parse_cargo_deny, parse_clippy, parse_golangci, same_flags, somes, AuditItem, AuditReport,
    ClippyLine, ClippySpan, DenyLine, GolangciIssue, GosecIssue,
};
use crate::callgraph::{EdgeRec, GraphRec, NodeRec, PackageRec};
use crate::findings::{findings_view, AnalysisFinding};
use crate::gochecks::strings_view;
use crate::json::{
    bool_of, bool_spec, items_of, items_spec, json_doc, member, member_spec, parse_json, text_of, text_spec, u64_of,
    u64_spec, un_ref, Json,
};
use crate::shellcheck::{comment_of, parse_shellcheck_json1, ShellcheckComment};
use crate::text::{chars_of, lines_of, lines_spec, string_of, views_of};

verus! {

/// The member at `a`, then `b`.
pub open spec fn at2(j: Option<Json>, a: Seq<char>, b: Seq<char>) -> Option<Json> {
    member_spec(member_spec(j, a), b)
}

// ---------------------------------------------------------------- lines

/// The documents of the lines that parse, in order.
pub open spec fn line_docs(ls: Seq<Seq<char>>) -> Seq<Json>
    decreases ls.len(),
{
    if ls.len() == 0 {
        Seq::empty()
    } else {
        line_docs(ls.drop_last()) + match json_doc(ls.last()) {
            Some(d) => seq![d],
            None => Seq::empty(),
        }
    }
}

/// The JSON documents of a line-per-document stream; lines that are not JSON
/// are skipped.
pub fn json_lines(text: &str) -> (r: Vec<Json>)
    ensures
        r@ == line_docs(lines_spec(text@)),
{
    let chars = chars_of(text);
    let lines = lines_of(&chars);
    let ghost ls = views_of(lines@);
    let mut out: Vec<Json> = Vec::new();
    let mut i: usize = 0;
    while i < lines.len()
        invariant
            i <= lines@.len(),
            ls == views_of(lines@),
            ls.len() == lines@.len(),
            out@ == line_docs(ls.take(i as int)),
        decreases lines.len() - i,
    {
        let s = string_of(&lines[i]);
        assert(ls[i as int] == lines@[i as int]@);
        assert(ls.take(i + 1).drop_last() =~= ls.take(i as int));
        match parse_json(s.as_str()) {
            Some(d) => out.push(d),
            None => {},
        }
        i += 1;
        assert(out@ =~= line_docs(ls.take(i as int)));
    }
    assert(ls.take(i as int) =~= ls);
    out
}

// ---------------------------------------------------------------- golangci-lint

/// golangci-lint: `{ Issues: [ { FromLinter, Text, Severity, Pos: { Filename, Line } } ] }`.
pub open spec fn golangci_item_ok(r: GolangciIssue, j: Json) -> bool {
    let o = Some(j);
    &&& opt_str(r.from_linter) == text_spec(member_spec(o, "FromLinter"@))
    &&& opt_str(r.text) == text_spec(member_spec(o, "Text"@))
    &&& opt_str(r.filename) == text_spec(at2(o, "Pos"@, "Filename"@))
    &&& r.line == u64_spec(at2(o, "Pos"@, "Line"@))
    &&& opt_str(r.severity) == text_spec(member_spec(o, "Severity"@))
}

pub open spec fn golangci_decoded(rs: Seq<GolangciIssue>, doc: Option<Json>) -> bool {
    let items = items_spec(member_spec(doc, "Issues"@));
    &&& rs.len() == items.len()
    &&& forall|i: int| 0 <= i < rs.len() ==> golangci_item_ok(#[trigger] rs[i], items[i])
}

fn golangci_item(j: &Json) -> (r: GolangciIssue)
    ensures
        golangci_item_ok(r, *j),
{
    let o = Some(j);
    let pos = member(o, "Pos");
    GolangciIssue {
        from_linter: text_of(member(o, "FromLinter")),
        text: text_of(member(o, "Text")),
        filename: text_of(member(pos, "Filename")),
        line: u64_of(member(pos, "Line")),
        severity: text_of(member(o, "Severity")),
    }
}

/// golangci-lint's issues in a parsed report.
pub fn golangci_issues(doc: Option<&Json>) -> (r: Vec<GolangciIssue>)
    ensures
        golangci_decoded(r@, un_ref(doc)),
{
    let mut out: Vec<GolangciIssue> = Vec::new();
    if let Some(items) = items_of(member(doc, "Issues")) {
        let mut k: usize = 0;
        while k < items.len()
            invariant
                k <= items@.len(),
                out@.len() == k,
                forall|i: int| 0 <= i < k ==> golangci_item_ok(#[trigger] out@[i], items@[i]),
            decreases items.len() - k,
        {
            out.push(golangci_item(&items[k]));
            k += 1;
        }
    }
    out
}

/// golangci-lint's issues in its JSON output.
pub fn golangci_output_issues(stdout: &str) -> (r: Vec<GolangciIssue>)
    ensures
        golangci_decoded(r@, json_doc(stdout@)),
{
    let doc = parse_json(stdout);
    match &doc {
        Some(d) => golangci_issues(Some(d)),
        None => golangci_issues(None),
    }
}

/// golangci-lint's JSON output as finalized findings.
pub fn parse_golangci_output(stdout: &str, ok: &[String], changed: &[String]) -> (r: Vec<AnalysisFinding>)
    ensures
        exists|rs: Seq<GolangciIssue>|
            golangci_decoded(rs, json_doc(stdout@)) && findings_view(r@) == finalize_known(
                somes(rs.map_values(|i: GolangciIssue| golangci_of(i))),
                strings_view(ok@),
                strings_view(changed@),
            ),
{
    let issues = golangci_output_issues(stdout);
    parse_golangci(&issues, ok, changed)
}

// ---------------------------------------------------------------- gosec

/// gosec: `{ Issues: [ { rule_id, details, file, line, severity } ] }` (its
/// line is text, such as `12` or `12-14`).
pub open spec fn gosec_item_ok(r: GosecIssue, j: Json) -> bool {
    let o = Some(j);
    &&& opt_str(r.rule_id) == text_spec(member_spec(o, "rule_id"@))
    &&& opt_str(r.details) == text_spec(member_spec(o, "details"@))
    &&& opt_str(r.file) == text_spec(member_spec(o, "file"@))
    &&& opt_str(r.line) == text_spec(member_spec(o, "line"@))
    &&& opt_str(r.severity) == text_spec(member_spec(o, "severity"@))
}

pub open spec fn gosec_decoded(rs: Seq<GosecIssue>, doc: Option<Json>) -> bool {
    let items = items_spec(member_spec(doc, "Issues"@));
    &&& rs.len() == items.len()
    &&& forall|i: int| 0 <= i < rs.len() ==> gosec_item_ok(#[trigger] rs[i], items[i])
}

fn gosec_item(j: &Json) -> (r: GosecIssue)
    ensures
        gosec_item_ok(r, *j),
{
    let o = Some(j);
    GosecIssue {
        rule_id: text_of(member(o, "rule_id")),
        details: text_of(member(o, "details")),
        file: text_of(member(o, "file")),
        line: text_of(member(o, "line")),
        severity: text_of(member(o, "severity")),
    }
}

/// gosec's issues in its JSON output, with the file paths as reported.
pub fn gosec_output_issues(stdout: &str) -> (r: Vec<GosecIssue>)
    ensures
        gosec_decoded(r@, json_doc(stdout@)),
{
    let doc = parse_json(stdout);
    let d = match &doc {
        Some(d) => Some(d),
        None => None,
    };
    let mut out: Vec<GosecIssue> = Vec::new();
    if let Some(items) = items_of(member(d, "Issues")) {
        let mut k: usize = 0;
        while k < items.len()
            invariant
                k <= items@.len(),
                out@.len() == k,
                forall|i: int| 0 <= i < k ==> gosec_item_ok(#[trigger] out@[i], items@[i]),
            decreases items.len() - k,
        {
            out.push(gosec_item(&items[k]));
            k += 1;
        }
    }
    out
}

// ---------------------------------------------------------------- clippy

/// One span: `{ is_primary, file_name, line_start }`.
pub open spec fn span_ok(r: ClippySpan, j: Json) -> bool {
    let o = Some(j);
    &&& r.is_primary == bool_spec(member_spec(o, "is_primary"@))
    &&& opt_str(r.file_name) == text_spec(member_spec(o, "file_name"@))
    &&& r.line_start == u64_spec(member_spec(o, "line_start"@))
}

pub open spec fn spans_ok(rs: Seq<ClippySpan>, js: Seq<Json>) -> bool {
    &&& rs.len() == js.len()
    &&& forall|i: int| 0 <= i < rs.len() ==> span_ok(#[trigger] rs[i], js[i])
}

/// One cargo message: `{ reason, message: { level, message, code: { code }, spans } }`.
pub open spec fn clippy_line_ok(r: ClippyLine, j: Json) -> bool {
    let o = Some(j);
    let m = member_spec(o, "message"@);
    &&& opt_str(r.reason) == text_spec(member_spec(o, "reason"@))
    &&& r.has_message == (m is Some)
    &&& opt_str(r.level) == text_spec(member_spec(m, "level"@))
    &&& opt_str(r.code) == text_spec(at2(m, "code"@, "code"@))
    &&& opt_str(r.text) == text_spec(member_spec(m, "message"@))
    &&& match r.spans {
        Some(v) => member_spec(m, "spans"@) matches Some(Json::Arr(a)) && spans_ok(v@, a@),
        None => !(member_spec(m, "spans"@) matches Some(Json::Arr(_))),
    }
}

pub open spec fn clippy_decoded(rs: Seq<ClippyLine>, docs: Seq<Json>) -> bool {
    &&& rs.len() == docs.len()
    &&& forall|i: int| 0 <= i < rs.len() ==> clippy_line_ok(#[trigger] rs[i], docs[i])
}

fn clippy_span(j: &Json) -> (r: ClippySpan)
    ensures
        span_ok(r, *j),
{
    let o = Some(j);
    ClippySpan {
        is_primary: bool_of(member(o, "is_primary")),
        file_name: text_of(member(o, "file_name")),
        line_start: u64_of(member(o, "line_start")),
    }
}

fn clippy_line(j: &Json) -> (r: ClippyLine)
    ensures
        clippy_line_ok(r, *j),
{
    let o = Some(j);
    let m = member(o, "message");
    let spans = match items_of(member(m, "spans")) {
        Some(items) => {
            let mut out: Vec<ClippySpan> = Vec::new();
            let mut k: usize = 0;
            while k < items.len()
                invariant
                    k <= items@.len(),
                    out@.len() == k,
                    forall|i: int| 0 <= i < k ==> span_ok(#[trigger] out@[i], items@[i]),
                decreases items.len() - k,
            {
                out.push(clippy_span(&items[k]));
                k += 1;
            }
            Some(out)
        },
        None => None,
    };
    ClippyLine {
        reason: text_of(member(o, "reason")),
        has_message: m.is_some(),
        level: text_of(member(m, "level")),
        code: text_of(member(member(m, "code"), "code")),
        text: text_of(member(m, "message")),
        spans,
    }
}

/// cargo's JSON messages, one document per line.
pub fn clippy_lines(docs: &[Json]) -> (r: Vec<ClippyLine>)
    ensures
        clippy_decoded(r@, docs@),
{
    let mut out: Vec<ClippyLine> = Vec::new();
    let mut k: usize = 0;
    while k < docs.len()
        invariant
            k <= docs@.len(),
            out@.len() == k,
            forall|i: int| 0 <= i < k ==> clippy_line_ok(#[trigger] out@[i], docs@[i]),
        decreases docs.len() - k,
    {
        out.push(clippy_line(&docs[k]));
        k += 1;
    }
    out
}

/// cargo's JSON messages in its output.
pub fn clippy_output_lines(stdout: &str) -> (r: Vec<ClippyLine>)
    ensures
        clippy_decoded(r@, line_docs(lines_spec(stdout@))),
{
    let docs = json_lines(stdout);
    clippy_lines(&docs)
}

/// clippy's JSON output as finalized findings.
pub fn parse_clippy_output(stdout: &str, ok: &[String], changed: &[String]) -> (r: Vec<AnalysisFinding>)
    ensures
        exists|rs: Seq<ClippyLine>|
            clippy_decoded(rs, line_docs(lines_spec(stdout@))) && findings_view(r@) == finalize_known(
                somes(rs.map_values(|c: ClippyLine| clippy_of(c))),
                strings_view(ok@),
                strings_view(changed@),
            ),
{
    let lines = clippy_output_lines(stdout);
    parse_clippy(&lines, ok, changed)
}

// ---------------------------------------------------------------- cargo-deny

/// One diagnostic: `{ type, fields: { severity, code, message, labels: [ { line, span } ] } }`;
/// only the first label is read.
pub open spec fn deny_line_ok(r: DenyLine, j: Json) -> bool {
    let o = Some(j);
    let f = member_spec(o, "fields"@);
    let ls = member_spec(f, "labels"@);
    let first = match ls {
        Some(Json::Arr(a)) => if a@.len() > 0 {
            Some(a@[0])
        } else {
            None
        },
        _ => None,
    };
    &&& opt_str(r.kind) == text_spec(member_spec(o, "type"@))
    &&& r.has_fields == (f is Some)
    &&& opt_str(r.severity) == text_spec(member_spec(f, "severity"@))
    &&& opt_str(r.code) == text_spec(member_spec(f, "code"@))
    &&& opt_str(r.message) == text_spec(member_spec(f, "message"@))
    &&& r.label_line == u64_spec(member_spec(first, "line"@))
    &&& opt_str(r.label_span) == text_spec(member_spec(first, "span"@))
}

pub open spec fn deny_decoded(rs: Seq<DenyLine>, docs: Seq<Json>) -> bool {
    &&& rs.len() == docs.len()
    &&& forall|i: int| 0 <= i < rs.len() ==> deny_line_ok(#[trigger] rs[i], docs[i])
}

fn deny_line(j: &Json) -> (r: DenyLine)
    ensures
        deny_line_ok(r, *j),
{
    let o = Some(j);
    let f = member(o, "fields");
    let first: Option<&Json> = match items_of(member(f, "labels")) {
        Some(a) => if a.len() > 0 {
            Some(&a[0])
        } else {
            None
        },
        None => None,
    };
    DenyLine {
        kind: text_of(member(o, "type")),
        has_fields: f.is_some(),
        severity: text_of(member(f, "severity")),
        code: text_of(member(f, "code")),
        message: text_of(member(f, "message")),
        label_line: u64_of(member(first, "line")),
        label_span: text_of(member(first, "span")),
    }
}

/// cargo-deny's diagnostics, one document per line (it writes them to stderr).
pub fn deny_output_lines(stderr: &str) -> (r: Vec<DenyLine>)
    ensures
        deny_decoded(r@, line_docs(lines_spec(stderr@))),
{
    let docs = json_lines(stderr);
    let mut out: Vec<DenyLine> = Vec::new();
    let mut k: usize = 0;
    while k < docs.len()
        invariant
            k <= docs@.len(),
            out@.len() == k,
            forall|i: int| 0 <= i < k ==> deny_line_ok(#[trigger] out@[i], docs@[i]),
        decreases docs.len() - k,
    {
        out.push(deny_line(&docs[k]));
        k += 1;
    }
    out
}

/// cargo-deny's output as finalized findings.
pub fn parse_cargo_deny_output(stderr: &str, ok: &[String], changed: &[String]) -> (r: Vec<AnalysisFinding>)
    ensures
        exists|rs: Seq<DenyLine>|
            deny_decoded(rs, line_docs(lines_spec(stderr@))) && findings_view(r@) == finalize_known(
                somes(rs.map_values(|d: DenyLine| deny_of(d))),
                strings_view(ok@),
                strings_view(changed@),
            ),
{
    let lines = deny_output_lines(stderr);
    parse_cargo_deny(&lines, ok, changed)
}

// ---------------------------------------------------------------- cargo-audit

/// One advisory: `{ advisory: { id, title }, package: { name, version } }`.
pub open spec fn audit_item_ok(r: AuditItem, j: Json) -> bool {
    let o = Some(j);
    &&& opt_str(r.advisory_id) == text_spec(at2(o, "advisory"@, "id"@))
    &&& opt_str(r.advisory_title) == text_spec(at2(o, "advisory"@, "title"@))
    &&& opt_str(r.pkg_name) == text_spec(at2(o, "package"@, "name"@))
    &&& opt_str(r.pkg_version) == text_spec(at2(o, "package"@, "version"@))
}

pub open spec fn audit_items_ok(rs: Seq<AuditItem>, js: Seq<Json>) -> bool {
    &&& rs.len() == js.len()
    &&& forall|i: int| 0 <= i < rs.len() ==> audit_item_ok(#[trigger] rs[i], js[i])
}

/// The members of an object whose value is a list, in order.
pub open spec fn list_members(ms: Seq<(String, Json)>) -> Seq<(String, Json)>
    decreases ms.len(),
{
    if ms.len() == 0 {
        Seq::empty()
    } else {
        list_members(ms.drop_last()) + if ms.last().1 is Arr {
            seq![ms.last()]
        } else {
            Seq::empty()
        }
    }
}

/// Warnings, keyed by kind: one entry per list-valued member, in order.
pub open spec fn warnings_ok(ws: Seq<(String, Vec<AuditItem>)>, ms: Seq<(String, Json)>) -> bool {
    &&& ws.len() == ms.len()
    &&& forall|i: int|
        0 <= i < ws.len() ==> (#[trigger] ws[i]).0@ == ms[i].0@ && audit_items_ok(ws[i].1@, items_spec(Some(ms[i].1)))
}

/// cargo-audit: `{ vulnerabilities: { list: [..] }, warnings: { <kind>: [..], .. } }`.
pub open spec fn audit_decoded(r: AuditReport, doc: Option<Json>) -> bool {
    &&& audit_items_ok(r.vulnerabilities@, items_spec(at2(doc, "vulnerabilities"@, "list"@)))
    &&& warnings_ok(
        r.warnings@,
        match member_spec(doc, "warnings"@) {
            Some(Json::Obj(ms)) => list_members(ms@),
            _ => Seq::empty(),
        },
    )
}

fn audit_item(j: &Json) -> (r: AuditItem)
    ensures
        audit_item_ok(r, *j),
{
    let o = Some(j);
    let adv = member(o, "advisory");
    let pkg = member(o, "package");
    AuditItem {
        advisory_id: text_of(member(adv, "id")),
        advisory_title: text_of(member(adv, "title")),
        pkg_name: text_of(member(pkg, "name")),
        pkg_version: text_of(member(pkg, "version")),
    }
}

fn audit_list(items: &Vec<Json>) -> (r: Vec<AuditItem>)
    ensures
        audit_items_ok(r@, items@),
{
    let mut out: Vec<AuditItem> = Vec::new();
    let mut k: usize = 0;
    while k < items.len()
        invariant
            k <= items@.len(),
            out@.len() == k,
            forall|i: int| 0 <= i < k ==> audit_item_ok(#[trigger] out@[i], items@[i]),
        decreases items.len() - k,
    {
        out.push(audit_item(&items[k]));
        k += 1;
    }
    out
}

/// cargo-audit's report in its JSON output.
pub fn audit_output_report(stdout: &str) -> (r: AuditReport)
    ensures
        audit_decoded(r, json_doc(stdout@)),
{
    let doc = parse_json(stdout);
    let d = match &doc {
        Some(d) => Some(d),
        None => None,
    };
    let vulnerabilities = match items_of(member(member(d, "vulnerabilities"), "list")) {
        Some(items) => audit_list(items),
        None => Vec::new(),
    };
    let mut warnings: Vec<(String, Vec<AuditItem>)> = Vec::new();
    match member(d, "warnings") {
        Some(Json::Obj(ms)) => {
            let mut i: usize = 0;
            while i < ms.len()
                invariant
                    i <= ms@.len(),
                    warnings_ok(warnings@, list_members(ms@.take(i as int))),
                decreases ms.len() - i,
            {
                assert(ms@.take(i + 1).drop_last() =~= ms@.take(i as int));
                assert(ms@.take(i + 1).last() == ms@[i as int]);
                if let Json::Arr(a) = &ms[i].1 {
                    let kind = string_of(&chars_of(ms[i].0.as_str()));
                    warnings.push((kind, audit_list(a)));
                }
                i += 1;
                assert(list_members(ms@.take(i as int)).len() == warnings@.len());
            }
            assert(ms@.take(i as int) =~= ms@);
        },
        _ => {},
    }
    AuditReport { vulnerabilities, warnings }
}

/// cargo-audit's JSON output as finalized findings.
pub fn parse_cargo_audit_output(stdout: &str, lock_confined: bool, changed: &[String]) -> (r: Vec<AnalysisFinding>)
    ensures
        exists|rep: AuditReport|
            audit_decoded(rep, json_doc(stdout@)) && ({
                let raw = audit_items(rep.vulnerabilities@, "error"@, "vulnerability"@) + audit_warnings(
                    rep.warnings@,
                );
                findings_view(r@) == finalize_each(raw, same_flags(raw.len(), lock_confined), strings_view(changed@))
            }),
{
    let rep = audit_output_report(stdout);
    parse_cargo_audit(&rep, lock_confined, changed)
}

// ---------------------------------------------------------------- shellcheck

/// One comment of shellcheck's `json1`: `{ file, line, level, code, message }`.
pub open spec fn comment_ok(r: ShellcheckComment, j: Json) -> bool {
    let o = Some(j);
    &&& opt_str(r.file) == text_spec(member_spec(o, "file"@))
    &&& r.line == u64_spec(member_spec(o, "line"@))
    &&& opt_str(r.level) == text_spec(member_spec(o, "level"@))
    &&& r.code == u64_spec(member_spec(o, "code"@))
    &&& opt_str(r.message) == text_spec(member_spec(o, "message"@))
}

/// shellcheck `json1`: `{ comments: [..] }`.
pub open spec fn shellcheck_decoded(rs: Seq<ShellcheckComment>, doc: Option<Json>) -> bool {
    let items = items_spec(member_spec(doc, "comments"@));
    &&& rs.len() == items.len()
    &&& forall|i: int| 0 <= i < rs.len() ==> comment_ok(#[trigger] rs[i], items[i])
}

fn comment(j: &Json) -> (r: ShellcheckComment)
    ensures
        comment_ok(r, *j),
{
    let o = Some(j);
    ShellcheckComment {
        file: text_of(member(o, "file")),
        line: u64_of(member(o, "line")),
        level: text_of(member(o, "level")),
        code: u64_of(member(o, "code")),
        message: text_of(member(o, "message")),
    }
}

/// shellcheck's comments in its `json1` output.
pub fn shellcheck_output_comments(stdout: &str) -> (r: Vec<ShellcheckComment>)
    ensures
        shellcheck_decoded(r@, json_doc(stdout@)),
{
    let doc = parse_json(stdout);
    let d = match &doc {
        Some(d) => Some(d),
        None => None,
    };
    let mut out: Vec<ShellcheckComment> = Vec::new();
    if let Some(items) = items_of(member(d, "comments")) {
        let mut k: usize = 0;
        while k < items.len()
            invariant
                k <= items@.len(),
                out@.len() == k,
                forall|i: int| 0 <= i < k ==> comment_ok(#[trigger] out@[i], items@[i]),
            decreases items.len() - k,
        {
            out.push(comment(&items[k]));
            k += 1;
        }
    }
    out
}

/// shellcheck's `json1` output as findings.
pub fn parse_shellcheck_output(stdout: &str) -> (r: Vec<AnalysisFinding>)
    ensures
        exists|rs: Seq<ShellcheckComment>|
            shellcheck_decoded(rs, json_doc(stdout@)) && findings_view(r@) == somes(
                rs.map_values(|c: ShellcheckComment| comment_of(c)),
            ),
{
    let comments = shellcheck_output_comments(stdout);
    parse_shellcheck_json1(&comments)
}

// ---------------------------------------------------------------- call graph

pub open spec fn node_ok(r: NodeRec, j: Json) -> bool {
    let o = Some(j);
    &&& r.id == u64_spec(member_spec(o, "id"@))
    &&& opt_str(r.package) == text_spec(member_spec(o, "package"@))
    &&& opt_str(r.name) == text_spec(member_spec(o, "name"@))
    &&& r.exported == bool_spec(member_spec(o, "exported"@))
    &&& opt_str(r.file) == text_spec(member_spec(o, "file"@))
    &&& r.line == u64_spec(member_spec(o, "line"@))
}

pub open spec fn edge_ok(r: EdgeRec, j: Json) -> bool {
    let o = Some(j);
    &&& r.caller_id == u64_spec(member_spec(o, "caller_id"@))
    &&& r.callee_id == u64_spec(member_spec(o, "callee_id"@))
}

pub open spec fn package_ok(r: PackageRec, j: Json) -> bool {
    let o = Some(j);
    &&& opt_str(r.package) == text_spec(member_spec(o, "package"@))
    &&& r.files == u64_spec(member_spec(o, "files"@))
    &&& r.exported_fns == u64_spec(member_spec(o, "exported_fns"@))
    &&& r.types == u64_spec(member_spec(o, "types"@))
}

pub open spec fn nodes_ok(v: Option<Vec<NodeRec>>, j: Option<Json>) -> bool {
    match v {
        Some(v) => j matches Some(Json::Arr(a)) && v@.len() == a@.len() && forall|i: int|
            0 <= i < v@.len() ==> node_ok(#[trigger] v@[i], a@[i]),
        None => !(j matches Some(Json::Arr(_))),
    }
}

pub open spec fn edges_ok(v: Option<Vec<EdgeRec>>, j: Option<Json>) -> bool {
    match v {
        Some(v) => j matches Some(Json::Arr(a)) && v@.len() == a@.len() && forall|i: int|
            0 <= i < v@.len() ==> edge_ok(#[trigger] v@[i], a@[i]),
        None => !(j matches Some(Json::Arr(_))),
    }
}

pub open spec fn packages_ok(v: Option<Vec<PackageRec>>, j: Option<Json>) -> bool {
    match v {
        Some(v) => j matches Some(Json::Arr(a)) && v@.len() == a@.len() && forall|i: int|
            0 <= i < v@.len() ==> package_ok(#[trigger] v@[i], a@[i]),
        None => !(j matches Some(Json::Arr(_))),
    }
}

/// The call-graph helper's JSON: `{ truncated, nodes: [..], edges: [..], packages: [..] }`;
/// no graph when the text is not JSON at all.
pub open spec fn graph_decoded(r: Option<GraphRec>, doc: Option<Json>) -> bool {
    match doc {
        None => r is None,
        Some(_) => match r {
            Some(g) => {
                &&& g.truncated == bool_spec(member_spec(doc, "truncated"@))
                &&& nodes_ok(g.nodes, member_spec(doc, "nodes"@))
                &&& edges_ok(g.edges, member_spec(doc, "edges"@))
                &&& packages_ok(g.packages, member_spec(doc, "packages"@))
            },
            None => false,
        },
    }
}

fn node_rec(j: &Json) -> (r: NodeRec)
    ensures
        node_ok(r, *j),
{
    let o = Some(j);
    NodeRec {
        id: u64_of(member(o, "id")),
        package: text_of(member(o, "package")),
        name: text_of(member(o, "name")),
        exported: bool_of(member(o, "exported")),
        file: text_of(member(o, "file")),
        line: u64_of(member(o, "line")),
    }
}

fn edge_rec(j: &Json) -> (r: EdgeRec)
    ensures
        edge_ok(r, *j),
{
    let o = Some(j);
    EdgeRec { caller_id: u64_of(member(o, "caller_id")), callee_id: u64_of(member(o, "callee_id")) }
}

fn package_rec(j: &Json) -> (r: PackageRec)
    ensures
        package_ok(r, *j),
{
    let o = Some(j);
    PackageRec {
        package: text_of(member(o, "package")),
        files: u64_of(member(o, "files")),
        exported_fns: u64_of(member(o, "exported_fns")),
        types: u64_of(member(o, "types")),
    }
}

fn node_list(j: Option<&Json>) -> (r: Option<Vec<NodeRec>>)
    ensures
        nodes_ok(r, un_ref(j)),
{
    match items_of(j) {
        Some(items) => {
            let mut out: Vec<NodeRec> = Vec::new();
            let mut k: usize = 0;
            while k < items.len()
                invariant
                    k <= items@.len(),
                    out@.len() == k,
                    forall|i: int| 0 <= i < k ==> node_ok(#[trigger] out@[i], items@[i]),
                decreases items.len() - k,
            {
                out.push(node_rec(&items[k]));
                k += 1;
            }
            Some(out)
        },
        None => None,
    }
}

fn edge_list(j: Option<&Json>) -> (r: Option<Vec<EdgeRec>>)
    ensures
        edges_ok(r, un_ref(j)),
{
    match items_of(j) {
        Some(items) => {
            let mut out: Vec<EdgeRec> = Vec::new();
            let mut k: usize = 0;
            while k < items.len()
                invariant
                    k <= items@.len(),
                    out@.len() == k,
                    forall|i: int| 0 <= i < k ==> edge_ok(#[trigger] out@[i], items@[i]),
                decreases items.len() - k,
            {
                out.push(edge_rec(&items[k]));
                k += 1;
            }
            Some(out)
        },
        None => None,
    }
}

fn package_list(j: Option<&Json>) -> (r: Option<Vec<PackageRec>>)
    ensures
        packages_ok(r, un_ref(j)),
{
    match items_of(j) {
        Some(items) => {
            let mut out: Vec<PackageRec> = Vec::new();
            let mut k: usize = 0;
            while k < items.len()
                invariant
                    k <= items@.len(),
                    out@.len() == k,
                    forall|i: int| 0 <= i < k ==> package_ok(#[trigger] out@[i], items@[i]),
                decreases items.len() - k,
            {
                out.push(package_rec(&items[k]));
                k += 1;
            }
            Some(out)
        },
        None => None,
    }
}

/// The call-graph helper's records in its output; `None` when it is not JSON.
pub fn graph_output(stdout: &str) -> (r: Option<GraphRec>)
    ensures
        graph_decoded(r, json_doc(stdout@)),
{
    let doc = parse_json(stdout);
    match &doc {
        Some(d) => {
            let o = Some(d);
            Some(
                GraphRec {
                    truncated: bool_of(member(o, "truncated")),
                    nodes: node_list(member(o, "nodes")),
                    edges: edge_list(member(o, "edges")),
                    packages: package_list(member(o, "packages")),
                },
            )
        },
        None => None,
    }
}

} // verus!
