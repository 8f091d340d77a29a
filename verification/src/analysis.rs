//! Linter and supply-chain tool output read into findings: `go vet`, `gofmt -l`,
//! golangci-lint, clippy, gosec, cargo-audit and cargo-deny, plus the small
//! manifest and command-line helpers their runs need.
//!
//! JSON reports are read by `decode` into the plain records below (each field as the report
//! carries it, absent when missing or of another JSON type); the rules that
//! turn them into findings live here. Every finding still goes through
//! `findings::finalize` before it is reported.
use vstd::prelude::*;
use crate::decls::lemma_index_from_range;
use crate::findings::{
    clone_finding, contains_string, finalize, finalize_spec, finding, finding_view, findings_view, push_chars, MAX_MSG,
    push_str, AnalysisFinding, FindingV,
};
use crate::gochecks::{quote_body, sh_quote, strings_view, strip_leading, strip_leading_exec};
use crate::gotest::split_ws;
use crate::signatures::tokens_from;
use crate::paths::{eq_str, index_from, index_of};
use crate::text::{
    chars_of, contains, contains_exec, has_prefix, has_prefix_exec, lines_of, lines_spec, lower_seq, parse_u64,
    parse_u64_exec, slice_of, string_of, to_lower, trim, trim_exec, trim_start, trim_start_exec,
    views_of,
};

verus! {

/// `str::parse::<u32>`: digits (one leading `+` allowed) whose value fits.
pub open spec fn parse_u32(s: Seq<char>) -> Option<u32> {
    match parse_u64(s) {
        Some(v) => if v <= u32::MAX {
            Some(v as u32)
        } else {
            None
        },
        None => None,
    }
}

fn parse_u32_exec(s: &[char]) -> (r: Option<u32>)
    ensures
        r == parse_u32(s@),
{
    match parse_u64_exec(s) {
        Some(v) => if v <= 0xffff_ffff {
            Some(v as u32)
        } else {
            None
        },
        None => None,
    }
}

/// `s` split at its first `c`: the text before and after it.
pub open spec fn split_once(s: Seq<char>, c: char) -> Option<(Seq<char>, Seq<char>)> {
    match index_from(s, c, 0) {
        Some(i) => Some((s.subrange(0, i), s.subrange(i + 1, s.len() as int))),
        None => None,
    }
}

fn split_once_exec(s: &[char], c: char) -> (r: Option<(Vec<char>, Vec<char>)>)
    ensures
        match r {
            Some((a, b)) => split_once(s@, c) == Some((a@, b@)),
            None => split_once(s@, c) is None,
        },
{
    let _n = s.len();
    proof {
        lemma_index_from_range(s@, c, 0);
    }
    match index_of(s, c, 0) {
        Some(i) => Some((slice_of(s, 0, i), slice_of(s, i + 1, s.len()))),
        None => None,
    }
}

pub open spec fn all_ascii_digits(s: Seq<char>) -> bool {
    forall|i: int| 0 <= i < s.len() ==> '0' <= #[trigger] s[i] && s[i] <= '9'
}

fn all_ascii_digits_exec(s: &[char]) -> (r: bool)
    ensures
        r == all_ascii_digits(s@),
{
    let mut i: usize = 0;
    while i < s.len()
        invariant
            i <= s@.len(),
            forall|j: int| 0 <= j < i ==> '0' <= #[trigger] s@[j] && s@[j] <= '9',
        decreases s.len() - i,
    {
        if !('0' <= s[i] && s[i] <= '9') {
            return false;
        }
        i += 1;
    }
    true
}

/// A `go vet` diagnostic line, `file:line:col: message` or `file:line: message`
/// (`# pkg` headers and blank lines are not).
pub open spec fn govet_of(line: Seq<char>) -> Option<FindingV> {
    let l = trim(line);
    if l.len() == 0 || has_prefix(l, "#"@) {
        None
    } else {
        match split_once(l, ':') {
            None => None,
            Some((file, rest)) => match split_once(rest, ':') {
                None => None,
                Some((line_str, rest2)) => match parse_u32(trim(line_str)) {
                    None => None,
                    Some(ln) => {
                        let msg = match split_once(rest2, ':') {
                            Some((col, m)) => if all_ascii_digits(trim(col)) {
                                trim(m)
                            } else {
                                trim(rest2)
                            },
                            None => trim(rest2),
                        };
                        if msg.len() == 0 {
                            None
                        } else {
                            Some(
                                FindingV {
                                    tool: "govet"@,
                                    rule: "vet"@,
                                    severity: "warning"@,
                                    file: trim(file),
                                    line: ln,
                                    message: msg,
                                    in_change: false,
                                },
                            )
                        }
                    },
                },
            },
        }
    }
}

fn govet_line(line: &Vec<char>) -> (r: Option<AnalysisFinding>)
    ensures
        match r {
            Some(f) => govet_of(line@) == Some(finding_view(f)),
            None => govet_of(line@) is None,
        },
{
    let l = trim_exec(line);
    if l.len() == 0 || has_prefix_exec(&l, &chars_of("#")) {
        return None;
    }
    let (file, rest) = match split_once_exec(&l, ':') {
        Some(x) => x,
        None => return None,
    };
    let (line_str, rest2) = match split_once_exec(&rest, ':') {
        Some(x) => x,
        None => return None,
    };
    let ln = match parse_u32_exec(&trim_exec(&line_str)) {
        Some(n) => n,
        None => return None,
    };
    let msg = match split_once_exec(&rest2, ':') {
        Some((col, m)) => if all_ascii_digits_exec(&trim_exec(&col)) {
            trim_exec(&m)
        } else {
            trim_exec(&rest2)
        },
        None => trim_exec(&rest2),
    };
    if msg.len() == 0 {
        return None;
    }
    Some(finding("govet", &chars_of("vet"), &chars_of("warning"), &trim_exec(&file), ln, &msg))
}

/// A `gofmt -l` line: a path that is not gofmt-clean.
pub open spec fn gofmt_of(line: Seq<char>) -> Option<FindingV> {
    let f = trim(line);
    if f.len() == 0 {
        None
    } else {
        Some(
            FindingV {
                tool: "gofmt"@,
                rule: "gofmt"@,
                severity: "warning"@,
                file: f,
                line: 0,
                message: "file is not gofmt-formatted"@,
                in_change: false,
            },
        )
    }
}

fn gofmt_line(line: &Vec<char>) -> (r: Option<AnalysisFinding>)
    ensures
        match r {
            Some(f) => gofmt_of(line@) == Some(finding_view(f)),
            None => gofmt_of(line@) is None,
        },
{
    let f = trim_exec(line);
    if f.len() == 0 {
        return None;
    }
    Some(finding("gofmt", &chars_of("gofmt"), &chars_of("warning"), &f, 0, &chars_of("file is not gofmt-formatted")))
}

/// Which line-oriented report a text is.
#[derive(PartialEq, Eq, Structural, Clone, Copy)]
pub enum LineReport {
    GoVet,
    GoFmt,
}

pub open spec fn line_finding(kind: LineReport, line: Seq<char>) -> Option<FindingV> {
    match kind {
        LineReport::GoVet => govet_of(line),
        LineReport::GoFmt => gofmt_of(line),
    }
}

pub open spec fn line_findings_from(kind: LineReport, ls: Seq<Seq<char>>, i: int) -> Seq<FindingV>
    decreases ls.len() - i,
{
    if i < 0 || i >= ls.len() {
        Seq::empty()
    } else {
        match line_finding(kind, ls[i]) {
            Some(f) => seq![f] + line_findings_from(kind, ls, i + 1),
            None => line_findings_from(kind, ls, i + 1),
        }
    }
}

fn line_findings(kind: LineReport, text: &str) -> (r: Vec<AnalysisFinding>)
    ensures
        findings_view(r@) == line_findings_from(kind, lines_spec(text@), 0),
{
    let chars = chars_of(text);
    let lines = lines_of(&chars);
    let ghost ls = views_of(lines@);
    let mut found: Vec<AnalysisFinding> = Vec::new();
    let mut i: usize = 0;
    while i < lines.len()
        invariant
            i <= lines@.len(),
            ls == views_of(lines@),
            ls == lines_spec(text@),
            findings_view(found@) + line_findings_from(kind, ls, i as int) == line_findings_from(kind, ls, 0),
        decreases lines.len() - i,
    {
        assert(ls[i as int] == lines@[i as int]@);
        let r = match kind {
            LineReport::GoVet => govet_line(&lines[i]),
            LineReport::GoFmt => gofmt_line(&lines[i]),
        };
        match r {
            Some(f) => {
                let ghost before = findings_view(found@);
                found.push(f);
                assert(findings_view(found@) =~= before.push(finding_view(f)));
                assert(line_findings_from(kind, ls, i as int) =~= seq![finding_view(f)] + line_findings_from(kind, ls, i + 1));
                assert(findings_view(found@) + line_findings_from(kind, ls, i + 1) =~= before + line_findings_from(kind, ls, i as int));
            },
            None => {},
        }
        i += 1;
    }
    assert(line_findings_from(kind, ls, i as int) =~= Seq::<FindingV>::empty());
    assert(findings_view(found@) + Seq::<FindingV>::empty() =~= findings_view(found@));
    found
}

/// `go vet` diagnostics (stderr) as findings, before finalizing.
pub fn govet_raw(stderr: &str) -> (r: Vec<AnalysisFinding>)
    ensures
        findings_view(r@) == line_findings_from(LineReport::GoVet, lines_spec(stderr@), 0),
{
    line_findings(LineReport::GoVet, stderr)
}

/// `gofmt -l` output as findings, before finalizing.
pub fn gofmt_raw(stdout: &str) -> (r: Vec<AnalysisFinding>)
    ensures
        findings_view(r@) == line_findings_from(LineReport::GoFmt, lines_spec(stdout@), 0),
{
    line_findings(LineReport::GoFmt, stdout)
}


// ---- JSON reports, as plain records -------------------------------------------

pub open spec fn opt_str(o: Option<String>) -> Option<Seq<char>> {
    match o {
        Some(s) => Some(s@),
        None => None,
    }
}

/// The `Some` values of a sequence of options, in order.
pub open spec fn somes(s: Seq<Option<FindingV>>) -> Seq<FindingV>
    decreases s.len(),
{
    if s.len() == 0 {
        Seq::empty()
    } else {
        match s.last() {
            Some(f) => somes(s.drop_last()).push(f),
            None => somes(s.drop_last()),
        }
    }
}

/// The text of an optional string, or `dflt`.
fn text_or(o: &Option<String>, dflt: &str) -> (r: Vec<char>)
    ensures
        r@ == match opt_str(*o) {
            Some(t) => t,
            None => dflt@,
        },
{
    match o {
        Some(t) => chars_of(t.as_str()),
        None => chars_of(dflt),
    }
}

/// The text of an optional string, or nothing.
fn text_or_empty(o: &Option<String>) -> (r: Vec<char>)
    ensures
        r@ == match opt_str(*o) {
            Some(t) => t,
            None => Seq::<char>::empty(),
        },
{
    match o {
        Some(t) => chars_of(t.as_str()),
        None => Vec::new(),
    }
}

/// The text of an optional string when it is non-empty, or `dflt`.
fn nonempty_or(o: &Option<String>, dflt: &str) -> (r: Vec<char>)
    ensures
        r@ == match opt_str(*o) {
            Some(t) => if t.len() > 0 { t } else { dflt@ },
            None => dflt@,
        },
{
    match o {
        Some(t) => {
            let c = chars_of(t.as_str());
            if c.len() > 0 {
                c
            } else {
                chars_of(dflt)
            }
        },
        None => chars_of(dflt),
    }
}

/// One golangci-lint issue (`Issues[]`: `FromLinter`, `Text`, `Severity`,
/// `Pos.Filename`, `Pos.Line`).
pub struct GolangciIssue {
    pub from_linter: Option<String>,
    pub text: Option<String>,
    pub filename: Option<String>,
    pub line: Option<u64>,
    pub severity: Option<String>,
}

/// An issue needs its linter and its file; the text defaults to empty, the
/// line to 0 (truncated to 32 bits), the severity to `warning`.
pub open spec fn golangci_of(i: GolangciIssue) -> Option<FindingV> {
    match (opt_str(i.from_linter), opt_str(i.filename)) {
        (Some(rule), Some(file)) => Some(
            FindingV {
                tool: "golangci-lint"@,
                rule,
                severity: match opt_str(i.severity) {
                    Some(t) => if t.len() > 0 { t } else { "warning"@ },
                    None => "warning"@,
                },
                file,
                line: match i.line {
                    Some(l) => l as u32,
                    None => 0,
                },
                message: match opt_str(i.text) {
                    Some(t) => t,
                    None => Seq::empty(),
                },
                in_change: false,
            },
        ),
        _ => None,
    }
}

/// golangci-lint issues as findings, before finalizing.
pub fn golangci_raw(issues: &[GolangciIssue]) -> (r: Vec<AnalysisFinding>)
    ensures
        findings_view(r@) == somes(issues@.map_values(|i: GolangciIssue| golangci_of(i))),
{
    let ghost src = issues@.map_values(|i: GolangciIssue| golangci_of(i));
    let mut out: Vec<AnalysisFinding> = Vec::new();
    let mut k: usize = 0;
    while k < issues.len()
        invariant
            k <= issues@.len(),
            src == issues@.map_values(|i: GolangciIssue| golangci_of(i)),
            findings_view(out@) == somes(src.take(k as int)),
        decreases issues.len() - k,
    {
        let iss = &issues[k];
        assert(src.take(k + 1).drop_last() =~= src.take(k as int));
        assert(src.take(k + 1).last() == golangci_of(*iss));
        match (&iss.from_linter, &iss.filename) {
            (Some(rule), Some(file)) => {
                let sev = nonempty_or(&iss.severity, "warning");
                let line: u32 = match iss.line {
                    Some(l) => l as u32,
                    None => 0,
                };
                let msg = text_or_empty(&iss.text);
                let f = finding("golangci-lint", &chars_of(rule.as_str()), &sev, &chars_of(file.as_str()), line, &msg);
                assert(golangci_of(*iss) == Some(finding_view(f)));
                let ghost before = findings_view(out@);
                out.push(f);
                assert(findings_view(out@) =~= before.push(finding_view(f)));
            },
            _ => {},
        }
        k += 1;
    }
    assert(src.take(issues@.len() as int) =~= src);
    out
}

/// One span of a clippy message.
pub struct ClippySpan {
    pub is_primary: Option<bool>,
    pub file_name: Option<String>,
    pub line_start: Option<u64>,
}

/// One line of `cargo clippy --message-format=json` output that is a JSON
/// object: its `reason`, whether it has a `message`, and that message's
/// `level`, `code.code`, `message` and `spans`.
pub struct ClippyLine {
    pub reason: Option<String>,
    pub has_message: bool,
    pub level: Option<String>,
    pub code: Option<String>,
    pub text: Option<String>,
    pub spans: Option<Vec<ClippySpan>>,
}

/// The file and line of the first primary span.
pub open spec fn first_primary(spans: Seq<ClippySpan>) -> Option<(Seq<char>, u32)>
    decreases spans.len(),
{
    if spans.len() == 0 {
        None
    } else if spans[0].is_primary == Some(true) {
        Some(
            (
                match opt_str(spans[0].file_name) {
                    Some(f) => f,
                    None => Seq::empty(),
                },
                match spans[0].line_start {
                    Some(l) => l as u32,
                    None => 0,
                },
            ),
        )
    } else {
        first_primary(spans.drop_first())
    }
}

/// A compiler message at `warning` or `error` level with a lint code and a
/// primary span naming a file.
pub open spec fn clippy_of(c: ClippyLine) -> Option<FindingV> {
    let level = match opt_str(c.level) {
        Some(l) => l,
        None => Seq::empty(),
    };
    let rule = match opt_str(c.code) {
        Some(r) => r,
        None => Seq::empty(),
    };
    let loc = match c.spans {
        Some(ss) => match first_primary(ss@) {
            Some(x) => x,
            None => (Seq::empty(), 0u32),
        },
        None => (Seq::empty(), 0u32),
    };
    if opt_str(c.reason) != Some("compiler-message"@) || !c.has_message {
        None
    } else if level != "warning"@ && level != "error"@ {
        None
    } else if rule.len() == 0 {
        None
    } else if loc.0.len() == 0 {
        None
    } else {
        Some(
            FindingV {
                tool: "clippy"@,
                rule,
                severity: level,
                file: loc.0,
                line: loc.1,
                message: match opt_str(c.text) {
                    Some(t) => t,
                    None => Seq::empty(),
                },
                in_change: false,
            },
        )
    }
}

fn first_primary_exec(spans: &Vec<ClippySpan>) -> (r: (Vec<char>, u32))
    ensures
        (r.0@, r.1) == match first_primary(spans@) {
            Some(x) => x,
            None => (Seq::empty(), 0u32),
        },
{
    let mut k: usize = 0;
    assert(spans@.skip(0) =~= spans@);
    while k < spans.len()
        invariant
            k <= spans@.len(),
            first_primary(spans@) == first_primary(spans@.skip(k as int)),
        decreases spans.len() - k,
    {
        assert(spans@.skip(k as int)[0] == spans@[k as int]);
        assert(spans@.skip(k as int).drop_first() =~= spans@.skip(k + 1));
        if matches!(spans[k].is_primary, Some(true)) {
            let f = text_or_empty(&spans[k].file_name);
            let l: u32 = match spans[k].line_start {
                Some(x) => x as u32,
                None => 0,
            };
            return (f, l);
        }
        k += 1;
    }
    assert(spans@.skip(k as int) =~= Seq::<ClippySpan>::empty());
    (Vec::new(), 0)
}

fn clippy_line(c: &ClippyLine) -> (r: Option<AnalysisFinding>)
    ensures
        match r {
            Some(f) => clippy_of(*c) == Some(finding_view(f)),
            None => clippy_of(*c) is None,
        },
{
    proof {
        reveal_strlit("compiler-message");
        reveal_strlit("warning");
        reveal_strlit("error");
    }
    let reason_ok = match &c.reason {
        Some(r) => eq_str(&chars_of(r.as_str()), "compiler-message"),
        None => false,
    };
    if !reason_ok || !c.has_message {
        return None;
    }
    let level = text_or_empty(&c.level);
    if !eq_str(&level, "warning") && !eq_str(&level, "error") {
        return None;
    }
    let rule = text_or_empty(&c.code);
    if rule.len() == 0 {
        return None;
    }
    let (file, line) = match &c.spans {
        Some(ss) => first_primary_exec(ss),
        None => (Vec::new(), 0),
    };
    if file.len() == 0 {
        return None;
    }
    let msg = text_or_empty(&c.text);
    Some(finding("clippy", &rule, &level, &file, line, &msg))
}

/// clippy compiler messages as findings, before finalizing.
pub fn clippy_raw(lines: &[ClippyLine]) -> (r: Vec<AnalysisFinding>)
    ensures
        findings_view(r@) == somes(lines@.map_values(|c: ClippyLine| clippy_of(c))),
{
    let ghost src = lines@.map_values(|c: ClippyLine| clippy_of(c));
    let mut out: Vec<AnalysisFinding> = Vec::new();
    let mut k: usize = 0;
    while k < lines.len()
        invariant
            k <= lines@.len(),
            src == lines@.map_values(|c: ClippyLine| clippy_of(c)),
            findings_view(out@) == somes(src.take(k as int)),
        decreases lines.len() - k,
    {
        assert(src.take(k + 1).drop_last() =~= src.take(k as int));
        assert(src.take(k + 1).last() == clippy_of(lines@[k as int]));
        match clippy_line(&lines[k]) {
            Some(f) => {
                let ghost before = findings_view(out@);
                out.push(f);
                assert(findings_view(out@) =~= before.push(finding_view(f)));
            },
            None => {},
        }
        k += 1;
    }
    assert(src.take(lines@.len() as int) =~= src);
    out
}


/// One gosec issue (`Issues[]`: `rule_id`, `details`, `file`, `line`,
/// `severity`), its `file` already made repo-relative by the caller.
pub struct GosecIssue {
    pub rule_id: Option<String>,
    pub details: Option<String>,
    pub file: Option<String>,
    pub line: Option<String>,
    pub severity: Option<String>,
}

/// A gosec line number: the start of a `42-45` range, 0 when it is not a
/// number.
pub open spec fn gosec_line(o: Option<Seq<char>>) -> u32 {
    match o {
        Some(t) => {
            let head = match index_from(t, '-', 0) {
                Some(i) => t.subrange(0, i),
                None => t,
            };
            match parse_u32(trim(head)) {
                Some(n) => n,
                None => 0,
            }
        },
        None => 0,
    }
}

/// An issue needs its rule and file; the severity (default `warning`) is
/// lower-cased.
pub open spec fn gosec_of(i: GosecIssue) -> Option<FindingV> {
    match (opt_str(i.rule_id), opt_str(i.file)) {
        (Some(rule), Some(file)) => Some(
            FindingV {
                tool: "gosec"@,
                rule,
                severity: lower_seq(
                    match opt_str(i.severity) {
                        Some(t) => if t.len() > 0 { t } else { "warning"@ },
                        None => "warning"@,
                    },
                ),
                file,
                line: gosec_line(opt_str(i.line)),
                message: match opt_str(i.details) {
                    Some(t) => t,
                    None => Seq::empty(),
                },
                in_change: false,
            },
        ),
        _ => None,
    }
}

fn gosec_line_exec(o: &Option<String>) -> (r: u32)
    ensures
        r == gosec_line(opt_str(*o)),
{
    match o {
        Some(t) => {
            let c = chars_of(t.as_str());
            let _n = c.len();
            proof {
                lemma_index_from_range(c@, '-', 0);
            }
            let head = match index_of(&c, '-', 0) {
                Some(i) => slice_of(&c, 0, i),
                None => slice_of(&c, 0, c.len()),
            };
            assert(c@.subrange(0, c@.len() as int) =~= c@);
            match parse_u32_exec(&trim_exec(&head)) {
                Some(n) => n,
                None => 0,
            }
        },
        None => 0,
    }
}

/// gosec issues as findings, before finalizing.
pub fn gosec_raw(issues: &[GosecIssue]) -> (r: Vec<AnalysisFinding>)
    ensures
        findings_view(r@) == somes(issues@.map_values(|i: GosecIssue| gosec_of(i))),
{
    let ghost src = issues@.map_values(|i: GosecIssue| gosec_of(i));
    let mut out: Vec<AnalysisFinding> = Vec::new();
    let mut k: usize = 0;
    while k < issues.len()
        invariant
            k <= issues@.len(),
            src == issues@.map_values(|i: GosecIssue| gosec_of(i)),
            findings_view(out@) == somes(src.take(k as int)),
        decreases issues.len() - k,
    {
        let iss = &issues[k];
        assert(src.take(k + 1).drop_last() =~= src.take(k as int));
        assert(src.take(k + 1).last() == gosec_of(*iss));
        match (&iss.rule_id, &iss.file) {
            (Some(rule), Some(file)) => {
                let sev = to_lower(&nonempty_or(&iss.severity, "warning"));
                let line = gosec_line_exec(&iss.line);
                let msg = text_or_empty(&iss.details);
                let f = finding("gosec", &chars_of(rule.as_str()), &sev, &chars_of(file.as_str()), line, &msg);
                assert(gosec_of(*iss) == Some(finding_view(f)));
                let ghost before = findings_view(out@);
                out.push(f);
                assert(findings_view(out@) =~= before.push(finding_view(f)));
            },
            _ => {},
        }
        k += 1;
    }
    assert(src.take(issues@.len() as int) =~= src);
    out
}

/// One cargo-audit entry: its advisory's `id` and `title`, its package's
/// `name` and `version`.
pub struct AuditItem {
    pub advisory_id: Option<String>,
    pub advisory_title: Option<String>,
    pub pkg_name: Option<String>,
    pub pkg_version: Option<String>,
}

/// A cargo-audit report: `vulnerabilities.list`, and each array under
/// `warnings` with its kind (in the report's key order).
pub struct AuditReport {
    pub vulnerabilities: Vec<AuditItem>,
    pub warnings: Vec<(String, Vec<AuditItem>)>,
}

pub open spec fn or_empty(o: Option<Seq<char>>) -> Seq<char> {
    match o {
        Some(t) => t,
        None => Seq::empty(),
    }
}

/// `name@version`, or the bare name without a version.
pub open spec fn pkg_label(i: AuditItem) -> Seq<char> {
    let name = or_empty(opt_str(i.pkg_name));
    let ver = or_empty(opt_str(i.pkg_version));
    if ver.len() == 0 {
        name
    } else {
        name + "@"@ + ver
    }
}

/// An advisory finding on `Cargo.lock`: the advisory id as rule (or the
/// fallback), the title with the package in parentheses as message.
pub open spec fn audit_finding(i: AuditItem, severity: Seq<char>, fallback: Seq<char>) -> FindingV {
    let id = or_empty(opt_str(i.advisory_id));
    let title = or_empty(opt_str(i.advisory_title));
    let pkg = pkg_label(i);
    FindingV {
        tool: "cargo-audit"@,
        rule: if id.len() > 0 { id } else { fallback },
        severity,
        file: "Cargo.lock"@,
        line: 0,
        message: if title.len() > 0 && pkg.len() > 0 {
            title + " ("@ + pkg + ")"@
        } else if title.len() > 0 {
            title
        } else if pkg.len() > 0 {
            fallback + ": "@ + pkg
        } else {
            fallback
        },
        in_change: false,
    }
}

pub open spec fn audit_items(items: Seq<AuditItem>, severity: Seq<char>, fallback: Seq<char>) -> Seq<FindingV> {
    items.map_values(|i: AuditItem| audit_finding(i, severity, fallback))
}

pub open spec fn audit_warnings(ws: Seq<(String, Vec<AuditItem>)>) -> Seq<FindingV>
    decreases ws.len(),
{
    if ws.len() == 0 {
        Seq::empty()
    } else {
        audit_warnings(ws.drop_last()) + audit_items(ws.last().1@, "warning"@, ws.last().0@)
    }
}

fn audit_one(i: &AuditItem, severity: &str, fallback: &Vec<char>) -> (r: AnalysisFinding)
    ensures
        finding_view(r) == audit_finding(*i, severity@, fallback@),
{
    let id = text_or_empty(&i.advisory_id);
    let title = text_or_empty(&i.advisory_title);
    let name = text_or_empty(&i.pkg_name);
    let ver = text_or_empty(&i.pkg_version);
    let mut pkg = name;
    if ver.len() > 0 {
        push_str(&mut pkg, "@");
        push_chars(&mut pkg, &ver);
    }
    assert(pkg@ == pkg_label(*i));
    let rule = if id.len() > 0 { id } else { slice_of(fallback, 0, fallback.len()) };
    assert(fallback@.subrange(0, fallback@.len() as int) =~= fallback@);
    let mut msg: Vec<char> = Vec::new();
    if title.len() > 0 && pkg.len() > 0 {
        push_chars(&mut msg, &title);
        push_str(&mut msg, " (");
        push_chars(&mut msg, &pkg);
        push_str(&mut msg, ")");
    } else if title.len() > 0 {
        push_chars(&mut msg, &title);
    } else if pkg.len() > 0 {
        push_chars(&mut msg, fallback);
        push_str(&mut msg, ": ");
        push_chars(&mut msg, &pkg);
    } else {
        push_chars(&mut msg, fallback);
    }
    finding("cargo-audit", &rule, &chars_of(severity), &chars_of("Cargo.lock"), 0, &msg)
}

fn audit_list(out: &mut Vec<AnalysisFinding>, items: &Vec<AuditItem>, severity: &str, fallback: &Vec<char>)
    ensures
        findings_view(final(out)@) == findings_view(old(out)@) + audit_items(items@, severity@, fallback@),
{
    let ghost o0 = findings_view(out@);
    let ghost all = audit_items(items@, severity@, fallback@);
    let mut k: usize = 0;
    while k < items.len()
        invariant
            k <= items@.len(),
            all == audit_items(items@, severity@, fallback@),
            findings_view(out@) == o0 + all.take(k as int),
        decreases items.len() - k,
    {
        let f = audit_one(&items[k], severity, fallback);
        let ghost before = findings_view(out@);
        out.push(f);
        assert(findings_view(out@) =~= before.push(finding_view(f)));
        assert(all.take(k + 1) =~= all.take(k as int).push(all[k as int]));
        k += 1;
    }
    assert(all.take(items@.len() as int) =~= all);
}

/// cargo-audit advisories as findings on `Cargo.lock`, before finalizing:
/// vulnerabilities as errors, then each warning kind's entries as warnings.
pub fn cargo_audit_raw(report: &AuditReport) -> (r: Vec<AnalysisFinding>)
    ensures
        findings_view(r@) == audit_items(report.vulnerabilities@, "error"@, "vulnerability"@) + audit_warnings(
            report.warnings@,
        ),
{
    let mut out: Vec<AnalysisFinding> = Vec::new();
    audit_list(&mut out, &report.vulnerabilities, "error", &chars_of("vulnerability"));
    let ghost base = findings_view(out@);
    let mut k: usize = 0;
    while k < report.warnings.len()
        invariant
            k <= report.warnings@.len(),
            findings_view(out@) == base + audit_warnings(report.warnings@.take(k as int)),
        decreases report.warnings.len() - k,
    {
        let kind = chars_of(report.warnings[k].0.as_str());
        audit_list(&mut out, &report.warnings[k].1, "warning", &kind);
        assert(report.warnings@.take(k + 1).drop_last() =~= report.warnings@.take(k as int));
        k += 1;
    }
    assert(report.warnings@.take(report.warnings@.len() as int) =~= report.warnings@);
    out
}


/// One line of cargo-deny's JSON stream that is a JSON object: its `type`,
/// whether it has `fields`, and those fields' `severity`, `code`, `message`
/// and first label's `line` and `span`.
pub struct DenyLine {
    pub kind: Option<String>,
    pub has_fields: bool,
    pub severity: Option<String>,
    pub code: Option<String>,
    pub message: Option<String>,
    pub label_line: Option<u64>,
    pub label_span: Option<String>,
}

/// An `error`/`warning` diagnostic as a finding on `Cargo.lock` at the label's
/// line, the label span's first word appended to the message unless already
/// in it.
pub open spec fn deny_of(d: DenyLine) -> Option<FindingV> {
    let sev = or_empty(opt_str(d.severity));
    let code = or_empty(opt_str(d.code));
    let message = or_empty(opt_str(d.message));
    let span = match opt_str(d.label_span) {
        Some(t) => {
            let ts = tokens_from(t, 0);
            if ts.len() > 0 { ts[0] } else { Seq::empty() }
        },
        None => Seq::empty(),
    };
    if opt_str(d.kind) != Some("diagnostic"@) || !d.has_fields {
        None
    } else if sev != "error"@ && sev != "warning"@ {
        None
    } else {
        Some(
            FindingV {
                tool: "cargo-deny"@,
                rule: if code.len() > 0 { code } else { "deny"@ },
                severity: sev,
                file: "Cargo.lock"@,
                line: match d.label_line {
                    Some(l) => l as u32,
                    None => 0,
                },
                message: if span.len() == 0 || contains(message, span) {
                    message
                } else {
                    message + " ("@ + span + ")"@
                },
                in_change: false,
            },
        )
    }
}

fn deny_line(d: &DenyLine) -> (r: Option<AnalysisFinding>)
    ensures
        match r {
            Some(f) => deny_of(*d) == Some(finding_view(f)),
            None => deny_of(*d) is None,
        },
{
    proof {
        reveal_strlit("diagnostic");
        reveal_strlit("error");
        reveal_strlit("warning");
    }
    let kind_ok = match &d.kind {
        Some(k) => eq_str(&chars_of(k.as_str()), "diagnostic"),
        None => false,
    };
    if !kind_ok || !d.has_fields {
        return None;
    }
    let sev = text_or_empty(&d.severity);
    if !eq_str(&sev, "error") && !eq_str(&sev, "warning") {
        return None;
    }
    let rule = nonempty_or(&d.code, "deny");
    let message = text_or_empty(&d.message);
    let line: u32 = match d.label_line {
        Some(l) => l as u32,
        None => 0,
    };
    let span: Vec<char> = match &d.label_span {
        Some(t) => {
            let ts = split_ws(&chars_of(t.as_str()));
            if ts.len() > 0 {
                assert(views_of(ts@)[0] == ts@[0]@);
                slice_of(&ts[0], 0, ts[0].len())
            } else {
                Vec::new()
            }
        },
        None => Vec::new(),
    };
    proof {
        if d.label_span is Some {
            let ts = tokens_from(d.label_span->0@, 0);
            if ts.len() > 0 {
                assert(ts[0].subrange(0, ts[0].len() as int) =~= ts[0]);
            }
        }
    }
    let msg = if span.len() == 0 || contains_exec(&message, &span) {
        message
    } else {
        let mut m = message;
        push_str(&mut m, " (");
        push_chars(&mut m, &span);
        push_str(&mut m, ")");
        m
    };
    Some(finding("cargo-deny", &rule, &sev, &chars_of("Cargo.lock"), line, &msg))
}

/// cargo-deny diagnostics as findings, before finalizing.
pub fn cargo_deny_raw(lines: &[DenyLine]) -> (r: Vec<AnalysisFinding>)
    ensures
        findings_view(r@) == somes(lines@.map_values(|d: DenyLine| deny_of(d))),
{
    let ghost src = lines@.map_values(|d: DenyLine| deny_of(d));
    let mut out: Vec<AnalysisFinding> = Vec::new();
    let mut k: usize = 0;
    while k < lines.len()
        invariant
            k <= lines@.len(),
            src == lines@.map_values(|d: DenyLine| deny_of(d)),
            findings_view(out@) == somes(src.take(k as int)),
        decreases lines.len() - k,
    {
        assert(src.take(k + 1).drop_last() =~= src.take(k as int));
        assert(src.take(k + 1).last() == deny_of(lines@[k as int]));
        match deny_line(&lines[k]) {
            Some(f) => {
                let ghost before = findings_view(out@);
                out.push(f);
                assert(findings_view(out@) =~= before.push(finding_view(f)));
            },
            None => {},
        }
        k += 1;
    }
    assert(src.take(lines@.len() as int) =~= src);
    out
}

/// Each raw finding finalized with whether its path stays in the repo
/// (`confined[i]` for `raw[i]`); escapers are dropped.
pub open spec fn finalize_each(raw: Seq<FindingV>, confined: Seq<bool>, changed: Seq<Seq<char>>) -> Seq<FindingV>
    decreases raw.len(),
{
    if raw.len() == 0 {
        Seq::empty()
    } else {
        let rest = finalize_each(raw.drop_last(), confined.take(raw.len() - 1), changed);
        match finalize_spec(raw.last(), confined[raw.len() - 1], changed) {
            Some(f) => rest.push(f),
            None => rest,
        }
    }
}

/// Finalize every raw finding of a tool run.
pub fn finalize_all(raw: Vec<AnalysisFinding>, confined: &[bool], changed: &[String]) -> (r: Vec<AnalysisFinding>)
    requires
        confined@.len() == raw@.len(),
    ensures
        findings_view(r@) == finalize_each(findings_view(raw@), confined@, strings_view(changed@)),
{
    let ghost rv = findings_view(raw@);
    let mut out: Vec<AnalysisFinding> = Vec::new();
    let mut k: usize = 0;
    while k < raw.len()
        invariant
            k <= raw@.len() == confined@.len(),
            rv == findings_view(raw@),
            findings_view(out@) == finalize_each(rv.take(k as int), confined@.take(k as int), strings_view(changed@)),
        decreases raw.len() - k,
    {
        assert(rv.take(k + 1).drop_last() =~= rv.take(k as int));
        assert(confined@.take(k + 1).take(k as int) =~= confined@.take(k as int));
        assert(rv.take(k + 1).last() == finding_view(raw@[k as int]));
        match finalize(clone_finding(&raw[k]), confined[k], changed) {
            Some(f) => {
                let ghost before = findings_view(out@);
                out.push(f);
                assert(findings_view(out@) =~= before.push(finding_view(f)));
            },
            None => {},
        }
        k += 1;
    }
    assert(rv.take(raw@.len() as int) =~= rv);
    assert(confined@.take(raw@.len() as int) =~= confined@);
    out
}

/// All leading and trailing `c`s stripped (`str::trim_matches`).
pub open spec fn strip_both(s: Seq<char>, c: char) -> Seq<char> {
    strip_trailing(strip_leading(s, c), c)
}

pub open spec fn strip_trailing(s: Seq<char>, c: char) -> Seq<char>
    decreases s.len(),
{
    if s.len() > 0 && s.last() == c {
        strip_trailing(s.drop_last(), c)
    } else {
        s
    }
}

fn strip_trailing_exec(s: &[char], c: char) -> (r: Vec<char>)
    ensures
        r@ == strip_trailing(s@, c),
{
    let mut k: usize = s.len();
    assert(s@.subrange(0, s@.len() as int) =~= s@);
    while k > 0 && s[k - 1] == c
        invariant
            k <= s@.len(),
            strip_trailing(s@, c) == strip_trailing(s@.subrange(0, k as int), c),
        decreases k,
    {
        assert(s@.subrange(0, k as int).drop_last() =~= s@.subrange(0, k - 1));
        k -= 1;
    }
    slice_of(s, 0, k)
}

/// The `[package]` name of a Cargo manifest from line `i` on: in the
/// `[package]` table, a `name = "…"` line with a non-empty value (quotes
/// stripped); a `[...]` line switches tables.
pub open spec fn package_name_from(ls: Seq<Seq<char>>, i: int, in_package: bool) -> Option<Seq<char>>
    decreases ls.len() - i,
{
    if i < 0 || i >= ls.len() {
        None
    } else {
        let t = trim(ls[i]);
        if has_prefix(t, "["@) {
            package_name_from(ls, i + 1, t == "[package]"@)
        } else if in_package && has_prefix(t, "name"@) {
            let r2 = trim_start(t.subrange(4, t.len() as int));
            if has_prefix(r2, "="@) {
                let v = strip_both(trim(r2.subrange(1, r2.len() as int)), '"');
                if v.len() > 0 {
                    Some(v)
                } else {
                    package_name_from(ls, i + 1, in_package)
                }
            } else {
                package_name_from(ls, i + 1, in_package)
            }
        } else {
            package_name_from(ls, i + 1, in_package)
        }
    }
}

/// The `[package] name` of a Cargo manifest's text (a workspace-only manifest
/// has none).
pub fn package_name(manifest: &str) -> (r: Option<String>)
    ensures
        match r {
            Some(n) => package_name_from(lines_spec(manifest@), 0, false) == Some(n@),
            None => package_name_from(lines_spec(manifest@), 0, false) is None,
        },
{
    proof {
        reveal_strlit("[");
        reveal_strlit("name");
        reveal_strlit("=");
    }
    let chars = chars_of(manifest);
    let lines = lines_of(&chars);
    let ghost ls = views_of(lines@);
    let mut in_package = false;
    let mut i: usize = 0;
    while i < lines.len()
        invariant
            i <= lines@.len(),
            ls == views_of(lines@),
            ls == lines_spec(manifest@),
            package_name_from(ls, 0, false) == package_name_from(ls, i as int, in_package),
        decreases lines.len() - i,
    {
        assert(ls[i as int] == lines@[i as int]@);
        proof {
            reveal_strlit("[");
            reveal_strlit("name");
            reveal_strlit("=");
        }
        let t = trim_exec(&lines[i]);
        if has_prefix_exec(&t, &chars_of("[")) {
            in_package = eq_str(&t, "[package]");
        } else if in_package && has_prefix_exec(&t, &chars_of("name")) {
            let rest = slice_of(&t, 4, t.len());
            let r2 = trim_start_exec(&rest);
            if has_prefix_exec(&r2, &chars_of("=")) {
                let inner = trim_exec(&slice_of(&r2, 1, r2.len()));
                let v = strip_trailing_exec(&strip_leading_exec(&inner, '"'), '"');
                if v.len() > 0 {
                    return Some(string_of(&v));
                }
            }
        }
        i += 1;
    }
    None
}

/// The `--db <path> -n ` fragment (trailing space) for `cargo audit` when a
/// non-blank advisory database path is given, the path shell-quoted; empty
/// otherwise.
pub fn advisory_db_arg_from(db: Option<String>) -> (r: String)
    ensures
        r@ == match db {
            Some(p) => if trim(p@).len() > 0 {
                "--db "@ + (seq!['\''] + quote_body(p@) + seq!['\'']) + " -n "@
            } else {
                Seq::empty()
            },
            None => Seq::empty(),
        },
{
    match db {
        Some(p) => {
            let c = chars_of(p.as_str());
            if trim_exec(&c).len() > 0 {
                let mut out = chars_of("--db ");
                let q = sh_quote(p.as_str());
                push_chars(&mut out, &chars_of(q.as_str()));
                push_str(&mut out, " -n ");
                string_of(&out)
            } else {
                String::new()
            }
        },
        None => String::new(),
    }
}


/// The `--config <path> ` fragment (trailing space) for golangci-lint, the
/// path shell-quoted.
pub fn config_arg(path: &str) -> (r: String)
    ensures
        r@ == "--config "@ + (seq!['\''] + quote_body(path@) + seq!['\'']) + " "@,
{
    let mut out = chars_of("--config ");
    let q = sh_quote(path);
    push_chars(&mut out, &chars_of(q.as_str()));
    push_str(&mut out, " ");
    string_of(&out)
}


/// One analyzer tool's run: its status (`ok`, `skipped`, `failed`,
/// `timeout`), why when not ok, how long it took and how many findings it
/// produced.
#[derive(Clone, Debug)]
pub struct AnalyzerRun {
    pub tool: String,
    pub status: String,
    pub reason: String,
    pub duration_ms: u32,
    pub finding_count: u32,
}

/// Whether each raw finding's file is among `ok`, the paths the caller found
/// to stay inside the repository.
pub open spec fn confined_flags(raw: Seq<FindingV>, ok: Seq<Seq<char>>) -> Seq<bool> {
    raw.map_values(|f: FindingV| ok.contains(f.file))
}

/// The raw findings finalized: a finding whose file is not among `ok` is
/// dropped; the rest are tagged with whether the change touched their file
/// and have their message bounded.
pub open spec fn finalize_known(raw: Seq<FindingV>, ok: Seq<Seq<char>>, changed: Seq<Seq<char>>) -> Seq<FindingV> {
    finalize_each(raw, confined_flags(raw, ok), changed)
}

/// Finalize a tool's raw findings against the paths known to stay inside the
/// repository.
pub fn finalize_confined(raw: Vec<AnalysisFinding>, ok: &[String], changed: &[String]) -> (r: Vec<AnalysisFinding>)
    ensures
        findings_view(r@) == finalize_known(findings_view(raw@), strings_view(ok@), strings_view(changed@)),
{
    let ghost rv = findings_view(raw@);
    let mut flags: Vec<bool> = Vec::new();
    let mut k: usize = 0;
    while k < raw.len()
        invariant
            k <= raw@.len(),
            rv == findings_view(raw@),
            flags@ == confined_flags(rv, strings_view(ok@)).take(k as int),
        decreases raw.len() - k,
    {
        let b = contains_string(ok, &raw[k].file);
        flags.push(b);
        assert(flags@ =~= confined_flags(rv, strings_view(ok@)).take(k + 1));
        k += 1;
    }
    assert(flags@ =~= confined_flags(rv, strings_view(ok@)));
    finalize_all(raw, &flags, changed)
}

/// `n` copies of the flag `b`.
pub open spec fn same_flags(n: nat, b: bool) -> Seq<bool> {
    Seq::new(n, |i: int| b)
}

/// `go vet` diagnostics (stderr) as finalized findings.
pub fn parse_govet(stderr: &str, ok: &[String], changed: &[String]) -> (r: Vec<AnalysisFinding>)
    ensures
        findings_view(r@) == finalize_known(
            line_findings_from(LineReport::GoVet, lines_spec(stderr@), 0),
            strings_view(ok@),
            strings_view(changed@),
        ),
{
    finalize_confined(govet_raw(stderr), ok, changed)
}

/// The files `gofmt -l` lists as finalized findings.
pub fn parse_gofmt(stdout: &str, ok: &[String], changed: &[String]) -> (r: Vec<AnalysisFinding>)
    ensures
        findings_view(r@) == finalize_known(
            line_findings_from(LineReport::GoFmt, lines_spec(stdout@), 0),
            strings_view(ok@),
            strings_view(changed@),
        ),
{
    finalize_confined(gofmt_raw(stdout), ok, changed)
}

/// golangci-lint issues as finalized findings.
pub fn parse_golangci(issues: &[GolangciIssue], ok: &[String], changed: &[String]) -> (r: Vec<AnalysisFinding>)
    ensures
        findings_view(r@) == finalize_known(
            somes(issues@.map_values(|i: GolangciIssue| golangci_of(i))),
            strings_view(ok@),
            strings_view(changed@),
        ),
{
    finalize_confined(golangci_raw(issues), ok, changed)
}

/// clippy diagnostics as finalized findings.
pub fn parse_clippy(lines: &[ClippyLine], ok: &[String], changed: &[String]) -> (r: Vec<AnalysisFinding>)
    ensures
        findings_view(r@) == finalize_known(
            somes(lines@.map_values(|c: ClippyLine| clippy_of(c))),
            strings_view(ok@),
            strings_view(changed@),
        ),
{
    finalize_confined(clippy_raw(lines), ok, changed)
}

/// gosec issues as finalized findings.
pub fn parse_gosec(issues: &[GosecIssue], ok: &[String], changed: &[String]) -> (r: Vec<AnalysisFinding>)
    ensures
        findings_view(r@) == finalize_known(
            somes(issues@.map_values(|i: GosecIssue| gosec_of(i))),
            strings_view(ok@),
            strings_view(changed@),
        ),
{
    finalize_confined(gosec_raw(issues), ok, changed)
}

/// cargo-deny diagnostics as finalized findings.
pub fn parse_cargo_deny(lines: &[DenyLine], ok: &[String], changed: &[String]) -> (r: Vec<AnalysisFinding>)
    ensures
        findings_view(r@) == finalize_known(
            somes(lines@.map_values(|d: DenyLine| deny_of(d))),
            strings_view(ok@),
            strings_view(changed@),
        ),
{
    finalize_confined(cargo_deny_raw(lines), ok, changed)
}

/// cargo-audit advisories as finalized findings. Every one is on
/// `Cargo.lock`, so `lock_confined` (whether that file stays inside the
/// repository) confines them all: when it does not, there are none.
pub fn parse_cargo_audit(report: &AuditReport, lock_confined: bool, changed: &[String]) -> (r: Vec<AnalysisFinding>)
    ensures
        ({
            let raw = audit_items(report.vulnerabilities@, "error"@, "vulnerability"@) + audit_warnings(report.warnings@);
            findings_view(r@) == finalize_each(raw, same_flags(raw.len(), lock_confined), strings_view(changed@))
        }),
{
    let raw = cargo_audit_raw(report);
    let ghost rv = findings_view(raw@);
    let mut flags: Vec<bool> = Vec::new();
    let mut k: usize = 0;
    while k < raw.len()
        invariant
            k <= raw@.len(),
            flags@ == same_flags(k as nat, lock_confined),
        decreases raw.len() - k,
    {
        flags.push(lock_confined);
        assert(flags@ =~= same_flags((k + 1) as nat, lock_confined));
        k += 1;
    }
    finalize_all(raw, &flags, changed)
}

/// What finalizing guarantees of every reported finding: its file is one of
/// the flagged-inside paths, its in-change tag says whether the change touched
/// that file, and its message is bounded.
pub proof fn law_finalized_findings(raw: Seq<FindingV>, confined: Seq<bool>, changed: Seq<Seq<char>>)
    requires
        confined.len() == raw.len(),
    ensures
        forall|i: int|
            0 <= i < finalize_each(raw, confined, changed).len() ==> {
                let f = #[trigger] finalize_each(raw, confined, changed)[i];
                &&& f.message.len() <= MAX_MSG + 13
                &&& f.in_change == changed.contains(f.file)
                &&& exists|j: int| 0 <= j < raw.len() && confined[j] && raw[j].file == f.file
            },
    decreases raw.len(),
{
    if raw.len() > 0 {
        let p = raw.drop_last();
        let cp = confined.take(raw.len() - 1);
        law_finalized_findings(p, cp, changed);
        let rest = finalize_each(p, cp, changed);
        let out = finalize_each(raw, confined, changed);
        assert forall|i: int| 0 <= i < out.len() implies {
            let f = #[trigger] out[i];
            &&& f.message.len() <= MAX_MSG + 13
            &&& f.in_change == changed.contains(f.file)
            &&& exists|j: int| 0 <= j < raw.len() && confined[j] && raw[j].file == f.file
        } by {
            if i < rest.len() {
                assert(out[i] == rest[i]);
                let f = rest[i];
                let j = choose|j: int| 0 <= j < p.len() && cp[j] && p[j].file == f.file;
                assert(raw[j] == p[j] && confined[j] == cp[j]);
            } else {
                let j = raw.len() - 1;
                assert(confined[j] && raw[j].file == out[i].file);
                let m = raw.last().message;
                if m.len() > MAX_MSG {
                    reveal_strlit("… [truncated]");
                }
            }
        }
    }
}

} // verus!
