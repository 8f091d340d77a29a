//! Shell-script selection and the no-ignores rule for shellcheck directives.
use vstd::prelude::*;
use crate::paths::{eq_str, ext, ext_or_empty};
use crate::gochecks::{quoted_scope, quoted_scope_spec, strings_view};
use crate::analysis::{opt_str, or_empty, somes};
use crate::findings::{clone_finding, finding, finding_view, findings_view, push_chars, AnalysisFinding, FindingV, MAX_MSG};
use crate::signatures::{bound, bound_spec};
use crate::text::{
    chars_of, dec_text, dec_text_exec, has_prefix, has_prefix_exec, lines_of, lines_spec, lower_seq,
    slice_of, string_of, trim, trim_exec, trim_start, trim_start_exec, views_of,
};

verus! {

/// A changed file that shellcheck should lint: a `.sh`/`.bash` extension, in
/// any case.
pub fn is_shell(path: &str) -> (r: bool)
    ensures
        r == (lower_seq(ext_or_empty(path@)) == "sh"@ || lower_seq(ext_or_empty(path@)) == "bash"@),
{
    let e = ext(path);
    eq_str(&e, "sh") || eq_str(&e, "bash")
}

/// A `# shellcheck disable…`/`# shellcheck source…` comment (whitespace allowed
/// before the `#`, after it, and after `shellcheck`).
pub open spec fn ignore_directive_spec(line: Seq<char>) -> bool {
    let t = trim_start(line);
    if !has_prefix(t, seq!['#']) {
        false
    } else {
        let rest = trim_start(t.drop_first());
        if !has_prefix(rest, "shellcheck"@) {
            false
        } else {
            let after = trim_start(rest.subrange("shellcheck"@.len() as int, rest.len() as int));
            has_prefix(after, "disable"@) || has_prefix(after, "source"@)
        }
    }
}

/// Whether a source line carries an inline shellcheck directive (`disable` or
/// `source`): the thing the no-ignores rule forbids.
pub fn is_ignore_directive(line: &str) -> (r: bool)
    ensures
        r == ignore_directive_spec(line@),
{
    let v = chars_of(line);
    let t = trim_start_exec(&v);
    if t.len() == 0 || t[0] != '#' {
        assert(!has_prefix(t@, seq!['#'])) by {
            if t@.len() > 0 {
                assert(t@.subrange(0, 1)[0] == t@[0]);
            }
        }
        return false;
    }
    assert(t@.subrange(0, 1) =~= seq!['#']);
    let after_hash = slice_of(&t, 1, t.len());
    assert(after_hash@ =~= t@.drop_first());
    let rest = trim_start_exec(&after_hash);
    let kw = chars_of("shellcheck");
    if !has_prefix_exec(&rest, &kw) {
        return false;
    }
    let tail = slice_of(&rest, kw.len(), rest.len());
    let after = trim_start_exec(&tail);
    let disable = chars_of("disable");
    let source = chars_of("source");
    has_prefix_exec(&after, &disable) || has_prefix_exec(&after, &source)
}


/// One `shellcheck --format=json1` comment (`comments[]`: `file`, `line`,
/// `level`, `code`, `message`).
pub struct ShellcheckComment {
    pub file: Option<String>,
    pub line: Option<u64>,
    pub level: Option<String>,
    pub code: Option<u64>,
    pub message: Option<String>,
}

/// A comment needs its file; the rule is `SC<code>` (code 0 when absent), the
/// severity its level (default `warning`).
pub open spec fn comment_of(c: ShellcheckComment) -> Option<FindingV> {
    match opt_str(c.file) {
        None => None,
        Some(file) => Some(
            FindingV {
                tool: "shellcheck"@,
                rule: "SC"@ + dec_text(
                    match c.code {
                        Some(n) => n as nat,
                        None => 0,
                    },
                ),
                severity: match opt_str(c.level) {
                    Some(t) => if t.len() > 0 { t } else { "warning"@ },
                    None => "warning"@,
                },
                file,
                line: match c.line {
                    Some(l) => l as u32,
                    None => 0,
                },
                message: or_empty(opt_str(c.message)),
                in_change: false,
            },
        ),
    }
}

fn comment_finding(c: &ShellcheckComment) -> (r: Option<AnalysisFinding>)
    ensures
        match r {
            Some(f) => comment_of(*c) == Some(finding_view(f)),
            None => comment_of(*c) is None,
        },
{
    match &c.file {
        None => None,
        Some(file) => {
            let mut rule = chars_of("SC");
            let code: u64 = match c.code {
                Some(n) => n,
                None => 0,
            };
            push_chars(&mut rule, &dec_text_exec(code));
            let sev = match &c.level {
                Some(t) => {
                    let v = chars_of(t.as_str());
                    if v.len() > 0 { v } else { chars_of("warning") }
                },
                None => chars_of("warning"),
            };
            let line: u32 = match c.line {
                Some(l) => l as u32,
                None => 0,
            };
            let msg = match &c.message {
                Some(m) => chars_of(m.as_str()),
                None => Vec::new(),
            };
            Some(finding("shellcheck", &rule, &sev, &chars_of(file.as_str()), line, &msg))
        },
    }
}

/// shellcheck comments as findings, before finalizing.
pub fn parse_shellcheck_json1(comments: &[ShellcheckComment]) -> (r: Vec<AnalysisFinding>)
    ensures
        findings_view(r@) == somes(comments@.map_values(|c: ShellcheckComment| comment_of(c))),
{
    let ghost src = comments@.map_values(|c: ShellcheckComment| comment_of(c));
    let mut out: Vec<AnalysisFinding> = Vec::new();
    let mut k: usize = 0;
    while k < comments.len()
        invariant
            k <= comments@.len(),
            src == comments@.map_values(|c: ShellcheckComment| comment_of(c)),
            findings_view(out@) == somes(src.take(k as int)),
        decreases comments.len() - k,
    {
        assert(src.take(k + 1).drop_last() =~= src.take(k as int));
        assert(src.take(k + 1).last() == comment_of(comments@[k as int]));
        match comment_finding(&comments[k]) {
            Some(f) => {
                let ghost before = findings_view(out@);
                out.push(f);
                assert(findings_view(out@) =~= before.push(finding_view(f)));
            },
            None => {},
        }
        k += 1;
    }
    assert(src.take(comments@.len() as int) =~= src);
    out
}

/// The no-ignores findings of one script, from line `i` on: each directive
/// line is an error at its 1-based line number.
pub open spec fn directives_from(ls: Seq<Seq<char>>, i: int, file: Seq<char>, in_change: bool) -> Seq<FindingV>
    decreases ls.len() - i,
{
    if i < 0 || i >= ls.len() {
        Seq::empty()
    } else if ignore_directive_spec(ls[i]) {
        seq![
            FindingV {
                tool: "shellcheck"@,
                rule: "no-ignores"@,
                severity: "error"@,
                file,
                line: if i + 1 > u32::MAX { u32::MAX } else { (i + 1) as u32 },
                message: bound_spec(
                    "inline shellcheck directive not permitted (no-ignores policy): "@ + trim(ls[i]),
                    MAX_MSG as nat,
                ),
                in_change,
            },
        ] + directives_from(ls, i + 1, file, in_change)
    } else {
        directives_from(ls, i + 1, file, in_change)
    }
}

/// The no-ignores rule over one changed script's text: every inline
/// `# shellcheck disable…`/`source…` directive is itself a finding, so a
/// script cannot silence the linter.
pub fn directive_findings(file: &str, text: &str, in_change: bool) -> (r: Vec<AnalysisFinding>)
    ensures
        findings_view(r@) == directives_from(lines_spec(text@), 0, file@, in_change),
{
    let chars = chars_of(text);
    let lines = lines_of(&chars);
    let ghost ls = views_of(lines@);
    let mut found: Vec<AnalysisFinding> = Vec::new();
    let mut i: usize = 0;
    while i < lines.len()
        invariant
            i <= lines@.len(),
            ls == views_of(lines@),
            ls == lines_spec(text@),
            findings_view(found@) + directives_from(ls, i as int, file@, in_change) == directives_from(ls, 0, file@, in_change),
        decreases lines.len() - i,
    {
        assert(ls[i as int] == lines@[i as int]@);
        let line_text = string_of(&lines[i]);
        if is_ignore_directive(line_text.as_str()) {
            let mut m = chars_of("inline shellcheck directive not permitted (no-ignores policy): ");
            push_chars(&mut m, &trim_exec(&lines[i]));
            let msg = bound(&m, MAX_MSG);
            let ln: u32 = if i >= 0xffff_ffff { 0xffff_ffff } else { (i + 1) as u32 };
            let f = finding("shellcheck", &chars_of("no-ignores"), &chars_of("error"), &chars_of(file), ln, &msg);
            let f = AnalysisFinding { in_change, ..f };
            let ghost fv = finding_view(f);
            let ghost before = findings_view(found@);
            found.push(f);
            assert(findings_view(found@) =~= before.push(fv));
            assert(directives_from(ls, i as int, file@, in_change) =~= seq![fv] + directives_from(ls, i + 1, file@, in_change));
            assert(findings_view(found@) + directives_from(ls, i + 1, file@, in_change) =~= before + directives_from(ls, i as int, file@, in_change));
        }
        i += 1;
    }
    assert(directives_from(ls, i as int, file@, in_change) =~= Seq::<FindingV>::empty());
    assert(findings_view(found@) + Seq::<FindingV>::empty() =~= findings_view(found@));
    found
}

/// Most findings one shellcheck run reports.
pub const MAX_FINDINGS: usize = 200;

/// Findings in the change first (each group in its order), at most
/// `MAX_FINDINGS` of them.
pub open spec fn change_first(fs: Seq<FindingV>) -> Seq<FindingV> {
    let ordered = fs.filter(|f: FindingV| f.in_change) + fs.filter(|f: FindingV| !f.in_change);
    if ordered.len() > MAX_FINDINGS {
        ordered.take(MAX_FINDINGS as int)
    } else {
        ordered
    }
}

/// Order a run's findings with those in the change first and cap them.
pub fn order_and_cap(findings: Vec<AnalysisFinding>) -> (r: Vec<AnalysisFinding>)
    ensures
        findings_view(r@) == change_first(findings_view(findings@)),
{
    let ghost fv = findings_view(findings@);
    let mut ins: Vec<AnalysisFinding> = Vec::new();
    let mut outs: Vec<AnalysisFinding> = Vec::new();
    let mut k: usize = 0;
    while k < findings.len()
        invariant
            k <= findings@.len(),
            fv == findings_view(findings@),
            findings_view(ins@) == fv.take(k as int).filter(|f: FindingV| f.in_change),
            findings_view(outs@) == fv.take(k as int).filter(|f: FindingV| !f.in_change),
        decreases findings.len() - k,
    {
        let ghost t1 = fv.take(k + 1);
        assert(t1.drop_last() =~= fv.take(k as int));
        assert(t1.last() == finding_view(findings@[k as int]));
        reveal(Seq::filter);
        let f = clone_finding(&findings[k]);
        if f.in_change {
            let ghost before = findings_view(ins@);
            ins.push(f);
            assert(findings_view(ins@) =~= before.push(finding_view(f)));
        } else {
            let ghost before = findings_view(outs@);
            outs.push(f);
            assert(findings_view(outs@) =~= before.push(finding_view(f)));
        }
        k += 1;
    }
    assert(fv.take(findings@.len() as int) =~= fv);
    let ghost ordered = findings_view(ins@) + findings_view(outs@);
    let mut k: usize = 0;
    while k < outs.len() && ins.len() < MAX_FINDINGS
        invariant
            k <= outs@.len(),
            findings_view(ins@) == ordered.take(findings_view(ins@).len() as int),
            findings_view(ins@).len() == fv.filter(|f: FindingV| f.in_change).len() + k,
            ordered == fv.filter(|f: FindingV| f.in_change) + findings_view(outs@),
        decreases outs.len() - k,
    {
        let f = clone_finding(&outs[k]);
        let ghost before = findings_view(ins@);
        ins.push(f);
        assert(findings_view(ins@) =~= before.push(finding_view(f)));
        assert(ordered[before.len() as int] == finding_view(outs@[k as int]));
        assert(findings_view(ins@) =~= ordered.take(findings_view(ins@).len() as int));
        k += 1;
    }
    let mut r = ins;
    if r.len() > MAX_FINDINGS {
        r.truncate(MAX_FINDINGS);
    }
    proof {
        if findings_view(r@).len() == ordered.len() {
            assert(ordered.take(ordered.len() as int) =~= ordered);
        }
    }
    r
}

/// The one shellcheck run over the changed shell files: JSON1 output, and
/// `--` before the files, each single-quoted, so a path can neither leave the
/// quoting nor be read as a flag.
pub fn shellcheck_cmd(files: &[String]) -> (r: String)
    ensures
        r@ == "shellcheck --format=json1 -- "@ + quoted_scope_spec(strings_view(files@)),
{
    let mut v = chars_of("shellcheck --format=json1 -- ");
    let q = quoted_scope(files);
    push_chars(&mut v, &chars_of(q.as_str()));
    string_of(&v)
}

} // verus!
