//! Static-analysis findings: the record every tool parser produces, and the
//! steps every finding goes through before it is reported (its path screened,
//! its message bounded, its change membership tagged, duplicates dropped).
use vstd::prelude::*;
use crate::gochecks::strings_view;
use crate::paths::eq_str;
use crate::signatures::{bound, bound_spec};
use crate::text::{chars_of, string_of};

verus! {

/// Longest finding message kept (chars; a cut one ends in `… [truncated]`).
pub const MAX_MSG: usize = 400;

/// One finding of a static-analysis or test tool.
#[derive(Clone, Debug)]
pub struct AnalysisFinding {
    pub tool: String,
    pub rule: String,
    pub severity: String,
    pub file: String,
    pub line: u32,
    pub message: String,
    pub in_change: bool,
}

/// A finding as plain values.
pub struct FindingV {
    pub tool: Seq<char>,
    pub rule: Seq<char>,
    pub severity: Seq<char>,
    pub file: Seq<char>,
    pub line: u32,
    pub message: Seq<char>,
    pub in_change: bool,
}

pub open spec fn finding_view(f: AnalysisFinding) -> FindingV {
    FindingV {
        tool: f.tool@,
        rule: f.rule@,
        severity: f.severity@,
        file: f.file@,
        line: f.line,
        message: f.message@,
        in_change: f.in_change,
    }
}

pub open spec fn findings_view(v: Seq<AnalysisFinding>) -> Seq<FindingV> {
    v.map_values(|f: AnalysisFinding| finding_view(f))
}

/// Build a finding from its parts (not in the change).
pub fn finding(tool: &str, rule: &[char], severity: &[char], file: &[char], line: u32, message: &[char]) -> (r: AnalysisFinding)
    ensures
        finding_view(r) == (FindingV {
            tool: tool@,
            rule: rule@,
            severity: severity@,
            file: file@,
            line: line,
            message: message@,
            in_change: false,
        }),
{
    AnalysisFinding {
        tool: tool.to_owned(),
        rule: string_of(rule),
        severity: string_of(severity),
        file: string_of(file),
        line,
        message: string_of(message),
        in_change: false,
    }
}

/// Append the chars of `s`.
pub fn push_str(v: &mut Vec<char>, s: &str)
    ensures
        final(v)@ == old(v)@ + s@,
{
    let c = chars_of(s);
    push_chars(v, &c);
}

/// Append `c`.
pub fn push_chars(v: &mut Vec<char>, c: &[char])
    ensures
        final(v)@ == old(v)@ + c@,
{
    let ghost v0 = v@;
    let mut i: usize = 0;
    while i < c.len()
        invariant
            i <= c@.len(),
            v@ == v0 + c@.take(i as int),
        decreases c.len() - i,
    {
        v.push(c[i]);
        i += 1;
        assert(v@ =~= v0 + c@.take(i as int));
    }
    assert(c@.take(c@.len() as int) =~= c@);
}

/// Whether `x` is one of `set`.
pub fn contains_string(set: &[String], x: &String) -> (r: bool)
    ensures
        r == strings_view(set@).contains(x@),
{
    let xc = chars_of(x.as_str());
    let mut i: usize = 0;
    while i < set.len()
        invariant
            i <= set@.len(),
            xc@ == x@,
            forall|j: int| 0 <= j < i ==> #[trigger] strings_view(set@)[j] != x@,
        decreases set.len() - i,
    {
        assert(strings_view(set@)[i as int] == set@[i as int]@);
        if eq_str(&xc, set[i].as_str()) {
            return true;
        }
        i += 1;
    }
    false
}

/// A finding ready to report: dropped when its path escapes the repo
/// (`confined` is false), otherwise tagged with whether the change touched its
/// file, its message bounded.
pub open spec fn finalize_spec(f: FindingV, confined: bool, changed: Seq<Seq<char>>) -> Option<FindingV> {
    if !confined {
        None
    } else {
        Some(FindingV {
            in_change: changed.contains(f.file),
            message: bound_spec(f.message, MAX_MSG as nat),
            ..f
        })
    }
}

/// Finalize a finding, given whether its path stays within the repo.
pub fn finalize(f: AnalysisFinding, confined: bool, changed: &[String]) -> (r: Option<AnalysisFinding>)
    ensures
        match r {
            Some(g) => finalize_spec(finding_view(f), confined, strings_view(changed@)) == Some(finding_view(g)),
            None => finalize_spec(finding_view(f), confined, strings_view(changed@)) is None,
        },
{
    if !confined {
        return None;
    }
    let in_change = contains_string(changed, &f.file);
    let m = bound(&chars_of(f.message.as_str()), MAX_MSG);
    Some(AnalysisFinding { in_change, message: string_of(&m), ..f })
}

/// A race or other finding whose path escapes the repo keeps the finding but
/// loses the location.
pub open spec fn strip_location_spec(f: FindingV, confined: bool) -> FindingV {
    if f.file.len() > 0 && !confined {
        FindingV { file: Seq::empty(), line: 0, ..f }
    } else {
        f
    }
}

pub fn strip_location(f: AnalysisFinding, confined: bool) -> (r: AnalysisFinding)
    ensures
        finding_view(r) == strip_location_spec(finding_view(f), confined),
{
    let n = chars_of(f.file.as_str()).len();
    if n > 0 && !confined {
        AnalysisFinding { file: String::new(), line: 0, ..f }
    } else {
        f
    }
}

/// The `(file, line, rule)` a finding is deduplicated by.
pub open spec fn finding_key(f: FindingV) -> (Seq<char>, u32, Seq<char>) {
    (f.file, f.line, f.rule)
}

/// The findings whose key no earlier finding had, in order.
pub open spec fn dedupe_spec(fs: Seq<FindingV>) -> Seq<FindingV>
    decreases fs.len(),
{
    if fs.len() == 0 {
        Seq::empty()
    } else {
        let rest = dedupe_spec(fs.drop_last());
        if exists|j: int| 0 <= j < fs.len() - 1 && #[trigger] finding_key(fs[j]) == finding_key(fs.last()) {
            rest
        } else {
            rest.push(fs.last())
        }
    }
}

fn same_key(a: &AnalysisFinding, b: &AnalysisFinding) -> (r: bool)
    ensures
        r == (finding_key(finding_view(*a)) == finding_key(finding_view(*b))),
{
    a.line == b.line && eq_str(&chars_of(a.file.as_str()), b.file.as_str()) && eq_str(
        &chars_of(a.rule.as_str()),
        b.rule.as_str(),
    )
}

/// Drop findings that an earlier one already reported at the same
/// `(file, line, rule)` (one per location and rule across tools).
pub fn dedupe_findings(findings: Vec<AnalysisFinding>) -> (r: Vec<AnalysisFinding>)
    ensures
        findings_view(r@) == dedupe_spec(findings_view(findings@)),
{
    let ghost fv = findings_view(findings@);
    let mut out: Vec<AnalysisFinding> = Vec::new();
    let mut i: usize = 0;
    while i < findings.len()
        invariant
            i <= findings@.len(),
            fv == findings_view(findings@),
            findings_view(out@) == dedupe_spec(fv.take(i as int)),
        decreases findings.len() - i,
    {
        let mut dup = false;
        let mut j: usize = 0;
        while j < i
            invariant
                j <= i < findings@.len(),
                fv == findings_view(findings@),
                dup <==> exists|q: int| 0 <= q < j && #[trigger] finding_key(fv[q]) == finding_key(fv[i as int]),
            decreases i - j,
        {
            assert(fv[j as int] == finding_view(findings@[j as int]));
            assert(fv[i as int] == finding_view(findings@[i as int]));
            if !dup && same_key(&findings[j], &findings[i]) {
                dup = true;
            }
            j += 1;
        }
        let ghost pre = fv.take(i + 1);
        assert(pre.drop_last() =~= fv.take(i as int));
        assert(pre.last() == fv[i as int]);
        assert((exists|q: int| 0 <= q < pre.len() - 1 && #[trigger] finding_key(pre[q]) == finding_key(pre.last())) == dup) by {
            if dup {
                let q = choose|q: int| 0 <= q < i && #[trigger] finding_key(fv[q]) == finding_key(fv[i as int]);
                assert(pre[q] == fv[q]);
            }
            if exists|q: int| 0 <= q < pre.len() - 1 && #[trigger] finding_key(pre[q]) == finding_key(pre.last()) {
                let q = choose|q: int| 0 <= q < pre.len() - 1 && #[trigger] finding_key(pre[q]) == finding_key(pre.last());
                assert(pre[q] == fv[q]);
            }
        }
        if !dup {
            let f = clone_finding(&findings[i]);
            let ghost before = findings_view(out@);
            out.push(f);
            assert(findings_view(out@) =~= before.push(finding_view(f)));
        }
        i += 1;
    }
    assert(fv.take(findings@.len() as int) =~= fv);
    out
}

/// A copy of a finding.
pub fn clone_finding(f: &AnalysisFinding) -> (r: AnalysisFinding)
    ensures
        finding_view(r) == finding_view(*f),
{
    AnalysisFinding {
        tool: f.tool.clone(),
        rule: f.rule.clone(),
        severity: f.severity.clone(),
        file: f.file.clone(),
        line: f.line,
        message: f.message.clone(),
        in_change: f.in_change,
    }
}

} // verus!
