//! The analysis digest: every analysis report's findings folded into one
//! deduplicated, risk-ranked list and a per-`(tool, rule)` tally, so a
//! high-volume lint stays visible even when its lines fall past the cap.
//! Findings are copied from the collectors, only reordered and counted.
use vstd::prelude::*;
use crate::findings::{finding_view, findings_view, AnalysisFinding, FindingV};
use crate::paths::eq_str;
use crate::risk::FileRisk;
use crate::findings::{push_chars, push_str};
use crate::signatures::{bound, bound_spec};
use crate::text::{dec_text, dec_text_exec, string_of, trim, trim_exec};
use crate::text::{chars_of, lemma_lex_irreflexive, lemma_lex_total, lemma_lex_transitive, lex_compare, lex_lt};

verus! {

/// Findings the digest keeps one by one; the rest survive in the tally.
pub const DIGEST_MAX_FINDINGS: usize = 80;
/// Findings from which a digest earns a prose summary.
pub const DIGEST_SUMMARY_MIN_FINDINGS: u32 = 40;

/// How often one `(tool, rule)` fired, and how often on changed files.
#[derive(Clone, Debug)]
pub struct RuleCount {
    pub tool: String,
    pub rule: String,
    pub count: u32,
    pub in_change: u32,
}

#[derive(Clone, Debug)]
pub struct AnalysisDigest {
    pub findings: Vec<AnalysisFinding>,
    pub total: u32,
    pub in_change: u32,
    pub rule_counts: Vec<RuleCount>,
}

/// Every report's findings, in report order.
pub open spec fn flat(rs: Seq<Seq<FindingV>>) -> Seq<FindingV>
    decreases rs.len(),
{
    if rs.len() == 0 {
        Seq::empty()
    } else {
        flat(rs.drop_last()) + rs.last()
    }
}

pub open spec fn reports_view(rs: Seq<Vec<AnalysisFinding>>) -> Seq<Seq<FindingV>> {
    rs.map_values(|r: Vec<AnalysisFinding>| findings_view(r@))
}

/// The identity of a finding across reports.
pub open spec fn key4(f: FindingV) -> (Seq<char>, Seq<char>, Seq<char>, u32) {
    (f.tool, f.rule, f.file, f.line)
}

/// The findings whose identity no earlier one had, in order.
pub open spec fn dedup4(fs: Seq<FindingV>) -> Seq<FindingV>
    decreases fs.len(),
{
    if fs.len() == 0 {
        Seq::empty()
    } else {
        let r = dedup4(fs.drop_last());
        if exists|i: int| 0 <= i < r.len() && key4(#[trigger] r[i]) == key4(fs.last()) {
            r
        } else {
            r.push(fs.last())
        }
    }
}

/// No two findings share an identity.
pub open spec fn keys_distinct(fs: Seq<FindingV>) -> bool {
    forall|i: int, j: int| 0 <= i < j < fs.len() ==> key4(#[trigger] fs[i]) != key4(#[trigger] fs[j])
}

fn flatten(reports: Vec<Vec<AnalysisFinding>>) -> (all: Vec<AnalysisFinding>)
    ensures
        findings_view(all@) == flat(reports_view(reports@)),
{
    let ghost rv = reports_view(reports@);
    let mut src = reports;
    let mut all: Vec<AnalysisFinding> = Vec::new();
    let n = src.len();
    let mut i: usize = 0;
    assert(rv.skip(0) =~= rv);
    while src.len() > 0
        invariant
            n == rv.len(),
            i + src@.len() == n,
            reports_view(src@) == rv.skip(i as int),
            findings_view(all@) == flat(rv.take(i as int)),
        decreases src.len(),
    {
        let ghost s0 = src@;
        let mut r = src.remove(0);
        assert(rv.take(i + 1).drop_last() =~= rv.take(i as int));
        assert(reports_view(s0)[0] == findings_view(r@));
        let ghost a0 = all@;
        let ghost rr = r@;
        all.append(&mut r);
        assert(findings_view(all@) =~= findings_view(a0) + findings_view(rr));
        i += 1;
        assert(src@ =~= s0.skip(1));
        assert(reports_view(src@) =~= reports_view(s0).skip(1));
        assert(rv.skip(i - 1).skip(1) =~= rv.skip(i as int));
    }
    assert(rv.take(n as int) =~= rv);
    all
}

fn same_key(a: &AnalysisFinding, b: &AnalysisFinding) -> (r: bool)
    ensures
        r == (key4(finding_view(*a)) == key4(finding_view(*b))),
{
    a.line == b.line && eq_str(&chars_of(a.tool.as_str()), b.tool.as_str()) && eq_str(&chars_of(a.rule.as_str()), b.rule.as_str())
        && eq_str(&chars_of(a.file.as_str()), b.file.as_str())
}

fn dedupe_by_key(all: Vec<AnalysisFinding>) -> (d: Vec<AnalysisFinding>)
    ensures
        findings_view(d@) == dedup4(findings_view(all@)),
        keys_distinct(findings_view(d@)),
{
    let ghost av = findings_view(all@);
    let mut src = all;
    let mut out: Vec<AnalysisFinding> = Vec::new();
    let n = src.len();
    let mut i: usize = 0;
    assert(av.skip(0) =~= av);
    while src.len() > 0
        invariant
            n == av.len(),
            i + src@.len() == n,
            findings_view(src@) == av.skip(i as int),
            findings_view(out@) == dedup4(av.take(i as int)),
            keys_distinct(findings_view(out@)),
        decreases src.len(),
    {
        let ghost s0 = src@;
        let f = src.remove(0);
        assert(findings_view(s0)[0] == finding_view(f));
        assert(av.take(i + 1).drop_last() =~= av.take(i as int));
        assert(av.take(i + 1).last() == finding_view(f));
        let ghost ov = findings_view(out@);
        let mut seen = false;
        let mut k: usize = 0;
        while k < out.len()
            invariant
                k <= out@.len(),
                ov == findings_view(out@),
                seen == exists|j: int| 0 <= j < k && key4(#[trigger] ov[j]) == key4(finding_view(f)),
            decreases out.len() - k,
        {
            assert(ov[k as int] == finding_view(out@[k as int]));
            if same_key(&out[k], &f) {
                seen = true;
            }
            k += 1;
        }
        if !seen {
            out.push(f);
            assert(findings_view(out@) =~= ov.push(finding_view(f)));
        }
        i += 1;
        assert(src@ =~= s0.skip(1));
        assert(findings_view(src@) =~= findings_view(s0).skip(1));
        assert(av.skip(i - 1).skip(1) =~= av.skip(i as int));
    }
    assert(av.take(n as int) =~= av);
    out
}

/// The risk score of `file` (0 when it did not score).
pub open spec fn risk_of(rs: Seq<FileRisk>, file: Seq<char>) -> nat
    decreases rs.len(),
{
    if rs.len() == 0 {
        0
    } else if rs[0].file@ == file {
        rs[0].score as nat
    } else {
        risk_of(rs.drop_first(), file)
    }
}

/// `error` before `warning` before anything else.
pub open spec fn sev_rank(s: Seq<char>) -> nat {
    if s == "error"@ {
        2
    } else if s == "warning"@ {
        1
    } else {
        0
    }
}

/// The stable tie-break: by file, line, tool, then rule.
pub open spec fn tail_before(a: FindingV, b: FindingV) -> bool {
    ||| lex_lt(a.file, b.file)
    ||| a.file == b.file && a.line < b.line
    ||| a.file == b.file && a.line == b.line && lex_lt(a.tool, b.tool)
    ||| a.file == b.file && a.line == b.line && a.tool == b.tool && lex_lt(a.rule, b.rule)
}

/// The digest order: changed-file findings first, then findings on riskier
/// files, then errors before warnings, then the tie-break.
pub open spec fn ranks_before(a: FindingV, ra: nat, b: FindingV, rb: nat) -> bool {
    ||| a.in_change && !b.in_change
    ||| a.in_change == b.in_change && ra > rb
    ||| a.in_change == b.in_change && ra == rb && sev_rank(a.severity) > sev_rank(b.severity)
    ||| a.in_change == b.in_change && ra == rb && sev_rank(a.severity) == sev_rank(b.severity) && tail_before(a, b)
}

pub open spec fn digest_before(rs: Seq<FileRisk>, a: FindingV, b: FindingV) -> bool {
    ranks_before(a, risk_of(rs, a.file), b, risk_of(rs, b.file))
}

/// Severity ranks errors, then warnings, then everything else: between two
/// findings equal in change membership and in the risk of their files, an
/// `error` goes before any finding that is not one, and a `warning` before any
/// finding that is neither an error nor a warning — and never the other way
/// round, whatever their files, lines, tools and rules.
pub proof fn law_severity_order(rs: Seq<FileRisk>, a: FindingV, b: FindingV)
    requires
        a.in_change == b.in_change,
        risk_of(rs, a.file) == risk_of(rs, b.file),
    ensures
        a.severity == "error"@ && b.severity != "error"@ ==> digest_before(rs, a, b) && !digest_before(rs, b, a),
        a.severity == "warning"@ && b.severity != "error"@ && b.severity != "warning"@ ==> digest_before(rs, a, b)
            && !digest_before(rs, b, a),
{
    reveal_strlit("error");
    reveal_strlit("warning");
    assert("error"@ != "warning"@) by {
        assert("error"@[0] != "warning"@[0]);
    }
}

/// Changed-file findings come first, and among those equal in that, findings
/// on riskier files: whatever their severities, files, lines, tools and rules.
pub proof fn law_change_then_risk_first(rs: Seq<FileRisk>, a: FindingV, b: FindingV)
    ensures
        a.in_change && !b.in_change ==> digest_before(rs, a, b) && !digest_before(rs, b, a),
        a.in_change == b.in_change && risk_of(rs, a.file) > risk_of(rs, b.file) ==> digest_before(rs, a, b)
            && !digest_before(rs, b, a),
{
}

/// In a digest, a finding that is neither an error nor a warning never comes
/// before a warning or an error with the same change membership and file risk.
pub proof fn law_digest_severity_order(rs: Seq<FileRisk>, fv: Seq<FindingV>, i: int, j: int)
    requires
        forall|p: int, q: int| 0 <= p < q < fv.len() ==> digest_before(rs, #[trigger] fv[p], #[trigger] fv[q]),
        0 <= i < j < fv.len(),
        fv[i].in_change == fv[j].in_change,
        risk_of(rs, fv[i].file) == risk_of(rs, fv[j].file),
        fv[j].severity == "error"@ || fv[j].severity == "warning"@,
    ensures
        fv[i].severity == "error"@ || fv[i].severity == "warning"@,
{
    assert(digest_before(rs, fv[i], fv[j]));
    if fv[i].severity != "error"@ && fv[i].severity != "warning"@ {
        law_severity_order(rs, fv[j], fv[i]);
    }
}

proof fn lemma_tail_transitive(a: FindingV, b: FindingV, c: FindingV)
    requires
        tail_before(a, b),
        tail_before(b, c),
    ensures
        tail_before(a, c),
{
    if lex_lt(a.file, b.file) && lex_lt(b.file, c.file) {
        lemma_lex_transitive(a.file, b.file, c.file);
    }
    if a.file == b.file && b.file == c.file && a.line == b.line && b.line == c.line {
        if lex_lt(a.tool, b.tool) && lex_lt(b.tool, c.tool) {
            lemma_lex_transitive(a.tool, b.tool, c.tool);
        }
        if a.tool == b.tool && b.tool == c.tool && lex_lt(a.rule, b.rule) && lex_lt(b.rule, c.rule) {
            lemma_lex_transitive(a.rule, b.rule, c.rule);
        }
    }
}

proof fn lemma_ranks_transitive(a: FindingV, ra: nat, b: FindingV, rb: nat, c: FindingV, rc: nat)
    requires
        ranks_before(a, ra, b, rb),
        ranks_before(b, rb, c, rc),
    ensures
        ranks_before(a, ra, c, rc),
{
    if tail_before(a, b) && tail_before(b, c) {
        lemma_tail_transitive(a, b, c);
    }
}

proof fn lemma_ranks_total(a: FindingV, ra: nat, b: FindingV, rb: nat)
    requires
        key4(a) != key4(b),
    ensures
        ranks_before(a, ra, b, rb) || ranks_before(b, rb, a, ra),
{
    lemma_lex_total(a.file, b.file);
    lemma_lex_total(a.tool, b.tool);
    lemma_lex_total(a.rule, b.rule);
}

/// A finding with the risk score of its file.
struct Ranked {
    f: AnalysisFinding,
    risk: u32,
}

spec fn ranked_ok(rs: Seq<FileRisk>, x: Ranked) -> bool {
    x.risk == risk_of(rs, x.f.file@)
}

spec fn ranked_views(v: Seq<Ranked>) -> Seq<FindingV> {
    v.map_values(|x: Ranked| finding_view(x.f))
}

fn risk_lookup(rs: &[FileRisk], file: &str) -> (r: u32)
    ensures
        r == risk_of(rs@, file@),
{
    let fc = chars_of(file);
    let mut i: usize = 0;
    assert(rs@.skip(0) =~= rs@);
    while i < rs.len()
        invariant
            i <= rs@.len(),
            fc@ == file@,
            risk_of(rs@, file@) == risk_of(rs@.skip(i as int), file@),
        decreases rs.len() - i,
    {
        assert(rs@.skip(i as int).drop_first() =~= rs@.skip(i + 1));
        assert(rs@.skip(i as int)[0] == rs@[i as int]);
        if eq_str(&fc, rs[i].file.as_str()) {
            return rs[i].score;
        }
        i += 1;
    }
    0
}

fn ranked_before_exec(a: &Ranked, b: &Ranked) -> (r: bool)
    ensures
        r == ranks_before(finding_view(a.f), a.risk as nat, finding_view(b.f), b.risk as nat),
{
    if a.f.in_change != b.f.in_change {
        return a.f.in_change;
    }
    if a.risk != b.risk {
        return a.risk > b.risk;
    }
    let sa = sev_exec(a.f.severity.as_str());
    let sb = sev_exec(b.f.severity.as_str());
    if sa != sb {
        return sa > sb;
    }
    let c = lex_compare(&chars_of(a.f.file.as_str()), &chars_of(b.f.file.as_str()));
    if c != 0 {
        return c < 0;
    }
    if a.f.line != b.f.line {
        return a.f.line < b.f.line;
    }
    let t = lex_compare(&chars_of(a.f.tool.as_str()), &chars_of(b.f.tool.as_str()));
    if t != 0 {
        return t < 0;
    }
    lex_compare(&chars_of(a.f.rule.as_str()), &chars_of(b.f.rule.as_str())) < 0
}

fn sev_exec(s: &str) -> (r: u8)
    ensures
        r == sev_rank(s@),
{
    let c = chars_of(s);
    if eq_str(&c, "error") {
        2
    } else if eq_str(&c, "warning") {
        1
    } else {
        0
    }
}

/// Insert `x` into a list in digest order, keeping the order.
fn insert_ranked(v: &mut Vec<Ranked>, x: Ranked)
    requires
        forall|i: int, j: int|
            0 <= i < j < old(v)@.len() ==> ranks_before(
                finding_view(#[trigger] old(v)@[i].f),
                old(v)@[i].risk as nat,
                finding_view(#[trigger] old(v)@[j].f),
                old(v)@[j].risk as nat,
            ),
        forall|i: int| 0 <= i < old(v)@.len() ==> key4(finding_view(#[trigger] old(v)@[i].f)) != key4(finding_view(x.f)),
    ensures
        forall|i: int, j: int|
            0 <= i < j < final(v)@.len() ==> ranks_before(
                finding_view(#[trigger] final(v)@[i].f),
                final(v)@[i].risk as nat,
                finding_view(#[trigger] final(v)@[j].f),
                final(v)@[j].risk as nat,
            ),
        exists|p: int| 0 <= p <= old(v)@.len() && final(v)@ == old(v)@.insert(p, x),
{
    let ghost v0 = v@;
    let mut p: usize = 0;
    while p < v.len() && ranked_before_exec(&v[p], &x)
        invariant
            p <= v@.len(),
            v@ == v0,
            forall|k: int|
                0 <= k < p ==> ranks_before(finding_view(#[trigger] v0[k].f), v0[k].risk as nat, finding_view(x.f), x.risk as nat),
        decreases v.len() - p,
    {
        p += 1;
    }
    proof {
        if p < v0.len() {
            lemma_ranks_total(finding_view(v0[p as int].f), v0[p as int].risk as nat, finding_view(x.f), x.risk as nat);
        }
    }
    v.insert(p, x);
    assert(v@ =~= v0.insert(p as int, x));
    assert forall|i: int, j: int| 0 <= i < j < v@.len() implies ranks_before(
        finding_view(#[trigger] v@[i].f),
        v@[i].risk as nat,
        finding_view(#[trigger] v@[j].f),
        v@[j].risk as nat,
    ) by {
        if j < p {
            assert(v@[i] == v0[i] && v@[j] == v0[j]);
        } else if j == p {
            assert(v@[i] == v0[i]);
        } else if i == p {
            assert(v@[j] == v0[j - 1]);
            if j - 1 > p {
                lemma_ranks_transitive(
                    finding_view(x.f), x.risk as nat,
                    finding_view(v0[p as int].f), v0[p as int].risk as nat,
                    finding_view(v0[j - 1].f), v0[j - 1].risk as nat,
                );
            }
        } else if i < p {
            assert(v@[i] == v0[i] && v@[j] == v0[j - 1]);
        } else {
            assert(v@[i] == v0[i - 1] && v@[j] == v0[j - 1]);
        }
    }
}

/// How many findings have this `(tool, rule)`.
pub open spec fn pair_count(fs: Seq<FindingV>, t: Seq<char>, r: Seq<char>) -> nat
    decreases fs.len(),
{
    if fs.len() == 0 {
        0
    } else {
        pair_count(fs.drop_last(), t, r) + if fs.last().tool == t && fs.last().rule == r { 1nat } else { 0nat }
    }
}

/// How many of them are on changed files.
pub open spec fn pair_changed(fs: Seq<FindingV>, t: Seq<char>, r: Seq<char>) -> nat
    decreases fs.len(),
{
    if fs.len() == 0 {
        0
    } else {
        pair_changed(fs.drop_last(), t, r) + if fs.last().tool == t && fs.last().rule == r && fs.last().in_change {
            1nat
        } else {
            0nat
        }
    }
}

pub open spec fn has_pair(fs: Seq<FindingV>, t: Seq<char>, r: Seq<char>) -> bool {
    exists|i: int| 0 <= i < fs.len() && (#[trigger] fs[i]).tool == t && fs[i].rule == r
}

pub open spec fn changed_count(fs: Seq<FindingV>) -> nat
    decreases fs.len(),
{
    if fs.len() == 0 {
        0
    } else {
        changed_count(fs.drop_last()) + if fs.last().in_change { 1nat } else { 0nat }
    }
}

/// The tally order: most frequent first, then by tool, then by rule.
pub open spec fn count_before(a: RuleCount, b: RuleCount) -> bool {
    ||| a.count > b.count
    ||| a.count == b.count && lex_lt(a.tool@, b.tool@)
    ||| a.count == b.count && a.tool@ == b.tool@ && lex_lt(a.rule@, b.rule@)
}

/// `e` counts its `(tool, rule)` in `fs`.
pub open spec fn tally_ok(fs: Seq<FindingV>, e: RuleCount) -> bool {
    &&& e.count == pair_count(fs, e.tool@, e.rule@)
    &&& e.in_change == pair_changed(fs, e.tool@, e.rule@)
    &&& has_pair(fs, e.tool@, e.rule@)
}

pub open spec fn pairs_distinct(es: Seq<RuleCount>) -> bool {
    forall|i: int, j: int| 0 <= i < j < es.len() ==> (#[trigger] es[i].tool@, es[i].rule@) != (#[trigger] es[j].tool@, es[j].rule@)
}

proof fn lemma_pair_count_le(fs: Seq<FindingV>, t: Seq<char>, r: Seq<char>)
    ensures
        pair_changed(fs, t, r) <= pair_count(fs, t, r) <= fs.len(),
    decreases fs.len(),
{
    if fs.len() > 0 {
        lemma_pair_count_le(fs.drop_last(), t, r);
    }
}

fn tally(fs: &Vec<AnalysisFinding>) -> (es: Vec<RuleCount>)
    requires
        fs@.len() <= u32::MAX,
    ensures
        pairs_distinct(es@),
        forall|k: int| 0 <= k < es@.len() ==> tally_ok(findings_view(fs@), #[trigger] es@[k]),
        forall|t: Seq<char>, r: Seq<char>|
            has_pair(findings_view(fs@), t, r) ==> exists|k: int| 0 <= k < es@.len() && #[trigger] es@[k].tool@ == t && es@[k].rule@ == r,
{
    let ghost fv = findings_view(fs@);
    let mut es: Vec<RuleCount> = Vec::new();
    let mut i: usize = 0;
    while i < fs.len()
        invariant
            i <= fs@.len(),
            fs@.len() <= u32::MAX,
            fv == findings_view(fs@),
            pairs_distinct(es@),
            forall|k: int| 0 <= k < es@.len() ==> tally_ok(fv.take(i as int), #[trigger] es@[k]),
            forall|t: Seq<char>, r: Seq<char>|
                has_pair(fv.take(i as int), t, r) ==> exists|k: int| 0 <= k < es@.len() && #[trigger] es@[k].tool@ == t && es@[k].rule@ == r,
        decreases fs.len() - i,
    {
        let ghost t0 = fv.take(i as int);
        let ghost t1 = fv.take(i + 1);
        assert(t1.drop_last() =~= t0);
        assert(t1.last() == finding_view(fs@[i as int]));
        let f = &fs[i];
        let ft = chars_of(f.tool.as_str());
        let fr = chars_of(f.rule.as_str());
        let mut k: usize = 0;
        let mut found: Option<usize> = None;
        while k < es.len()
            invariant
                k <= es@.len(),
                ft@ == f.tool@,
                fr@ == f.rule@,
                found is None ==> forall|q: int| 0 <= q < k ==> (#[trigger] es@[q].tool@, es@[q].rule@) != (f.tool@, f.rule@),
                found matches Some(q) ==> q < es@.len() && (es@[q as int].tool@, es@[q as int].rule@) == (f.tool@, f.rule@),
            decreases es.len() - k,
        {
            if found.is_none() && eq_str(&ft, es[k].tool.as_str()) && eq_str(&fr, es[k].rule.as_str()) {
                found = Some(k);
            }
            k += 1;
        }
        let ghost e0 = es@;
        match found {
            Some(q) => {
                proof {
                    lemma_pair_count_le(t0, e0[q as int].tool@, e0[q as int].rule@);
                }
                let old_e = es.remove(q);
                assert(old_e == e0[q as int]);
                let ne = RuleCount {
                    tool: old_e.tool,
                    rule: old_e.rule,
                    count: old_e.count + 1,
                    in_change: if f.in_change { old_e.in_change + 1 } else { old_e.in_change },
                };
                es.insert(q, ne);
                assert(es@ =~= e0.update(q as int, ne));
                assert forall|m: int| 0 <= m < es@.len() implies tally_ok(t1, #[trigger] es@[m]) by {
                    if m != q {
                        assert(es@[m] == e0[m]);
                        assert((e0[m].tool@, e0[m].rule@) != (e0[q as int].tool@, e0[q as int].rule@));
                        let w = choose|w: int| 0 <= w < t0.len() && (#[trigger] t0[w]).tool == e0[m].tool@ && t0[w].rule == e0[m].rule@;
                        assert(t1[w] == t0[w]);
                    } else {
                        let w = choose|w: int| 0 <= w < t0.len() && (#[trigger] t0[w]).tool == e0[q as int].tool@ && t0[w].rule == e0[q as int].rule@;
                        assert(t1[w] == t0[w]);
                    }
                }
                assert(pairs_distinct(es@)) by {
                    assert forall|a: int, b: int| 0 <= a < b < es@.len() implies (#[trigger] es@[a].tool@, es@[a].rule@) != (#[trigger] es@[b].tool@, es@[b].rule@) by {
                        assert((es@[a].tool@, es@[a].rule@) == (e0[a].tool@, e0[a].rule@));
                        assert((es@[b].tool@, es@[b].rule@) == (e0[b].tool@, e0[b].rule@));
                    }
                }
                assert forall|t: Seq<char>, r: Seq<char>| has_pair(t1, t, r) implies exists|m: int| 0 <= m < es@.len() && #[trigger] es@[m].tool@ == t && es@[m].rule@ == r by {
                    let w = choose|w: int| 0 <= w < t1.len() && (#[trigger] t1[w]).tool == t && t1[w].rule == r;
                    if w < t0.len() {
                        assert(t0[w] == t1[w]);
                        assert(has_pair(t0, t, r));
                        let m = choose|m: int| 0 <= m < e0.len() && #[trigger] e0[m].tool@ == t && e0[m].rule@ == r;
                        if m == q {
                            assert(es@[m] == ne);
                        } else {
                            assert(es@[m] == e0[m]);
                        }
                    } else {
                        assert(es@[q as int].tool@ == t && es@[q as int].rule@ == r);
                    }
                }
            },
            None => {
                let ne = RuleCount {
                    tool: crate::text::string_of(&ft),
                    rule: crate::text::string_of(&fr),
                    count: 1,
                    in_change: if f.in_change { 1 } else { 0 },
                };
                es.push(ne);
                assert forall|m: int| 0 <= m < es@.len() implies tally_ok(t1, #[trigger] es@[m]) by {
                    if m < e0.len() {
                        assert(es@[m] == e0[m]);
                        let w = choose|w: int| 0 <= w < t0.len() && (#[trigger] t0[w]).tool == e0[m].tool@ && t0[w].rule == e0[m].rule@;
                        assert(t1[w] == t0[w]);
                    } else {
                        assert(t1[i as int] == finding_view(fs@[i as int]));
                        if has_pair(t0, f.tool@, f.rule@) {
                            let m2 = choose|m2: int| 0 <= m2 < e0.len() && #[trigger] e0[m2].tool@ == f.tool@ && e0[m2].rule@ == f.rule@;
                            assert(false);
                        }
                        lemma_no_pair(t0, f.tool@, f.rule@);
                    }
                }
                assert forall|t: Seq<char>, r: Seq<char>| has_pair(t1, t, r) implies exists|m: int| 0 <= m < es@.len() && #[trigger] es@[m].tool@ == t && es@[m].rule@ == r by {
                    let w = choose|w: int| 0 <= w < t1.len() && (#[trigger] t1[w]).tool == t && t1[w].rule == r;
                    if w < t0.len() {
                        assert(t0[w] == t1[w]);
                        assert(has_pair(t0, t, r));
                        let m = choose|m: int| 0 <= m < e0.len() && #[trigger] e0[m].tool@ == t && e0[m].rule@ == r;
                        assert(es@[m] == e0[m]);
                    } else {
                        assert(es@[e0.len() as int].tool@ == t && es@[e0.len() as int].rule@ == r);
                    }
                }
            },
        }
        i += 1;
    }
    assert(fv.take(fs@.len() as int) =~= fv);
    es
}

proof fn lemma_no_pair(fs: Seq<FindingV>, t: Seq<char>, r: Seq<char>)
    requires
        !has_pair(fs, t, r),
    ensures
        pair_count(fs, t, r) == 0,
        pair_changed(fs, t, r) == 0,
    decreases fs.len(),
{
    if fs.len() > 0 {
        assert(!has_pair(fs.drop_last(), t, r)) by {
            if has_pair(fs.drop_last(), t, r) {
                let w = choose|w: int| 0 <= w < fs.drop_last().len() && (#[trigger] fs.drop_last()[w]).tool == t && fs.drop_last()[w].rule == r;
                assert(fs[w] == fs.drop_last()[w]);
            }
        }
        lemma_no_pair(fs.drop_last(), t, r);
        assert(!(fs[fs.len() - 1].tool == t && fs[fs.len() - 1].rule == r));
    }
}

fn count_before_exec(a: &RuleCount, b: &RuleCount) -> (r: bool)
    ensures
        r == count_before(*a, *b),
{
    if a.count != b.count {
        return a.count > b.count;
    }
    let t = lex_compare(&chars_of(a.tool.as_str()), &chars_of(b.tool.as_str()));
    if t != 0 {
        return t < 0;
    }
    lex_compare(&chars_of(a.rule.as_str()), &chars_of(b.rule.as_str())) < 0
}

proof fn lemma_count_transitive(a: RuleCount, b: RuleCount, c: RuleCount)
    requires
        count_before(a, b),
        count_before(b, c),
    ensures
        count_before(a, c),
{
    if a.count == b.count && b.count == c.count {
        if lex_lt(a.tool@, b.tool@) && lex_lt(b.tool@, c.tool@) {
            lemma_lex_transitive(a.tool@, b.tool@, c.tool@);
        }
        if a.tool@ == b.tool@ && b.tool@ == c.tool@ && lex_lt(a.rule@, b.rule@) && lex_lt(b.rule@, c.rule@) {
            lemma_lex_transitive(a.rule@, b.rule@, c.rule@);
        }
    }
}

fn insert_count(v: &mut Vec<RuleCount>, x: RuleCount)
    requires
        forall|i: int, j: int| 0 <= i < j < old(v)@.len() ==> count_before(#[trigger] old(v)@[i], #[trigger] old(v)@[j]),
        forall|i: int| 0 <= i < old(v)@.len() ==> (#[trigger] old(v)@[i].tool@, old(v)@[i].rule@) != (x.tool@, x.rule@),
    ensures
        forall|i: int, j: int| 0 <= i < j < final(v)@.len() ==> count_before(#[trigger] final(v)@[i], #[trigger] final(v)@[j]),
        exists|p: int| 0 <= p <= old(v)@.len() && final(v)@ == old(v)@.insert(p, x),
{
    let ghost v0 = v@;
    let mut p: usize = 0;
    while p < v.len() && count_before_exec(&v[p], &x)
        invariant
            p <= v@.len(),
            v@ == v0,
            forall|k: int| 0 <= k < p ==> count_before(#[trigger] v0[k], x),
        decreases v.len() - p,
    {
        p += 1;
    }
    proof {
        if p < v0.len() {
            lemma_lex_total(v0[p as int].tool@, x.tool@);
            lemma_lex_total(v0[p as int].rule@, x.rule@);
        }
    }
    v.insert(p, x);
    assert(v@ =~= v0.insert(p as int, x));
    assert forall|i: int, j: int| 0 <= i < j < v@.len() implies count_before(#[trigger] v@[i], #[trigger] v@[j]) by {
        if j < p {
            assert(v@[i] == v0[i] && v@[j] == v0[j]);
        } else if j == p {
            assert(v@[i] == v0[i]);
        } else if i == p {
            assert(v@[j] == v0[j - 1]);
            if j - 1 > p {
                lemma_count_transitive(x, v0[p as int], v0[j - 1]);
            }
        } else if i < p {
            assert(v@[i] == v0[i] && v@[j] == v0[j - 1]);
        } else {
            assert(v@[i] == v0[i - 1] && v@[j] == v0[j - 1]);
        }
    }
}

fn sort_tally(es: Vec<RuleCount>) -> (r: Vec<RuleCount>)
    requires
        pairs_distinct(es@),
    ensures
        forall|i: int, j: int| 0 <= i < j < r@.len() ==> count_before(#[trigger] r@[i], #[trigger] r@[j]),
        forall|x: RuleCount| r@.contains(x) <==> es@.contains(x),
{
    let ghost e0 = es@;
    let mut src = es;
    let mut out: Vec<RuleCount> = Vec::new();
    let n = src.len();
    let mut i: usize = 0;
    assert(e0.skip(0) =~= e0);
    while src.len() > 0
        invariant
            n == e0.len(),
            i + src@.len() == n,
            src@ == e0.skip(i as int),
            pairs_distinct(e0),
            forall|a: int, b: int| 0 <= a < b < out@.len() ==> count_before(#[trigger] out@[a], #[trigger] out@[b]),
            forall|x: RuleCount| out@.contains(x) <==> e0.take(i as int).contains(x),
        decreases src.len(),
    {
        let ghost s0 = src@;
        let x = src.remove(0);
        assert(x == e0[i as int]);
        assert forall|k: int| 0 <= k < out@.len() implies (#[trigger] out@[k].tool@, out@[k].rule@) != (x.tool@, x.rule@) by {
            assert(out@.contains(out@[k]));
            let w = choose|w: int| 0 <= w < i && #[trigger] e0.take(i as int)[w] == out@[k];
            assert(e0[w] == out@[k]);
        }
        let ghost o0 = out@;
        insert_count(&mut out, x);
        assert forall|y: RuleCount| out@.contains(y) <==> e0.take(i + 1).contains(y) by {
            let p = choose|p: int| 0 <= p <= o0.len() && out@ == o0.insert(p, x);
            assert(e0.take(i + 1) =~= e0.take(i as int).push(x));
            if out@.contains(y) {
                let w = choose|w: int| 0 <= w < out@.len() && #[trigger] out@[w] == y;
                if w < p {
                    assert(o0[w] == y);
                    assert(o0.contains(y));
                    let u = choose|u: int| 0 <= u < i && #[trigger] e0.take(i as int)[u] == y;
                    assert(e0.take(i + 1)[u] == y);
                } else if w > p {
                    assert(o0[w - 1] == y);
                    assert(o0.contains(y));
                    let u = choose|u: int| 0 <= u < i && #[trigger] e0.take(i as int)[u] == y;
                    assert(e0.take(i + 1)[u] == y);
                } else {
                    assert(e0.take(i + 1)[i as int] == y);
                }
            }
            if e0.take(i + 1).contains(y) {
                let u = choose|u: int| 0 <= u < i + 1 && #[trigger] e0.take(i + 1)[u] == y;
                if u < i {
                    assert(e0.take(i as int)[u] == y);
                    assert(o0.contains(y));
                    let w = choose|w: int| 0 <= w < o0.len() && #[trigger] o0[w] == y;
                    if w < p {
                        assert(out@[w] == y);
                    } else {
                        assert(out@[w + 1] == y);
                    }
                } else {
                    assert(out@[p] == y);
                }
            }
        }
        i += 1;
        assert(src@ =~= e0.skip(i as int));
    }
    assert(e0.take(n as int) =~= e0);
    out
}

proof fn lemma_insert_contains<A>(s: Seq<A>, p: int, x: A, y: A)
    requires
        0 <= p <= s.len(),
    ensures
        s.insert(p, x).contains(y) <==> (s.contains(y) || y == x),
{
    let t = s.insert(p, x);
    if t.contains(y) {
        let w = choose|w: int| 0 <= w < t.len() && #[trigger] t[w] == y;
        if w < p {
            assert(s[w] == y);
        } else if w > p {
            assert(s[w - 1] == y);
        }
    }
    if s.contains(y) {
        let w = choose|w: int| 0 <= w < s.len() && #[trigger] s[w] == y;
        if w < p {
            assert(t[w] == y);
        } else {
            assert(t[w + 1] == y);
        }
    }
    if y == x {
        assert(t[p] == y);
    }
}

proof fn lemma_take_push_contains<A>(s: Seq<A>, i: int, y: A)
    requires
        0 <= i < s.len(),
    ensures
        s.take(i + 1).contains(y) <==> (s.take(i).contains(y) || y == s[i]),
{
    assert(s.take(i + 1) =~= s.take(i).push(s[i]));
    let t = s.take(i).push(s[i]);
    if t.contains(y) && y != s[i] {
        let w = choose|w: int| 0 <= w < t.len() && #[trigger] t[w] == y;
        assert(s.take(i)[w] == y);
    }
    if s.take(i).contains(y) {
        let w = choose|w: int| 0 <= w < s.take(i).len() && #[trigger] s.take(i)[w] == y;
        assert(t[w] == y);
    }
    if y == s[i] {
        assert(t[i] == y);
    }
}

/// The findings, each with its file's risk, in digest order.
fn rank_all(d: Vec<AnalysisFinding>, risks: &[FileRisk]) -> (r: Vec<Ranked>)
    requires
        keys_distinct(findings_view(d@)),
    ensures
        forall|i: int, j: int|
            0 <= i < j < r@.len() ==> ranks_before(
                finding_view(#[trigger] r@[i].f),
                r@[i].risk as nat,
                finding_view(#[trigger] r@[j].f),
                r@[j].risk as nat,
            ),
        forall|k: int| 0 <= k < r@.len() ==> ranked_ok(risks@, #[trigger] r@[k]),
        forall|x: FindingV| ranked_views(r@).contains(x) <==> findings_view(d@).contains(x),
        r@.len() == d@.len(),
{
    let ghost dv = findings_view(d@);
    let mut src = d;
    let mut out: Vec<Ranked> = Vec::new();
    let n = src.len();
    let mut i: usize = 0;
    assert(dv.skip(0) =~= dv);
    while src.len() > 0
        invariant
            n == dv.len(),
            i + src@.len() == n,
            findings_view(src@) == dv.skip(i as int),
            keys_distinct(dv),
            forall|a: int, b: int|
                0 <= a < b < out@.len() ==> ranks_before(
                    finding_view(#[trigger] out@[a].f),
                    out@[a].risk as nat,
                    finding_view(#[trigger] out@[b].f),
                    out@[b].risk as nat,
                ),
            forall|k: int| 0 <= k < out@.len() ==> ranked_ok(risks@, #[trigger] out@[k]),
            forall|x: FindingV| ranked_views(out@).contains(x) <==> dv.take(i as int).contains(x),
            out@.len() == i,
        decreases src.len(),
    {
        let ghost s0 = src@;
        let f = src.remove(0);
        assert(findings_view(s0)[0] == finding_view(f));
        assert(finding_view(f) == dv[i as int]);
        let risk = risk_lookup(risks, f.file.as_str());
        let x = Ranked { f, risk };
        assert forall|k: int| 0 <= k < out@.len() implies key4(finding_view(#[trigger] out@[k].f)) != key4(finding_view(x.f)) by {
            assert(ranked_views(out@)[k] == finding_view(out@[k].f));
            assert(ranked_views(out@).contains(finding_view(out@[k].f)));
            let w = choose|w: int| 0 <= w < i && #[trigger] dv.take(i as int)[w] == finding_view(out@[k].f);
            assert(dv[w] == finding_view(out@[k].f));
        }
        let ghost o0 = out@;
        insert_ranked(&mut out, x);
        let ghost p = choose|p: int| 0 <= p <= o0.len() && out@ == o0.insert(p, x);
        assert(ranked_views(out@) =~= ranked_views(o0).insert(p, finding_view(x.f)));
        assert forall|k: int| 0 <= k < out@.len() implies ranked_ok(risks@, #[trigger] out@[k]) by {
            if k < p {
                assert(out@[k] == o0[k]);
            } else if k > p {
                assert(out@[k] == o0[k - 1]);
            }
        }
        assert forall|y: FindingV| ranked_views(out@).contains(y) <==> dv.take(i + 1).contains(y) by {
            lemma_insert_contains(ranked_views(o0), p, finding_view(x.f), y);
            lemma_take_push_contains(dv, i as int, y);
        }
        i += 1;
        assert(src@ =~= s0.skip(1));
        assert(findings_view(src@) =~= findings_view(s0).skip(1));
        assert(dv.skip(i - 1).skip(1) =~= dv.skip(i as int));
    }
    assert(dv.take(n as int) =~= dv);
    out
}

proof fn lemma_dedup4_len(fs: Seq<FindingV>)
    ensures
        dedup4(fs).len() <= fs.len(),
    decreases fs.len(),
{
    if fs.len() > 0 {
        lemma_dedup4_len(fs.drop_last());
    }
}

proof fn lemma_changed_count_le(fs: Seq<FindingV>)
    ensures
        changed_count(fs) <= fs.len(),
    decreases fs.len(),
{
    if fs.len() > 0 {
        lemma_changed_count_le(fs.drop_last());
    }
}

/// Fold every analysis report (in order) into one digest: the findings
/// deduplicated by `(tool, rule, file, line)` (the first kept), ranked
/// changed-file first, then by the risk of their file, then errors before
/// warnings, then by file, line, tool and rule, and capped at
/// [`DIGEST_MAX_FINDINGS`]; with the total, the changed-file count, and the
/// per-`(tool, rule)` tally, most frequent first.
pub fn compute(reports: Vec<Vec<AnalysisFinding>>, risks: &[FileRisk]) -> (d: AnalysisDigest)
    requires
        flat(reports_view(reports@)).len() <= u32::MAX,
    ensures
        ({
            let dd = dedup4(flat(reports_view(reports@)));
            let fv = findings_view(d.findings@);
            &&& d.total == dd.len()
            &&& d.in_change == changed_count(dd)
            &&& fv.len() == if dd.len() <= DIGEST_MAX_FINDINGS { dd.len() } else { DIGEST_MAX_FINDINGS as nat }
            &&& forall|i: int, j: int| 0 <= i < j < fv.len() ==> digest_before(risks@, #[trigger] fv[i], #[trigger] fv[j])
            &&& forall|i: int| 0 <= i < fv.len() ==> dd.contains(#[trigger] fv[i])
            &&& forall|x: FindingV, i: int|
                dd.contains(x) && !fv.contains(x) && 0 <= i < fv.len() ==> #[trigger] digest_before(risks@, fv[i], x)
            &&& forall|i: int, j: int|
                0 <= i < j < d.rule_counts@.len() ==> count_before(#[trigger] d.rule_counts@[i], #[trigger] d.rule_counts@[j])
            &&& forall|k: int| 0 <= k < d.rule_counts@.len() ==> tally_ok(dd, #[trigger] d.rule_counts@[k])
            &&& forall|t: Seq<char>, r: Seq<char>|
                has_pair(dd, t, r) ==> exists|k: int|
                    0 <= k < d.rule_counts@.len() && #[trigger] d.rule_counts@[k].tool@ == t && d.rule_counts@[k].rule@ == r
        }),
{
    let all = flatten(reports);
    let dd = dedupe_by_key(all);
    let ghost dv = findings_view(dd@);
    proof {
        lemma_dedup4_len(flat(reports_view(reports@)));
        lemma_changed_count_le(dv);
    }
    let total = dd.len() as u32;
    let mut changed: u32 = 0;
    let mut i: usize = 0;
    while i < dd.len()
        invariant
            i <= dd@.len(),
            dd@.len() <= u32::MAX,
            dv == findings_view(dd@),
            changed == changed_count(dv.take(i as int)),
            changed <= i,
        decreases dd.len() - i,
    {
        assert(dv.take(i + 1).drop_last() =~= dv.take(i as int));
        assert(dv.take(i + 1).last() == finding_view(dd@[i as int]));
        if dd[i].in_change {
            changed += 1;
        }
        i += 1;
    }
    assert(dv.take(dd@.len() as int) =~= dv);
    let tallied = tally(&dd);
    let rule_counts = sort_tally(tallied);
    let ghost tv = tallied@;
    assert forall|k: int| 0 <= k < rule_counts@.len() implies tally_ok(dv, #[trigger] rule_counts@[k]) by {
        assert(tv.contains(rule_counts@[k]));
    }
    assert forall|t: Seq<char>, r: Seq<char>| has_pair(dv, t, r) implies exists|k: int|
        0 <= k < rule_counts@.len() && #[trigger] rule_counts@[k].tool@ == t && rule_counts@[k].rule@ == r by {
        let m = choose|m: int| 0 <= m < tv.len() && #[trigger] tv[m].tool@ == t && tv[m].rule@ == r;
        assert(rule_counts@.contains(tv[m]));
    }
    let mut ranked = rank_all(dd, risks);
    let ghost rv = ranked@;
    let mut findings: Vec<AnalysisFinding> = Vec::new();
    let n = if ranked.len() <= DIGEST_MAX_FINDINGS { ranked.len() } else { DIGEST_MAX_FINDINGS };
    let mut k: usize = 0;
    assert(rv.skip(0) =~= rv);
    while k < n
        invariant
            k <= n,
            n <= rv.len(),
            ranked@ == rv.skip(k as int),
            findings_view(findings@) == ranked_views(rv).take(k as int),
        decreases n - k,
    {
        let ghost s0 = ranked@;
        let x = ranked.remove(0);
        assert(x == rv[k as int]);
        let ghost f0 = findings_view(findings@);
        findings.push(x.f);
        assert(findings_view(findings@) =~= f0.push(finding_view(x.f)));
        assert(ranked_views(rv).take(k + 1) =~= ranked_views(rv).take(k as int).push(finding_view(rv[k as int].f)));
        k += 1;
        assert(ranked@ =~= rv.skip(k as int));
    }
    let ghost fv = findings_view(findings@);
    let ghost all_v = ranked_views(rv);
    assert(fv =~= all_v.take(n as int));
    proof {
        assert forall|a: int, b: int| 0 <= a < b < fv.len() implies digest_before(risks@, #[trigger] fv[a], #[trigger] fv[b]) by {
            assert(fv[a] == finding_view(rv[a].f) && fv[b] == finding_view(rv[b].f));
            assert(ranked_ok(risks@, rv[a]) && ranked_ok(risks@, rv[b]));
        }
        assert forall|a: int| 0 <= a < fv.len() implies dv.contains(#[trigger] fv[a]) by {
            assert(all_v.contains(all_v[a]));
        }
        assert forall|x: FindingV, a: int|
            dv.contains(x) && !fv.contains(x) && 0 <= a < fv.len() implies #[trigger] digest_before(risks@, fv[a], x) by {
            assert(all_v.contains(x));
            let w = choose|w: int| 0 <= w < all_v.len() && #[trigger] all_v[w] == x;
            if w < n {
                assert(fv[w] == x);
            }
            assert(fv[a] == finding_view(rv[a].f) && x == finding_view(rv[w].f));
            assert(ranked_ok(risks@, rv[a]) && ranked_ok(risks@, rv[w]));
        }
    }
    let d = AnalysisDigest { findings, total, in_change: changed, rule_counts };
    assert forall|t: Seq<char>, r: Seq<char>| has_pair(dv, t, r) implies exists|k: int|
        0 <= k < d.rule_counts@.len() && #[trigger] d.rule_counts@[k].tool@ == t && d.rule_counts@[k].rule@ == r by {
        let m = choose|m: int| 0 <= m < tv.len() && #[trigger] tv[m].tool@ == t && tv[m].rule@ == r;
        assert(d.rule_counts@.contains(tv[m]));
        let k = choose|k: int| 0 <= k < d.rule_counts@.len() && d.rule_counts@[k] == tv[m];
        assert(d.rule_counts@[k].tool@ == t);
    }
    d
}

/// A digest earns a prose summary when it holds many findings.
pub fn should_summarize(d: &AnalysisDigest) -> (r: bool)
    ensures
        r == (d.total >= DIGEST_SUMMARY_MIN_FINDINGS),
{
    d.total >= DIGEST_SUMMARY_MIN_FINDINGS
}

/// Rule tallies shown in the summary prompt.
pub const SUMMARY_PROMPT_RULES: usize = 20;
/// Findings shown in the summary prompt.
pub const SUMMARY_PROMPT_FINDINGS: usize = 40;
/// Cap on the model's prose summary (chars).
pub const MAX_DIGEST_SUMMARY: usize = 600;

/// One tally line: `  tool/rule: N (M on changed files)`.
pub open spec fn rule_line(c: RuleCount) -> Seq<char> {
    "  "@ + c.tool@ + "/"@ + c.rule@ + ": "@ + dec_text(c.count as nat) + " ("@ + dec_text(c.in_change as nat)
        + " on changed files)\n"@
}

/// One finding line: `  [severity] tool/rule file:line (changed|pre-existing)`.
pub open spec fn finding_line(f: FindingV) -> Seq<char> {
    "  ["@ + f.severity + "] "@ + f.tool + "/"@ + f.rule + " "@ + f.file + ":"@ + dec_text(f.line as nat) + " ("@
        + (if f.in_change { "changed"@ } else { "pre-existing"@ }) + ")\n"@
}

pub open spec fn rule_lines(cs: Seq<RuleCount>) -> Seq<char>
    decreases cs.len(),
{
    if cs.len() == 0 {
        Seq::empty()
    } else {
        rule_lines(cs.drop_last()) + rule_line(cs.last())
    }
}

pub open spec fn finding_lines(fs: Seq<FindingV>) -> Seq<char>
    decreases fs.len(),
{
    if fs.len() == 0 {
        Seq::empty()
    } else {
        finding_lines(fs.drop_last()) + finding_line(fs.last())
    }
}

pub open spec fn first_n<A>(s: Seq<A>, n: int) -> Seq<A> {
    if s.len() <= n {
        s
    } else {
        s.take(n)
    }
}

/// The summary prompt: the totals, the first rule tallies and the first
/// ranked findings, each section bounded.
pub open spec fn summary_prompt_spec(d: AnalysisDigest) -> Seq<char> {
    dec_text(d.total as nat) + " static-analysis finding(s), "@ + dec_text(d.in_change as nat)
        + " on changed files.\n\nBy rule (most frequent first):\n"@ + rule_lines(
        first_n(d.rule_counts@, SUMMARY_PROMPT_RULES as int),
    ) + "\nTop findings (changed-file / high-risk first):\n"@ + finding_lines(
        first_n(findings_view(d.findings@), SUMMARY_PROMPT_FINDINGS as int),
    )
}

/// The prompt a local model summarizes: the digest's totals, its first
/// [`SUMMARY_PROMPT_RULES`] rule tallies and its first
/// [`SUMMARY_PROMPT_FINDINGS`] ranked findings, never raw diffs.
pub fn summary_prompt(d: &AnalysisDigest) -> (p: String)
    ensures
        p@ == summary_prompt_spec(*d),
{
    let mut out: Vec<char> = dec_text_exec(d.total as u64);
    push_str(&mut out, " static-analysis finding(s), ");
    push_chars(&mut out, &dec_text_exec(d.in_change as u64));
    push_str(&mut out, " on changed files.\n\nBy rule (most frequent first):\n");
    let ghost head = out@;
    let ghost rs = first_n(d.rule_counts@, SUMMARY_PROMPT_RULES as int);
    let nr = if d.rule_counts.len() <= SUMMARY_PROMPT_RULES { d.rule_counts.len() } else { SUMMARY_PROMPT_RULES };
    let mut i: usize = 0;
    while i < nr
        invariant
            i <= nr,
            nr == rs.len(),
            rs == first_n(d.rule_counts@, SUMMARY_PROMPT_RULES as int),
            forall|q: int| 0 <= q < nr ==> #[trigger] rs[q] == d.rule_counts@[q],
            out@ == head + rule_lines(rs.take(i as int)),
        decreases nr - i,
    {
        let c = &d.rule_counts[i];
        let ghost o0 = out@;
        push_str(&mut out, "  ");
        push_str(&mut out, c.tool.as_str());
        push_str(&mut out, "/");
        push_str(&mut out, c.rule.as_str());
        push_str(&mut out, ": ");
        push_chars(&mut out, &dec_text_exec(c.count as u64));
        push_str(&mut out, " (");
        push_chars(&mut out, &dec_text_exec(c.in_change as u64));
        push_str(&mut out, " on changed files)\n");
        proof {
            assert(rs.take(i + 1).drop_last() =~= rs.take(i as int));
            assert(rs.take(i + 1).last() == *c);
            assert(out@ =~= o0 + rule_line(*c));
        }
        i += 1;
    }
    assert(rs.take(nr as int) =~= rs);
    push_str(&mut out, "\nTop findings (changed-file / high-risk first):\n");
    let ghost head2 = out@;
    let ghost fs = first_n(findings_view(d.findings@), SUMMARY_PROMPT_FINDINGS as int);
    let nf = if d.findings.len() <= SUMMARY_PROMPT_FINDINGS { d.findings.len() } else { SUMMARY_PROMPT_FINDINGS };
    let mut k: usize = 0;
    while k < nf
        invariant
            k <= nf,
            nf == fs.len(),
            fs == first_n(findings_view(d.findings@), SUMMARY_PROMPT_FINDINGS as int),
            forall|q: int| 0 <= q < nf ==> #[trigger] fs[q] == finding_view(d.findings@[q]),
            out@ == head2 + finding_lines(fs.take(k as int)),
        decreases nf - k,
    {
        let f = &d.findings[k];
        let ghost o0 = out@;
        push_str(&mut out, "  [");
        push_str(&mut out, f.severity.as_str());
        push_str(&mut out, "] ");
        push_str(&mut out, f.tool.as_str());
        push_str(&mut out, "/");
        push_str(&mut out, f.rule.as_str());
        push_str(&mut out, " ");
        push_str(&mut out, f.file.as_str());
        push_str(&mut out, ":");
        push_chars(&mut out, &dec_text_exec(f.line as u64));
        push_str(&mut out, " (");
        if f.in_change {
            push_str(&mut out, "changed");
        } else {
            push_str(&mut out, "pre-existing");
        }
        push_str(&mut out, ")\n");
        proof {
            assert(fs.take(k + 1).drop_last() =~= fs.take(k as int));
            assert(fs.take(k + 1).last() == finding_view(*f));
            assert(out@ =~= o0 + finding_line(finding_view(*f)));
        }
        k += 1;
    }
    assert(fs.take(nf as int) =~= fs);
    string_of(&out)
}

/// The model's reply made safe to show: trimmed and bounded to
/// [`MAX_DIGEST_SUMMARY`] chars (a longer one is cut and ends in `… [truncated]`).
pub fn summary_from_reply(reply: &str) -> (s: String)
    ensures
        s@ == bound_spec(trim(reply@), MAX_DIGEST_SUMMARY as nat),
{
    let t = trim_exec(&chars_of(reply));
    string_of(&bound(&t, MAX_DIGEST_SUMMARY))
}

} // verus!
