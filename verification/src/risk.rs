//! Risk synthesis: the fold of the other review facts into one per-file risk
//! score and a CI gate verdict.
//!
//! One formula, made explicit: an additive sum of independent, typed reason
//! weights, capped at 1, each reason carrying its weight and a human
//! explanation so the score is auditable. Weights and scores are in hundredths
//! (35 is 0.35), so the sum is exact.
use vstd::prelude::*;
use crate::churn::FileChurn;
use crate::cochange::{CoChangeEntry, CoChangePartner};
use crate::findings::{push_chars, push_str, AnalysisFinding};
use crate::paths::eq_str;
use crate::salience::Salience;
use crate::signatures::SignatureChange;
use crate::style::Ratio;
use crate::text::{chars_of, dec_text, dec_text_exec, lemma_lex_irreflexive, lemma_lex_total, lemma_lex_transitive, lex_compare, lex_lt, sorted_insert, string_of, strictly_sorted, views_of};

verus! {

/// Load-bearing and single-owner.
pub const W_CRITICAL_SILO: u32 = 35;
/// Load-bearing (foundational-stable or hot-critical).
pub const W_LOAD_BEARING: u32 = 25;
/// Bus factor at most 1 (not counted again for a critical silo).
pub const W_SINGLE_OWNER: u32 = 15;
pub const W_CHURN_INCREASING: u32 = 10;
/// A usual co-change partner left out of the diff.
pub const W_MISSING_PARTNER: u32 = 20;
/// A linter flagged the changed file.
pub const W_STATIC_FINDING: u32 = 20;
/// The file's public signatures moved.
pub const W_API_CHANGE: u32 = 15;
/// The score's cap (1.0).
pub const SCORE_CAP: u32 = 100;

/// A file's salience class, with its centrality as displayed (two decimals).
#[derive(Clone, Debug)]
pub struct FileSalience {
    pub file: String,
    pub centrality: String,
    pub class: Salience,
}

/// The facts the risk fold reads.
#[derive(Clone, Debug)]
pub struct RiskInputs {
    pub salience: Vec<FileSalience>,
    pub churn: Vec<FileChurn>,
    pub cochange: Vec<CoChangeEntry>,
    pub findings: Vec<AnalysisFinding>,
    pub signatures: Vec<SignatureChange>,
}

#[derive(Clone, Debug)]
pub struct RiskReason {
    pub kind: String,
    /// In hundredths.
    pub weight: u32,
    pub detail: String,
}

#[derive(Clone, Debug)]
pub struct FileRisk {
    pub file: String,
    /// In hundredths, at most [`SCORE_CAP`].
    pub score: u32,
    pub level: String,
    pub reasons: Vec<RiskReason>,
}

#[derive(Clone, Debug)]
pub struct RiskReport {
    pub gate_failed: bool,
    pub max_score: u32,
    /// The CI threshold as an exact fraction (a zero denominator reads as 0).
    pub gate_threshold: Ratio,
    pub files: Vec<FileRisk>,
}

/// A reason as plain values.
pub struct ReasonV {
    pub kind: Seq<char>,
    pub weight: nat,
    pub detail: Seq<char>,
}

pub open spec fn reason(kind: Seq<char>, weight: nat, detail: Seq<char>) -> ReasonV {
    ReasonV { kind, weight, detail }
}

pub open spec fn reason_view(r: RiskReason) -> ReasonV {
    ReasonV { kind: r.kind@, weight: r.weight as nat, detail: r.detail@ }
}

pub open spec fn reasons_view(rs: Seq<RiskReason>) -> Seq<ReasonV> {
    rs.map_values(|r: RiskReason| reason_view(r))
}

/// The salience reasons of file `f`.
pub open spec fn salience_reasons(sal: Seq<FileSalience>, f: Seq<char>) -> Seq<ReasonV>
    decreases sal.len(),
{
    if sal.len() == 0 {
        Seq::empty()
    } else {
        let s = sal.last();
        let rest = salience_reasons(sal.drop_last(), f);
        if s.file@ != f {
            rest
        } else {
            match s.class {
                Salience::CriticalSilo => rest.push(
                    reason(
                        "load_bearing"@,
                        W_CRITICAL_SILO as nat,
                        "load-bearing (centrality "@ + s.centrality@ + ") and single-owner"@,
                    ),
                ),
                Salience::FoundationalStable | Salience::HotCritical => rest.push(
                    reason(
                        "load_bearing"@,
                        W_LOAD_BEARING as nat,
                        "load-bearing ("@ + s.class.label() + ", centrality "@ + s.centrality@ + ")"@,
                    ),
                ),
                _ => rest,
            }
        }
    }
}

/// `f` is a critical silo.
pub open spec fn is_silo(sal: Seq<FileSalience>, f: Seq<char>) -> bool {
    exists|i: int| 0 <= i < sal.len() && #[trigger] sal[i].file@ == f && sal[i].class == Salience::CriticalSilo
}

/// The ownership and churn reasons of file `f` (single ownership is not
/// counted again for a critical silo).
pub open spec fn churn_reasons(churn: Seq<FileChurn>, silo: bool, f: Seq<char>) -> Seq<ReasonV>
    decreases churn.len(),
{
    if churn.len() == 0 {
        Seq::empty()
    } else {
        let c = churn.last();
        let rest = churn_reasons(churn.drop_last(), silo, f);
        if c.path@ != f {
            rest
        } else {
            let a = if c.bus_factor <= 1 && !silo {
                rest.push(
                    reason(
                        "single_owner"@,
                        W_SINGLE_OWNER as nat,
                        "bus factor "@ + dec_text(c.bus_factor as nat) + " (single-owner)"@,
                    ),
                )
            } else {
                rest
            };
            if c.churn_trend@ == "increasing"@ {
                a.push(reason("churn_increasing"@, W_CHURN_INCREASING as nat, "churn accelerating"@))
            } else {
                a
            }
        }
    }
}

/// The paths of the partners the change leaves out.
pub open spec fn missing_paths(ps: Seq<CoChangePartner>) -> Seq<Seq<char>>
    decreases ps.len(),
{
    if ps.len() == 0 {
        Seq::empty()
    } else {
        let rest = missing_paths(ps.drop_last());
        if ps.last().in_diff {
            rest
        } else {
            rest.push(ps.last().path@)
        }
    }
}

/// `ss` joined with `", "`.
pub open spec fn join_comma(ss: Seq<Seq<char>>) -> Seq<char>
    decreases ss.len(),
{
    if ss.len() == 0 {
        Seq::empty()
    } else if ss.len() == 1 {
        ss[0]
    } else {
        join_comma(ss.drop_last()) + ", "@ + ss.last()
    }
}

/// The co-change reasons of file `f`.
pub open spec fn cochange_reasons(es: Seq<CoChangeEntry>, f: Seq<char>) -> Seq<ReasonV>
    decreases es.len(),
{
    if es.len() == 0 {
        Seq::empty()
    } else {
        let e = es.last();
        let rest = cochange_reasons(es.drop_last(), f);
        let miss = missing_paths(e.partners@);
        if e.path@ == f && miss.len() > 0 {
            rest.push(
                reason(
                    "missing_cochange_partner"@,
                    W_MISSING_PARTNER as nat,
                    "usually changes with "@ + join_comma(miss) + " (absent here)"@,
                ),
            )
        } else {
            rest
        }
    }
}

/// How many findings on `f` are in the change.
pub open spec fn findings_on(fs: Seq<AnalysisFinding>, f: Seq<char>) -> nat
    decreases fs.len(),
{
    if fs.len() == 0 {
        0
    } else {
        findings_on(fs.drop_last(), f) + if fs.last().in_change && fs.last().file@ == f { 1nat } else { 0nat }
    }
}

pub open spec fn static_reasons(fs: Seq<AnalysisFinding>, f: Seq<char>) -> Seq<ReasonV> {
    let n = findings_on(fs, f);
    if n > 0 {
        seq![reason("static_finding"@, W_STATIC_FINDING as nat, dec_text(n) + " static-analysis finding(s)"@)]
    } else {
        Seq::empty()
    }
}

pub open spec fn api_reasons(cs: Seq<SignatureChange>, f: Seq<char>) -> Seq<ReasonV> {
    if exists|i: int| 0 <= i < cs.len() && #[trigger] cs[i].file@ == f {
        seq![reason("api_change"@, W_API_CHANGE as nat, "public signature(s) changed"@)]
    } else {
        Seq::empty()
    }
}

/// Every reason file `f` carries, in the order the facts are folded.
pub open spec fn reasons_for(x: RiskInputs, f: Seq<char>) -> Seq<ReasonV> {
    salience_reasons(x.salience@, f) + churn_reasons(x.churn@, is_silo(x.salience@, f), f) + cochange_reasons(
        x.cochange@,
        f,
    ) + static_reasons(x.findings@, f) + api_reasons(x.signatures@, f)
}

pub open spec fn weight_sum(rs: Seq<ReasonV>) -> nat
    decreases rs.len(),
{
    if rs.len() == 0 {
        0
    } else {
        weight_sum(rs.drop_last()) + rs.last().weight
    }
}

pub open spec fn score_of(rs: Seq<ReasonV>) -> nat {
    let s = weight_sum(rs);
    if s <= SCORE_CAP { s } else { SCORE_CAP as nat }
}

pub open spec fn level_of(score: nat) -> Seq<char> {
    if score >= 70 {
        "high"@
    } else if score >= 40 {
        "medium"@
    } else {
        "low"@
    }
}

fn salience_reasons_exec(sal: &[FileSalience], f: &[char]) -> (r: Vec<RiskReason>)
    ensures
        reasons_view(r@) == salience_reasons(sal@, f@),
{
    let mut out: Vec<RiskReason> = Vec::new();
    let mut i: usize = 0;
    while i < sal.len()
        invariant
            i <= sal@.len(),
            reasons_view(out@) == salience_reasons(sal@.take(i as int), f@),
        decreases sal.len() - i,
    {
        assert(sal@.take(i + 1).drop_last() =~= sal@.take(i as int));
        let ghost o0 = reasons_view(out@);
        let s = &sal[i];
        if eq_str(f, s.file.as_str()) {
            match s.class {
                Salience::CriticalSilo => {
                    let mut d: Vec<char> = Vec::new();
                    push_str(&mut d, "load-bearing (centrality ");
                    push_str(&mut d, s.centrality.as_str());
                    push_str(&mut d, ") and single-owner");
                    out.push(RiskReason { kind: string_of(&chars_of("load_bearing")), weight: W_CRITICAL_SILO, detail: string_of(&d) });
                    assert(reasons_view(out@) =~= o0.push(reason_view(out@.last())));
                },
                Salience::FoundationalStable | Salience::HotCritical => {
                    let mut d: Vec<char> = Vec::new();
                    push_str(&mut d, "load-bearing (");
                    push_str(&mut d, s.class.as_str());
                    push_str(&mut d, ", centrality ");
                    push_str(&mut d, s.centrality.as_str());
                    push_str(&mut d, ")");
                    out.push(RiskReason { kind: string_of(&chars_of("load_bearing")), weight: W_LOAD_BEARING, detail: string_of(&d) });
                    assert(reasons_view(out@) =~= o0.push(reason_view(out@.last())));
                },
                _ => {},
            }
        }
        i += 1;
    }
    assert(sal@.take(sal@.len() as int) =~= sal@);
    out
}

fn is_silo_exec(sal: &[FileSalience], f: &[char]) -> (r: bool)
    ensures
        r == is_silo(sal@, f@),
{
    let mut i: usize = 0;
    while i < sal.len()
        invariant
            i <= sal@.len(),
            forall|j: int| 0 <= j < i ==> !(#[trigger] sal@[j].file@ == f@ && sal@[j].class == Salience::CriticalSilo),
        decreases sal.len() - i,
    {
        if eq_str(f, sal[i].file.as_str()) && sal[i].class == Salience::CriticalSilo {
            assert(sal@[i as int].file@ == f@ && sal@[i as int].class == Salience::CriticalSilo);
            return true;
        }
        i += 1;
    }
    false
}

fn churn_reasons_exec(churn: &[FileChurn], silo: bool, f: &[char]) -> (r: Vec<RiskReason>)
    ensures
        reasons_view(r@) == churn_reasons(churn@, silo, f@),
{
    let mut out: Vec<RiskReason> = Vec::new();
    let mut i: usize = 0;
    while i < churn.len()
        invariant
            i <= churn@.len(),
            reasons_view(out@) == churn_reasons(churn@.take(i as int), silo, f@),
        decreases churn.len() - i,
    {
        assert(churn@.take(i + 1).drop_last() =~= churn@.take(i as int));
        let c = &churn[i];
        if eq_str(f, c.path.as_str()) {
            if c.bus_factor <= 1 && !silo {
                let ghost o0 = reasons_view(out@);
                let mut d: Vec<char> = Vec::new();
                push_str(&mut d, "bus factor ");
                let n = dec_text_exec(c.bus_factor as u64);
                push_chars(&mut d, &n);
                push_str(&mut d, " (single-owner)");
                out.push(RiskReason { kind: string_of(&chars_of("single_owner")), weight: W_SINGLE_OWNER, detail: string_of(&d) });
                assert(reasons_view(out@) =~= o0.push(reason_view(out@.last())));
            }
            if eq_str(&chars_of(c.churn_trend.as_str()), "increasing") {
                let ghost o0 = reasons_view(out@);
                out.push(RiskReason {
                    kind: string_of(&chars_of("churn_increasing")),
                    weight: W_CHURN_INCREASING,
                    detail: string_of(&chars_of("churn accelerating")),
                });
                assert(reasons_view(out@) =~= o0.push(reason_view(out@.last())));
            }
        }
        i += 1;
    }
    assert(churn@.take(churn@.len() as int) =~= churn@);
    out
}

/// The missing partners' paths joined with `", "`, and how many there are.
fn missing_joined(ps: &[CoChangePartner]) -> (r: (Vec<char>, usize))
    ensures
        r.0@ == join_comma(missing_paths(ps@)),
        r.1 == missing_paths(ps@).len(),
{
    let mut out: Vec<char> = Vec::new();
    let mut n: usize = 0;
    let mut i: usize = 0;
    while i < ps.len()
        invariant
            i <= ps@.len(),
            n <= i,
            out@ == join_comma(missing_paths(ps@.take(i as int))),
            n == missing_paths(ps@.take(i as int)).len(),
        decreases ps.len() - i,
    {
        assert(ps@.take(i + 1).drop_last() =~= ps@.take(i as int));
        let ghost m0 = missing_paths(ps@.take(i as int));
        if !ps[i].in_diff {
            assert(missing_paths(ps@.take(i + 1)) == m0.push(ps@[i as int].path@));
            assert(m0.push(ps@[i as int].path@).drop_last() =~= m0);
            if n > 0 {
                push_str(&mut out, ", ");
            }
            push_str(&mut out, ps[i].path.as_str());
            n += 1;
            if n == 1 {
                assert(out@ =~= join_comma(m0.push(ps@[i as int].path@)));
            }
        }
        i += 1;
    }
    assert(ps@.take(ps@.len() as int) =~= ps@);
    (out, n)
}

fn cochange_reasons_exec(es: &[CoChangeEntry], f: &[char]) -> (r: Vec<RiskReason>)
    ensures
        reasons_view(r@) == cochange_reasons(es@, f@),
{
    let mut out: Vec<RiskReason> = Vec::new();
    let mut i: usize = 0;
    while i < es.len()
        invariant
            i <= es@.len(),
            reasons_view(out@) == cochange_reasons(es@.take(i as int), f@),
        decreases es.len() - i,
    {
        assert(es@.take(i + 1).drop_last() =~= es@.take(i as int));
        let e = &es[i];
        if eq_str(f, e.path.as_str()) {
            let (joined, n) = missing_joined(e.partners.as_slice());
            if n > 0 {
                let ghost o0 = reasons_view(out@);
                let mut d: Vec<char> = Vec::new();
                push_str(&mut d, "usually changes with ");
                push_chars(&mut d, &joined);
                push_str(&mut d, " (absent here)");
                out.push(RiskReason {
                    kind: string_of(&chars_of("missing_cochange_partner")),
                    weight: W_MISSING_PARTNER,
                    detail: string_of(&d),
                });
                assert(reasons_view(out@) =~= o0.push(reason_view(out@.last())));
            }
        }
        i += 1;
    }
    assert(es@.take(es@.len() as int) =~= es@);
    out
}

fn static_reasons_exec(fs: &[AnalysisFinding], f: &[char]) -> (r: Vec<RiskReason>)
    requires
        fs@.len() <= u32::MAX,
    ensures
        reasons_view(r@) == static_reasons(fs@, f@),
{
    let mut n: u32 = 0;
    let mut i: usize = 0;
    while i < fs.len()
        invariant
            i <= fs@.len(),
            fs@.len() <= u32::MAX,
            n == findings_on(fs@.take(i as int), f@),
            n <= i,
        decreases fs.len() - i,
    {
        assert(fs@.take(i + 1).drop_last() =~= fs@.take(i as int));
        if fs[i].in_change && eq_str(f, fs[i].file.as_str()) {
            n += 1;
        }
        i += 1;
    }
    assert(fs@.take(fs@.len() as int) =~= fs@);
    let mut out: Vec<RiskReason> = Vec::new();
    if n > 0 {
        let mut d = dec_text_exec(n as u64);
        push_str(&mut d, " static-analysis finding(s)");
        out.push(RiskReason { kind: string_of(&chars_of("static_finding")), weight: W_STATIC_FINDING, detail: string_of(&d) });
        assert(reasons_view(out@) =~= static_reasons(fs@, f@));
    } else {
        assert(reasons_view(out@) =~= static_reasons(fs@, f@));
    }
    out
}

fn api_reasons_exec(cs: &[SignatureChange], f: &[char]) -> (r: Vec<RiskReason>)
    ensures
        reasons_view(r@) == api_reasons(cs@, f@),
{
    let mut out: Vec<RiskReason> = Vec::new();
    let mut i: usize = 0;
    while i < cs.len()
        invariant
            i <= cs@.len(),
            out@.len() == 0,
            forall|j: int| 0 <= j < i ==> #[trigger] cs@[j].file@ != f@,
        decreases cs.len() - i,
    {
        if eq_str(f, cs[i].file.as_str()) {
            out.push(RiskReason {
                kind: string_of(&chars_of("api_change")),
                weight: W_API_CHANGE,
                detail: string_of(&chars_of("public signature(s) changed")),
            });
            assert(cs@[i as int].file@ == f@);
            assert(exists|j: int| 0 <= j < cs@.len() && #[trigger] cs@[j].file@ == f@);
            assert(reasons_view(out@)[0] == reason("api_change"@, W_API_CHANGE as nat, "public signature(s) changed"@));
            assert(reasons_view(out@) =~= api_reasons(cs@, f@));
            return out;
        }
        i += 1;
    }
    assert(!exists|j: int| 0 <= j < cs@.len() && #[trigger] cs@[j].file@ == f@);
    assert(reasons_view(out@) =~= api_reasons(cs@, f@));
    out
}

/// `r` is file `r.file`'s risk: all its reasons, their capped sum, its level.
pub open spec fn file_risk_ok(r: FileRisk, x: RiskInputs) -> bool {
    let rs = reasons_for(x, r.file@);
    &&& reasons_view(r.reasons@) == rs
    &&& r.score == score_of(rs)
    &&& r.level@ == level_of(r.score as nat)
}

/// Riskier first; equal scores by path.
pub open spec fn risk_before(a: FileRisk, b: FileRisk) -> bool {
    a.score > b.score || (a.score == b.score && lex_lt(a.file@, b.file@))
}

proof fn lemma_views_append(a: Seq<RiskReason>, b: Seq<RiskReason>)
    ensures
        reasons_view(a + b) == reasons_view(a) + reasons_view(b),
{
    assert(reasons_view(a + b) =~= reasons_view(a) + reasons_view(b));
}

fn append_reasons(rs: &mut Vec<RiskReason>, more: Vec<RiskReason>)
    ensures
        reasons_view(final(rs)@) == reasons_view(old(rs)@) + reasons_view(more@),
{
    let mut m = more;
    let ghost a = rs@;
    let ghost b = m@;
    rs.append(&mut m);
    proof {
        lemma_views_append(a, b);
    }
}

/// The capped weight sum of `rs`.
fn score_exec(rs: &Vec<RiskReason>) -> (s: u32)
    ensures
        s == score_of(reasons_view(rs@)),
{
    let ghost rv = reasons_view(rs@);
    let mut s: u32 = 0;
    let mut i: usize = 0;
    while i < rs.len()
        invariant
            i <= rs@.len(),
            rv == reasons_view(rs@),
            s == score_of(rv.take(i as int)),
        decreases rs.len() - i,
    {
        assert(rv.take(i + 1).drop_last() =~= rv.take(i as int));
        assert(rv.take(i + 1).last() == reason_view(rs@[i as int]));
        let w = rs[i].weight;
        if w >= SCORE_CAP || s >= SCORE_CAP - w {
            s = SCORE_CAP;
        } else {
            s = s + w;
        }
        i += 1;
    }
    assert(rv.take(rs@.len() as int) =~= rv);
    s
}

fn level_exec(score: u32) -> (l: String)
    ensures
        l@ == level_of(score as nat),
{
    if score >= 70 {
        string_of(&chars_of("high"))
    } else if score >= 40 {
        string_of(&chars_of("medium"))
    } else {
        string_of(&chars_of("low"))
    }
}

/// File `f`'s risk, when it carries any reason.
fn file_risk(x: &RiskInputs, f: &[char]) -> (r: Option<FileRisk>)
    requires
        x.findings@.len() <= u32::MAX,
    ensures
        match r {
            Some(fr) => fr.file@ == f@ && file_risk_ok(fr, *x) && reasons_for(*x, f@).len() > 0,
            None => reasons_for(*x, f@).len() == 0,
        },
{
    let mut rs = salience_reasons_exec(x.salience.as_slice(), f);
    let silo = is_silo_exec(x.salience.as_slice(), f);
    append_reasons(&mut rs, churn_reasons_exec(x.churn.as_slice(), silo, f));
    append_reasons(&mut rs, cochange_reasons_exec(x.cochange.as_slice(), f));
    append_reasons(&mut rs, static_reasons_exec(x.findings.as_slice(), f));
    append_reasons(&mut rs, api_reasons_exec(x.signatures.as_slice(), f));
    assert(reasons_view(rs@) == reasons_for(*x, f@));
    if rs.len() == 0 {
        return None;
    }
    let score = score_exec(&rs);
    let level = level_exec(score);
    Some(FileRisk { file: string_of(f), score, level, reasons: rs })
}

proof fn lemma_salience_source(sal: Seq<FileSalience>, f: Seq<char>)
    requires
        salience_reasons(sal, f).len() > 0,
    ensures
        exists|i: int| 0 <= i < sal.len() && #[trigger] sal[i].file@ == f,
    decreases sal.len(),
{
    if sal.last().file@ != f || salience_reasons(sal.drop_last(), f).len() > 0 {
        if sal.last().file@ == f {
            assert(sal[sal.len() - 1].file@ == f);
        } else {
            lemma_salience_source(sal.drop_last(), f);
            let i = choose|i: int| 0 <= i < sal.drop_last().len() && #[trigger] sal.drop_last()[i].file@ == f;
            assert(sal[i] == sal.drop_last()[i]);
        }
    } else {
        assert(sal[sal.len() - 1].file@ == f);
    }
}

proof fn lemma_churn_source(churn: Seq<FileChurn>, silo: bool, f: Seq<char>)
    requires
        churn_reasons(churn, silo, f).len() > 0,
    ensures
        exists|i: int| 0 <= i < churn.len() && #[trigger] churn[i].path@ == f,
    decreases churn.len(),
{
    if churn.last().path@ == f {
        assert(churn[churn.len() - 1].path@ == f);
    } else {
        lemma_churn_source(churn.drop_last(), silo, f);
        let i = choose|i: int| 0 <= i < churn.drop_last().len() && #[trigger] churn.drop_last()[i].path@ == f;
        assert(churn[i] == churn.drop_last()[i]);
    }
}

proof fn lemma_cochange_source(es: Seq<CoChangeEntry>, f: Seq<char>)
    requires
        cochange_reasons(es, f).len() > 0,
    ensures
        exists|i: int| 0 <= i < es.len() && #[trigger] es[i].path@ == f,
    decreases es.len(),
{
    if es.last().path@ == f {
        assert(es[es.len() - 1].path@ == f);
    } else {
        lemma_cochange_source(es.drop_last(), f);
        let i = choose|i: int| 0 <= i < es.drop_last().len() && #[trigger] es.drop_last()[i].path@ == f;
        assert(es[i] == es.drop_last()[i]);
    }
}

proof fn lemma_findings_source(fs: Seq<AnalysisFinding>, f: Seq<char>)
    requires
        findings_on(fs, f) > 0,
    ensures
        exists|i: int| 0 <= i < fs.len() && #[trigger] fs[i].file@ == f,
    decreases fs.len(),
{
    if fs.last().in_change && fs.last().file@ == f {
        assert(fs[fs.len() - 1].file@ == f);
    } else {
        lemma_findings_source(fs.drop_last(), f);
        let i = choose|i: int| 0 <= i < fs.drop_last().len() && #[trigger] fs.drop_last()[i].file@ == f;
        assert(fs[i] == fs.drop_last()[i]);
    }
}

/// Insert every string of `src` (as chars) into the strictly sorted `acc`.
fn add_all(acc: &mut Vec<Vec<char>>, strs: &[String])
    requires
        strictly_sorted(views_of(old(acc)@)),
    ensures
        strictly_sorted(views_of(final(acc)@)),
        views_of(final(acc)@).to_set() == views_of(old(acc)@).to_set().union(
            crate::gochecks::strings_view(strs@).to_set(),
        ),
{
    let ghost s0 = views_of(acc@).to_set();
    let ghost src = crate::gochecks::strings_view(strs@);
    let mut i: usize = 0;
    while i < strs.len()
        invariant
            i <= strs@.len(),
            src == crate::gochecks::strings_view(strs@),
            strictly_sorted(views_of(acc@)),
            views_of(acc@).to_set() == s0.union(src.take(i as int).to_set()),
        decreases strs.len() - i,
    {
        sorted_insert(acc, chars_of(strs[i].as_str()));
        proof {
            assert(src.take(i + 1) =~= src.take(i as int).push(src[i as int]));
            src.take(i as int).lemma_push_to_set_commute(src[i as int]);
            assert(views_of(acc@).to_set() =~= s0.union(src.take(i + 1).to_set()));
        }
        i += 1;
    }
    assert(src.take(strs@.len() as int) =~= src);
}

/// Every file named by some fact, each once, in path order: a superset of
/// the files that carry a reason.
fn candidate_files(x: &RiskInputs) -> (cs: Vec<Vec<char>>)
    ensures
        strictly_sorted(views_of(cs@)),
        forall|f: Seq<char>| reasons_for(*x, f).len() > 0 ==> #[trigger] views_of(cs@).to_set().contains(f),
{
    let mut cs: Vec<Vec<char>> = Vec::new();
    assert(views_of(cs@).to_set() =~= Set::empty());
    let mut names: Vec<String> = Vec::new();
    let mut i: usize = 0;
    while i < x.salience.len()
        invariant
            i <= x.salience@.len(),
            names@.len() == i,
            forall|j: int| 0 <= j < i ==> #[trigger] names@[j]@ == x.salience@[j].file@,
        decreases x.salience.len() - i,
    {
        names.push(string_of(&chars_of(x.salience[i].file.as_str())));
        i += 1;
    }
    let mut j: usize = 0;
    while j < x.churn.len()
        invariant
            j <= x.churn@.len(),
            names@.len() == x.salience@.len() + j,
            forall|k: int| 0 <= k < x.salience@.len() ==> #[trigger] names@[k]@ == x.salience@[k].file@,
            forall|k: int| 0 <= k < j ==> #[trigger] names@[x.salience@.len() + k]@ == x.churn@[k].path@,
        decreases x.churn.len() - j,
    {
        names.push(string_of(&chars_of(x.churn[j].path.as_str())));
        j += 1;
    }
    let base2 = names.len();
    let mut k: usize = 0;
    while k < x.cochange.len()
        invariant
            k <= x.cochange@.len(),
            base2 == x.salience@.len() + x.churn@.len(),
            names@.len() == base2 + k,
            forall|m: int| 0 <= m < x.salience@.len() ==> #[trigger] names@[m]@ == x.salience@[m].file@,
            forall|m: int| 0 <= m < x.churn@.len() ==> #[trigger] names@[x.salience@.len() + m]@ == x.churn@[m].path@,
            forall|m: int| 0 <= m < k ==> #[trigger] names@[base2 + m]@ == x.cochange@[m].path@,
        decreases x.cochange.len() - k,
    {
        names.push(string_of(&chars_of(x.cochange[k].path.as_str())));
        k += 1;
    }
    let base3 = names.len();
    let mut m: usize = 0;
    while m < x.findings.len()
        invariant
            m <= x.findings@.len(),
            base2 == x.salience@.len() + x.churn@.len(),
            base3 == base2 + x.cochange@.len(),
            names@.len() == base3 + m,
            forall|q: int| 0 <= q < x.salience@.len() ==> #[trigger] names@[q]@ == x.salience@[q].file@,
            forall|q: int| 0 <= q < x.churn@.len() ==> #[trigger] names@[x.salience@.len() + q]@ == x.churn@[q].path@,
            forall|q: int| 0 <= q < x.cochange@.len() ==> #[trigger] names@[base2 + q]@ == x.cochange@[q].path@,
            forall|q: int| 0 <= q < m ==> #[trigger] names@[base3 + q]@ == x.findings@[q].file@,
        decreases x.findings.len() - m,
    {
        names.push(string_of(&chars_of(x.findings[m].file.as_str())));
        m += 1;
    }
    let base4 = names.len();
    let mut n: usize = 0;
    while n < x.signatures.len()
        invariant
            n <= x.signatures@.len(),
            base2 == x.salience@.len() + x.churn@.len(),
            base3 == base2 + x.cochange@.len(),
            base4 == base3 + x.findings@.len(),
            names@.len() == base4 + n,
            forall|q: int| 0 <= q < x.salience@.len() ==> #[trigger] names@[q]@ == x.salience@[q].file@,
            forall|q: int| 0 <= q < x.churn@.len() ==> #[trigger] names@[x.salience@.len() + q]@ == x.churn@[q].path@,
            forall|q: int| 0 <= q < x.cochange@.len() ==> #[trigger] names@[base2 + q]@ == x.cochange@[q].path@,
            forall|q: int| 0 <= q < x.findings@.len() ==> #[trigger] names@[base3 + q]@ == x.findings@[q].file@,
            forall|q: int| 0 <= q < n ==> #[trigger] names@[base4 + q]@ == x.signatures@[q].file@,
        decreases x.signatures.len() - n,
    {
        names.push(string_of(&chars_of(x.signatures[n].file.as_str())));
        n += 1;
    }
    let ghost nv = crate::gochecks::strings_view(names@);
    add_all(&mut cs, names.as_slice());
    assert(views_of(cs@).to_set() =~= nv.to_set());
    assert forall|f: Seq<char>| reasons_for(*x, f).len() > 0 implies #[trigger] views_of(cs@).to_set().contains(f) by {
        let silo = is_silo(x.salience@, f);
        if salience_reasons(x.salience@, f).len() > 0 {
            lemma_salience_source(x.salience@, f);
            let q = choose|q: int| 0 <= q < x.salience@.len() && #[trigger] x.salience@[q].file@ == f;
            assert(nv[q] == f);
        } else if churn_reasons(x.churn@, silo, f).len() > 0 {
            lemma_churn_source(x.churn@, silo, f);
            let q = choose|q: int| 0 <= q < x.churn@.len() && #[trigger] x.churn@[q].path@ == f;
            assert(nv[x.salience@.len() + q] == f);
        } else if cochange_reasons(x.cochange@, f).len() > 0 {
            lemma_cochange_source(x.cochange@, f);
            let q = choose|q: int| 0 <= q < x.cochange@.len() && #[trigger] x.cochange@[q].path@ == f;
            assert(nv[base2 + q] == f);
        } else if static_reasons(x.findings@, f).len() > 0 {
            lemma_findings_source(x.findings@, f);
            let q = choose|q: int| 0 <= q < x.findings@.len() && #[trigger] x.findings@[q].file@ == f;
            assert(nv[base3 + q] == f);
        } else {
            assert(api_reasons(x.signatures@, f).len() > 0);
            let q = choose|q: int| 0 <= q < x.signatures@.len() && #[trigger] x.signatures@[q].file@ == f;
            assert(nv[base4 + q] == f);
        }
    }
    cs
}

proof fn lemma_risk_transitive(a: FileRisk, b: FileRisk, c: FileRisk)
    requires
        risk_before(a, b),
        risk_before(b, c),
    ensures
        risk_before(a, c),
{
    if a.score == b.score && b.score == c.score {
        lemma_lex_transitive(a.file@, b.file@, c.file@);
    }
}

fn risk_before_exec(a: &FileRisk, b: &FileRisk) -> (r: bool)
    ensures
        r == risk_before(*a, *b),
{
    if a.score != b.score {
        a.score > b.score
    } else {
        lex_compare(&chars_of(a.file.as_str()), &chars_of(b.file.as_str())) < 0
    }
}

/// Insert `x` into a list in risk order, keeping the order.
fn insert_by_risk(v: &mut Vec<FileRisk>, x: FileRisk)
    requires
        forall|i: int, j: int| 0 <= i < j < old(v)@.len() ==> risk_before(#[trigger] old(v)@[i], #[trigger] old(v)@[j]),
        forall|i: int| 0 <= i < old(v)@.len() ==> #[trigger] old(v)@[i].file@ != x.file@,
    ensures
        forall|i: int, j: int| 0 <= i < j < final(v)@.len() ==> risk_before(#[trigger] final(v)@[i], #[trigger] final(v)@[j]),
        forall|y: FileRisk| #[trigger] final(v)@.contains(y) <==> (old(v)@.contains(y) || y == x),
{
    let ghost v0 = v@;
    let mut p: usize = 0;
    while p < v.len() && risk_before_exec(&v[p], &x)
        invariant
            p <= v@.len(),
            v@ == v0,
            forall|k: int| 0 <= k < p ==> risk_before(#[trigger] v0[k], x),
        decreases v.len() - p,
    {
        p += 1;
    }
    proof {
        if p < v0.len() {
            assert(!risk_before(v0[p as int], x));
            assert(v0[p as int].file@ != x.file@);
            lemma_lex_total(v0[p as int].file@, x.file@);
            assert(risk_before(x, v0[p as int]));
        }
    }
    v.insert(p, x);
    assert(v@ =~= v0.insert(p as int, x));
    assert forall|i: int, j: int| 0 <= i < j < v@.len() implies risk_before(#[trigger] v@[i], #[trigger] v@[j]) by {
        if j < p {
            assert(v@[i] == v0[i] && v@[j] == v0[j]);
        } else if j == p {
            assert(v@[i] == v0[i]);
        } else if i == p {
            assert(v@[j] == v0[j - 1]);
            if j - 1 > p {
                lemma_risk_transitive(x, v0[p as int], v0[j - 1]);
            }
        } else if i < p {
            assert(v@[i] == v0[i] && v@[j] == v0[j - 1]);
        } else {
            assert(v@[i] == v0[i - 1] && v@[j] == v0[j - 1]);
        }
    }
    assert forall|y: FileRisk| #[trigger] v@.contains(y) <==> (v0.contains(y) || y == x) by {
        if v@.contains(y) {
            let k = choose|k: int| 0 <= k < v@.len() && v@[k] == y;
            if k < p {
                assert(v0[k] == y);
            } else if k > p {
                assert(v0[k - 1] == y);
            }
        }
        if v0.contains(y) {
            let k = choose|k: int| 0 <= k < v0.len() && v0[k] == y;
            if k < p {
                assert(v@[k] == y);
            } else {
                assert(v@[k + 1] == y);
            }
        }
        if y == x {
            assert(v@[p as int] == y);
        }
    }
}

/// Whether the CI check fails: a threshold above 0 is given and the riskiest
/// score (hundredths) reaches it, `max_score / 100 >= num / den`.
pub open spec fn gate_fails(max_score: u32, t: Ratio) -> bool {
    t.den > 0 && t.num > 0 && max_score * t.den >= 100 * t.num
}

fn gate_check(max_score: u32, t: Ratio) -> (r: bool)
    ensures
        r == gate_fails(max_score, t),
{
    if t.den == 0 || t.num == 0 {
        return false;
    }
    let a = max_score as u128;
    let b = t.den as u128;
    assert(a * b <= 0xffff_ffff * 0xffff_ffff_ffff_ffff) by (nonlinear_arith)
        requires
            a <= 0xffff_ffff,
            b <= 0xffff_ffff_ffff_ffff,
    ;
    a * b >= 100 * (t.num as u128)
}

/// Fold the facts into per-file risk, riskiest first. The CI gate fails when
/// a threshold is given (above 0) and the riskiest file reaches it. Only files
/// with at least one reason are reported.
#[verifier::rlimit(60)]
pub fn compute(x: &RiskInputs, gate_threshold: Ratio) -> (r: RiskReport)
    requires
        x.findings@.len() <= u32::MAX,
    ensures
        forall|i: int, j: int| 0 <= i < j < r.files@.len() ==> risk_before(#[trigger] r.files@[i], #[trigger] r.files@[j]),
        forall|i: int| 0 <= i < r.files@.len() ==> file_risk_ok(#[trigger] r.files@[i], *x),
        forall|f: Seq<char>| #![trigger reasons_for(*x, f)]
            reasons_for(*x, f).len() > 0 ==> exists|i: int| 0 <= i < r.files@.len() && #[trigger] r.files@[i].file@ == f,
        forall|i: int| 0 <= i < r.files@.len() ==> reasons_for(*x, #[trigger] r.files@[i].file@).len() > 0,
        r.max_score == (if r.files@.len() == 0 { 0 } else { r.files@[0].score }),
        forall|i: int| 0 <= i < r.files@.len() ==> #[trigger] r.files@[i].score <= r.max_score,
        r.gate_threshold == gate_threshold,
        r.gate_failed == gate_fails(r.max_score, gate_threshold),
{
    let cs = candidate_files(x);
    let ghost cv = views_of(cs@);
    let mut files: Vec<FileRisk> = Vec::new();
    let mut k: usize = 0;
    while k < cs.len()
        invariant
            k <= cs@.len(),
            x.findings@.len() <= u32::MAX,
            cv == views_of(cs@),
            strictly_sorted(cv),
            forall|i: int, j: int| 0 <= i < j < files@.len() ==> risk_before(#[trigger] files@[i], #[trigger] files@[j]),
            forall|i: int| 0 <= i < files@.len() ==> file_risk_ok(#[trigger] files@[i], *x),
            forall|i: int| 0 <= i < files@.len() ==> exists|a: int| 0 <= a < k && #[trigger] cv[a] == #[trigger] files@[i].file@,
            forall|i: int| 0 <= i < files@.len() ==> reasons_for(*x, #[trigger] files@[i].file@).len() > 0,
            forall|a: int|
                0 <= a < k && reasons_for(*x, #[trigger] cv[a]).len() > 0 ==> exists|i: int| 0 <= i < files@.len() && #[trigger] files@[i].file@ == cv[a],
        decreases cs.len() - k,
    {
        assert(cv[k as int] == cs@[k as int]@);
        let ghost f0 = files@;
        match file_risk(x, &cs[k]) {
            Some(fr) => {
                assert forall|i: int| 0 <= i < f0.len() implies #[trigger] f0[i].file@ != fr.file@ by {
                    let a = choose|a: int| 0 <= a < k && #[trigger] cv[a] == #[trigger] f0[i].file@;
                    assert(lex_lt(cv[a], cv[k as int]));
                    lemma_lex_irreflexive(cv[a]);
                }
                let ghost frv = fr;
                insert_by_risk(&mut files, fr);
                assert forall|i: int| 0 <= i < files@.len() implies file_risk_ok(#[trigger] files@[i], *x)
                    && reasons_for(*x, files@[i].file@).len() > 0
                    && exists|a: int| 0 <= a < k + 1 && #[trigger] cv[a] == files@[i].file@ by {
                    assert(files@.contains(files@[i]));
                    if f0.contains(files@[i]) {
                        let w = choose|w: int| 0 <= w < f0.len() && f0[w] == files@[i];
                        assert(file_risk_ok(f0[w], *x));
                        let a = choose|a: int| 0 <= a < k && #[trigger] cv[a] == #[trigger] f0[w].file@;
                    } else {
                        assert(files@[i] == frv);
                        assert(cv[k as int] == files@[i].file@);
                    }
                }
                assert forall|a: int|
                    0 <= a < k + 1 && reasons_for(*x, #[trigger] cv[a]).len() > 0 implies exists|i: int|
                        0 <= i < files@.len() && #[trigger] files@[i].file@ == cv[a] by {
                    if a < k {
                        let i = choose|i: int| 0 <= i < f0.len() && #[trigger] f0[i].file@ == cv[a];
                        assert(files@.contains(f0[i]));
                        let w = choose|w: int| 0 <= w < files@.len() && files@[w] == f0[i];
                        assert(files@[w].file@ == cv[a]);
                    } else {
                        assert(files@.contains(frv));
                        let w = choose|w: int| 0 <= w < files@.len() && files@[w] == frv;
                        assert(files@[w].file@ == cv[a]);
                    }
                }
            },
            None => {},
        }
        k += 1;
    }

    let max_score = if files.len() == 0 { 0 } else { files[0].score };
    assert forall|i: int| 0 <= i < files@.len() implies #[trigger] files@[i].score <= max_score by {
        if i > 0 {
            assert(risk_before(files@[0], files@[i]));
        }
    }
    let failed = gate_check(max_score, gate_threshold);
    let r = RiskReport { gate_failed: failed, max_score, gate_threshold, files };
    assert forall|f: Seq<char>| #![trigger reasons_for(*x, f)]
        reasons_for(*x, f).len() > 0 implies exists|i: int| 0 <= i < r.files@.len() && #[trigger] r.files@[i].file@ == f by {
        assert(cv.to_set().contains(f));
        let a = choose|a: int| 0 <= a < cv.len() && cv[a] == f;
        assert(reasons_for(*x, cv[a]).len() > 0);
        let i = choose|i: int| 0 <= i < r.files@.len() && #[trigger] r.files@[i].file@ == cv[a];
    }
    r
}

/// A critical silo's single ownership is counted once: its ownership and
/// churn reasons never include a separate single-owner reason.
pub proof fn law_silo_not_double_counted(churn: Seq<FileChurn>, f: Seq<char>)
    ensures
        forall|i: int|
            0 <= i < churn_reasons(churn, true, f).len() ==> (#[trigger] churn_reasons(churn, true, f)[i]).weight
                == W_CHURN_INCREASING,
    decreases churn.len(),
{
    if churn.len() > 0 {
        law_silo_not_double_counted(churn.drop_last(), f);
        let rest = churn_reasons(churn.drop_last(), true, f);
        let all = churn_reasons(churn, true, f);
        assert forall|i: int| 0 <= i < all.len() implies (#[trigger] all[i]).weight == W_CHURN_INCREASING by {
            if i < rest.len() {
                assert(all[i] == rest[i]);
            }
        }
    }
}

/// A reported score never exceeds 1 (the cap), whatever the reasons.
pub proof fn law_score_capped(rs: Seq<ReasonV>)
    ensures
        score_of(rs) <= SCORE_CAP,
{
}

proof fn lemma_load_bearing_reason(sal: Seq<FileSalience>, f: Seq<char>, k: int)
    requires
        0 <= k < sal.len(),
        sal[k].file@ == f,
        sal[k].class == Salience::HotCritical || sal[k].class == Salience::FoundationalStable,
    ensures
        exists|j: int|
            0 <= j < salience_reasons(sal, f).len() && (#[trigger] salience_reasons(sal, f)[j]).kind == "load_bearing"@
                && salience_reasons(sal, f)[j].weight == W_LOAD_BEARING,
    decreases sal.len(),
{
    let rest = salience_reasons(sal.drop_last(), f);
    let all = salience_reasons(sal, f);
    if k == sal.len() - 1 {
        assert(all[rest.len() as int].kind == "load_bearing"@);
    } else {
        lemma_load_bearing_reason(sal.drop_last(), f, k);
        let j = choose|j: int|
            0 <= j < rest.len() && (#[trigger] rest[j]).kind == "load_bearing"@ && rest[j].weight == W_LOAD_BEARING;
        assert(all[j] == rest[j]);
    }
}

proof fn lemma_weight_sum_ge(rs: Seq<ReasonV>, j: int)
    requires
        0 <= j < rs.len(),
    ensures
        weight_sum(rs) >= rs[j].weight,
    decreases rs.len(),
{
    if j < rs.len() - 1 {
        lemma_weight_sum_ge(rs.drop_last(), j);
    }
}

/// A load-bearing file is reported: every file whose salience class is
/// hot-critical or foundational-stable appears in the risk report with a
/// `load_bearing` reason of weight [`W_LOAD_BEARING`], so its score is at
/// least that weight — whatever else the inputs hold. (`r` is any report that
/// `compute` may return for `x`.)
pub proof fn law_load_bearing_reported(x: RiskInputs, r: RiskReport, k: int)
    requires
        forall|f: Seq<char>| #![trigger reasons_for(x, f)]
            reasons_for(x, f).len() > 0 ==> exists|i: int| 0 <= i < r.files@.len() && #[trigger] r.files@[i].file@ == f,
        forall|i: int| 0 <= i < r.files@.len() ==> file_risk_ok(#[trigger] r.files@[i], x),
        0 <= k < x.salience@.len(),
        x.salience@[k].class == Salience::HotCritical || x.salience@[k].class == Salience::FoundationalStable,
    ensures
        exists|i: int|
            0 <= i < r.files@.len() && #[trigger] r.files@[i].file@ == x.salience@[k].file@ && r.files@[i].score
                >= W_LOAD_BEARING && exists|j: int|
                0 <= j < r.files@[i].reasons@.len() && (#[trigger] r.files@[i].reasons@[j]).kind@ == "load_bearing"@
                    && r.files@[i].reasons@[j].weight == W_LOAD_BEARING,
{
    let f = x.salience@[k].file@;
    let sal = salience_reasons(x.salience@, f);
    lemma_load_bearing_reason(x.salience@, f, k);
    let j = choose|j: int|
        0 <= j < sal.len() && (#[trigger] sal[j]).kind == "load_bearing"@ && sal[j].weight == W_LOAD_BEARING;
    let rs = reasons_for(x, f);
    assert(rs[j] == sal[j]);
    assert(rs.len() > 0);
    let i = choose|i: int| 0 <= i < r.files@.len() && #[trigger] r.files@[i].file@ == f;
    assert(file_risk_ok(r.files@[i], x));
    let fr = r.files@[i];
    assert(reasons_view(fr.reasons@)[j] == reason_view(fr.reasons@[j]));
    lemma_weight_sum_ge(rs, j);
    assert(fr.score >= W_LOAD_BEARING);
}

proof fn lemma_silo_reason(sal: Seq<FileSalience>, f: Seq<char>, k: int)
    requires
        0 <= k < sal.len(),
        sal[k].file@ == f,
        sal[k].class == Salience::CriticalSilo,
    ensures
        exists|j: int|
            0 <= j < salience_reasons(sal, f).len() && (#[trigger] salience_reasons(sal, f)[j]).kind == "load_bearing"@
                && salience_reasons(sal, f)[j].weight == W_CRITICAL_SILO,
    decreases sal.len(),
{
    let rest = salience_reasons(sal.drop_last(), f);
    let all = salience_reasons(sal, f);
    if k == sal.len() - 1 {
        assert(all[rest.len() as int].kind == "load_bearing"@);
    } else {
        lemma_silo_reason(sal.drop_last(), f, k);
        let j = choose|j: int|
            0 <= j < rest.len() && (#[trigger] rest[j]).kind == "load_bearing"@ && rest[j].weight == W_CRITICAL_SILO;
        assert(all[j] == rest[j]);
    }
}

proof fn lemma_findings_on_positive(fs: Seq<AnalysisFinding>, f: Seq<char>, k: int)
    requires
        0 <= k < fs.len(),
        fs[k].in_change,
        fs[k].file@ == f,
    ensures
        findings_on(fs, f) > 0,
    decreases fs.len(),
{
    if k < fs.len() - 1 {
        lemma_findings_on_positive(fs.drop_last(), f, k);
    }
}

/// The report row of a file that carries reason `j` of its fold.
proof fn lemma_reported_with(x: RiskInputs, r: RiskReport, f: Seq<char>, j: int) -> (i: int)
    requires
        forall|g: Seq<char>| #![trigger reasons_for(x, g)]
            reasons_for(x, g).len() > 0 ==> exists|i: int| 0 <= i < r.files@.len() && #[trigger] r.files@[i].file@ == g,
        forall|i: int| 0 <= i < r.files@.len() ==> file_risk_ok(#[trigger] r.files@[i], x),
        0 <= j < reasons_for(x, f).len(),
    ensures
        0 <= i < r.files@.len(),
        r.files@[i].file@ == f,
        j < r.files@[i].reasons@.len(),
        r.files@[i].reasons@[j].kind@ == reasons_for(x, f)[j].kind,
        r.files@[i].reasons@[j].weight == reasons_for(x, f)[j].weight,
        r.files@[i].score >= reasons_for(x, f)[j].weight || r.files@[i].score == SCORE_CAP,
{
    let rs = reasons_for(x, f);
    assert(rs.len() > 0);
    let i = choose|i: int| 0 <= i < r.files@.len() && #[trigger] r.files@[i].file@ == f;
    assert(file_risk_ok(r.files@[i], x));
    let fr = r.files@[i];
    assert(reasons_view(fr.reasons@)[j] == reason_view(fr.reasons@[j]));
    lemma_weight_sum_ge(rs, j);
    i
}

/// A critical silo is reported with a `load_bearing` reason of weight
/// [`W_CRITICAL_SILO`]; a file a linter flagged inside the change carries a
/// `static_finding` reason of weight [`W_STATIC_FINDING`]; a file whose
/// public signatures moved carries an `api_change` reason of weight
/// [`W_API_CHANGE`]. Each such file appears in the report with at least that
/// score. (`r` is any report that `compute` may return for `x`.)
pub proof fn law_signals_reported(x: RiskInputs, r: RiskReport, f: Seq<char>)
    requires
        forall|g: Seq<char>| #![trigger reasons_for(x, g)]
            reasons_for(x, g).len() > 0 ==> exists|i: int| 0 <= i < r.files@.len() && #[trigger] r.files@[i].file@ == g,
        forall|i: int| 0 <= i < r.files@.len() ==> file_risk_ok(#[trigger] r.files@[i], x),
    ensures
        (exists|k: int| 0 <= k < x.salience@.len() && #[trigger] x.salience@[k].file@ == f && x.salience@[k].class
            == Salience::CriticalSilo) ==> exists|i: int, j: int|
            0 <= i < r.files@.len() && #[trigger] r.files@[i].file@ == f && r.files@[i].score >= W_CRITICAL_SILO && 0
                <= j < r.files@[i].reasons@.len() && (#[trigger] r.files@[i].reasons@[j]).kind@ == "load_bearing"@
                && r.files@[i].reasons@[j].weight == W_CRITICAL_SILO,
        (exists|k: int| 0 <= k < x.findings@.len() && #[trigger] x.findings@[k].file@ == f && x.findings@[k].in_change)
            ==> exists|i: int, j: int|
            0 <= i < r.files@.len() && #[trigger] r.files@[i].file@ == f && r.files@[i].score >= W_STATIC_FINDING && 0
                <= j < r.files@[i].reasons@.len() && (#[trigger] r.files@[i].reasons@[j]).kind@ == "static_finding"@
                && r.files@[i].reasons@[j].weight == W_STATIC_FINDING,
        (exists|k: int| 0 <= k < x.signatures@.len() && #[trigger] x.signatures@[k].file@ == f) ==> exists|i: int, j: int|
            0 <= i < r.files@.len() && #[trigger] r.files@[i].file@ == f && r.files@[i].score >= W_API_CHANGE && 0 <= j
                < r.files@[i].reasons@.len() && (#[trigger] r.files@[i].reasons@[j]).kind@ == "api_change"@
                && r.files@[i].reasons@[j].weight == W_API_CHANGE,
{
    let sal = salience_reasons(x.salience@, f);
    let ch = churn_reasons(x.churn@, is_silo(x.salience@, f), f);
    let co = cochange_reasons(x.cochange@, f);
    let st = static_reasons(x.findings@, f);
    let ap = api_reasons(x.signatures@, f);
    let rs = reasons_for(x, f);
    if exists|k: int| 0 <= k < x.salience@.len() && #[trigger] x.salience@[k].file@ == f && x.salience@[k].class
        == Salience::CriticalSilo {
        let k = choose|k: int| 0 <= k < x.salience@.len() && #[trigger] x.salience@[k].file@ == f && x.salience@[k].class
            == Salience::CriticalSilo;
        lemma_silo_reason(x.salience@, f, k);
        let j = choose|j: int|
            0 <= j < sal.len() && (#[trigger] sal[j]).kind == "load_bearing"@ && sal[j].weight == W_CRITICAL_SILO;
        assert(rs[j] == sal[j]);
        let i = lemma_reported_with(x, r, f, j);
        assert(r.files@[i].reasons@[j].kind@ == "load_bearing"@);
    }
    if exists|k: int| 0 <= k < x.findings@.len() && #[trigger] x.findings@[k].file@ == f && x.findings@[k].in_change {
        let k = choose|k: int| 0 <= k < x.findings@.len() && #[trigger] x.findings@[k].file@ == f && x.findings@[k].in_change;
        lemma_findings_on_positive(x.findings@, f, k);
        let j: int = (sal.len() + ch.len() + co.len()) as int;
        assert(rs[j] == st[0]);
        let i = lemma_reported_with(x, r, f, j);
        assert(r.files@[i].reasons@[j].kind@ == "static_finding"@);
    }
    if exists|k: int| 0 <= k < x.signatures@.len() && #[trigger] x.signatures@[k].file@ == f {
        let j: int = (sal.len() + ch.len() + co.len() + st.len()) as int;
        assert(rs[j] == ap[0]);
        let i = lemma_reported_with(x, r, f, j);
        assert(r.files@[i].reasons@[j].kind@ == "api_change"@);
    }
}

} // verus!
