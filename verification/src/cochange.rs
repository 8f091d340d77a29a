//! Historical coupling: for each changed file, the files that usually change
//! alongside it in commit history, flagging the partners this change leaves
//! out.
//!
//! The measure is the pairwise confidence `co_occurrences / min(commits_self,
//! commits_partner)` (a conditional probability). A partner is kept when the
//! two files co-occur in at least [`MIN_COOCCUR`] commits with a confidence of
//! at least 0.3; each changed file keeps its [`MAX_PARTNERS`] best partners
//! (higher confidence first, then more co-occurrences, then the smaller path),
//! and at most [`MAX_ENTRIES`] changed files get an entry. Paths that escape
//! the repository are marked by the caller and never counted.
use vstd::prelude::*;
use crate::churn::{distinct, lemma_distinct_facts, lemma_distinct_push};
use crate::findings::contains_string;
use crate::gochecks::strings_view;
use crate::paths::eq_str;
use crate::signatures::{bound, bound_spec};
use crate::style::Ratio;
use crate::text::{chars_of, lemma_lex_irreflexive, lemma_lex_total, lemma_lex_transitive, lex_compare, lex_lt, sorted_insert, string_of, strictly_sorted, views_of};

verus! {

/// Fewest commits two files must share to count as coupled.
pub const MIN_COOCCUR: u32 = 3;
/// Partners kept per changed file.
pub const MAX_PARTNERS: usize = 6;
/// Changed files that get an entry.
pub const MAX_ENTRIES: usize = 40;
/// Longest path reported (longer ones are cut and marked).
pub const MAX_PATH: usize = 200;

/// One file a commit touched, and whether its path stays inside the
/// repository (history is untrusted: an escaping path is never counted).
#[derive(Clone, Debug)]
pub struct Touch {
    pub path: String,
    pub confined: bool,
}

/// A commit's touched files as (path, confined) pairs.
pub open spec fn commit_view(c: Seq<Touch>) -> Seq<(Seq<char>, bool)> {
    c.map_values(|t: Touch| (t.path@, t.confined))
}

pub open spec fn history_view(h: Seq<Vec<Touch>>) -> Seq<Seq<(Seq<char>, bool)>> {
    h.map_values(|c: Vec<Touch>| commit_view(c@))
}

/// The commit touched `p` through a confined path.
pub open spec fn touched(c: Seq<(Seq<char>, bool)>, p: Seq<char>) -> bool {
    exists|i: int| #![trigger c[i]] 0 <= i < c.len() && c[i].1 && c[i].0 == p
}

/// How many commits touched `p`.
pub open spec fn commits_touching(h: Seq<Seq<(Seq<char>, bool)>>, p: Seq<char>) -> nat
    decreases h.len(),
{
    if h.len() == 0 {
        0
    } else {
        commits_touching(h.drop_last(), p) + if touched(h.last(), p) { 1nat } else { 0nat }
    }
}

/// How many commits touched both `f` and `g`.
pub open spec fn commits_touching_both(h: Seq<Seq<(Seq<char>, bool)>>, f: Seq<char>, g: Seq<char>) -> nat
    decreases h.len(),
{
    if h.len() == 0 {
        0
    } else {
        commits_touching_both(h.drop_last(), f, g) + if touched(h.last(), f) && touched(h.last(), g) {
            1nat
        } else {
            0nat
        }
    }
}

/// The confidence's denominator: the smaller of the two files' commit counts.
pub open spec fn denom(h: Seq<Seq<(Seq<char>, bool)>>, f: Seq<char>, g: Seq<char>) -> nat {
    let a = commits_touching(h, f);
    let b = commits_touching(h, g);
    if a <= b { a } else { b }
}

/// `g` is a partner of `f`: another file sharing at least [`MIN_COOCCUR`]
/// commits with it, at a confidence of at least 0.3.
pub open spec fn qualifies(h: Seq<Seq<(Seq<char>, bool)>>, f: Seq<char>, g: Seq<char>) -> bool {
    &&& g != f
    &&& commits_touching_both(h, f, g) >= MIN_COOCCUR
    &&& 10 * commits_touching_both(h, f, g) >= 3 * denom(h, f, g)
}

/// The partner order on (co-occurrences, denominator, path) triples: higher
/// confidence `c / d` first, then more co-occurrences, then the smaller path.
pub open spec fn key_before(ca: int, da: int, pa: Seq<char>, cb: int, db: int, pb: Seq<char>) -> bool {
    ||| ca * db > cb * da
    ||| ca * db == cb * da && ca > cb
    ||| ca * db == cb * da && ca == cb && lex_lt(pa, pb)
}

/// Partner `a` of `f` ranks before partner `b`.
pub open spec fn ranks_before(h: Seq<Seq<(Seq<char>, bool)>>, f: Seq<char>, a: Seq<char>, b: Seq<char>) -> bool {
    key_before(
        commits_touching_both(h, f, a) as int,
        denom(h, f, a) as int,
        a,
        commits_touching_both(h, f, b) as int,
        denom(h, f, b) as int,
        b,
    )
}

proof fn lemma_cross(ac: int, ad: int, bc: int, bd: int, xc: int, xd: int)
    requires
        ad > 0,
        bd > 0,
        xd > 0,
        ac * bd >= bc * ad,
        bc * xd >= xc * bd,
    ensures
        ac * xd >= xc * ad,
        (ac * bd > bc * ad || bc * xd > xc * bd) ==> ac * xd > xc * ad,
{
    assert((ac * bd) * xd >= (bc * ad) * xd) by (nonlinear_arith)
        requires
            ac * bd >= bc * ad,
            xd > 0,
    ;
    assert((bc * xd) * ad >= (xc * bd) * ad) by (nonlinear_arith)
        requires
            bc * xd >= xc * bd,
            ad > 0,
    ;
    assert((ac * xd) * bd >= (xc * ad) * bd) by (nonlinear_arith)
        requires
            (ac * bd) * xd >= (bc * ad) * xd,
            (bc * xd) * ad >= (xc * bd) * ad,
    ;
    assert(ac * xd >= xc * ad) by (nonlinear_arith)
        requires
            (ac * xd) * bd >= (xc * ad) * bd,
            bd > 0,
    ;
    if ac * bd > bc * ad || bc * xd > xc * bd {
        assert((ac * xd) * bd > (xc * ad) * bd) by (nonlinear_arith)
            requires
                ac * bd >= bc * ad,
                bc * xd >= xc * bd,
                ac * bd > bc * ad || bc * xd > xc * bd,
                ad > 0,
                bd > 0,
                xd > 0,
        ;
        assert(ac * xd > xc * ad) by (nonlinear_arith)
            requires
                (ac * xd) * bd > (xc * ad) * bd,
                bd > 0,
        ;
    }
}

/// The partner order is transitive.
pub proof fn lemma_key_transitive(
    ac: int,
    ad: int,
    pa: Seq<char>,
    bc: int,
    bd: int,
    pb: Seq<char>,
    xc: int,
    xd: int,
    px: Seq<char>,
)
    requires
        ad > 0,
        bd > 0,
        xd > 0,
        key_before(ac, ad, pa, bc, bd, pb),
        key_before(bc, bd, pb, xc, xd, px),
    ensures
        key_before(ac, ad, pa, xc, xd, px),
{
    lemma_cross(ac, ad, bc, bd, xc, xd);
    if ac * bd == bc * ad && bc * xd == xc * bd && ac == bc && bc == xc {
        lemma_lex_transitive(pa, pb, px);
    }
}

/// Of two different paths, one ranks before the other.
pub proof fn lemma_key_total(ac: int, ad: int, pa: Seq<char>, bc: int, bd: int, pb: Seq<char>)
    requires
        pa != pb,
    ensures
        key_before(ac, ad, pa, bc, bd, pb) || key_before(bc, bd, pb, ac, ad, pa),
{
    lemma_lex_total(pa, pb);
}

/// Nothing ranks before itself.
pub proof fn lemma_key_irreflexive(ac: int, ad: int, pa: Seq<char>)
    ensures
        !key_before(ac, ad, pa, ac, ad, pa),
{
    lemma_lex_irreflexive(pa);
}

/// Whether the commit touched `p` through a confined path.
fn touches(c: &Vec<Touch>, p: &[char]) -> (r: bool)
    ensures
        r == touched(commit_view(c@), p@),
{
    let ghost cv = commit_view(c@);
    let mut i: usize = 0;
    while i < c.len()
        invariant
            i <= c@.len(),
            cv == commit_view(c@),
            forall|k: int| 0 <= k < i ==> !(#[trigger] cv[k].1 && cv[k].0 == p@),
        decreases c.len() - i,
    {
        assert(cv[i as int] == (c@[i as int].path@, c@[i as int].confined));
        if c[i].confined && eq_str(p, c[i].path.as_str()) {
            return true;
        }
        i += 1;
    }
    false
}

/// How many commits touched `p`.
fn count_touching(h: &[Vec<Touch>], p: &[char]) -> (n: u32)
    requires
        h@.len() <= u32::MAX,
    ensures
        n == commits_touching(history_view(h@), p@),
{
    let ghost hv = history_view(h@);
    let mut n: u32 = 0;
    let mut i: usize = 0;
    while i < h.len()
        invariant
            i <= h@.len(),
            h@.len() <= u32::MAX,
            hv == history_view(h@),
            n == commits_touching(hv.take(i as int), p@),
            n <= i,
        decreases h.len() - i,
    {
        assert(hv.take(i + 1).drop_last() =~= hv.take(i as int));
        assert(hv.take(i + 1).last() == commit_view(h@[i as int]@));
        if touches(&h[i], p) {
            n += 1;
        }
        i += 1;
    }
    assert(hv.take(h@.len() as int) =~= hv);
    n
}

/// How many commits touched both `f` and `g`.
fn count_both(h: &[Vec<Touch>], f: &[char], g: &[char]) -> (n: u32)
    requires
        h@.len() <= u32::MAX,
    ensures
        n == commits_touching_both(history_view(h@), f@, g@),
{
    let ghost hv = history_view(h@);
    let mut n: u32 = 0;
    let mut i: usize = 0;
    while i < h.len()
        invariant
            i <= h@.len(),
            h@.len() <= u32::MAX,
            hv == history_view(h@),
            n == commits_touching_both(hv.take(i as int), f@, g@),
            n <= i,
        decreases h.len() - i,
    {
        assert(hv.take(i + 1).drop_last() =~= hv.take(i as int));
        assert(hv.take(i + 1).last() == commit_view(h@[i as int]@));
        if touches(&h[i], f) && touches(&h[i], g) {
            n += 1;
        }
        i += 1;
    }
    assert(hv.take(h@.len() as int) =~= hv);
    n
}

/// The files other than `f` that share at least one commit with it, each once,
/// in ascending path order.
fn candidates(h: &[Vec<Touch>], f: &[char]) -> (cs: Vec<Vec<char>>)
    ensures
        strictly_sorted(views_of(cs@)),
        forall|g: Seq<char>|
            views_of(cs@).to_set().contains(g) <==> (g != f@ && commits_touching_both(history_view(h@), f@, g) > 0),
{
    let ghost hv = history_view(h@);
    let mut cs: Vec<Vec<char>> = Vec::new();
    assert(views_of(cs@).to_set() =~= Set::empty());
    let mut i: usize = 0;
    while i < h.len()
        invariant
            i <= h@.len(),
            hv == history_view(h@),
            strictly_sorted(views_of(cs@)),
            forall|g: Seq<char>|
                views_of(cs@).to_set().contains(g) <==> (g != f@ && commits_touching_both(hv.take(i as int), f@, g) > 0),
        decreases h.len() - i,
    {
        assert(hv.take(i + 1).drop_last() =~= hv.take(i as int));
        let ghost cv = commit_view(h@[i as int]@);
        assert(hv.take(i + 1).last() == cv);
        if touches(&h[i], f) {
            let c = &h[i];
            let mut j: usize = 0;
            while j < c.len()
                invariant
                    j <= c@.len(),
                    i < h@.len(),
                    c == h@[i as int],
                    cv == commit_view(c@),
                    strictly_sorted(views_of(cs@)),
                    forall|g: Seq<char>|
                        views_of(cs@).to_set().contains(g) <==> (g != f@ && (commits_touching_both(
                            hv.take(i as int),
                            f@,
                            g,
                        ) > 0 || exists|k: int| #![trigger cv[k]] 0 <= k < j && cv[k].1 && cv[k].0 == g)),
                decreases c.len() - j,
            {
                assert(cv[j as int] == (c@[j as int].path@, c@[j as int].confined));
                let ghost before = views_of(cs@).to_set();
                if c[j].confined && !eq_str(f, c[j].path.as_str()) {
                    let g = chars_of(c[j].path.as_str());
                    sorted_insert(&mut cs, g);
                }
                assert forall|g: Seq<char>|
                    views_of(cs@).to_set().contains(g) <==> (g != f@ && (commits_touching_both(
                        hv.take(i as int),
                        f@,
                        g,
                    ) > 0 || exists|k: int| #![trigger cv[k]] 0 <= k < j + 1 && cv[k].1 && cv[k].0 == g)) by {
                    if exists|k: int| #![trigger cv[k]] 0 <= k < j + 1 && cv[k].1 && cv[k].0 == g {
                        let k = choose|k: int| #![trigger cv[k]] 0 <= k < j + 1 && cv[k].1 && cv[k].0 == g;
                        if k < j {
                            assert(before.contains(g) || g == f@);
                        }
                    }
                }
                j += 1;
            }
            assert forall|g: Seq<char>|
                views_of(cs@).to_set().contains(g) <==> (g != f@ && commits_touching_both(hv.take(i + 1), f@, g) > 0) by {
                assert((exists|k: int| #![trigger cv[k]] 0 <= k < c@.len() && cv[k].1 && cv[k].0 == g) == touched(cv, g));
            }
        }
        i += 1;
    }
    assert(hv.take(h@.len() as int) =~= hv);
    cs
}

/// A partner with its counts.
struct Cand {
    path: Vec<char>,
    cooc: u32,
    den: u32,
}

spec fn cand_ok(h: Seq<Seq<(Seq<char>, bool)>>, f: Seq<char>, c: Cand) -> bool {
    &&& qualifies(h, f, c.path@)
    &&& c.cooc == commits_touching_both(h, f, c.path@)
    &&& c.den == denom(h, f, c.path@)
}

spec fn cand_before(a: Cand, b: Cand) -> bool {
    key_before(a.cooc as int, a.den as int, a.path@, b.cooc as int, b.den as int, b.path@)
}

/// `g` with its counts when it is a partner of `f` (`cf` is `f`'s commit count).
fn cand_for(h: &[Vec<Touch>], f: &[char], g: &Vec<char>, cf: u32) -> (r: Option<Cand>)
    requires
        h@.len() <= u32::MAX,
        cf == commits_touching(history_view(h@), f@),
    ensures
        r is Some <==> qualifies(history_view(h@), f@, g@),
        r matches Some(c) ==> cand_ok(history_view(h@), f@, c) && c.path@ == g@,
{
    let both = count_both(h, f, g);
    let cg = count_touching(h, g);
    let d = if cf <= cg { cf } else { cg };
    if both >= MIN_COOCCUR && 10 * (both as u64) >= 3 * (d as u64) && !crate::paths::eq_str(g, &string_of(f)) {
        let path = crate::text::slice_of(g, 0, g.len());
        assert(path@ =~= g@);
        Some(Cand { path, cooc: both, den: d })
    } else {
        None
    }
}

/// The partners of `f`, each once, with their counts.
#[verifier::rlimit(30)]
fn qualifying(h: &[Vec<Touch>], f: &[char]) -> (qs: Vec<Cand>)
    requires
        h@.len() <= u32::MAX,
    ensures
        forall|k: int| 0 <= k < qs@.len() ==> cand_ok(history_view(h@), f@, #[trigger] qs@[k]),
        forall|a: int, b: int| 0 <= a < b < qs@.len() ==> #[trigger] qs@[a].path@ != #[trigger] qs@[b].path@,
        forall|g: Seq<char>|
            qualifies(history_view(h@), f@, g) ==> exists|k: int| 0 <= k < qs@.len() && #[trigger] qs@[k].path@ == g,
{
    let ghost hv = history_view(h@);
    let cs = candidates(h, f);
    let ghost cv = views_of(cs@);
    let cf = count_touching(h, f);
    let mut qs: Vec<Cand> = Vec::new();
    let mut k: usize = 0;
    while k < cs.len()
        invariant
            k <= cs@.len(),
            h@.len() <= u32::MAX,
            hv == history_view(h@),
            cv == views_of(cs@),
            strictly_sorted(cv),
            cf == commits_touching(hv, f@),
            forall|m: int| 0 <= m < qs@.len() ==> cand_ok(hv, f@, #[trigger] qs@[m]),
            forall|m: int| 0 <= m < qs@.len() ==> exists|a: int| 0 <= a < k && #[trigger] cv[a] == #[trigger] qs@[m].path@,
            forall|a: int, b: int| 0 <= a < b < qs@.len() ==> #[trigger] qs@[a].path@ != #[trigger] qs@[b].path@,
            forall|a: int|
                0 <= a < k && qualifies(hv, f@, #[trigger] cv[a]) ==> exists|m: int| 0 <= m < qs@.len() && #[trigger] qs@[m].path@ == cv[a],
        decreases cs.len() - k,
    {
        assert(cv[k as int] == cs@[k as int]@);
        let ghost q0 = qs@;
        match cand_for(h, f, &cs[k], cf) {
            Some(c) => {
                qs.push(c);
                assert forall|a: int, b: int| 0 <= a < b < qs@.len() implies #[trigger] qs@[a].path@ != #[trigger] qs@[b].path@ by {
                    if b == qs@.len() - 1 {
                        assert(qs@[a] == q0[a]);
                        let w = choose|w: int| 0 <= w < k && #[trigger] cv[w] == q0[a].path@;
                        assert(lex_lt(cv[w], cv[k as int]));
                        lemma_lex_irreflexive(cv[w]);
                    } else {
                        assert(qs@[a] == q0[a] && qs@[b] == q0[b]);
                    }
                }
                assert forall|m: int| 0 <= m < qs@.len() implies exists|a: int| 0 <= a < k + 1 && #[trigger] cv[a] == #[trigger] qs@[m].path@ by {
                    if m < q0.len() {
                        assert(qs@[m] == q0[m]);
                        let w = choose|w: int| 0 <= w < k && #[trigger] cv[w] == q0[m].path@;
                        assert(cv[w] == qs@[m].path@);
                    } else {
                        assert(cv[k as int] == qs@[m].path@);
                    }
                }
                assert forall|a: int| 0 <= a < k + 1 && qualifies(hv, f@, #[trigger] cv[a]) implies exists|m: int| 0 <= m < qs@.len() && #[trigger] qs@[m].path@ == cv[a] by {
                    if a < k {
                        let m = choose|m: int| 0 <= m < q0.len() && #[trigger] q0[m].path@ == cv[a];
                        assert(qs@[m] == q0[m]);
                    } else {
                        assert(qs@[q0.len() as int].path@ == cv[a]);
                    }
                }
                assert forall|m: int| 0 <= m < qs@.len() implies cand_ok(hv, f@, #[trigger] qs@[m]) by {
                    if m < q0.len() {
                        assert(qs@[m] == q0[m]);
                    }
                }
            },
            None => {},
        }
        k += 1;
    }
    assert forall|g: Seq<char>| qualifies(hv, f@, g) implies exists|m: int| 0 <= m < qs@.len() && #[trigger] qs@[m].path@ == g by {
        lemma_both_le(hv, f@, g);
        assert(cv.to_set().contains(g));
        let a = choose|a: int| 0 <= a < cv.len() && cv[a] == g;
    }
    qs
}

/// Whether `a` ranks before `b`, compared exactly (no division).
fn cand_before_exec(a: &Cand, b: &Cand) -> (r: bool)
    ensures
        r == cand_before(*a, *b),
{
    let ac = a.cooc as u64;
    let bc = b.cooc as u64;
    let ad = a.den as u64;
    let bd = b.den as u64;
    assert(ac * bd <= 0xffff_ffffu64 * 0xffff_ffffu64) by (nonlinear_arith)
        requires
            ac <= 0xffff_ffffu64,
            bd <= 0xffff_ffffu64,
    ;
    assert(bc * ad <= 0xffff_ffffu64 * 0xffff_ffffu64) by (nonlinear_arith)
        requires
            bc <= 0xffff_ffffu64,
            ad <= 0xffff_ffffu64,
    ;
    let x = ac * bd;
    let y = bc * ad;
    if x != y {
        x > y
    } else if a.cooc != b.cooc {
        a.cooc > b.cooc
    } else {
        lex_compare(&a.path, &b.path) < 0
    }
}

/// The positions of the best [`MAX_PARTNERS`] candidates, best first.
fn select_top(qs: &Vec<Cand>) -> (sel: Vec<usize>)
    requires
        forall|k: int| 0 <= k < qs@.len() ==> #[trigger] qs@[k].den > 0,
        forall|a: int, b: int| 0 <= a < b < qs@.len() ==> #[trigger] qs@[a].path@ != #[trigger] qs@[b].path@,
    ensures
        sel@.len() <= MAX_PARTNERS,
        forall|i: int| 0 <= i < sel@.len() ==> #[trigger] sel@[i] < qs@.len(),
        forall|i: int, j: int| 0 <= i < j < sel@.len() ==> cand_before(qs@[#[trigger] sel@[i] as int], qs@[#[trigger] sel@[j] as int]),
        sel@.len() < MAX_PARTNERS ==> forall|u: int| 0 <= u < qs@.len() ==> #[trigger] sel@.contains(u as usize),
        forall|u: int, i: int|
            0 <= u < qs@.len() && !sel@.contains(u as usize) && 0 <= i < sel@.len() ==> cand_before(
                qs@[#[trigger] sel@[i] as int],
                #[trigger] qs@[u],
            ),
{
    let n = qs.len();
    let mut picked: Vec<bool> = Vec::new();
    let mut t: usize = 0;
    while t < n
        invariant
            t <= n,
            picked@.len() == t,
            forall|k: int| 0 <= k < t ==> !#[trigger] picked@[k],
        decreases n - t,
    {
        picked.push(false);
        t += 1;
    }
    let mut sel: Vec<usize> = Vec::new();
    loop
        invariant
            n == qs@.len(),
            picked@.len() == n,
            forall|k: int| 0 <= k < qs@.len() ==> #[trigger] qs@[k].den > 0,
            forall|a: int, b: int| 0 <= a < b < qs@.len() ==> #[trigger] qs@[a].path@ != #[trigger] qs@[b].path@,
            sel@.len() <= MAX_PARTNERS,
            forall|i: int| 0 <= i < sel@.len() ==> #[trigger] sel@[i] < n,
            forall|k: int| 0 <= k < n ==> (#[trigger] picked@[k] <==> sel@.contains(k as usize)),
            forall|i: int, j: int| 0 <= i < j < sel@.len() ==> cand_before(qs@[#[trigger] sel@[i] as int], qs@[#[trigger] sel@[j] as int]),
            forall|u: int, i: int|
                0 <= u < n && !picked@[u] && 0 <= i < sel@.len() ==> cand_before(qs@[#[trigger] sel@[i] as int], #[trigger] qs@[u]),
        ensures
            sel@.len() == MAX_PARTNERS || forall|k: int| 0 <= k < n ==> #[trigger] picked@[k],
        decreases MAX_PARTNERS - sel@.len(),
    {
        if sel.len() == MAX_PARTNERS {
            break;
        }
        let mut best: usize = n;
        let mut x: usize = 0;
        while x < n
            invariant
                x <= n,
                n == qs@.len(),
                picked@.len() == n,
                forall|k: int| 0 <= k < qs@.len() ==> #[trigger] qs@[k].den > 0,
                forall|a: int, b: int| 0 <= a < b < qs@.len() ==> #[trigger] qs@[a].path@ != #[trigger] qs@[b].path@,
                best == n || (best < x && !picked@[best as int]),
                best == n ==> forall|y: int| 0 <= y < x ==> #[trigger] picked@[y],
                best < n ==> forall|y: int|
                    0 <= y < x && !#[trigger] picked@[y] && y != best ==> cand_before(qs@[best as int], qs@[y]),
            decreases n - x,
        {
            if !picked[x] {
                if best == n {
                    best = x;
                } else {
                    let ghost b0 = best as int;
                    if cand_before_exec(&qs[x], &qs[best]) {
                        assert forall|y: int| 0 <= y < x + 1 && !#[trigger] picked@[y] && y != x implies cand_before(qs@[x as int], qs@[y]) by {
                            if y != b0 {
                                lemma_key_transitive(
                                    qs@[x as int].cooc as int, qs@[x as int].den as int, qs@[x as int].path@,
                                    qs@[b0].cooc as int, qs@[b0].den as int, qs@[b0].path@,
                                    qs@[y].cooc as int, qs@[y].den as int, qs@[y].path@,
                                );
                            }
                        }
                        best = x;
                    } else {
                        assert(qs@[x as int].path@ != qs@[b0].path@);
                        proof {
                            lemma_key_total(
                                qs@[x as int].cooc as int, qs@[x as int].den as int, qs@[x as int].path@,
                                qs@[b0].cooc as int, qs@[b0].den as int, qs@[b0].path@,
                            );
                        }
                    }
                }
            }
            x += 1;
        }
        if best == n {
            break;
        }
        let ghost s0 = sel@;
        let ghost p0 = picked@;
        assert(!s0.contains(best));
        sel.push(best);
        picked.set(best, true);
        assert forall|k: int| 0 <= k < n implies (#[trigger] picked@[k] <==> sel@.contains(k as usize)) by {
            if sel@.contains(k as usize) {
                let w = choose|w: int| 0 <= w < sel@.len() && sel@[w] == k as usize;
                if w < s0.len() {
                    assert(s0[w] == k as usize);
                }
            }
            if p0[k] {
                let w = choose|w: int| 0 <= w < s0.len() && s0[w] == k as usize;
                assert(sel@[w] == k as usize);
            }
            if k == best as int {
                assert(sel@[s0.len() as int] == best);
            }
        }
        assert forall|i: int, j: int| 0 <= i < j < sel@.len() implies cand_before(qs@[#[trigger] sel@[i] as int], qs@[#[trigger] sel@[j] as int]) by {
            if j == s0.len() {
                assert(sel@[i] == s0[i]);
                assert(!p0[best as int]);
            } else {
                assert(sel@[i] == s0[i] && sel@[j] == s0[j]);
            }
        }
        assert forall|u: int, i: int|
            0 <= u < n && !picked@[u] && 0 <= i < sel@.len() implies cand_before(qs@[#[trigger] sel@[i] as int], #[trigger] qs@[u]) by {
            if i < s0.len() {
                assert(sel@[i] == s0[i]);
            } else {
                assert(u != best as int);
            }
        }
    }
    assert forall|u: int, i: int|
        0 <= u < qs@.len() && !sel@.contains(u as usize) && 0 <= i < sel@.len() implies cand_before(
            qs@[#[trigger] sel@[i] as int],
            #[trigger] qs@[u],
        ) by {
        assert(!picked@[u]);
    }
    assert(sel@.len() < MAX_PARTNERS ==> forall|u: int| 0 <= u < qs@.len() ==> #[trigger] sel@.contains(u as usize)) by {
        if sel@.len() < MAX_PARTNERS {
            assert forall|u: int| 0 <= u < qs@.len() implies #[trigger] sel@.contains(u as usize) by {
                assert(picked@[u]);
            }
        }
    }
    sel
}

/// A file that usually changes with a changed file.
#[derive(Clone, Debug)]
pub struct CoChangePartner {
    /// The partner's path, cut to [`MAX_PATH`] chars.
    pub path: String,
    /// Shared commits over the smaller of the two files' commit counts.
    pub confidence: Ratio,
    /// Commits that touched both files.
    pub co_occurrences: u32,
    /// Whether this change touches the partner too.
    pub in_diff: bool,
}

/// A changed file and its partners, best first.
#[derive(Clone, Debug)]
pub struct CoChangeEntry {
    pub path: String,
    pub partners: Vec<CoChangePartner>,
}

/// The co-change facts of a change.
#[derive(Clone, Debug)]
pub struct CoChangeReport {
    /// Commits in the history that was mined.
    pub commits_scanned: u32,
    /// Whether the history filled its window (older commits were not seen).
    pub truncated: bool,
    pub entries: Vec<CoChangeEntry>,
    /// Partners, over all entries, that this change does not touch.
    pub missing_partners: u32,
}

/// `f` has at least one partner.
pub open spec fn has_partner(h: Seq<Seq<(Seq<char>, bool)>>, f: Seq<char>) -> bool {
    exists|g: Seq<char>| qualifies(h, f, g)
}

/// The best partners of `f`, best first: partners only, at most
/// [`MAX_PARTNERS`] of them, in rank order, and a partner is left out only
/// when that many were kept, each ranking before it.
pub open spec fn top_of(h: Seq<Seq<(Seq<char>, bool)>>, f: Seq<char>, gs: Seq<Seq<char>>) -> bool {
    &&& gs.len() <= MAX_PARTNERS
    &&& forall|i: int| 0 <= i < gs.len() ==> qualifies(h, f, #[trigger] gs[i])
    &&& forall|i: int, j: int| 0 <= i < j < gs.len() ==> ranks_before(h, f, #[trigger] gs[i], #[trigger] gs[j])
    &&& gs.len() < MAX_PARTNERS ==> forall|g: Seq<char>| #[trigger] qualifies(h, f, g) ==> gs.contains(g)
    &&& forall|g: Seq<char>, i: int|
        qualifies(h, f, g) && !gs.contains(g) && 0 <= i < gs.len() ==> #[trigger] ranks_before(h, f, gs[i], g)
}

/// `p` reports partner `g` of changed file `f`.
pub open spec fn partner_matches(
    p: CoChangePartner,
    h: Seq<Seq<(Seq<char>, bool)>>,
    changed: Seq<Seq<char>>,
    f: Seq<char>,
    g: Seq<char>,
) -> bool {
    &&& p.path@ == bound_spec(g, MAX_PATH as nat)
    &&& p.co_occurrences == commits_touching_both(h, f, g)
    &&& p.confidence.num == commits_touching_both(h, f, g)
    &&& p.confidence.den == denom(h, f, g)
    &&& p.in_diff == changed.contains(g)
}

/// `ps` reports the best partners of `f`, best first.
pub open spec fn partners_ok(
    h: Seq<Seq<(Seq<char>, bool)>>,
    changed: Seq<Seq<char>>,
    f: Seq<char>,
    ps: Seq<CoChangePartner>,
) -> bool {
    exists|gs: Seq<Seq<char>>|
        {
            &&& top_of(h, f, gs)
            &&& gs.len() == ps.len()
            &&& forall|i: int| 0 <= i < gs.len() ==> partner_matches(#[trigger] ps[i], h, changed, f, gs[i])
        }
}

/// The files of `fs`, in order, that have a partner.
pub open spec fn with_partners(h: Seq<Seq<(Seq<char>, bool)>>, fs: Seq<Seq<char>>) -> Seq<Seq<char>>
    decreases fs.len(),
{
    if fs.len() == 0 {
        Seq::empty()
    } else {
        let r = with_partners(h, fs.drop_last());
        if has_partner(h, fs.last()) {
            r.push(fs.last())
        } else {
            r
        }
    }
}

/// `e` is the entry of changed file `f`.
pub open spec fn entry_ok(
    e: CoChangeEntry,
    h: Seq<Seq<(Seq<char>, bool)>>,
    changed: Seq<Seq<char>>,
    f: Seq<char>,
) -> bool {
    &&& e.path@ == bound_spec(f, MAX_PATH as nat)
    &&& partners_ok(h, changed, f, e.partners@)
}

/// Partners the change does not touch.
pub open spec fn missing_in(ps: Seq<CoChangePartner>) -> nat
    decreases ps.len(),
{
    if ps.len() == 0 {
        0
    } else {
        missing_in(ps.drop_last()) + if ps.last().in_diff { 0nat } else { 1nat }
    }
}

pub open spec fn missing_total(es: Seq<CoChangeEntry>) -> nat
    decreases es.len(),
{
    if es.len() == 0 {
        0
    } else {
        missing_total(es.drop_last()) + missing_in(es.last().partners@)
    }
}

fn count_missing(ps: &Vec<CoChangePartner>) -> (n: u32)
    requires
        ps@.len() <= MAX_PARTNERS,
    ensures
        n == missing_in(ps@),
        n <= ps@.len(),
{
    let mut n: u32 = 0;
    let mut i: usize = 0;
    while i < ps.len()
        invariant
            i <= ps@.len(),
            ps@.len() <= MAX_PARTNERS,
            n == missing_in(ps@.take(i as int)),
            n <= i,
        decreases ps.len() - i,
    {
        assert(ps@.take(i + 1).drop_last() =~= ps@.take(i as int));
        if !ps[i].in_diff {
            n += 1;
        }
        i += 1;
    }
    assert(ps@.take(ps@.len() as int) =~= ps@);
    n
}

/// The best partners of changed file `f`, best first.
fn partners_for(h: &[Vec<Touch>], changed: &[String], f: &[char]) -> (ps: Vec<CoChangePartner>)
    requires
        h@.len() <= u32::MAX,
    ensures
        partners_ok(history_view(h@), strings_view(changed@), f@, ps@),
        ps@.len() > 0 <==> has_partner(history_view(h@), f@),
        ps@.len() <= MAX_PARTNERS,
{
    let ghost hv = history_view(h@);
    let ghost cs = strings_view(changed@);
    let qs = qualifying(h, f);
    assert forall|k: int| 0 <= k < qs@.len() implies #[trigger] qs@[k].den > 0 by {
        lemma_both_le(hv, f@, qs@[k].path@);
    }
    let sel = select_top(&qs);
    let ghost gs = sel@.map_values(|i: usize| qs@[i as int].path@);
    let mut ps: Vec<CoChangePartner> = Vec::new();
    let mut i: usize = 0;
    while i < sel.len()
        invariant
            i <= sel@.len(),
            sel@.len() <= MAX_PARTNERS,
            forall|j: int| 0 <= j < sel@.len() ==> #[trigger] sel@[j] < qs@.len(),
            gs == sel@.map_values(|i: usize| qs@[i as int].path@),
            hv == history_view(h@),
            cs == strings_view(changed@),
            forall|k: int| 0 <= k < qs@.len() ==> cand_ok(hv, f@, #[trigger] qs@[k]),
            ps@.len() == i,
            forall|j: int| 0 <= j < i ==> partner_matches(#[trigger] ps@[j], hv, cs, f@, gs[j]),
        decreases sel.len() - i,
    {
        let q = &qs[sel[i]];
        assert(cand_ok(hv, f@, qs@[sel@[i as int] as int]));
        let path = string_of(&bound(&q.path, MAX_PATH));
        let in_diff = contains_string(changed, &string_of(&q.path));
        ps.push(CoChangePartner {
            path,
            confidence: Ratio { num: q.cooc as u64, den: q.den as u64 },
            co_occurrences: q.cooc,
            in_diff,
        });
        assert forall|j: int| 0 <= j < i + 1 implies partner_matches(#[trigger] ps@[j], hv, cs, f@, gs[j]) by {
            if j < i {
                assert(ps@[j] == ps@.drop_last()[j]);
            }
        }
        i += 1;
    }
    assert(top_of(hv, f@, gs)) by {
        assert forall|i: int| 0 <= i < gs.len() implies qualifies(hv, f@, #[trigger] gs[i]) by {
            assert(cand_ok(hv, f@, qs@[sel@[i] as int]));
        }
        assert forall|i: int, j: int| 0 <= i < j < gs.len() implies ranks_before(hv, f@, #[trigger] gs[i], #[trigger] gs[j]) by {
            assert(cand_ok(hv, f@, qs@[sel@[i] as int]));
            assert(cand_ok(hv, f@, qs@[sel@[j] as int]));
        }
        assert forall|g: Seq<char>, i: int|
            qualifies(hv, f@, g) && !gs.contains(g) && 0 <= i < gs.len() implies #[trigger] ranks_before(hv, f@, gs[i], g) by {
            let k = choose|k: int| 0 <= k < qs@.len() && #[trigger] qs@[k].path@ == g;
            if sel@.contains(k as usize) {
                let w = choose|w: int| 0 <= w < sel@.len() && sel@[w] == k as usize;
                assert(gs[w] == g);
            }
            assert(cand_ok(hv, f@, qs@[sel@[i] as int]));
            assert(cand_ok(hv, f@, qs@[k]));
        }
        if gs.len() < MAX_PARTNERS {
            assert forall|g: Seq<char>| #[trigger] qualifies(hv, f@, g) implies gs.contains(g) by {
                let k = choose|k: int| 0 <= k < qs@.len() && #[trigger] qs@[k].path@ == g;
                assert(sel@.contains(k as usize));
                let w = choose|w: int| 0 <= w < sel@.len() && sel@[w] == k as usize;
                assert(gs[w] == g);
            }
        }
    }
    assert(partners_ok(hv, cs, f@, ps@));
    proof {
        if ps@.len() > 0 {
            assert(qualifies(hv, f@, gs[0]));
        } else if has_partner(hv, f@) {
            let g = choose|g: Seq<char>| qualifies(hv, f@, g);
            assert(gs.contains(g));
        }
    }
    ps
}

/// The co-change report of a change: `changed` lists the changed files (the
/// order entries come in), `history` the commits to mine, newest first, and
/// `window` the number of commits that was asked for.
pub fn compute(changed: &[String], history: &[Vec<Touch>], window: usize) -> (r: CoChangeReport)
    requires
        history@.len() <= u32::MAX,
    ensures
        r.commits_scanned == history@.len(),
        r.truncated == (history@.len() >= window),
        ({
            let wp = with_partners(history_view(history@), strings_view(changed@));
            &&& r.entries@.len() == if wp.len() <= MAX_ENTRIES { wp.len() } else { MAX_ENTRIES as nat }
            &&& forall|i: int|
                0 <= i < r.entries@.len() ==> entry_ok(
                    #[trigger] r.entries@[i],
                    history_view(history@),
                    strings_view(changed@),
                    wp[i],
                )
        }),
        r.missing_partners == missing_total(r.entries@),
{
    let ghost hv = history_view(history@);
    let ghost cs = strings_view(changed@);
    let mut entries: Vec<CoChangeEntry> = Vec::new();
    let mut missing: u32 = 0;
    let mut i: usize = 0;
    while i < changed.len()
        invariant
            i <= changed@.len(),
            history@.len() <= u32::MAX,
            hv == history_view(history@),
            cs == strings_view(changed@),
            entries@.len() == if with_partners(hv, cs.take(i as int)).len() <= MAX_ENTRIES {
                with_partners(hv, cs.take(i as int)).len()
            } else {
                MAX_ENTRIES as nat
            },
            forall|k: int|
                0 <= k < entries@.len() ==> entry_ok(#[trigger] entries@[k], hv, cs, with_partners(hv, cs.take(i as int))[k]),
            missing == missing_total(entries@),
            missing <= MAX_PARTNERS * entries@.len(),
        decreases changed.len() - i,
    {
        let ghost w0 = with_partners(hv, cs.take(i as int));
        assert(cs.take(i + 1).drop_last() =~= cs.take(i as int));
        assert(cs.take(i + 1).last() == changed@[i as int]@);
        if entries.len() < MAX_ENTRIES {
            let f = chars_of(changed[i].as_str());
            let ps = partners_for(history, changed, &f);
            if ps.len() > 0 {
                let m = count_missing(&ps);
                let ghost e0 = entries@;
                entries.push(CoChangeEntry { path: string_of(&bound(&f, MAX_PATH)), partners: ps });
                assert(entries@.drop_last() =~= e0);
                missing += m;
                assert forall|k: int|
                    0 <= k < entries@.len() implies entry_ok(#[trigger] entries@[k], hv, cs, with_partners(hv, cs.take(i + 1))[k]) by {
                    if k < e0.len() {
                        assert(entries@[k] == e0[k]);
                    }
                }
            }
        }
        i += 1;
    }
    assert(cs.take(changed@.len() as int) =~= cs);
    CoChangeReport {
        commits_scanned: history.len() as u32,
        truncated: history.len() >= window,
        entries,
        missing_partners: missing,
    }
}

/// Two files share no more commits than either has.
pub proof fn lemma_both_le(h: Seq<Seq<(Seq<char>, bool)>>, f: Seq<char>, g: Seq<char>)
    ensures
        commits_touching_both(h, f, g) <= commits_touching(h, f),
        commits_touching_both(h, f, g) <= commits_touching(h, g),
    decreases h.len(),
{
    if h.len() > 0 {
        lemma_both_le(h.drop_last(), f, g);
    }
}

/// Two files that share a commit count appear together, through confined
/// paths, in some commit of the history.
pub proof fn lemma_both_witness(h: Seq<Seq<(Seq<char>, bool)>>, f: Seq<char>, g: Seq<char>)
    requires
        commits_touching_both(h, f, g) > 0,
    ensures
        exists|k: int| 0 <= k < h.len() && touched(#[trigger] h[k], f) && touched(h[k], g),
    decreases h.len(),
{
    if touched(h.last(), f) && touched(h.last(), g) {
        assert(touched(h[h.len() - 1], f));
    } else {
        lemma_both_witness(h.drop_last(), f, g);
        let k = choose|k: int| 0 <= k < h.drop_last().len() && touched(#[trigger] h.drop_last()[k], f) && touched(h.drop_last()[k], g);
        assert(h[k] == h.drop_last()[k]);
    }
}

/// A partner shares at least [`MIN_COOCCUR`] commits with its file, at a
/// confidence between 0.3 and 1, and the two files appear together, through
/// paths that stay inside the repository, in some commit: a path that escapes
/// the repository is never a partner.
pub proof fn law_partner_bounds(h: Seq<Seq<(Seq<char>, bool)>>, f: Seq<char>, g: Seq<char>)
    requires
        qualifies(h, f, g),
    ensures
        MIN_COOCCUR <= commits_touching_both(h, f, g) <= denom(h, f, g),
        10 * commits_touching_both(h, f, g) >= 3 * denom(h, f, g),
        exists|k: int| 0 <= k < h.len() && touched(#[trigger] h[k], f) && touched(h[k], g),
{
    lemma_both_le(h, f, g);
    lemma_both_witness(h, f, g);
}

/// A changed file as the diff reports it: its display path (the new path,
/// else the old one; none for neither), whether it is noisy (a lockfile or
/// generated file) and whether the path stays inside the repository.
pub struct ChangedPath {
    pub path: Option<String>,
    pub noisy: bool,
    pub confined: bool,
}

/// The paths worth mining history for, in diff order: noisy files, escaping
/// paths and entries without a path are skipped.
pub open spec fn kept_paths(es: Seq<ChangedPath>) -> Seq<Seq<char>>
    decreases es.len(),
{
    if es.len() == 0 {
        Seq::empty()
    } else {
        let rest = kept_paths(es.drop_last());
        let e = es.last();
        match e.path {
            Some(p) => if !e.noisy && e.confined {
                rest.push(p@)
            } else {
                rest
            },
            None => rest,
        }
    }
}

/// The changed files whose history is mined, each once, in diff order.
pub fn changed_order(es: &[ChangedPath]) -> (r: Vec<String>)
    ensures
        strings_view(r@) == distinct(kept_paths(es@)),
{
    let mut out: Vec<String> = Vec::new();
    let mut i: usize = 0;
    while i < es.len()
        invariant
            i <= es@.len(),
            strings_view(out@) == distinct(kept_paths(es@.take(i as int))),
        decreases es.len() - i,
    {
        let e = &es[i];
        let ghost k0 = kept_paths(es@.take(i as int));
        assert(es@.take(i + 1).drop_last() =~= es@.take(i as int));
        assert(es@.take(i + 1).last() == *e);
        match &e.path {
            Some(p) => {
                if !e.noisy && e.confined {
                    let ghost d = distinct(k0);
                    proof {
                        lemma_distinct_push(k0, p@);
                        lemma_distinct_facts(k0);
                    }
                    let pc = chars_of(p.as_str());
                    let mut seen = false;
                    let mut j: usize = 0;
                    while j < out.len()
                        invariant
                            j <= out@.len(),
                            pc@ == p@,
                            seen == exists|q: int| 0 <= q < j && strings_view(out@)[q] == p@,
                        decreases out.len() - j,
                    {
                        assert(strings_view(out@)[j as int] == out@[j as int]@);
                        if eq_str(&pc, out[j].as_str()) {
                            seen = true;
                        }
                        j += 1;
                    }
                    assert(seen == strings_view(out@).contains(p@));
                    if !seen {
                        let ghost before = strings_view(out@);
                        out.push(string_of(&pc));
                        assert(strings_view(out@) =~= before.push(p@));
                    }
                }
            },
            None => {},
        }
        i += 1;
    }
    assert(es@.take(es@.len() as int) =~= es@);
    out
}

} // verus!
