//! The nearby-code search: the names a change declares (the symbols the
//! search is asked about, taken from the added lines of a diff), the findings
//! its hits become, and the record of the search run.
use vstd::prelude::*;
use crate::analysis::AnalyzerRun;
use crate::findings::{finding, finding_view, findings_view, push_chars, push_str, AnalysisFinding, FindingV, MAX_MSG};
use crate::gochecks::strings_view;
use crate::paths::eq_str;
use crate::signatures::{bound, bound_spec};
use crate::text::{dec_text, dec_text_exec};
use crate::names::{names_from, names_of, NameGrammar};
use crate::text::{
    chars_of, has_prefix, has_prefix_exec, lines_of, lines_spec, slice_of, sorted_insert, string_of,
    strictly_sorted, views_of,
};

verus! {

/// Shortest symbol queried (`i`, `ok`, `fn` are too common to be signal).
pub const MIN_SYMBOL_LEN: usize = 4;
pub const MAX_SYMBOL_LEN: usize = 128;
/// Most symbols queried per review.
pub const MAX_SYMBOLS: usize = 24;

/// The content of an added diff line (`+…`, not the `+++` file header).
pub open spec fn added_part(line: Seq<char>) -> Option<Seq<char>> {
    if line.len() > 0 && line[0] == '+' {
        let a = line.drop_first();
        if has_prefix(a, "++"@) {
            None
        } else {
            Some(a)
        }
    } else {
        None
    }
}

pub open spec fn symbol_ok(n: Seq<char>) -> bool {
    MIN_SYMBOL_LEN <= n.len() <= MAX_SYMBOL_LEN
}

/// The declared names of suitable length on one diff line.
pub open spec fn line_symbols(line: Seq<char>) -> Set<Seq<char>> {
    match added_part(line) {
        Some(a) => names_from(NameGrammar::Declaration, a, 0).filter(|n: Seq<char>| symbol_ok(n)).to_set(),
        None => Set::empty(),
    }
}

/// The symbols of the first `k` lines.
pub open spec fn lines_symbols(ls: Seq<Seq<char>>, k: int) -> Set<Seq<char>>
    decreases k,
{
    if k <= 0 {
        Set::empty()
    } else {
        lines_symbols(ls, k - 1).union(line_symbols(ls[k - 1]))
    }
}

/// The symbols of the first `k` patches.
pub open spec fn patches_symbols(ps: Seq<Seq<char>>, k: int) -> Set<Seq<char>>
    decreases k,
{
    if k <= 0 {
        Set::empty()
    } else {
        let ls = lines_spec(ps[k - 1]);
        patches_symbols(ps, k - 1).union(lines_symbols(ls, ls.len() as int))
    }
}

/// Add every suitable name of `names` to the sorted set `keys`.
fn add_names(keys: &mut Vec<Vec<char>>, names: &Vec<Vec<char>>)
    requires
        strictly_sorted(views_of(old(keys)@)),
    ensures
        strictly_sorted(views_of(final(keys)@)),
        views_of(final(keys)@).to_set() == views_of(old(keys)@).to_set().union(
            views_of(names@).filter(|n: Seq<char>| symbol_ok(n)).to_set(),
        ),
{
    let ghost k0 = views_of(keys@).to_set();
    let ghost nv = views_of(names@);
    let mut i: usize = 0;
    while i < names.len()
        invariant
            i <= names@.len(),
            nv == views_of(names@),
            strictly_sorted(views_of(keys@)),
            views_of(keys@).to_set() == k0.union(nv.take(i as int).filter(|n: Seq<char>| symbol_ok(n)).to_set()),
        decreases names.len() - i,
    {
        reveal(Seq::filter);
        let ghost t0 = nv.take(i as int);
        let ghost t1 = nv.take(i + 1);
        assert(t1.drop_last() =~= t0);
        assert(t1.last() == names@[i as int]@);
        let n = names[i].len();
        if MIN_SYMBOL_LEN <= n && n <= MAX_SYMBOL_LEN {
            assert(t1.filter(|n: Seq<char>| symbol_ok(n)) =~= t0.filter(|n: Seq<char>| symbol_ok(n)).push(t1.last()));
            let ghost before = views_of(keys@).to_set();
            let c = slice_of(&names[i], 0, n);
            assert(names@[i as int]@.subrange(0, n as int) =~= names@[i as int]@);
            sorted_insert(keys, c);
            proof {
                t0.filter(|n: Seq<char>| symbol_ok(n)).lemma_push_to_set_commute(t1.last());
            }
            assert(views_of(keys@).to_set() =~= k0.union(t1.filter(|n: Seq<char>| symbol_ok(n)).to_set()));
        } else {
            assert(t1.filter(|n: Seq<char>| symbol_ok(n)) =~= t0.filter(|n: Seq<char>| symbol_ok(n)));
        }
        i += 1;
    }
    assert(nv.take(names@.len() as int) =~= nv);
}

/// Declaration names introduced on the added lines of a diff's patches,
/// de-duplicated, in ascending order, at most `cap` of them: the first `cap`
/// of the sorted symbol set.
pub fn introduced_symbols(patches: &[String], cap: usize) -> (r: Vec<String>)
    ensures
        exists|all: Seq<Seq<char>>|
            {
                &&& strictly_sorted(all)
                &&& all.to_set() == patches_symbols(strings_view(patches@), patches@.len() as int)
                &&& strings_view(r@) == if all.len() > cap { all.take(cap as int) } else { all }
            },
{
    let ghost ps = strings_view(patches@);
    let mut keys: Vec<Vec<char>> = Vec::new();
    let mut p: usize = 0;
    while p < patches.len()
        invariant
            p <= patches@.len(),
            ps == strings_view(patches@),
            strictly_sorted(views_of(keys@)),
            views_of(keys@).to_set() == patches_symbols(ps, p as int),
        decreases patches.len() - p,
    {
        let text = chars_of(patches[p].as_str());
        assert(ps[p as int] == patches@[p as int]@);
        let lines = lines_of(&text);
        let ghost ls = views_of(lines@);
        let ghost before = views_of(keys@).to_set();
        let mut i: usize = 0;
        while i < lines.len()
            invariant
                i <= lines@.len(),
                ls == views_of(lines@),
                strictly_sorted(views_of(keys@)),
                views_of(keys@).to_set() == before.union(lines_symbols(ls, i as int)),
            decreases lines.len() - i,
        {
            let line = &lines[i];
            assert(ls[i as int] == line@);
            proof {
                reveal_strlit("++");
            }
            if line.len() > 0 && line[0] == '+' {
                let a = slice_of(line, 1, line.len());
                assert(a@ =~= line@.drop_first());
                if !has_prefix_exec(&a, &chars_of("++")) {
                    let names = names_of(NameGrammar::Declaration, &a);
                    add_names(&mut keys, &names);
                    assert(views_of(keys@).to_set() =~= before.union(lines_symbols(ls, i + 1)));
                } else {
                    assert(line_symbols(ls[i as int]) =~= Set::<Seq<char>>::empty());
                    assert(views_of(keys@).to_set() =~= before.union(lines_symbols(ls, i + 1)));
                }
            } else {
                assert(line_symbols(ls[i as int]) =~= Set::<Seq<char>>::empty());
                assert(views_of(keys@).to_set() =~= before.union(lines_symbols(ls, i + 1)));
            }
            i += 1;
        }
        assert(views_of(keys@).to_set() =~= patches_symbols(ps, p + 1));
        p += 1;
    }
    let ghost all = views_of(keys@);
    let n = if keys.len() > cap { cap } else { keys.len() };
    let mut out: Vec<String> = Vec::new();
    let mut k: usize = 0;
    while k < n
        invariant
            k <= n <= keys@.len(),
            all == views_of(keys@),
            strings_view(out@) == all.take(k as int),
        decreases n - k,
    {
        let s = string_of(&keys[k]);
        let ghost before = strings_view(out@);
        out.push(s);
        assert(strings_view(out@) =~= before.push(s@));
        assert(all.take(k + 1) =~= all.take(k as int).push(all[k as int]));
        k += 1;
    }
    assert(n == all.len() ==> all.take(n as int) =~= all);
    out
}

/// Most findings the nearby search reports.
pub const MAX_NEARBY_FINDINGS: usize = 200;
/// Most hits asked of the search per symbol.
pub const MAX_HITS_PER_SYMBOL: usize = 8;

/// A search hit: the file it is in, whether that path stays inside the
/// repository, and the line.
pub struct SearchHit {
    pub path: String,
    pub confined: bool,
    pub line: u32,
}

/// The message of a nearby finding for symbol `sym`, bounded.
pub open spec fn nearby_message(sym: Seq<char>) -> Seq<char> {
    bound_spec(
        "`"@ + sym
            + "` (introduced/changed here) also appears in this file — check whether it needs the same change or is a duplicate"@,
        MAX_MSG as nat,
    )
}

/// The findings of one symbol's hits: a hit on a changed file, or outside the
/// repository, is dropped; each other one is an `info` finding on its file.
pub open spec fn hit_findings(sym: Seq<char>, hits: Seq<SearchHit>, changed: Seq<Seq<char>>) -> Seq<FindingV>
    decreases hits.len(),
{
    if hits.len() == 0 {
        Seq::empty()
    } else {
        let rest = hit_findings(sym, hits.drop_last(), changed);
        let h = hits.last();
        if changed.contains(h.path@) || !h.confined {
            rest
        } else {
            rest.push(
                FindingV {
                    tool: "nearby-similar"@,
                    rule: "similar-code"@,
                    severity: "info"@,
                    file: h.path@,
                    line: h.line,
                    message: nearby_message(sym),
                    in_change: false,
                },
            )
        }
    }
}

/// Fold one symbol's search hits into the findings gathered so far (fewer
/// than [`MAX_NEARBY_FINDINGS`]): the hits that are neither in the change nor
/// outside the repository become findings, appended in order until the cap.
pub fn fold_hits(found: &mut Vec<AnalysisFinding>, sym: &str, hits: &[SearchHit], changed: &[String])
    requires
        old(found)@.len() < MAX_NEARBY_FINDINGS,
    ensures
        ({
            let new = hit_findings(sym@, hits@, strings_view(changed@));
            let room = MAX_NEARBY_FINDINGS - old(found)@.len();
            findings_view(final(found)@) == findings_view(old(found)@) + if new.len() <= room {
                new
            } else {
                new.take(room)
            }
        }),
{
    let mut msg: Vec<char> = chars_of("`");
    push_str(&mut msg, sym);
    push_str(
        &mut msg,
        "` (introduced/changed here) also appears in this file — check whether it needs the same change or is a duplicate",
    );
    let msg = bound(&msg, MAX_MSG);
    let ghost f0 = findings_view(found@);
    let ghost cs = strings_view(changed@);
    let ghost all = hit_findings(sym@, hits@, cs);
    let ghost room = MAX_NEARBY_FINDINGS - found@.len();
    let mut i: usize = 0;
    while i < hits.len() && found.len() < MAX_NEARBY_FINDINGS
        invariant
            i <= hits@.len(),
            cs == strings_view(changed@),
            all == hit_findings(sym@, hits@, cs),
            room == MAX_NEARBY_FINDINGS - f0.len(),
            0 < room,
            msg@ == nearby_message(sym@),
            found@.len() <= MAX_NEARBY_FINDINGS,
            findings_view(found@) == f0 + hit_findings(sym@, hits@.take(i as int), cs),
            hit_findings(sym@, hits@.take(i as int), cs).len() <= room,
        decreases hits.len() - i,
    {
        let h = &hits[i];
        let ghost before = findings_view(found@);
        proof {
            assert(hits@.take(i + 1).drop_last() =~= hits@.take(i as int));
            assert(hits@.take(i + 1).last() == *h);
        }
        let mut in_change = false;
        let mut j: usize = 0;
        while j < changed.len()
            invariant
                j <= changed@.len(),
                cs == strings_view(changed@),
                in_change == exists|q: int| 0 <= q < j && cs[q] == h.path@,
            decreases changed.len() - j,
        {
            assert(cs[j as int] == changed@[j as int]@);
            if eq_str(&chars_of(changed[j].as_str()), h.path.as_str()) {
                in_change = true;
            }
            j += 1;
        }
        assert(in_change == cs.contains(h.path@));
        if !in_change && h.confined {
            let f = finding("nearby-similar", &chars_of("similar-code"), &chars_of("info"), &chars_of(h.path.as_str()), h.line, &msg);
            found.push(f);
            assert(findings_view(found@) =~= before.push(finding_view(f)));
        }
        i += 1;
    }
    proof {
        let k = hit_findings(sym@, hits@.take(i as int), cs);
        lemma_hit_findings_prefix(sym@, hits@, cs, i as int);
        if i == hits@.len() {
            assert(hits@.take(i as int) =~= hits@);
        } else {
            assert(k.len() == room);
            assert(all.take(room) =~= k);
        }
    }
}

proof fn lemma_hit_findings_prefix(sym: Seq<char>, hits: Seq<SearchHit>, cs: Seq<Seq<char>>, i: int)
    requires
        0 <= i <= hits.len(),
    ensures
        hit_findings(sym, hits.take(i), cs).len() <= hit_findings(sym, hits, cs).len(),
        hit_findings(sym, hits, cs).take(hit_findings(sym, hits.take(i), cs).len() as int) == hit_findings(
            sym,
            hits.take(i),
            cs,
        ),
    decreases hits.len() - i,
{
    if i == hits.len() {
        assert(hits.take(i) =~= hits);
        let a = hit_findings(sym, hits, cs);
        assert(a.take(a.len() as int) =~= a);
    } else {
        lemma_hit_findings_prefix(sym, hits.drop_last(), cs, i);
        assert(hits.drop_last().take(i) =~= hits.take(i));
        let p = hit_findings(sym, hits.take(i), cs);
        let e = hit_findings(sym, hits.drop_last(), cs);
        assert(e.take(p.len() as int) == p);
        let a = hit_findings(sym, hits, cs);
        assert(a.take(p.len() as int) =~= e.take(p.len() as int));
    }
}

/// The search run's record after querying `symbols` symbols: `errors` queries
/// failed and `queried` were answered. Every query failing makes the run
/// `skipped` (search unavailable); some failing, `partial`; none, `ok`.
pub fn nearby_run(errors: u32, queried: u32, symbols: usize, duration_ms: u32, finding_count: u32) -> (r: AnalyzerRun)
    ensures
        r.tool@ == "nearby-similar"@,
        r.duration_ms == duration_ms,
        r.finding_count == finding_count,
        errors > 0 && queried == 0 ==> r.status@ == "skipped"@ && r.reason@ == "search backend rejected every query"@,
        errors > 0 && queried > 0 ==> r.status@ == "partial"@ && r.reason@ == dec_text(errors as nat) + " of "@
            + dec_text(symbols as nat) + " queries failed"@,
        errors == 0 ==> r.status@ == "ok"@ && r.reason@ == Seq::<char>::empty(),
{
    let (status, reason) = if errors > 0 && queried == 0 {
        (chars_of("skipped"), chars_of("search backend rejected every query"))
    } else if errors > 0 {
        let mut m = dec_text_exec(errors as u64);
        push_str(&mut m, " of ");
        push_chars(&mut m, &dec_text_exec(symbols as u64));
        push_str(&mut m, " queries failed");
        (chars_of("partial"), m)
    } else {
        (chars_of("ok"), Vec::new())
    };
    AnalyzerRun {
        tool: string_of(&chars_of("nearby-similar")),
        status: string_of(&status),
        reason: string_of(&reason),
        duration_ms,
        finding_count,
    }
}

} // verus!
