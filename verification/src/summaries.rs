//! Change summaries of functions: the full source of each top-level function
//! in a Go/Rust text (the declaration line through the line where its braces
//! balance, keyed by receiver-qualified name), the summarization jobs that
//! comparing the two sides of a changed file yields, the prompt each job asks
//! of a model, and the summary kept from its reply.
use vstd::prelude::*;
use crate::decls::{decl_at, decl_exec, lemma_decl_at_ok, DeclSpan};
use crate::paths::eq_str;
use crate::findings::{push_chars, push_str};
use crate::signatures::{bound, bound_spec, decl_key, decl_key_exec};
use crate::text::{trim, trim_exec};
use crate::text::{
    chars_of, lemma_lex_irreflexive, lemma_lex_total, lemma_lex_transitive, lex_compare, lex_lt,
    lines_of, lines_spec, string_of, strictly_sorted, views_of,
};

verus! {

/// Runaway guard: how many lines past its first a body may run.
pub const MAX_SPAN_LINES: usize = 5000;

/// How often `c` occurs in `s`.
pub open spec fn count_char(s: Seq<char>, c: char) -> nat
    decreases s.len(),
{
    if s.len() == 0 {
        0
    } else {
        count_char(s.drop_last(), c) + if s.last() == c {
            1nat
        } else {
            0nat
        }
    }
}

/// How often `c` occurs in lines `a..b`.
pub open spec fn braces_in(ls: Seq<Seq<char>>, a: int, b: int, c: char) -> nat
    decreases b - a,
{
    if b <= a {
        0
    } else {
        braces_in(ls, a, b - 1, c) + count_char(ls[b - 1], c)
    }
}

/// The body begun at line `start` has opened, and its brace depth is back to
/// zero or below, at the end of line `j`.
pub open spec fn closes_at(ls: Seq<Seq<char>>, start: int, j: int) -> bool {
    let o = braces_in(ls, start, j + 1, '{');
    o > 0 && o <= braces_in(ls, start, j + 1, '}')
}

/// Where the brace walk from line `start` stops, reading line `j` next:
/// `(line, balanced)`. A balanced walk stops on its closing line; an
/// unbalanced one stops past the last line it read (the end of the text, or
/// `MAX_SPAN_LINES` lines past `start`).
pub open spec fn brace_stop(ls: Seq<Seq<char>>, start: int, j: int) -> (int, bool)
    decreases ls.len() - j,
{
    if j >= ls.len() {
        (j, false)
    } else if closes_at(ls, start, j) {
        (j, true)
    } else if j + 1 - start > MAX_SPAN_LINES {
        (j + 1, false)
    } else {
        brace_stop(ls, start, j + 1)
    }
}

/// Whether the walk from `start` met any `{` in the lines it read.
pub open spec fn brace_opened(ls: Seq<Seq<char>>, start: int) -> bool {
    let (e, ok) = brace_stop(ls, start, start);
    braces_in(ls, start, if ok { e + 1 } else { e }, '{') > 0
}

pub proof fn lemma_brace_stop_range(ls: Seq<Seq<char>>, start: int, j: int)
    requires
        0 <= start <= j,
    ensures
        brace_stop(ls, start, j).0 >= j,
        brace_stop(ls, start, j).1 ==> brace_stop(ls, start, j).0 < ls.len(),
        !brace_stop(ls, start, j).1 ==> brace_stop(ls, start, j).0 <= ls.len() || brace_stop(ls, start, j).0 == j,
    decreases ls.len() - j,
{
    if j < ls.len() && !closes_at(ls, start, j) && j + 1 - start <= MAX_SPAN_LINES {
        lemma_brace_stop_range(ls, start, j + 1);
    }
}

/// Lines joined with `\n`.
pub open spec fn join_lines(ls: Seq<Seq<char>>) -> Seq<char>
    decreases ls.len(),
{
    if ls.len() == 0 {
        Seq::empty()
    } else if ls.len() == 1 {
        ls[0]
    } else {
        join_lines(ls.drop_last()) + seq!['\n'] + ls.last()
    }
}

/// The `(key, body)` pairs from line `i` on: a line that opens a declaration
/// and whose braces balance yields the declaration's key and the lines through
/// the closing one, and the scan resumes after them; any other line is passed.
pub open spec fn bodies_from(ls: Seq<Seq<char>>, i: int, go: bool) -> Seq<(Seq<char>, Seq<char>)>
    decreases ls.len() - i,
{
    if i < 0 || i >= ls.len() {
        Seq::empty()
    } else {
        match decl_at(ls[i], 0, go) {
            Some(d) => {
                let key = decl_key(ls[i], d);
                let (e, ok) = brace_stop(ls, i, i);
                proof {
                    lemma_brace_stop_range(ls, i, i);
                }
                if ok && key.len() > 0 {
                    seq![(key, join_lines(ls.subrange(i, e + 1)))] + bodies_from(ls, e + 1, go)
                } else {
                    bodies_from(ls, i + 1, go)
                }
            },
            None => bodies_from(ls, i + 1, go),
        }
    }
}

/// The value of the first pair keyed `k`.
pub open spec fn lookup(es: Seq<(Seq<char>, Seq<char>)>, k: Seq<char>) -> Option<Seq<char>>
    decreases es.len(),
{
    if es.len() == 0 {
        None
    } else {
        match lookup(es.drop_last(), k) {
            Some(v) => Some(v),
            None => if es.last().0 == k {
                Some(es.last().1)
            } else {
                None
            },
        }
    }
}

pub open spec fn keys_of(es: Seq<(Seq<char>, Seq<char>)>) -> Seq<Seq<char>> {
    es.map_values(|e: (Seq<char>, Seq<char>)| e.0)
}

pub open spec fn pairs_view(v: Seq<(Vec<char>, Vec<char>)>) -> Seq<(Seq<char>, Seq<char>)> {
    v.map_values(|e: (Vec<char>, Vec<char>)| (e.0@, e.1@))
}

/// In a list with strictly ascending keys, `lookup` finds the one pair with
/// the key, or nothing.
pub proof fn lemma_lookup_sorted(es: Seq<(Seq<char>, Seq<char>)>, k: Seq<char>)
    requires
        strictly_sorted(keys_of(es)),
    ensures
        forall|i: int| 0 <= i < es.len() && #[trigger] es[i].0 == k ==> lookup(es, k) == Some(es[i].1),
        (forall|i: int| 0 <= i < es.len() ==> #[trigger] es[i].0 != k) ==> lookup(es, k) is None,
    decreases es.len(),
{
    if es.len() > 0 {
        let d = es.drop_last();
        assert(keys_of(d) =~= keys_of(es).drop_last());
        lemma_lookup_sorted(d, k);
        let n = es.len() - 1;
        if es[n].0 == k {
            assert forall|i: int| 0 <= i < d.len() implies #[trigger] d[i].0 != k by {
                assert(keys_of(es)[i] == es[i].0);
                assert(keys_of(es)[n] == es[n].0);
                lemma_lex_irreflexive(k);
            }
        }
        assert forall|i: int| 0 <= i < es.len() && #[trigger] es[i].0 == k implies lookup(es, k) == Some(
            es[i].1,
        ) by {
            if i < n {
                assert(d[i] == es[i]);
            }
        }
        if forall|i: int| 0 <= i < es.len() ==> #[trigger] es[i].0 != k {
            assert forall|i: int| 0 <= i < d.len() implies #[trigger] d[i].0 != k by {
                assert(d[i] == es[i]);
            }
        }
    }
}

/// Add `(k, v)` to a key-sorted list unless `k` is already there (the first
/// pair for a key wins).
fn insert_first(es: &mut Vec<(Vec<char>, Vec<char>)>, k: Vec<char>, v: Vec<char>)
    requires
        strictly_sorted(keys_of(pairs_view(old(es)@))),
    ensures
        strictly_sorted(keys_of(pairs_view(final(es)@))),
        forall|q: Seq<char>|
            #[trigger] lookup(pairs_view(final(es)@), q) == if q == k@ && lookup(pairs_view(old(es)@), k@) is None {
                Some(v@)
            } else {
                lookup(pairs_view(old(es)@), q)
            },
{
    let ghost s0 = pairs_view(es@);
    let ghost k0 = keys_of(s0);
    let mut p: usize = 0;
    while p < es.len()
        invariant
            p <= es@.len(),
            s0 == pairs_view(es@),
            k0 == keys_of(s0),
            forall|j: int| 0 <= j < p ==> lex_lt(#[trigger] k0[j], k@),
        ensures
            p <= es@.len(),
            forall|j: int| 0 <= j < p ==> lex_lt(#[trigger] k0[j], k@),
            p < es@.len() ==> !lex_lt(k0[p as int], k@),
        decreases es.len() - p,
    {
        assert(k0[p as int] == es@[p as int].0@);
        if lex_compare(&es[p].0, &k) >= 0 {
            break;
        }
        p += 1;
    }
    proof {
        lemma_lookup_sorted(s0, k@);
    }
    if p < es.len() {
        assert(k0[p as int] == es@[p as int].0@);
        let c = lex_compare(&es[p].0, &k);
        if c == 0 {
            assert(s0[p as int].0 == k@);
            return;
        }
        assert(lex_lt(k@, k0[p as int]));
    }
    // `k` is absent: below it for `j < p`, above it from `p` on.
    assert forall|j: int| 0 <= j < s0.len() implies #[trigger] s0[j].0 != k@ by {
        assert(k0[j] == s0[j].0);
        if j < p {
            lemma_lex_irreflexive(k@);
        } else {
            if j > p {
                lemma_lex_transitive(k@, k0[p as int], k0[j]);
            }
            lemma_lex_irreflexive(k@);
        }
    }
    let ghost kv = (k@, v@);
    es.insert(p, (k, v));
    let ghost s1 = pairs_view(es@);
    assert(s1 =~= s0.insert(p as int, kv));
    let ghost k1 = keys_of(s1);
    assert(k1 =~= k0.insert(p as int, kv.0));
    assert forall|a: int, b: int| 0 <= a < b < k1.len() implies lex_lt(#[trigger] k1[a], #[trigger] k1[b]) by {
        if b < p {
            assert(k1[a] == k0[a] && k1[b] == k0[b]);
        } else if b == p {
            assert(k1[a] == k0[a]);
        } else if a == p {
            assert(k1[b] == k0[b - 1]);
            if b - 1 > p {
                lemma_lex_transitive(kv.0, k0[p as int], k0[b - 1]);
            }
        } else if a < p {
            assert(k1[a] == k0[a] && k1[b] == k0[b - 1]);
        } else {
            assert(k1[a] == k0[a - 1] && k1[b] == k0[b - 1]);
        }
    }
    assert forall|q: Seq<char>|
        #[trigger] lookup(s1, q) == if q == kv.0 && lookup(s0, kv.0) is None {
            Some(kv.1)
        } else {
            lookup(s0, q)
        } by {
        lemma_lookup_sorted(s0, q);
        lemma_lookup_sorted(s1, q);
        if q == kv.0 {
            assert(s1[p as int].0 == q);
        } else {
            if exists|i: int| 0 <= i < s0.len() && #[trigger] s0[i].0 == q {
                let i = choose|i: int| 0 <= i < s0.len() && #[trigger] s0[i].0 == q;
                if i < p {
                    assert(s1[i] == s0[i]);
                } else {
                    assert(s1[i + 1] == s0[i]);
                }
            } else {
                assert forall|i: int| 0 <= i < s1.len() implies #[trigger] s1[i].0 != q by {
                    if i < p {
                        assert(s1[i] == s0[i]);
                    } else if i > p {
                        assert(s1[i] == s0[i - 1]);
                    }
                }
            }
        }
    }
}

/// How often `{` and `}` occur in a line.
fn count_braces(line: &Vec<char>) -> (r: (usize, usize))
    ensures
        r.0 == count_char(line@, '{'),
        r.1 == count_char(line@, '}'),
{
    let mut o: usize = 0;
    let mut c: usize = 0;
    let mut k: usize = 0;
    while k < line.len()
        invariant
            k <= line@.len(),
            o <= k,
            c <= k,
            o == count_char(line@.take(k as int), '{'),
            c == count_char(line@.take(k as int), '}'),
        decreases line.len() - k,
    {
        assert(line@.take(k + 1).drop_last() =~= line@.take(k as int));
        if line[k] == '{' {
            o += 1;
        } else if line[k] == '}' {
            c += 1;
        }
        k += 1;
    }
    assert(line@.take(line@.len() as int) =~= line@);
    (o, c)
}

/// Walk from line `start` to where its brace depth returns to zero:
/// `(stop line, balanced, opened)` as `brace_stop` and `brace_opened` say.
pub fn brace_walk(lines: &Vec<Vec<char>>, start: usize) -> (r: (usize, bool, bool))
    requires
        start < lines@.len(),
    ensures
        (r.0 as int, r.1) == brace_stop(views_of(lines@), start as int, start as int),
        r.2 == brace_opened(views_of(lines@), start as int),
{
    let ghost ls = views_of(lines@);
    let mut opens: u128 = 0;
    let mut closes: u128 = 0;
    let mut j: usize = start;
    while j < lines.len()
        invariant
            start <= j <= lines@.len(),
            j - start <= MAX_SPAN_LINES,
            ls == views_of(lines@),
            opens == braces_in(ls, start as int, j as int, '{'),
            closes == braces_in(ls, start as int, j as int, '}'),
            opens <= (j - start) * 0x1_0000_0000_0000_0000,
            closes <= (j - start) * 0x1_0000_0000_0000_0000,
            brace_stop(ls, start as int, start as int) == brace_stop(ls, start as int, j as int),
        decreases lines.len() - j,
    {
        assert(ls[j as int] == lines@[j as int]@);
        let (o, c) = count_braces(&lines[j]);
        opens = opens + o as u128;
        closes = closes + c as u128;
        if opens > 0 && opens <= closes {
            return (j, true, true);
        }
        j += 1;
        if j - start > MAX_SPAN_LINES {
            return (j, false, opens > 0);
        }
    }
    (j, false, opens > 0)
}

/// Lines `a..b` joined with `\n`.
fn join_range(lines: &Vec<Vec<char>>, a: usize, b: usize) -> (r: Vec<char>)
    requires
        a < b <= lines@.len(),
    ensures
        r@ == join_lines(views_of(lines@).subrange(a as int, b as int)),
{
    let ghost ls = views_of(lines@);
    let mut out: Vec<char> = Vec::new();
    let mut k: usize = a;
    while k < b
        invariant
            a <= k <= b <= lines@.len(),
            ls == views_of(lines@),
            k == a ==> out@.len() == 0,
            k > a ==> out@ == join_lines(ls.subrange(a as int, k as int)),
        decreases b - k,
    {
        let ghost before = out@;
        if k > a {
            out.push('\n');
        }
        let line = &lines[k];
        let mut t: usize = 0;
        let ghost mid = out@;
        while t < line.len()
            invariant
                t <= line@.len(),
                out@ == mid + line@.take(t as int),
            decreases line.len() - t,
        {
            out.push(line[t]);
            t += 1;
            assert(out@ =~= mid + line@.take(t as int));
        }
        assert(line@.take(line@.len() as int) =~= line@);
        assert(ls[k as int] == line@);
        assert(ls.subrange(a as int, k + 1).drop_last() =~= ls.subrange(a as int, k as int));
        if k == a {
            assert(out@ =~= line@);
        }
        k += 1;
    }
    out
}

/// Function bodies keyed by name, in ascending key order.
pub struct FunctionBodies {
    entries: Vec<(String, String)>,
}

impl View for FunctionBodies {
    type V = Seq<(Seq<char>, Seq<char>)>;

    closed spec fn view(&self) -> Seq<(Seq<char>, Seq<char>)> {
        self.entries@.map_values(|e: (String, String)| (e.0@, e.1@))
    }
}

impl FunctionBodies {
    #[verifier::type_invariant]
    closed spec fn keys_ascend(self) -> bool {
        strictly_sorted(keys_of(self@))
    }

    /// The number of functions.
    pub fn len(&self) -> (r: usize)
        ensures
            r == self@.len(),
    {
        self.entries.len()
    }

    pub fn is_empty(&self) -> (r: bool)
        ensures
            r == (self@.len() == 0),
    {
        self.entries.len() == 0
    }

    /// The body keyed `k`, if any.
    pub fn get(&self, k: &str) -> (r: Option<String>)
        ensures
            match r {
                Some(v) => lookup(self@, k@) == Some(v@),
                None => lookup(self@, k@) is None,
            },
    {
        let mut i: usize = 0;
        while i < self.entries.len()
            invariant
                i <= self.entries@.len(),
                forall|j: int| 0 <= j < i ==> #[trigger] self@[j].0 != k@,
            decreases self.entries.len() - i,
        {
            assert(self@[i as int] == (self.entries@[i as int].0@, self.entries@[i as int].1@));
            let key_chars = chars_of(self.entries[i].0.as_str());
            if eq_str(&key_chars, k) {
                proof {
                    use_type_invariant(self);
                    lemma_lookup_sorted(self@, k@);
                    assert(self@[i as int].0 == k@);
                    assert(lookup(self@, k@) == Some(self@[i as int].1));
                }
                return Some(self.entries[i].1.clone());
            }
            i += 1;
        }
        proof {
            use_type_invariant(self);
            lemma_lookup_sorted(self@, k@);
        }
        None
    }

    pub fn contains_key(&self, k: &str) -> (r: bool)
        ensures
            r == (lookup(self@, k@) is Some),
    {
        self.get(k).is_some()
    }
}

/// `(key, body)` pairs of a text, in source order.
pub open spec fn bodies_spec(text: Seq<char>, go: bool) -> Seq<(Seq<char>, Seq<char>)> {
    bodies_from(lines_spec(text), 0, go)
}

/// Each top-level function's full source (declaration through the
/// brace-balanced body), keyed by name — a Go method by `Recv.name` — the first
/// body of a key winning. Go when `lang` is `"go"`, Rust otherwise. A body that
/// never closes is not captured.
pub fn function_bodies(text: &str, lang: &str) -> (r: FunctionBodies)
    ensures
        forall|k: Seq<char>| #[trigger] lookup(r@, k) == lookup(bodies_spec(text@, lang@ == "go"@), k),
{
    let go = eq_str(&chars_of(lang), "go");
    let chars = chars_of(text);
    let lines = lines_of(&chars);
    let ghost ls = views_of(lines@);
    let mut es: Vec<(Vec<char>, Vec<char>)> = Vec::new();
    let ghost mut seen: Seq<(Seq<char>, Seq<char>)> = Seq::empty();
    let mut i: usize = 0;
    while i < lines.len()
        invariant
            i <= lines@.len(),
            ls == views_of(lines@),
            ls == lines_spec(text@),
            go == (lang@ == "go"@),
            seen + bodies_from(ls, i as int, go) == bodies_from(ls, 0, go),
            strictly_sorted(keys_of(pairs_view(es@))),
            forall|k: Seq<char>| #[trigger] lookup(pairs_view(es@), k) == lookup(seen, k),
        decreases lines.len() - i,
    {
        let line = &lines[i];
        assert(ls[i as int] == line@);
        let mut next = i + 1;
        let mut captured = false;
        if let Some((ns, ne, recv, _p)) = decl_exec(line, 0, go) {
            let key = decl_key_exec(line, ns, ne, recv);
            let (e, ok, _opened) = brace_walk(&lines, i);
            proof {
                lemma_brace_stop_range(ls, i as int, i as int);
            }
            if ok && key.len() > 0 {
                let body = join_range(&lines, i, e + 1);
                let ghost item = (key@, body@);
                let ghost old_es = pairs_view(es@);
                let ghost old_seen = seen;
                proof {
                    assert(bodies_from(ls, i as int, go) =~= seq![item] + bodies_from(ls, e + 1, go));
                    seen = seen.push(item);
                    assert(seen + bodies_from(ls, e + 1, go) =~= old_seen + (seq![item] + bodies_from(
                        ls,
                        e + 1,
                        go,
                    )));
                    assert(seen.drop_last() =~= old_seen);
                }
                insert_first(&mut es, key, body);
                assert forall|k: Seq<char>| #[trigger] lookup(pairs_view(es@), k) == lookup(seen, k) by {
                    assert(lookup(pairs_view(es@), k) == if k == item.0 && lookup(old_es, item.0) is None {
                        Some(item.1)
                    } else {
                        lookup(old_es, k)
                    });
                    assert(lookup(old_es, k) == lookup(old_seen, k));
                    assert(lookup(old_es, item.0) == lookup(old_seen, item.0));
                }
                next = e + 1;
                captured = true;
            }
        }
        if !captured {
            assert(bodies_from(ls, i as int, go) == bodies_from(ls, i + 1, go));
        }
        i = next;
    }
    assert(bodies_from(ls, i as int, go) =~= Seq::<(Seq<char>, Seq<char>)>::empty());
    assert(seen + Seq::<(Seq<char>, Seq<char>)>::empty() =~= seen);
    let mut entries: Vec<(String, String)> = Vec::new();
    let mut j: usize = 0;
    while j < es.len()
        invariant
            j <= es@.len(),
            entries@.map_values(|e: (String, String)| (e.0@, e.1@)) == pairs_view(es@).take(j as int),
        decreases es.len() - j,
    {
        let ghost before = entries@.map_values(|e: (String, String)| (e.0@, e.1@));
        entries.push((string_of(&es[j].0), string_of(&es[j].1)));
        assert(entries@.map_values(|e: (String, String)| (e.0@, e.1@)) =~= before.push(
            (es@[j as int].0@, es@[j as int].1@),
        ));
        assert(pairs_view(es@).take(j + 1) =~= pairs_view(es@).take(j as int).push(pairs_view(es@)[j as int]));
        j += 1;
    }
    assert(pairs_view(es@).take(es@.len() as int) =~= pairs_view(es@));
    FunctionBodies { entries }
}

/// Cap on a function body handed to the model (chars).
pub const MAX_SRC: usize = 1500;
/// Cap on a model's summary (chars).
pub const MAX_SUMMARY: usize = 300;
/// Cap on the recorded model name (chars).
pub const MAX_MODEL_NAME: usize = 80;

/// One function to summarize: its key, its file, whether it was `added` or
/// `modified`, and its bounded source before and after.
pub struct SummaryJob {
    pub name: String,
    pub file: String,
    pub kind: String,
    pub before: String,
    pub after: String,
}

pub struct JobV {
    pub name: Seq<char>,
    pub file: Seq<char>,
    pub kind: Seq<char>,
    pub before: Seq<char>,
    pub after: Seq<char>,
}

pub open spec fn job_view(j: SummaryJob) -> JobV {
    JobV { name: j.name@, file: j.file@, kind: j.kind@, before: j.before@, after: j.after@ }
}

pub open spec fn jobs_view(js: Seq<SummaryJob>) -> Seq<JobV> {
    js.map_values(|j: SummaryJob| job_view(j))
}

/// The jobs of one changed file, one per head-side function in key order: a
/// function absent from the base side is `added`; one whose body differs is
/// `modified`; an unchanged one needs no summary.
pub open spec fn jobs_spec(file: Seq<char>, base: Seq<(Seq<char>, Seq<char>)>, head: Seq<(Seq<char>, Seq<char>)>) -> Seq<JobV>
    decreases head.len(),
{
    if head.len() == 0 {
        Seq::empty()
    } else {
        let rest = jobs_spec(file, base, head.drop_last());
        let k = head.last().0;
        let after = head.last().1;
        match lookup(base, k) {
            Some(before) => if before == after {
                rest
            } else {
                rest.push(
                    JobV {
                        name: k,
                        file,
                        kind: "modified"@,
                        before: bound_spec(before, MAX_SRC as nat),
                        after: bound_spec(after, MAX_SRC as nat),
                    },
                )
            },
            None => rest.push(
                JobV { name: k, file, kind: "added"@, before: Seq::empty(), after: bound_spec(after, MAX_SRC as nat) },
            ),
        }
    }
}

/// The summarization jobs of file `file` from its base-side and head-side
/// function bodies.
pub fn file_jobs(file: &str, base: &FunctionBodies, head: &FunctionBodies) -> (r: Vec<SummaryJob>)
    ensures
        jobs_view(r@) == jobs_spec(file@, base@, head@),
{
    let mut out: Vec<SummaryJob> = Vec::new();
    let mut i: usize = 0;
    while i < head.entries.len()
        invariant
            i <= head@.len(),
            head@.len() == head.entries@.len(),
            jobs_view(out@) == jobs_spec(file@, base@, head@.take(i as int)),
        decreases head.entries.len() - i,
    {
        let (k, after) = (&head.entries[i].0, &head.entries[i].1);
        let ghost h = head@;
        assert(h[i as int] == (k@, after@));
        assert(h.take(i + 1).drop_last() =~= h.take(i as int));
        assert(h.take(i + 1).last() == h[i as int]);
        let ghost before_jobs = jobs_view(out@);
        match base.get(k.as_str()) {
            Some(before) => {
                if !eq_str(&chars_of(before.as_str()), after.as_str()) {
                    let j = SummaryJob {
                        name: string_of(&chars_of(k.as_str())),
                        file: string_of(&chars_of(file)),
                        kind: string_of(&chars_of("modified")),
                        before: string_of(&bound(&chars_of(before.as_str()), MAX_SRC)),
                        after: string_of(&bound(&chars_of(after.as_str()), MAX_SRC)),
                    };
                    out.push(j);
                    assert(jobs_view(out@) =~= before_jobs.push(job_view(j)));
                }
            },
            None => {
                let j = SummaryJob {
                    name: string_of(&chars_of(k.as_str())),
                    file: string_of(&chars_of(file)),
                    kind: string_of(&chars_of("added")),
                    before: String::new(),
                    after: string_of(&bound(&chars_of(after.as_str()), MAX_SRC)),
                };
                out.push(j);
                assert(jobs_view(out@) =~= before_jobs.push(job_view(j)));
            },
        }
        i += 1;
    }
    assert(head@.take(head@.len() as int) =~= head@);
    out
}

/// The user prompt of a job: an added function is described, a modified one
/// is shown before and after.
pub open spec fn job_prompt_spec(j: JobV) -> Seq<char> {
    if j.kind == "added"@ {
        "A new function `"@ + j.name + "` was added to "@ + j.file + ":\n\n"@ + j.after
            + "\n\nWhat does it do, in one sentence?"@
    } else {
        "The function `"@ + j.name + "` in "@ + j.file + " was modified.\n\n--- before ---\n"@ + j.before
            + "\n\n--- after ---\n"@ + j.after + "\n\nWhat changed, in one sentence?"@
    }
}

/// The question a job asks of the model.
pub fn job_prompt(j: &SummaryJob) -> (p: String)
    ensures
        p@ == job_prompt_spec(job_view(*j)),
{
    let mut out: Vec<char> = Vec::new();
    if eq_str(&chars_of(j.kind.as_str()), "added") {
        push_str(&mut out, "A new function `");
        push_str(&mut out, j.name.as_str());
        push_str(&mut out, "` was added to ");
        push_str(&mut out, j.file.as_str());
        push_str(&mut out, ":\n\n");
        push_str(&mut out, j.after.as_str());
        push_str(&mut out, "\n\nWhat does it do, in one sentence?");
    } else {
        push_str(&mut out, "The function `");
        push_str(&mut out, j.name.as_str());
        push_str(&mut out, "` in ");
        push_str(&mut out, j.file.as_str());
        push_str(&mut out, " was modified.\n\n--- before ---\n");
        push_str(&mut out, j.before.as_str());
        push_str(&mut out, "\n\n--- after ---\n");
        push_str(&mut out, j.after.as_str());
        push_str(&mut out, "\n\nWhat changed, in one sentence?");
    }
    string_of(&out)
}

/// A function's change summary.
pub struct FunctionSummary {
    pub name: String,
    pub file: String,
    pub kind: String,
    pub summary: String,
    pub model: String,
    pub duration_ms: u32,
}

/// The summary kept from a model's reply to a job: the reply trimmed and
/// bounded, with the model's name bounded; an empty reply yields none.
pub fn job_summary(j: SummaryJob, reply: &str, model: &str, duration_ms: u32) -> (r: Option<FunctionSummary>)
    ensures
        trim(reply@).len() == 0 <==> r is None,
        r matches Some(s) ==> s.name@ == j.name@ && s.file@ == j.file@ && s.kind@ == j.kind@ && s.summary@
            == bound_spec(trim(reply@), MAX_SUMMARY as nat) && s.model@ == bound_spec(model@, MAX_MODEL_NAME as nat)
            && s.duration_ms == duration_ms,
{
    let t = trim_exec(&chars_of(reply));
    if t.len() == 0 {
        return None;
    }
    Some(
        FunctionSummary {
            name: j.name,
            file: j.file,
            kind: j.kind,
            summary: string_of(&bound(&t, MAX_SUMMARY)),
            model: string_of(&bound(&chars_of(model), MAX_MODEL_NAME)),
            duration_ms,
        },
    )
}

} // verus!
