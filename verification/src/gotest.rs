//! The output of `go test -race`, `go test -bench` and `go test -cover`, read
//! into findings.
use vstd::prelude::*;
use crate::findings::{finding, push_chars, push_str, FindingV, MAX_MSG, AnalysisFinding, finding_view, findings_view};
use crate::gochecks::{
    go_file_line, go_ref_from, lemma_skip_ws_range, lemma_token_end_range, pkg_file, pkg_file_from,
    rel_dir, rel_dir_spec, skip_ws_from, strings_view, token_end,
};
use crate::paths::{eq_str, index_from, index_of};
use crate::retry::{digit_run, digit_run_end};
use crate::signatures::{bound, bound_spec, first_index, tokens_from};
use crate::text::{
    chars_of, contains, contains_exec, has_prefix, has_prefix_exec, has_suffix, is_whitespace,
    lines_of, lines_spec, lower_seq, slice_of, string_of, trim_start, trim_start_exec, views_of, all_digits,
    digits_value, parse_u64_exec,
};

verus! {

/// Rust's `f64` text syntax (`str::parse::<f64>` succeeds exactly on it): an
/// optional sign, then `inf`, `infinity` or `nan` in any case, or digits with
/// an optional fraction (at least one digit in all) and an optional exponent
/// `e`/`E`, optional sign, digits.
pub open spec fn float_text(s: Seq<char>) -> bool {
    let b = if s.len() > 0 && (s[0] == '+' || s[0] == '-') {
        s.drop_first()
    } else {
        s
    };
    let l = lower_seq(b);
    if l == "inf"@ || l == "infinity"@ || l == "nan"@ {
        true
    } else {
        let i: int = digit_run(b, 0) as int;
        let (j, frac): (int, int) = if i < b.len() && b[i] == '.' {
            (i + 1 + digit_run(b, i + 1), digit_run(b, i + 1) as int)
        } else {
            (i, 0int)
        };
        if i + frac == 0 {
            false
        } else if j == b.len() {
            true
        } else if b[j] == 'e' || b[j] == 'E' {
            let k = if j + 1 < b.len() && (b[j + 1] == '+' || b[j + 1] == '-') { j + 2 } else { j + 1 };
            digit_run(b, k) > 0 && k + digit_run(b, k) == b.len()
        } else {
            false
        }
    }
}

proof fn lemma_digit_run_range(s: Seq<char>, i: int)
    requires
        0 <= i <= s.len(),
    ensures
        i + digit_run(s, i) <= s.len(),
    decreases s.len() - i,
{
    if i < s.len() && crate::text::is_digit(s[i]) {
        lemma_digit_run_range(s, i + 1);
    }
}

/// Whether a token is decimal floating-point text (`float_text`).
pub fn is_float_text(s: &[char]) -> (r: bool)
    ensures
        r == float_text(s@),
{
    let _n = s.len();
    let b = if s.len() > 0 && (s[0] == '+' || s[0] == '-') {
        slice_of(s, 1, s.len())
    } else {
        slice_of(s, 0, s.len())
    };
    assert(s@.subrange(0, s@.len() as int) =~= s@);
    assert(s@.len() > 0 ==> s@.subrange(1, s@.len() as int) =~= s@.drop_first());
    let l = crate::text::to_lower(&b);
    if eq_str(&l, "inf") || eq_str(&l, "infinity") || eq_str(&l, "nan") {
        return true;
    }
    proof {
        reveal_strlit("inf");
        reveal_strlit("infinity");
        reveal_strlit("nan");
    }
    let i = digit_run_end(&b, 0);
    let (j, frac) = if i < b.len() && b[i] == '.' {
        let e = digit_run_end(&b, i + 1);
        (e, e - (i + 1))
    } else {
        (i, 0)
    };
    if i + frac == 0 {
        return false;
    }
    if j == b.len() {
        return true;
    }
    if b[j] == 'e' || b[j] == 'E' {
        let k = if j + 1 < b.len() && (b[j + 1] == '+' || b[j + 1] == '-') { j + 2 } else { j + 1 };
        let e = digit_run_end(&b, k);
        e > k && e == b.len()
    } else {
        false
    }
}

/// The whitespace-separated tokens of `s` (`split_whitespace`).
pub fn split_ws(s: &[char]) -> (r: Vec<Vec<char>>)
    ensures
        views_of(r@) == tokens_from(s@, 0),
{
    let mut out: Vec<Vec<char>> = Vec::new();
    let mut i: usize = 0;
    while i <= s.len()
        invariant
            i <= s@.len(),
            views_of(out@) + tokens_from(s@, i as int) == tokens_from(s@, 0),
        ensures
            views_of(out@) == tokens_from(s@, 0),
        decreases s.len() - i,
    {
        let mut a = i;
        while a < s.len() && is_whitespace(s[a])
            invariant
                i <= a <= s@.len(),
                skip_ws_from(s@, i as int) == skip_ws_from(s@, a as int),
            decreases s.len() - a,
        {
            a += 1;
        }
        if a >= s.len() {
            assert(tokens_from(s@, i as int) =~= Seq::<Seq<char>>::empty());
            assert(views_of(out@) + Seq::<Seq<char>>::empty() =~= views_of(out@));
            break;
        }
        let mut b = a;
        while b < s.len() && !is_whitespace(s[b])
            invariant
                a <= b <= s@.len(),
                token_end(s@, a as int) == token_end(s@, b as int),
            decreases s.len() - b,
        {
            b += 1;
        }
        proof {
            lemma_skip_ws_range(s@, i as int);
        }
        let tok = slice_of(s, a, b);
        let ghost before = views_of(out@);
        out.push(tok);
        proof {
            assert(views_of(out@) =~= before.push(tok@));
            assert(tokens_from(s@, i as int) =~= seq![tok@] + tokens_from(s@, b as int));
            assert(views_of(out@) + tokens_from(s@, b as int) =~= before + (seq![tok@] + tokens_from(s@, b as int)));
        }
        i = b;
    }
    out
}

// ---- go test -race ------------------------------------------------------------

/// The first `path.go:NN` reference in lines `k..end`.
pub open spec fn first_ref(ls: Seq<Seq<char>>, k: int, end: int) -> Option<(Seq<char>, u32)>
    decreases end - k,
{
    if k < 0 || k >= end || k >= ls.len() {
        None
    } else {
        match go_ref_from(ls[k], 0) {
            Some(r) => Some(r),
            None => first_ref(ls, k + 1, end),
        }
    }
}

/// How many lines past a race header are searched for its location.
pub const RACE_WINDOW: usize = 40;

pub open spec fn race_finding(r: Option<(Seq<char>, u32)>) -> FindingV {
    FindingV {
        tool: "go test -race"@,
        rule: "data-race"@,
        severity: "error"@,
        file: match r {
            Some((p, _n)) => p,
            None => Seq::empty(),
        },
        line: match r {
            Some((_p, n)) => n,
            None => 0,
        },
        message: bound_spec("data race detected under `go test -race`"@, MAX_MSG as nat),
        in_change: false,
    }
}

/// One finding per `WARNING: DATA RACE` line, located at the first in-window
/// `file.go:line` reference from that line on.
pub open spec fn races_from(ls: Seq<Seq<char>>, i: int) -> Seq<FindingV>
    decreases ls.len() - i,
{
    if i < 0 || i >= ls.len() {
        Seq::empty()
    } else if contains(ls[i], "WARNING: DATA RACE"@) {
        let end = if i + RACE_WINDOW < ls.len() { i + RACE_WINDOW } else { ls.len() as int };
        seq![race_finding(first_ref(ls, i, end))] + races_from(ls, i + 1)
    } else {
        races_from(ls, i + 1)
    }
}

/// Parse `go test -race` output. Paths are as reported: a caller screens them
/// (see `strip_location`).
pub fn parse_races(out: &str) -> (r: Vec<AnalysisFinding>)
    ensures
        findings_view(r@) == races_from(lines_spec(out@), 0),
{
    let chars = chars_of(out);
    let lines = lines_of(&chars);
    let ghost ls = views_of(lines@);
    let header = chars_of("WARNING: DATA RACE");
    let mut found: Vec<AnalysisFinding> = Vec::new();
    let mut i: usize = 0;
    while i < lines.len()
        invariant
            i <= lines@.len(),
            ls == views_of(lines@),
            ls == lines_spec(out@),
            header@ == "WARNING: DATA RACE"@,
            findings_view(found@) + races_from(ls, i as int) == races_from(ls, 0),
        decreases lines.len() - i,
    {
        assert(ls[i as int] == lines@[i as int]@);
        if contains_exec(&lines[i], &header) {
            let end = if lines.len() - i > RACE_WINDOW { i + RACE_WINDOW } else { lines.len() };
            let mut k = i;
            let mut loc: Option<(String, u32)> = None;
            while k < end && loc.is_none()
                invariant
                    i <= k <= end <= lines@.len(),
                    ls == views_of(lines@),
                    match loc {
                        None => first_ref(ls, i as int, end as int) == first_ref(ls, k as int, end as int),
                        Some((p, n)) => first_ref(ls, i as int, end as int) == Some((p@, n)),
                    },
                decreases end - k,
            {
                assert(ls[k as int] == lines@[k as int]@);
                let line = string_of(&lines[k]);
                match go_file_line(line.as_str()) {
                    Some(x) => {
                        loc = Some(x);
                    },
                    None => {},
                }
                k += 1;
            }
            proof {
                reveal_strlit("go test -race");
                reveal_strlit("data-race");
                reveal_strlit("error");
            }
            let msg = bound(&chars_of("data race detected under `go test -race`"), MAX_MSG);
            let (file, line): (Vec<char>, u32) = match loc {
                Some((p, n)) => (chars_of(p.as_str()), n),
                None => (Vec::new(), 0),
            };
            let f = finding("go test -race", &chars_of("data-race"), &chars_of("error"), &file, line, &msg);
            let ghost fr = race_finding(first_ref(ls, i as int, end as int));
            assert(finding_view(f) == fr);
            let ghost before = findings_view(found@);
            found.push(f);
            assert(findings_view(found@) =~= before.push(fr));
            assert(races_from(ls, i as int) =~= seq![fr] + races_from(ls, i + 1));
            assert(findings_view(found@) + races_from(ls, i + 1) =~= before + races_from(ls, i as int));
        }
        i += 1;
    }
    assert(races_from(ls, i as int) =~= Seq::<FindingV>::empty());
    assert(findings_view(found@) + Seq::<FindingV>::empty() =~= findings_view(found@));
    found
}


// ---- go test -bench -----------------------------------------------------------

/// A benchmark result line (`BenchmarkName-8  N  T ns/op ...`): its name and
/// the value before the first `ns/op`, when that value is a number.
pub open spec fn bench_of(line: Seq<char>) -> Option<FindingV> {
    let t = trim_start(line);
    let cols = tokens_from(t, 0);
    if !has_prefix(t, "Benchmark"@) || cols.len() == 0 {
        None
    } else {
        let p = first_index(cols, "ns/op"@);
        if p < 1 || !float_text(cols[p - 1]) {
            None
        } else {
            Some(
                FindingV {
                    tool: "go test -bench"@,
                    rule: "bench"@,
                    severity: "info"@,
                    file: Seq::empty(),
                    line: 0,
                    message: bound_spec(cols[0] + ": "@ + cols[p - 1] + " ns/op"@, MAX_MSG as nat),
                    in_change: false,
                },
            )
        }
    }
}

pub open spec fn benches_from(ls: Seq<Seq<char>>, i: int) -> Seq<FindingV>
    decreases ls.len() - i,
{
    if i < 0 || i >= ls.len() {
        Seq::empty()
    } else {
        match bench_of(ls[i]) {
            Some(f) => seq![f] + benches_from(ls, i + 1),
            None => benches_from(ls, i + 1),
        }
    }
}

/// Index of the first `lit` token, as `first_index` says.
fn find_token(cols: &Vec<Vec<char>>, lit: &str) -> (r: Option<usize>)
    ensures
        match r {
            Some(p) => first_index(views_of(cols@), lit@) == p && p < cols@.len(),
            None => first_index(views_of(cols@), lit@) == -1,
        },
{
    let ghost vs = views_of(cols@);
    let mut p: usize = 0;
    while p < cols.len()
        invariant
            p <= cols@.len(),
            vs == views_of(cols@),
            forall|q: int| 0 <= q < p ==> vs[q] != lit@,
        decreases cols.len() - p,
    {
        assert(vs[p as int] == cols@[p as int]@);
        if eq_str(&cols[p], lit) {
            proof {
                crate::signatures::lemma_first_index_found(vs, lit@, p as int);
            }
            return Some(p);
        }
        p += 1;
    }
    proof {
        crate::signatures::lemma_first_index_absent(vs, lit@);
    }
    None
}

fn bench_line(line: &Vec<char>) -> (r: Option<AnalysisFinding>)
    ensures
        match r {
            Some(f) => bench_of(line@) == Some(finding_view(f)),
            None => bench_of(line@) is None,
        },
{
    let t = trim_start_exec(line);
    let cols = split_ws(&t);
    if !has_prefix_exec(&t, &chars_of("Benchmark")) || cols.len() == 0 {
        return None;
    }
    let ghost vs = views_of(cols@);
    match find_token(&cols, "ns/op") {
        None => None,
        Some(p) => {
            if p < 1 {
                return None;
            }
            assert(vs[p - 1] == cols@[p - 1]@);
            assert(vs[0] == cols@[0]@);
            if !is_float_text(&cols[p - 1]) {
                return None;
            }
            let mut m: Vec<char> = Vec::new();
            push_chars(&mut m, &cols[0]);
            push_str(&mut m, ": ");
            push_chars(&mut m, &cols[p - 1]);
            push_str(&mut m, " ns/op");
            assert(m@ =~= vs[0] + ": "@ + vs[p - 1] + " ns/op"@);
            let msg = bound(&m, MAX_MSG);
            let f = finding("go test -bench", &chars_of("bench"), &chars_of("info"), &Vec::new(), 0, &msg);
            Some(f)
        },
    }
}

/// Parse `go test -bench` output: one `info` finding per benchmark result.
pub fn parse_benches(out: &str) -> (r: Vec<AnalysisFinding>)
    ensures
        findings_view(r@) == benches_from(lines_spec(out@), 0),
{
    let chars = chars_of(out);
    let lines = lines_of(&chars);
    let ghost ls = views_of(lines@);
    let mut found: Vec<AnalysisFinding> = Vec::new();
    let mut i: usize = 0;
    while i < lines.len()
        invariant
            i <= lines@.len(),
            ls == views_of(lines@),
            ls == lines_spec(out@),
            findings_view(found@) + benches_from(ls, i as int) == benches_from(ls, 0),
        decreases lines.len() - i,
    {
        assert(ls[i as int] == lines@[i as int]@);
        match bench_line(&lines[i]) {
            Some(f) => {
                let ghost before = findings_view(found@);
                found.push(f);
                assert(findings_view(found@) =~= before.push(finding_view(f)));
                assert(benches_from(ls, i as int) =~= seq![finding_view(f)] + benches_from(ls, i + 1));
                assert(findings_view(found@) + benches_from(ls, i + 1) =~= before + benches_from(ls, i as int));
            },
            None => {},
        }
        i += 1;
    }
    assert(benches_from(ls, i as int) =~= Seq::<FindingV>::empty());
    assert(findings_view(found@) + Seq::<FindingV>::empty() =~= findings_view(found@));
    found
}

// ---- go test -cover -----------------------------------------------------------

/// A package result line of `go test -cover`: the import path, the changed
/// file it anchors on (if any), and the coverage percent text, `None` for a
/// package with no test files.
pub struct CoverageRow {
    pub import: String,
    pub file: String,
    pub in_change: bool,
    pub pct: Option<String>,
}

pub struct CoverageRowV {
    pub import: Seq<char>,
    pub file: Seq<char>,
    pub in_change: bool,
    pub pct: Option<Seq<char>>,
}

pub open spec fn row_view(r: CoverageRow) -> CoverageRowV {
    CoverageRowV {
        import: r.import@,
        file: r.file@,
        in_change: r.in_change,
        pct: match r.pct {
            Some(p) => Some(p@),
            None => None,
        },
    }
}

/// The text before `%` of the first `NN%` token from `k` on.
pub open spec fn first_pct(toks: Seq<Seq<char>>, k: int) -> Option<Seq<char>>
    decreases toks.len() - k,
{
    if k < 0 || k >= toks.len() {
        None
    } else if has_suffix(toks[k], "%"@) && float_text(toks[k].drop_last()) {
        Some(toks[k].drop_last())
    } else {
        first_pct(toks, k + 1)
    }
}

/// A line's package result: only lines carrying `coverage:` or
/// `[no test files]`; the import path is the token after a leading
/// `ok`/`?`/`FAIL` status, else the first token, and must contain `/` or be the
/// module itself.
pub open spec fn coverage_row(line: Seq<char>, module: Seq<char>, changed: Seq<Seq<char>>) -> Option<CoverageRowV> {
    let no_tests = contains(line, "[no test files]"@);
    let toks = tokens_from(line, 0);
    if !contains(line, "coverage:"@) && !no_tests {
        None
    } else {
        let import: Option<Seq<char>> = if toks.len() == 0 {
            None
        } else if toks[0] == "ok"@ || toks[0] == "?"@ || toks[0] == "FAIL"@ {
            if toks.len() > 1 { Some(toks[1]) } else { None }
        } else {
            Some(toks[0])
        };
        match import {
            None => None,
            Some(imp) => if !imp.contains('/') && imp != module {
                None
            } else {
                let pf = pkg_file_from(changed, rel_dir_spec(imp, module), 0);
                let file = match pf {
                    Some(p) => p,
                    None => Seq::empty(),
                };
                if no_tests {
                    Some(CoverageRowV { import: imp, file, in_change: pf is Some, pct: None })
                } else {
                    match first_pct(toks, 0) {
                        None => None,
                        Some(p) => Some(CoverageRowV { import: imp, file, in_change: pf is Some, pct: Some(p) }),
                    }
                }
            },
        }
    }
}

pub open spec fn rows_from(ls: Seq<Seq<char>>, i: int, module: Seq<char>, changed: Seq<Seq<char>>) -> Seq<CoverageRowV>
    decreases ls.len() - i,
{
    if i < 0 || i >= ls.len() {
        Seq::empty()
    } else {
        match coverage_row(ls[i], module, changed) {
            Some(r) => seq![r] + rows_from(ls, i + 1, module, changed),
            None => rows_from(ls, i + 1, module, changed),
        }
    }
}

fn has_slash(s: &Vec<char>) -> (r: bool)
    ensures
        r == s@.contains('/'),
{
    let mut i: usize = 0;
    while i < s.len()
        invariant
            i <= s@.len(),
            forall|j: int| 0 <= j < i ==> s@[j] != '/',
        decreases s.len() - i,
    {
        if s[i] == '/' {
            return true;
        }
        i += 1;
    }
    false
}

fn first_pct_exec(toks: &Vec<Vec<char>>) -> (r: Option<Vec<char>>)
    ensures
        match r {
            Some(p) => first_pct(views_of(toks@), 0) == Some(p@),
            None => first_pct(views_of(toks@), 0) is None,
        },
{
    let ghost vs = views_of(toks@);
    let mut k: usize = 0;
    while k < toks.len()
        invariant
            k <= toks@.len(),
            vs == views_of(toks@),
            first_pct(vs, 0) == first_pct(vs, k as int),
        decreases toks.len() - k,
    {
        assert(vs[k as int] == toks@[k as int]@);
        let t = &toks[k];
        if t.len() > 0 && t[t.len() - 1] == '%' {
            let body = slice_of(t, 0, t.len() - 1);
            assert(body@ =~= t@.drop_last());
            if is_float_text(&body) {
                proof {
                    reveal_strlit("%");
                    assert(has_suffix(t@, "%"@)) by {
                        assert(t@.subrange(t@.len() - 1, t@.len() as int) =~= "%"@);
                    }
                }
                return Some(body);
            }
        }
        proof {
            reveal_strlit("%");
            if t@.len() > 0 && has_suffix(t@, "%"@) {
                assert(t@.subrange(t@.len() - 1, t@.len() as int)[0] == '%');
            }
        }
        k += 1;
    }
    None
}

fn coverage_line(line: &Vec<char>, module: &str, changed: &[String]) -> (r: Option<CoverageRow>)
    ensures
        match r {
            Some(x) => coverage_row(line@, module@, strings_view(changed@)) == Some(row_view(x)),
            None => coverage_row(line@, module@, strings_view(changed@)) is None,
        },
{
    let no_tests = contains_exec(line, &chars_of("[no test files]"));
    if !contains_exec(line, &chars_of("coverage:")) && !no_tests {
        return None;
    }
    let toks = split_ws(line);
    let ghost vs = views_of(toks@);
    if toks.len() == 0 {
        return None;
    }
    assert(vs[0] == toks@[0]@);
    let first = &toks[0];
    let import: Vec<char> = if eq_str(first, "ok") || eq_str(first, "?") || eq_str(first, "FAIL") {
        if toks.len() > 1 {
            assert(vs[1] == toks@[1]@);
            slice_of(&toks[1], 0, toks[1].len())
        } else {
            return None;
        }
    } else {
        slice_of(first, 0, first.len())
    };
    assert(toks@.len() > 1 ==> toks@[1]@.subrange(0, toks@[1]@.len() as int) =~= toks@[1]@);
    assert(first@.subrange(0, first@.len() as int) =~= first@);
    if !has_slash(&import) && !eq_str(&import, module) {
        return None;
    }
    let imp_s = string_of(&import);
    let dir = rel_dir(imp_s.as_str(), module);
    let (file, in_change) = pkg_file(changed, dir.as_str());
    if no_tests {
        return Some(CoverageRow { import: imp_s, file, in_change, pct: None });
    }
    match first_pct_exec(&toks) {
        None => None,
        Some(p) => Some(CoverageRow { import: imp_s, file, in_change, pct: Some(string_of(&p)) }),
    }
}

/// The package result lines of `go test -cover` output, each mapped to the
/// changed file it anchors on (the import path with the module prefix
/// stripped naming the package dir).
pub fn coverage_rows(out: &str, module: &str, changed: &[String]) -> (r: Vec<CoverageRow>)
    ensures
        r@.map_values(|x: CoverageRow| row_view(x)) == rows_from(lines_spec(out@), 0, module@, strings_view(changed@)),
{
    let chars = chars_of(out);
    let lines = lines_of(&chars);
    let ghost ls = views_of(lines@);
    let ghost cs = strings_view(changed@);
    let mut rows: Vec<CoverageRow> = Vec::new();
    let mut i: usize = 0;
    while i < lines.len()
        invariant
            i <= lines@.len(),
            ls == views_of(lines@),
            ls == lines_spec(out@),
            cs == strings_view(changed@),
            rows@.map_values(|x: CoverageRow| row_view(x)) + rows_from(ls, i as int, module@, cs) == rows_from(ls, 0, module@, cs),
        decreases lines.len() - i,
    {
        assert(ls[i as int] == lines@[i as int]@);
        match coverage_line(&lines[i], module, changed) {
            Some(x) => {
                let ghost before = rows@.map_values(|x: CoverageRow| row_view(x));
                let ghost xv = row_view(x);
                rows.push(x);
                assert(rows@.map_values(|x: CoverageRow| row_view(x)) =~= before.push(xv));
                assert(rows_from(ls, i as int, module@, cs) =~= seq![xv] + rows_from(ls, i + 1, module@, cs));
                assert(rows@.map_values(|x: CoverageRow| row_view(x)) + rows_from(ls, i + 1, module@, cs) =~= before + rows_from(ls, i as int, module@, cs));
            },
            None => {},
        }
        i += 1;
    }
    assert(rows_from(ls, i as int, module@, cs) =~= Seq::<CoverageRowV>::empty());
    assert(rows@.map_values(|x: CoverageRow| row_view(x)) + Seq::<CoverageRowV>::empty() =~= rows@.map_values(|x: CoverageRow| row_view(x)));
    rows
}

/// A coverage finding: a `go test -cover` warning on `file`, message bounded.
pub fn cov_finding(rule: &str, file: &str, in_change: bool, message: &str) -> (r: AnalysisFinding)
    ensures
        finding_view(r) == (FindingV {
            tool: "go test -cover"@,
            rule: rule@,
            severity: "warning"@,
            file: file@,
            line: 0,
            message: bound_spec(message@, MAX_MSG as nat),
            in_change: in_change,
        }),
{
    let msg = bound(&chars_of(message), MAX_MSG);
    let f = finding("go test -cover", &chars_of(rule), &chars_of("warning"), &chars_of(file), 0, &msg);
    AnalysisFinding { in_change, ..f }
}

/// The finding for a package with no test files.
pub fn no_tests_finding(row: &CoverageRow) -> (r: AnalysisFinding)
    ensures
        finding_view(r) == (FindingV {
            tool: "go test -cover"@,
            rule: "no-tests"@,
            severity: "warning"@,
            file: row.file@,
            line: 0,
            message: bound_spec(row.import@ + ": no test files (changed package is untested)"@, MAX_MSG as nat),
            in_change: row.in_change,
        }),
{
    let mut m = chars_of(row.import.as_str());
    push_str(&mut m, ": no test files (changed package is untested)");
    let ms = string_of(&m);
    cov_finding("no-tests", row.file.as_str(), row.in_change, ms.as_str())
}

/// A plain decimal, `D+` or `D+.D+` (how `go test -cover` prints a
/// percentage): its integer digits.
pub open spec fn decimal_int_part(t: Seq<char>) -> Option<Seq<char>> {
    match index_from(t, '.', 0) {
        None => if t.len() > 0 && all_digits(t) {
            Some(t)
        } else {
            None
        },
        Some(e) => if 0 < e && e + 1 < t.len() && all_digits(t.subrange(0, e)) && all_digits(
            t.subrange(e + 1, t.len() as int),
        ) {
            Some(t.subrange(0, e))
        } else {
            None
        },
    }
}

fn digits_only(t: &[char], a: usize, b: usize) -> (r: bool)
    requires
        a <= b <= t@.len(),
    ensures
        r == all_digits(t@.subrange(a as int, b as int)),
{
    let mut i = a;
    while i < b
        invariant
            a <= i <= b <= t@.len(),
            all_digits(t@.subrange(a as int, i as int)),
        decreases b - i,
    {
        if !(t[i] >= '0' && t[i] <= '9') {
            assert(t@.subrange(a as int, b as int)[i - a] == t@[i as int]);
            return false;
        }
        assert(forall|k: int|
            0 <= k < i + 1 - a ==> #[trigger] t@.subrange(a as int, i + 1)[k] == t@[a + k]);
        i += 1;
    }
    true
}

/// Whether a coverage percentage is below `min` percent, decided exactly on
/// its decimal text: a value `I.F` is below a whole `min` exactly when its
/// integer part `I` is. `None` for a text that is not a plain decimal.
pub fn coverage_below(pct: &str, min: u8) -> (r: Option<bool>)
    ensures
        r == match decimal_int_part(pct@) {
            Some(ip) => Some(digits_value(ip) < min),
            None => None,
        },
{
    let t = chars_of(pct);
    let (end, ok) = match index_of(&t, '.', 0) {
        None => (t.len(), t.len() > 0 && digits_only(&t, 0, t.len())),
        Some(e) => (e, 0 < e && e + 1 < t.len() && digits_only(&t, 0, e) && digits_only(&t, e + 1, t.len())),
    };
    if !ok {
        return None;
    }
    let ip = slice_of(&t, 0, end);
    assert(t@.subrange(0, t@.len() as int) =~= t@);
    match parse_u64_exec(&ip) {
        Some(v) => Some(v < min as u64),
        None => Some(false),
    }
}

} // verus!
