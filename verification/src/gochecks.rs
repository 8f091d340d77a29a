//! The deterministic parts of the Go checks: scoping `go test` to the changed
//! packages (fail closed on hostile paths, quoted for `sh -c`), mapping package
//! import paths back to changed files, and locating `file.go:line` references.
use vstd::prelude::*;
use crate::paths::{
    eq_str, ext, ext_or_empty, index_from, index_of, rindex_before, rindex_of, safe_segment_chars,
    safe_segment_spec, trimmed_end,
};
use crate::retry::{digit_run, digit_run_end, digits_value_capped};
use crate::analysis::AnalyzerRun;
use crate::findings::push_str;
use crate::signatures::{bound, bound_spec};
use crate::text::{lines_of, lines_spec, trim, trim_exec};
use crate::text::{
    chars_of, digits_value, find_exec, find_from, has_prefix, has_prefix_exec, is_whitespace,
    is_ws, lower_seq, occurs_at, slice_of, sorted_insert, string_of, strictly_sorted, views_of,
};

verus! {

/// A path's parent directory: the text before its last `/` (trailing `/`s
/// ignored), empty for a bare file name.
pub open spec fn parent_dir(p: Seq<char>) -> Seq<char> {
    let e = trimmed_end(p, p.len() as int);
    match rindex_before(p, '/', e) {
        None => Seq::empty(),
        Some(i) => p.subrange(0, trimmed_end(p, i)),
    }
}

proof fn lemma_trimmed_end_range(p: Seq<char>, j: int)
    requires
        0 <= j <= p.len(),
    ensures
        0 <= trimmed_end(p, j) <= j,
    decreases j,
{
    if j > 0 && p[j - 1] == '/' {
        lemma_trimmed_end_range(p, j - 1);
    }
}

fn trim_slashes_end(p: &[char], j: usize) -> (e: usize)
    requires
        j <= p@.len(),
    ensures
        e == trimmed_end(p@, j as int),
        e <= j,
{
    let mut e = j;
    while e > 0 && p[e - 1] == '/'
        invariant
            e <= j <= p@.len(),
            trimmed_end(p@, j as int) == trimmed_end(p@, e as int),
        decreases e,
    {
        e -= 1;
    }
    e
}

pub fn parent_dir_exec(p: &[char]) -> (d: Vec<char>)
    ensures
        d@ == parent_dir(p@),
{
    let e = trim_slashes_end(p, p.len());
    match rindex_of(p, '/', e) {
        None => {
            let v: Vec<char> = Vec::new();
            assert(v@ =~= Seq::<char>::empty());
            v
        },
        Some(i) => {
            let k = trim_slashes_end(p, i);
            slice_of(p, 0, k)
        },
    }
}

/// Every `/`-separated segment of `dir` is a safe segment.
pub open spec fn safe_dir_spec(dir: Seq<char>) -> bool
    decreases dir.len(),
{
    match index_from(dir, '/', 0) {
        None => safe_segment_spec(dir),
        Some(i) => {
            if 0 <= i < dir.len() {
                safe_segment_spec(dir.subrange(0, i)) && safe_dir_spec(
                    dir.subrange(i + 1, dir.len() as int),
                )
            } else {
                false
            }
        },
    }
}

fn safe_dir_chars(dir: &[char]) -> (r: bool)
    ensures
        r == safe_dir_spec(dir@),
    decreases dir@.len(),
{
    let n = dir.len();
    match index_of(dir, '/', 0) {
        None => safe_segment_chars(dir),
        Some(i) => {
            let head = slice_of(dir, 0, i);
            if !safe_segment_chars(&head) {
                return false;
            }
            let tail = slice_of(dir, i + 1, dir.len());
            safe_dir_chars(&tail)
        },
    }
}

/// A relative dir safe to interpolate into a `go test` package pattern: only
/// `[A-Za-z0-9._-]` per `/`-separated segment, and no empty, `.`, `..` or
/// `-`-leading segment.
pub fn is_safe_dir(dir: &str) -> (r: bool)
    ensures
        r == safe_dir_spec(dir@),
{
    let v = chars_of(dir);
    safe_dir_chars(&v)
}

/// The `go test` scope a changed path contributes: `./...` for a root-level Go
/// file, `./<dir>/...` for a Go file in a safe dir, nothing otherwise.
pub open spec fn scope_entry(p: Seq<char>) -> Option<Seq<char>> {
    if lower_seq(ext_or_empty(p)) != "go"@ {
        None
    } else {
        let dir = parent_dir(p);
        if dir.len() == 0 {
            Some("./..."@)
        } else if safe_dir_spec(dir) {
            Some("./"@ + dir + "/..."@)
        } else {
            None
        }
    }
}

/// The scope entries of a list of changed paths.
pub open spec fn scope_set(cs: Seq<Seq<char>>) -> Set<Seq<char>>
    decreases cs.len(),
{
    if cs.len() == 0 {
        Set::empty()
    } else {
        let rest = scope_set(cs.drop_last());
        match scope_entry(cs.last()) {
            Some(e) => rest.insert(e),
            None => rest,
        }
    }
}

pub open spec fn strings_view(v: Seq<String>) -> Seq<Seq<char>> {
    v.map_values(|s: String| s@)
}

fn scope_entry_exec(p: &str) -> (r: Option<Vec<char>>)
    ensures
        match scope_entry(p@) {
            Some(e) => r matches Some(v) && v@ == e,
            None => r is None,
        },
{
    let e = ext(p);
    if !eq_str(&e, "go") {
        return None;
    }
    let pc = chars_of(p);
    let dir = parent_dir_exec(&pc);
    if dir.len() == 0 {
        return Some(chars_of("./..."));
    }
    if !safe_dir_chars(&dir) {
        return None;
    }
    let mut out = chars_of("./");
    let mut k: usize = 0;
    let ghost base = out@;
    while k < dir.len()
        invariant
            k <= dir@.len(),
            out@ == base + dir@.take(k as int),
        decreases dir.len() - k,
    {
        out.push(dir[k]);
        k += 1;
        assert(out@ =~= base + dir@.take(k as int));
    }
    assert(dir@.take(dir@.len() as int) =~= dir@);
    let tail = chars_of("/...");
    let ghost mid = out@;
    let mut k: usize = 0;
    while k < tail.len()
        invariant
            k <= tail@.len(),
            out@ == mid + tail@.take(k as int),
        decreases tail.len() - k,
    {
        out.push(tail[k]);
        k += 1;
        assert(out@ =~= mid + tail@.take(k as int));
    }
    assert(tail@.take(tail@.len() as int) =~= tail@);
    Some(out)
}

/// The distinct `go test` scope args of the changed `.go` files, sorted: one
/// `./dir/...` per package dir (`./...` at the root). A dir with an unsafe
/// segment is dropped (fail closed) so a hostile path never reaches the shell.
pub fn go_scope(changed: &[String]) -> (r: Vec<String>)
    ensures
        strictly_sorted(strings_view(r@)),
        strings_view(r@).to_set() == scope_set(strings_view(changed@)),
{
    let mut dirs: Vec<Vec<char>> = Vec::new();
    let mut i: usize = 0;
    while i < changed.len()
        invariant
            i <= changed@.len(),
            strictly_sorted(views_of(dirs@)),
            views_of(dirs@).to_set() == scope_set(strings_view(changed@).take(i as int)),
        decreases changed.len() - i,
    {
        let ghost cs = strings_view(changed@).take(i as int + 1);
        assert(cs.drop_last() =~= strings_view(changed@).take(i as int));
        assert(cs.last() == changed@[i as int]@);
        match scope_entry_exec(changed[i].as_str()) {
            Some(e) => {
                sorted_insert(&mut dirs, e);
            },
            None => {},
        }
        i += 1;
    }
    assert(strings_view(changed@).take(changed@.len() as int) =~= strings_view(changed@));
    let mut out: Vec<String> = Vec::new();
    let mut k: usize = 0;
    while k < dirs.len()
        invariant
            k <= dirs@.len(),
            out@.len() == k,
            strings_view(out@) =~= views_of(dirs@).take(k as int),
        decreases dirs.len() - k,
    {
        let sk = string_of(&dirs[k]);
        out.push(sk);
        assert(out@[k as int]@ == views_of(dirs@)[k as int]);
        k += 1;
        assert(strings_view(out@) =~= views_of(dirs@).take(k as int));
    }
    assert(views_of(dirs@).take(dirs@.len() as int) =~= views_of(dirs@));
    out
}

/// The body of a single-quoted shell word: each `'` becomes `'\''`.
pub open spec fn quote_body(s: Seq<char>) -> Seq<char>
    decreases s.len(),
{
    if s.len() == 0 {
        Seq::empty()
    } else {
        quote_body(s.drop_last()) + if s.last() == '\'' {
            seq!['\'', '\\', '\'', '\'']
        } else {
            seq![s.last()]
        }
    }
}

fn quote_into(out: &mut Vec<char>, s: &[char])
    ensures
        final(out)@ == old(out)@ + quote_body(s@),
{
    let ghost base = out@;
    let mut i: usize = 0;
    while i < s.len()
        invariant
            i <= s@.len(),
            out@ == base + quote_body(s@.take(i as int)),
        decreases s.len() - i,
    {
        let ghost t = s@.take(i as int + 1);
        assert(t.drop_last() =~= s@.take(i as int));
        if s[i] == '\'' {
            out.push('\'');
            out.push('\\');
            out.push('\'');
            out.push('\'');
        } else {
            out.push(s[i]);
        }
        i += 1;
        assert(out@ =~= base + quote_body(s@.take(i as int)));
    }
    assert(s@.take(s@.len() as int) =~= s@);
}

/// Single-quote a string for safe interpolation into an `sh -c` command line.
pub fn sh_quote(s: &str) -> (r: String)
    ensures
        r@ == seq!['\''] + quote_body(s@) + seq!['\''],
{
    let v = chars_of(s);
    let mut out: Vec<char> = Vec::new();
    out.push('\'');
    quote_into(&mut out, &v);
    out.push('\'');
    assert(out@ =~= seq!['\''] + quote_body(s@) + seq!['\'']);
    string_of(&out)
}

/// The quoted scope args joined by single spaces (the `go test` package list).
pub open spec fn quoted_scope_spec(dirs: Seq<Seq<char>>) -> Seq<char>
    decreases dirs.len(),
{
    if dirs.len() == 0 {
        Seq::empty()
    } else if dirs.len() == 1 {
        seq!['\''] + quote_body(dirs[0]) + seq!['\'']
    } else {
        quoted_scope_spec(dirs.drop_last()) + seq![' '] + seq!['\''] + quote_body(dirs.last())
            + seq!['\'']
    }
}

/// The package list handed to `go test`: each scope arg single-quoted, space-joined.
pub fn quoted_scope(dirs: &[String]) -> (r: String)
    ensures
        r@ == quoted_scope_spec(strings_view(dirs@)),
{
    let mut out: Vec<char> = Vec::new();
    let mut i: usize = 0;
    while i < dirs.len()
        invariant
            i <= dirs@.len(),
            out@ == quoted_scope_spec(strings_view(dirs@).take(i as int)),
        decreases dirs.len() - i,
    {
        let ghost t = strings_view(dirs@).take(i as int + 1);
        assert(t.drop_last() =~= strings_view(dirs@).take(i as int));
        assert(t.last() == dirs@[i as int]@);
        if i > 0 {
            out.push(' ');
        }
        out.push('\'');
        let d = chars_of(dirs[i].as_str());
        quote_into(&mut out, &d);
        out.push('\'');
        i += 1;
        if i == 1 {
            assert(out@ =~= quoted_scope_spec(t));
        } else {
            assert(out@ =~= quoted_scope_spec(t));
        }
    }
    assert(strings_view(dirs@).take(dirs@.len() as int) =~= strings_view(dirs@));
    string_of(&out)
}

/// `s` with every leading `c` removed.
pub open spec fn strip_leading(s: Seq<char>, c: char) -> Seq<char>
    decreases s.len(),
{
    if s.len() > 0 && s[0] == c {
        strip_leading(s.drop_first(), c)
    } else {
        s
    }
}

pub fn strip_leading_exec(s: &[char], c: char) -> (r: Vec<char>)
    ensures
        r@ == strip_leading(s@, c),
{
    let mut k: usize = 0;
    assert(s@.subrange(0, s@.len() as int) =~= s@);
    while k < s.len() && s[k] == c
        invariant
            k <= s@.len(),
            strip_leading(s@, c) == strip_leading(s@.subrange(k as int, s@.len() as int), c),
        decreases s.len() - k,
    {
        assert(s@.subrange(k as int, s@.len() as int).drop_first() =~= s@.subrange(
            k + 1,
            s@.len() as int,
        ));
        k += 1;
    }
    slice_of(s, k, s.len())
}

/// Map a package import path to its repo-relative dir by stripping the go.mod
/// module prefix (and the `/`s after it); an import outside the module (or an
/// empty module) is returned unchanged.
pub open spec fn rel_dir_spec(import: Seq<char>, module: Seq<char>) -> Seq<char> {
    if module.len() > 0 && has_prefix(import, module) {
        strip_leading(import.subrange(module.len() as int, import.len() as int), '/')
    } else {
        import
    }
}

pub fn rel_dir(import: &str, module: &str) -> (r: String)
    ensures
        r@ == rel_dir_spec(import@, module@),
{
    let i = chars_of(import);
    let m = chars_of(module);
    if m.len() > 0 && has_prefix_exec(&i, &m) {
        let rest = slice_of(&i, m.len(), i.len());
        let s = strip_leading_exec(&rest, '/');
        return string_of(&s);
    }
    string_of(&i)
}

/// The first changed `.go` file living directly in `dir`, from index `k` on.
pub open spec fn pkg_file_from(cs: Seq<Seq<char>>, dir: Seq<char>, k: int) -> Option<Seq<char>>
    decreases cs.len() - k,
{
    if k < 0 || k >= cs.len() {
        None
    } else if lower_seq(ext_or_empty(cs[k])) == "go"@ && parent_dir(cs[k]) == dir {
        Some(cs[k])
    } else {
        pkg_file_from(cs, dir, k + 1)
    }
}

/// A changed `.go` file directly in `dir` (so a coverage finding can anchor on a
/// real changed file and count as in the change); `("", false)` when none is.
pub fn pkg_file(changed: &[String], dir: &str) -> (r: (String, bool))
    ensures
        match pkg_file_from(strings_view(changed@), dir@, 0) {
            Some(p) => r.0@ == p && r.1,
            None => r.0@ == Seq::<char>::empty() && !r.1,
        },
{
    let d = chars_of(dir);
    let mut k: usize = 0;
    while k < changed.len()
        invariant
            k <= changed@.len(),
            d@ == dir@,
            pkg_file_from(strings_view(changed@), dir@, 0) == pkg_file_from(
                strings_view(changed@),
                dir@,
                k as int,
            ),
        decreases changed.len() - k,
    {
        let p = changed[k].as_str();
        assert(strings_view(changed@)[k as int] == p@);
        let e = ext(p);
        if eq_str(&e, "go") {
            let pc = chars_of(p);
            let pd = parent_dir_exec(&pc);
            if pd.len() == d.len() && has_prefix_exec(&pd, &d) {
                assert(pd@ =~= d@);
                return (changed[k].clone(), true);
            }
            assert(pd@ != d@) by {
                if pd@ == d@ {
                    assert(pd@.subrange(0, d@.len() as int) =~= d@);
                }
            }
        }
        k += 1;
    }
    (String::new(), false)
}

/// The first non-whitespace index at or after `i`.
pub open spec fn skip_ws_from(s: Seq<char>, i: int) -> int
    decreases s.len() - i,
{
    if 0 <= i < s.len() && is_ws(s[i]) {
        skip_ws_from(s, i + 1)
    } else {
        i
    }
}

/// The end of the non-whitespace run starting at `i`.
pub open spec fn token_end(s: Seq<char>, i: int) -> int
    decreases s.len() - i,
{
    if 0 <= i < s.len() && !is_ws(s[i]) {
        token_end(s, i + 1)
    } else {
        i
    }
}

pub proof fn lemma_skip_ws_range(s: Seq<char>, i: int)
    requires
        0 <= i <= s.len(),
    ensures
        i <= skip_ws_from(s, i) <= s.len(),
        skip_ws_from(s, i) < s.len() ==> !is_ws(s[skip_ws_from(s, i)]),
    decreases s.len() - i,
{
    if i < s.len() && is_ws(s[i]) {
        lemma_skip_ws_range(s, i + 1);
    }
}

pub proof fn lemma_token_end_range(s: Seq<char>, i: int)
    requires
        0 <= i <= s.len(),
    ensures
        i <= token_end(s, i) <= s.len(),
        i < s.len() && !is_ws(s[i]) ==> i < token_end(s, i),
    decreases s.len() - i,
{
    if i < s.len() && !is_ws(s[i]) {
        lemma_token_end_range(s, i + 1);
    }
}

/// A `path.go:NN` reference in one whitespace-separated token: the text through
/// the first `.go` (leading `/`s stripped) and the digits after its `:`, when
/// there are digits and they fit a `u32`.
pub open spec fn go_ref_in_token(tok: Seq<char>) -> Option<(Seq<char>, u32)> {
    match find_from(tok, ".go:"@, 0) {
        None => None,
        Some(idx) => {
            let path = tok.subrange(0, idx + 3);
            let rest = tok.subrange(idx + 4, tok.len() as int);
            let n = digit_run(rest, 0);
            let digits = rest.subrange(0, n as int);
            if n > 0 && digits_value(digits) <= u32::MAX {
                Some((strip_leading(path, '/'), digits_value(digits) as u32))
            } else {
                None
            }
        },
    }
}

/// The first token at or after `i` holding a `path.go:NN` reference.
pub open spec fn go_ref_from(s: Seq<char>, i: int) -> Option<(Seq<char>, u32)>
    decreases s.len() - i,
{
    if i < 0 || i > s.len() {
        None
    } else {
        let a = skip_ws_from(s, i);
        proof {
            lemma_skip_ws_range(s, i);
        }
        if a >= s.len() {
            None
        } else {
            let b = token_end(s, a);
            proof {
                lemma_token_end_range(s, a);
            }
            match go_ref_in_token(s.subrange(a, b)) {
                Some(r) => Some(r),
                None => go_ref_from(s, b),
            }
        }
    }
}

fn go_ref_in_token_exec(tok: &[char]) -> (r: Option<(Vec<char>, u32)>)
    ensures
        match go_ref_in_token(tok@) {
            Some((p, n)) => r matches Some((rp, rn)) && rp@ == p && rn == n,
            None => r is None,
        },
{
    let n = tok.len();
    let needle = chars_of(".go:");
    proof {
        reveal_strlit(".go:");
    }
    assert(needle@.len() == 4);
    match find_exec(tok, &needle, 0) {
        None => None,
        Some(idx) => {
            assert(occurs_at(tok@, needle@, idx as int));
            let path = slice_of(tok, 0, idx + 3);
            let rest = slice_of(tok, idx + 4, tok.len());
            let end = digit_run_end(&rest, 0);
            if end == 0 {
                return None;
            }
            let v = digits_value_capped(&rest, 0, end, 4294967295);
            if v > 4294967295 {
                return None;
            }
            let p = strip_leading_exec(&path, '/');
            Some((p, v as u32))
        },
    }
}

/// Extract an in-repo `path/to/file.go:line` reference from a report line: the
/// first whitespace-separated token that carries one.
pub fn go_file_line(line: &str) -> (r: Option<(String, u32)>)
    ensures
        match go_ref_from(line@, 0) {
            Some((p, n)) => r matches Some((rp, rn)) && rp@ == p && rn == n,
            None => r is None,
        },
{
    let s = chars_of(line);
    let mut i: usize = 0;
    while i <= s.len()
        invariant
            s@ == line@,
            i <= s@.len(),
            go_ref_from(line@, 0) == go_ref_from(s@, i as int),
        decreases s.len() - i,
    {
        let mut a = i;
        while a < s.len() && is_whitespace(s[a])
            invariant
                i <= a <= s@.len(),
                skip_ws_from(s@, i as int) == skip_ws_from(s@, a as int),
            decreases s.len() - a,
        {
            a += 1;
        }
        if a >= s.len() {
            return None;
        }
        let mut b = a;
        while b < s.len() && !is_whitespace(s[b])
            invariant
                a <= b <= s@.len(),
                token_end(s@, a as int) == token_end(s@, b as int),
            decreases s.len() - b,
        {
            b += 1;
        }
        proof {
            lemma_skip_ws_range(s@, i as int);
        }
        let tok = slice_of(&s, a, b);
        match go_ref_in_token_exec(&tok) {
            Some((p, n)) => {
                return Some((string_of(&p), n));
            },
            None => {},
        }
        assert(b > a);
        i = b;
    }
    None
}

/// The module path a `go.mod` text declares: from the first line that, trimmed,
/// starts with `module `, the rest trimmed; empty when there is none.
pub open spec fn module_from(ls: Seq<Seq<char>>, i: int) -> Seq<char>
    decreases ls.len() - i,
{
    if i < 0 || i >= ls.len() {
        Seq::empty()
    } else {
        let t = trim(ls[i]);
        if has_prefix(t, "module "@) {
            trim(t.subrange(7, t.len() as int))
        } else {
            module_from(ls, i + 1)
        }
    }
}

/// The module path declared by a `go.mod` text (empty when none is).
pub fn go_module(text: &str) -> (m: String)
    ensures
        m@ == module_from(lines_spec(text@), 0),
{
    let lines = lines_of(&chars_of(text));
    let ghost ls = views_of(lines@);
    let prefix = chars_of("module ");
    proof {
        reveal_strlit("module ");
    }
    let mut i: usize = 0;
    while i < lines.len()
        invariant
            i <= lines@.len(),
            ls == views_of(lines@),
            ls == lines_spec(text@),
            prefix@ == "module "@,
            module_from(ls, 0) == module_from(ls, i as int),
        decreases lines.len() - i,
    {
        assert(ls[i as int] == lines@[i as int]@);
        let t = trim_exec(&lines[i]);
        if has_prefix_exec(&t, &prefix) {
            proof {
                reveal_strlit("module ");
            }
            let rest = slice_of(&t, 7, t.len());
            return string_of(&trim_exec(&rest));
        }
        i += 1;
    }
    String::new()
}

/// The three `go test` checks.
#[derive(Debug, Clone, Copy, PartialEq, Eq, Structural)]
pub enum GoCheck {
    /// `go test -race`: data races.
    Race,
    /// `go test -bench`: benchmarks.
    Bench,
    /// `go test -cover`: statement coverage.
    Cover,
}

/// The run label of a check.
pub open spec fn go_check_label(c: GoCheck) -> Seq<char> {
    match c {
        GoCheck::Race => "go test -race"@,
        GoCheck::Bench => "go test -bench"@,
        GoCheck::Cover => "go test -cover"@,
    }
}

/// The command of a check over an already-quoted package scope: tests run
/// uncached (`-count=1`) and without vet; benchmarks run no unit tests.
pub open spec fn go_check_cmd_spec(c: GoCheck, scope: Seq<char>) -> Seq<char> {
    match c {
        GoCheck::Race => "go test -race -count=1 -run . -vet=off "@ + scope,
        GoCheck::Bench => "go test -bench=. -benchmem -run=^$ -count=1 -vet=off "@ + scope,
        GoCheck::Cover => "go test -cover -run . -count=1 -vet=off "@ + scope,
    }
}

/// The shell command of check `c` over the quoted package scope `scope`.
pub fn go_check_cmd(c: GoCheck, scope: &str) -> (r: String)
    ensures
        r@ == go_check_cmd_spec(c, scope@),
{
    let mut v: Vec<char> = match c {
        GoCheck::Race => chars_of("go test -race -count=1 -run . -vet=off "),
        GoCheck::Bench => chars_of("go test -bench=. -benchmem -run=^$ -count=1 -vet=off "),
        GoCheck::Cover => chars_of("go test -cover -run . -count=1 -vet=off "),
    };
    push_str(&mut v, scope);
    string_of(&v)
}

/// The run record of check `c` from how its `go test` ended: an exec error
/// fails it (the error bounded), a timeout times it out, a missing toolchain
/// (exit 127) skips it; anything else is `ok` with the `found` findings its
/// output yielded (a failing test or a race exits non-zero, which is normal).
pub fn go_check_run(c: GoCheck, exec_error: Option<String>, timed_out: bool, exit_code: i32, found: usize) -> (r: AnalyzerRun)
    ensures
        r.tool@ == go_check_label(c),
        r.duration_ms == 0,
        exec_error matches Some(e) ==> r.status@ == "failed"@ && r.reason@ == bound_spec(e@, 120) && r.finding_count == 0,
        exec_error is None && timed_out ==> r.status@ == "timeout"@ && r.reason@ == Seq::<char>::empty() && r.finding_count == 0,
        exec_error is None && !timed_out && exit_code == 127 ==> r.status@ == "skipped"@ && r.reason@
            == "go toolchain not found on PATH"@ && r.finding_count == 0,
        exec_error is None && !timed_out && exit_code != 127 ==> r.status@ == "ok"@ && r.reason@ == Seq::<char>::empty()
            && r.finding_count == if found > u32::MAX { u32::MAX as int } else { found as int },
{
    let tool = match c {
        GoCheck::Race => chars_of("go test -race"),
        GoCheck::Bench => chars_of("go test -bench"),
        GoCheck::Cover => chars_of("go test -cover"),
    };
    let (status, reason, count): (Vec<char>, Vec<char>, u32) = match exec_error {
        Some(e) => (chars_of("failed"), bound(&chars_of(e.as_str()), 120), 0),
        None => if timed_out {
            (chars_of("timeout"), Vec::new(), 0)
        } else if exit_code == 127 {
            (chars_of("skipped"), chars_of("go toolchain not found on PATH"), 0)
        } else {
            (chars_of("ok"), Vec::new(), if found > 0xffff_ffff { 0xffff_ffff } else { found as u32 })
        },
    };
    AnalyzerRun { tool: string_of(&tool), status: string_of(&status), reason: string_of(&reason), duration_ms: 0, finding_count: count }
}

} // verus!
