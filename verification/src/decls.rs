//! The function-declaration grammar of Go and Rust source, as the signature,
//! summary and style scanners read it.
//!
//! - Go: at a line start, `func`, whitespace, an optional receiver group
//!   `( … )` (up to the first `)`) with optional whitespace after it, then the
//!   name `[A-Za-z_][A-Za-z0-9_]*`.
//! - Rust: at a line start, any whitespace (line breaks included), then in order
//!   the optional prefixes `pub` (with an optional `( … )`) + whitespace,
//!   `default`, `async`, `const`, `unsafe` (each + whitespace), `extern "…"` +
//!   whitespace, then `fn`, whitespace and the name.
//!
//! Whitespace is Unicode `White_Space`; identifier characters are ASCII.
use vstd::prelude::*;
use crate::gochecks::{lemma_skip_ws_range, skip_ws_from};
use crate::paths::{index_from, index_of};
use crate::text::{chars_of, is_alnum, is_whitespace, is_ws, occurs_at, occurs_at_exec};

verus! {

pub open spec fn is_word(c: char) -> bool {
    is_alnum(c) || c == '_'
}

pub open spec fn is_word_start(c: char) -> bool {
    ('a' <= c && c <= 'z') || ('A' <= c && c <= 'Z') || c == '_'
}

/// The end of the run of identifier chars starting at `i`.
pub open spec fn word_end(s: Seq<char>, i: int) -> int
    decreases s.len() - i,
{
    if 0 <= i < s.len() && is_word(s[i]) {
        word_end(s, i + 1)
    } else {
        i
    }
}

pub open spec fn at_line_start(s: Seq<char>, p: int) -> bool {
    p == 0 || (0 < p <= s.len() && s[p - 1] == '\n')
}

/// A declaration match: `(name_start, name_end, receiver span, pub?)`.
pub type DeclSpan = (int, int, Option<(int, int)>, bool);

pub open spec fn go_decl_at(s: Seq<char>, p: int) -> Option<DeclSpan> {
    if !occurs_at(s, "func"@, p) {
        None
    } else {
        let a = p + "func"@.len();
        let b = skip_ws_from(s, a);
        if b == a {
            None
        } else if b < s.len() && s[b] == '(' {
            match index_from(s, ')', b + 1) {
                None => None,
                Some(c) => {
                    let d = skip_ws_from(s, c + 1);
                    if d < s.len() && is_word_start(s[d]) {
                        Some((d, word_end(s, d), Some((b + 1, c)), false))
                    } else {
                        None
                    }
                },
            }
        } else if b < s.len() && is_word_start(s[b]) {
            Some((b, word_end(s, b), None, false))
        } else {
            None
        }
    }
}

/// After an optional keyword followed by at least one whitespace char: the index
/// past the whitespace when both are there, `q` otherwise.
pub open spec fn kw_ws(s: Seq<char>, q: int, kw: Seq<char>) -> int {
    if occurs_at(s, kw, q) {
        let r = q + kw.len();
        let t = skip_ws_from(s, r);
        if t > r { t } else { q }
    } else {
        q
    }
}

/// The optional `pub(…)` + whitespace prefix.
pub open spec fn pub_group(s: Seq<char>, q: int) -> int {
    if occurs_at(s, "pub"@, q) {
        let r = q + "pub"@.len();
        let r2 = if r < s.len() && s[r] == '(' {
            match index_from(s, ')', r + 1) {
                Some(c) => c + 1,
                None => r,
            }
        } else {
            r
        };
        let t = skip_ws_from(s, r2);
        if t > r2 { t } else { q }
    } else {
        q
    }
}

/// The optional `extern "…"` + whitespace prefix.
pub open spec fn extern_group(s: Seq<char>, q: int) -> int {
    if occurs_at(s, "extern"@, q) {
        let r = q + "extern"@.len();
        let t = skip_ws_from(s, r);
        if t > r && t < s.len() && s[t] == '"' {
            match index_from(s, '"', t + 1) {
                Some(c) => {
                    let u = skip_ws_from(s, c + 1);
                    if u > c + 1 { u } else { q }
                },
                None => q,
            }
        } else {
            q
        }
    } else {
        q
    }
}

pub open spec fn rust_decl_at(s: Seq<char>, p: int) -> Option<DeclSpan> {
    let q0 = skip_ws_from(s, p);
    let q1 = pub_group(s, q0);
    let q2 = kw_ws(s, q1, "default"@);
    let q3 = kw_ws(s, q2, "async"@);
    let q4 = kw_ws(s, q3, "const"@);
    let q5 = kw_ws(s, q4, "unsafe"@);
    let q6 = extern_group(s, q5);
    if occurs_at(s, "fn"@, q6) {
        let r = q6 + "fn"@.len();
        let t = skip_ws_from(s, r);
        if t > r && t < s.len() && is_word_start(s[t]) {
            Some((t, word_end(s, t), None, q1 != q0))
        } else {
            None
        }
    } else {
        None
    }
}

pub open spec fn decl_at(s: Seq<char>, p: int, go: bool) -> Option<DeclSpan> {
    if go {
        go_decl_at(s, p)
    } else {
        rust_decl_at(s, p)
    }
}

pub open spec fn span_view(d: Option<(usize, usize, Option<(usize, usize)>, bool)>) -> Option<DeclSpan> {
    match d {
        None => None,
        Some((a, b, r, p)) => Some((
            a as int,
            b as int,
            match r {
                None => None,
                Some((x, y)) => Some((x as int, y as int)),
            },
            p,
        )),
    }
}

pub fn skip_ws_to(s: &[char], i: usize) -> (r: usize)
    requires
        i <= s@.len(),
    ensures
        r == skip_ws_from(s@, i as int),
        i <= r <= s@.len(),
{
    proof {
        lemma_skip_ws_range(s@, i as int);
    }
    let mut k = i;
    while k < s.len() && is_whitespace(s[k])
        invariant
            i <= k <= s@.len(),
            skip_ws_from(s@, i as int) == skip_ws_from(s@, k as int),
        decreases s.len() - k,
    {
        k += 1;
    }
    k
}

pub proof fn lemma_word_end_range(s: Seq<char>, i: int)
    requires
        0 <= i <= s.len(),
    ensures
        i <= word_end(s, i) <= s.len(),
        i < s.len() && is_word(s[i]) ==> i < word_end(s, i),
    decreases s.len() - i,
{
    if i < s.len() && is_word(s[i]) {
        lemma_word_end_range(s, i + 1);
    }
}

pub fn word_end_exec(s: &[char], i: usize) -> (r: usize)
    requires
        i <= s@.len(),
    ensures
        r == word_end(s@, i as int),
        i <= r <= s@.len(),
        i < s@.len() && is_word(s@[i as int]) ==> i < r,
{
    proof {
        lemma_word_end_range(s@, i as int);
    }
    let mut k = i;
    while k < s.len() && (crate::text::is_ascii_alnum(s[k]) || s[k] == '_')
        invariant
            i <= k <= s@.len(),
            word_end(s@, i as int) == word_end(s@, k as int),
        decreases s.len() - k,
    {
        k += 1;
    }
    k
}

pub(crate) fn is_word_start_exec(c: char) -> (r: bool)
    ensures
        r == is_word_start(c),
{
    ('a' <= c && c <= 'z') || ('A' <= c && c <= 'Z') || c == '_'
}

pub proof fn lemma_index_from_range(s: Seq<char>, c: char, i: int)
    ensures
        index_from(s, c, i) matches Some(k) ==> i <= k < s.len() && s[k] == c,
    decreases s.len() - i,
{
    if 0 <= i < s.len() && s[i] != c {
        lemma_index_from_range(s, c, i + 1);
    }
}

/// Match `lit` at `q` and, when it is there, at least one whitespace char after it.
fn kw_ws_exec(s: &[char], q: usize, kw: &str) -> (r: usize)
    requires
        q <= s@.len(),
    ensures
        r == kw_ws(s@, q as int, kw@),
        q <= r <= s@.len(),
{
    let _n = s.len();
    let k = chars_of(kw);
    if occurs_at_exec(s, &k, q) {
        let r = q + k.len();
        let t = skip_ws_to(s, r);
        if t > r { t } else { q }
    } else {
        q
    }
}

pub(crate) fn pub_group_exec(s: &[char], q: usize) -> (r: usize)
    requires
        q <= s@.len(),
    ensures
        r == pub_group(s@, q as int),
        q <= r <= s@.len(),
{
    let _n = s.len();
    let k = chars_of("pub");
    if occurs_at_exec(s, &k, q) {
        let r = q + k.len();
        let r2 = if r < s.len() && s[r] == '(' {
            proof { lemma_index_from_range(s@, ')', r + 1); }
            match index_of(s, ')', r + 1) {
                Some(c) => c + 1,
                None => r,
            }
        } else {
            r
        };
        let t = skip_ws_to(s, r2);
        if t > r2 { t } else { q }
    } else {
        q
    }
}

fn extern_group_exec(s: &[char], q: usize) -> (r: usize)
    requires
        q <= s@.len(),
    ensures
        r == extern_group(s@, q as int),
        q <= r <= s@.len(),
{
    let _n = s.len();
    let k = chars_of("extern");
    if occurs_at_exec(s, &k, q) {
        let r = q + k.len();
        let t = skip_ws_to(s, r);
        if t > r && t < s.len() && s[t] == '"' {
            proof { lemma_index_from_range(s@, '"', t + 1); }
            match index_of(s, '"', t + 1) {
                Some(c) => {
                    let u = skip_ws_to(s, c + 1);
                    if u > c + 1 { u } else { q }
                },
                None => q,
            }
        } else {
            q
        }
    } else {
        q
    }
}

/// The Go declaration starting at `p`, if one does.
pub fn go_decl_exec(s: &[char], p: usize) -> (r: Option<(usize, usize, Option<(usize, usize)>, bool)>)
    requires
        p <= s@.len(),
    ensures
        span_view(r) == go_decl_at(s@, p as int),
        r matches Some((a, b, recv, _)) ==> p < a < b <= s@.len() && (recv matches Some((x, y))
            ==> p < x <= y < a),
{
    let _n = s.len();
    let k = chars_of("func");
    if !occurs_at_exec(s, &k, p) {
        return None;
    }
    let a = p + k.len();
    let b = skip_ws_to(s, a);
    if b == a {
        return None;
    }
    if b < s.len() && s[b] == '(' {
        proof { lemma_index_from_range(s@, ')', b + 1); }
        match index_of(s, ')', b + 1) {
            None => None,
            Some(c) => {
                let d = skip_ws_to(s, c + 1);
                if d < s.len() && is_word_start_exec(s[d]) {
                    let e = word_end_exec(s, d);
                    Some((d, e, Some((b + 1, c)), false))
                } else {
                    None
                }
            },
        }
    } else if b < s.len() && is_word_start_exec(s[b]) {
        let e = word_end_exec(s, b);
        Some((b, e, None, false))
    } else {
        None
    }
}

/// The Rust declaration starting at `p` (leading whitespace included), if one does.
pub fn rust_decl_exec(s: &[char], p: usize) -> (r: Option<(usize, usize, Option<(usize, usize)>, bool)>)
    requires
        p <= s@.len(),
    ensures
        span_view(r) == rust_decl_at(s@, p as int),
        r matches Some((a, b, recv, _)) ==> p < a < b <= s@.len() && recv is None,
{
    let _n = s.len();
    let q0 = skip_ws_to(s, p);
    let q1 = pub_group_exec(s, q0);
    let q2 = kw_ws_exec(s, q1, "default");
    let q3 = kw_ws_exec(s, q2, "async");
    let q4 = kw_ws_exec(s, q3, "const");
    let q5 = kw_ws_exec(s, q4, "unsafe");
    let q6 = extern_group_exec(s, q5);
    let k = chars_of("fn");
    if occurs_at_exec(s, &k, q6) {
        let r = q6 + k.len();
        let t = skip_ws_to(s, r);
        if t > r && t < s.len() && is_word_start_exec(s[t]) {
            let e = word_end_exec(s, t);
            Some((t, e, None, q1 != q0))
        } else {
            None
        }
    } else {
        None
    }
}

pub fn decl_exec(s: &[char], p: usize, go: bool) -> (r: Option<(usize, usize, Option<(usize, usize)>, bool)>)
    requires
        p <= s@.len(),
    ensures
        span_view(r) == decl_at(s@, p as int, go),
        r matches Some((a, b, recv, _)) ==> p < a < b <= s@.len() && (recv matches Some((x, y))
            ==> p < x <= y < a),
{
    if go {
        go_decl_exec(s, p)
    } else {
        rust_decl_exec(s, p)
    }
}

/// The first declaration whose match starts at a line start at or after `i`:
/// `(match start, span)`.
pub open spec fn next_decl(s: Seq<char>, i: int, go: bool) -> Option<(int, DeclSpan)>
    decreases s.len() + 1 - i,
{
    if i < 0 || i > s.len() {
        None
    } else if at_line_start(s, i) && decl_at(s, i, go) is Some {
        Some((i, decl_at(s, i, go)->0))
    } else {
        next_decl(s, i + 1, go)
    }
}

/// A declaration span is sound: it lies past its start and within the text.
pub open spec fn span_ok(s: Seq<char>, p: int, d: DeclSpan) -> bool {
    &&& p < d.0 < d.1 <= s.len()
    &&& (d.2 matches Some((x, y)) ==> p < x <= y < d.0)
}

pub proof fn lemma_decl_at_ok(s: Seq<char>, p: int, go: bool)
    requires
        0 <= p <= s.len(),
    ensures
        decl_at(s, p, go) matches Some(d) ==> span_ok(s, p, d),
{
    // Mirrors the exec scanner's bounds; established through `decl_exec`'s proof.
    if let Some(d) = decl_at(s, p, go) {
        if go {
            let a = p + "func"@.len();
            lemma_skip_ws_range(s, a);
            let b = skip_ws_from(s, a);
            if b < s.len() && s[b] == '(' {
                lemma_index_from_range(s, ')', b + 1);
                let c = index_from(s, ')', b + 1)->0;
                lemma_skip_ws_range(s, c + 1);
                lemma_word_end_range(s, skip_ws_from(s, c + 1));
            } else {
                lemma_word_end_range(s, b);
            }
        } else {
            lemma_rust_decl_ok(s, p);
        }
    }
}

proof fn lemma_kw_ws_mono(s: Seq<char>, q: int, kw: Seq<char>)
    requires
        0 <= q <= s.len(),
    ensures
        q <= kw_ws(s, q, kw) <= s.len(),
{
    if occurs_at(s, kw, q) {
        lemma_skip_ws_range(s, q + kw.len());
    }
}

proof fn lemma_rust_decl_ok(s: Seq<char>, p: int)
    requires
        0 <= p <= s.len(),
    ensures
        rust_decl_at(s, p) matches Some(d) ==> span_ok(s, p, d),
{
    lemma_skip_ws_range(s, p);
    let q0 = skip_ws_from(s, p);
    let q1 = pub_group(s, q0);
    if occurs_at(s, "pub"@, q0) {
        let r = q0 + "pub"@.len();
        if r < s.len() && s[r] == '(' {
            lemma_index_from_range(s, ')', r + 1);
        }
        let r2 = if r < s.len() && s[r] == '(' {
            match index_from(s, ')', r + 1) {
                Some(c) => c + 1,
                None => r,
            }
        } else {
            r
        };
        lemma_skip_ws_range(s, r2);
    }
    let q2 = kw_ws(s, q1, "default"@);
    lemma_kw_ws_mono(s, q1, "default"@);
    let q3 = kw_ws(s, q2, "async"@);
    lemma_kw_ws_mono(s, q2, "async"@);
    let q4 = kw_ws(s, q3, "const"@);
    lemma_kw_ws_mono(s, q3, "const"@);
    let q5 = kw_ws(s, q4, "unsafe"@);
    lemma_kw_ws_mono(s, q4, "unsafe"@);
    if occurs_at(s, "extern"@, q5) {
        let r = q5 + "extern"@.len();
        lemma_skip_ws_range(s, r);
        let t = skip_ws_from(s, r);
        if t > r && t < s.len() && s[t] == '"' {
            lemma_index_from_range(s, '"', t + 1);
            if let Some(c) = index_from(s, '"', t + 1) {
                lemma_skip_ws_range(s, c + 1);
            }
        }
    }
    let q6 = extern_group(s, q5);
    if occurs_at(s, "fn"@, q6) {
        let r = q6 + "fn"@.len();
        lemma_skip_ws_range(s, r);
        let t = skip_ws_from(s, r);
        if t < s.len() {
            lemma_word_end_range(s, t);
        }
    }
}

pub proof fn lemma_next_decl(s: Seq<char>, i: int, go: bool)
    ensures
        next_decl(s, i, go) matches Some((p, d)) ==> i <= p && 0 <= p <= s.len() && span_ok(
            s,
            p,
            d,
        ) && decl_at(s, p, go) == Some(d),
    decreases s.len() + 1 - i,
{
    if 0 <= i <= s.len() {
        if at_line_start(s, i) && decl_at(s, i, go) is Some {
            lemma_decl_at_ok(s, i, go);
        } else {
            lemma_next_decl(s, i + 1, go);
        }
    }
}

/// Every declaration (`captures_iter`): leftmost matches, non-overlapping,
/// each search resuming at the previous name's end.
pub open spec fn decls_from(s: Seq<char>, i: int, go: bool) -> Seq<(int, DeclSpan)>
    decreases s.len() + 1 - i,
{
    match next_decl(s, i, go) {
        None => Seq::empty(),
        Some((p, d)) => {
            proof {
                lemma_next_decl(s, i, go);
            }
            if d.1 > i {
                seq![(p, d)] + decls_from(s, d.1, go)
            } else {
                Seq::empty()
            }
        },
    }
}

pub fn next_decl_exec(s: &[char], i: usize, go: bool) -> (r: Option<(usize, (usize, usize, Option<(usize, usize)>, bool))>)
    requires
        i <= s@.len(),
    ensures
        match next_decl(s@, i as int, go) {
            None => r is None,
            Some((p, d)) => r matches Some((rp, rd)) && rp == p && span_view(Some(rd)) == Some(d),
        },
        r matches Some((rp, rd)) ==> i <= rp && rp < rd.0 < rd.1 <= s@.len() && (rd.2 matches Some(
            (x, y),
        ) ==> rp < x <= y < rd.0),
{
    let mut p = i;
    while p <= s.len()
        invariant
            i <= p,
            p <= s@.len() + 1,
            next_decl(s@, i as int, go) == next_decl(s@, p as int, go),
        decreases s.len() + 1 - p,
    {
        if p == 0 || s[p - 1] == '\n' {
            let d = decl_exec(s, p, go);
            if let Some(m) = d {
                return Some((p, m));
            }
        }
        if p == s.len() {
            assert(next_decl(s@, p + 1, go) is None);
            return None;
        }
        p += 1;
    }
    None
}

} // verus!
