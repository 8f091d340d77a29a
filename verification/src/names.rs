//! The variable and constant declarations of Go and Rust source, as the style
//! fingerprint counts their naming case.
//!
//! - Go variable: at a line start, optional whitespace, `var`, whitespace and
//!   the name; or, at a word boundary, the name; either way followed by
//!   optional whitespace and `:=`.
//! - Go constant: at a line start, optional whitespace, `const`, whitespace,
//!   the name.
//! - Rust variable: at a word boundary, `let`, whitespace, an optional `mut` +
//!   whitespace, the name.
//! - Rust constant/static: at a line start, optional whitespace, an optional
//!   `pub(…)` + whitespace, `const` or `static`, whitespace, an optional `mut`
//!   + whitespace, the name.
//!
//! Names are `[A-Za-z_][A-Za-z0-9_]*`; matches are found leftmost first, each
//! search resuming at the end of the previous match.
use vstd::prelude::*;
use crate::decls::{
    at_line_start, is_word, is_word_start, is_word_start_exec, lemma_word_end_range, pub_group,
    pub_group_exec, skip_ws_to, word_end, word_end_exec,
};
use crate::gochecks::{lemma_skip_ws_range, skip_ws_from};
use crate::text::{chars_of, occurs_at, occurs_at_exec, slice_of, views_of};

verus! {

/// Which declaration form is being looked for.
#[derive(PartialEq, Eq, Structural, Clone, Copy)]
pub enum NameGrammar {
    GoVar,
    GoConst,
    RustVar,
    RustConst,
    Declaration,
}

pub open spec fn is_word_at(s: Seq<char>, i: int) -> bool {
    0 <= i < s.len() && is_word(s[i])
}

/// A name at `c`, when an identifier starts there: `(start, end)`.
pub open spec fn name_at(s: Seq<char>, c: int) -> Option<(int, int)> {
    if 0 <= c < s.len() && is_word_start(s[c]) {
        Some((c, word_end(s, c)))
    } else {
        None
    }
}

/// After `let`/`const`/`static` and its whitespace at `c`: an optional `mut` +
/// whitespace, then the name (`mut` itself being the name when nothing
/// name-like follows it).
pub open spec fn mut_then_name(s: Seq<char>, c: int) -> Option<(int, int)> {
    if occurs_at(s, "mut"@, c) {
        let d = c + 3;
        let e = skip_ws_from(s, d);
        if e > d && name_at(s, e) is Some {
            name_at(s, e)
        } else {
            name_at(s, c)
        }
    } else {
        name_at(s, c)
    }
}

/// `kw` at `a` followed by at least one whitespace char: the index past it.
pub open spec fn kw_then_ws(s: Seq<char>, a: int, kw: Seq<char>) -> Option<int> {
    if occurs_at(s, kw, a) {
        let b = a + kw.len();
        let c = skip_ws_from(s, b);
        if c > b {
            Some(c)
        } else {
            None
        }
    } else {
        None
    }
}

/// A Go `:=` after optional whitespace from `e`: the index past it.
pub open spec fn walrus_after(s: Seq<char>, e: int) -> Option<int> {
    let f = skip_ws_from(s, e);
    if occurs_at(s, ":="@, f) {
        Some(f + 2)
    } else {
        None
    }
}

/// A declaration keyword (`fn`, `func`, `def`, `class`, `struct`, `type`,
/// `trait`, `interface`, `enum`, `impl`) at `p` followed by whitespace: the
/// index past the whitespace.
pub open spec fn decl_keyword_then_ws(s: Seq<char>, p: int) -> Option<int> {
    if kw_then_ws(s, p, "fn"@) is Some {
        kw_then_ws(s, p, "fn"@)
    } else if kw_then_ws(s, p, "func"@) is Some {
        kw_then_ws(s, p, "func"@)
    } else if kw_then_ws(s, p, "def"@) is Some {
        kw_then_ws(s, p, "def"@)
    } else if kw_then_ws(s, p, "class"@) is Some {
        kw_then_ws(s, p, "class"@)
    } else if kw_then_ws(s, p, "struct"@) is Some {
        kw_then_ws(s, p, "struct"@)
    } else if kw_then_ws(s, p, "type"@) is Some {
        kw_then_ws(s, p, "type"@)
    } else if kw_then_ws(s, p, "trait"@) is Some {
        kw_then_ws(s, p, "trait"@)
    } else if kw_then_ws(s, p, "interface"@) is Some {
        kw_then_ws(s, p, "interface"@)
    } else if kw_then_ws(s, p, "enum"@) is Some {
        kw_then_ws(s, p, "enum"@)
    } else {
        kw_then_ws(s, p, "impl"@)
    }
}

fn decl_keyword_then_ws_exec(s: &[char], p: usize) -> (r: Option<usize>)
    requires
        p <= s@.len(),
    ensures
        match r {
            None => decl_keyword_then_ws(s@, p as int) is None,
            Some(c) => decl_keyword_then_ws(s@, p as int) == Some(c as int),
        },
        r matches Some(c) ==> p < c <= s@.len(),
{
    if let Some(c) = kw_then_ws_exec(s, p, "fn") {
        return Some(c);
    }
    if let Some(c) = kw_then_ws_exec(s, p, "func") {
        return Some(c);
    }
    if let Some(c) = kw_then_ws_exec(s, p, "def") {
        return Some(c);
    }
    if let Some(c) = kw_then_ws_exec(s, p, "class") {
        return Some(c);
    }
    if let Some(c) = kw_then_ws_exec(s, p, "struct") {
        return Some(c);
    }
    if let Some(c) = kw_then_ws_exec(s, p, "type") {
        return Some(c);
    }
    if let Some(c) = kw_then_ws_exec(s, p, "trait") {
        return Some(c);
    }
    if let Some(c) = kw_then_ws_exec(s, p, "interface") {
        return Some(c);
    }
    if let Some(c) = kw_then_ws_exec(s, p, "enum") {
        return Some(c);
    }
    kw_then_ws_exec(s, p, "impl")
}

/// The match of `g` starting at `p`: `(name start, name end, match end)`.
pub open spec fn grammar_at(g: NameGrammar, s: Seq<char>, p: int) -> Option<(int, int, int)> {
    match g {
        NameGrammar::GoVar => {
            let alt1 = if at_line_start(s, p) {
                match kw_then_ws(s, skip_ws_from(s, p), "var"@) {
                    Some(c) => match name_at(s, c) {
                        Some((ns, ne)) => match walrus_after(s, ne) {
                            Some(end) => Some((ns, ne, end)),
                            None => None,
                        },
                        None => None,
                    },
                    None => None,
                }
            } else {
                None
            };
            if alt1 is Some {
                alt1
            } else if !is_word_at(s, p - 1) {
                match name_at(s, p) {
                    Some((ns, ne)) => match walrus_after(s, ne) {
                        Some(end) => Some((ns, ne, end)),
                        None => None,
                    },
                    None => None,
                }
            } else {
                None
            }
        },
        NameGrammar::GoConst => {
            if at_line_start(s, p) {
                match kw_then_ws(s, skip_ws_from(s, p), "const"@) {
                    Some(c) => match name_at(s, c) {
                        Some((ns, ne)) => Some((ns, ne, ne)),
                        None => None,
                    },
                    None => None,
                }
            } else {
                None
            }
        },
        NameGrammar::RustVar => {
            if !is_word_at(s, p - 1) {
                match kw_then_ws(s, p, "let"@) {
                    Some(c) => match mut_then_name(s, c) {
                        Some((ns, ne)) => Some((ns, ne, ne)),
                        None => None,
                    },
                    None => None,
                }
            } else {
                None
            }
        },
        NameGrammar::RustConst => {
            if at_line_start(s, p) {
                let q = pub_group(s, skip_ws_from(s, p));
                let c = match kw_then_ws(s, q, "const"@) {
                    Some(c) => Some(c),
                    None => kw_then_ws(s, q, "static"@),
                };
                match c {
                    Some(c) => match mut_then_name(s, c) {
                        Some((ns, ne)) => Some((ns, ne, ne)),
                        None => None,
                    },
                    None => None,
                }
            } else {
                None
            }
        },
        NameGrammar::Declaration => {
            if is_word_at(s, p - 1) {
                None
            } else {
                match decl_keyword_then_ws(s, p) {
                    Some(c) => match name_at(s, c) {
                        Some((ns, ne)) => Some((ns, ne, ne)),
                        None => None,
                    },
                    None => None,
                }
            }
        },
    }
}

/// The first match of `g` starting at or after `i`.
pub open spec fn next_match(g: NameGrammar, s: Seq<char>, i: int) -> Option<(int, int, int)>
    decreases s.len() + 1 - i,
{
    if i < 0 || i > s.len() {
        None
    } else if grammar_at(g, s, i) is Some {
        grammar_at(g, s, i)
    } else {
        next_match(g, s, i + 1)
    }
}

/// The names of every match from `i` on (`captures_iter`).
pub open spec fn names_from(g: NameGrammar, s: Seq<char>, i: int) -> Seq<Seq<char>>
    decreases s.len() + 1 - i,
{
    match next_match(g, s, i) {
        None => Seq::empty(),
        Some((ns, ne, end)) => if i < end <= s.len() && 0 <= ns <= ne <= s.len() {
            seq![s.subrange(ns, ne)] + names_from(g, s, end)
        } else {
            Seq::empty()
        },
    }
}

fn name_at_exec(s: &[char], c: usize) -> (r: Option<(usize, usize)>)
    requires
        c <= s@.len(),
    ensures
        match r {
            None => name_at(s@, c as int) is None,
            Some((a, b)) => name_at(s@, c as int) == Some((a as int, b as int)),
        },
        r matches Some((a, b)) ==> c == a < b <= s@.len(),
{
    let _n = s.len();
    if c < s.len() && is_word_start_exec(s[c]) {
        let e = word_end_exec(s, c);
        Some((c, e))
    } else {
        None
    }
}

fn kw_then_ws_exec(s: &[char], a: usize, kw: &str) -> (r: Option<usize>)
    requires
        a <= s@.len(),
    ensures
        match r {
            None => kw_then_ws(s@, a as int, kw@) is None,
            Some(c) => kw_then_ws(s@, a as int, kw@) == Some(c as int),
        },
        r matches Some(c) ==> a < c <= s@.len(),
{
    let _n = s.len();
    let k = chars_of(kw);
    if occurs_at_exec(s, &k, a) {
        let b = a + k.len();
        let c = skip_ws_to(s, b);
        if c > b {
            Some(c)
        } else {
            None
        }
    } else {
        None
    }
}

fn mut_then_name_exec(s: &[char], c: usize) -> (r: Option<(usize, usize)>)
    requires
        c <= s@.len(),
    ensures
        match r {
            None => mut_then_name(s@, c as int) is None,
            Some((a, b)) => mut_then_name(s@, c as int) == Some((a as int, b as int)),
        },
        r matches Some((a, b)) ==> c <= a < b <= s@.len(),
{
    let _n = s.len();
    let k = chars_of("mut");
    proof {
        reveal_strlit("mut");
    }
    if occurs_at_exec(s, &k, c) {
        let d = c + 3;
        let e = skip_ws_to(s, d);
        if e > d {
            if let Some(m) = name_at_exec(s, e) {
                return Some(m);
            }
        }
        name_at_exec(s, c)
    } else {
        name_at_exec(s, c)
    }
}

fn walrus_after_exec(s: &[char], e: usize) -> (r: Option<usize>)
    requires
        e <= s@.len(),
    ensures
        match r {
            None => walrus_after(s@, e as int) is None,
            Some(x) => walrus_after(s@, e as int) == Some(x as int),
        },
        r matches Some(x) ==> e < x <= s@.len(),
{
    let _n = s.len();
    let f = skip_ws_to(s, e);
    let k = chars_of(":=");
    proof {
        reveal_strlit(":=");
    }
    if occurs_at_exec(s, &k, f) {
        Some(f + 2)
    } else {
        None
    }
}

fn grammar_at_exec(g: NameGrammar, s: &[char], p: usize) -> (r: Option<(usize, usize, usize)>)
    requires
        p <= s@.len(),
    ensures
        match r {
            None => grammar_at(g, s@, p as int) is None,
            Some((a, b, e)) => grammar_at(g, s@, p as int) == Some((a as int, b as int, e as int)),
        },
        r matches Some((a, b, e)) ==> p <= a < b <= e <= s@.len() && p < e,
{
    let _n = s.len();
    let line_start = p == 0 || s[p - 1] == '\n';
    match g {
        NameGrammar::GoVar => {
            if line_start {
                let a = skip_ws_to(s, p);
                if let Some(c) = kw_then_ws_exec(s, a, "var") {
                    if let Some((ns, ne)) = name_at_exec(s, c) {
                        if let Some(end) = walrus_after_exec(s, ne) {
                            return Some((ns, ne, end));
                        }
                    }
                }
            }
            let prev_word = p > 0 && (is_word_start_exec(s[p - 1]) || ('0' <= s[p - 1] && s[p - 1] <= '9'));
            assert(prev_word == is_word_at(s@, p - 1));
            if !prev_word {
                if let Some((ns, ne)) = name_at_exec(s, p) {
                    if let Some(end) = walrus_after_exec(s, ne) {
                        return Some((ns, ne, end));
                    }
                }
            }
            None
        },
        NameGrammar::GoConst => {
            if line_start {
                let a = skip_ws_to(s, p);
                if let Some(c) = kw_then_ws_exec(s, a, "const") {
                    if let Some((ns, ne)) = name_at_exec(s, c) {
                        return Some((ns, ne, ne));
                    }
                }
            }
            None
        },
        NameGrammar::RustVar => {
            let prev_word = p > 0 && (is_word_start_exec(s[p - 1]) || ('0' <= s[p - 1] && s[p - 1] <= '9'));
            assert(prev_word == is_word_at(s@, p - 1));
            if !prev_word {
                if let Some(c) = kw_then_ws_exec(s, p, "let") {
                    if let Some((ns, ne)) = mut_then_name_exec(s, c) {
                        return Some((ns, ne, ne));
                    }
                }
            }
            None
        },
        NameGrammar::RustConst => {
            if line_start {
                let a = skip_ws_to(s, p);
                let q = pub_group_exec(s, a);
                let c = match kw_then_ws_exec(s, q, "const") {
                    Some(c) => Some(c),
                    None => kw_then_ws_exec(s, q, "static"),
                };
                if let Some(c) = c {
                    if let Some((ns, ne)) = mut_then_name_exec(s, c) {
                        return Some((ns, ne, ne));
                    }
                }
            }
            None
        },
        NameGrammar::Declaration => {
            let prev_word = p > 0 && (is_word_start_exec(s[p - 1]) || ('0' <= s[p - 1] && s[p - 1] <= '9'));
            assert(prev_word == is_word_at(s@, p - 1));
            if !prev_word {
                if let Some(c) = decl_keyword_then_ws_exec(s, p) {
                    if let Some((ns, ne)) = name_at_exec(s, c) {
                        return Some((ns, ne, ne));
                    }
                }
            }
            None
        },
    }
}

fn next_match_exec(g: NameGrammar, s: &[char], i: usize) -> (r: Option<(usize, usize, usize)>)
    requires
        i <= s@.len(),
    ensures
        match r {
            None => next_match(g, s@, i as int) is None,
            Some((a, b, e)) => next_match(g, s@, i as int) == Some((a as int, b as int, e as int)),
        },
        r matches Some((a, b, e)) ==> i <= a < b <= e <= s@.len() && i < e,
{
    let _n = s.len();
    let mut p = i;
    while p <= s.len()
        invariant
            i <= p <= s@.len() + 1,
            next_match(g, s@, i as int) == next_match(g, s@, p as int),
        decreases s.len() + 1 - p,
    {
        if let Some(m) = grammar_at_exec(g, s, p) {
            return Some(m);
        }
        if p == s.len() {
            assert(next_match(g, s@, p + 1) is None);
            return None;
        }
        p += 1;
    }
    None
}

/// The names declared in the form `g`, in source order.
pub fn names_of(g: NameGrammar, s: &[char]) -> (r: Vec<Vec<char>>)
    ensures
        views_of(r@) == names_from(g, s@, 0),
{
    let _n = s.len();
    let mut out: Vec<Vec<char>> = Vec::new();
    let ghost mut seen: Seq<Seq<char>> = Seq::empty();
    let mut i: usize = 0;
    while i <= s.len()
        invariant
            i <= s@.len(),
            seen + names_from(g, s@, i as int) == names_from(g, s@, 0),
            views_of(out@) == seen,
        ensures
            views_of(out@) == names_from(g, s@, 0),
        decreases s.len() + 1 - i,
    {
        match next_match_exec(g, s, i) {
            None => {
                assert(names_from(g, s@, i as int) =~= Seq::<Seq<char>>::empty());
                assert(seen + Seq::<Seq<char>>::empty() =~= seen);
                break;
            },
            Some((ns, ne, end)) => {
                let name = slice_of(s, ns, ne);
                proof {
                    let old_seen = seen;
                    assert(names_from(g, s@, i as int) =~= seq![name@] + names_from(g, s@, end as int));
                    seen = seen.push(name@);
                    assert(seen + names_from(g, s@, end as int) =~= old_seen + (seq![name@] + names_from(
                        g,
                        s@,
                        end as int,
                    )));
                }
                let ghost before = views_of(out@);
                out.push(name);
                assert(views_of(out@) =~= before.push(name@));
                i = end;
            },
        }
    }
    out
}

} // verus!
