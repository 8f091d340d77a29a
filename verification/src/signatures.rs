//! Which top-level function signatures a change added, removed or altered: the
//! declarations of both sides are extracted, normalized to one bounded line, and
//! diffed per (receiver-qualified) name.
use vstd::prelude::*;
use crate::decls::{decls_from, lemma_next_decl, next_decl_exec, span_ok, DeclSpan};
use crate::gochecks::{
    lemma_skip_ws_range, lemma_token_end_range, skip_ws_from, strip_leading, token_end,
};
use crate::findings::push_str;
use crate::render::ChangeKind;
use crate::paths::{eq_str, utf8_len};
use crate::text::{
    chars_of, is_whitespace, lex_compare, lex_lt, slice_of, sorted_insert, string_of, strictly_sorted, trim,
    trim_exec, views_of,
};

verus! {

/// One-line signature length cap (chars).
pub const MAX_SIG: usize = 200;

/// The marker that ends a cut text.
pub open spec fn cut_marker() -> Seq<char> {
    "… [truncated]"@
}

/// `s` cut to at most `max` chars; a cut text ends in an honest
/// `… [truncated]` marker (so it holds at most `max + 13` chars).
pub open spec fn bound_spec(s: Seq<char>, max: nat) -> Seq<char> {
    if s.len() <= max {
        s
    } else {
        s.take(max as int) + cut_marker()
    }
}

pub fn bound(s: &[char], max: usize) -> (r: Vec<char>)
    ensures
        r@ == bound_spec(s@, max as nat),
        r@.len() <= max + 13,
{
    if s.len() <= max {
        slice_of(s, 0, s.len())
    } else {
        let mut r = slice_of(s, 0, max);
        push_str(&mut r, "… [truncated]");
        proof {
            reveal_strlit("… [truncated]");
        }
        r
    }
}

/// The whitespace-separated tokens of `s` from index `i` (`split_whitespace`).
pub open spec fn tokens_from(s: Seq<char>, i: int) -> Seq<Seq<char>>
    decreases s.len() - i,
{
    if i < 0 || i > s.len() {
        Seq::empty()
    } else {
        let a = skip_ws_from(s, i);
        proof {
            lemma_skip_ws_range(s, i);
        }
        if a >= s.len() {
            Seq::empty()
        } else {
            let b = token_end(s, a);
            proof {
                lemma_token_end_range(s, a);
            }
            seq![s.subrange(a, b)] + tokens_from(s, b)
        }
    }
}

/// Tokens joined by single spaces.
pub open spec fn join_spaces(ts: Seq<Seq<char>>) -> Seq<char>
    decreases ts.len(),
{
    if ts.len() == 0 {
        Seq::empty()
    } else if ts.len() == 1 {
        ts[0]
    } else {
        join_spaces(ts.drop_last()) + seq![' '] + ts.last()
    }
}

/// Whitespace runs collapsed to single spaces, ends trimmed.
pub open spec fn collapse_ws(s: Seq<char>) -> Seq<char> {
    join_spaces(tokens_from(s, 0))
}

pub fn collapse_ws_exec(s: &[char]) -> (r: Vec<char>)
    ensures
        r@ == collapse_ws(s@),
{
    let mut out: Vec<char> = Vec::new();
    let ghost mut toks: Seq<Seq<char>> = Seq::empty();
    let mut any = false;
    let mut i: usize = 0;
    while i <= s.len()
        invariant
            i <= s@.len(),
            any <==> toks.len() > 0,
            out@ == join_spaces(toks),
            toks + tokens_from(s@, i as int) == tokens_from(s@, 0),
        decreases s.len() - i,
    {
        let mut a = i;
        while a < s.len() && is_whitespace(s[a])
            invariant
                i <= a <= s@.len(),
                skip_ws_from(s@, i as int) == skip_ws_from(s@, a as int),
            decreases s.len() - a,
        {
            a += 1;
        }
        if a >= s.len() {
            assert(tokens_from(s@, i as int) =~= Seq::<Seq<char>>::empty());
            assert(toks + Seq::<Seq<char>>::empty() =~= toks);
            return out;
        }
        let mut b = a;
        while b < s.len() && !is_whitespace(s[b])
            invariant
                a <= b <= s@.len(),
                token_end(s@, a as int) == token_end(s@, b as int),
            decreases s.len() - b,
        {
            b += 1;
        }
        proof {
            lemma_skip_ws_range(s@, i as int);
        }
        let ghost tok = s@.subrange(a as int, b as int);
        let ghost old_toks = toks;
        if any {
            out.push(' ');
        }
        any = true;
        let mut k = a;
        let ghost base = out@;
        while k < b
            invariant
                a <= k <= b <= s@.len(),
                out@ == base + s@.subrange(a as int, k as int),
            decreases b - k,
        {
            out.push(s[k]);
            k += 1;
            assert(out@ =~= base + s@.subrange(a as int, k as int));
        }
        proof {
            toks = toks.push(tok);
            assert(toks.drop_last() =~= old_toks);
            assert(tokens_from(s@, i as int) =~= seq![tok] + tokens_from(s@, b as int));
            assert(toks + tokens_from(s@, b as int) =~= old_toks + (seq![tok] + tokens_from(s@, b as int)));
            if old_toks.len() == 0 {
                assert(out@ =~= tok);
            }
        }
        assert(b > a);
        i = b;
    }
    out
}

/// The UTF-8 byte length of a char sequence.
pub open spec fn utf8_bytes(s: Seq<char>) -> nat
    decreases s.len(),
{
    if s.len() == 0 {
        0
    } else {
        utf8_bytes(s.drop_last()) + utf8_len(s.last())
    }
}

/// Budget for the raw signature text, in UTF-8 bytes (twice the char cap).
pub const SIG_SCAN_BYTES: usize = 400;

/// The raw text a signature is built from: the chars from the declaration up to
/// the first `{` or `;`, each line break read as a space, stopping after 6 line
/// breaks or once the text exceeds the byte budget.
pub open spec fn sig_scan(s: Seq<char>, i: int, lines: nat, buf: Seq<char>) -> Seq<char>
    decreases s.len() - i,
{
    if i < 0 || i >= s.len() {
        buf
    } else {
        let ch = s[i];
        if ch == '{' || ch == ';' {
            buf
        } else if ch == '\n' && lines + 1 > 6 {
            buf
        } else {
            let b2 = if ch == '\n' { buf.push(' ') } else { buf.push(ch) };
            let l2 = if ch == '\n' { lines + 1 } else { lines };
            if utf8_bytes(b2) > SIG_SCAN_BYTES {
                b2
            } else {
                sig_scan(s, i + 1, l2, b2)
            }
        }
    }
}

/// The one-line, bounded signature that starts a text.
pub open spec fn signature_spec(s: Seq<char>) -> Seq<char> {
    bound_spec(trim(collapse_ws(sig_scan(s, 0, 0, Seq::empty()))), MAX_SIG as nat)
}

fn char_utf8_len(c: char) -> (n: usize)
    ensures
        n == utf8_len(c),
{
    let u = c as u32;
    if u < 0x80 {
        1
    } else if u < 0x800 {
        2
    } else if u < 0x10000 {
        3
    } else {
        4
    }
}

/// Build a one-line signature from the start of `s`: accumulate up to the first
/// `{` (body) or `;` (bodyless decl), collapse whitespace, bound the length.
pub fn signature_from(s: &[char]) -> (r: Vec<char>)
    ensures
        r@ == signature_spec(s@),
{
    let mut buf: Vec<char> = Vec::new();
    let mut bytes: usize = 0;
    let mut lines: usize = 0;
    let mut i: usize = 0;
    let mut done = false;
    while i < s.len() && !done
        invariant
            i <= s@.len(),
            bytes == utf8_bytes(buf@),
            bytes <= SIG_SCAN_BYTES + 4,
            lines <= 6,
            done ==> sig_scan(s@, 0, 0, Seq::empty()) == buf@,
            !done ==> sig_scan(s@, 0, 0, Seq::empty()) == sig_scan(s@, i as int, lines as nat, buf@),
            !done ==> bytes <= SIG_SCAN_BYTES,
        decreases (s.len() - i) * 2 + (if done { 0int } else { 1int }),
    {
        let ch = s[i];
        if ch == '{' || ch == ';' {
            done = true;
        } else if ch == '\n' && lines + 1 > 6 {
            done = true;
        } else {
            let pushed = if ch == '\n' { ' ' } else { ch };
            let ghost old_buf = buf@;
            buf.push(pushed);
            assert(buf@.drop_last() =~= old_buf);
            bytes = bytes + char_utf8_len(pushed);
            if ch == '\n' {
                lines = lines + 1;
            }
            if bytes > SIG_SCAN_BYTES {
                done = true;
            }
            i += 1;
        }
    }
    let collapsed = collapse_ws_exec(&buf);
    let t = trim_exec(&collapsed);
    bound(&t, MAX_SIG)
}

/// The last whitespace-separated token, `*`s stripped from its front: a Go
/// receiver group's type (`s *Server` → `Server`).
pub open spec fn recv_type_spec(recv: Seq<char>) -> Seq<char> {
    let ts = tokens_from(recv, 0);
    if ts.len() == 0 {
        Seq::empty()
    } else {
        strip_leading(ts.last(), '*')
    }
}

pub fn recv_type(recv: &[char]) -> (r: Vec<char>)
    ensures
        r@ == recv_type_spec(recv@),
{
    let mut last: Option<(usize, usize)> = None;
    let ghost mut toks: Seq<Seq<char>> = Seq::empty();
    let mut i: usize = 0;
    while i <= recv.len()
        invariant
            i <= recv@.len(),
            toks + tokens_from(recv@, i as int) == tokens_from(recv@, 0),
            match last {
                None => toks.len() == 0,
                Some((a, b)) => toks.len() > 0 && a <= b <= recv@.len() && toks.last()
                    == recv@.subrange(a as int, b as int),
            },
        ensures
            toks == tokens_from(recv@, 0),
            match last {
                None => toks.len() == 0,
                Some((a, b)) => toks.len() > 0 && a <= b <= recv@.len() && toks.last()
                    == recv@.subrange(a as int, b as int),
            },
        decreases recv.len() - i,
    {
        let mut a = i;
        while a < recv.len() && is_whitespace(recv[a])
            invariant
                i <= a <= recv@.len(),
                skip_ws_from(recv@, i as int) == skip_ws_from(recv@, a as int),
            decreases recv.len() - a,
        {
            a += 1;
        }
        if a >= recv.len() {
            assert(tokens_from(recv@, i as int) =~= Seq::<Seq<char>>::empty());
            assert(toks + Seq::<Seq<char>>::empty() =~= toks);
            break;
        }
        let mut b = a;
        while b < recv.len() && !is_whitespace(recv[b])
            invariant
                a <= b <= recv@.len(),
                token_end(recv@, a as int) == token_end(recv@, b as int),
            decreases recv.len() - b,
        {
            b += 1;
        }
        proof {
            lemma_skip_ws_range(recv@, i as int);
            let tok = recv@.subrange(a as int, b as int);
            let old_toks = toks;
            toks = toks.push(tok);
            assert(tokens_from(recv@, i as int) =~= seq![tok] + tokens_from(recv@, b as int));
            assert(toks + tokens_from(recv@, b as int) =~= old_toks + (seq![tok] + tokens_from(recv@, b as int)));
        }
        last = Some((a, b));
        assert(b > a);
        i = b;
    }
    match last {
        None => {
            let v: Vec<char> = Vec::new();
            assert(v@ =~= Seq::<char>::empty());
            v
        },
        Some((a, b)) => {
            let tok = slice_of(recv, a, b);
            let mut k: usize = 0;
            assert(tok@.subrange(0, tok@.len() as int) =~= tok@);
            while k < tok.len() && tok[k] == '*'
                invariant
                    k <= tok@.len(),
                    strip_leading(tok@, '*') == strip_leading(tok@.subrange(k as int, tok@.len() as int), '*'),
                decreases tok.len() - k,
            {
                assert(tok@.subrange(k as int, tok@.len() as int).drop_first() =~= tok@.subrange(k + 1, tok@.len() as int));
                k += 1;
            }
            slice_of(&tok, k, tok.len())
        },
    }
}

/// One extracted signature: `key` disambiguates same-named items (the Go
/// receiver), `name` is the display name, `sig` the one-line signature.
pub struct Sig {
    pub key: String,
    pub name: String,
    pub sig: String,
}

/// `key` for a declaration: `Recv.name` for a Go method, the name otherwise.
pub open spec fn decl_key(s: Seq<char>, d: DeclSpan) -> Seq<char> {
    let name = s.subrange(d.0, d.1);
    match d.2 {
        Some((x, y)) => recv_type_spec(s.subrange(x, y)) + seq!['.'] + name,
        None => name,
    }
}

/// `decl_key` computed.
pub fn decl_key_exec(s: &[char], ns: usize, ne: usize, recv: Option<(usize, usize)>) -> (r: Vec<char>)
    requires
        ns <= ne <= s@.len(),
        recv matches Some((x, y)) ==> x <= y <= s@.len(),
    ensures
        r@ == decl_key(
            s@,
            (
                ns as int,
                ne as int,
                match recv {
                    None => None,
                    Some((x, y)) => Some((x as int, y as int)),
                },
                false,
            ),
        ),
{
    let name = slice_of(s, ns, ne);
    match recv {
        Some((x, y)) => {
            let rv = slice_of(s, x, y);
            let mut k = recv_type(&rv);
            let ghost kv = k@;
            k.push('.');
            let mut j: usize = 0;
            while j < name.len()
                invariant
                    j <= name@.len(),
                    k@ == kv + seq!['.'] + name@.take(j as int),
                decreases name.len() - j,
            {
                k.push(name[j]);
                j += 1;
                assert(k@ =~= kv + seq!['.'] + name@.take(j as int));
            }
            assert(name@.take(name@.len() as int) =~= name@);
            k
        },
        None => name,
    }
}

/// The `(key, name, signature)` triples of a list of declaration matches,
/// skipping those whose signature comes out empty.
pub open spec fn sigs_of(s: Seq<char>, ds: Seq<(int, DeclSpan)>) -> Seq<(Seq<char>, Seq<char>, Seq<char>)>
    decreases ds.len(),
{
    if ds.len() == 0 {
        Seq::empty()
    } else {
        let rest = sigs_of(s, ds.drop_last());
        let (p, d) = ds.last();
        let sig = signature_spec(s.subrange(p, s.len() as int));
        if sig.len() == 0 {
            rest
        } else {
            rest.push((decl_key(s, d), s.subrange(d.0, d.1), sig))
        }
    }
}

pub open spec fn sig_view(x: Sig) -> (Seq<char>, Seq<char>, Seq<char>) {
    (x.key@, x.name@, x.sig@)
}

pub open spec fn sigs_view(v: Seq<Sig>) -> Seq<(Seq<char>, Seq<char>, Seq<char>)> {
    v.map_values(|x: Sig| sig_view(x))
}

/// Extract the top-level function signatures of a text (Go when `lang` is
/// `"go"`, Rust otherwise), in source order.
pub fn extract(text: &str, lang: &str) -> (r: Vec<Sig>)
    ensures
        sigs_view(r@) == sigs_of(text@, decls_from(text@, 0, lang@ == "go"@)),
{
    let go = eq_str(&chars_of(lang), "go");
    let s = chars_of(text);
    let mut out: Vec<Sig> = Vec::new();
    let ghost mut seen: Seq<(int, DeclSpan)> = Seq::empty();
    let mut i: usize = 0;
    while i <= s.len()
        invariant
            s@ == text@,
            i <= s@.len(),
            seen + decls_from(s@, i as int, go) == decls_from(s@, 0, go),
            sigs_view(out@) == sigs_of(s@, seen),
        ensures
            seen == decls_from(s@, 0, go),
            sigs_view(out@) == sigs_of(s@, seen),
        decreases s.len() + 1 - i,
    {
        proof {
            lemma_next_decl(s@, i as int, go);
        }
        match next_decl_exec(&s, i, go) {
            None => {
                assert(decls_from(s@, i as int, go) =~= Seq::<(int, DeclSpan)>::empty());
                assert(seen + Seq::<(int, DeclSpan)>::empty() =~= seen);
                break;
            },
            Some((p, (ns, ne, recv, _pub))) => {
                let ghost d: DeclSpan = (ns as int, ne as int, match recv {
                    None => None,
                    Some((x, y)) => Some((x as int, y as int)),
                }, _pub);
                let ghost old_seen = seen;
                proof {
                    assert(decls_from(s@, i as int, go) =~= seq![(p as int, d)] + decls_from(s@, ne as int, go));
                    seen = seen.push((p as int, d));
                    assert(seen + decls_from(s@, ne as int, go) =~= old_seen + (seq![(p as int, d)] + decls_from(s@, ne as int, go)));
                    assert(seen.drop_last() =~= old_seen);
                }
                let rest = slice_of(&s, p, s.len());
                let sig = signature_from(&rest);
                if sig.len() > 0 {
                    let name = slice_of(&s, ns, ne);
                    let key = decl_key_exec(&s, ns, ne, recv);
                    out.push(Sig { key: string_of(&key), name: string_of(&name), sig: string_of(&sig) });
                    assert(sigs_view(out@) =~= sigs_view(out@.drop_last()).push(sig_view(out@.last())));
                } else {
                    assert(sigs_of(s@, seen) == sigs_of(s@, old_seen));
                }
                i = ne;
            },
        }
    }
    out
}


/// The set of keys of a list of extracted signatures.
pub open spec fn key_set(v: Seq<(Seq<char>, Seq<char>, Seq<char>)>) -> Set<Seq<char>>
    decreases v.len(),
{
    if v.len() == 0 {
        Set::empty()
    } else {
        key_set(v.drop_last()).insert(v.last().0)
    }
}

/// The signatures filed under key `k`, in order.
pub open spec fn group_sigs(v: Seq<(Seq<char>, Seq<char>, Seq<char>)>, k: Seq<char>) -> Seq<Seq<char>>
    decreases v.len(),
{
    if v.len() == 0 {
        Seq::empty()
    } else if v.last().0 == k {
        group_sigs(v.drop_last(), k).push(v.last().2)
    } else {
        group_sigs(v.drop_last(), k)
    }
}

/// The display name of the first signature filed under `k`.
pub open spec fn first_name(v: Seq<(Seq<char>, Seq<char>, Seq<char>)>, k: Seq<char>) -> Option<Seq<char>>
    decreases v.len(),
{
    if v.len() == 0 {
        None
    } else {
        match first_name(v.drop_last(), k) {
            Some(n) => Some(n),
            None => if v.last().0 == k {
                Some(v.last().1)
            } else {
                None
            },
        }
    }
}

/// The name shown for key `k`: the base side's, unless that is absent or empty.
pub open spec fn name_for(
    base: Seq<(Seq<char>, Seq<char>, Seq<char>)>,
    head: Seq<(Seq<char>, Seq<char>, Seq<char>)>,
    k: Seq<char>,
) -> Seq<char> {
    let b = match first_name(base, k) {
        Some(n) => n,
        None => Seq::empty(),
    };
    let h = match first_name(head, k) {
        Some(n) => n,
        None => Seq::empty(),
    };
    if b.len() == 0 {
        h
    } else {
        b
    }
}

/// Position of the first `x` in `s`, or -1.
pub open spec fn first_index(s: Seq<Seq<char>>, x: Seq<char>) -> int
    decreases s.len(),
{
    if s.len() == 0 {
        -1
    } else if s[0] == x {
        0
    } else {
        let r = first_index(s.drop_first(), x);
        if r < 0 {
            -1
        } else {
            r + 1
        }
    }
}

/// Cancel the signatures present on both sides, one for one (multiset
/// difference in both directions): each base signature, in order, takes away
/// the first equal head signature, or is kept.
pub open spec fn cancel(bs: Seq<Seq<char>>, hs: Seq<Seq<char>>) -> (Seq<Seq<char>>, Seq<Seq<char>>)
    decreases bs.len(),
{
    if bs.len() == 0 {
        (bs, hs)
    } else {
        let x = bs[0];
        let p = first_index(hs, x);
        if 0 <= p < hs.len() {
            cancel(bs.drop_first(), hs.remove(p))
        } else {
            let r = cancel(bs.drop_first(), hs);
            (seq![x] + r.0, r.1)
        }
    }
}

/// One change as plain values: `(file, lang, kind, name, before, after)`.
pub open spec fn change_spec(kind: Seq<char>, name: Seq<char>, before: Seq<char>, after: Seq<char>) -> (
    Seq<char>,
    Seq<char>,
    Seq<char>,
    Seq<char>,
    Seq<char>,
    Seq<char>,
) {
    (Seq::empty(), Seq::empty(), kind, name, before, after)
}

/// The changes of one key: leftover pairs by position are `modified`, the rest
/// of the base side `removed`, the rest of the head side `added`.
pub open spec fn key_changes(name: Seq<char>, bs: Seq<Seq<char>>, hs: Seq<Seq<char>>) -> Seq<
    (Seq<char>, Seq<char>, Seq<char>, Seq<char>, Seq<char>, Seq<char>),
> {
    let p: int = if bs.len() <= hs.len() {
        bs.len() as int
    } else {
        hs.len() as int
    };
    Seq::new(p as nat, |i: int| change_spec("modified"@, name, bs[i], hs[i])) + Seq::new(
        (bs.len() - p) as nat,
        |i: int| change_spec("removed"@, name, bs[p + i], Seq::empty()),
    ) + Seq::new((hs.len() - p) as nat, |i: int| change_spec("added"@, name, Seq::empty(), hs[p + i]))
}

pub open spec fn changes_for(
    base: Seq<(Seq<char>, Seq<char>, Seq<char>)>,
    head: Seq<(Seq<char>, Seq<char>, Seq<char>)>,
    k: Seq<char>,
) -> Seq<(Seq<char>, Seq<char>, Seq<char>, Seq<char>, Seq<char>, Seq<char>)> {
    let c = cancel(group_sigs(base, k), group_sigs(head, k));
    key_changes(name_for(base, head, k), c.0, c.1)
}

/// The changes of every key in `keys`, key by key.
pub open spec fn diff_spec(
    base: Seq<(Seq<char>, Seq<char>, Seq<char>)>,
    head: Seq<(Seq<char>, Seq<char>, Seq<char>)>,
    keys: Seq<Seq<char>>,
) -> Seq<(Seq<char>, Seq<char>, Seq<char>, Seq<char>, Seq<char>, Seq<char>)>
    decreases keys.len(),
{
    if keys.len() == 0 {
        Seq::empty()
    } else {
        diff_spec(base, head, keys.drop_last()) + changes_for(base, head, keys.last())
    }
}

/// A typed signature change; `file` and `lang` are left for the caller.
#[derive(Clone, Debug)]
pub struct SignatureChange {
    pub file: String,
    pub lang: String,
    pub kind: String,
    pub name: String,
    pub before: String,
    pub after: String,
}

pub open spec fn change_view(c: SignatureChange) -> (
    Seq<char>,
    Seq<char>,
    Seq<char>,
    Seq<char>,
    Seq<char>,
    Seq<char>,
) {
    (c.file@, c.lang@, c.kind@, c.name@, c.before@, c.after@)
}

pub open spec fn changes_view(v: Seq<SignatureChange>) -> Seq<
    (Seq<char>, Seq<char>, Seq<char>, Seq<char>, Seq<char>, Seq<char>),
> {
    v.map_values(|c: SignatureChange| change_view(c))
}

fn change(kind: &str, name: &[char], before: &[char], after: &[char]) -> (c: SignatureChange)
    ensures
        change_view(c) == change_spec(kind@, name@, before@, after@),
{
    SignatureChange {
        file: String::new(),
        lang: String::new(),
        kind: kind.to_owned(),
        name: string_of(name),
        before: string_of(before),
        after: string_of(after),
    }
}

pub proof fn lemma_first_index_found(s: Seq<Seq<char>>, x: Seq<char>, p: int)
    requires
        0 <= p < s.len(),
        s[p] == x,
        forall|q: int| 0 <= q < p ==> s[q] != x,
    ensures
        first_index(s, x) == p,
    decreases p,
{
    if p > 0 {
        lemma_first_index_found(s.drop_first(), x, p - 1);
    }
}

pub proof fn lemma_first_index_absent(s: Seq<Seq<char>>, x: Seq<char>)
    requires
        forall|q: int| 0 <= q < s.len() ==> s[q] != x,
    ensures
        first_index(s, x) == -1,
    decreases s.len(),
{
    if s.len() > 0 {
        lemma_first_index_absent(s.drop_first(), x);
    }
}

fn chars_eq(a: &Vec<char>, b: &Vec<char>) -> (r: bool)
    ensures
        r == (a@ == b@),
{
    lex_compare(a, b) == 0
}

/// The signatures of `v` under key `k`, and the first such name.
fn group_exec(v: &Vec<(Vec<char>, Vec<char>, Vec<char>)>, k: &Vec<char>) -> (r: (
    Vec<Vec<char>>,
    Option<Vec<char>>,
))
    ensures
        views_of(r.0@) == group_sigs(triples_view(v@), k@),
        match r.1 {
            Some(n) => first_name(triples_view(v@), k@) == Some(n@),
            None => first_name(triples_view(v@), k@) is None,
        },
{
    let mut g: Vec<Vec<char>> = Vec::new();
    let mut name: Option<Vec<char>> = None;
    let mut i: usize = 0;
    while i < v.len()
        invariant
            i <= v@.len(),
            views_of(g@) == group_sigs(triples_view(v@).take(i as int), k@),
            match name {
                Some(n) => first_name(triples_view(v@).take(i as int), k@) == Some(n@),
                None => first_name(triples_view(v@).take(i as int), k@) is None,
            },
        decreases v.len() - i,
    {
        let ghost tv = triples_view(v@);
        assert(tv.take(i + 1).drop_last() =~= tv.take(i as int));
        assert(tv[i as int] == (v@[i as int].0@, v@[i as int].1@, v@[i as int].2@));
        if chars_eq(&v[i].0, k) {
            let ghost old_g = g@;
            g.push(slice_of(&v[i].2, 0, v[i].2.len()));
            assert(v@[i as int].2@.subrange(0, v@[i as int].2@.len() as int) =~= v@[i as int].2@);
            assert(views_of(g@) =~= views_of(old_g).push(v@[i as int].2@));
            if name.is_none() {
                name = Some(slice_of(&v[i].1, 0, v[i].1.len()));
            }
        }
        i += 1;
    }
    assert(triples_view(v@).take(v@.len() as int) =~= triples_view(v@));
    (g, name)
}

pub open spec fn triples_view(v: Seq<(Vec<char>, Vec<char>, Vec<char>)>) -> Seq<
    (Seq<char>, Seq<char>, Seq<char>),
> {
    v.map_values(|t: (Vec<char>, Vec<char>, Vec<char>)| (t.0@, t.1@, t.2@))
}

/// `cancel` in place: returns what is left of `bs` and of `hs`.
fn cancel_exec(bs: Vec<Vec<char>>, hs: Vec<Vec<char>>) -> (r: (Vec<Vec<char>>, Vec<Vec<char>>))
    ensures
        (views_of(r.0@), views_of(r.1@)) == cancel(views_of(bs@), views_of(hs@)),
{
    let mut hs = hs;
    let mut kept: Vec<Vec<char>> = Vec::new();
    let ghost b0 = views_of(bs@);
    let ghost h0 = views_of(hs@);
    let mut i: usize = 0;
    assert(b0.skip(0) =~= b0);
    while i < bs.len()
        invariant
            i <= bs@.len(),
            b0 == views_of(bs@),
            cancel(b0, h0) == (views_of(kept@) + cancel(b0.skip(i as int), views_of(hs@)).0, cancel(
                b0.skip(i as int),
                views_of(hs@),
            ).1),
        decreases bs.len() - i,
    {
        let ghost hv = views_of(hs@);
        let ghost rest = b0.skip(i as int);
        assert(rest[0] == bs@[i as int]@);
        assert(rest.drop_first() =~= b0.skip(i + 1));
        let mut p: usize = 0;
        while p < hs.len() && !chars_eq(&hs[p], &bs[i])
            invariant
                p <= hs@.len(),
                hv == views_of(hs@),
                i < bs@.len(),
                forall|q: int| 0 <= q < p ==> hv[q] != bs@[i as int]@,
            decreases hs.len() - p,
        {
            p += 1;
        }
        if p < hs.len() {
            proof {
                lemma_first_index_found(hv, bs@[i as int]@, p as int);
            }
            hs.remove(p);
            assert(views_of(hs@) =~= hv.remove(p as int));
        } else {
            proof {
                lemma_first_index_absent(hv, bs@[i as int]@);
            }
            let ghost old_kept = views_of(kept@);
            kept.push(slice_of(&bs[i], 0, bs[i].len()));
            assert(bs@[i as int]@.subrange(0, bs@[i as int]@.len() as int) =~= bs@[i as int]@);
            assert(views_of(kept@) =~= old_kept.push(bs@[i as int]@));
            assert(views_of(kept@) + cancel(b0.skip(i + 1), hv).0 =~= old_kept + (seq![bs@[i as int]@]
                + cancel(b0.skip(i + 1), hv).0));
        }
        i += 1;
    }
    assert(b0.skip(i as int) =~= Seq::<Seq<char>>::empty());
    assert(views_of(kept@) + Seq::<Seq<char>>::empty() =~= views_of(kept@));
    (kept, hs)
}

/// Push the changes of one key onto `out`.
fn push_key_changes(
    out: &mut Vec<SignatureChange>,
    name: &Vec<char>,
    bs: &Vec<Vec<char>>,
    hs: &Vec<Vec<char>>,
)
    ensures
        changes_view(final(out)@) == changes_view(old(out)@) + key_changes(name@, views_of(bs@), views_of(hs@)),
{
    let ghost o0 = changes_view(out@);
    let ghost kc = key_changes(name@, views_of(bs@), views_of(hs@));
    let paired = if bs.len() <= hs.len() { bs.len() } else { hs.len() };
    let empty: Vec<char> = Vec::new();
    proof {
        reveal_strlit("modified");
        reveal_strlit("removed");
        reveal_strlit("added");
    }
    let mut i: usize = 0;
    while i < paired
        invariant
            paired == (if bs@.len() <= hs@.len() { bs@.len() } else { hs@.len() }),
            i <= paired,
            kc == key_changes(name@, views_of(bs@), views_of(hs@)),
            kc.len() == bs@.len() + hs@.len() - paired,
            changes_view(out@) == o0 + kc.take(i as int),
        decreases paired - i,
    {
        let c = change("modified", name, &bs[i], &hs[i]);
        assert(change_view(c) == kc[i as int]);
        let ghost before = changes_view(out@);
        out.push(c);
        assert(changes_view(out@) =~= before.push(change_view(c)));
        assert(kc.take(i + 1) =~= kc.take(i as int).push(kc[i as int]));
        i += 1;
    }
    let mut i: usize = paired;
    while i < bs.len()
        invariant
            paired == (if bs@.len() <= hs@.len() { bs@.len() } else { hs@.len() }),
            paired <= i <= bs@.len(),
            empty@ == Seq::<char>::empty(),
            kc == key_changes(name@, views_of(bs@), views_of(hs@)),
            kc.len() == bs@.len() + hs@.len() - paired,
            changes_view(out@) == o0 + kc.take(i as int),
        decreases bs.len() - i,
    {
        let c = change("removed", name, &bs[i], &empty);
        assert(change_view(c) == kc[i as int]);
        let ghost before = changes_view(out@);
        out.push(c);
        assert(changes_view(out@) =~= before.push(change_view(c)));
        assert(kc.take(i + 1) =~= kc.take(i as int).push(kc[i as int]));
        i += 1;
    }
    let mut i: usize = paired;
    while i < hs.len()
        invariant
            paired == (if bs@.len() <= hs@.len() { bs@.len() } else { hs@.len() }),
            paired <= i <= hs@.len(),
            empty@ == Seq::<char>::empty(),
            kc == key_changes(name@, views_of(bs@), views_of(hs@)),
            kc.len() == bs@.len() + hs@.len() - paired,
            changes_view(out@) == o0 + kc.take(bs@.len() + i - paired),
        decreases hs.len() - i,
    {
        let c = change("added", name, &empty, &hs[i]);
        let ghost k: int = bs@.len() + i - paired;
        assert(change_view(c) == kc[k]);
        let ghost before = changes_view(out@);
        out.push(c);
        assert(changes_view(out@) =~= before.push(change_view(c)));
        assert(kc.take(k + 1) =~= kc.take(k).push(kc[k]));
        i += 1;
    }
    assert(kc.take(kc.len() as int) =~= kc);
}

/// Diff two signature lists into typed changes. Signatures are grouped by
/// `key`; pairs unchanged across base→head are dropped; the rest pair up by
/// position as `modified`, leftovers are `removed`/`added`. Keys come out in
/// ascending order.
pub fn diff_sigs(base: Vec<Sig>, head: Vec<Sig>) -> (r: Vec<SignatureChange>)
    ensures
        exists|ks: Seq<Seq<char>>|
            {
                &&& strictly_sorted(ks)
                &&& ks.to_set() == key_set(sigs_view(base@)) + key_set(sigs_view(head@))
                &&& changes_view(r@) == diff_spec(sigs_view(base@), sigs_view(head@), ks)
            },
{
    let bt = to_triples(&base);
    let ht = to_triples(&head);
    let ghost bv = sigs_view(base@);
    let ghost hv = sigs_view(head@);
    let mut keys: Vec<Vec<char>> = Vec::new();
    let mut i: usize = 0;
    while i < bt.len()
        invariant
            i <= bt@.len(),
            triples_view(bt@) == bv,
            strictly_sorted(views_of(keys@)),
            views_of(keys@).to_set() == key_set(bv.take(i as int)),
        decreases bt.len() - i,
    {
        assert(bv.take(i + 1).drop_last() =~= bv.take(i as int));
        assert(key_set(bv.take(i + 1)) == key_set(bv.take(i as int)).insert(bv[i as int].0));
        assert(bt@[i as int].0@.subrange(0, bt@[i as int].0@.len() as int) =~= bt@[i as int].0@);
        sorted_insert(&mut keys, slice_of(&bt[i].0, 0, bt[i].0.len()));
        i += 1;
    }
    assert(bv.take(bv.len() as int) =~= bv);
    let mut i: usize = 0;
    while i < ht.len()
        invariant
            i <= ht@.len(),
            triples_view(ht@) == hv,
            strictly_sorted(views_of(keys@)),
            views_of(keys@).to_set() == key_set(bv) + key_set(hv.take(i as int)),
        decreases ht.len() - i,
    {
        assert(hv.take(i + 1).drop_last() =~= hv.take(i as int));
        assert(key_set(hv.take(i + 1)) == key_set(hv.take(i as int)).insert(hv[i as int].0));
        assert(ht@[i as int].0@.subrange(0, ht@[i as int].0@.len() as int) =~= ht@[i as int].0@);
        sorted_insert(&mut keys, slice_of(&ht[i].0, 0, ht[i].0.len()));
        assert(views_of(keys@).to_set() =~= key_set(bv) + key_set(hv.take(i + 1)));
        i += 1;
    }
    assert(hv.take(hv.len() as int) =~= hv);
    let ghost ks = views_of(keys@);
    let mut out: Vec<SignatureChange> = Vec::new();
    let mut j: usize = 0;
    while j < keys.len()
        invariant
            j <= keys@.len(),
            ks == views_of(keys@),
            triples_view(bt@) == bv,
            triples_view(ht@) == hv,
            changes_view(out@) == diff_spec(bv, hv, ks.take(j as int)),
        decreases keys.len() - j,
    {
        let (bs, bname) = group_exec(&bt, &keys[j]);
        let (hs, hname) = group_exec(&ht, &keys[j]);
        let empty: Vec<char> = Vec::new();
        let bn = match bname {
            Some(n) => n,
            None => empty,
        };
        let empty2: Vec<char> = Vec::new();
        let hn = match hname {
            Some(n) => n,
            None => empty2,
        };
        let name = if bn.len() == 0 { hn } else { bn };
        assert(name@ == name_for(bv, hv, ks[j as int]));
        let (kept_b, kept_h) = cancel_exec(bs, hs);
        push_key_changes(&mut out, &name, &kept_b, &kept_h);
        assert(ks.take(j + 1).drop_last() =~= ks.take(j as int));
        j += 1;
    }
    assert(ks.take(ks.len() as int) =~= ks);
    out
}

/// The three fields of each signature, as char vectors.
fn to_triples(v: &Vec<Sig>) -> (r: Vec<(Vec<char>, Vec<char>, Vec<char>)>)
    ensures
        triples_view(r@) == sigs_view(v@),
{
    let mut r: Vec<(Vec<char>, Vec<char>, Vec<char>)> = Vec::new();
    let mut i: usize = 0;
    while i < v.len()
        invariant
            i <= v@.len(),
            triples_view(r@) == sigs_view(v@).take(i as int),
        decreases v.len() - i,
    {
        let t = (chars_of(&v[i].key), chars_of(&v[i].name), chars_of(&v[i].sig));
        let ghost before = triples_view(r@);
        r.push(t);
        assert(triples_view(r@) =~= before.push((t.0@, t.1@, t.2@)));
        assert(sigs_view(v@).take(i + 1) =~= sigs_view(v@).take(i as int).push(sig_view(v@[i as int])));
        i += 1;
    }
    assert(sigs_view(v@).take(v@.len() as int) =~= sigs_view(v@));
    r
}


proof fn lemma_cancel_self(g: Seq<Seq<char>>)
    ensures
        cancel(g, g).0.len() == 0,
        cancel(g, g).1.len() == 0,
    decreases g.len(),
{
    if g.len() > 0 {
        assert(g.remove(0) =~= g.drop_first());
        lemma_cancel_self(g.drop_first());
    }
}

proof fn lemma_first_index_range(s: Seq<Seq<char>>, x: Seq<char>)
    ensures
        first_index(s, x) == -1 || (0 <= first_index(s, x) < s.len() && s[first_index(s, x)] == x),
        s.contains(x) ==> 0 <= first_index(s, x) < s.len(),
    decreases s.len(),
{
    if s.len() > 0 && s[0] != x {
        lemma_first_index_range(s.drop_first(), x);
        if s.contains(x) {
            let q = choose|q: int| 0 <= q < s.len() && s[q] == x;
            assert(s.drop_first()[q - 1] == x);
        }
    }
}

proof fn lemma_cancel_shrinks(bs: Seq<Seq<char>>, hs: Seq<Seq<char>>)
    ensures
        forall|y: Seq<char>| cancel(bs, hs).1.contains(y) ==> hs.contains(y),
        forall|y: Seq<char>| cancel(bs, hs).0.contains(y) ==> bs.contains(y),
    decreases bs.len(),
{
    if bs.len() > 0 {
        let x = bs[0];
        let p = first_index(hs, x);
        if 0 <= p < hs.len() {
            lemma_cancel_shrinks(bs.drop_first(), hs.remove(p));
            assert forall|y: Seq<char>| cancel(bs, hs).1.contains(y) implies hs.contains(y) by {
                assert(cancel(bs, hs) == cancel(bs.drop_first(), hs.remove(p)));
                assert(hs.remove(p).contains(y));
                let q = choose|q: int| 0 <= q < hs.remove(p).len() && hs.remove(p)[q] == y;
                if q < p {
                    assert(hs[q] == y);
                } else {
                    assert(hs[q + 1] == y);
                }
            }
            assert forall|y: Seq<char>| cancel(bs, hs).0.contains(y) implies bs.contains(y) by {
                assert(cancel(bs, hs) == cancel(bs.drop_first(), hs.remove(p)));
                assert(bs.drop_first().contains(y));
                let q = choose|q: int| 0 <= q < bs.drop_first().len() && bs.drop_first()[q] == y;
                assert(bs[q + 1] == y);
            }
        } else {
            lemma_cancel_shrinks(bs.drop_first(), hs);
            let r = cancel(bs.drop_first(), hs);
            assert forall|y: Seq<char>| cancel(bs, hs).0.contains(y) implies bs.contains(y) by {
                let k = cancel(bs, hs).0;
                assert(k =~= seq![x] + r.0);
                let q = choose|q: int| 0 <= q < k.len() && k[q] == y;
                if q == 0 {
                    assert(bs[0] == y);
                } else {
                    assert(r.0[q - 1] == y);
                    assert(r.0.contains(y));
                    assert(bs.drop_first().contains(y));
                    let q2 = choose|q2: int| 0 <= q2 < bs.drop_first().len() && bs.drop_first()[q2] == y;
                    assert(bs[q2 + 1] == y);
                }
            }
        }
    }
}

/// After cancelling, no signature is left on both sides.
proof fn lemma_cancel_disjoint(bs: Seq<Seq<char>>, hs: Seq<Seq<char>>)
    ensures
        forall|y: Seq<char>| cancel(bs, hs).0.contains(y) ==> !cancel(bs, hs).1.contains(y),
    decreases bs.len(),
{
    if bs.len() > 0 {
        let x = bs[0];
        let p = first_index(hs, x);
        lemma_first_index_range(hs, x);
        if 0 <= p < hs.len() {
            lemma_cancel_disjoint(bs.drop_first(), hs.remove(p));
            assert(cancel(bs, hs) == cancel(bs.drop_first(), hs.remove(p)));
        } else {
            lemma_cancel_disjoint(bs.drop_first(), hs);
            lemma_cancel_shrinks(bs.drop_first(), hs);
            let r = cancel(bs.drop_first(), hs);
            assert forall|y: Seq<char>| cancel(bs, hs).0.contains(y) implies !cancel(bs, hs).1.contains(y) by {
                let k = cancel(bs, hs).0;
                assert(k =~= seq![x] + r.0);
                let q = choose|q: int| 0 <= q < k.len() && k[q] == y;
                if q == 0 {
                    assert(!hs.contains(x));
                } else {
                    assert(r.0[q - 1] == y);
                    assert(r.0.contains(y));
                }
            }
        }
    }
}

/// Diffing a list of signatures against itself reports no change.
pub proof fn law_identical_sides_no_changes(v: Seq<(Seq<char>, Seq<char>, Seq<char>)>, keys: Seq<Seq<char>>)
    ensures
        diff_spec(v, v, keys).len() == 0,
    decreases keys.len(),
{
    if keys.len() > 0 {
        law_identical_sides_no_changes(v, keys.drop_last());
        lemma_cancel_self(group_sigs(v, keys.last()));
    }
}

proof fn lemma_cancel_against_empty(bs: Seq<Seq<char>>)
    ensures
        cancel(bs, Seq::empty()) == (bs, Seq::<Seq<char>>::empty()),
    decreases bs.len(),
{
    if bs.len() > 0 {
        lemma_cancel_against_empty(bs.drop_first());
        assert(seq![bs[0]] + bs.drop_first() =~= bs);
    }
}

/// A side with no signatures: every change against an empty base is an
/// `added`, and every change against an empty head is a `removed`.
pub proof fn law_empty_side_one_kind(v: Seq<(Seq<char>, Seq<char>, Seq<char>)>, keys: Seq<Seq<char>>)
    ensures
        forall|i: int|
            0 <= i < diff_spec(Seq::empty(), v, keys).len() ==> (#[trigger] diff_spec(Seq::empty(), v, keys)[i]).2
                == "added"@,
        forall|i: int|
            0 <= i < diff_spec(v, Seq::empty(), keys).len() ==> (#[trigger] diff_spec(v, Seq::empty(), keys)[i]).2
                == "removed"@,
    decreases keys.len(),
{
    if keys.len() > 0 {
        let k = keys.last();
        let e = Seq::<(Seq<char>, Seq<char>, Seq<char>)>::empty();
        law_empty_side_one_kind(v, keys.drop_last());
        assert(group_sigs(e, k) == Seq::<Seq<char>>::empty());
        lemma_cancel_against_empty(group_sigs(v, k));
        let a_pre = diff_spec(e, v, keys.drop_last());
        let a_k = changes_for(e, v, k);
        assert(cancel(group_sigs(e, k), group_sigs(v, k)) == (Seq::<Seq<char>>::empty(), group_sigs(v, k)));
        let a = diff_spec(e, v, keys);
        assert(a == a_pre + a_k);
        assert forall|i: int| 0 <= i < a.len() implies (#[trigger] a[i]).2 == "added"@ by {
            if i >= a_pre.len() {
                assert(a[i] == a_k[i - a_pre.len()]);
            }
        }
        let r_pre = diff_spec(v, e, keys.drop_last());
        let r_k = changes_for(v, e, k);
        let r = diff_spec(v, e, keys);
        assert(r == r_pre + r_k);
        assert forall|i: int| 0 <= i < r.len() implies (#[trigger] r[i]).2 == "removed"@ by {
            if i >= r_pre.len() {
                assert(r[i] == r_k[i - r_pre.len()]);
            }
        }
    }
}

/// A reported change never pairs a signature with an identical one: a signature
/// present on both sides is dropped, so every `modified` has `before != after`.
pub proof fn law_modified_differs(
    base: Seq<(Seq<char>, Seq<char>, Seq<char>)>,
    head: Seq<(Seq<char>, Seq<char>, Seq<char>)>,
    keys: Seq<Seq<char>>,
)
    ensures
        forall|i: int|
            0 <= i < diff_spec(base, head, keys).len() && (#[trigger] diff_spec(base, head, keys)[i]).2
                == "modified"@ ==> diff_spec(base, head, keys)[i].4 != diff_spec(base, head, keys)[i].5,
    decreases keys.len(),
{
    reveal_strlit("modified");
    reveal_strlit("removed");
    reveal_strlit("added");
    if keys.len() > 0 {
        let k = keys.last();
        law_modified_differs(base, head, keys.drop_last());
        let c = cancel(group_sigs(base, k), group_sigs(head, k));
        lemma_cancel_disjoint(group_sigs(base, k), group_sigs(head, k));
        let pre = diff_spec(base, head, keys.drop_last());
        let kc = changes_for(base, head, k);
        let all = diff_spec(base, head, keys);
        assert(all == pre + kc);
        let p: int = if c.0.len() <= c.1.len() { c.0.len() as int } else { c.1.len() as int };
        assert forall|i: int| 0 <= i < all.len() && (#[trigger] all[i]).2 == "modified"@ implies all[i].4
            != all[i].5 by {
            if i >= pre.len() {
                let j = i - pre.len();
                assert(all[i] == kc[j]);
                if j < p {
                    assert(kc[j].4 == c.0[j]);
                    assert(kc[j].5 == c.1[j]);
                    assert(c.0.contains(c.0[j]));
                    assert(c.1.contains(c.1[j]));
                } else {
                    let name = name_for(base, head, k);
                    let a = Seq::new(p as nat, |i: int| change_spec("modified"@, name, c.0[i], c.1[i]));
                    let b = Seq::new(
                        (c.0.len() - p) as nat,
                        |i: int| change_spec("removed"@, name, c.0[p + i], Seq::empty()),
                    );
                    let d = Seq::new((c.1.len() - p) as nat, |i: int| change_spec("added"@, name, Seq::empty(), c.1[p + i]));
                    assert(kc == a + b + d);
                    if j < p + b.len() {
                        assert(kc[j] == b[j - p]);
                        assert(kc[j].2 == "removed"@);
                    } else {
                        assert(kc[j] == d[j - p - b.len()]);
                        assert(kc[j].2 == "added"@);
                    }
                    assert("removed"@[0] != "modified"@[0]);
                    assert("added"@[0] != "modified"@[0]);
                }
            }
        }
    }
}

/// Most signature changes reported per review.
pub const MAX_CHANGES: usize = 100;
/// Most changed files scanned for signatures.
pub const MAX_SIG_FILES: usize = 100;
/// Largest blob read for signatures (bytes).
pub const MAX_BLOB_BYTES: u64 = 1_000_000;

pub open spec fn opt_view(o: Option<String>) -> Option<Seq<char>> {
    match o {
        Some(s) => Some(s@),
        None => None,
    }
}

pub open spec fn or_view(a: Option<Seq<char>>, b: Option<Seq<char>>) -> Option<Seq<char>> {
    match a {
        Some(x) => Some(x),
        None => b,
    }
}

fn copy_opt(o: &Option<String>) -> (r: Option<String>)
    ensures
        opt_view(r) == opt_view(*o),
{
    match o {
        Some(s) => Some(string_of(&chars_of(s.as_str()))),
        None => None,
    }
}

/// The paths the two sides of a changed file are read from: an added file has
/// no base side and a deleted one no head side; otherwise the base side reads
/// the old path and the head side the new one, each falling back to the other
/// (a plain modify carries only one of them).
pub fn side_paths(change: ChangeKind, new_path: &Option<String>, old_path: &Option<String>) -> (r: (Option<String>, Option<String>))
    ensures
        opt_view(r.0) == if change == ChangeKind::Added { None } else { or_view(opt_view(*old_path), opt_view(*new_path)) },
        opt_view(r.1) == if change == ChangeKind::Deleted { None } else { or_view(opt_view(*new_path), opt_view(*old_path)) },
{
    let base = match change {
        ChangeKind::Added => None,
        _ => if old_path.is_some() { copy_opt(old_path) } else { copy_opt(new_path) },
    };
    let head = match change {
        ChangeKind::Deleted => None,
        _ => if new_path.is_some() { copy_opt(new_path) } else { copy_opt(old_path) },
    };
    (base, head)
}

/// A side's blob is read for signatures only when it is text of at most
/// [`MAX_BLOB_BYTES`].
pub fn side_usable(is_binary: bool, bytes_len: u64) -> (r: bool)
    ensures
        r == (!is_binary && bytes_len <= MAX_BLOB_BYTES),
{
    !is_binary && bytes_len <= MAX_BLOB_BYTES
}

/// A file's signature changes stamped with its path and language.
pub open spec fn stamped(cs: Seq<SignatureChange>, file: Seq<char>, lang: Seq<char>) -> Seq<
    (Seq<char>, Seq<char>, Seq<char>, Seq<char>, Seq<char>, Seq<char>),
> {
    cs.map_values(|c: SignatureChange| (file, lang, c.kind@, c.name@, c.before@, c.after@))
}

/// Add one file's signature changes to the report's list: none when the file's
/// path escapes the repository; otherwise each stamped with the file and its
/// language, in order, until [`MAX_CHANGES`]. Whether the cap cut the file's
/// changes short is returned.
pub fn add_file_changes(
    changes: &mut Vec<SignatureChange>,
    file: &str,
    lang: &str,
    confined: bool,
    diffs: Vec<SignatureChange>,
) -> (truncated: bool)
    ensures
        ({
            let room: int = if old(changes)@.len() >= MAX_CHANGES { 0 } else { MAX_CHANGES - old(changes)@.len() };
            let all = stamped(diffs@, file@, lang@);
            &&& !confined ==> changes_view(final(changes)@) == changes_view(old(changes)@) && !truncated
            &&& confined ==> changes_view(final(changes)@) == changes_view(old(changes)@) + if all.len() <= room {
                all
            } else {
                all.take(room)
            }
            &&& confined ==> truncated == (all.len() > room)
        }),
{
    if !confined {
        return false;
    }
    let ghost c0 = changes_view(changes@);
    let ghost all = stamped(diffs@, file@, lang@);
    let ghost room: int = if changes@.len() >= MAX_CHANGES { 0 } else { MAX_CHANGES - changes@.len() };
    let mut i: usize = 0;
    while i < diffs.len()
        invariant
            i <= diffs@.len(),
            all == stamped(diffs@, file@, lang@),
            c0 == changes_view(old(changes)@),
            c0.len() == old(changes)@.len(),
            confined,
            i <= room,
            changes_view(changes@) == c0 + all.take(i as int),
            changes@.len() == c0.len() + i,
            room == if c0.len() >= MAX_CHANGES { 0 } else { MAX_CHANGES - c0.len() },
        decreases diffs.len() - i,
    {
        if changes.len() >= MAX_CHANGES {
            assert(i == room);
            return true;
        }
        let d = &diffs[i];
        let c = SignatureChange {
            file: string_of(&chars_of(file)),
            lang: string_of(&chars_of(lang)),
            kind: string_of(&chars_of(d.kind.as_str())),
            name: string_of(&chars_of(d.name.as_str())),
            before: string_of(&chars_of(d.before.as_str())),
            after: string_of(&chars_of(d.after.as_str())),
        };
        let ghost v0 = changes_view(changes@);
        changes.push(c);
        assert(changes_view(changes@) =~= v0.push(change_view(c)));
        assert(all.take(i + 1) =~= all.take(i as int).push(all[i as int]));
        i += 1;
    }
    assert(all.take(diffs@.len() as int) =~= all);
    false
}

} // verus!
