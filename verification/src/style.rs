//! A counted fingerprint of a code base's house style: comment density,
//! indentation, line length, function length, naming case and commit-message
//! conventions. Every fact is a count or a ratio of counts, never a judgement.
use vstd::prelude::*;
use vstd::relations::{sorted_by, total_ordering};
use crate::decls::lemma_index_from_range;
use crate::paths::{index_from, index_of};
use crate::decls::{decl_at, decl_exec, decls_from, lemma_next_decl, next_decl_exec, DeclSpan};
use crate::names::{names_from, names_of, NameGrammar};
use crate::paths::{eq_str, ext_or_empty, lang_of, lang_of_ext};
use crate::summaries::{brace_opened, brace_stop, brace_walk, lemma_brace_stop_range};
use crate::text::{
    chars_of, contains, contains_exec, has_prefix, has_prefix_exec, is_whitespace, is_ws, lines_spec,
    lines_of, slice_of, trim, trim_exec, trim_start, trim_start_exec, views_of,
};

verus! {

pub const CAMEL: usize = 0;
pub const PASCAL: usize = 1;
pub const SNAKE: usize = 2;
pub const SCREAMING: usize = 3;
pub const MIXED: usize = 4;

/// What `char::is_alphabetic` returns (the Unicode `Alphabetic` property).
pub uninterp spec fn alphabetic(c: char) -> bool;

/// What `char::is_uppercase` returns (the Unicode `Uppercase` property).
pub uninterp spec fn uppercase(c: char) -> bool;

/// What `char::is_lowercase` returns (the Unicode `Lowercase` property).
pub uninterp spec fn lowercase(c: char) -> bool;

/// `char::is_alphabetic`; its result is named, not stated.
#[verifier::external_body]
fn is_alphabetic(c: char) -> (r: bool)
    ensures
        r == alphabetic(c),
{
    c.is_alphabetic()
}

/// `char::is_uppercase`; its result is named, not stated.
#[verifier::external_body]
fn is_uppercase(c: char) -> (r: bool)
    ensures
        r == uppercase(c),
{
    c.is_uppercase()
}

/// `char::is_lowercase`; its result is named, not stated.
#[verifier::external_body]
fn is_lowercase(c: char) -> (r: bool)
    ensures
        r == lowercase(c),
{
    c.is_lowercase()
}

/// The case class from an identifier's letter facts.
pub open spec fn case_from_spec(
    letters: bool,
    has_upper: bool,
    has_lower: bool,
    first_upper: bool,
    underscore: bool,
) -> usize {
    if !letters {
        MIXED
    } else if underscore {
        if !has_upper {
            SNAKE
        } else if !has_lower {
            SCREAMING
        } else {
            MIXED
        }
    } else if !has_upper {
        SNAKE
    } else if first_upper {
        if has_lower {
            PASCAL
        } else {
            SCREAMING
        }
    } else {
        CAMEL
    }
}

/// Classify an identifier from its letter facts: no letters is mixed; with an
/// underscore, all-lower is snake, all-upper screaming snake, else mixed;
/// without one, no upper is snake (a single lower word), an upper first letter
/// is pascal (or screaming when nothing is lower), else camel.
pub fn case_from_flags(
    letters: bool,
    has_upper: bool,
    has_lower: bool,
    first_upper: bool,
    underscore: bool,
) -> (r: usize)
    ensures
        r == case_from_spec(letters, has_upper, has_lower, first_upper, underscore),
        r <= MIXED,
{
    if !letters {
        MIXED
    } else if underscore {
        if !has_upper {
            SNAKE
        } else if !has_lower {
            SCREAMING
        } else {
            MIXED
        }
    } else if !has_upper {
        SNAKE
    } else if first_upper {
        if has_lower {
            PASCAL
        } else {
            SCREAMING
        }
    } else {
        CAMEL
    }
}

pub open spec fn has_letter(s: Seq<char>) -> bool {
    exists|i: int| 0 <= i < s.len() && #[trigger] alphabetic(s[i])
}

pub open spec fn has_upper_letter(s: Seq<char>) -> bool {
    exists|i: int| 0 <= i < s.len() && #[trigger] alphabetic(s[i]) && uppercase(s[i])
}

pub open spec fn has_lower_letter(s: Seq<char>) -> bool {
    exists|i: int| 0 <= i < s.len() && #[trigger] alphabetic(s[i]) && lowercase(s[i])
}

/// The first letter of `s` is uppercase.
pub open spec fn first_letter_upper(s: Seq<char>) -> bool
    decreases s.len(),
{
    if s.len() == 0 {
        false
    } else if alphabetic(s[0]) {
        uppercase(s[0])
    } else {
        first_letter_upper(s.drop_first())
    }
}

pub open spec fn case_spec(s: Seq<char>) -> usize {
    case_from_spec(
        has_letter(s),
        has_upper_letter(s),
        has_lower_letter(s),
        first_letter_upper(s),
        s.contains('_'),
    )
}

/// Classify an identifier's case (camel, pascal, snake, screaming snake or
/// mixed). Coarse, but stable under majority voting.
pub fn case_of(name: &str) -> (r: usize)
    ensures
        r == case_spec(name@),
        r <= MIXED,
{
    case_of_chars(&chars_of(name))
}

fn case_of_chars(name: &Vec<char>) -> (r: usize)
    ensures
        r == case_spec(name@),
        r <= MIXED,
{
    let s = name;
    let mut letters = false;
    let mut has_upper = false;
    let mut has_lower = false;
    let mut first: Option<bool> = None;
    let mut underscore = false;
    let mut i: usize = 0;
    assert(s@.skip(0) =~= s@);
    assert(s@.take(0) =~= Seq::<char>::empty());
    while i < s.len()
        invariant
            i <= s@.len(),
            s@ == name@,
            letters == has_letter(s@.take(i as int)),
            has_upper == has_upper_letter(s@.take(i as int)),
            has_lower == has_lower_letter(s@.take(i as int)),
            underscore == s@.take(i as int).contains('_'),
            match first {
                None => !has_letter(s@.take(i as int)) && first_letter_upper(s@) == first_letter_upper(
                    s@.skip(i as int),
                ),
                Some(u) => has_letter(s@.take(i as int)) && u == first_letter_upper(s@),
            },
        decreases s.len() - i,
    {
        let c = s[i];
        let ghost t0 = s@.take(i as int);
        let ghost t1 = s@.take(i + 1);
        assert(t1 =~= t0.push(c));
        assert(t1[i as int] == c);
        assert forall|j: int| 0 <= j < i implies t1[j] == t0[j] by {}
        let a = is_alphabetic(c);
        if a {
            letters = true;
            if is_uppercase(c) {
                has_upper = true;
            }
            if is_lowercase(c) {
                has_lower = true;
            }
            if first.is_none() {
                first = Some(is_uppercase(c));
                assert(s@.skip(i as int)[0] == c);
            }
        } else if first.is_none() {
            assert(s@.skip(i as int).drop_first() =~= s@.skip(i + 1));
        }
        if c == '_' {
            underscore = true;
        }
        proof {
            if !a && first.is_none() {
                assert(s@.skip(i as int)[0] == c);
            }
            assert(has_letter(t1) == (has_letter(t0) || alphabetic(c)));
            assert(has_upper_letter(t1) == (has_upper_letter(t0) || (alphabetic(c) && uppercase(c))));
            assert(has_lower_letter(t1) == (has_lower_letter(t0) || (alphabetic(c) && lowercase(c))));
            assert(t1.contains('_') == (t0.contains('_') || c == '_'));
        }
        i += 1;
    }
    assert(s@.take(s@.len() as int) =~= s@);
    let fu = match first {
        Some(u) => u,
        None => false,
    };
    proof {
        if first is None {
            assert(s@.skip(s@.len() as int) =~= Seq::<char>::empty());
        }
    }
    case_from_flags(letters, has_upper, has_lower, fu, underscore)
}

/// The index of the last greatest count (`max_by_key` keeps the last maximum).
pub open spec fn last_max_index(c: Seq<u64>) -> int
    decreases c.len(),
{
    if c.len() <= 1 {
        0
    } else {
        let b = last_max_index(c.drop_last());
        if c.last() >= c[b] {
            c.len() - 1
        } else {
            b
        }
    }
}

pub open spec fn case_name(idx: int) -> Seq<char> {
    if idx == CAMEL {
        "camel"@
    } else if idx == PASCAL {
        "pascal"@
    } else if idx == SNAKE {
        "snake"@
    } else if idx == SCREAMING {
        "screaming_snake"@
    } else {
        "mixed"@
    }
}

/// The winning case's name, or `unknown` when nothing was counted.
pub open spec fn majority_spec(c: Seq<u64>) -> Seq<char> {
    if c.len() == 0 || c[last_max_index(c)] == 0 {
        "unknown"@
    } else {
        case_name(last_max_index(c))
    }
}

proof fn lemma_last_max_index(c: Seq<u64>)
    ensures
        c.len() > 0 ==> 0 <= last_max_index(c) < c.len(),
        forall|j: int| 0 <= j < c.len() ==> #[trigger] c[j] <= c[last_max_index(c)],
    decreases c.len(),
{
    if c.len() > 1 {
        lemma_last_max_index(c.drop_last());
        assert forall|j: int| 0 <= j < c.len() implies #[trigger] c[j] <= c[last_max_index(c)] by {
            if j < c.len() - 1 {
                assert(c.drop_last()[j] == c[j]);
            }
        }
    }
}

/// The majority case of a tally (the last of equal maxima), by name.
pub fn majority(counts: &[u64]) -> (r: String)
    ensures
        r@ == majority_spec(counts@),
{
    let ghost c = counts@;
    let _n = counts.len();
    if counts.len() == 0 {
        return "unknown".to_owned();
    }
    let mut best: usize = 0;
    let mut i: usize = 1;
    assert(c.take(1).len() == 1);
    while i < counts.len()
        invariant
            1 <= i <= c.len(),
            c == counts@,
            best < i,
            best == last_max_index(c.take(i as int)),
        decreases counts.len() - i,
    {
        assert(c.take(i + 1).drop_last() =~= c.take(i as int));
        proof {
            lemma_last_max_index(c.take(i as int));
        }
        if counts[best] <= counts[i] {
            best = i;
        }
        i += 1;
    }
    assert(c.take(c.len() as int) =~= c);
    if counts[best] == 0 {
        return "unknown".to_owned();
    }
    proof {
        reveal_strlit("camel");
        reveal_strlit("pascal");
        reveal_strlit("snake");
        reveal_strlit("screaming_snake");
        reveal_strlit("mixed");
    }
    if best == CAMEL {
        "camel".to_owned()
    } else if best == PASCAL {
        "pascal".to_owned()
    } else if best == SNAKE {
        "snake".to_owned()
    } else if best == SCREAMING {
        "screaming_snake".to_owned()
    } else {
        "mixed".to_owned()
    }
}

/// The sum of the first `n` entries.
pub open spec fn prefix_sum(h: Seq<u64>, n: int) -> int
    decreases n,
{
    if n <= 0 {
        0
    } else {
        prefix_sum(h, n - 1) + h[n - 1]
    }
}

proof fn lemma_prefix_sum_mono(h: Seq<u64>, a: int, b: int)
    requires
        0 <= a <= b <= h.len(),
    ensures
        0 <= prefix_sum(h, a) <= prefix_sum(h, b),
    decreases b,
{
    if b > 0 {
        if a < b {
            lemma_prefix_sum_mono(h, a, b - 1);
        } else {
            lemma_prefix_sum_mono(h, a - 1, b - 1);
        }
    }
}

/// `ceil(x / 100)`.
pub open spec fn ceil_hundredth(x: int) -> int {
    x / 100 + if x % 100 == 0 {
        0int
    } else {
        1int
    }
}

/// The first index from `k` at which the running total reaches `target`,
/// or the last index.
pub open spec fn first_reaching(h: Seq<u64>, target: int, k: int) -> int
    decreases h.len() - k,
{
    if k >= h.len() {
        h.len() - 1
    } else if prefix_sum(h, k + 1) >= target {
        k
    } else {
        first_reaching(h, target, k + 1)
    }
}

/// The `p`-th percentile index of a histogram: the first bucket whose running
/// total reaches `ceil(total * p / 100)`; 0 for an empty histogram.
pub open spec fn percentile_spec(h: Seq<u64>, p: u64) -> int {
    let total = prefix_sum(h, h.len() as int);
    if total == 0 {
        0
    } else {
        first_reaching(h, ceil_hundredth(total * p), 0)
    }
}

/// The `p`-th percentile bucket of a histogram (bucket index = value).
pub fn percentile_hist(hist: &[u64], p: u64) -> (r: u32)
    requires
        prefix_sum(hist@, hist@.len() as int) <= u64::MAX,
        prefix_sum(hist@, hist@.len() as int) * p <= u64::MAX,
        hist@.len() <= u32::MAX + 1,
    ensures
        r == percentile_spec(hist@, p),
{
    let ghost h = hist@;
    let n = hist.len();
    let mut total: u64 = 0;
    let mut i: usize = 0;
    while i < n
        invariant
            i <= n == h.len(),
            h == hist@,
            total == prefix_sum(h, i as int),
            prefix_sum(h, h.len() as int) <= u64::MAX,
        decreases n - i,
    {
        proof {
            lemma_prefix_sum_mono(h, i + 1, h.len() as int);
        }
        total = total + hist[i];
        i += 1;
    }
    if total == 0 {
        return 0;
    }
    let x = total * p;
    let target = x / 100 + if x % 100 == 0 { 0 } else { 1 };
    let mut cum: u64 = 0;
    let mut k: usize = 0;
    while k < n
        invariant
            k <= n == h.len(),
            h == hist@,
            cum == prefix_sum(h, k as int),
            total == prefix_sum(h, h.len() as int),
            total > 0,
            target == ceil_hundredth(total * p),
            first_reaching(h, target as int, 0) == first_reaching(h, target as int, k as int),
            n <= u32::MAX + 1,
        decreases n - k,
    {
        proof {
            lemma_prefix_sum_mono(h, k + 1, h.len() as int);
        }
        cum = cum + hist[k];
        if cum >= target {
            return k as u32;
        }
        k += 1;
    }
    (n - 1) as u32
}


/// The order of `u32` values.
pub open spec fn u32_leq() -> spec_fn(u32, u32) -> bool {
    |a: u32, b: u32| a <= b
}

pub proof fn lemma_u32_leq_total()
    ensures
        total_ordering(u32_leq()),
{
    reveal(vstd::relations::reflexive);
    reveal(vstd::relations::antisymmetric);
    reveal(vstd::relations::transitive);
    reveal(vstd::relations::strongly_connected);
}

/// The values in ascending order.
pub fn sorted_u32(v: &[u32]) -> (r: Vec<u32>)
    ensures
        r@ == v@.sort_by(u32_leq()),
{
    broadcast use vstd::seq_lib::group_to_multiset_ensures;
    let ghost leq = u32_leq();
    let _n = v.len();
    let mut r: Vec<u32> = Vec::new();
    let mut i: usize = 0;
    while i < v.len()
        invariant
            i <= v@.len(),
            leq == u32_leq(),
            sorted_by(r@, leq),
            r@.to_multiset() == v@.take(i as int).to_multiset(),
        decreases v.len() - i,
    {
        let x = v[i];
        let mut p: usize = 0;
        while p < r.len() && r[p] <= x
            invariant
                p <= r@.len(),
                forall|j: int| 0 <= j < p ==> #[trigger] r@[j] <= x,
            decreases r.len() - p,
        {
            p += 1;
        }
        let ghost r0 = r@;
        r.insert(p, x);
        assert(r@ =~= r0.insert(p as int, x));
        assert forall|a: int, b: int| 0 <= a < b < r@.len() implies #[trigger] leq(r@[a], r@[b]) by {
            if b < p {
                assert(leq(r0[a], r0[b]));
            } else if b == p {
                assert(r0[a] <= x);
            } else if a == p {
                assert(r@[b] == r0[b - 1]);
                if b - 1 > p {
                    assert(leq(r0[p as int], r0[b - 1]));
                }
            } else if a < p {
                assert(leq(r0[a], r0[b - 1]));
            } else {
                assert(leq(r0[a - 1], r0[b - 1]));
            }
        }
        assert(v@.take(i + 1) =~= v@.take(i as int).push(x));
        proof {
            vstd::seq_lib::to_multiset_insert(r0, p as int, x);
            vstd::seq_lib::to_multiset_build(v@.take(i as int), x);
        }
        i += 1;
    }
    assert(v@.take(v@.len() as int) =~= v@);
    proof {
        lemma_u32_leq_total();
        v@.lemma_sort_by_ensures(leq);
        vstd::seq_lib::lemma_sorted_unique(r@, v@.sort_by(leq), leq);
    }
    r
}

pub open spec fn median_spec(v: Seq<u32>) -> u32 {
    if v.len() == 0 {
        0
    } else {
        v.sort_by(u32_leq())[(v.len() / 2) as int]
    }
}

/// The median (the upper one of an even count); 0 for no values.
pub fn median(vals: &[u32]) -> (r: u32)
    ensures
        r == median_spec(vals@),
{
    let _n = vals.len();
    if vals.len() == 0 {
        return 0;
    }
    let s = sorted_u32(vals);
    proof {
        broadcast use vstd::seq_lib::group_to_multiset_ensures;
        lemma_u32_leq_total();
        vals@.lemma_sort_by_ensures(u32_leq());
        vstd::seq_lib::to_multiset_len(vals@);
        vstd::seq_lib::to_multiset_len(s@);
        assert(s@.len() == vals@.len());
    }
    s[vals.len() / 2]
}

/// The index the `p`-th percentile of `n` sorted values reads:
/// `ceil(n * p / 100) - 1`, kept within `0..n`.
pub open spec fn pct_index(n: int, p: int) -> int {
    let c = ceil_hundredth(n * p) - 1;
    let c0 = if c < 0 { 0 } else { c };
    if c0 > n - 1 { n - 1 } else { c0 }
}

pub open spec fn pct_spec(sorted: Seq<u32>, p: int) -> u32 {
    if sorted.len() == 0 {
        0
    } else {
        sorted[pct_index(sorted.len() as int, p)]
    }
}

/// The `p`-th percentile of already-sorted values; 0 for none.
pub fn pct(sorted: &[u32], p: usize) -> (r: u32)
    requires
        sorted@.len() * p <= usize::MAX,
    ensures
        r == pct_spec(sorted@, p as int),
{
    let n = sorted.len();
    if n == 0 {
        return 0;
    }
    let x = n * p;
    let c = x / 100 + if x % 100 == 0 { 0 } else { 1 };
    let c0 = if c == 0 { 0 } else { c - 1 };
    let idx = if c0 > n - 1 { n - 1 } else { c0 };
    sorted[idx]
}

/// `[a-z0-9]*` from `i`.
pub open spec fn lower_alnum_end(s: Seq<char>, i: int) -> int
    decreases s.len() - i,
{
    if 0 <= i < s.len() && (('a' <= s[i] && s[i] <= 'z') || ('0' <= s[i] && s[i] <= '9')) {
        lower_alnum_end(s, i + 1)
    } else {
        i
    }
}

/// A Conventional Commits subject: `type(scope)!: description` — a lower-case
/// type of ASCII letters and digits starting with a letter, an optional
/// parenthesised scope, an optional `!`, a colon and a whitespace char.
pub open spec fn conventional_spec(s: Seq<char>) -> bool {
    if s.len() == 0 || !('a' <= s[0] && s[0] <= 'z') {
        false
    } else {
        let a = lower_alnum_end(s, 1);
        let b = if a < s.len() && s[a] == '(' {
            match index_from(s, ')', a + 1) {
                Some(c) => c + 1,
                None => a,
            }
        } else {
            a
        };
        let c = if b < s.len() && s[b] == '!' { b + 1 } else { b };
        c + 1 < s.len() && s[c] == ':' && is_ws(s[c + 1])
    }
}

proof fn lemma_lower_alnum_end_range(s: Seq<char>, i: int)
    requires
        0 <= i <= s.len(),
    ensures
        i <= lower_alnum_end(s, i) <= s.len(),
    decreases s.len() - i,
{
    if i < s.len() && (('a' <= s[i] && s[i] <= 'z') || ('0' <= s[i] && s[i] <= '9')) {
        lemma_lower_alnum_end_range(s, i + 1);
    }
}

/// Whether a commit subject follows Conventional Commits.
pub fn is_conventional(subject: &str) -> (r: bool)
    ensures
        r == conventional_spec(subject@),
{
    let s = chars_of(subject);
    if s.len() == 0 || !('a' <= s[0] && s[0] <= 'z') {
        return false;
    }
    let mut a: usize = 1;
    while a < s.len() && (('a' <= s[a] && s[a] <= 'z') || ('0' <= s[a] && s[a] <= '9'))
        invariant
            1 <= a <= s@.len(),
            lower_alnum_end(s@, 1) == lower_alnum_end(s@, a as int),
        decreases s.len() - a,
    {
        a += 1;
    }
    let mut b = a;
    if a < s.len() && s[a] == '(' {
        proof {
            lemma_index_from_range(s@, ')', a + 1);
        }
        match index_of(&s, ')', a + 1) {
            Some(c) => {
                b = c + 1;
            },
            None => {},
        }
    }
    let c = if b < s.len() && s[b] == '!' { b + 1 } else { b };
    c < s.len() && c + 1 < s.len() && s[c] == ':' && is_whitespace(s[c + 1])
}


// ---- per-line classification ----------------------------------------------

/// What a line is, for the comment and line-length counts.
#[derive(PartialEq, Eq, Structural, Clone, Copy)]
pub enum Kind {
    Code,
    Comment,
    Blank,
}

/// The languages with `//` line and `/* */` block comments.
pub open spec fn c_family(lang: Seq<char>) -> bool {
    ||| lang == "go"@
    ||| lang == "rust"@
    ||| lang == "c"@
    ||| lang == "cpp"@
    ||| lang == "java"@
    ||| lang == "typescript"@
    ||| lang == "javascript"@
}

pub open spec fn line_comment_spec(lang: Seq<char>) -> Option<Seq<char>> {
    if lang == "python"@ {
        Some("#"@)
    } else if c_family(lang) {
        Some("//"@)
    } else {
        None
    }
}

pub open spec fn block_comment_spec(lang: Seq<char>) -> Option<(Seq<char>, Seq<char>)> {
    if c_family(lang) {
        Some(("/*"@, "*/"@))
    } else {
        None
    }
}

fn is_c_family(lang: &[char]) -> (r: bool)
    ensures
        r == c_family(lang@),
{
    eq_str(lang, "go") || eq_str(lang, "rust") || eq_str(lang, "c") || eq_str(lang, "cpp")
        || eq_str(lang, "java") || eq_str(lang, "typescript") || eq_str(lang, "javascript")
}

/// The line-comment token of a language.
pub fn line_comment(lang: &str) -> (r: Option<&'static str>)
    ensures
        match r {
            Some(t) => line_comment_spec(lang@) == Some(t@),
            None => line_comment_spec(lang@) is None,
        },
{
    let l = chars_of(lang);
    if eq_str(&l, "python") {
        Some("#")
    } else if is_c_family(&l) {
        Some("//")
    } else {
        None
    }
}

/// The block-comment delimiters of a language.
pub fn block_comment(lang: &str) -> (r: Option<(&'static str, &'static str)>)
    ensures
        match r {
            Some((o, c)) => block_comment_spec(lang@) == Some((o@, c@)),
            None => block_comment_spec(lang@) is None,
        },
{
    let l = chars_of(lang);
    if is_c_family(&l) {
        Some(("/*", "*/"))
    } else {
        None
    }
}

/// One line's kind from its left-trimmed text and the block-comment state
/// before it, with the state after it.
pub open spec fn kind_step(
    t: Seq<char>,
    in_block: bool,
    tok: Option<Seq<char>>,
    blk: Option<(Seq<char>, Seq<char>)>,
) -> (Kind, bool) {
    if in_block {
        (Kind::Comment, !(blk matches Some((_o, c)) && contains(t, c)))
    } else if t.len() == 0 {
        (Kind::Blank, false)
    } else if tok matches Some(k) && has_prefix(t, k) {
        (Kind::Comment, false)
    } else {
        match blk {
            Some((o, c)) => if has_prefix(t, o) {
                (Kind::Comment, !contains(t, c))
            } else {
                (Kind::Code, false)
            },
            None => (Kind::Code, false),
        }
    }
}

/// Inside a block comment before line `i`.
pub open spec fn block_before(ls: Seq<Seq<char>>, lang: Seq<char>, i: int) -> bool
    decreases i,
{
    if i <= 0 {
        false
    } else {
        kind_step(
            trim_start(ls[i - 1]),
            block_before(ls, lang, i - 1),
            line_comment_spec(lang),
            block_comment_spec(lang),
        ).1
    }
}

pub open spec fn kinds_spec(ls: Seq<Seq<char>>, lang: Seq<char>) -> Seq<Kind> {
    Seq::new(
        ls.len(),
        |i: int|
            kind_step(
                trim_start(ls[i]),
                block_before(ls, lang, i),
                line_comment_spec(lang),
                block_comment_spec(lang),
            ).0,
    )
}

/// The first non-blank kind at or after `from`.
pub open spec fn next_nonblank_spec(ks: Seq<Kind>, from: int) -> Option<Kind>
    decreases ks.len() - from,
{
    if from < 0 || from >= ks.len() {
        None
    } else if ks[from] != Kind::Blank {
        Some(ks[from])
    } else {
        next_nonblank_spec(ks, from + 1)
    }
}

fn next_nonblank(kinds: &Vec<Kind>, from: usize) -> (r: Option<Kind>)
    ensures
        r == next_nonblank_spec(kinds@, from as int),
{
    let mut i = from;
    while i < kinds.len()
        invariant
            from <= i,
            next_nonblank_spec(kinds@, from as int) == next_nonblank_spec(kinds@, i as int),
        decreases kinds.len() - i,
    {
        if kinds[i] != Kind::Blank {
            return Some(kinds[i]);
        }
        i += 1;
    }
    None
}

// ---- counting ---------------------------------------------------------------

/// How many of the indices `0..n` satisfy `p`.
pub open spec fn count_where(n: int, p: spec_fn(int) -> bool) -> nat
    decreases n,
{
    if n <= 0 {
        0
    } else {
        count_where(n - 1, p) + if p(n - 1) {
            1nat
        } else {
            0nat
        }
    }
}

proof fn lemma_count_where_mono(a: int, b: int, p: spec_fn(int) -> bool)
    requires
        0 <= a <= b,
    ensures
        count_where(a, p) <= count_where(b, p),
    decreases b - a,
{
    if a < b {
        lemma_count_where_mono(a, b - 1, p);
    }
}

pub open spec fn kind_is(ks: Seq<Kind>, k: Kind) -> spec_fn(int) -> bool {
    |i: int| ks[i] == k
}

/// A comment whose next non-blank line is code (a doc comment).
pub open spec fn leading_at(ks: Seq<Kind>) -> spec_fn(int) -> bool {
    |i: int| ks[i] == Kind::Comment && next_nonblank_spec(ks, i + 1) == Some(Kind::Code)
}

/// A code line indented with `c`.
pub open spec fn indent_at(ls: Seq<Seq<char>>, ks: Seq<Kind>, c: char) -> spec_fn(int) -> bool {
    |i: int| ks[i] == Kind::Code && ls[i].len() > 0 && ls[i][0] == c
}

/// Longest line length tracked in the histogram (longer ones count as this).
pub const MAX_LINE: usize = 500;

pub open spec fn clamp_len(n: nat) -> int {
    if n > MAX_LINE { MAX_LINE as int } else { n as int }
}

/// A code line of (clamped) length `k`.
pub open spec fn len_at(ls: Seq<Seq<char>>, ks: Seq<Kind>, k: int) -> spec_fn(int) -> bool {
    |i: int| ks[i] == Kind::Code && clamp_len(ls[i].len()) == k
}

pub open spec fn case_at(names: Seq<Seq<char>>, c: int) -> spec_fn(int) -> bool {
    |i: int| case_spec(names[i]) == c
}

pub open spec fn exported_at(fns: Seq<(Seq<char>, bool)>) -> spec_fn(int) -> bool {
    |i: int| fns[i].1
}

pub open spec fn fn_names(fns: Seq<(Seq<char>, bool)>) -> Seq<Seq<char>> {
    fns.map_values(|f: (Seq<char>, bool)| f.0)
}

/// The function declarations of a text with whether each is exported: a Go
/// name starting upper-case, a Rust `pub` item.
pub open spec fn functions_spec(text: Seq<char>, lang: Seq<char>) -> Seq<(Seq<char>, bool)> {
    if lang == "go"@ {
        decls_from(text, 0, true).map_values(
            |m: (int, DeclSpan)| (text.subrange(m.1.0, m.1.1), uppercase(text[m.1.0])),
        )
    } else if lang == "rust"@ {
        decls_from(text, 0, false).map_values(|m: (int, DeclSpan)| (text.subrange(m.1.0, m.1.1), m.1.3))
    } else {
        Seq::empty()
    }
}

pub open spec fn variables_spec(text: Seq<char>, lang: Seq<char>) -> Seq<Seq<char>> {
    if lang == "go"@ {
        names_from(NameGrammar::GoVar, text, 0)
    } else if lang == "rust"@ {
        names_from(NameGrammar::RustVar, text, 0)
    } else {
        Seq::empty()
    }
}

pub open spec fn constants_spec(text: Seq<char>, lang: Seq<char>) -> Seq<Seq<char>> {
    if lang == "go"@ {
        names_from(NameGrammar::GoConst, text, 0)
    } else if lang == "rust"@ {
        names_from(NameGrammar::RustConst, text, 0)
    } else {
        Seq::empty()
    }
}

pub open spec fn clamp_u32(n: int) -> u32 {
    if n > u32::MAX { u32::MAX } else { n as u32 }
}

/// The line spans of the brace-balanced bodies from line `i` on: a line that
/// opens a declaration whose walk met a `{` counts the lines through where the
/// walk stopped, and the scan resumes after them.
pub open spec fn fn_lens_from(ls: Seq<Seq<char>>, i: int, go: bool) -> Seq<u32>
    decreases ls.len() - i,
{
    if i < 0 || i >= ls.len() {
        Seq::empty()
    } else if decl_at(ls[i], 0, go) is Some && brace_opened(ls, i) {
        let e = brace_stop(ls, i, i).0;
        proof {
            lemma_brace_stop_range(ls, i, i);
        }
        if e + 1 < ls.len() {
            seq![clamp_u32(e - i + 1)] + fn_lens_from(ls, e + 1, go)
        } else {
            seq![clamp_u32(e - i + 1)]
        }
    } else {
        fn_lens_from(ls, i + 1, go)
    }
}

pub open spec fn fn_lens_spec(text: Seq<char>, lang: Seq<char>) -> Seq<u32> {
    if lang == "go"@ || lang == "rust"@ {
        fn_lens_from(lines_spec(text), 0, lang == "go"@)
    } else {
        Seq::empty()
    }
}

/// What one text adds to the tally.
pub struct Tally {
    pub code_lines: nat,
    pub comment_lines: nat,
    pub leading_comments: nat,
    pub tab_indents: nat,
    pub space_indents: nat,
    pub line_hist: Seq<nat>,
    pub fn_lens: Seq<u32>,
    pub fn_case: Seq<nat>,
    pub var_case: Seq<nat>,
    pub const_case: Seq<nat>,
    pub fn_total: nat,
    pub fn_exported: nat,
}

pub open spec fn tally_spec(text: Seq<char>, lang: Seq<char>) -> Tally {
    let ls = lines_spec(text);
    let ks = kinds_spec(ls, lang);
    let n = ls.len() as int;
    let fns = functions_spec(text, lang);
    let vars = variables_spec(text, lang);
    let consts = constants_spec(text, lang);
    Tally {
        code_lines: count_where(n, kind_is(ks, Kind::Code)),
        comment_lines: count_where(n, kind_is(ks, Kind::Comment)),
        leading_comments: count_where(n, leading_at(ks)),
        tab_indents: count_where(n, indent_at(ls, ks, '\t')),
        space_indents: count_where(n, indent_at(ls, ks, ' ')),
        line_hist: Seq::new((MAX_LINE + 1) as nat, |k: int| count_where(n, len_at(ls, ks, k))),
        fn_lens: fn_lens_spec(text, lang),
        fn_case: Seq::new(5, |c: int| count_where(fns.len() as int, case_at(fn_names(fns), c))),
        var_case: Seq::new(5, |c: int| count_where(vars.len() as int, case_at(vars, c))),
        const_case: Seq::new(5, |c: int| count_where(consts.len() as int, case_at(consts, c))),
        fn_total: fns.len(),
        fn_exported: count_where(fns.len() as int, exported_at(fns)),
    }
}

/// A running tally over one or more files. Line lengths go to a fixed-size
/// histogram so hostile input cannot blow up memory.
pub struct Acc {
    pub code_lines: u64,
    pub comment_lines: u64,
    pub leading_comments: u64,
    pub tab_indents: u64,
    pub space_indents: u64,
    pub line_hist: Vec<u64>,
    pub fn_hist: Vec<u32>,
    pub fn_case: Vec<u64>,
    pub var_case: Vec<u64>,
    pub const_case: Vec<u64>,
    pub fn_total: u64,
    pub fn_exported: u64,
    pub seen: bool,
}

impl Acc {
    /// The histogram has a bucket per length up to `MAX_LINE`, each case tally
    /// five classes, and the histogram counts every code line once.
    pub open spec fn wf(&self) -> bool {
        &&& self.line_hist@.len() == MAX_LINE + 1
        &&& self.fn_case@.len() == 5
        &&& self.var_case@.len() == 5
        &&& self.const_case@.len() == 5
        &&& prefix_sum(self.line_hist@, (MAX_LINE + 1) as int) == self.code_lines
    }

    /// Adding `t` overflows no counter.
    pub open spec fn fits(&self, t: Tally) -> bool {
        &&& self.code_lines + t.code_lines <= u64::MAX
        &&& self.comment_lines + t.comment_lines <= u64::MAX
        &&& self.leading_comments + t.leading_comments <= u64::MAX
        &&& self.tab_indents + t.tab_indents <= u64::MAX
        &&& self.space_indents + t.space_indents <= u64::MAX
        &&& self.fn_total + t.fn_total <= u64::MAX
        &&& self.fn_exported + t.fn_exported <= u64::MAX
        &&& forall|k: int| 0 <= k <= MAX_LINE ==> self.line_hist@[k] + #[trigger] t.line_hist[k] <= u64::MAX
        &&& forall|c: int| 0 <= c < 5 ==> self.fn_case@[c] + #[trigger] t.fn_case[c] <= u64::MAX
        &&& forall|c: int| 0 <= c < 5 ==> self.var_case@[c] + #[trigger] t.var_case[c] <= u64::MAX
        &&& forall|c: int| 0 <= c < 5 ==> self.const_case@[c] + #[trigger] t.const_case[c] <= u64::MAX
    }

    /// `b` is `a` with `t` added, and marked seen.
    pub open spec fn added(a: Acc, b: Acc, t: Tally) -> bool {
        &&& b.code_lines == a.code_lines + t.code_lines
        &&& b.comment_lines == a.comment_lines + t.comment_lines
        &&& b.leading_comments == a.leading_comments + t.leading_comments
        &&& b.tab_indents == a.tab_indents + t.tab_indents
        &&& b.space_indents == a.space_indents + t.space_indents
        &&& b.fn_total == a.fn_total + t.fn_total
        &&& b.fn_exported == a.fn_exported + t.fn_exported
        &&& forall|k: int| 0 <= k <= MAX_LINE ==> #[trigger] b.line_hist@[k] == a.line_hist@[k] + t.line_hist[k]
        &&& forall|c: int| 0 <= c < 5 ==> #[trigger] b.fn_case@[c] == a.fn_case@[c] + t.fn_case[c]
        &&& forall|c: int| 0 <= c < 5 ==> #[trigger] b.var_case@[c] == a.var_case@[c] + t.var_case[c]
        &&& forall|c: int| 0 <= c < 5 ==> #[trigger] b.const_case@[c] == a.const_case@[c] + t.const_case[c]
        &&& b.fn_hist@ == a.fn_hist@ + t.fn_lens
        &&& b.seen
    }

    /// An empty tally.
    pub fn new() -> (r: Acc)
        ensures
            r.wf(),
            r.code_lines == 0 && r.comment_lines == 0 && r.leading_comments == 0,
            r.tab_indents == 0 && r.space_indents == 0 && r.fn_total == 0 && r.fn_exported == 0,
            forall|k: int| 0 <= k <= MAX_LINE ==> #[trigger] r.line_hist@[k] == 0,
            forall|c: int| 0 <= c < 5 ==> #[trigger] r.fn_case@[c] == 0 && r.var_case@[c] == 0 && r.const_case@[c] == 0,
            r.fn_hist@.len() == 0,
            !r.seen,
    {
        let mut hist: Vec<u64> = Vec::new();
        let mut k: usize = 0;
        while k <= MAX_LINE
            invariant
                k <= MAX_LINE + 1,
                hist@.len() == k,
                forall|j: int| 0 <= j < k ==> #[trigger] hist@[j] == 0,
                prefix_sum(hist@, k as int) == 0,
            decreases MAX_LINE + 1 - k,
        {
            let ghost h0 = hist@;
            hist.push(0);
            assert forall|n: int| 0 <= n <= k implies prefix_sum(hist@, n) == prefix_sum(h0, n) by {
                lemma_prefix_sum_prefix(hist@, h0, n);
            }
            k += 1;
        }
        Acc {
            code_lines: 0,
            comment_lines: 0,
            leading_comments: 0,
            tab_indents: 0,
            space_indents: 0,
            line_hist: hist,
            fn_hist: Vec::new(),
            fn_case: vec![0, 0, 0, 0, 0],
            var_case: vec![0, 0, 0, 0, 0],
            const_case: vec![0, 0, 0, 0, 0],
            fn_total: 0,
            fn_exported: 0,
            seen: false,
        }
    }
}

impl Default for Acc {
    fn default() -> (r: Acc)
        ensures
            r.wf(),
            r.code_lines == 0 && r.comment_lines == 0 && r.leading_comments == 0,
            r.tab_indents == 0 && r.space_indents == 0 && r.fn_total == 0 && r.fn_exported == 0,
            forall|k: int| 0 <= k <= MAX_LINE ==> #[trigger] r.line_hist@[k] == 0,
            forall|c: int| 0 <= c < 5 ==> #[trigger] r.fn_case@[c] == 0 && r.var_case@[c] == 0 && r.const_case@[c] == 0,
            r.fn_hist@.len() == 0,
            !r.seen,
    {
        Acc::new()
    }
}

/// Two sequences that agree below `n` have the same sum below `n`.
proof fn lemma_prefix_sum_prefix(a: Seq<u64>, b: Seq<u64>, n: int)
    requires
        0 <= n <= a.len(),
        n <= b.len(),
        forall|j: int| 0 <= j < n ==> a[j] == b[j],
    ensures
        prefix_sum(a, n) == prefix_sum(b, n),
    decreases n,
{
    if n > 0 {
        lemma_prefix_sum_prefix(a, b, n - 1);
    }
}


pub open spec fn tok_view(t: Option<Vec<char>>) -> Option<Seq<char>> {
    match t {
        Some(v) => Some(v@),
        None => None,
    }
}

pub open spec fn blk_view(b: Option<(Vec<char>, Vec<char>)>) -> Option<(Seq<char>, Seq<char>)> {
    match b {
        Some((o, c)) => Some((o@, c@)),
        None => None,
    }
}

fn kind_step_exec(
    t: &Vec<char>,
    in_block: bool,
    tok: &Option<Vec<char>>,
    blk: &Option<(Vec<char>, Vec<char>)>,
) -> (r: (Kind, bool))
    ensures
        r == kind_step(t@, in_block, tok_view(*tok), blk_view(*blk)),
{
    if in_block {
        let closes = match blk {
            Some((_o, c)) => contains_exec(t, c),
            None => false,
        };
        (Kind::Comment, !closes)
    } else if t.len() == 0 {
        (Kind::Blank, false)
    } else {
        let starts = match tok {
            Some(k) => has_prefix_exec(t, k),
            None => false,
        };
        if starts {
            (Kind::Comment, false)
        } else {
            match blk {
                Some((o, c)) => if has_prefix_exec(t, o) {
                    (Kind::Comment, !contains_exec(t, c))
                } else {
                    (Kind::Code, false)
                },
                None => (Kind::Code, false),
            }
        }
    }
}

/// The kind of every line, tracking block-comment state.
pub fn classify(lines: &Vec<Vec<char>>, lang: &str) -> (r: Vec<Kind>)
    ensures
        r@ == kinds_spec(views_of(lines@), lang@),
{
    let ghost ls = views_of(lines@);
    let tok: Option<Vec<char>> = match line_comment(lang) {
        Some(t) => Some(chars_of(t)),
        None => None,
    };
    let blk: Option<(Vec<char>, Vec<char>)> = match block_comment(lang) {
        Some((o, c)) => Some((chars_of(o), chars_of(c))),
        None => None,
    };
    let mut kinds: Vec<Kind> = Vec::new();
    let mut in_block = false;
    let mut i: usize = 0;
    while i < lines.len()
        invariant
            i <= lines@.len(),
            ls == views_of(lines@),
            tok_view(tok) == line_comment_spec(lang@),
            blk_view(blk) == block_comment_spec(lang@),
            in_block == block_before(ls, lang@, i as int),
            kinds@ == kinds_spec(ls, lang@).take(i as int),
        decreases lines.len() - i,
    {
        assert(ls[i as int] == lines@[i as int]@);
        let t = trim_start_exec(&lines[i]);
        let (k, next) = kind_step_exec(&t, in_block, &tok, &blk);
        kinds.push(k);
        in_block = next;
        assert(kinds@ =~= kinds_spec(ls, lang@).take(i + 1));
        i += 1;
    }
    assert(kinds_spec(ls, lang@).take(lines@.len() as int) =~= kinds_spec(ls, lang@));
    kinds
}

proof fn lemma_prefix_sum_bump(h: Seq<u64>, k: int, n: int)
    requires
        0 <= k < h.len(),
        0 <= n <= h.len(),
        h[k] < u64::MAX,
    ensures
        prefix_sum(h.update(k, (h[k] + 1) as u64), n) == prefix_sum(h, n) + if k < n {
            1int
        } else {
            0int
        },
    decreases n,
{
    if n > 0 {
        lemma_prefix_sum_bump(h, k, n - 1);
    }
}

/// Count the line facts of one text into `acc`.
fn count_lines(acc: &mut Acc, lines: &Vec<Vec<char>>, kinds: &Vec<Kind>)
    requires
        old(acc).wf(),
        kinds@.len() == lines@.len(),
        ({
            let ls = views_of(lines@);
            let ks = kinds@;
            let n = ls.len() as int;
            &&& old(acc).code_lines + count_where(n, kind_is(ks, Kind::Code)) <= u64::MAX
            &&& old(acc).comment_lines + count_where(n, kind_is(ks, Kind::Comment)) <= u64::MAX
            &&& old(acc).leading_comments + count_where(n, leading_at(ks)) <= u64::MAX
            &&& old(acc).tab_indents + count_where(n, indent_at(ls, ks, '\t')) <= u64::MAX
            &&& old(acc).space_indents + count_where(n, indent_at(ls, ks, ' ')) <= u64::MAX
            &&& forall|k: int| 0 <= k <= MAX_LINE ==> old(acc).line_hist@[k] + #[trigger] count_where(n, len_at(ls, ks, k)) <= u64::MAX
        }),
    ensures
        final(acc).wf(),
        ({
            let ls = views_of(lines@);
            let ks = kinds@;
            let n = ls.len() as int;
            &&& final(acc).code_lines == old(acc).code_lines + count_where(n, kind_is(ks, Kind::Code))
            &&& final(acc).comment_lines == old(acc).comment_lines + count_where(n, kind_is(ks, Kind::Comment))
            &&& final(acc).leading_comments == old(acc).leading_comments + count_where(n, leading_at(ks))
            &&& final(acc).tab_indents == old(acc).tab_indents + count_where(n, indent_at(ls, ks, '\t'))
            &&& final(acc).space_indents == old(acc).space_indents + count_where(n, indent_at(ls, ks, ' '))
            &&& forall|k: int| 0 <= k <= MAX_LINE ==> #[trigger] final(acc).line_hist@[k] == old(acc).line_hist@[k] + count_where(n, len_at(ls, ks, k))
        }),
        final(acc).fn_hist == old(acc).fn_hist,
        final(acc).fn_case == old(acc).fn_case,
        final(acc).var_case == old(acc).var_case,
        final(acc).const_case == old(acc).const_case,
        final(acc).fn_total == old(acc).fn_total,
        final(acc).fn_exported == old(acc).fn_exported,
        final(acc).seen == old(acc).seen,
{
    let ghost a = *acc;
    let ghost ls = views_of(lines@);
    let ghost ks = kinds@;
    let ghost n = ls.len() as int;
    let mut i: usize = 0;
    while i < lines.len()
        invariant
            i <= lines@.len(),
            ls == views_of(lines@),
            ks == kinds@,
            n == ls.len(),
            ks.len() == n,
            acc.wf(),
            a.code_lines + count_where(n, kind_is(ks, Kind::Code)) <= u64::MAX,
            a.comment_lines + count_where(n, kind_is(ks, Kind::Comment)) <= u64::MAX,
            a.leading_comments + count_where(n, leading_at(ks)) <= u64::MAX,
            a.tab_indents + count_where(n, indent_at(ls, ks, '\t')) <= u64::MAX,
            a.space_indents + count_where(n, indent_at(ls, ks, ' ')) <= u64::MAX,
            forall|k: int| 0 <= k <= MAX_LINE ==> a.line_hist@[k] + #[trigger] count_where(n, len_at(ls, ks, k)) <= u64::MAX,
            acc.code_lines == a.code_lines + count_where(i as int, kind_is(ks, Kind::Code)),
            acc.comment_lines == a.comment_lines + count_where(i as int, kind_is(ks, Kind::Comment)),
            acc.leading_comments == a.leading_comments + count_where(i as int, leading_at(ks)),
            acc.tab_indents == a.tab_indents + count_where(i as int, indent_at(ls, ks, '\t')),
            acc.space_indents == a.space_indents + count_where(i as int, indent_at(ls, ks, ' ')),
            forall|k: int| 0 <= k <= MAX_LINE ==> #[trigger] acc.line_hist@[k] == a.line_hist@[k] + count_where(i as int, len_at(ls, ks, k)),
            acc.fn_hist == a.fn_hist,
            acc.fn_case == a.fn_case,
            acc.var_case == a.var_case,
            acc.const_case == a.const_case,
            acc.fn_total == a.fn_total,
            acc.fn_exported == a.fn_exported,
            acc.seen == a.seen,
        decreases lines.len() - i,
    {
        let ghost ii = i as int;
        proof {
            lemma_count_where_mono(ii + 1, n, kind_is(ks, Kind::Code));
            lemma_count_where_mono(ii + 1, n, kind_is(ks, Kind::Comment));
            lemma_count_where_mono(ii + 1, n, leading_at(ks));
            lemma_count_where_mono(ii + 1, n, indent_at(ls, ks, '\t'));
            lemma_count_where_mono(ii + 1, n, indent_at(ls, ks, ' '));
        }
        assert(ls[ii] == lines@[ii]@);
        let line = &lines[i];
        let kind = kinds[i];
        match kind {
            Kind::Blank => {},
            Kind::Comment => {
                acc.comment_lines = acc.comment_lines + 1;
                match next_nonblank(kinds, i + 1) {
                    Some(Kind::Code) => {
                        acc.leading_comments = acc.leading_comments + 1;
                    },
                    _ => {},
                }
            },
            Kind::Code => {
                let len = if line.len() > MAX_LINE { MAX_LINE } else { line.len() };
                let ghost h0 = acc.line_hist@;
                proof {
                    lemma_count_where_mono(ii + 1, n, len_at(ls, ks, len as int));
                    assert(len_at(ls, ks, len as int)(ii));
                    lemma_prefix_sum_bump(h0, len as int, (MAX_LINE + 1) as int);
                }
                acc.code_lines = acc.code_lines + 1;
                let cur = acc.line_hist[len];
                acc.line_hist.set(len, cur + 1);
                if line.len() > 0 && line[0] == '\t' {
                    acc.tab_indents = acc.tab_indents + 1;
                } else if line.len() > 0 && line[0] == ' ' {
                    acc.space_indents = acc.space_indents + 1;
                }
            },
        }
        assert forall|k: int| 0 <= k <= MAX_LINE implies #[trigger] acc.line_hist@[k] == a.line_hist@[k]
            + count_where(ii + 1, len_at(ls, ks, k)) by {
            assert(count_where(ii + 1, len_at(ls, ks, k)) == count_where(ii, len_at(ls, ks, k)) + if len_at(
                ls,
                ks,
                k,
            )(ii) {
                1nat
            } else {
                0nat
            });
        }
        i += 1;
    }
}


/// Tally the case class of each name into a five-class count.
fn tally_cases(counts: &mut Vec<u64>, names: &Vec<Vec<char>>)
    requires
        old(counts)@.len() == 5,
        forall|c: int| 0 <= c < 5 ==> old(counts)@[c] + #[trigger] count_where(names@.len() as int, case_at(views_of(names@), c)) <= u64::MAX,
    ensures
        final(counts)@.len() == 5,
        forall|c: int| 0 <= c < 5 ==> #[trigger] final(counts)@[c] == old(counts)@[c] + count_where(names@.len() as int, case_at(views_of(names@), c)),
{
    let ghost c0 = counts@;
    let ghost vs = views_of(names@);
    let ghost n = names@.len() as int;
    let mut i: usize = 0;
    while i < names.len()
        invariant
            i <= names@.len(),
            vs == views_of(names@),
            n == names@.len(),
            counts@.len() == 5,
            forall|c: int| 0 <= c < 5 ==> c0[c] + #[trigger] count_where(n, case_at(vs, c)) <= u64::MAX,
            forall|c: int| 0 <= c < 5 ==> #[trigger] counts@[c] == c0[c] + count_where(i as int, case_at(vs, c)),
        decreases names.len() - i,
    {
        assert(vs[i as int] == names@[i as int]@);
        let c = case_of_chars(&names[i]);
        proof {
            lemma_count_where_mono(i + 1, n, case_at(vs, c as int));
            assert(case_at(vs, c as int)(i as int));
        }
        let cur = counts[c];
        counts.set(c, cur + 1);
        assert forall|d: int| 0 <= d < 5 implies #[trigger] counts@[d] == c0[d] + count_where(i + 1, case_at(vs, d)) by {
            assert(count_where(i + 1, case_at(vs, d)) == count_where(i as int, case_at(vs, d)) + if case_at(vs, d)(i as int) {
                1nat
            } else {
                0nat
            });
        }
        i += 1;
    }
}

pub open spec fn fns_view(v: Seq<(Vec<char>, bool)>) -> Seq<(Seq<char>, bool)> {
    v.map_values(|f: (Vec<char>, bool)| (f.0@, f.1))
}

/// The function declarations of a text, with whether each is exported.
pub fn functions_of(s: &Vec<char>, lang: &Vec<char>) -> (r: Vec<(Vec<char>, bool)>)
    ensures
        fns_view(r@) == functions_spec(s@, lang@),
{
    let mut out: Vec<(Vec<char>, bool)> = Vec::new();
    let go = eq_str(lang, "go");
    if !go && !eq_str(lang, "rust") {
        return out;
    }
    let ghost f = if go {
        |m: (int, DeclSpan)| (s@.subrange(m.1.0, m.1.1), uppercase(s@[m.1.0]))
    } else {
        |m: (int, DeclSpan)| (s@.subrange(m.1.0, m.1.1), m.1.3)
    };
    let ghost mut seen: Seq<(int, DeclSpan)> = Seq::empty();
    let mut i: usize = 0;
    while i <= s.len()
        invariant
            i <= s@.len(),
            seen + decls_from(s@, i as int, go) == decls_from(s@, 0, go),
            fns_view(out@) == seen.map_values(f),
            f == (if go {
                |m: (int, DeclSpan)| (s@.subrange(m.1.0, m.1.1), uppercase(s@[m.1.0]))
            } else {
                |m: (int, DeclSpan)| (s@.subrange(m.1.0, m.1.1), m.1.3)
            }),
        ensures
            fns_view(out@) == decls_from(s@, 0, go).map_values(f),
        decreases s.len() + 1 - i,
    {
        proof {
            lemma_next_decl(s@, i as int, go);
        }
        match next_decl_exec(s, i, go) {
            None => {
                assert(decls_from(s@, i as int, go) =~= Seq::<(int, DeclSpan)>::empty());
                assert(seen + Seq::<(int, DeclSpan)>::empty() =~= seen);
                break;
            },
            Some((p, (ns, ne, recv, pb))) => {
                let ghost d: DeclSpan = (ns as int, ne as int, match recv {
                    None => None,
                    Some((x, y)) => Some((x as int, y as int)),
                }, pb);
                let ghost old_seen = seen;
                proof {
                    assert(decls_from(s@, i as int, go) =~= seq![(p as int, d)] + decls_from(s@, ne as int, go));
                    seen = seen.push((p as int, d));
                    assert(seen + decls_from(s@, ne as int, go) =~= old_seen + (seq![(p as int, d)] + decls_from(s@, ne as int, go)));
                }
                let name = slice_of(s, ns, ne);
                let exported = if go { is_uppercase(s[ns]) } else { pb };
                let ghost before = fns_view(out@);
                out.push((name, exported));
                assert(fns_view(out@) =~= before.push((name@, exported)));
                assert(seen.map_values(f) =~= old_seen.map_values(f).push(f((p as int, d))));
                i = ne;
            },
        }
    }
    out
}

/// The line spans of the function bodies of a text's lines.
pub fn fn_lengths(lines: &Vec<Vec<char>>, go: bool) -> (r: Vec<u32>)
    ensures
        r@ == fn_lens_from(views_of(lines@), 0, go),
{
    let ghost ls = views_of(lines@);
    let mut out: Vec<u32> = Vec::new();
    let ghost mut seen: Seq<u32> = Seq::empty();
    let mut i: usize = 0;
    while i < lines.len()
        invariant
            i <= lines@.len(),
            ls == views_of(lines@),
            seen + fn_lens_from(ls, i as int, go) == fn_lens_from(ls, 0, go),
            out@ == seen,
        ensures
            out@ == fn_lens_from(ls, 0, go),
        decreases lines.len() - i,
    {
        assert(ls[i as int] == lines@[i as int]@);
        let mut counted = false;
        if decl_exec(&lines[i], 0, go).is_some() {
            let (e, _ok, opened) = brace_walk(lines, i);
            proof {
                lemma_brace_stop_range(ls, i as int, i as int);
            }
            if opened {
                let d = e - i;
                let len: u32 = if d >= 0xffff_ffff { 0xffff_ffff } else { (d + 1) as u32 };
                assert(len == clamp_u32(e - i + 1));
                let ghost old_seen = seen;
                out.push(len);
                proof {
                    seen = seen.push(len);
                }
                if e >= lines.len() || e + 1 >= lines.len() {
                    assert(fn_lens_from(ls, i as int, go) =~= seq![len]);
                    assert(fn_lens_from(ls, lines@.len() as int, go) =~= Seq::<u32>::empty());
                    assert(seen + fn_lens_from(ls, lines@.len() as int, go) =~= old_seen + fn_lens_from(ls, i as int, go));
                    i = lines.len();
                } else {
                    assert(fn_lens_from(ls, i as int, go) =~= seq![len] + fn_lens_from(ls, e + 1, go));
                    assert(seen + fn_lens_from(ls, e + 1, go) =~= old_seen + (seq![len] + fn_lens_from(ls, e + 1, go)));
                    i = e + 1;
                }
                counted = true;
            }
        }
        if !counted {
            assert(fn_lens_from(ls, i as int, go) == fn_lens_from(ls, i + 1, go));
            i += 1;
        }
    }
    out
}


fn append_u32(dst: &mut Vec<u32>, src: &Vec<u32>)
    ensures
        final(dst)@ == old(dst)@ + src@,
{
    let mut k: usize = 0;
    let ghost h0 = dst@;
    while k < src.len()
        invariant
            k <= src@.len(),
            dst@ == h0 + src@.take(k as int),
        decreases src.len() - k,
    {
        dst.push(src[k]);
        assert(src@.take(k + 1) =~= src@.take(k as int).push(src@[k as int]));
        k += 1;
    }
    assert(src@.take(src@.len() as int) =~= src@);
}

/// The names of a list of function declarations.
fn names_only(fns: &Vec<(Vec<char>, bool)>) -> (r: (Vec<Vec<char>>, u64))
    ensures
        views_of(r.0@) == fn_names(fns_view(fns@)),
        r.1 == count_where(fns@.len() as int, exported_at(fns_view(fns@))),
{
    let ghost fv = fns_view(fns@);
    let mut names: Vec<Vec<char>> = Vec::new();
    let mut exported: u64 = 0;
    let mut i: usize = 0;
    while i < fns.len()
        invariant
            i <= fns@.len(),
            fv == fns_view(fns@),
            views_of(names@) == fn_names(fv).take(i as int),
            exported == count_where(i as int, exported_at(fv)),
            exported <= i,
        decreases fns.len() - i,
    {
        let ghost before = views_of(names@);
        assert(fv[i as int] == (fns@[i as int].0@, fns@[i as int].1));
        assert(fn_names(fv)[i as int] == fns@[i as int].0@);
        names.push(slice_of(&fns[i].0, 0, fns[i].0.len()));
        assert(fns@[i as int].0@.subrange(0, fns@[i as int].0@.len() as int) =~= fns@[i as int].0@);
        assert(views_of(names@) =~= before.push(fns@[i as int].0@));
        assert(fn_names(fv).take(i + 1) =~= fn_names(fv).take(i as int).push(fn_names(fv)[i as int]));
        assert(views_of(names@) =~= fn_names(fv).take(i + 1));
        if fns[i].1 {
            exported = exported + 1;
        }
        i += 1;
    }
    assert(fn_names(fv).take(fns@.len() as int) =~= fn_names(fv));
    (names, exported)
}

impl Acc {
    /// Fingerprint one file's text into the tally: every line classified
    /// (comment, code, blank, tracking block comments), code lines measured,
    /// function, variable and constant names classified by case, function
    /// bodies measured in lines (Go and Rust).
    pub fn scan(&mut self, text: &str, lang: &str)
        requires
            old(self).wf(),
            old(self).fits(tally_spec(text@, lang@)),
        ensures
            final(self).wf(),
            Acc::added(*old(self), *final(self), tally_spec(text@, lang@)),
    {
        let ghost t = tally_spec(text@, lang@);
        self.seen = true;
        let chars = chars_of(text);
        let lines = lines_of(&chars);
        let kinds = classify(&lines, lang);
        proof {
            assert forall|k: int| 0 <= k <= MAX_LINE implies self.line_hist@[k] + #[trigger] count_where(
                views_of(lines@).len() as int,
                len_at(views_of(lines@), kinds@, k),
            ) <= u64::MAX by {
                assert(t.line_hist[k] == count_where(
                    views_of(lines@).len() as int,
                    len_at(views_of(lines@), kinds@, k),
                ));
            }
        }
        count_lines(self, &lines, &kinds);
        let l = chars_of(lang);
        let fns = functions_of(&chars, &l);
        let (names, exported) = names_only(&fns);
        assert(fns_view(fns@).len() == fns@.len());
        assert(views_of(names@).len() == names@.len());
        assert(fn_names(functions_spec(text@, lang@)) == views_of(names@));
        assert(names@.len() == functions_spec(text@, lang@).len());
        proof {
            assert forall|c: int| 0 <= c < 5 implies self.fn_case@[c] + #[trigger] count_where(
                names@.len() as int,
                case_at(views_of(names@), c),
            ) <= u64::MAX by {
                assert(t.fn_case[c] == count_where(names@.len() as int, case_at(views_of(names@), c)));
            }
        }
        tally_cases(&mut self.fn_case, &names);
        let nf = fns.len() as u64;
        self.fn_total = self.fn_total + nf;
        self.fn_exported = self.fn_exported + exported;
        let go = eq_str(&l, "go");
        let rust = eq_str(&l, "rust");
        let vars: Vec<Vec<char>> = if go {
            names_of(NameGrammar::GoVar, &chars)
        } else if rust {
            names_of(NameGrammar::RustVar, &chars)
        } else {
            Vec::new()
        };
        assert(views_of(vars@) =~= variables_spec(text@, lang@));
        proof {
            assert forall|c: int| 0 <= c < 5 implies self.var_case@[c] + #[trigger] count_where(
                vars@.len() as int,
                case_at(views_of(vars@), c),
            ) <= u64::MAX by {
                assert(t.var_case[c] == count_where(vars@.len() as int, case_at(views_of(vars@), c)));
            }
        }
        tally_cases(&mut self.var_case, &vars);
        let consts: Vec<Vec<char>> = if go {
            names_of(NameGrammar::GoConst, &chars)
        } else if rust {
            names_of(NameGrammar::RustConst, &chars)
        } else {
            Vec::new()
        };
        assert(views_of(consts@) =~= constants_spec(text@, lang@));
        proof {
            assert forall|c: int| 0 <= c < 5 implies self.const_case@[c] + #[trigger] count_where(
                consts@.len() as int,
                case_at(views_of(consts@), c),
            ) <= u64::MAX by {
                assert(t.const_case[c] == count_where(consts@.len() as int, case_at(views_of(consts@), c)));
            }
        }
        tally_cases(&mut self.const_case, &consts);
        if go || rust {
            let lens = fn_lengths(&lines, go);
            append_u32(&mut self.fn_hist, &lens);
        } else {
            assert(t.fn_lens =~= Seq::<u32>::empty());
            assert(self.fn_hist@ + t.fn_lens =~= self.fn_hist@);
        }
    }
}


/// A ratio of two counts; `den == 0` reads as 0.
#[derive(PartialEq, Eq, Structural, Clone, Copy, Debug)]
pub struct Ratio {
    pub num: u64,
    pub den: u64,
}

/// Naming conventions: the majority case of function, variable and constant
/// names, and how many functions are exported.
pub struct NamingFacts {
    pub functions: String,
    pub variables: String,
    pub constants: String,
    pub exported_ratio: Ratio,
}

/// Commit-message conventions over a sample of commits.
#[derive(PartialEq, Eq, Structural, Clone, Copy, Debug)]
pub struct CommitStyle {
    pub conventional_ratio: Ratio,
    pub subject_len_p50: u32,
    pub subject_len_p95: u32,
    pub body_present_ratio: Ratio,
    pub sampled_commits: u32,
}

/// The house-style fingerprint.
pub struct StyleFacts {
    pub comment_density: Ratio,
    pub doccomment_ratio: Ratio,
    pub indent_tabs: bool,
    pub line_len_p95: u32,
    pub fn_len_median: u32,
    pub naming: NamingFacts,
    pub commits: CommitStyle,
    pub diff_matches_style: bool,
    pub files_scanned: u32,
}

pub open spec fn no_commits() -> CommitStyle {
    CommitStyle {
        conventional_ratio: Ratio { num: 0, den: 0 },
        subject_len_p50: 0,
        subject_len_p95: 0,
        body_present_ratio: Ratio { num: 0, den: 0 },
        sampled_commits: 0,
    }
}

impl Acc {
    /// The fingerprint of what was scanned: comment density (comment lines
    /// per code line), doc-comment ratio (leading comments per comment line),
    /// tab indentation when tab-indented code lines are present and at least
    /// as many as space-indented ones, the 95th-percentile code line length,
    /// the median function length, and the majority naming cases.
    pub fn finish(&self) -> (r: StyleFacts)
        requires
            self.wf(),
            self.code_lines * 95 <= u64::MAX,
        ensures
            r.comment_density == (Ratio { num: self.comment_lines, den: self.code_lines }),
            r.doccomment_ratio == (Ratio { num: self.leading_comments, den: self.comment_lines }),
            r.indent_tabs == (self.tab_indents >= self.space_indents && self.tab_indents > 0),
            r.line_len_p95 == percentile_spec(self.line_hist@, 95),
            r.fn_len_median == median_spec(self.fn_hist@),
            r.naming.functions@ == majority_spec(self.fn_case@),
            r.naming.variables@ == majority_spec(self.var_case@),
            r.naming.constants@ == majority_spec(self.const_case@),
            r.naming.exported_ratio == (Ratio { num: self.fn_exported, den: self.fn_total }),
            r.commits == no_commits(),
            !r.diff_matches_style,
            r.files_scanned == 0,
    {
        let _n = self.line_hist.len();
        StyleFacts {
            comment_density: Ratio { num: self.comment_lines, den: self.code_lines },
            doccomment_ratio: Ratio { num: self.leading_comments, den: self.comment_lines },
            indent_tabs: self.tab_indents >= self.space_indents && self.tab_indents > 0,
            line_len_p95: percentile_hist(self.line_hist.as_slice(), 95),
            fn_len_median: median(self.fn_hist.as_slice()),
            naming: NamingFacts {
                functions: majority(self.fn_case.as_slice()),
                variables: majority(self.var_case.as_slice()),
                constants: majority(self.const_case.as_slice()),
                exported_ratio: Ratio { num: self.fn_exported, den: self.fn_total },
            },
            commits: CommitStyle {
                conventional_ratio: Ratio { num: 0, den: 0 },
                subject_len_p50: 0,
                subject_len_p95: 0,
                body_present_ratio: Ratio { num: 0, den: 0 },
                sampled_commits: 0,
            },
            diff_matches_style: false,
            files_scanned: 0,
        }
    }

    /// The fingerprint, when anything was scanned.
    pub fn finish_if_seen(&self) -> (r: Option<StyleFacts>)
        requires
            self.wf(),
            self.code_lines * 95 <= u64::MAX,
        ensures
            r is Some <==> self.seen,
    {
        if self.seen {
            Some(self.finish())
        } else {
            None
        }
    }
}

fn same_chars(a: &String, b: &String) -> (r: bool)
    ensures
        r == (a@ == b@),
{
    let x = chars_of(a.as_str());
    let y = chars_of(b.as_str());
    if x.len() != y.len() {
        return false;
    }
    let mut i: usize = 0;
    while i < x.len()
        invariant
            i <= x@.len() == y@.len(),
            x@ == a@,
            y@ == b@,
            forall|j: int| 0 <= j < i ==> x@[j] == y@[j],
        decreases x.len() - i,
    {
        if x[i] != y[i] {
            assert(x@[i as int] != y@[i as int]);
            assert(x@ != y@);
            return false;
        }
        i += 1;
    }
    assert(x@ =~= y@);
    true
}

/// Whether a change follows the house style: with no scanned change, yes;
/// otherwise its indentation and its function-naming case match the
/// baseline's.
pub fn diff_matches(baseline: &StyleFacts, change: &Option<StyleFacts>) -> (r: bool)
    ensures
        r == match change {
            None => true,
            Some(c) => c.indent_tabs == baseline.indent_tabs && c.naming.functions@
                == baseline.naming.functions@,
        },
{
    match change {
        None => true,
        Some(c) => c.indent_tabs == baseline.indent_tabs && same_chars(
            &c.naming.functions,
            &baseline.naming.functions,
        ),
    }
}

/// One sampled commit: its subject line and its body.
pub struct CommitText {
    pub summary: String,
    pub body: String,
}

pub open spec fn subject_len(c: CommitText) -> u32 {
    clamp_u32(c.summary@.len() as int)
}

pub open spec fn conventional_at(cs: Seq<CommitText>) -> spec_fn(int) -> bool {
    |i: int| conventional_spec(cs[i].summary@)
}

pub open spec fn body_at(cs: Seq<CommitText>) -> spec_fn(int) -> bool {
    |i: int| trim(cs[i].body@).len() > 0
}

/// The commit-message facts of a sample: how many subjects follow
/// Conventional Commits, the median and 95th-percentile subject length, and
/// how many commits carry a body.
pub fn commit_style(commits: &[CommitText]) -> (r: CommitStyle)
    requires
        commits@.len() <= u32::MAX,
        commits@.len() * 95 <= usize::MAX,
    ensures
        commits@.len() == 0 ==> r == no_commits(),
        commits@.len() > 0 ==> {
            let n = commits@.len() as int;
            let lens = commits@.map_values(|c: CommitText| subject_len(c)).sort_by(u32_leq());
            &&& r.sampled_commits == n
            &&& r.conventional_ratio == (Ratio {
                num: count_where(n, conventional_at(commits@)) as u64,
                den: n as u64,
            })
            &&& r.body_present_ratio == (Ratio { num: count_where(n, body_at(commits@)) as u64, den: n as u64 })
            &&& r.subject_len_p50 == pct_spec(lens, 50)
            &&& r.subject_len_p95 == pct_spec(lens, 95)
        },
{
    let n = commits.len();
    if n == 0 {
        return CommitStyle {
            conventional_ratio: Ratio { num: 0, den: 0 },
            subject_len_p50: 0,
            subject_len_p95: 0,
            body_present_ratio: Ratio { num: 0, den: 0 },
            sampled_commits: 0,
        };
    }
    let ghost cs = commits@;
    let mut conventional: u64 = 0;
    let mut bodies: u64 = 0;
    let mut lens: Vec<u32> = Vec::new();
    let mut i: usize = 0;
    while i < n
        invariant
            i <= n == cs.len(),
            cs == commits@,
            conventional == count_where(i as int, conventional_at(cs)),
            bodies == count_where(i as int, body_at(cs)),
            conventional <= i && bodies <= i,
            lens@ == cs.map_values(|c: CommitText| subject_len(c)).take(i as int),
        decreases n - i,
    {
        if is_conventional(commits[i].summary.as_str()) {
            conventional = conventional + 1;
        }
        let b = chars_of(commits[i].body.as_str());
        let t = trim_exec(&b);
        if t.len() > 0 {
            bodies = bodies + 1;
        }
        let sc = chars_of(commits[i].summary.as_str());
        let len: u32 = if sc.len() > 0xffff_ffff { 0xffff_ffff } else { sc.len() as u32 };
        lens.push(len);
        assert(lens@ =~= cs.map_values(|c: CommitText| subject_len(c)).take(i + 1));
        i += 1;
    }
    assert(cs.map_values(|c: CommitText| subject_len(c)).take(n as int) =~= cs.map_values(
        |c: CommitText| subject_len(c),
    ));
    let sorted = sorted_u32(&lens);
    proof {
        broadcast use vstd::seq_lib::group_to_multiset_ensures;
        lemma_u32_leq_total();
        lens@.lemma_sort_by_ensures(u32_leq());
        vstd::seq_lib::to_multiset_len(lens@);
        vstd::seq_lib::to_multiset_len(sorted@);
    }
    CommitStyle {
        conventional_ratio: Ratio { num: conventional, den: n as u64 },
        subject_len_p50: pct(sorted.as_slice(), 50),
        subject_len_p95: pct(sorted.as_slice(), 95),
        body_present_ratio: Ratio { num: bodies, den: n as u64 },
        sampled_commits: n as u32,
    }
}

/// The languages whose files the house style is measured over.
pub open spec fn source_lang(l: Seq<char>) -> bool {
    l == "go"@ || l == "rust"@ || l == "python"@ || l == "typescript"@ || l == "javascript"@ || l == "c"@
        || l == "cpp"@ || l == "java"@
}

/// Whether a file counts as source for the style fingerprint: not noisy (a
/// lockfile or generated file) and of a programming language.
pub fn is_source(path: &str, noisy: bool) -> (r: bool)
    ensures
        r == (!noisy && source_lang(lang_of_ext(ext_or_empty(path@)))),
{
    if noisy {
        return false;
    }
    let l = lang_of(path);
    let lc = l.as_str();
    eq_str(&chars_of(lc), "go") || eq_str(&chars_of(lc), "rust") || eq_str(&chars_of(lc), "python")
        || eq_str(&chars_of(lc), "typescript") || eq_str(&chars_of(lc), "javascript") || eq_str(&chars_of(lc), "c")
        || eq_str(&chars_of(lc), "cpp") || eq_str(&chars_of(lc), "java")
}

} // verus!
