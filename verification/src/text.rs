//! Character-level text primitives shared by the parsers and classifiers: a
//! string is modelled as the sequence of its `char`s (`s@`), and every helper
//! here is specified over that sequence.
use vstd::prelude::*;

verus! {

/// Unicode `White_Space` — the set `char::is_whitespace` (and so `str::trim`,
/// `str::split_whitespace`) tests against.
pub open spec fn is_ws(c: char) -> bool {
    ||| c == ' '
    ||| ('\t' <= c && c <= '\r')
    ||| c == '\u{85}'
    ||| c == '\u{A0}'
    ||| c == '\u{1680}'
    ||| ('\u{2000}' <= c && c <= '\u{200A}')
    ||| c == '\u{2028}'
    ||| c == '\u{2029}'
    ||| c == '\u{202F}'
    ||| c == '\u{205F}'
    ||| c == '\u{3000}'
}

pub fn is_whitespace(c: char) -> (r: bool)
    ensures
        r == is_ws(c),
{
    c == ' ' || ('\t' <= c && c <= '\r') || c == '\u{85}' || c == '\u{A0}' || c == '\u{1680}'
        || ('\u{2000}' <= c && c <= '\u{200A}') || c == '\u{2028}' || c == '\u{2029}'
        || c == '\u{202F}' || c == '\u{205F}' || c == '\u{3000}'
}

pub open spec fn is_digit(c: char) -> bool {
    '0' <= c && c <= '9'
}

pub open spec fn is_alnum(c: char) -> bool {
    ||| ('a' <= c && c <= 'z')
    ||| ('A' <= c && c <= 'Z')
    ||| is_digit(c)
}

pub fn is_ascii_alnum(c: char) -> (r: bool)
    ensures
        r == is_alnum(c),
{
    ('a' <= c && c <= 'z') || ('A' <= c && c <= 'Z') || ('0' <= c && c <= '9')
}

/// ASCII lower-casing of one char (`char::to_ascii_lowercase`).
pub open spec fn lower(c: char) -> char {
    if 'A' <= c && c <= 'Z' {
        ((c as u32) + 32) as char
    } else {
        c
    }
}

pub open spec fn lower_seq(s: Seq<char>) -> Seq<char> {
    s.map_values(|c: char| lower(c))
}

/// `s` begins with `p`.
pub open spec fn has_prefix(s: Seq<char>, p: Seq<char>) -> bool {
    p.len() <= s.len() && s.subrange(0, p.len() as int) =~= p
}

/// `s` ends with `p`.
pub open spec fn has_suffix(s: Seq<char>, p: Seq<char>) -> bool {
    p.len() <= s.len() && s.subrange(s.len() - p.len(), s.len() as int) =~= p
}

/// `needle` occurs in `hay` starting at `i`.
pub open spec fn occurs_at(hay: Seq<char>, needle: Seq<char>, i: int) -> bool {
    0 <= i && i + needle.len() <= hay.len() && hay.subrange(i, i + needle.len()) =~= needle
}

/// The first index at or after `i` where `needle` occurs (`str::find`).
pub open spec fn find_from(hay: Seq<char>, needle: Seq<char>, i: int) -> Option<int>
    decreases hay.len() - i,
{
    if i < 0 || i + needle.len() > hay.len() {
        None
    } else if occurs_at(hay, needle, i) {
        Some(i)
    } else {
        find_from(hay, needle, i + 1)
    }
}

pub open spec fn contains(hay: Seq<char>, needle: Seq<char>) -> bool {
    find_from(hay, needle, 0) is Some
}

/// Leading whitespace stripped (`str::trim_start`).
pub open spec fn trim_start(s: Seq<char>) -> Seq<char>
    decreases s.len(),
{
    if s.len() > 0 && is_ws(s[0]) {
        trim_start(s.drop_first())
    } else {
        s
    }
}

/// Trailing whitespace stripped (`str::trim_end`).
pub open spec fn trim_end(s: Seq<char>) -> Seq<char>
    decreases s.len(),
{
    if s.len() > 0 && is_ws(s.last()) {
        trim_end(s.drop_last())
    } else {
        s
    }
}

pub open spec fn trim(s: Seq<char>) -> Seq<char> {
    trim_end(trim_start(s))
}

/// Every char of `s` is an ASCII digit.
pub open spec fn all_digits(s: Seq<char>) -> bool {
    forall|i: int| 0 <= i < s.len() ==> is_digit(#[trigger] s[i])
}

/// The decimal value of a digit string.
pub open spec fn digits_value(s: Seq<char>) -> nat
    decreases s.len(),
{
    if s.len() == 0 {
        0
    } else {
        digits_value(s.drop_last()) * 10 + ((s.last() as u32) - ('0' as u32)) as nat
    }
}

/// `str::parse::<u64>` on a string: a non-empty run of ASCII digits (one leading
/// `+` allowed) whose value fits.
pub open spec fn parse_u64(s: Seq<char>) -> Option<u64> {
    let d = if s.len() > 0 && s[0] == '+' { s.drop_first() } else { s };
    if d.len() > 0 && all_digits(d) && digits_value(d) <= u64::MAX {
        Some(digits_value(d) as u64)
    } else {
        None
    }
}

/// The chars of a string slice, as a vector.
pub fn chars_of(s: &str) -> (v: Vec<char>)
    ensures
        v@ == s@,
{
    let mut v: Vec<char> = Vec::new();
    broadcast use vstd::string::group_string_axioms;
    for c in it: s.chars()
        invariant
            it.seq() == s@,
            v@ == s@.take(it.index() as int),
    {
        v.push(c);
        assert(s@.take(it.index() as int + 1) =~= v@);
    }
    assert(s@.take(s@.len() as int) =~= s@);
    v
}


/// `String::push` — appends one char.
#[verifier::external_body]
fn push_char(s: &mut String, c: char)
    ensures
        final(s)@ == old(s)@.push(c),
{
    s.push(c);
}

/// The string holding exactly the chars of `v`.
pub fn string_of(v: &[char]) -> (s: String)
    ensures
        s@ == v@,
{
    let mut s = String::new();
    let mut i: usize = 0;
    while i < v.len()
        invariant
            i <= v.len(),
            s@ == v@.take(i as int),
        decreases v.len() - i,
    {
        push_char(&mut s, v[i]);
        i += 1;
        assert(s@ =~= v@.take(i as int));
    }
    assert(v@.take(v@.len() as int) =~= v@);
    s
}

/// `v[a..b]` as a fresh vector.
pub fn slice_of(v: &[char], a: usize, b: usize) -> (r: Vec<char>)
    requires
        a <= b <= v@.len(),
    ensures
        r@ == v@.subrange(a as int, b as int),
{
    let mut r: Vec<char> = Vec::new();
    let mut i: usize = a;
    while i < b
        invariant
            a <= i <= b <= v@.len(),
            r@ == v@.subrange(a as int, i as int),
        decreases b - i,
    {
        r.push(v[i]);
        i += 1;
        assert(r@ =~= v@.subrange(a as int, i as int));
    }
    r
}

/// ASCII lower-casing of a char sequence.
pub fn to_lower(v: &[char]) -> (r: Vec<char>)
    ensures
        r@ == lower_seq(v@),
{
    let mut r: Vec<char> = Vec::new();
    let mut i: usize = 0;
    while i < v.len()
        invariant
            i <= v.len(),
            r@ =~= lower_seq(v@.take(i as int)),
        decreases v.len() - i,
    {
        let c = v[i];
        let l = if 'A' <= c && c <= 'Z' {
            (((c as u32) as u8) + 32) as char
        } else {
            c
        };
        r.push(l);
        i += 1;
        assert(r@ =~= lower_seq(v@.take(i as int)));
    }
    assert(v@.take(v@.len() as int) =~= v@);
    r
}

/// Whether `needle` occurs in `hay` at `i`.
pub fn occurs_at_exec(hay: &[char], needle: &[char], i: usize) -> (r: bool)
    ensures
        r == occurs_at(hay@, needle@, i as int),
{
    if needle.len() > hay.len() || i > hay.len() - needle.len() {
        return false;
    }
    let mut k: usize = 0;
    while k < needle.len()
        invariant
            i + needle@.len() <= hay@.len(),
            hay@.len() == hay.len(),
            k <= needle@.len(),
            forall|j: int| 0 <= j < k ==> hay@[i + j] == needle@[j],
        decreases needle.len() - k,
    {
        if hay[i + k] != needle[k] {
            assert(hay@.subrange(i as int, i + needle@.len())[k as int] != needle@[k as int]);
            return false;
        }
        k += 1;
    }
    assert(hay@.subrange(i as int, i + needle@.len()) =~= needle@);
    true
}

/// `str::find` from index `from`.
pub fn find_exec(hay: &[char], needle: &[char], from: usize) -> (r: Option<usize>)
    ensures
        match find_from(hay@, needle@, from as int) {
            Some(j) => r == Some(j as usize),
            None => r is None,
        },
        r matches Some(j) ==> occurs_at(hay@, needle@, j as int) && from <= j && find_from(
            hay@,
            needle@,
            from as int,
        ) == Some(j as int),
        r is None ==> find_from(hay@, needle@, from as int) is None,
{
    proof {
        lemma_find_from_occurs(hay@, needle@, from as int);
    }
    let mut i = from;
    if needle.len() > hay.len() {
        return None;
    }
    while i <= hay.len() - needle.len()
        invariant
            from <= i,
            needle@.len() <= hay@.len(),
            find_from(hay@, needle@, from as int) == find_from(hay@, needle@, i as int),
        decreases hay.len() - i,
    {
        if occurs_at_exec(hay, needle, i) {
            return Some(i);
        }
        i += 1;
    }
    None
}

pub proof fn lemma_find_from_occurs(hay: Seq<char>, needle: Seq<char>, i: int)
    ensures
        find_from(hay, needle, i) matches Some(j) ==> occurs_at(hay, needle, j) && i <= j,
    decreases hay.len() - i,
{
    if i < 0 || i + needle.len() > hay.len() {
    } else if occurs_at(hay, needle, i) {
    } else {
        lemma_find_from_occurs(hay, needle, i + 1);
    }
}

pub fn contains_exec(hay: &[char], needle: &[char]) -> (r: bool)
    ensures
        r == contains(hay@, needle@),
{
    find_exec(hay, needle, 0).is_some()
}

pub fn has_prefix_exec(s: &[char], p: &[char]) -> (r: bool)
    ensures
        r == has_prefix(s@, p@),
{
    if p.len() > s.len() {
        return false;
    }
    let r = occurs_at_exec(s, p, 0);
    assert(r == has_prefix(s@, p@));
    r
}

pub fn has_suffix_exec(s: &[char], p: &[char]) -> (r: bool)
    ensures
        r == has_suffix(s@, p@),
{
    if p.len() > s.len() {
        return false;
    }
    occurs_at_exec(s, p, s.len() - p.len())
}

/// The index of the first non-whitespace char at or after `from` (the length when none).
pub fn skip_ws(s: &[char], from: usize) -> (k: usize)
    requires
        from <= s@.len(),
    ensures
        from <= k <= s@.len(),
        forall|j: int| from <= j < k ==> is_ws(#[trigger] s@[j]),
        k < s@.len() ==> !is_ws(s@[k as int]),
{
    let mut k = from;
    while k < s.len() && is_whitespace(s[k])
        invariant
            from <= k <= s@.len(),
            forall|j: int| from <= j < k ==> is_ws(#[trigger] s@[j]),
        decreases s.len() - k,
    {
        k += 1;
    }
    k
}

pub proof fn lemma_trim_start_skip(s: Seq<char>, k: int)
    requires
        0 <= k <= s.len(),
        forall|j: int| 0 <= j < k ==> is_ws(#[trigger] s[j]),
        k < s.len() ==> !is_ws(s[k]),
    ensures
        trim_start(s) == s.subrange(k, s.len() as int),
    decreases k,
{
    if k == 0 {
        assert(s.subrange(0, s.len() as int) =~= s);
    } else {
        let t = s.drop_first();
        assert forall|j: int| 0 <= j < k - 1 implies is_ws(#[trigger] t[j]) by {
            assert(t[j] == s[j + 1]);
        }
        lemma_trim_start_skip(t, k - 1);
        assert(t.subrange(k - 1, t.len() as int) =~= s.subrange(k, s.len() as int));
    }
}

/// `str::trim_start`.
pub fn trim_start_exec(s: &[char]) -> (r: Vec<char>)
    ensures
        r@ == trim_start(s@),
{
    let k = skip_ws(s, 0);
    proof {
        lemma_trim_start_skip(s@, k as int);
    }
    slice_of(s, k, s.len())
}


pub proof fn lemma_trim_end_cut(s: Seq<char>, k: int)
    requires
        0 <= k <= s.len(),
        forall|j: int| k <= j < s.len() ==> is_ws(#[trigger] s[j]),
        k > 0 ==> !is_ws(s[k - 1]),
    ensures
        trim_end(s) == s.subrange(0, k),
    decreases s.len() - k,
{
    if k == s.len() {
        assert(s.subrange(0, k) =~= s);
    } else {
        let t = s.drop_last();
        assert forall|j: int| k <= j < t.len() implies is_ws(#[trigger] t[j]) by {
            assert(t[j] == s[j]);
        }
        lemma_trim_end_cut(t, k);
        assert(t.subrange(0, k) =~= s.subrange(0, k));
    }
}

/// `str::trim_end`.
pub fn trim_end_exec(s: &[char]) -> (r: Vec<char>)
    ensures
        r@ == trim_end(s@),
{
    let mut k = s.len();
    while k > 0 && is_whitespace(s[k - 1])
        invariant
            k <= s@.len(),
            forall|j: int| k <= j < s@.len() ==> is_ws(#[trigger] s@[j]),
        decreases k,
    {
        k -= 1;
    }
    proof {
        lemma_trim_end_cut(s@, k as int);
    }
    slice_of(s, 0, k)
}

/// `str::trim`.
pub fn trim_exec(s: &[char]) -> (r: Vec<char>)
    ensures
        r@ == trim(s@),
{
    let a = trim_start_exec(s);
    trim_end_exec(&a)
}

/// A prefix of a digit string never has a larger value than the whole.
pub proof fn lemma_digits_value_prefix(s: Seq<char>, k: int)
    requires
        0 <= k <= s.len(),
        all_digits(s),
    ensures
        digits_value(s.take(k)) <= digits_value(s),
    decreases s.len(),
{
    if k < s.len() {
        let t = s.drop_last();
        assert(t.take(k) =~= s.take(k));
        assert(all_digits(t)) by {
            assert forall|i: int| 0 <= i < t.len() implies is_digit(#[trigger] t[i]) by {
                assert(t[i] == s[i]);
            }
        }
        lemma_digits_value_prefix(t, k);
        assert(is_digit(s[s.len() - 1]));
    } else {
        assert(s.take(k) =~= s);
    }
}

/// `str::parse::<u64>`.
pub fn parse_u64_exec(s: &[char]) -> (r: Option<u64>)
    ensures
        r == parse_u64(s@),
{
    let start: usize = if s.len() > 0 && s[0] == '+' { 1 } else { 0 };
    let ghost d = if s@.len() > 0 && s@[0] == '+' { s@.drop_first() } else { s@ };
    assert(d =~= s@.subrange(start as int, s@.len() as int));
    if start == s.len() {
        return None;
    }
    let mut v: u64 = 0;
    let mut i = start;
    while i < s.len()
        invariant
            start <= i <= s@.len(),
            d == (if s@.len() > 0 && s@[0] == '+' { s@.drop_first() } else { s@ }),
            d =~= s@.subrange(start as int, s@.len() as int),
            all_digits(d.take(i - start)),
            v == digits_value(d.take(i - start)),
        decreases s.len() - i,
    {
        let c = s[i];
        let ghost prev = d.take(i - start);
        let ghost next = d.take(i - start + 1);
        assert(next.drop_last() =~= prev);
        if !('0' <= c && c <= '9') {
            assert(d[(i - start) as int] == s@[i as int]);
            assert(!is_digit(d[(i - start) as int]));
            assert(!all_digits(d));
            assert(d == (if s@.len() > 0 && s@[0] == '+' { s@.drop_first() } else { s@ }));
            assert(!(d.len() > 0 && all_digits(d) && digits_value(d) <= u64::MAX));
            assert(parse_u64(s@) is None);
            return None;
        }
        assert(all_digits(next)) by {
            assert forall|j: int| 0 <= j < next.len() implies is_digit(#[trigger] next[j]) by {
                if j < next.len() - 1 {
                    assert(next[j] == prev[j]);
                }
            }
        }
        let dig = (c as u32 - '0' as u32) as u64;
        assert(next.last() == c);
        assert(digits_value(next) == digits_value(prev) * 10 + dig);
        match v.checked_mul(10) {
            None => {
                proof { self::lemma_overflow_is_final(d, (i - start) as int); }
                assert(parse_u64(s@) is None);
                return None;
            },
            Some(t) => match t.checked_add(dig) {
                None => {
                    proof { self::lemma_overflow_is_final(d, (i - start) as int); }
                    assert(parse_u64(s@) is None);
                    return None;
                },
                Some(n) => {
                    v = n;
                },
            },
        }
        i += 1;
    }
    assert(d.take(d.len() as int) =~= d);
    Some(v)
}

/// Once a digit prefix's next step overflows a `u64`, the whole string does not
/// parse.
proof fn lemma_overflow_is_final(d: Seq<char>, k: int)
    requires
        0 <= k < d.len(),
        all_digits(d.take(k + 1)),
        digits_value(d.take(k + 1)) > u64::MAX,
    ensures
        !(all_digits(d) && digits_value(d) <= u64::MAX),
{
    if all_digits(d) {
        lemma_digits_value_prefix(d, k + 1);
    }
}


/// Lexicographic (code-point) order on char sequences: the order of `String`'s `Ord`.
pub open spec fn lex_lt(a: Seq<char>, b: Seq<char>) -> bool
    decreases a.len(),
{
    if a.len() == 0 {
        b.len() > 0
    } else if b.len() == 0 {
        false
    } else if a[0] != b[0] {
        a[0] < b[0]
    } else {
        lex_lt(a.drop_first(), b.drop_first())
    }
}

pub proof fn lemma_lex_irreflexive(a: Seq<char>)
    ensures
        !lex_lt(a, a),
    decreases a.len(),
{
    if a.len() > 0 {
        lemma_lex_irreflexive(a.drop_first());
    }
}

pub proof fn lemma_lex_transitive(a: Seq<char>, b: Seq<char>, c: Seq<char>)
    requires
        lex_lt(a, b),
        lex_lt(b, c),
    ensures
        lex_lt(a, c),
    decreases a.len(),
{
    if a.len() > 0 && b.len() > 0 && c.len() > 0 {
        if a[0] == b[0] && b[0] == c[0] {
            lemma_lex_transitive(a.drop_first(), b.drop_first(), c.drop_first());
        }
    }
}

pub proof fn lemma_lex_total(a: Seq<char>, b: Seq<char>)
    ensures
        a =~= b || lex_lt(a, b) || lex_lt(b, a),
    decreases a.len(),
{
    if a.len() > 0 && b.len() > 0 && a[0] == b[0] {
        lemma_lex_total(a.drop_first(), b.drop_first());
        if a.drop_first() =~= b.drop_first() {
            assert(a =~= seq![a[0]] + a.drop_first());
            assert(b =~= seq![b[0]] + b.drop_first());
        }
    }
}

pub proof fn lemma_lex_asym(a: Seq<char>, b: Seq<char>)
    ensures
        !(lex_lt(a, b) && lex_lt(b, a)),
{
    if lex_lt(a, b) && lex_lt(b, a) {
        lemma_lex_transitive(a, b, a);
        lemma_lex_irreflexive(a);
    }
}

/// Three-way lexicographic comparison: -1, 0 or 1.
pub fn lex_compare(a: &[char], b: &[char]) -> (r: i8)
    ensures
        r == 0 <==> a@ == b@,
        r < 0 <==> lex_lt(a@, b@),
        r > 0 <==> lex_lt(b@, a@),
        -1 <= r <= 1,
{
    let mut i: usize = 0;
    assert(a@.skip(0) =~= a@);
    assert(b@.skip(0) =~= b@);
    while i < a.len() && i < b.len() && a[i] == b[i]
        invariant
            i <= a@.len(),
            i <= b@.len(),
            a@.take(i as int) =~= b@.take(i as int),
            lex_lt(a@, b@) == lex_lt(a@.skip(i as int), b@.skip(i as int)),
            lex_lt(b@, a@) == lex_lt(b@.skip(i as int), a@.skip(i as int)),
        decreases a.len() - i,
    {
        assert(a@.skip(i as int).drop_first() =~= a@.skip(i + 1));
        assert(b@.skip(i as int).drop_first() =~= b@.skip(i + 1));
        i += 1;
        assert(a@.take(i as int) =~= b@.take(i as int)) by {
            assert forall|k: int| 0 <= k < i implies a@[k] == b@[k] by {
                if k < i - 1 {
                    assert(a@.take(i - 1)[k] == b@.take(i - 1)[k]);
                }
            }
        }
    }
    proof {
        lemma_lex_asym(a@, b@);
    }
    if i < a.len() && i < b.len() {
        assert(a@.skip(i as int)[0] == a@[i as int]);
        assert(b@.skip(i as int)[0] == b@[i as int]);
        if a[i] < b[i] {
            proof { lemma_lex_irreflexive(a@); }
            -1
        } else {
            proof { lemma_lex_irreflexive(a@); }
            assert(a@ != b@) by {
                if a@ == b@ {
                    assert(a@[i as int] == b@[i as int]);
                }
            }
            1
        }
    } else if i == a.len() && i == b.len() {
        assert(a@ =~= a@.take(i as int));
        assert(b@ =~= b@.take(i as int));
        proof { lemma_lex_irreflexive(a@); }
        0
    } else if i == a.len() {
        assert(a@.skip(i as int).len() == 0);
        assert(a@ != b@);
        -1
    } else {
        assert(b@.skip(i as int).len() == 0);
        assert(a@ != b@);
        1
    }
}

/// Strictly increasing in lexicographic order (so sorted and free of duplicates).
pub open spec fn strictly_sorted(s: Seq<Seq<char>>) -> bool {
    forall|i: int, j: int| 0 <= i < j < s.len() ==> lex_lt(#[trigger] s[i], #[trigger] s[j])
}

pub open spec fn views_of(v: Seq<Vec<char>>) -> Seq<Seq<char>> {
    v.map_values(|x: Vec<char>| x@)
}

/// The first position whose element is not below `x`.
fn lower_bound(v: &Vec<Vec<char>>, x: &Vec<char>) -> (pos: usize)
    ensures
        pos <= v@.len(),
        forall|j: int| 0 <= j < pos ==> lex_lt(#[trigger] views_of(v@)[j], x@),
        pos < v@.len() ==> !lex_lt(views_of(v@)[pos as int], x@),
{
    let mut i: usize = 0;
    while i < v.len()
        invariant
            i <= v@.len(),
            forall|j: int| 0 <= j < i ==> lex_lt(#[trigger] views_of(v@)[j], x@),
        decreases v.len() - i,
    {
        let c = lex_compare(&v[i], x);
        assert(views_of(v@)[i as int] == v@[i as int]@);
        if c >= 0 {
            return i;
        }
        i += 1;
    }
    i
}

/// Insert `x` into a strictly sorted list, keeping it strictly sorted (a no-op
/// when `x` is already present): the set insert of an ordered set.
pub fn sorted_insert(v: &mut Vec<Vec<char>>, x: Vec<char>)
    requires
        strictly_sorted(views_of(old(v)@)),
    ensures
        strictly_sorted(views_of(final(v)@)),
        views_of(final(v)@).to_set() == views_of(old(v)@).to_set().insert(x@),
{
    let ghost s0 = views_of(v@);
    let i = lower_bound(v, &x);
    if i < v.len() {
        let c = lex_compare(&v[i], &x);
        assert(s0[i as int] == v@[i as int]@);
        if c == 0 {
            assert(s0.contains(x@));
            assert(s0.to_set().insert(x@) =~= s0.to_set());
            return;
        }
        proof {
            lemma_lex_total(s0[i as int], x@);
        }
        assert(lex_lt(x@, s0[i as int]));
    }
    v.insert(i, x);
    let ghost s1 = views_of(v@);
    assert(s1 =~= s0.insert(i as int, x@));
    assert forall|a: int, b: int| 0 <= a < b < s1.len() implies lex_lt(#[trigger] s1[a], #[trigger] s1[b]) by {
        if b < i {
            assert(s1[a] == s0[a] && s1[b] == s0[b]);
        } else if b == i {
            assert(s1[a] == s0[a]);
        } else if a == i {
            assert(s1[b] == s0[b - 1]);
            if b - 1 > i {
                lemma_lex_transitive(x@, s0[i as int], s0[b - 1]);
            }
        } else if a < i {
            assert(s1[a] == s0[a] && s1[b] == s0[b - 1]);
        } else {
            assert(s1[a] == s0[a - 1] && s1[b] == s0[b - 1]);
        }
    }
    assert(s1.to_set() =~= s0.to_set().insert(x@)) by {
        assert forall|y: Seq<char>| s1.to_set().contains(y) <==> s0.to_set().insert(x@).contains(y) by {
            if s1.contains(y) {
                let k = choose|k: int| 0 <= k < s1.len() && s1[k] == y;
                if k < i {
                    assert(s0[k] == y);
                } else if k > i {
                    assert(s0[k - 1] == y);
                }
            }
            if s0.contains(y) {
                let k = choose|k: int| 0 <= k < s0.len() && s0[k] == y;
                if k < i {
                    assert(s1[k] == y);
                } else {
                    assert(s1[k + 1] == y);
                }
            }
            if y == x@ {
                assert(s1[i as int] == y);
            }
        }
    }
}


/// `str::lines` from index `i`: split at `\n`, dropping one `\r` right before
/// each `\n`; a final line ending is optional (no empty last line after it).
pub open spec fn lines_from(s: Seq<char>, i: int) -> Seq<Seq<char>>
    decreases s.len() - i,
{
    if i < 0 || i >= s.len() {
        Seq::empty()
    } else {
        match first_newline(s, i) {
            None => seq![s.subrange(i, s.len() as int)],
            Some(j) => {
                proof {
                    lemma_first_newline(s, i);
                }
                let l = s.subrange(i, j);
                let l2 = if l.len() > 0 && l.last() == '\r' { l.drop_last() } else { l };
                seq![l2] + lines_from(s, j + 1)
            },
        }
    }
}

/// The first `\n` at or after `i`.
pub open spec fn first_newline(s: Seq<char>, i: int) -> Option<int>
    decreases s.len() - i,
{
    if i < 0 || i >= s.len() {
        None
    } else if s[i] == '\n' {
        Some(i)
    } else {
        first_newline(s, i + 1)
    }
}

pub proof fn lemma_first_newline(s: Seq<char>, i: int)
    ensures
        first_newline(s, i) matches Some(j) ==> i <= j < s.len() && s[j] == '\n',
    decreases s.len() - i,
{
    if 0 <= i < s.len() && s[i] != '\n' {
        lemma_first_newline(s, i + 1);
    }
}

pub open spec fn lines_spec(s: Seq<char>) -> Seq<Seq<char>> {
    lines_from(s, 0)
}

/// The lines of a text (`str::lines`).
pub fn lines_of(s: &[char]) -> (r: Vec<Vec<char>>)
    ensures
        views_of(r@) == lines_spec(s@),
{
    let mut out: Vec<Vec<char>> = Vec::new();
    let mut i: usize = 0;
    while i < s.len()
        invariant
            i <= s@.len(),
            views_of(out@) + lines_from(s@, i as int) == lines_spec(s@),
        decreases s.len() - i,
    {
        let mut j = i;
        while j < s.len() && s[j] != '\n'
            invariant
                i <= j <= s@.len(),
                first_newline(s@, i as int) == first_newline(s@, j as int),
            decreases s.len() - j,
        {
            j += 1;
        }
        proof { lemma_first_newline(s@, i as int); }
        let mut l = slice_of(s, i, j);
        if j < s.len() && l.len() > 0 && l[l.len() - 1] == '\r' {
            l.pop();
            assert(l@ =~= s@.subrange(i as int, j as int).drop_last());
        }
        let ghost lv = l@;
        out.push(l);
        if j >= s.len() {
            assert(lines_from(s@, i as int) =~= seq![lv]);
            assert(lines_from(s@, j as int) =~= Seq::<Seq<char>>::empty());
            assert(views_of(out@) =~= views_of(out@.drop_last()) + seq![lv]);
            i = j;
        } else {
            assert(lines_from(s@, i as int) =~= seq![lv] + lines_from(s@, j + 1));
            assert(views_of(out@) =~= views_of(out@.drop_last()) + seq![lv]);
            assert(views_of(out@) + lines_from(s@, j + 1) =~= views_of(out@.drop_last()) + (seq![lv] + lines_from(s@, j + 1)));
            i = j + 1;
        }
    }
    assert(lines_from(s@, i as int) =~= Seq::<Seq<char>>::empty());
    assert(views_of(out@) =~= views_of(out@) + Seq::<Seq<char>>::empty());
    out
}


/// The decimal digits of `n` (no sign, no leading zeros; `0` for zero).
pub open spec fn dec_text(n: nat) -> Seq<char>
    decreases n,
{
    if n < 10 {
        seq![digit_char(n)]
    } else {
        dec_text(n / 10) + seq![digit_char(n % 10)]
    }
}

pub open spec fn digit_char(d: nat) -> char {
    if d == 0 { '0' } else if d == 1 { '1' } else if d == 2 { '2' } else if d == 3 { '3' } else if d == 4 {
        '4'
    } else if d == 5 { '5' } else if d == 6 { '6' } else if d == 7 { '7' } else if d == 8 { '8' } else {
        '9'
    }
}

fn digit_char_exec(d: u64) -> (c: char)
    requires
        d < 10,
    ensures
        c == digit_char(d as nat),
{
    if d == 0 { '0' } else if d == 1 { '1' } else if d == 2 { '2' } else if d == 3 { '3' } else if d == 4 {
        '4'
    } else if d == 5 { '5' } else if d == 6 { '6' } else if d == 7 { '7' } else if d == 8 { '8' } else {
        '9'
    }
}

/// `n` in decimal (`n.to_string()`).
pub fn dec_text_exec(n: u64) -> (r: Vec<char>)
    ensures
        r@ == dec_text(n as nat),
    decreases n,
{
    if n < 10 {
        let mut v: Vec<char> = Vec::new();
        v.push(digit_char_exec(n));
        v
    } else {
        let mut v = dec_text_exec(n / 10);
        v.push(digit_char_exec(n % 10));
        v
    }
}

} // verus!
