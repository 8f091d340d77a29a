//! Ownership and churn risk of the changed files, mined from prior history.
//!
//! For each changed file: the bus factor (how many authors, taken from the
//! most prolific down, it takes to cover 80% of the file's commits), the top
//! author's share, and the trend of monthly churn, read from the sign of the
//! least-squares slope of churn over 30-day buckets, computed exactly. No
//! author identity is carried into the report, only counts.
use vstd::prelude::*;
use crate::paths::eq_str;
use crate::signatures::{bound, bound_spec};
use crate::style::{sorted_u32, u32_leq, Ratio};
use crate::text::{chars_of, string_of};

verus! {

/// Cap on changed files that get a churn entry.
pub const MAX_FILES: usize = 40;
/// Cap on a reported path (chars).
pub const MAX_PATH: usize = 200;
/// Days per churn bucket.
pub const BUCKET_DAYS: i64 = 30;
/// Milliseconds per day.
pub const MS_PER_DAY: i64 = 86_400_000;
/// Cap on the file touches of one history (so every exact sum fits `i128`).
pub const MAX_TOUCHES: usize = 0x3fff_ffff;

/// One file a commit touched: its repo-relative path, whether it stays inside
/// the repository, and the lines added and deleted.
pub struct FileTouch {
    pub path: String,
    pub confined: bool,
    pub added: u64,
    pub deleted: u64,
}

/// One commit of the history: its author, commit time (ms since the epoch) and
/// the files it touched.
pub struct CommitTouch {
    pub author_email: String,
    pub committed_ms: u64,
    pub files: Vec<FileTouch>,
}

/// The least-squares slope of churn over bucket index as the exact fraction
/// `num / den`; `0 / 1` when there is no trend to fit.
#[derive(Debug, Clone, Copy, PartialEq, Eq, Structural)]
pub struct Slope {
    pub num: i128,
    pub den: i128,
}

/// One changed file's ownership and churn facts.
#[derive(Clone, Debug)]
pub struct FileChurn {
    pub path: String,
    pub commits: u32,
    pub unique_authors: u32,
    pub bus_factor: u32,
    pub top_author_share: Ratio,
    pub churn_trend: String,
    pub churn_slope: Slope,
    pub total_churn: u64,
}

impl Default for FileChurn {
    /// No path, no history: every count zero, an empty trend and a zero slope.
    fn default() -> (r: FileChurn)
        ensures
            r.path@ == Seq::<char>::empty(),
            r.commits == 0,
            r.unique_authors == 0,
            r.bus_factor == 0,
            r.top_author_share == (Ratio { num: 0, den: 0 }),
            r.churn_trend@ == Seq::<char>::empty(),
            r.churn_slope == (Slope { num: 0, den: 1 }),
            r.total_churn == 0,
    {
        FileChurn {
            path: String::new(),
            commits: 0,
            unique_authors: 0,
            bus_factor: 0,
            top_author_share: Ratio { num: 0, den: 0 },
            churn_trend: String::new(),
            churn_slope: Slope { num: 0, den: 1 },
            total_churn: 0,
        }
    }
}

/// The churn facts of a change.
#[derive(Clone, Debug)]
pub struct ChurnReport {
    pub commits_scanned: u32,
    pub files: Vec<FileChurn>,
}

// ---- the model -----------------------------------------------------------------

/// One touch of a file: the index of its commit in the history, and its churn
/// (lines added plus deleted, saturating).
pub struct TouchV {
    pub commit: int,
    pub churn: u64,
}

pub open spec fn sat_add(a: u64, b: u64) -> u64 {
    if a + b > u64::MAX {
        u64::MAX
    } else {
        (a + b) as u64
    }
}

/// The touches of `f` among one commit's files (commit index `c`), in order;
/// a path that escapes the repository never counts.
pub open spec fn touches_in(fs: Seq<FileTouch>, f: Seq<char>, c: int) -> Seq<TouchV>
    decreases fs.len(),
{
    if fs.len() == 0 {
        Seq::empty()
    } else {
        let rest = touches_in(fs.drop_last(), f, c);
        let t = fs.last();
        if t.confined && t.path@ == f {
            rest.push(TouchV { commit: c, churn: sat_add(t.added, t.deleted) })
        } else {
            rest
        }
    }
}

/// Every touch of `f` across the history, in history order.
pub open spec fn touches_of(h: Seq<CommitTouch>, f: Seq<char>) -> Seq<TouchV>
    decreases h.len(),
{
    if h.len() == 0 {
        Seq::empty()
    } else {
        touches_of(h.drop_last(), f) + touches_in(h.last().files@, f, h.len() - 1)
    }
}

/// The number of file touches in the history.
pub open spec fn history_touches(h: Seq<CommitTouch>) -> nat
    decreases h.len(),
{
    if h.len() == 0 {
        0
    } else {
        history_touches(h.drop_last()) + h.last().files@.len()
    }
}

/// The distinct values of `s`, in order of first appearance.
pub open spec fn distinct<A>(s: Seq<A>) -> Seq<A>
    decreases s.len(),
{
    if s.len() == 0 {
        Seq::empty()
    } else {
        let d = distinct(s.drop_last());
        if d.contains(s.last()) {
            d
        } else {
            d.push(s.last())
        }
    }
}

/// How many times `a` occurs in `s`.
pub open spec fn count<A>(s: Seq<A>, a: A) -> nat
    decreases s.len(),
{
    if s.len() == 0 {
        0
    } else {
        count(s.drop_last(), a) + if s.last() == a {
            1nat
        } else {
            0nat
        }
    }
}

/// The author of each touch.
pub open spec fn authors_of(h: Seq<CommitTouch>, ts: Seq<TouchV>) -> Seq<Seq<char>> {
    ts.map_values(|t: TouchV| h[t.commit].author_email@)
}

/// Each distinct author's number of touches, in order of first appearance.
pub open spec fn author_counts(h: Seq<CommitTouch>, ts: Seq<TouchV>) -> Seq<u32> {
    let a = authors_of(h, ts);
    distinct(a).map_values(|x: Seq<char>| count(a, x) as u32)
}

/// Taking the counts of `asc` (ascending) from the largest down, from the
/// `k`-th largest on with `cum` already covered: how many authors it takes
/// until at least 80% of `total` is covered (all of them if never).
pub open spec fn cover_from_top(asc: Seq<u32>, k: int, cum: int, total: int) -> int
    decreases asc.len() - k,
{
    if k < 0 || k >= asc.len() {
        k
    } else {
        let c = cum + asc[asc.len() - 1 - k];
        if 5 * c >= 4 * total {
            k + 1
        } else {
            cover_from_top(asc, k + 1, c, total)
        }
    }
}

/// Rust's integer division (truncating toward zero) by a positive `d`.
pub open spec fn trunc_div(a: int, d: int) -> int {
    if a >= 0 {
        a / d
    } else {
        -((-a) / d)
    }
}

/// The 30-day bucket of a commit made at `ms` (0 = the last 30 days).
pub open spec fn bucket_of(now: u64, ms: u64) -> int {
    trunc_div(trunc_div((now as i64) - (ms as i64), MS_PER_DAY as int), BUCKET_DAYS as int)
}

pub open spec fn buckets_of(h: Seq<CommitTouch>, ts: Seq<TouchV>, now: u64) -> Seq<int> {
    ts.map_values(|t: TouchV| bucket_of(now, h[t.commit].committed_ms))
}

pub open spec fn sum_of(s: Seq<int>) -> int
    decreases s.len(),
{
    if s.len() == 0 {
        0
    } else {
        sum_of(s.drop_last()) + s.last()
    }
}

pub open spec fn sum_sq(s: Seq<int>) -> int
    decreases s.len(),
{
    if s.len() == 0 {
        0
    } else {
        sum_sq(s.drop_last()) + s.last() * s.last()
    }
}

/// The total churn of the touches.
pub open spec fn sum_churn(ts: Seq<TouchV>) -> int
    decreases ts.len(),
{
    if ts.len() == 0 {
        0
    } else {
        sum_churn(ts.drop_last()) + ts.last().churn
    }
}

/// The sum over touches of bucket times churn, which is the sum over buckets
/// of bucket index times the bucket's churn.
pub open spec fn sum_xy(h: Seq<CommitTouch>, ts: Seq<TouchV>, now: u64) -> int
    decreases ts.len(),
{
    if ts.len() == 0 {
        0
    } else {
        sum_xy(h, ts.drop_last(), now) + bucket_of(now, h[ts.last().commit].committed_ms)
            * ts.last().churn
    }
}

/// The least-squares fit of bucket churn over bucket index, as the fraction
/// `(n·Σxy − Σx·Σy) / (n·Σx² − (Σx)²)` over the `n` distinct buckets; `0 / 1`
/// with fewer than two buckets or a degenerate fit.
pub open spec fn slope_spec(h: Seq<CommitTouch>, ts: Seq<TouchV>, now: u64) -> (int, int) {
    let bs = distinct(buckets_of(h, ts, now));
    let n = bs.len() as int;
    let sx = sum_of(bs);
    let num = n * sum_xy(h, ts, now) - sx * sum_churn(ts);
    let den = n * sum_sq(bs) - sx * sx;
    if n < 2 || den <= 0 {
        (0, 1)
    } else {
        (num, den)
    }
}

/// `increasing` above a slope of 0.5, `decreasing` below −0.5, else `stable`.
pub open spec fn trend_label(s: (int, int)) -> Seq<char> {
    if 2 * s.0 > s.1 {
        "increasing"@
    } else if 2 * s.0 < -s.1 {
        "decreasing"@
    } else {
        "stable"@
    }
}

pub struct FileChurnV {
    pub path: Seq<char>,
    pub commits: int,
    pub unique_authors: int,
    pub bus_factor: int,
    pub top_author_share: Ratio,
    pub churn_trend: Seq<char>,
    pub churn_slope: (int, int),
    pub total_churn: int,
}

pub open spec fn churn_view(c: FileChurn) -> FileChurnV {
    FileChurnV {
        path: c.path@,
        commits: c.commits as int,
        unique_authors: c.unique_authors as int,
        bus_factor: c.bus_factor as int,
        top_author_share: c.top_author_share,
        churn_trend: c.churn_trend@,
        churn_slope: (c.churn_slope.num as int, c.churn_slope.den as int),
        total_churn: c.total_churn as int,
    }
}

pub open spec fn churns_view(s: Seq<FileChurn>) -> Seq<FileChurnV> {
    s.map_values(|c: FileChurn| churn_view(c))
}

/// The entry of a file with touches `ts` (at least one).
pub open spec fn entry_spec(h: Seq<CommitTouch>, f: Seq<char>, ts: Seq<TouchV>, now: u64) -> FileChurnV {
    let asc = author_counts(h, ts).sort_by(u32_leq());
    let slope = slope_spec(h, ts, now);
    FileChurnV {
        path: bound_spec(f, MAX_PATH as nat),
        commits: ts.len() as int,
        unique_authors: distinct(authors_of(h, ts)).len() as int,
        bus_factor: cover_from_top(asc, 0, 0, ts.len() as int),
        top_author_share: Ratio { num: asc.last() as u64, den: ts.len() as u64 },
        churn_trend: trend_label(slope),
        churn_slope: slope,
        total_churn: sum_churn(ts),
    }
}

/// The entries of the changed files that have history, in order (before the
/// cap on the number of entries).
pub open spec fn entries(h: Seq<CommitTouch>, cs: Seq<Seq<char>>, now: u64) -> Seq<FileChurnV>
    decreases cs.len(),
{
    if cs.len() == 0 {
        Seq::empty()
    } else {
        let rest = entries(h, cs.drop_last(), now);
        let ts = touches_of(h, cs.last());
        if ts.len() == 0 {
            rest
        } else {
            rest.push(entry_spec(h, cs.last(), ts, now))
        }
    }
}

/// What computing `f`'s entry needs: its total churn fits `u64` and each of
/// its commits' age fits `i64` (otherwise the sums would overflow).
pub open spec fn computable(h: Seq<CommitTouch>, f: Seq<char>, now: u64) -> bool {
    let ts = touches_of(h, f);
    &&& sum_churn(ts) <= u64::MAX
    &&& forall|k: int|
        0 <= k < ts.len() ==> i64::MIN <= (now as i64) - (#[trigger] h[ts[k].commit].committed_ms
            as i64) <= i64::MAX
}


// ---- lemmas ------------------------------------------------------------------

pub proof fn lemma_distinct_push<A>(s: Seq<A>, x: A)
    ensures
        distinct(s.push(x)) == (if distinct(s).contains(x) { distinct(s) } else { distinct(s).push(x) }),
        count(s.push(x), x) == count(s, x) + 1,
        forall|y: A| y != x ==> count(s.push(x), y) == count(s, y),
{
    assert(s.push(x).drop_last() =~= s);
    assert forall|y: A| y != x implies count(s.push(x), y) == count(s, y) by {
        assert(s.push(x).drop_last() =~= s);
    }
}

pub proof fn lemma_distinct_facts<A>(s: Seq<A>)
    ensures
        distinct(s).no_duplicates(),
        distinct(s).len() <= s.len(),
        forall|x: A| #[trigger] distinct(s).contains(x) <==> s.contains(x),
        forall|x: A| !s.contains(x) ==> #[trigger] count(s, x) == 0,
        forall|x: A| #[trigger] count(s, x) <= s.len(),
    decreases s.len(),
{
    if s.len() > 0 {
        let p = s.drop_last();
        let y = s.last();
        lemma_distinct_facts(p);
        assert(s =~= p.push(y));
        lemma_distinct_push(p, y);
        let d = distinct(p);
        assert forall|x: A| #[trigger] distinct(s).contains(x) <==> s.contains(x) by {
            if p.contains(x) {
                let i = choose|i: int| 0 <= i < p.len() && p[i] == x;
                assert(s[i] == x);
                assert(d.contains(x));
                if !d.contains(y) {
                    let j = choose|j: int| 0 <= j < d.len() && d[j] == x;
                    assert(d.push(y)[j] == x);
                }
            } else if x == y {
                assert(s[s.len() - 1] == x);
                assert(!d.contains(x));
                assert(d.push(y)[d.len() as int] == x);
            } else {
                assert forall|i: int| 0 <= i < s.len() implies s[i] != x by {
                    if i < s.len() - 1 {
                        assert(p[i] == s[i]);
                    }
                }
                assert(!d.contains(x));
                if !d.contains(y) {
                    assert forall|j: int| 0 <= j < d.len() + 1 implies d.push(y)[j] != x by {
                        if j < d.len() {
                            assert(d.push(y)[j] == d[j]);
                        }
                    }
                }
            }
        }
        assert forall|x: A| !s.contains(x) implies #[trigger] count(s, x) == 0 by {
            if p.contains(x) {
                let i = choose|i: int| 0 <= i < p.len() && p[i] == x;
                assert(s[i] == x);
            }
            assert(s[s.len() - 1] == y);
            assert(!p.contains(x));
            assert(count(p, x) == 0);
            assert(y != x);
            assert(count(s, x) == count(p, x));
        }
        assert forall|x: A| #[trigger] count(s, x) <= s.len() by {
            assert(count(p, x) <= p.len());
        }
        if !d.contains(y) {
            assert forall|i: int, j: int| 0 <= i < j < d.push(y).len() implies d.push(y)[i] != d.push(y)[j] by {
                if j == d.len() {
                    assert(d.push(y)[i] == d[i]);
                    assert(d.contains(d[i]));
                }
            }
        }
    }
}

proof fn lemma_sum_churn_prefix(ts: Seq<TouchV>, k: int)
    requires
        0 <= k <= ts.len(),
    ensures
        0 <= sum_churn(ts.take(k)) <= sum_churn(ts),
    decreases ts.len(),
{
    if ts.len() > 0 {
        if k == ts.len() {
            assert(ts.take(k) =~= ts);
            lemma_sum_churn_prefix(ts.drop_last(), k - 1);
        } else {
            assert(ts.drop_last().take(k) =~= ts.take(k));
            lemma_sum_churn_prefix(ts.drop_last(), k);
        }
    }
}

proof fn lemma_touches_len(h: Seq<CommitTouch>, f: Seq<char>)
    ensures
        touches_of(h, f).len() <= history_touches(h),
    decreases h.len(),
{
    if h.len() > 0 {
        lemma_touches_len(h.drop_last(), f);
        lemma_touches_in_len(h.last().files@, f, h.len() - 1);
    }
}

proof fn lemma_touches_in_len(fs: Seq<FileTouch>, f: Seq<char>, c: int)
    ensures
        touches_in(fs, f, c).len() <= fs.len(),
        forall|k: int| 0 <= k < touches_in(fs, f, c).len() ==> #[trigger] touches_in(fs, f, c)[k].commit == c,
    decreases fs.len(),
{
    if fs.len() > 0 {
        lemma_touches_in_len(fs.drop_last(), f, c);
    }
}

/// The sum of the `k` largest counts of `asc` (ascending): its last `k`.
pub open spec fn top_sum(asc: Seq<u32>, k: int) -> int
    decreases k,
{
    if k <= 0 || k > asc.len() {
        0
    } else {
        top_sum(asc, k - 1) + asc[asc.len() - k]
    }
}

proof fn lemma_cover_step(asc: Seq<u32>, k: int, total: int)
    requires
        0 <= k <= asc.len(),
    ensures
        ({
            let r = cover_from_top(asc, k, top_sum(asc, k), total);
            &&& k <= r <= asc.len()
            &&& k < asc.len() ==> k + 1 <= r
            &&& (r < asc.len() && r > k) ==> 5 * top_sum(asc, r) >= 4 * total
            &&& forall|j: int| k < j < r ==> 5 * #[trigger] top_sum(asc, j) < 4 * total
        }),
    decreases asc.len() - k,
{
    if k < asc.len() {
        let c = top_sum(asc, k) + asc[asc.len() - 1 - k];
        assert(top_sum(asc, k + 1) == c);
        if 5 * c < 4 * total {
            lemma_cover_step(asc, k + 1, total);
        }
    }
}

/// The bus factor is the fewest authors, taken from the most prolific down,
/// whose commits reach 80%: for counts that sum to `total` (at least one
/// commit), it lies between one and the number of authors, the top that many
/// cover 80% of the commits, and one author fewer does not.
pub proof fn law_bus_factor_is_least_cover(asc: Seq<u32>, total: int)
    requires
        asc.len() > 0,
        top_sum(asc, asc.len() as int) == total,
        total > 0,
    ensures
        ({
            let b = cover_from_top(asc, 0, 0, total);
            &&& 1 <= b <= asc.len()
            &&& 5 * top_sum(asc, b) >= 4 * total
            &&& 5 * top_sum(asc, b - 1) < 4 * total
        }),
{
    lemma_cover_step(asc, 0, total);
    let b = cover_from_top(asc, 0, 0, total);
    if b > 1 {
        assert(5 * top_sum(asc, b - 1) < 4 * total);
    }
}

/// The sum of a sequence of counts.
pub open spec fn seq_sum(s: Seq<u32>) -> int
    decreases s.len(),
{
    if s.len() == 0 {
        0
    } else {
        s[0] + seq_sum(s.drop_first())
    }
}

proof fn lemma_top_sum_is_suffix_sum(s: Seq<u32>, k: int)
    requires
        0 <= k <= s.len(),
    ensures
        top_sum(s, k) == seq_sum(s.subrange(s.len() - k, s.len() as int)),
    decreases k,
{
    if k > 0 {
        lemma_top_sum_is_suffix_sum(s, k - 1);
        let t = s.subrange(s.len() - k, s.len() as int);
        assert(t.drop_first() =~= s.subrange(s.len() - (k - 1), s.len() as int));
        assert(t[0] == s[s.len() - k]);
    } else {
        assert(s.subrange(s.len() as int, s.len() as int) =~= Seq::<u32>::empty());
    }
}

proof fn lemma_seq_sum_remove(s: Seq<u32>, i: int)
    requires
        0 <= i < s.len(),
    ensures
        seq_sum(s) == seq_sum(s.remove(i)) + s[i],
    decreases s.len(),
{
    if i == 0 {
        assert(s.remove(0) =~= s.drop_first());
    } else {
        lemma_seq_sum_remove(s.drop_first(), i - 1);
        assert(s.remove(i).drop_first() =~= s.drop_first().remove(i - 1));
        assert(s.remove(i)[0] == s[0]);
    }
}

proof fn lemma_seq_sum_perm(s: Seq<u32>, t: Seq<u32>)
    requires
        s.to_multiset() == t.to_multiset(),
    ensures
        seq_sum(s) == seq_sum(t),
    decreases s.len(),
{
    broadcast use vstd::seq_lib::group_to_multiset_ensures;
    if s.len() == 0 {
        vstd::seq_lib::to_multiset_len(s);
        vstd::seq_lib::to_multiset_len(t);
        assert(t.len() == 0);
    } else {
        let x = s[0];
        assert(s.contains(x));
        assert(s.to_multiset().count(x) > 0);
        assert(t.to_multiset().count(x) > 0);
        assert(t.contains(x));
        let i = choose|i: int| 0 <= i < t.len() && t[i] == x;
        lemma_seq_sum_remove(t, i);
        assert(s.drop_first() =~= s.remove(0));
        assert(s.remove(0).to_multiset() == t.remove(i).to_multiset());
        lemma_seq_sum_perm(s.drop_first(), t.remove(i));
    }
}

proof fn lemma_seq_sum_push(s: Seq<u32>, v: u32)
    ensures
        seq_sum(s.push(v)) == seq_sum(s) + v,
    decreases s.len(),
{
    if s.len() > 0 {
        lemma_seq_sum_push(s.drop_first(), v);
        assert(s.push(v).drop_first() =~= s.drop_first().push(v));
        assert(s.push(v)[0] == s[0]);
        assert(seq_sum(s.push(v)) == s[0] + seq_sum(s.drop_first().push(v)));
        assert(seq_sum(s) == s[0] + seq_sum(s.drop_first()));
    } else {
        assert(s.push(v).drop_first() =~= Seq::<u32>::empty());
        assert(s.push(v)[0] == v);
        assert(seq_sum(s.push(v).drop_first()) == 0);
        assert(seq_sum(s.push(v)) == v + seq_sum(s.push(v).drop_first()));
    }
}

proof fn lemma_seq_sum_bump(s: Seq<u32>, j: int)
    requires
        0 <= j < s.len(),
        s[j] < u32::MAX,
    ensures
        seq_sum(s.update(j, (s[j] + 1) as u32)) == seq_sum(s) + 1,
    decreases s.len(),
{
    let v = (s[j] + 1) as u32;
    if j == 0 {
        assert(s.update(0, v).drop_first() =~= s.drop_first());
    } else {
        lemma_seq_sum_bump(s.drop_first(), j - 1);
        assert(s.update(j, v).drop_first() =~= s.drop_first().update(j - 1, v));
    }
}

proof fn lemma_counts_sum(a: Seq<Seq<char>>)
    requires
        a.len() <= MAX_TOUCHES,
    ensures
        seq_sum(distinct(a).map_values(|x: Seq<char>| count(a, x) as u32)) == a.len(),
    decreases a.len(),
{
    if a.len() > 0 {
        let p = a.drop_last();
        let y = a.last();
        lemma_counts_sum(p);
        assert(a =~= p.push(y));
        lemma_distinct_push(p, y);
        lemma_distinct_facts(p);
        lemma_distinct_facts(a);
        let d = distinct(p);
        let cp = d.map_values(|x: Seq<char>| count(p, x) as u32);
        let ca = distinct(a).map_values(|x: Seq<char>| count(a, x) as u32);
        if d.contains(y) {
            let j = choose|j: int| 0 <= j < d.len() && d[j] == y;
            assert(count(p, y) <= p.len());
            assert(ca =~= cp.update(j, (cp[j] + 1) as u32)) by {
                assert forall|q: int| 0 <= q < d.len() implies ca[q] == cp.update(j, (cp[j] + 1) as u32)[q] by {
                    if q != j {
                        assert(d[q] != d[j]);
                    }
                }
            }
            lemma_seq_sum_bump(cp, j);
        } else {
            assert(!p.contains(y));
            assert(count(p, y) == 0);
            assert(ca =~= cp.push(1u32));
            lemma_seq_sum_push(cp, 1u32);
        }
    }
}

/// Every churn entry's bus factor is the fewest authors, most prolific first,
/// whose commits reach 80% of the file's commits: it is at least one and at
/// most the number of authors, the top that many authors cover 80%, and one
/// fewer do not.
pub proof fn law_churn_bus_factor(h: Seq<CommitTouch>, f: Seq<char>, now: u64)
    requires
        touches_of(h, f).len() > 0,
        touches_of(h, f).len() <= MAX_TOUCHES,
    ensures
        ({
            let ts = touches_of(h, f);
            let e = entry_spec(h, f, ts, now);
            let asc = author_counts(h, ts).sort_by(u32_leq());
            &&& 1 <= e.bus_factor <= e.unique_authors
            &&& 5 * top_sum(asc, e.bus_factor) >= 4 * e.commits
            &&& 5 * top_sum(asc, e.bus_factor - 1) < 4 * e.commits
        }),
{
    broadcast use vstd::seq_lib::group_to_multiset_ensures;
    let ts = touches_of(h, f);
    let a = authors_of(h, ts);
    let counts = author_counts(h, ts);
    let asc = counts.sort_by(u32_leq());
    crate::style::lemma_u32_leq_total();
    counts.lemma_sort_by_ensures(u32_leq());
    assert(asc.len() == counts.len()) by {
        vstd::seq_lib::to_multiset_len(counts);
        vstd::seq_lib::to_multiset_len(asc);
    }
    lemma_distinct_facts(a);
    assert(a.contains(a[0]));
    assert(distinct(a).contains(a[0]));
    lemma_counts_sum(a);
    lemma_seq_sum_perm(counts, asc);
    lemma_top_sum_is_suffix_sum(asc, asc.len() as int);
    assert(asc.subrange(0, asc.len() as int) =~= asc);
    law_bus_factor_is_least_cover(asc, ts.len() as int);
}

// ---- executable ----------------------------------------------------------------

/// One touch: the index of its commit and its churn.
struct Touch {
    commit: usize,
    churn: u64,
}

spec fn touch_views(s: Seq<Touch>) -> Seq<TouchV> {
    s.map_values(|t: Touch| TouchV { commit: t.commit as int, churn: t.churn })
}

fn touches_exec(history: &[CommitTouch], f: &str) -> (r: Vec<Touch>)
    ensures
        touch_views(r@) == touches_of(history@, f@),
        forall|k: int| 0 <= k < r@.len() ==> #[trigger] r@[k].commit < history@.len(),
{
    let fc = chars_of(f);
    let mut r: Vec<Touch> = Vec::new();
    let mut i: usize = 0;
    while i < history.len()
        invariant
            i <= history@.len(),
            fc@ == f@,
            touch_views(r@) == touches_of(history@.take(i as int), f@),
            forall|k: int| 0 <= k < r@.len() ==> #[trigger] r@[k].commit < i,
        decreases history.len() - i,
    {
        let files = &history[i].files;
        let ghost before = touch_views(r@);
        let mut j: usize = 0;
        while j < files.len()
            invariant
                j <= files@.len(),
                i < history@.len(),
                files@ == history@[i as int].files@,
                fc@ == f@,
                touch_views(r@) == before + touches_in(files@.take(j as int), f@, i as int),
                forall|k: int| 0 <= k < r@.len() ==> #[trigger] r@[k].commit <= i,
            decreases files.len() - j,
        {
            let t = &files[j];
            let ghost r0 = touch_views(r@);
            assert(files@.take(j + 1).drop_last() =~= files@.take(j as int));
            if t.confined && eq_str(&fc, t.path.as_str()) {
                let c = t.added.saturating_add(t.deleted);
                r.push(Touch { commit: i, churn: c });
                assert(touch_views(r@) =~= r0.push(TouchV { commit: i as int, churn: c }));
            }
            j += 1;
        }
        assert(files@.take(files@.len() as int) =~= files@);
        assert(history@.take(i + 1).drop_last() =~= history@.take(i as int));
        i += 1;
    }
    assert(history@.take(history@.len() as int) =~= history@);
    r
}

/// Each distinct author's number of touches, in order of first appearance.
fn author_tally(history: &[CommitTouch], ts: &Vec<Touch>) -> (r: Vec<u32>)
    requires
        forall|k: int| 0 <= k < ts@.len() ==> #[trigger] ts@[k].commit < history@.len(),
        ts@.len() <= MAX_TOUCHES,
    ensures
        r@ == author_counts(history@, touch_views(ts@)),
        r@.len() == distinct(authors_of(history@, touch_views(ts@))).len(),
        r@.len() <= ts@.len(),
{
    let ghost tv = touch_views(ts@);
    let ghost a = authors_of(history@, tv);
    let mut reps: Vec<usize> = Vec::new();
    let mut counts: Vec<u32> = Vec::new();
    let mut k: usize = 0;
    while k < ts.len()
        invariant
            k <= ts@.len(),
            ts@.len() <= MAX_TOUCHES,
            tv == touch_views(ts@),
            a == authors_of(history@, tv),
            forall|q: int| 0 <= q < ts@.len() ==> #[trigger] ts@[q].commit < history@.len(),
            reps@.len() == counts@.len(),
            forall|j: int| 0 <= j < reps@.len() ==> #[trigger] reps@[j] < history@.len(),
            forall|j: int| 0 <= j < reps@.len() ==> history@[reps@[j] as int].author_email@
                == #[trigger] distinct(a.take(k as int))[j],
            distinct(a.take(k as int)).len() == reps@.len(),
            forall|j: int| 0 <= j < counts@.len() ==> #[trigger] counts@[j] == count(a.take(k as int), distinct(a.take(k as int))[j]),
        decreases ts.len() - k,
    {
        let ghost ak = a.take(k as int);
        let ghost x = a[k as int];
        proof {
            assert(a.take(k + 1) =~= ak.push(x));
            lemma_distinct_push(ak, x);
            lemma_distinct_facts(ak);
            lemma_distinct_facts(ak.push(x));
        }
        let xc = chars_of(history[ts[k].commit].author_email.as_str());
        assert(xc@ == x);
        let mut j: usize = 0;
        let mut found = false;
        while j < reps.len()
            invariant_except_break
                !found,
            invariant
                j <= reps@.len(),
                reps@.len() == counts@.len(),
                forall|q: int| 0 <= q < reps@.len() ==> #[trigger] reps@[q] < history@.len(),
                forall|q: int| 0 <= q < j ==> history@[reps@[q] as int].author_email@ != xc@,
            ensures
                found ==> j < reps@.len() && history@[reps@[j as int] as int].author_email@ == xc@,
                !found ==> j == reps@.len(),
                forall|q: int| 0 <= q < j ==> history@[reps@[q] as int].author_email@ != xc@,
            decreases reps.len() - j,
        {
            if eq_str(&xc, history[reps[j]].author_email.as_str()) {
                found = true;
                break;
            }
            j += 1;
        }
        let ghost d = distinct(ak);
        if found {
            assert(d[j as int] == x);
            assert(d.contains(x));
            assert(count(ak, x) <= ak.len());
            let c = counts[j] + 1;
            counts.set(j, c);
            assert forall|q: int| 0 <= q < counts@.len() implies #[trigger] counts@[q] == count(a.take(k + 1), distinct(a.take(k + 1))[q]) by {
                if q != j {
                    assert(d[q] != d[j as int]);
                }
            }
        } else {
            assert(!d.contains(x)) by {
                if d.contains(x) {
                    let q = choose|q: int| 0 <= q < d.len() && d[q] == x;
                    assert(history@[reps@[q] as int].author_email@ == d[q]);
                }
            }
            assert(!ak.contains(x));
            reps.push(ts[k].commit);
            counts.push(1);
            assert(distinct(a.take(k + 1)) =~= d.push(x));
            assert forall|q: int| 0 <= q < counts@.len() implies #[trigger] counts@[q] == count(a.take(k + 1), distinct(a.take(k + 1))[q]) by {
                if q < d.len() {
                    assert(d[q] != x) by {
                        assert(d.contains(d[q]));
                    }
                }
            }
        }
        k += 1;
    }
    proof {
        assert(a.take(ts@.len() as int) =~= a);
        lemma_distinct_facts(a);
        assert(counts@ =~= author_counts(history@, tv)) by {
            assert forall|q: int| 0 <= q < counts@.len() implies counts@[q] == author_counts(history@, tv)[q] by {
                assert(count(a, distinct(a)[q]) <= a.len());
            }
        }
    }
    counts
}

/// 2^32: every bucket index is below it in magnitude.
pub open spec fn bucket_bound() -> int {
    0x1_0000_0000
}

proof fn lemma_trunc_div_bound(a: int, d: int, m: int)
    requires
        d > 0,
        m >= 0,
        -m <= a <= m,
    ensures
        -(m / d) <= trunc_div(a, d) <= m / d,
{
    if a >= 0 {
        vstd::arithmetic::div_mod::lemma_div_is_ordered(a, m, d);
        vstd::arithmetic::div_mod::lemma_div_pos_is_pos(a, d);
    } else {
        vstd::arithmetic::div_mod::lemma_div_is_ordered(-a, m, d);
        vstd::arithmetic::div_mod::lemma_div_pos_is_pos(-a, d);
    }
}

proof fn lemma_bucket_bound(now: u64, ms: u64)
    requires
        i64::MIN <= (now as i64) - (ms as i64) <= i64::MAX,
    ensures
        -bucket_bound() < bucket_of(now, ms) < bucket_bound(),
{
    let diff: int = (now as i64) - (ms as i64);
    let m: int = 0x8000_0000_0000_0000;
    lemma_trunc_div_bound(diff, MS_PER_DAY as int, m);
    let days = trunc_div(diff, MS_PER_DAY as int);
    assert(m / 86_400_000 == 106_751_991_167);
    lemma_trunc_div_bound(days, BUCKET_DAYS as int, 106_751_991_167);
    assert(106_751_991_167int / 30 == 3_558_399_705);
}

fn trunc_div_exec(a: i128, d: i128) -> (q: i128)
    requires
        0 < d < 0x1_0000_0000,
        -0x1_0000_0000_0000_0000_0000 < a < 0x1_0000_0000_0000_0000_0000,
    ensures
        q == trunc_div(a as int, d as int),
{
    if a >= 0 {
        let q = (a as u128) / (d as u128);
        proof {
            vstd::arithmetic::div_mod::lemma_div_is_ordered(a as int, 0x1_0000_0000_0000_0000_0000, d as int);
        }
        q as i128
    } else {
        let na: i128 = -a;
        let q = (na as u128) / (d as u128);
        proof {
            vstd::arithmetic::div_mod::lemma_div_is_ordered(na as int, 0x1_0000_0000_0000_0000_0000, d as int);
        }
        -(q as i128)
    }
}

fn bucket_exec(now: u64, ms: u64) -> (b: i128)
    requires
        i64::MIN <= (now as i64) - (ms as i64) <= i64::MAX,
    ensures
        b == bucket_of(now, ms),
        -bucket_bound() < b < bucket_bound(),
{
    let diff: i128 = (now as i64) as i128 - (ms as i64) as i128;
    let days = trunc_div_exec(diff, MS_PER_DAY as i128);
    proof {
        lemma_bucket_bound(now, ms);
        lemma_trunc_div_bound(diff as int, MS_PER_DAY as int, 0x8000_0000_0000_0000);
    }
    trunc_div_exec(days, BUCKET_DAYS as i128)
}

spec fn ints_of(v: Seq<i128>) -> Seq<int> {
    v.map_values(|b: i128| b as int)
}

/// The sums of the least-squares fit: the number of distinct buckets, Σx and
/// Σx² over them, the total churn Σy, and Σxy.
fn fit_sums(history: &[CommitTouch], ts: &Vec<Touch>, now: u64) -> (r: (usize, i128, i128, u64, i128))
    requires
        forall|k: int| 0 <= k < ts@.len() ==> #[trigger] ts@[k].commit < history@.len(),
        ts@.len() <= MAX_TOUCHES,
        sum_churn(touch_views(ts@)) <= u64::MAX,
        forall|k: int| 0 <= k < ts@.len() ==> i64::MIN <= (now as i64) - (history@[#[trigger] ts@[k].commit as int].committed_ms as i64) <= i64::MAX,
    ensures
        ({
            let tv = touch_views(ts@);
            let bs = distinct(buckets_of(history@, tv, now));
            &&& r.0 == bs.len()
            &&& r.1 == sum_of(bs)
            &&& r.2 == sum_sq(bs)
            &&& r.3 == sum_churn(tv)
            &&& r.4 == sum_xy(history@, tv, now)
        }),
        r.0 <= ts@.len(),
        -(r.0 * bucket_bound()) <= r.1 <= r.0 * bucket_bound(),
        0 <= r.2 <= r.0 * (bucket_bound() * bucket_bound()),
        -(bucket_bound() * r.3) <= r.4 <= bucket_bound() * r.3,
{
    let ghost tv = touch_views(ts@);
    let ghost xs = buckets_of(history@, tv, now);
    let mut bs: Vec<i128> = Vec::new();
    let mut sx: i128 = 0;
    let mut sxx: i128 = 0;
    let mut sy: u64 = 0;
    let mut sxy: i128 = 0;
    let mut k: usize = 0;
    while k < ts.len()
        invariant
            k <= ts@.len(),
            ts@.len() <= MAX_TOUCHES,
            tv == touch_views(ts@),
            xs == buckets_of(history@, tv, now),
            forall|q: int| 0 <= q < ts@.len() ==> #[trigger] ts@[q].commit < history@.len(),
            sum_churn(tv) <= u64::MAX,
            forall|q: int| 0 <= q < ts@.len() ==> i64::MIN <= (now as i64) - (history@[#[trigger] ts@[q].commit as int].committed_ms as i64) <= i64::MAX,
            ints_of(bs@) == distinct(xs.take(k as int)),
            sx == sum_of(distinct(xs.take(k as int))),
            sxx == sum_sq(distinct(xs.take(k as int))),
            sy == sum_churn(tv.take(k as int)),
            sxy == sum_xy(history@, tv.take(k as int), now),
            bs@.len() <= k,
            -(bs@.len() * bucket_bound()) <= sx <= bs@.len() * bucket_bound(),
            0 <= sxx <= bs@.len() * (bucket_bound() * bucket_bound()),
            -(bucket_bound() * sy) <= sxy <= bucket_bound() * sy,
        decreases ts.len() - k,
    {
        let t = &ts[k];
        let ms = history[t.commit].committed_ms;
        let x = bucket_exec(now, ms);
        let ghost d = distinct(xs.take(k as int));
        proof {
            assert(xs[k as int] == x);
            assert(xs.take(k + 1) =~= xs.take(k as int).push(x as int));
            lemma_distinct_push(xs.take(k as int), x as int);
            assert(tv.take(k + 1).drop_last() =~= tv.take(k as int));
            assert(tv[k as int].churn == t.churn);
            lemma_sum_churn_prefix(tv, k + 1);
        }
        let mut j: usize = 0;
        let mut seen = false;
        while j < bs.len()
            invariant_except_break
                !seen,
            invariant
                j <= bs@.len(),
                forall|q: int| 0 <= q < j ==> bs@[q] != x,
            ensures
                seen ==> j < bs@.len() && bs@[j as int] == x,
                !seen ==> forall|q: int| 0 <= q < bs@.len() ==> bs@[q] != x,
            decreases bs.len() - j,
        {
            if bs[j] == x {
                seen = true;
                break;
            }
            j += 1;
        }
        if seen {
            assert(d[j as int] == x as int);
            assert(d.contains(x as int));
        } else {
            assert(!d.contains(x as int)) by {
                if d.contains(x as int) {
                    let q = choose|q: int| 0 <= q < d.len() && d[q] == x as int;
                    assert(ints_of(bs@)[q] == bs@[q] as int);
                }
            }
            proof {
                assert(d.push(x as int).drop_last() =~= d);
                assert(x * x <= bucket_bound() * bucket_bound()) by (nonlinear_arith)
                    requires
                        -bucket_bound() < x < bucket_bound(),
                ;
                assert(0 <= x * x) by (nonlinear_arith);
                let l = bs@.len() as int;
                assert(sxx + x * x <= (l + 1) * (bucket_bound() * bucket_bound())
                    <= 0x4000_0000 * (bucket_bound() * bucket_bound())) by (nonlinear_arith)
                    requires
                        sxx <= l * (bucket_bound() * bucket_bound()),
                        x * x <= bucket_bound() * bucket_bound(),
                        0 <= l < 0x3fff_ffff,
                        bucket_bound() == 0x1_0000_0000,
                ;
            }
            bs.push(x);
            sx = sx + x;
            sxx = sxx + x * x;
            assert(ints_of(bs@) =~= d.push(x as int));
        }
        proof {
            assert(-(bucket_bound() * t.churn) <= x * t.churn <= bucket_bound() * t.churn) by (nonlinear_arith)
                requires
                    -bucket_bound() < x < bucket_bound(),
                    t.churn >= 0,
            ;
        }
        sxy = sxy + x * (t.churn as i128);
        sy = sy + t.churn;
        k += 1;
    }
    assert(xs.take(ts@.len() as int) =~= xs);
    assert(tv.take(ts@.len() as int) =~= tv);
    (bs.len(), sx, sxx, sy, sxy)
}

/// Authors from the most prolific down (the counts of `asc`, ascending, read
/// from the end): how many it takes to cover 80% of `total`.
fn cover_exec(asc: &Vec<u32>, total: u64) -> (r: usize)
    requires
        asc@.len() <= MAX_TOUCHES,
    ensures
        r == cover_from_top(asc@, 0, 0, total as int),
        r <= asc@.len(),
{
    let mut cum: u64 = 0;
    let mut k: usize = 0;
    while k < asc.len()
        invariant
            k <= asc@.len(),
            asc@.len() <= MAX_TOUCHES,
            cum <= k * 0x1_0000_0000,
            cover_from_top(asc@, 0, 0, total as int) == cover_from_top(asc@, k as int, cum as int, total as int),
        decreases asc.len() - k,
    {
        assert(cum + 0x1_0000_0000 <= (k + 1) * 0x1_0000_0000);
        let c: u64 = cum + asc[asc.len() - 1 - k] as u64;
        if 5 * (c as u128) >= 4 * (total as u128) {
            return k + 1;
        }
        cum = c;
        k += 1;
    }
    k
}

/// The entry of file `f`, touched by `ts` (at least once).
fn file_entry(history: &[CommitTouch], f: &str, ts: &Vec<Touch>, now: u64) -> (r: FileChurn)
    requires
        ts@.len() > 0,
        ts@.len() <= MAX_TOUCHES,
        touch_views(ts@) == touches_of(history@, f@),
        forall|k: int| 0 <= k < ts@.len() ==> #[trigger] ts@[k].commit < history@.len(),
        computable(history@, f@, now),
    ensures
        churn_view(r) == entry_spec(history@, f@, touch_views(ts@), now),
{
    let ghost tv = touch_views(ts@);
    let ghost a = authors_of(history@, tv);
    let counts = author_tally(history, ts);
    let asc = sorted_u32(&counts);
    proof {
        broadcast use vstd::seq_lib::group_to_multiset_ensures;
        crate::style::lemma_u32_leq_total();
        counts@.lemma_sort_by_ensures(u32_leq());
        vstd::seq_lib::to_multiset_len(counts@);
        vstd::seq_lib::to_multiset_len(asc@);
        lemma_distinct_facts(a);
        assert(a[0] == history@[tv[0].commit].author_email@);
        assert(a.contains(a[0]));
        assert(distinct(a).contains(a[0]));
        assert(asc@.len() == counts@.len());
        assert forall|k: int| 0 <= k < ts@.len() implies i64::MIN <= (now as i64) - (history@[#[trigger] ts@[k].commit as int].committed_ms as i64) <= i64::MAX by {
            assert(tv[k].commit == ts@[k].commit as int);
        }
    }
    let total: u64 = ts.len() as u64;
    let bus = cover_exec(&asc, total);
    let top = asc[asc.len() - 1];
    let fit = fit_sums(history, ts, now);
    let (n, sx, sxx, sy, sxy) = fit;
    let ghost bsz = n as int;
    let (num, den): (i128, i128) = if n < 2 {
        (0, 1)
    } else {
        let nn = n as i128;
        proof {
            let b = bucket_bound();
            assert(b == 0x1_0000_0000);
            assert(-0x4000_0000_0000_0000_0000_0000_0000_0000 < nn * sxy < 0x4000_0000_0000_0000_0000_0000_0000_0000) by (nonlinear_arith)
                requires
                    2 <= nn <= 0x3fff_ffff,
                    -(b * sy) <= sxy <= b * sy,
                    0 <= sy <= 0xffff_ffff_ffff_ffff,
                    b == 0x1_0000_0000,
            ;
            assert(-0x4000_0000_0000_0000_0000_0000_0000_0000 < sx * (sy as int) < 0x4000_0000_0000_0000_0000_0000_0000_0000) by (nonlinear_arith)
                requires
                    2 <= nn <= 0x3fff_ffff,
                    -(nn * b) <= sx <= nn * b,
                    0 <= sy <= 0xffff_ffff_ffff_ffff,
                    b == 0x1_0000_0000,
            ;
            assert(0 <= nn * sxx < 0x4000_0000_0000_0000_0000_0000_0000_0000) by (nonlinear_arith)
                requires
                    2 <= nn <= 0x3fff_ffff,
                    0 <= sxx <= nn * (b * b),
                    b == 0x1_0000_0000,
            ;
            assert(0 <= sx * sx < 0x4000_0000_0000_0000_0000_0000_0000_0000) by (nonlinear_arith)
                requires
                    2 <= nn <= 0x3fff_ffff,
                    -(nn * b) <= sx <= nn * b,
                    b == 0x1_0000_0000,
            ;
        }
        let num = nn * sxy - sx * (sy as i128);
        let den = nn * sxx - sx * sx;
        if den <= 0 {
            (0, 1)
        } else {
            (num, den)
        }
    };
    let trend = if num > 0 && num > den - num {
        string_of(&chars_of("increasing"))
    } else if num < 0 && -num > den + num {
        string_of(&chars_of("decreasing"))
    } else {
        string_of(&chars_of("stable"))
    };
    let path = string_of(&bound(&chars_of(f), MAX_PATH));
    let ghost sp = entry_spec(history@, f@, tv, now);
    assert(path@ == sp.path);
    assert(bus as int == sp.bus_factor);
    assert(counts@.len() == sp.unique_authors);
    assert(top == asc@.last());
    assert((num as int, den as int) == sp.churn_slope);
    assert(trend@ == sp.churn_trend);
    assert(sy as int == sp.total_churn);
    let r = FileChurn {
        path,
        commits: ts.len() as u32,
        unique_authors: counts.len() as u32,
        bus_factor: bus as u32,
        top_author_share: Ratio { num: top as u64, den: total },
        churn_trend: trend,
        churn_slope: Slope { num, den },
        total_churn: sy,
    };
    assert(churn_view(r).commits == sp.commits);
    assert(churn_view(r).unique_authors == sp.unique_authors);
    assert(churn_view(r).bus_factor == sp.bus_factor);
    assert(churn_view(r).top_author_share == sp.top_author_share);
    assert(churn_view(r).churn_slope == sp.churn_slope);
    r
}

proof fn lemma_entries_prefix(h: Seq<CommitTouch>, cs: Seq<Seq<char>>, i: int, now: u64)
    requires
        0 <= i <= cs.len(),
    ensures
        entries(h, cs.take(i), now).len() <= entries(h, cs, now).len(),
        entries(h, cs, now).take(entries(h, cs.take(i), now).len() as int) == entries(h, cs.take(i), now),
    decreases cs.len() - i,
{
    if i == cs.len() {
        assert(cs.take(i) =~= cs);
        assert(entries(h, cs, now).take(entries(h, cs, now).len() as int) =~= entries(h, cs, now));
    } else {
        lemma_entries_prefix(h, cs.drop_last(), i, now);
        assert(cs.drop_last().take(i) =~= cs.take(i));
        let e = entries(h, cs.drop_last(), now);
        let p = entries(h, cs.take(i), now);
        assert(e.take(p.len() as int) == p);
        if touches_of(h, cs.last()).len() > 0 {
            assert(entries(h, cs, now).take(p.len() as int) =~= e.take(p.len() as int));
        }
    }
}

proof fn lemma_entries_step(h: Seq<CommitTouch>, cs: Seq<Seq<char>>, i: int, now: u64)
    requires
        0 <= i < cs.len(),
    ensures
        entries(h, cs.take(i + 1), now) == (if touches_of(h, cs[i]).len() == 0 {
            entries(h, cs.take(i), now)
        } else {
            entries(h, cs.take(i), now).push(entry_spec(h, cs[i], touches_of(h, cs[i]), now))
        }),
{
    assert(cs.take(i + 1).drop_last() =~= cs.take(i));
    assert(cs.take(i + 1).last() == cs[i]);
}

/// The churn facts of a change: for each changed file (in order) that prior
/// `history` touches, its ownership and churn entry, for at most
/// [`MAX_FILES`] files; `now_ms` dates the buckets.
pub fn compute(changed: &[String], history: &[CommitTouch], now_ms: u64) -> (r: ChurnReport)
    requires
        history_touches(history@) <= MAX_TOUCHES,
        forall|i: int|
            0 <= i < changed@.len() && entries(history@, crate::gochecks::strings_view(changed@).take(i), now_ms).len()
                < MAX_FILES ==> computable(history@, #[trigger] changed@[i]@, now_ms),
    ensures
        r.commits_scanned == history@.len() as u32,
        ({
            let all = entries(history@, crate::gochecks::strings_view(changed@), now_ms);
            churns_view(r.files@) == if all.len() <= MAX_FILES {
                all
            } else {
                all.take(MAX_FILES as int)
            }
        }),
{
    let ghost cs = crate::gochecks::strings_view(changed@);
    let mut files: Vec<FileChurn> = Vec::new();
    let mut i: usize = 0;
    while i < changed.len() && files.len() < MAX_FILES
        invariant
            i <= changed@.len(),
            cs == crate::gochecks::strings_view(changed@),
            history_touches(history@) <= MAX_TOUCHES,
            forall|q: int|
                0 <= q < changed@.len() && entries(history@, cs.take(q), now_ms).len() < MAX_FILES
                    ==> computable(history@, #[trigger] changed@[q]@, now_ms),
            files@.len() <= MAX_FILES,
            churns_view(files@) == entries(history@, cs.take(i as int), now_ms),
        decreases changed.len() - i,
    {
        let f = changed[i].as_str();
        let ts = touches_exec(history, f);
        proof {
            lemma_touches_len(history@, f@);
            assert(cs[i as int] == f@);
            assert(computable(history@, changed@[i as int]@, now_ms));
            lemma_entries_step(history@, cs, i as int, now_ms);
        }
        if ts.len() > 0 {
            let e = file_entry(history, f, &ts, now_ms);
            let ghost before = churns_view(files@);
            files.push(e);
            assert(churns_view(files@) =~= before.push(churn_view(e)));
        }
        i += 1;
    }
    proof {
        let all = entries(history@, cs, now_ms);
        lemma_entries_prefix(history@, cs, i as int, now_ms);
        if i == changed@.len() {
            assert(cs.take(i as int) =~= cs);
        }
    }
    ChurnReport { commits_scanned: history.len() as u32, files }
}

} // verus!
