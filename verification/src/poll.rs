//! The forge poll's decisions: which open PRs of a fetched page become review
//! triggers, and whether to fetch another page.
//!
//! The forge response is untrusted: drafts are skipped, at most a per-tick cap
//! of triggers leave one poll, `next_page` is followed only when it strictly
//! advances, and never more than [`MAX_POLL_PAGES`] pages are fetched. The
//! caller fetches each page and hands out the triggers; every decision about
//! them is [`after_page`].
use vstd::prelude::*;

verus! {

/// Hard cap on PR-list pages fetched in one poll tick.
pub const MAX_POLL_PAGES: u32 = 10;
/// Hard cap on triggers emitted from one poll tick.
pub const MAX_TRIGGERS_PER_TICK: usize = 64;

/// What one poll pass observed and did.
#[derive(Debug, Clone, Copy, PartialEq, Eq, Structural)]
pub struct PollReport {
    /// PRs examined across every fetched page.
    pub scanned: usize,
    /// Non-draft PRs whose trigger was handed out.
    pub emitted: usize,
    /// Pages fetched.
    pub pages: u32,
    /// The per-tick trigger cap was hit.
    pub capped: bool,
}

/// A PR of a fetched page: its number and whether it is a draft.
#[derive(Debug, Clone, Copy, PartialEq, Eq, Structural)]
pub struct OpenPr {
    pub number: u64,
    pub draft: bool,
}

/// The decision after one fetched page: the report so far, the PR numbers to
/// trigger (in page order), and the next page to fetch, if any.
pub struct PageStep {
    pub report: PollReport,
    pub emit: Vec<u64>,
    pub next: Option<u32>,
}

impl PollReport {
    /// Nothing scanned, emitted or fetched yet.
    pub fn new() -> (r: PollReport)
        ensures
            r == (PollReport { scanned: 0, emitted: 0, pages: 0, capped: false }),
    {
        PollReport { scanned: 0, emitted: 0, pages: 0, capped: false }
    }
}

/// The per-tick trigger cap: the caller's limit, never above
/// [`MAX_TRIGGERS_PER_TICK`].
pub fn poll_cap(max_triggers: usize) -> (c: usize)
    ensures
        c == if max_triggers < MAX_TRIGGERS_PER_TICK { max_triggers } else { MAX_TRIGGERS_PER_TICK },
{
    if max_triggers < MAX_TRIGGERS_PER_TICK {
        max_triggers
    } else {
        MAX_TRIGGERS_PER_TICK
    }
}

/// Walking a page's PRs with `emitted` triggers already out of `cap`: how many
/// PRs are scanned, the numbers triggered, and whether the cap was hit (the
/// walk stops at the first non-draft PR past the cap).
pub open spec fn page_walk(items: Seq<OpenPr>, emitted: int, cap: int) -> (int, Seq<u64>, bool)
    decreases items.len(),
{
    if items.len() == 0 {
        (0, Seq::empty(), false)
    } else {
        let pr = items[0];
        if pr.draft {
            let r = page_walk(items.drop_first(), emitted, cap);
            (r.0 + 1, r.1, r.2)
        } else if emitted >= cap {
            (1, Seq::empty(), true)
        } else {
            let r = page_walk(items.drop_first(), emitted + 1, cap);
            (r.0 + 1, seq![pr.number] + r.1, r.2)
        }
    }
}

/// The page to fetch after page `page`: none once the cap was hit, the page
/// budget is spent, or the forge's `next_page` does not strictly advance.
pub open spec fn next_page_spec(capped: bool, pages: int, page: u32, next_page: Option<u32>) -> Option<u32> {
    if capped || pages >= MAX_POLL_PAGES {
        None
    } else {
        match next_page {
            Some(n) => if n > page {
                Some(n)
            } else {
                None
            },
            None => None,
        }
    }
}

proof fn lemma_walk_bounds(items: Seq<OpenPr>, emitted: int, cap: int)
    ensures
        0 <= page_walk(items, emitted, cap).0 <= items.len(),
        page_walk(items, emitted, cap).1.len() <= if cap - emitted > 0 { cap - emitted } else { 0 },
        page_walk(items, emitted, cap).2 ==> page_walk(items, emitted, cap).1.len() + emitted >= cap,
        forall|i: int|
            0 <= i < page_walk(items, emitted, cap).1.len() ==> exists|j: int|
                0 <= j < items.len() && !items[j].draft && #[trigger] page_walk(items, emitted, cap).1[i]
                    == items[j].number,
    decreases items.len(),
{
    if items.len() > 0 {
        let rest = items.drop_first();
        if items[0].draft {
            lemma_walk_bounds(rest, emitted, cap);
            let r = page_walk(rest, emitted, cap);
            assert forall|i: int| 0 <= i < r.1.len() implies exists|j: int|
                0 <= j < items.len() && !items[j].draft && #[trigger] r.1[i] == items[j].number by {
                let j = choose|j: int| 0 <= j < rest.len() && !rest[j].draft && r.1[i] == rest[j].number;
                assert(items[j + 1] == rest[j]);
            }
        } else if emitted < cap {
            lemma_walk_bounds(rest, emitted + 1, cap);
            let r = page_walk(rest, emitted + 1, cap);
            let out = seq![items[0].number] + r.1;
            assert forall|i: int| 0 <= i < out.len() implies exists|j: int|
                0 <= j < items.len() && !items[j].draft && #[trigger] out[i] == items[j].number by {
                if i == 0 {
                    assert(out[0] == items[0].number);
                } else {
                    assert(out[i] == r.1[i - 1]);
                    let j = choose|j: int| 0 <= j < rest.len() && !rest[j].draft && r.1[i - 1] == rest[j].number;
                    assert(items[j + 1] == rest[j]);
                }
            }
        }
    }
}

/// One fetched page (`page`, holding `items` and the forge's `next_page`)
/// folded into the report: every PR up to the stop is scanned, each non-draft
/// one is triggered until `cap` triggers are out (the first non-draft PR past
/// the cap marks the report capped and ends the poll), and the next page is
/// the forge's `next_page` only when it strictly advances and the page budget
/// is not spent.
pub fn after_page(report: &PollReport, cap: usize, page: u32, items: &[OpenPr], next_page: Option<u32>) -> (r: PageStep)
    requires
        report.pages < u32::MAX,
        report.scanned + items@.len() <= usize::MAX,
    ensures
        ({
            let w = page_walk(items@, report.emitted as int, cap as int);
            &&& r.report.scanned == report.scanned + w.0
            &&& r.emit@ == w.1
            &&& r.report.emitted == report.emitted + w.1.len()
            &&& r.report.pages == report.pages + 1
            &&& r.report.capped == (report.capped || w.2)
            &&& r.next == next_page_spec(w.2, report.pages + 1, page, next_page)
        }),
{
    let mut scanned = report.scanned;
    let mut emitted = report.emitted;
    let mut emit: Vec<u64> = Vec::new();
    let mut hit = false;
    let mut i: usize = 0;
    proof {
        assert(items@.subrange(0, items@.len() as int) =~= items@);
        let w = page_walk(items@, report.emitted as int, cap as int);
        assert(Seq::<u64>::empty() + w.1 =~= w.1);
    }
    loop
        invariant_except_break
            !hit,
            scanned == report.scanned + i,
            ({
                let w = page_walk(items@, report.emitted as int, cap as int);
                let v = page_walk(items@.subrange(i as int, items@.len() as int), emitted as int, cap as int);
                &&& w.0 == i + v.0
                &&& w.1 == emit@ + v.1
                &&& w.2 == v.2
            }),
        invariant
            i <= items@.len(),
            report.scanned + items@.len() <= usize::MAX,
            emitted == report.emitted + emit@.len(),
        ensures
            ({
                let w = page_walk(items@, report.emitted as int, cap as int);
                &&& scanned == report.scanned + w.0
                &&& emit@ == w.1
                &&& emitted == report.emitted + w.1.len()
                &&& hit == w.2
            }),
        decreases items.len() - i,
    {
        if i >= items.len() {
            proof {
                assert(items@.subrange(i as int, items@.len() as int) =~= Seq::<OpenPr>::empty());
                assert(emit@ + Seq::<u64>::empty() =~= emit@);
            }
            break;
        }
        let ghost rest = items@.subrange(i as int, items@.len() as int);
        assert(rest.drop_first() =~= items@.subrange(i + 1, items@.len() as int));
        assert(rest[0] == items@[i as int]);
        let pr = items[i];
        scanned = scanned + 1;
        if pr.draft {
            i += 1;
        } else if emitted >= cap {
            hit = true;
            break;
        } else {
            let ghost e0 = emit@;
            emit.push(pr.number);
            emitted = emitted + 1;
            proof {
                let v1 = page_walk(items@.subrange(i + 1, items@.len() as int), emitted as int, cap as int);
                assert(emit@ + v1.1 =~= e0 + (seq![pr.number] + v1.1));
            }
            i += 1;
        }
    }
    let next = if hit || report.pages + 1 >= MAX_POLL_PAGES {
        None
    } else {
        match next_page {
            Some(n) => if n > page {
                Some(n)
            } else {
                None
            },
            None => None,
        }
    };
    PageStep {
        report: PollReport { scanned, emitted, pages: report.pages + 1, capped: report.capped || hit },
        emit,
        next,
    }
}

/// The poll's bounds: a page hands out at most the triggers left under the
/// cap, each for a non-draft PR of that page; and another page is fetched
/// only below the page budget and only for a strictly later page.
pub proof fn law_poll_bounded(report: PollReport, cap: int, page: u32, items: Seq<OpenPr>, next_page: Option<u32>)
    ensures
        ({
            let w = page_walk(items, report.emitted as int, cap);
            let next = next_page_spec(w.2, report.pages + 1, page, next_page);
            &&& report.emitted <= cap ==> report.emitted + w.1.len() <= cap
            &&& forall|i: int|
                0 <= i < w.1.len() ==> exists|j: int|
                    0 <= j < items.len() && !items[j].draft && #[trigger] w.1[i] == items[j].number
            &&& (next matches Some(n) ==> n > page && report.pages + 1 < MAX_POLL_PAGES && !w.2)
        }),
{
    lemma_walk_bounds(items, report.emitted as int, cap);
}

} // verus!
