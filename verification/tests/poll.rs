use agent_kit::poll::{after_page, poll_cap, OpenPr, PollReport, MAX_POLL_PAGES, MAX_TRIGGERS_PER_TICK};

type Page = (Vec<OpenPr>, Option<u32>);

fn pr(number: u64, draft: bool) -> OpenPr {
    OpenPr { number, draft }
}

/// Drives the poll over scripted pages (a page past the script is an empty
/// final page), collecting the triggered PR numbers.
fn drive(pages: &[Page], max_triggers: usize) -> (PollReport, Vec<u64>) {
    let cap = poll_cap(max_triggers);
    let mut report = PollReport::new();
    let mut emitted = Vec::new();
    let mut page = Some(1u32);
    while let Some(p) = page {
        let (items, next) = pages.get(p as usize - 1).cloned().unwrap_or((vec![], None));
        let step = after_page(&report, cap, p, &items, next);
        emitted.extend(step.emit);
        report = step.report;
        page = step.next;
    }
    (report, emitted)
}

fn always_more_pages(n: u32) -> Vec<Page> {
    (1..=n).map(|i| (vec![pr(i as u64, false)], Some(i + 1))).collect()
}

#[test]
fn poll_emits_trigger_for_nondraft_pr() {
    let (r, e) = drive(&[(vec![pr(1, false), pr(2, false)], None)], MAX_TRIGGERS_PER_TICK);
    assert_eq!(e, vec![1, 2]);
    assert_eq!((r.pages, r.capped, r.emitted, r.scanned), (1, false, 2, 2));
}

#[test]
fn poll_draft_pr_is_filtered_out() {
    let (r, e) = drive(&[(vec![pr(1, false), pr(2, true), pr(3, false)], None)], MAX_TRIGGERS_PER_TICK);
    assert_eq!(e, vec![1, 3]);
    assert_eq!((r.pages, r.capped, r.scanned), (1, false, 3));
}

#[test]
fn poll_multi_page_follows_next_page() {
    let (r, e) = drive(&[(vec![pr(1, false)], Some(2)), (vec![pr(2, false)], None)], MAX_TRIGGERS_PER_TICK);
    assert_eq!(e, vec![1, 2]);
    assert_eq!((r.pages, r.capped), (2, false));
}

#[test]
fn poll_empty_pr_list_emits_nothing() {
    let (r, e) = drive(&[(vec![], None)], MAX_TRIGGERS_PER_TICK);
    assert!(e.is_empty());
    assert_eq!((r.pages, r.capped, r.scanned), (1, false, 0));
}

#[test]
fn poll_pr_number_max_u64_carried_verbatim() {
    let (_, e) = drive(&[(vec![pr(u64::MAX, false)], None)], MAX_TRIGGERS_PER_TICK);
    assert_eq!(e, vec![u64::MAX]);
}

#[test]
fn poll_all_draft_emits_nothing() {
    let (r, e) = drive(&[(vec![pr(1, true), pr(2, true)], None)], MAX_TRIGGERS_PER_TICK);
    assert!(e.is_empty());
    assert_eq!((r.scanned, r.emitted), (2, 0));
}

#[test]
fn poll_next_page_self_loop_stops() {
    let (r, e) = drive(&[(vec![pr(1, false)], Some(1))], MAX_TRIGGERS_PER_TICK);
    assert_eq!(e, vec![1]);
    assert_eq!(r.pages, 1);
}

#[test]
fn poll_hostile_page_count_clamped() {
    let (r, e) = drive(&always_more_pages(MAX_POLL_PAGES + 2), MAX_TRIGGERS_PER_TICK);
    assert_eq!(e, vec![1, 2, 3, 4, 5, 6, 7, 8, 9, 10]);
    assert_eq!((r.pages, r.capped), (MAX_POLL_PAGES, false));
}

#[test]
fn poll_pr_flood_capped_per_tick() {
    let flood: Vec<OpenPr> = (1..=100).map(|i| pr(i, false)).collect();
    let (r, e) = drive(&[(flood, None)], MAX_TRIGGERS_PER_TICK);
    assert_eq!(e, (1..=MAX_TRIGGERS_PER_TICK as u64).collect::<Vec<u64>>());
    assert_eq!((r.pages, r.capped, r.emitted), (1, true, MAX_TRIGGERS_PER_TICK));
    // the walk stops at the first PR past the cap
    assert_eq!(r.scanned, MAX_TRIGGERS_PER_TICK + 1);
}

#[test]
fn poll_cap_never_exceeds_tick_limit() {
    assert_eq!(poll_cap(3), 3);
    assert_eq!(poll_cap(1000), MAX_TRIGGERS_PER_TICK);
    let (r, e) = drive(&[(vec![pr(1, false), pr(2, true), pr(3, false), pr(4, false)], Some(2))], 2);
    assert_eq!(e, vec![1, 3]);
    assert!(r.capped);
    assert_eq!(r.pages, 1, "a capped page ends the poll");
}
