use agent_kit::churn::{compute, CommitTouch, FileTouch, Slope, MAX_FILES};
use agent_kit::style::Ratio;

const DAY: u64 = 86_400_000;

fn commit(author: &str, committed_ms: u64, files: &[(&str, u64, u64)]) -> CommitTouch {
    CommitTouch {
        author_email: author.to_string(),
        committed_ms,
        files: files
            .iter()
            .map(|(p, a, d)| FileTouch {
                path: p.to_string(),
                confined: !p.starts_with(".."),
                added: *a,
                deleted: *d,
            })
            .collect(),
    }
}

fn changed(paths: &[&str]) -> Vec<String> {
    paths.iter().map(|p| p.to_string()).collect()
}

#[test]
fn positive_single_owner_bus_factor_one() {
    let now = 100 * DAY;
    let mut history: Vec<CommitTouch> =
        (0..9).map(|i| commit("alice", now - i * DAY, &[("f.rs", 5, 0)])).collect();
    history.push(commit("bob", now - 9 * DAY, &[("f.rs", 5, 0)]));
    let r = compute(&changed(&["f.rs"]), &history, now);
    let f = &r.files[0];
    assert_eq!(f.commits, 10);
    assert_eq!(f.unique_authors, 2);
    assert_eq!(f.bus_factor, 1, "alice alone covers 90% > 80%");
    assert_eq!(f.top_author_share, Ratio { num: 9, den: 10 });
}

#[test]
fn positive_shared_ownership_higher_bus_factor() {
    let now = 100 * DAY;
    let history = vec![
        commit("a", now, &[("f.rs", 1, 0)]),
        commit("b", now, &[("f.rs", 1, 0)]),
        commit("c", now, &[("f.rs", 1, 0)]),
        commit("d", now, &[("f.rs", 1, 0)]),
    ];
    let r = compute(&changed(&["f.rs"]), &history, now);
    assert_eq!(r.files[0].bus_factor, 4);
}

#[test]
fn positive_churn_trend_increasing_and_decreasing() {
    let now = 200 * DAY;
    let history = vec![
        commit("a", now, &[("f.rs", 100, 100)]),
        commit("a", now - 150 * DAY, &[("f.rs", 1, 0)]),
    ];
    let r = compute(&changed(&["f.rs"]), &history, now);
    assert_eq!(r.files[0].churn_trend, "decreasing");
    let s = r.files[0].churn_slope;
    // slope < -0.5, as an exact fraction with a positive denominator
    assert!(s.den > 0 && 2 * s.num < -s.den);
}

#[test]
fn boundary_single_bucket_is_stable() {
    let now = 10 * DAY;
    let history = vec![
        commit("a", now, &[("f.rs", 9, 9)]),
        commit("a", now - DAY, &[("f.rs", 3, 3)]),
    ];
    let r = compute(&changed(&["f.rs"]), &history, now);
    assert_eq!(r.files[0].churn_trend, "stable");
    assert_eq!(r.files[0].churn_slope, Slope { num: 0, den: 1 });
    assert_eq!(r.files[0].total_churn, 24);
}

#[test]
fn corner_no_history_for_file_no_entry() {
    let now = 10 * DAY;
    let history = vec![commit("a", now, &[("other.rs", 1, 1)])];
    let r = compute(&changed(&["f.rs"]), &history, now);
    assert!(r.files.is_empty());
}

#[test]
fn adversarial_escaping_path_dropped_and_no_author_leak() {
    let now = 10 * DAY;
    let history = vec![
        commit("'; DROP TABLE authors; --", now, &[("../../etc/passwd", 9, 9)]),
        commit("a", now, &[("../../etc/passwd", 1, 1)]),
    ];
    let r = compute(&changed(&["../../etc/passwd"]), &history, now);
    assert!(r.files.is_empty(), "escaping changed path must be dropped");
    let history2 = vec![commit("'; DROP TABLE --", now, &[("f.rs", 1, 1)])];
    let r2 = compute(&changed(&["f.rs"]), &history2, now);
    assert_eq!(r2.files[0].unique_authors, 1);
}

#[test]
fn churn_exact_slope_of_two_buckets() {
    // buckets 0 (churn 200) and 5 (churn 1): n = 2, Σx = 5, Σx² = 25, Σy = 201, Σxy = 5
    let now = 200 * DAY;
    let history = vec![
        commit("a", now, &[("f.rs", 100, 100)]),
        commit("b", now - 150 * DAY, &[("f.rs", 1, 0)]),
    ];
    let r = compute(&changed(&["f.rs"]), &history, now);
    assert_eq!(r.files[0].churn_slope, Slope { num: 2 * 5 - 5 * 201, den: 2 * 25 - 25 });
    assert_eq!(r.files[0].total_churn, 201);
    assert_eq!(r.commits_scanned, 2);
}

#[test]
fn churn_rising_recent_activity_is_increasing_over_bucket_index() {
    // more churn in the older bucket: positive slope over bucket index
    let now = 100 * DAY;
    let history = vec![
        commit("a", now, &[("f.rs", 1, 0)]),
        commit("a", now - 40 * DAY, &[("f.rs", 50, 50)]),
    ];
    let r = compute(&changed(&["f.rs"]), &history, now);
    assert_eq!(r.files[0].churn_trend, "increasing");
    assert_eq!(r.files[0].churn_slope, Slope { num: 2 * 100 - 1 * 101, den: 2 * 1 - 1 });
}

#[test]
fn churn_bus_factor_exactly_at_eighty_percent() {
    // counts 4 and 1 of 5: the top author covers exactly 80%
    let now = 10 * DAY;
    let mut history: Vec<CommitTouch> = (0..4).map(|_| commit("a", now, &[("f.rs", 1, 0)])).collect();
    history.push(commit("b", now, &[("f.rs", 1, 0)]));
    let r = compute(&changed(&["f.rs"]), &history, now);
    assert_eq!(r.files[0].bus_factor, 1);
    // counts 3, 1, 1 of 5: 60% then 80%
    let history = vec![
        commit("a", now, &[("f.rs", 1, 0)]),
        commit("a", now, &[("f.rs", 1, 0)]),
        commit("a", now, &[("f.rs", 1, 0)]),
        commit("b", now, &[("f.rs", 1, 0)]),
        commit("c", now, &[("f.rs", 1, 0)]),
    ];
    let r = compute(&changed(&["f.rs"]), &history, now);
    assert_eq!(r.files[0].bus_factor, 2);
    assert_eq!(r.files[0].unique_authors, 3);
}

#[test]
fn churn_entries_follow_change_order_and_cap() {
    let now = 10 * DAY;
    let names: Vec<String> = (0..(MAX_FILES + 5)).map(|i| format!("f{i}.rs")).collect();
    let files: Vec<(&str, u64, u64)> = names.iter().map(|n| (n.as_str(), 1, 0)).collect();
    let history = vec![commit("a", now, &files)];
    let mut order: Vec<String> = vec!["untouched.rs".to_string()];
    order.extend(names.iter().cloned());
    let r = compute(&order, &history, now);
    assert_eq!(r.files.len(), MAX_FILES);
    assert_eq!(r.files[0].path, "f0.rs");
    assert_eq!(r.files[MAX_FILES - 1].path, format!("f{}.rs", MAX_FILES - 1));
}

#[test]
fn churn_saturating_lines_and_long_path_bounded() {
    let now = 10 * DAY;
    let long = "p".repeat(300);
    let history = vec![commit("a", now, &[(long.as_str(), u64::MAX, 5)])];
    let r = compute(&changed(&[long.as_str()]), &history, now);
    assert_eq!(r.files[0].total_churn, u64::MAX);
    assert_eq!(r.files[0].path.chars().count(), 200 + "… [truncated]".chars().count());
    assert!(r.files[0].path.ends_with("… [truncated]"));
}
