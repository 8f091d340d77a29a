use agent_kit::cochange::{changed_order, compute, ChangedPath, Touch, MAX_PARTNERS};
use agent_kit::style::Ratio;

/// A commit touching `files`; a path counts as inside the repository unless it
/// is absolute or climbs out with `..` (what the caller's confinement check
/// reports for these inputs).
fn commit(files: &[&str]) -> Vec<Touch> {
    files
        .iter()
        .map(|p| Touch {
            path: (*p).to_string(),
            confined: !p.starts_with('/') && !p.split('/').any(|s| s == ".."),
        })
        .collect()
}

fn changed(paths: &[&str]) -> Vec<String> {
    paths.iter().map(|s| (*s).to_string()).collect()
}

#[test]
fn positive_surfaces_missing_partner() {
    let order = changed(&["handler.rs"]);
    // handler.rs in 4 commits, schema.rs in 4 commits, co-occurring in 3 →
    // confidence 3/min(4,4) = 0.75.
    let history = vec![
        commit(&["handler.rs", "schema.rs"]),
        commit(&["handler.rs", "schema.rs"]),
        commit(&["handler.rs", "schema.rs"]),
        commit(&["handler.rs"]),
        commit(&["schema.rs", "unrelated.rs"]),
    ];
    let r = compute(&order, &history, 2000);
    assert_eq!(r.entries.len(), 1);
    let p = &r.entries[0].partners[0];
    assert_eq!(p.path, "schema.rs");
    assert!(!p.in_diff, "schema.rs is not in the diff");
    assert_eq!(p.co_occurrences, 3);
    assert_eq!(p.confidence, Ratio { num: 3, den: 4 });
    assert_eq!(r.missing_partners, 1);
}

#[test]
fn positive_partner_in_diff_not_missing() {
    let order = changed(&["a.rs", "b.rs"]);
    let history = vec![commit(&["a.rs", "b.rs"]); 5];
    let r = compute(&order, &history, 2000);
    assert!(r.missing_partners == 0, "both partners are in the diff");
    assert!(r.entries.iter().flat_map(|e| &e.partners).all(|p| p.in_diff));
}

#[test]
fn boundary_below_min_cooccur_dropped() {
    let order = changed(&["x.rs"]);
    let history = vec![commit(&["x.rs", "y.rs"]), commit(&["x.rs", "y.rs"])];
    let r = compute(&order, &history, 2000);
    assert!(r.entries.is_empty(), "2 co-occurrences is under the floor");
}

#[test]
fn boundary_below_min_confidence_dropped() {
    let order = changed(&["x.rs"]);
    // x.rs in 20 commits and y.rs in 20 commits, co-occurring in only 4 →
    // 4/min(20,20) = 0.2 < 0.3.
    let mut history = vec![commit(&["x.rs", "y.rs"]); 4];
    history.extend(vec![commit(&["x.rs"]); 16]);
    history.extend(vec![commit(&["y.rs"]); 16]);
    let r = compute(&order, &history, 2000);
    assert!(r.entries.is_empty(), "confidence 0.2 is under the floor");
}

#[test]
fn corner_unchanged_files_get_no_entry() {
    let order = changed(&["a.rs"]);
    let history = vec![commit(&["b.rs", "c.rs"]); 5];
    let r = compute(&order, &history, 2000);
    assert!(r.entries.is_empty());
}

#[test]
fn adversarial_escaping_partner_path_dropped() {
    let order = changed(&["real.rs"]);
    let history = vec![
        commit(&["real.rs", "../../../etc/passwd"]),
        commit(&["real.rs", "/etc/shadow"]),
        commit(&["real.rs", "../../secret"]),
    ];
    let r = compute(&order, &history, 2000);
    for p in r.entries.iter().flat_map(|e| &e.partners) {
        assert!(
            !p.path.contains("passwd") && !p.path.contains("shadow") && !p.path.contains("secret"),
            "escaping path leaked: {}",
            p.path
        );
    }
}

#[test]
fn adversarial_hostile_paths_bounded_and_capped() {
    let order = changed(&["hot.rs"]);
    let mut history = Vec::new();
    // 30 distinct partners each co-occurring 3× with hot.rs.
    for _ in 0..3 {
        let mut files = vec!["hot.rs".to_string()];
        for i in 0..30 {
            files.push(format!("p{i}.rs"));
        }
        let refs: Vec<&str> = files.iter().map(String::as_str).collect();
        history.push(commit(&refs));
    }
    let giant = "z".repeat(100_000);
    for _ in 0..3 {
        history.push(commit(&["hot.rs", &giant]));
    }
    let r = compute(&order, &history, 2000);
    assert_eq!(r.entries.len(), 1);
    assert!(
        r.entries[0].partners.len() <= MAX_PARTNERS,
        "partners not capped: {}",
        r.entries[0].partners.len()
    );
    for p in &r.entries[0].partners {
        assert!(
            p.path.chars().count() <= 220,
            "partner path not bounded: {} chars",
            p.path.chars().count()
        );
    }
}

#[test]
fn corner_truncated_flag_tracks_window() {
    let order = changed(&["a.rs"]);
    let history = vec![commit(&["a.rs", "b.rs"]); 5];
    let hit = compute(&order, &history, 5);
    assert!(hit.truncated, "5 commits == window 5");
    let room = compute(&order, &history, 2000);
    assert!(!room.truncated);
    assert_eq!(room.commits_scanned, 5);
}

#[test]
fn partners_ranked_by_confidence_then_count_then_path() {
    let order = changed(&["f.rs"]);
    let mut history = Vec::new();
    // f.rs with a.rs and b.rs in 4 commits each; c.rs in 3 of them.
    for _ in 0..3 {
        history.push(commit(&["f.rs", "b.rs", "a.rs", "c.rs"]));
    }
    history.push(commit(&["f.rs", "b.rs", "a.rs"]));
    // d.rs: 3 shared commits out of its 6 → confidence 3/4 (f has 4).
    history.extend(vec![commit(&["d.rs"]); 3]);
    for c in history.iter_mut().take(3) {
        c.push(Touch { path: "d.rs".to_string(), confined: true });
    }
    let r = compute(&order, &history, 2000);
    let paths: Vec<&str> = r.entries[0].partners.iter().map(|p| p.path.as_str()).collect();
    // a and b: 4/4; c: 3/3 (confidence 1, fewer commits); d: 3/4.
    assert_eq!(paths, vec!["a.rs", "b.rs", "c.rs", "d.rs"]);
    assert_eq!(r.entries[0].partners[2].confidence, Ratio { num: 3, den: 3 });
    assert_eq!(r.entries[0].partners[3].confidence, Ratio { num: 3, den: 4 });
    assert_eq!(r.missing_partners, 4);
}

#[test]
fn confidence_exactly_three_tenths_is_kept() {
    let order = changed(&["x.rs"]);
    // 3 shared out of min(10, 10).
    let mut history = vec![commit(&["x.rs", "y.rs"]); 3];
    history.extend(vec![commit(&["x.rs"]); 7]);
    history.extend(vec![commit(&["y.rs"]); 7]);
    let r = compute(&order, &history, 2000);
    assert_eq!(r.entries.len(), 1);
    assert_eq!(r.entries[0].partners[0].confidence, Ratio { num: 3, den: 10 });
}

#[test]
fn duplicate_touch_in_one_commit_counts_once() {
    let order = changed(&["x.rs"]);
    let history = vec![commit(&["x.rs", "y.rs", "y.rs", "x.rs"]); 3];
    let r = compute(&order, &history, 2000);
    assert_eq!(r.entries[0].partners[0].co_occurrences, 3);
    assert_eq!(r.entries[0].partners[0].confidence, Ratio { num: 3, den: 3 });
}

#[test]
fn entries_capped_at_forty() {
    let names: Vec<String> = (0..45).map(|i| format!("f{i}.rs")).collect();
    let order: Vec<String> = names.clone();
    let history: Vec<Vec<Touch>> = (0..3)
        .map(|_| names.iter().map(|n| Touch { path: n.clone(), confined: true }).collect())
        .collect();
    let r = compute(&order, &history, 2000);
    assert_eq!(r.entries.len(), 40);
    assert_eq!(r.entries[39].path, "f39.rs");
    assert_eq!(r.missing_partners, 0);
}

#[test]
fn changed_order_skips_noise_and_escapes_and_dedupes() {
    let e = |p: Option<&str>, noisy: bool, confined: bool| ChangedPath { path: p.map(|s| s.to_string()), noisy, confined };
    let order = changed_order(&[
        e(Some("src/b.rs"), false, true),
        e(Some("Cargo.lock"), true, true),
        e(Some("../../etc/passwd"), false, false),
        e(None, false, true),
        e(Some("src/a.rs"), false, true),
        e(Some("src/b.rs"), false, true),
    ]);
    assert_eq!(order, vec!["src/b.rs".to_string(), "src/a.rs".to_string()]);
}
