use agent_kit::render::ChangeKind;
use agent_kit::repo_facts::{
    change_set_files, condense_commits, detect_language, pick_default, plan_target, FileDiff, RawCommit, RepoLanguage,
    ReviewTarget, TargetPlan, MAX_FILE_PATCH,
};

fn paths(ps: &[&str]) -> Vec<String> {
    ps.iter().map(|s| s.to_string()).collect()
}

#[test]
fn positive_manifest_file_wins_over_extensions() {
    // A go.mod is present; the extensions say rust, but the manifest decides.
    assert_eq!(detect_language(true, false, &paths(&["x.rs", "y.rs"])), RepoLanguage::Go);
}

#[test]
fn corner_both_manifests_is_mixed() {
    assert_eq!(detect_language(true, true, &[]), RepoLanguage::Mixed);
}

#[test]
fn boundary_no_manifest_no_source_is_unknown() {
    assert_eq!(detect_language(false, false, &[]), RepoLanguage::Unknown);
}

#[test]
fn extension_tally_decides_without_manifests() {
    assert_eq!(detect_language(false, false, &paths(&["a.go", "b.go", "c.rs"])), RepoLanguage::Go);
    assert_eq!(detect_language(false, false, &paths(&["a.go", "c.rs", "README.md"])), RepoLanguage::Mixed);
    assert_eq!(detect_language(false, true, &paths(&["a.go"])), RepoLanguage::Rust);
}

#[test]
fn default_branch_prefers_usual_local_names() {
    assert_eq!(pick_default(&paths(&["origin/main", "feature", "master"])), "master");
    assert_eq!(pick_default(&paths(&["trunk", "develop"])), "develop");
    assert_eq!(pick_default(&paths(&["origin/main", "feature"])), "feature");
    assert_eq!(pick_default(&paths(&["origin/main"])), "origin/main");
    assert_eq!(pick_default(&[]), "main");
}

fn diff(new_path: Option<&str>, old_path: Option<&str>, confined: bool, noisy: bool, patch: &str) -> FileDiff {
    FileDiff {
        new_path: new_path.map(|s| s.to_string()),
        old_path: old_path.map(|s| s.to_string()),
        confined,
        noisy,
        change: ChangeKind::Modified,
        additions: 3,
        deletions: 1,
        patch: patch.to_string(),
    }
}

#[test]
fn change_set_drops_escaping_and_collapses_binary_and_noisy() {
    let ds = vec![
        diff(Some("src/a.rs"), None, true, false, "@@ -1 +1 @@\n-a\n+b\n"),
        diff(None, Some("gone.rs"), true, false, "@@ -1 +0,0 @@\n-x\n"),
        diff(Some("../../etc/passwd"), None, false, false, "@@"),
        diff(Some("img.png"), None, true, false, "Binary files a/img.png and b/img.png differ"),
        diff(Some("Cargo.lock"), None, true, true, "@@ lock @@"),
    ];
    let fs = change_set_files(&ds);
    let paths: Vec<&str> = fs.iter().map(|f| f.path.as_str()).collect();
    assert_eq!(paths, vec!["src/a.rs", "gone.rs", "img.png", "Cargo.lock"]);
    assert_eq!(fs[0].patch, "@@ -1 +1 @@\n-a\n+b\n");
    assert!(!fs[0].is_binary);
    assert!(fs[2].is_binary && fs[2].patch.is_empty());
    assert!(fs[3].noisy && fs[3].patch.is_empty());
    assert_eq!((fs[0].additions, fs[0].deletions), (3, 1));
}

#[test]
fn change_set_bounds_a_huge_patch() {
    let big = "+x\n".repeat(10_000);
    let fs = change_set_files(&[diff(Some("big.rs"), None, true, false, &big)]);
    assert_eq!(fs[0].patch.chars().count(), MAX_FILE_PATCH + "… [truncated]".chars().count());
}

fn raw(oid: &str, summary: &str, body: &str, author: &str, committed_ms: u64) -> RawCommit {
    RawCommit {
        oid: oid.to_string(),
        summary: summary.to_string(),
        body: body.to_string(),
        author: author.to_string(),
        committed_ms,
    }
}

#[test]
fn commits_condensed_head_keeps_body() {
    let day = 86_400_000u64;
    let now = 10 * day;
    let cs = condense_commits(
        &[
            raw("0123456789abcdef", "fix: head", "  details here \n", "alice", now - 3 * day),
            raw("fedcba98", "feat: older", "older body", "bob", now - 3 * day - 1),
            raw("abc", "future", "", "carol", now + day),
        ],
        now,
    );
    assert_eq!(cs.len(), 3);
    assert_eq!(cs[0].short, "01234567");
    assert_eq!(cs[0].body, "details here");
    assert_eq!(cs[0].age_days, 3);
    assert_eq!(cs[1].short, "fedcba98");
    assert_eq!(cs[1].body, "");
    assert_eq!(cs[1].age_days, 3);
    assert_eq!(cs[2].short, "abc");
    assert_eq!(cs[2].age_days, 0);
    let long = condense_commits(&[raw("a", &"s".repeat(500), "", &"n".repeat(100), 0)], 0);
    assert!(long[0].summary.ends_with("[truncated]"));
    assert_eq!(long[0].author.chars().count(), 80 + "… [truncated]".chars().count());
}

#[test]
fn review_targets_resolve_against_the_default_branch() {
    assert_eq!(plan_target(&ReviewTarget::Pr(42), "main"), Ok(TargetPlan::NeedsForge(42)));
    assert_eq!(
        plan_target(&ReviewTarget::Branch("feature-x".to_string()), "main"),
        Ok(TargetPlan::Labels { base: "main".to_string(), head: "feature-x".to_string() })
    );
    assert_eq!(
        plan_target(&ReviewTarget::WorkingTree, "trunk"),
        Ok(TargetPlan::Labels { base: "trunk".to_string(), head: "HEAD".to_string() })
    );
    assert_eq!(
        plan_target(&ReviewTarget::Revs { base: "v1.0".to_string(), head: "HEAD~2".to_string() }, "main"),
        Ok(TargetPlan::Labels { base: "v1.0".to_string(), head: "HEAD~2".to_string() })
    );
}

#[test]
fn hostile_branch_and_revisions_are_refused_before_git() {
    assert_eq!(
        plan_target(&ReviewTarget::Branch("--upload-pack=x".to_string()), "main"),
        Err("unsafe branch name `--upload-pack=x` (rejected before touching git)".to_string())
    );
    assert_eq!(
        plan_target(&ReviewTarget::Branch("a;rm -rf".to_string()), "main"),
        Err("unsafe branch name `a;rm -rf` (rejected before touching git)".to_string())
    );
    assert_eq!(
        plan_target(&ReviewTarget::Revs { base: "main".to_string(), head: "-x".to_string() }, "main"),
        Err("unsafe revision in `main..-x` (rejected before touching git)".to_string())
    );
}
