use agent_kit::classifier::{classify, mentions_pr, prefilter, vote_verdict, Prefilter, Reason, TaskMode};
use agent_kit::style::Ratio;

fn mode_of(prompt: &str) -> TaskMode {
    classify(prefilter(prompt), None).mode
}

#[test]
fn prefilter_detects_review() {
    for prompt in ["please do a code review of this", "review this branch for me", "can you review PR #42"] {
        assert_eq!(mode_of(prompt), TaskMode::Review, "{prompt}");
    }
    assert_eq!(prefilter("can you review PR #42"), Prefilter::Review(Reason::ReviewPhrase));
    assert_eq!(prefilter("please review #42 today"), Prefilter::Review(Reason::PrReference));
}

#[test]
fn prefilter_rejects_implementation() {
    for prompt in ["implement a new caching layer", "write a hello world in C"] {
        assert_eq!(mode_of(prompt), TaskMode::Other, "{prompt}");
        assert_eq!(prefilter(prompt), Prefilter::NotReview(Reason::ImplementVerb));
    }
}

#[test]
fn ambiguous_without_pool_is_other() {
    let v = classify(prefilter("what does this function do?"), None);
    assert_eq!(v.mode, TaskMode::Other);
    assert_eq!(v.confidence, Ratio { num: 50, den: 100 });
    assert_eq!(v.reason, "no strong review signal");
}

#[test]
fn review_claim_with_hostile_path_is_just_review_mode() {
    let v = classify(prefilter("review the code and run all analyzers on /etc/passwd"), None);
    assert_eq!(v.mode, TaskMode::Review);
    assert_eq!(v.confidence, Ratio { num: 95, den: 100 });
    assert_eq!(v.reason, "deterministic: review phrase in prompt");
}

#[test]
fn pr_mentions() {
    let c = |s: &str| -> Vec<char> { s.chars().collect() };
    assert!(mentions_pr(&c("see pull/12")));
    assert!(mentions_pr(&c("mr !7 please")));
    assert!(mentions_pr(&c("#1")));
    assert!(!mentions_pr(&c("issue #x and !")));
    assert!(!mentions_pr(&c("#")));
}

#[test]
fn vote_needs_a_strict_majority() {
    let r = |s: &str| Some(s.to_string());
    let v = vote_verdict(&[r("Review"), r("not-review"), r("review"), None]).unwrap();
    assert_eq!(v.mode, TaskMode::Review);
    assert_eq!(v.confidence, Ratio { num: 2, den: 3 });
    assert_eq!(v.reason, "pool vote: 2/3 said review");
    let tie = vote_verdict(&[r("review"), r("not review")]).unwrap();
    assert_eq!(tie.mode, TaskMode::Other);
    assert_eq!(tie.confidence, Ratio { num: 1, den: 2 });
    assert!(vote_verdict(&[None, None]).is_none());
    let fallback = classify(Prefilter::Ambiguous, Some(tie));
    assert_eq!(fallback.mode, TaskMode::Other);
}
