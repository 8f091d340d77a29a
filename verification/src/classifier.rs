//! Detecting a code-review task: a free deterministic prefilter settles the
//! clear cases; a cheap pool vote decides the ambiguous ones. Uncertainty
//! resolves to `Other` (the normal loop), never to a spurious `Review`.
use vstd::prelude::*;
use crate::findings::{push_chars, push_str};
use crate::style::Ratio;
use crate::text::{
    chars_of, contains, contains_exec, dec_text, dec_text_exec, find_from, lemma_find_from_occurs, lower_seq, occurs_at,
    string_of, to_lower,
};

verus! {

/// What a task is.
#[derive(PartialEq, Eq, Structural, Clone, Copy, Debug)]
pub enum TaskMode {
    Review,
    Other,
}

/// The prefilter's call, with its reason.
#[derive(PartialEq, Eq, Structural, Clone, Copy, Debug)]
pub enum Prefilter {
    Review(Reason),
    NotReview(Reason),
    Ambiguous,
}

/// Why the prefilter settled a prompt.
#[derive(PartialEq, Eq, Structural, Clone, Copy, Debug)]
pub enum Reason {
    ReviewPhrase,
    PrReference,
    ImplementVerb,
}

pub open spec fn review_phrase(p: Seq<char>) -> bool {
    ||| contains(p, "code review"@)
    ||| contains(p, "review this"@)
    ||| contains(p, "review the"@)
    ||| contains(p, "review my"@)
    ||| contains(p, "look over this diff"@)
    ||| contains(p, "look over the diff"@)
    ||| contains(p, "pr feedback"@)
    ||| contains(p, "feedback on this pr"@)
    ||| contains(p, "review pr"@)
    ||| contains(p, "review the pull request"@)
}

pub open spec fn implement_verb(p: Seq<char>) -> bool {
    ||| contains(p, "implement "@)
    ||| contains(p, "write a "@)
    ||| contains(p, "write the "@)
    ||| contains(p, "create a "@)
    ||| contains(p, "add a "@)
    ||| contains(p, "build a "@)
    ||| contains(p, "fix the bug"@)
}

/// A `#` or `!` directly followed by an ASCII digit.
pub open spec fn shorthand_ref(p: Seq<char>) -> bool {
    exists|i: int| 0 <= i < p.len() - 1 && (p[i] == '#' || p[i] == '!') && '0' <= #[trigger] p[i + 1] && p[i + 1] <= '9'
}

/// The text references a PR/MR: `pull request`, `pull/`, `/merge_requests/`,
/// or a `#123` / `!123` shorthand.
pub open spec fn mentions_pr_spec(p: Seq<char>) -> bool {
    contains(p, "pull request"@) || contains(p, "pull/"@) || contains(p, "/merge_requests/"@) || shorthand_ref(p)
}

pub fn mentions_pr(p: &[char]) -> (r: bool)
    ensures
        r == mentions_pr_spec(p@),
{
    if contains_exec(p, &chars_of("pull request")) || contains_exec(p, &chars_of("pull/"))
        || contains_exec(p, &chars_of("/merge_requests/")) {
        return true;
    }
    let n = p.len();
    let mut i: usize = 0;
    while n > 0 && i < n - 1
        invariant
            n == p@.len(),
            i <= n,
            forall|j: int| 0 <= j < i && j < p@.len() - 1 ==> !((p@[j] == '#' || p@[j] == '!') && '0' <= #[trigger] p@[j + 1] && p@[j + 1] <= '9'),
        decreases n - i,
    {
        if (p[i] == '#' || p[i] == '!') && '0' <= p[i + 1] && p[i + 1] <= '9' {
            assert('0' <= p@[i + 1]);
            return true;
        }
        i += 1;
    }
    false
}

/// The prefilter over the ASCII-lower-cased prompt: a review phrase, or
/// `review` together with a PR reference, means review; an implementation
/// verb means not; anything else is ambiguous.
pub open spec fn prefilter_spec(prompt: Seq<char>) -> Prefilter {
    let p = lower_seq(prompt);
    if review_phrase(p) {
        Prefilter::Review(Reason::ReviewPhrase)
    } else if contains(p, "review"@) && mentions_pr_spec(p) {
        Prefilter::Review(Reason::PrReference)
    } else if implement_verb(p) {
        Prefilter::NotReview(Reason::ImplementVerb)
    } else {
        Prefilter::Ambiguous
    }
}

fn has(p: &Vec<char>, k: &str) -> (r: bool)
    ensures
        r == contains(p@, k@),
{
    contains_exec(p, &chars_of(k))
}

pub fn prefilter(prompt: &str) -> (r: Prefilter)
    ensures
        r == prefilter_spec(prompt@),
{
    let p = to_lower(&chars_of(prompt));
    if has(&p, "code review") || has(&p, "review this") || has(&p, "review the") || has(&p, "review my")
        || has(&p, "look over this diff") || has(&p, "look over the diff") || has(&p, "pr feedback")
        || has(&p, "feedback on this pr") || has(&p, "review pr") || has(&p, "review the pull request") {
        return Prefilter::Review(Reason::ReviewPhrase);
    }
    if has(&p, "review") && mentions_pr(&p) {
        return Prefilter::Review(Reason::PrReference);
    }
    if has(&p, "implement ") || has(&p, "write a ") || has(&p, "write the ") || has(&p, "create a ")
        || has(&p, "add a ") || has(&p, "build a ") || has(&p, "fix the bug") {
        return Prefilter::NotReview(Reason::ImplementVerb);
    }
    Prefilter::Ambiguous
}

impl Reason {
    /// The reason's text.
    pub fn text(&self) -> (r: &'static str)
        ensures
            r@ == reason_text(*self),
    {
        match self {
            Reason::ReviewPhrase => "deterministic: review phrase in prompt",
            Reason::PrReference => "deterministic: PR reference + 'review'",
            Reason::ImplementVerb => "deterministic: implementation verb in prompt",
        }
    }
}

pub open spec fn reason_text(r: Reason) -> Seq<char> {
    match r {
        Reason::ReviewPhrase => "deterministic: review phrase in prompt"@,
        Reason::PrReference => "deterministic: PR reference + 'review'"@,
        Reason::ImplementVerb => "deterministic: implementation verb in prompt"@,
    }
}

/// The classifier's answer: the mode, a confidence as a ratio, and why.
pub struct ModeVerdict {
    pub mode: TaskMode,
    pub confidence: Ratio,
    pub reason: String,
}

/// A voter said review: its lower-cased reply mentions `review` and not `not`.
pub open spec fn says_review(reply: Seq<char>) -> bool {
    let t = lower_seq(reply);
    contains(t, "review"@) && !contains(t, "not"@)
}

/// How many replies there were and how many said review.
pub open spec fn tally(replies: Seq<Option<String>>) -> (nat, nat)
    decreases replies.len(),
{
    if replies.len() == 0 {
        (0, 0)
    } else {
        let (v, y) = tally(replies.drop_last());
        match replies.last() {
            Some(t) => (v + 1, if says_review(t@) { y + 1 } else { y }),
            None => (v, y),
        }
    }
}

/// The verdict of a pool vote (one reply per voter, `None` for a voter that
/// failed): review on a strict majority of the replies, with the majority's
/// share as confidence; no verdict when nobody replied.
pub open spec fn vote_spec(replies: Seq<Option<String>>) -> Option<(TaskMode, Ratio, Seq<char>)> {
    let (voters, yes) = tally(replies);
    let reason = "pool vote: "@ + dec_text(yes) + "/"@ + dec_text(voters) + " said review"@;
    if voters == 0 {
        None
    } else if yes * 2 > voters {
        Some((TaskMode::Review, Ratio { num: yes as u64, den: voters as u64 }, reason))
    } else {
        Some((TaskMode::Other, Ratio { num: (voters - yes) as u64, den: voters as u64 }, reason))
    }
}

/// Decide a pool vote.
pub fn vote_verdict(replies: &[Option<String>]) -> (r: Option<ModeVerdict>)
    requires
        replies@.len() <= u32::MAX,
    ensures
        match r {
            None => vote_spec(replies@) is None,
            Some(v) => vote_spec(replies@) == Some((v.mode, v.confidence, v.reason@)),
        },
{
    let mut voters: u64 = 0;
    let mut yes: u64 = 0;
    let mut i: usize = 0;
    while i < replies.len()
        invariant
            i <= replies@.len() <= u32::MAX,
            (voters as nat, yes as nat) == tally(replies@.take(i as int)),
            yes <= voters <= i,
        decreases replies.len() - i,
    {
        assert(replies@.take(i + 1).drop_last() =~= replies@.take(i as int));
        match &replies[i] {
            Some(t) => {
                voters = voters + 1;
                let l = to_lower(&chars_of(t.as_str()));
                if contains_exec(&l, &chars_of("review")) && !contains_exec(&l, &chars_of("not")) {
                    yes = yes + 1;
                }
            },
            None => {},
        }
        i += 1;
    }
    assert(replies@.take(replies@.len() as int) =~= replies@);
    if voters == 0 {
        return None;
    }
    let mut reason = chars_of("pool vote: ");
    push_chars(&mut reason, &dec_text_exec(yes));
    push_str(&mut reason, "/");
    push_chars(&mut reason, &dec_text_exec(voters));
    push_str(&mut reason, " said review");
    let reason = string_of(&reason);
    if yes * 2 > voters {
        Some(ModeVerdict { mode: TaskMode::Review, confidence: Ratio { num: yes, den: voters }, reason })
    } else {
        Some(ModeVerdict { mode: TaskMode::Other, confidence: Ratio { num: voters - yes, den: voters }, reason })
    }
}

/// The classification of a prompt: the prefilter's call when it settles
/// (review at 95%, not-review at 90%), else the vote's verdict when there was
/// one, else `Other` at 50% — never review on a coin flip.
pub fn classify(pre: Prefilter, vote: Option<ModeVerdict>) -> (r: ModeVerdict)
    ensures
        match pre {
            Prefilter::Review(why) => r.mode == TaskMode::Review && r.confidence == (Ratio { num: 95, den: 100 })
                && r.reason@ == reason_text(why),
            Prefilter::NotReview(why) => r.mode == TaskMode::Other && r.confidence == (Ratio { num: 90, den: 100 })
                && r.reason@ == reason_text(why),
            Prefilter::Ambiguous => match vote {
                Some(v) => r == v,
                None => r.mode == TaskMode::Other && r.confidence == (Ratio { num: 50, den: 100 })
                    && r.reason@ == "no strong review signal"@,
            },
        },
{
    match pre {
        Prefilter::Review(why) => ModeVerdict {
            mode: TaskMode::Review,
            confidence: Ratio { num: 95, den: 100 },
            reason: why.text().to_owned(),
        },
        Prefilter::NotReview(why) => ModeVerdict {
            mode: TaskMode::Other,
            confidence: Ratio { num: 90, den: 100 },
            reason: why.text().to_owned(),
        },
        Prefilter::Ambiguous => match vote {
            Some(v) => v,
            None => ModeVerdict {
                mode: TaskMode::Other,
                confidence: Ratio { num: 50, den: 100 },
                reason: "no strong review signal".to_owned(),
            },
        },
    }
}

/// Classifying never enters review mode without a review signal: a prompt the
/// prefilter does not call review ends in `Review` only through a vote whose
/// majority said review.
pub proof fn law_review_needs_a_signal(prompt: Seq<char>, replies: Seq<Option<String>>)
    ensures
        !(prefilter_spec(prompt) is Review) && (vote_spec(replies) matches Some((m, _c, _w)) && m == TaskMode::Review)
            ==> tally(replies).1 * 2 > tally(replies).0,
{
}

/// A prompt that asks for a review in so many words is a review, whatever
/// else it says: once lower-cased, any of "code review", "review this",
/// "review the", "review my", "look over this diff", "look over the diff",
/// "pr feedback", "feedback on this pr", "review pr" or "review the pull
/// request" makes the prefilter answer review, for that phrase.
pub proof fn law_review_phrase_is_review(prompt: Seq<char>)
    ensures
        ({
            let p = lower_seq(prompt);
            (contains(p, "code review"@) || contains(p, "review this"@) || contains(p, "review the"@) || contains(
                p,
                "review my"@,
            ) || contains(p, "look over this diff"@) || contains(p, "look over the diff"@) || contains(
                p,
                "pr feedback"@,
            ) || contains(p, "feedback on this pr"@) || contains(p, "review pr"@) || contains(
                p,
                "review the pull request"@,
            )) ==> prefilter_spec(prompt) == Prefilter::Review(Reason::ReviewPhrase)
        }),
{
}

/// The word "review" next to a pull-request reference is a review: a
/// lower-cased prompt that contains "review" and "pull request" (or "pull/",
/// or "/merge_requests/") is never answered not-review or ambiguous.
pub proof fn law_review_with_pr_reference(prompt: Seq<char>)
    ensures
        ({
            let p = lower_seq(prompt);
            contains(p, "review"@) && (contains(p, "pull request"@) || contains(p, "pull/"@) || contains(
                p,
                "/merge_requests/"@,
            )) ==> prefilter_spec(prompt) is Review
        }),
{
}

proof fn lemma_occurs_found(hay: Seq<char>, needle: Seq<char>, i: int, j: int)
    requires
        0 <= i <= j,
        occurs_at(hay, needle, j),
    ensures
        find_from(hay, needle, i) is Some,
    decreases j - i,
{
    if !occurs_at(hay, needle, i) {
        lemma_occurs_found(hay, needle, i + 1, j);
    }
}

/// A text that contains `big` contains every piece of it.
proof fn lemma_contains_piece(p: Seq<char>, big: Seq<char>, small: Seq<char>, off: int)
    requires
        contains(p, big),
        0 <= off,
        off + small.len() <= big.len(),
        big.subrange(off, off + small.len()) == small,
    ensures
        contains(p, small),
{
    lemma_find_from_occurs(p, big, 0);
    let j = find_from(p, big, 0)->0;
    assert(p.subrange(j + off, j + off + small.len()) =~= big.subrange(off, off + small.len()));
    lemma_occurs_found(p, small, 0, j + off);
}

/// An implementation request with no word of review is not a review: a
/// lower-cased prompt that contains "implement ", "write a ", "write the ",
/// "create a ", "add a ", "build a " or "fix the bug", and none of "review",
/// "look over" or "feedback", is answered not-review for that verb.
pub proof fn law_implement_verb_is_not_review(prompt: Seq<char>)
    ensures
        ({
            let p = lower_seq(prompt);
            (contains(p, "implement "@) || contains(p, "write a "@) || contains(p, "write the "@) || contains(
                p,
                "create a "@,
            ) || contains(p, "add a "@) || contains(p, "build a "@) || contains(p, "fix the bug"@)) && !contains(
                p,
                "review"@,
            ) && !contains(p, "look over"@) && !contains(p, "feedback"@) ==> prefilter_spec(prompt)
                == Prefilter::NotReview(Reason::ImplementVerb)
        }),
{
    let p = lower_seq(prompt);
    reveal_strlit("review");
    reveal_strlit("look over");
    reveal_strlit("feedback");
    reveal_strlit("code review");
    reveal_strlit("review this");
    reveal_strlit("review the");
    reveal_strlit("review my");
    reveal_strlit("look over this diff");
    reveal_strlit("look over the diff");
    reveal_strlit("pr feedback");
    reveal_strlit("feedback on this pr");
    reveal_strlit("review pr");
    reveal_strlit("review the pull request");
    if contains(p, "code review"@) {
        assert("code review"@.subrange(5 as int, 5 + "review"@.len() as int) =~= "review"@);
        lemma_contains_piece(p, "code review"@, "review"@, 5);
    }
    if contains(p, "review this"@) {
        assert("review this"@.subrange(0 as int, 0 + "review"@.len() as int) =~= "review"@);
        lemma_contains_piece(p, "review this"@, "review"@, 0);
    }
    if contains(p, "review the"@) {
        assert("review the"@.subrange(0 as int, 0 + "review"@.len() as int) =~= "review"@);
        lemma_contains_piece(p, "review the"@, "review"@, 0);
    }
    if contains(p, "review my"@) {
        assert("review my"@.subrange(0 as int, 0 + "review"@.len() as int) =~= "review"@);
        lemma_contains_piece(p, "review my"@, "review"@, 0);
    }
    if contains(p, "review pr"@) {
        assert("review pr"@.subrange(0 as int, 0 + "review"@.len() as int) =~= "review"@);
        lemma_contains_piece(p, "review pr"@, "review"@, 0);
    }
    if contains(p, "review the pull request"@) {
        assert("review the pull request"@.subrange(0 as int, 0 + "review"@.len() as int) =~= "review"@);
        lemma_contains_piece(p, "review the pull request"@, "review"@, 0);
    }
    if contains(p, "look over this diff"@) {
        assert("look over this diff"@.subrange(0 as int, 0 + "look over"@.len() as int) =~= "look over"@);
        lemma_contains_piece(p, "look over this diff"@, "look over"@, 0);
    }
    if contains(p, "look over the diff"@) {
        assert("look over the diff"@.subrange(0 as int, 0 + "look over"@.len() as int) =~= "look over"@);
        lemma_contains_piece(p, "look over the diff"@, "look over"@, 0);
    }
    if contains(p, "pr feedback"@) {
        assert("pr feedback"@.subrange(3 as int, 3 + "feedback"@.len() as int) =~= "feedback"@);
        lemma_contains_piece(p, "pr feedback"@, "feedback"@, 3);
    }
    if contains(p, "feedback on this pr"@) {
        assert("feedback on this pr"@.subrange(0 as int, 0 + "feedback"@.len() as int) =~= "feedback"@);
        lemma_contains_piece(p, "feedback on this pr"@, "feedback"@, 0);
    }
}

} // verus!
