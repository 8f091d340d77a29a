use agent_kit::salience::{classify, classify_signals, Salience};
use agent_kit::style::Ratio;

#[test]
fn salience_table() {
    assert_eq!(classify_signals(true, true, true), Salience::CriticalSilo);
    assert_eq!(classify_signals(true, true, false), Salience::HotCritical);
    assert_eq!(classify_signals(true, false, false), Salience::FoundationalStable);
    assert_eq!(classify_signals(false, true, true), Salience::ActiveLocalized);
    assert_eq!(classify_signals(false, false, true), Salience::Background);
    assert_eq!(Salience::FoundationalStable.as_str(), "FoundationalStable");
}

fn r(num: u64, den: u64) -> Ratio {
    Ratio { num, den }
}

#[test]
fn positive_classify_taxonomy() {
    // 0.9 / 1.0 / 0.25 / 0.2 / 0.0 as exact fractions.
    assert_eq!(classify(r(9, 10), r(1, 1), r(1, 1)), "CriticalSilo");
    assert_eq!(classify(r(9, 10), r(1, 1), r(1, 4)), "HotCritical");
    assert_eq!(classify(r(9, 10), r(0, 1), r(1, 4)), "FoundationalStable");
    assert_eq!(classify(r(2, 10), r(1, 1), r(1, 4)), "ActiveLocalized");
    assert_eq!(classify(r(2, 10), r(0, 1), r(1, 4)), "Background");
}

#[test]
fn classify_thresholds_are_strict_and_inclusive() {
    // exactly one half is not high; exactly 0.99 is single-owner.
    assert_eq!(classify(r(1, 2), r(1, 2), r(99, 100)), "Background");
    assert_eq!(classify(r(51, 100), r(0, 1), r(99, 100)), "CriticalSilo");
    assert_eq!(classify(r(51, 100), r(0, 1), r(98, 100)), "FoundationalStable");
}
