//! The salience verdict table: the blast-radius/criticality class of a changed
//! file from its three signals (centrality > 0.5, churn > 0.5, bus-factor risk
//! ≥ 0.99), each given as an exact fraction.
use vstd::prelude::*;
use crate::style::Ratio;

verus! {

/// The salience classes, most critical first.
#[derive(Debug, Clone, Copy, PartialEq, Eq, Structural)]
pub enum Salience {
    /// Load-bearing and single-owner.
    CriticalSilo,
    /// Load-bearing and churning.
    HotCritical,
    /// Load-bearing and quiescent: large blast radius, no warning from history.
    FoundationalStable,
    /// Not load-bearing, churning.
    ActiveLocalized,
    /// Not load-bearing, quiet.
    Background,
}

pub open spec fn salience_spec(high_centrality: bool, high_churn: bool, single_owner: bool) -> Salience {
    if high_centrality && single_owner {
        Salience::CriticalSilo
    } else if high_centrality && high_churn {
        Salience::HotCritical
    } else if high_centrality {
        Salience::FoundationalStable
    } else if high_churn {
        Salience::ActiveLocalized
    } else {
        Salience::Background
    }
}

/// The verdict for one file's thresholded signals (single ownership outranks
/// churn for a load-bearing file).
pub fn classify_signals(high_centrality: bool, high_churn: bool, single_owner: bool) -> (s: Salience)
    ensures
        s == salience_spec(high_centrality, high_churn, single_owner),
{
    match (high_centrality, high_churn, single_owner) {
        (true, _, true) => Salience::CriticalSilo,
        (true, true, _) => Salience::HotCritical,
        (true, false, _) => Salience::FoundationalStable,
        (false, true, _) => Salience::ActiveLocalized,
        (false, false, _) => Salience::Background,
    }
}

impl Salience {
    /// The class's label.
    pub fn as_str(&self) -> (s: &'static str)
        ensures
            s@ == self.label(),
    {
        match self {
            Salience::CriticalSilo => "CriticalSilo",
            Salience::HotCritical => "HotCritical",
            Salience::FoundationalStable => "FoundationalStable",
            Salience::ActiveLocalized => "ActiveLocalized",
            Salience::Background => "Background",
        }
    }

    pub open spec fn label(&self) -> Seq<char> {
        match self {
            Salience::CriticalSilo => "CriticalSilo"@,
            Salience::HotCritical => "HotCritical"@,
            Salience::FoundationalStable => "FoundationalStable"@,
            Salience::ActiveLocalized => "ActiveLocalized"@,
            Salience::Background => "Background"@,
        }
    }
}

/// `r` read as the fraction `num / den` is above one half.
pub open spec fn above_half(r: Ratio) -> bool {
    r.den > 0 && 2 * r.num > r.den
}

/// `r` read as the fraction `num / den` is at least 0.99.
pub open spec fn near_one(r: Ratio) -> bool {
    r.den > 0 && 100 * r.num >= 99 * r.den
}

/// The class of a file from its three signals as exact fractions: centrality
/// and churn in `0..=1`, and the bus-factor risk (`1` for a single owner, else
/// `1 / bus_factor`). Centrality and churn count as high above one half; the
/// file counts as single-owner at a risk of 0.99 or more (a zero denominator
/// reads as 0).
pub fn classify(centrality: Ratio, churn: Ratio, bus_factor_risk: Ratio) -> (s: &'static str)
    ensures
        s@ == salience_spec(above_half(centrality), above_half(churn), near_one(bus_factor_risk)).label(),
{
    let high_centrality = centrality.den > 0 && 2 * (centrality.num as u128) > centrality.den as u128;
    let high_churn = churn.den > 0 && 2 * (churn.num as u128) > churn.den as u128;
    let single_owner = bus_factor_risk.den > 0 && 100 * (bus_factor_risk.num as u128) >= 99 * (bus_factor_risk.den as u128);
    classify_signals(high_centrality, high_churn, single_owner).as_str()
}

/// Only a load-bearing file can be a critical class, and every load-bearing
/// single-owner file is a critical silo whatever its churn.
pub proof fn law_salience_priority(c: bool, h: bool, o: bool)
    ensures
        !c ==> (salience_spec(c, h, o) == Salience::ActiveLocalized || salience_spec(c, h, o)
            == Salience::Background),
        c && o ==> salience_spec(c, h, o) == Salience::CriticalSilo,
{
}

} // verus!
