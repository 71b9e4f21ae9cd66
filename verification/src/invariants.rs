//! The mass-conservation law between the two risk-factor drift facts: for a
//! `(CIK, fiscal year)` that has both, the headings added minus the headings
//! removed must equal the change in the heading count.

use vstd::prelude::*;
use crate::drift_map::DriftMap;
use crate::filing::{DriftKeyView, RiskFactorDrift, RiskFactorLanguageDrift};
use crate::proposals::{count_index, index_drifts, language_index, Proposal};
use crate::text::{int_text, push_int};

verus! {

/// When an invariant is checked during convergence.
#[derive(Debug, Clone, Copy, PartialEq, Eq, Structural)]
pub enum InvariantClass {
    /// On every merge; a violation fails at once.
    Structure,
    /// At the end of each cycle; a violation blocks convergence.
    Semantic,
    /// When convergence is claimed; a violation rejects the result.
    Acceptance,
}

/// Why an invariant does not hold.
#[derive(Debug)]
pub struct Violation {
    /// Human-readable description of what went wrong.
    pub reason: String,
    /// The facts that contributed, where known.
    pub fact_ids: Vec<String>,
}

/// The outcome of checking an invariant.
#[derive(Debug)]
pub enum InvariantResult {
    /// The invariant holds.
    Holds,
    /// The invariant is violated.
    Violated(Violation),
}

impl InvariantResult {
    /// Whether the invariant holds.
    pub fn is_ok(&self) -> (r: bool)
        ensures
            r == (self is Holds),
    {
        match self {
            InvariantResult::Holds => true,
            InvariantResult::Violated(_) => false,
        }
    }

    /// Whether the invariant is violated.
    pub fn is_violated(&self) -> (r: bool)
        ensures
            r == (self is Violated),
    {
        match self {
            InvariantResult::Holds => false,
            InvariantResult::Violated(_) => true,
        }
    }
}

/// Headings added minus headings removed, computed in `i32` as the language
/// suggestor's consumers do (each length cast to `i32`, the difference wrapping).
pub open spec fn language_delta(lang: RiskFactorLanguageDrift) -> i32 {
    (lang.added@.len() as i32).wrapping_sub(lang.removed@.len() as i32)
}

/// The identity between one count drift and one language drift.
pub open spec fn conserves_mass(count: RiskFactorDrift, lang: RiskFactorLanguageDrift) -> bool {
    language_delta(lang) == count.delta
}

/// The identity holds at every key that has both drifts.
pub open spec fn mass_conserved(
    counts: Map<DriftKeyView, RiskFactorDrift>,
    langs: Map<DriftKeyView, RiskFactorLanguageDrift>,
) -> bool {
    forall|k: DriftKeyView|
        #[trigger] counts.contains_key(k) && langs.contains_key(k) ==> conserves_mass(
            counts[k],
            langs[k],
        )
}

/// The reason reported for a key at which the identity fails.
pub open spec fn violation_text(count: RiskFactorDrift, lang: RiskFactorLanguageDrift) -> Seq<
    char,
> {
    "mass conservation violated for CIK "@ + count.current.cik@ + " FY"@ + int_text(
        count.current.fiscal_year as int,
    ) + ": count delta = "@ + int_text(count.delta as int) + ", language (added - removed) = ("@
        + int_text(lang.added@.len() as int) + " - "@ + int_text(lang.removed@.len() as int)
        + ") = "@ + int_text(language_delta(lang) as int)
}

fn violation_reason(count: &RiskFactorDrift, lang: &RiskFactorLanguageDrift) -> (r: String)
    ensures
        r@ == violation_text(*count, *lang),
{
    let lang_delta = (lang.added.len() as i32).wrapping_sub(lang.removed.len() as i32);
    let mut s = String::from_str("mass conservation violated for CIK ");
    s.append(count.current.cik.as_str());
    s.append(" FY");
    push_int(&mut s, count.current.fiscal_year as i128);
    s.append(": count delta = ");
    push_int(&mut s, count.delta as i128);
    s.append(", language (added - removed) = (");
    push_int(&mut s, lang.added.len() as i128);
    s.append(" - ");
    push_int(&mut s, lang.removed.len() as i128);
    s.append(") = ");
    push_int(&mut s, lang_delta as i128);
    s
}

/// The outcome the mass-conservation check gives for two indexed drift maps:
/// `Holds` exactly when the identity holds at every shared key; otherwise a
/// violation naming one shared key at which it fails.
pub open spec fn is_mass_conservation_outcome(
    r: InvariantResult,
    counts: Map<DriftKeyView, RiskFactorDrift>,
    langs: Map<DriftKeyView, RiskFactorLanguageDrift>,
) -> bool {
    &&& (r is Holds <==> mass_conserved(counts, langs))
    &&& (r matches InvariantResult::Violated(v) ==> {
        &&& v.fact_ids@.len() == 0
        &&& exists|k: DriftKeyView|
            #[trigger] counts.contains_key(k) && langs.contains_key(k) && !conserves_mass(
                counts[k],
                langs[k],
            ) && v.reason@ == violation_text(counts[k], langs[k])
    })
}

/// Checks the identity at every key that both maps hold.
pub fn check_drifts(
    counts: &DriftMap<RiskFactorDrift>,
    langs: &DriftMap<RiskFactorLanguageDrift>,
) -> (r: InvariantResult)
    ensures
        is_mass_conservation_outcome(r, counts@, langs@),
{
    let n = counts.len();
    let mut i: usize = 0;
    while i < n
        invariant
            n == counts.keys_in_order().len(),
            i <= n,
            forall|k: DriftKeyView| #[trigger]
                counts@.dom().contains(k) <==> counts.keys_in_order().contains(k),
            forall|j: int|
                0 <= j < i ==> {
                    let k = #[trigger] counts.keys_in_order()[j];
                    langs@.contains_key(k) ==> conserves_mass(counts@[k], langs@[k])
                },
        decreases n - i,
    {
        let key = counts.key_at(i);
        let count = counts.get(key).unwrap();
        match langs.get(key) {
            Some(lang) => {
                let lang_delta = (lang.added.len() as i32).wrapping_sub(lang.removed.len() as i32);
                if lang_delta != count.delta {
                    let reason = violation_reason(count, lang);
                    let v = Violation { reason, fact_ids: Vec::new() };
                    return InvariantResult::Violated(v);
                }
            },
            None => {},
        }
        i = i + 1;
    }
    assert forall|k: DriftKeyView|
        #[trigger] counts@.contains_key(k) && langs@.contains_key(k) implies conserves_mass(
        counts@[k],
        langs@[k],
    ) by {
        assert(counts.keys_in_order().contains(k));
        let j = choose|j: int|
            0 <= j < counts.keys_in_order().len() && counts.keys_in_order()[j] == k;
    }
    InvariantResult::Holds
}

/// Checks, once convergence is claimed, that the heading-count drift and the
/// heading-language drift agree for every `(CIK, fiscal year)` carrying both:
/// the number of headings added minus the number removed is the count delta.
/// A disagreement means the two suggestors read different inputs or one of
/// them is wrong, so it rejects the run.
#[derive(Debug)]
pub struct RiskFactorMassConservationInvariant;

impl RiskFactorMassConservationInvariant {
    /// The invariant's name.
    pub fn name(&self) -> (r: &'static str)
        ensures
            r@ == "risk_factor_mass_conservation"@,
    {
        "risk_factor_mass_conservation"
    }

    /// Checked when convergence is claimed.
    pub fn class(&self) -> (r: InvariantClass)
        ensures
            r == InvariantClass::Acceptance,
    {
        InvariantClass::Acceptance
    }

    /// Checks the identity over the drift facts among `proposals` (for each
    /// key, the last proposal of each kind counts).
    pub fn check(&self, proposals: Vec<Proposal>) -> (r: InvariantResult)
        ensures
            is_mass_conservation_outcome(r, count_index(proposals@), language_index(proposals@)),
    {
        let (counts, langs) = index_drifts(proposals);
        check_drifts(&counts, &langs)
    }
}

}
