//! The plain values a suggestor reads from a convergence context.

use vstd::prelude::*;

verus! {

/// The partitions of a convergence context.
#[derive(Debug, Clone, Copy, PartialEq, Eq, Structural)]
pub enum ContextKey {
    Seeds,
    Hypotheses,
    Strategies,
    Constraints,
    Signals,
    Competitors,
    Evaluations,
    Proposals,
    Diagnostic,
    Votes,
    Disagreements,
    ConsensusOutcomes,
}

/// The name under which a context key is displayed.
pub open spec fn context_key_text(key: ContextKey) -> Seq<char> {
    match key {
        ContextKey::Seeds => "Seeds"@,
        ContextKey::Hypotheses => "Hypotheses"@,
        ContextKey::Strategies => "Strategies"@,
        ContextKey::Constraints => "Constraints"@,
        ContextKey::Signals => "Signals"@,
        ContextKey::Competitors => "Competitors"@,
        ContextKey::Evaluations => "Evaluations"@,
        ContextKey::Proposals => "Proposals"@,
        ContextKey::Diagnostic => "Diagnostic"@,
        ContextKey::Votes => "Votes"@,
        ContextKey::Disagreements => "Disagreements"@,
        ContextKey::ConsensusOutcomes => "ConsensusOutcomes"@,
    }
}

/// The display name of a context key.
pub fn context_key_name(key: ContextKey) -> (r: &'static str)
    ensures
        r@ == context_key_text(key),
{
    match key {
        ContextKey::Seeds => "Seeds",
        ContextKey::Hypotheses => "Hypotheses",
        ContextKey::Strategies => "Strategies",
        ContextKey::Constraints => "Constraints",
        ContextKey::Signals => "Signals",
        ContextKey::Competitors => "Competitors",
        ContextKey::Evaluations => "Evaluations",
        ContextKey::Proposals => "Proposals",
        ContextKey::Diagnostic => "Diagnostic",
        ContextKey::Votes => "Votes",
        ContextKey::Disagreements => "Disagreements",
        ContextKey::ConsensusOutcomes => "ConsensusOutcomes",
    }
}

/// A fact's identifier and content, as text.
#[derive(Debug)]
pub struct FactText {
    pub id: String,
    pub content: String,
}

}
