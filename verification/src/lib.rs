//! Verified core of Fathom's risk-factor analytics: the drift facts that the
//! suggestors exchange, the mass-conservation invariant between them, and the
//! portfolio-coverage request that turns them into a knapsack problem.

pub mod text;
pub mod filing;
pub mod drift_map;
pub mod proposals;
pub mod invariants;
pub mod context;
pub mod portfolio_seed;
pub mod sections;
pub mod laws;

pub use context::{context_key_name, ContextKey, FactText};
pub use drift_map::DriftMap;
pub use filing::{Cik, FilingId, FormType, RiskFactorDrift, RiskFactorLanguageDrift};
pub use invariants::{
    check_drifts, InvariantClass, InvariantResult, RiskFactorMassConservationInvariant, Violation,
};
pub use portfolio_seed::{
    already_seeded, build_mip_problem, build_request, mip_seed_id, portfolio_seed_id,
    read_budget_directive, variable_name, MipProblem, MipTerm, PortfolioCoverageSeedSuggestor,
    PortfolioItem, PortfolioRequest, BUDGET_DIRECTIVE_ID, REQUEST_ID,
};
pub use proposals::{index_drifts, Proposal};
pub use sections::{filing_fact_id, sections_for_cik, MIN_SECTIONS_FOR_DRIFT};
