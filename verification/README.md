# fathom_sparc

Verified core of Fathom's risk-factor analytics, written in Verus.

- `src/filing.rs` — CIKs, filing identities, the heading-count drift and the
  heading-language drift facts.
- `src/drift_map.rs` — drift facts keyed by `(CIK, fiscal year)`, with map semantics.
- `src/proposals.rs` — proposals as read from a context, and their indexing
  (the last proposal under a key wins).
- `src/invariants.rs` — the mass-conservation invariant: added − removed = count delta.
- `src/portfolio_seed.rs` — the coverage knapsack request, the suggestor's
  accept/execute decisions, the budget directive, and the MIP restatement.
- `src/sections.rs` — choosing a CIK's filings in fiscal-year order, and their ids.
- `src/text.rs` — decimal rendering, ordering, trimming, integer parsing and
  separator rewriting over `Seq<char>`.
- `src/laws.rs` — properties spanning several functions.
- `app/` — the command-line program: fixture I/O, JSON (de)serialisation, the
  Converge engine and the trait impls that plug the library into it.
