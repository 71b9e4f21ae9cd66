//! The proposals a convergence context holds, as far as the risk-factor
//! logic reads them, and their indexing by `(CIK, fiscal year)`.

use vstd::prelude::*;
use crate::drift_map::{key_view, DriftMap};
use crate::filing::{
    count_key, language_key, DriftKeyView, RiskFactorDrift, RiskFactorLanguageDrift,
};

verus! {

/// What a proposal's content was read as.
#[derive(Debug)]
pub enum Proposal {
    /// A year-over-year heading-count drift.
    CountDrift(RiskFactorDrift),
    /// A year-over-year heading-language drift.
    LanguageDrift(RiskFactorLanguageDrift),
    /// Any other content.
    Other,
}

/// The count drifts of `ps` by key; a later proposal under a key replaces an
/// earlier one.
pub open spec fn count_index(ps: Seq<Proposal>) -> Map<DriftKeyView, RiskFactorDrift>
    decreases ps.len(),
{
    if ps.len() == 0 {
        Map::empty()
    } else {
        let rest = count_index(ps.drop_last());
        match ps.last() {
            Proposal::CountDrift(d) => rest.insert(count_key(d), d),
            _ => rest,
        }
    }
}

/// The language drifts of `ps` by key; a later proposal under a key replaces
/// an earlier one.
pub open spec fn language_index(ps: Seq<Proposal>) -> Map<DriftKeyView, RiskFactorLanguageDrift>
    decreases ps.len(),
{
    if ps.len() == 0 {
        Map::empty()
    } else {
        let rest = language_index(ps.drop_last());
        match ps.last() {
            Proposal::LanguageDrift(d) => rest.insert(language_key(d), d),
            _ => rest,
        }
    }
}

/// Sorts the proposals into the count drifts and the language drifts, each
/// keyed by its current filing's `(CIK, fiscal year)`.
pub fn index_drifts(proposals: Vec<Proposal>) -> (r: (
    DriftMap<RiskFactorDrift>,
    DriftMap<RiskFactorLanguageDrift>,
))
    ensures
        r.0@ == count_index(proposals@),
        r.1@ == language_index(proposals@),
{
    let ghost ps = proposals@;
    let mut counts: DriftMap<RiskFactorDrift> = DriftMap::new();
    let mut langs: DriftMap<RiskFactorLanguageDrift> = DriftMap::new();
    assert(ps.take(0) =~= Seq::<Proposal>::empty());
    for p in it: proposals.into_iter()
        invariant
            it.seq() == ps,
            counts@ == count_index(ps.take(it.index() as int)),
            langs@ == language_index(ps.take(it.index() as int)),
    {
        let ghost j = it.index() as int;
        assert(ps.take(j + 1).drop_last() =~= ps.take(j));
        assert(ps.take(j + 1).last() == p);
        match p {
            Proposal::CountDrift(d) => {
                let key = (String::from_str(d.current.cik.as_str()), d.current.fiscal_year);
                assert(key_view(key) == count_key(d));
                counts.insert(key, d);
            },
            Proposal::LanguageDrift(d) => {
                let key = (String::from_str(d.current.cik.as_str()), d.current.fiscal_year);
                assert(key_view(key) == language_key(d));
                langs.insert(key, d);
            },
            Proposal::Other => {},
        }
    }
    assert(ps.take(ps.len() as int) =~= ps);
    (counts, langs)
}

}
