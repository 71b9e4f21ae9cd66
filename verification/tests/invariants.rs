use fathom_sparc::{
    Cik, FilingId, FormType, InvariantResult, Proposal, RiskFactorDrift,
    RiskFactorLanguageDrift, RiskFactorMassConservationInvariant,
};

fn filing(cik: &str, fy: u16) -> FilingId {
    FilingId {
        cik: Cik::new(cik),
        form: FormType::TenK,
        fiscal_year: fy,
    }
}

fn churn(jaccard: f64) -> i64 {
    ((1.0 - jaccard) * 100.0).round() as i64
}

fn count_fact(cik: &str, fy: u16, prior_count: usize, current_count: usize) -> Proposal {
    Proposal::CountDrift(RiskFactorDrift {
        current: filing(cik, fy),
        prior: filing(cik, fy - 1),
        current_count,
        prior_count,
        delta: current_count as i32 - prior_count as i32,
    })
}

fn lang_fact(cik: &str, fy: u16, added: usize, removed: usize) -> Proposal {
    Proposal::LanguageDrift(RiskFactorLanguageDrift {
        current: filing(cik, fy),
        prior: filing(cik, fy - 1),
        identical_count: 20,
        churn_value: churn(0.8),
        added: (0..added).map(|i| format!("a-{i}")).collect(),
        removed: (0..removed).map(|i| format!("r-{i}")).collect(),
    })
}

#[test]
fn passes_when_identity_holds() {
    // delta = -1 → added = 6, removed = 7, diff = -1 ✓
    let proposals = vec![
        count_fact("0000320193", 2025, 28, 27),
        lang_fact("0000320193", 2025, 6, 7),
    ];
    assert!(RiskFactorMassConservationInvariant.check(proposals).is_ok());
}

#[test]
fn passes_when_only_count_present() {
    let proposals = vec![count_fact("0000320193", 2025, 28, 27)];
    assert!(RiskFactorMassConservationInvariant.check(proposals).is_ok());
}

#[test]
fn violates_when_identity_breaks() {
    // delta = -1 but language reports added=6, removed=8 → diff = -2 ≠ -1
    let proposals = vec![
        count_fact("0000320193", 2025, 28, 27),
        lang_fact("0000320193", 2025, 6, 8),
    ];
    let result = RiskFactorMassConservationInvariant.check(proposals);
    assert!(result.is_violated());
    if let InvariantResult::Violated(v) = result {
        assert!(v.reason.contains("mass conservation"));
        assert!(v.reason.contains("0000320193"));
    }
}

#[test]
fn violates_when_count_grows_but_language_does_not() {
    let proposals = vec![
        count_fact("0000789019", 2025, 30, 35), // delta = +5
        lang_fact("0000789019", 2025, 2, 0),    // diff = +2
    ];
    assert!(RiskFactorMassConservationInvariant
        .check(proposals)
        .is_violated());
}

#[test]
fn violation_reason_reports_both_sides() {
    let proposals = vec![
        count_fact("0000320193", 2025, 28, 27),
        lang_fact("0000320193", 2025, 6, 8),
    ];
    match RiskFactorMassConservationInvariant.check(proposals) {
        InvariantResult::Violated(v) => {
            assert_eq!(
                v.reason,
                "mass conservation violated for CIK 0000320193 FY2025: count delta = -1, \
                 language (added - removed) = (6 - 8) = -2"
            );
            assert!(v.fact_ids.is_empty());
        }
        InvariantResult::Holds => panic!("expected a violation"),
    }
}

#[test]
fn pairs_are_matched_by_cik_and_year() {
    // Same CIK, different years: nothing to compare, so nothing is violated.
    let proposals = vec![
        count_fact("0000320193", 2025, 28, 27),
        lang_fact("0000320193", 2024, 6, 8),
        lang_fact("0000789019", 2025, 9, 0),
    ];
    assert!(RiskFactorMassConservationInvariant.check(proposals).is_ok());
}

#[test]
fn later_proposal_replaces_earlier_under_same_key() {
    // The first language drift would violate; the later one under the same
    // key replaces it and agrees with the count.
    let proposals = vec![
        count_fact("0000320193", 2025, 28, 27),
        lang_fact("0000320193", 2025, 6, 8),
        lang_fact("0000320193", 2025, 6, 7),
        Proposal::Other,
    ];
    assert!(RiskFactorMassConservationInvariant.check(proposals).is_ok());
    // And the other way round.
    let proposals = vec![
        count_fact("0000320193", 2025, 28, 27),
        lang_fact("0000320193", 2025, 6, 7),
        lang_fact("0000320193", 2025, 6, 8),
    ];
    assert!(RiskFactorMassConservationInvariant.check(proposals).is_violated());
}

#[test]
fn consistent_heading_sets_conserve_mass() {
    // 21 identical headings, 6 added, 7 removed: 27 now, 28 before.
    let proposals = vec![
        count_fact("0000320193", 2025, 21 + 7, 21 + 6),
        lang_fact("0000320193", 2025, 6, 7),
    ];
    assert!(RiskFactorMassConservationInvariant.check(proposals).is_ok());
}

#[test]
fn invariant_metadata() {
    let inv = RiskFactorMassConservationInvariant;
    assert_eq!(inv.name(), "risk_factor_mass_conservation");
    assert_eq!(inv.class(), fathom_sparc::InvariantClass::Acceptance);
    assert!(inv.check(Vec::new()).is_ok());
}
