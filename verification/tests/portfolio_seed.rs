use fathom_sparc::{
    build_mip_problem, build_request, mip_seed_id, portfolio_seed_id, read_budget_directive,
    variable_name, Cik, ContextKey, DriftMap, FactText, FilingId, FormType,
    PortfolioCoverageSeedSuggestor, Proposal, RiskFactorDrift, RiskFactorLanguageDrift,
    REQUEST_ID,
};

fn filing(cik: &str, fy: u16) -> FilingId {
    FilingId {
        cik: Cik::new(cik),
        form: FormType::TenK,
        fiscal_year: fy,
    }
}

fn churn(jaccard: f64) -> i64 {
    ((1.0 - jaccard) * 100.0).round() as i64
}

fn count(cik: &str, fy: u16, current_count: usize, delta: i32) -> RiskFactorDrift {
    let prior_count = (current_count as i32 - delta).max(0) as usize;
    RiskFactorDrift {
        current: filing(cik, fy),
        prior: filing(cik, fy - 1),
        current_count,
        prior_count,
        delta,
    }
}

fn lang(cik: &str, fy: u16, jaccard: f64) -> RiskFactorLanguageDrift {
    RiskFactorLanguageDrift {
        current: filing(cik, fy),
        prior: filing(cik, fy - 1),
        identical_count: 20,
        churn_value: churn(jaccard),
        added: vec!["a".into()],
        removed: vec!["r".into()],
    }
}

#[test]
fn builds_one_item_per_paired_cik() {
    let mut counts = DriftMap::new();
    let mut langs = DriftMap::new();
    // 3 CIKs all with both signals.
    for (cik, fy, c, j) in [
        ("0000320193", 2025, 27, 0.618),
        ("0000789019", 2025, 20, 0.55),
        ("0001045810", 2026, 23, 0.80),
    ] {
        counts.insert((cik.to_string(), fy), count(cik, fy, c, -1));
        langs.insert((cik.to_string(), fy), lang(cik, fy, j));
    }
    let req = build_request("test", &counts, &langs);
    assert_eq!(req.items.len(), 3);
    // Deterministic order — sorted by CIK then year.
    assert_eq!(req.items[0].label, "0000320193::FY2025");
    assert_eq!(req.items[1].label, "0000789019::FY2025");
    assert_eq!(req.items[2].label, "0001045810::FY2026");
    // Apple weight = current_count = 27.
    assert_eq!(req.items[0].weight, 27);
    // Apple value = round((1 - 0.618) * 100) = 38.
    assert_eq!(req.items[0].value, 38);
    // Default budget = sum of weights (27 + 20 + 23 = 70).
    assert_eq!(req.budget, 70);
}

#[test]
fn skips_ciks_missing_either_signal() {
    let mut counts = DriftMap::new();
    let mut langs = DriftMap::new();
    counts.insert(
        ("0000000001".to_string(), 2025),
        count("0000000001", 2025, 10, 0),
    );
    // Different CIK has language drift but no count drift — filtered out.
    langs.insert(
        ("0000000002".to_string(), 2025),
        lang("0000000002", 2025, 0.5),
    );
    let req = build_request("test", &counts, &langs);
    assert!(req.items.is_empty());
}

#[test]
fn higher_churn_higher_value() {
    let mut counts = DriftMap::new();
    let mut langs = DriftMap::new();
    // A: jaccard 0.9 → low churn → value ~10.
    // B: jaccard 0.5 → high churn → value 50.
    for (cik, j) in [("A", 0.9), ("B", 0.5)] {
        counts.insert((cik.to_string(), 2025), count(cik, 2025, 20, -1));
        langs.insert((cik.to_string(), 2025), lang(cik, 2025, j));
    }
    let req = build_request("t", &counts, &langs);
    let a = req.items.iter().find(|i| i.label.starts_with("A::")).unwrap();
    let b = req.items.iter().find(|i| i.label.starts_with("B::")).unwrap();
    assert!(b.value > a.value, "B (churn) should outvalue A (stable)");
}

#[test]
fn suggestor_metadata() {
    let s = PortfolioCoverageSeedSuggestor::new();
    assert_eq!(s.name(), "portfolio_coverage_seed");
    assert_eq!(
        s.dependencies(),
        vec![ContextKey::Proposals, ContextKey::Constraints]
    );
}

// ------------------------------------------------------------------ own tests

fn fact(id: &str, content: &str) -> FactText {
    FactText {
        id: id.to_string(),
        content: content.to_string(),
    }
}

fn paired(cik: &str, fy: u16, c: usize, jaccard: f64) -> Vec<Proposal> {
    vec![
        Proposal::CountDrift(count(cik, fy, c, -1)),
        Proposal::LanguageDrift(lang(cik, fy, jaccard)),
    ]
}

#[test]
fn request_order_does_not_depend_on_insertion_order() {
    let keys = [("B", 2024u16), ("A", 2026), ("A", 2025), ("AB", 2020), ("a", 2000)];
    let mut c1 = DriftMap::new();
    let mut l1 = DriftMap::new();
    for (cik, fy) in keys {
        c1.insert((cik.to_string(), fy), count(cik, fy, 5, 0));
        l1.insert((cik.to_string(), fy), lang(cik, fy, 0.5));
    }
    let mut c2 = DriftMap::new();
    let mut l2 = DriftMap::new();
    for (cik, fy) in keys.iter().rev() {
        l2.insert((cik.to_string(), *fy), lang(cik, *fy, 0.5));
        c2.insert((cik.to_string(), *fy), count(cik, *fy, 5, 0));
    }
    let r1 = build_request("x", &c1, &l1);
    let r2 = build_request("x", &c2, &l2);
    let labels1: Vec<&str> = r1.items.iter().map(|i| i.label.as_str()).collect();
    let labels2: Vec<&str> = r2.items.iter().map(|i| i.label.as_str()).collect();
    assert_eq!(
        labels1,
        vec!["A::FY2025", "A::FY2026", "AB::FY2020", "B::FY2024", "a::FY2000"]
    );
    assert_eq!(labels1, labels2);
    assert_eq!(r1.id, "x");
    assert_eq!(r1.budget, 25);
}

#[test]
fn drift_map_insert_replaces() {
    let mut counts = DriftMap::new();
    counts.insert(("A".to_string(), 2025), count("A", 2025, 5, 0));
    counts.insert(("A".to_string(), 2025), count("A", 2025, 9, 0));
    assert_eq!(counts.len(), 1);
    assert_eq!(counts.get(&("A".to_string(), 2025)).unwrap().current_count, 9);
    assert!(counts.get(&("A".to_string(), 2024)).is_none());
    assert!(counts.contains_key(&("A".to_string(), 2025)));
    let mut langs = DriftMap::new();
    langs.insert(("A".to_string(), 2025), lang("A", 2025, 0.5));
    let req = build_request("t", &counts, &langs);
    assert_eq!(req.items.len(), 1);
    assert_eq!(req.items[0].weight, 9);
}

#[test]
fn default_budget_saturates() {
    let mut counts = DriftMap::new();
    let mut langs = DriftMap::new();
    let huge = i64::MAX as usize;
    for cik in ["A", "B"] {
        counts.insert((cik.to_string(), 2025), count(cik, 2025, huge, 0));
        langs.insert((cik.to_string(), 2025), lang(cik, 2025, 0.5));
    }
    let req = build_request("t", &counts, &langs);
    assert_eq!(req.items[0].weight, i64::MAX);
    assert_eq!(req.budget, i64::MAX);
}

#[test]
fn seed_ids_follow_request_id() {
    assert_eq!(
        portfolio_seed_id(REQUEST_ID),
        "portfolio-request:fathom-sparc:portfolio:risk-coverage"
    );
    assert_eq!(mip_seed_id("r1"), "mip-request:r1");
}

#[test]
fn accepts_needs_a_paired_cik_and_no_seed() {
    let s = PortfolioCoverageSeedSuggestor::default();
    assert!(s.accepts(&vec![], paired("0000320193", 2025, 27, 0.6)));
    assert!(!s.accepts(&vec![], vec![]));
    let only_count = vec![Proposal::CountDrift(count("A", 2025, 3, 0))];
    assert!(!s.accepts(&vec![], only_count));
    let seeded = vec![fact(&portfolio_seed_id(REQUEST_ID), "{}")];
    assert!(!s.accepts(&seeded, paired("0000320193", 2025, 27, 0.6)));
    let other_seed = vec![fact("portfolio-request:other", "{}")];
    assert!(s.accepts(&other_seed, paired("0000320193", 2025, 27, 0.6)));
}

#[test]
fn execute_uses_budget_directive() {
    let s = PortfolioCoverageSeedSuggestor::new();
    let mut ps = paired("0000320193", 2025, 27, 0.618);
    ps.extend(paired("0000789019", 2025, 20, 0.55));
    let constraints = vec![
        fact("unrelated", "5"),
        fact("portfolio-budget:risk-coverage", "  23\n"),
        fact("portfolio-budget:risk-coverage", "99"),
    ];
    let req = s.execute(ps, &constraints).expect("request");
    assert_eq!(req.id, REQUEST_ID);
    assert_eq!(req.items.len(), 2);
    assert_eq!(req.budget, 23);
}

#[test]
fn execute_keeps_default_budget_without_directive() {
    let s = PortfolioCoverageSeedSuggestor::new();
    let ps = paired("0000320193", 2025, 27, 0.618);
    let req = s.execute(ps, &vec![fact("portfolio-budget:risk-coverage", "lots")]).unwrap();
    assert_eq!(req.budget, 27);
    let req = s.execute(paired("0000320193", 2025, 27, 0.618), &vec![]).unwrap();
    assert_eq!(req.budget, 27);
    assert!(s.execute(vec![Proposal::Other], &vec![]).is_none());
}

#[test]
fn budget_directive_parsing() {
    let d = |c: &str| read_budget_directive(&vec![fact("portfolio-budget:risk-coverage", c)]);
    assert_eq!(d("42"), Some(42));
    assert_eq!(d(" \t42 \n"), Some(42));
    assert_eq!(d("\u{3000}15\u{2003}"), Some(15));
    assert_eq!(d("+7"), Some(7));
    assert_eq!(d("-12"), Some(-12));
    assert_eq!(d("-9223372036854775808"), Some(i64::MIN));
    assert_eq!(d("9223372036854775807"), Some(i64::MAX));
    assert_eq!(d("9223372036854775808"), None);
    assert_eq!(d("99999999999999999999999"), None);
    assert_eq!(d("4 2"), None);
    assert_eq!(d(""), None);
    assert_eq!(d("-"), None);
    assert_eq!(d("+-1"), None);
    assert_eq!(d("1_000"), None);
    assert_eq!(read_budget_directive(&vec![fact("x", "1")]), None);
    assert_eq!(read_budget_directive(&vec![]), None);
    // Matches `str::trim` + `str::parse::<i64>`.
    for c in ["12", " 12 ", "\u{85}3", "0x10", "007", "-0", "\u{a0}-5\u{a0}"] {
        assert_eq!(d(c), c.trim().parse::<i64>().ok(), "{c:?}");
    }
}

#[test]
fn mip_problem_mirrors_request() {
    let mut counts = DriftMap::new();
    let mut langs = DriftMap::new();
    for (cik, fy, c, j) in [("0000320193", 2025, 27, 0.618), ("0000789019", 2025, 20, 0.55)] {
        counts.insert((cik.to_string(), fy), count(cik, fy, c, -1));
        langs.insert((cik.to_string(), fy), lang(cik, fy, j));
    }
    let mut req = build_request("mip", &counts, &langs);
    req.budget = 30;
    let mip = build_mip_problem(&req);
    assert_eq!(mip.id, "mip");
    assert_eq!(mip.budget, 30);
    assert_eq!(mip.variables, vec!["x_0000320193_FY2025", "x_0000789019_FY2025"]);
    assert_eq!(mip.budget_terms[0].coeff, 27);
    assert_eq!(mip.budget_terms[1].coeff, 20);
    assert_eq!(mip.objective_terms[0].coeff, 38);
    assert_eq!(mip.objective_terms[1].coeff, 45);
    assert_eq!(mip.objective_terms[1].var, "x_0000789019_FY2025");
}

#[test]
fn variable_name_replaces_each_double_colon() {
    assert_eq!(variable_name("a::b::c"), "x_a_b_c");
    assert_eq!(variable_name(":::"), "x__:");
    assert_eq!(variable_name("plain"), "x_plain");
    for l in ["a::b", "::::", "x:y", ":::a::"] {
        assert_eq!(variable_name(l), format!("x_{}", l.replace("::", "_")));
    }
}
