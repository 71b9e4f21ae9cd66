use fathom_sparc::{
    context_key_name, filing_fact_id, sections_for_cik, Cik, ContextKey, FilingId, FormType,
    MIN_SECTIONS_FOR_DRIFT,
};

fn filing(cik: &str, fy: u16) -> FilingId {
    FilingId {
        cik: Cik::new(cik),
        form: FormType::TenK,
        fiscal_year: fy,
    }
}

#[test]
fn sections_keep_only_the_cik_sorted_stably_by_year() {
    let loaded = vec![
        (filing("A", 2025), "a25"),
        (filing("B", 2020), "b20"),
        (filing("A", 2024), "a24-first"),
        (filing("A", 2023), "a23"),
        (filing("A", 2024), "a24-second"),
    ];
    let out = sections_for_cik(loaded, &Cik::new("A"));
    let payloads: Vec<&str> = out.iter().map(|(_, p)| *p).collect();
    assert_eq!(payloads, vec!["a23", "a24-first", "a24-second", "a25"]);
    assert!(out.iter().all(|(f, _)| f.cik == Cik::new("A")));
    assert!(sections_for_cik(vec![(filing("B", 2020), ())], &Cik::new("A")).is_empty());
    assert_eq!(MIN_SECTIONS_FOR_DRIFT, 2);
}

#[test]
fn filing_ids_name_cik_and_year() {
    assert_eq!(filing_fact_id(&filing("0000320193", 2025)), "filing::0000320193::2025");
    assert_eq!(filing_fact_id(&filing("X", 0)), "filing::X::0");
}

#[test]
fn context_keys_display_by_name() {
    assert_eq!(context_key_name(ContextKey::Proposals), "Proposals");
    assert_eq!(context_key_name(ContextKey::ConsensusOutcomes), "ConsensusOutcomes");
    assert_eq!(context_key_name(ContextKey::Seeds), "Seeds");
}
