//! Properties of the library that span its functions.

use vstd::prelude::*;
use crate::filing::{language_key, count_key, DriftKeyView, FilingId, RiskFactorDrift, RiskFactorLanguageDrift};
use crate::invariants::{conserves_mass, is_mass_conservation_outcome, InvariantResult};
use crate::text::{all_digits, digit_char, digits_value, int_text, is_ascii_digit, nat_text,
    parse_i64_text, unsigned_part};
use crate::portfolio_seed::{
    covers, is_coverage_order, item_for, items_follow, key_lt, lemma_key_lt_strict_total,
    strictly_sorted, total_weight, would_accept, yields_request, seeded, PortfolioItem,
    label_text, REQUEST_ID,
};
use crate::context::FactText;
use crate::proposals::{count_index, language_index, Proposal};
use crate::sections::{filing_fact_text, insert_by_year, sections_by_year};

verus! {

/// Two strictly sorted key sequences holding the same keys are the same sequence.
pub proof fn law_sorted_keys_are_unique(a: Seq<DriftKeyView>, b: Seq<DriftKeyView>)
    requires
        strictly_sorted(a),
        strictly_sorted(b),
        forall|k: DriftKeyView| a.contains(k) <==> b.contains(k),
    ensures
        a == b,
    decreases a.len() + b.len(),
{
    if a.len() == 0 {
        if b.len() > 0 {
            assert(b.contains(b[0]));
        }
        assert(a =~= b);
    } else if b.len() == 0 {
        assert(a.contains(a[0]));
    } else {
        // The first elements are both the least key.
        assert(a.contains(a[0]) && b.contains(b[0]));
        let i = choose|i: int| 0 <= i < b.len() && b[i] == a[0];
        let j = choose|j: int| 0 <= j < a.len() && a[j] == b[0];
        if i > 0 {
            assert(key_lt(b[0], b[i]));
            if j > 0 {
                assert(key_lt(a[0], a[j]));
                lemma_key_lt_strict_total(a[0], b[0], a[0]);
            } else {
                lemma_key_lt_strict_total(a[0], a[0], a[0]);
            }
        }
        assert(a[0] == b[0]);
        let a1 = a.drop_first();
        let b1 = b.drop_first();
        assert forall|k: DriftKeyView| a1.contains(k) <==> b1.contains(k) by {
            if a1.contains(k) {
                let t = choose|t: int| 0 <= t < a1.len() && a1[t] == k;
                assert(a[t + 1] == k);
                assert(key_lt(a[0], a[t + 1]));
                lemma_key_lt_strict_total(k, k, k);
                assert(a.contains(k));
                assert(b.contains(k));
                let u = choose|u: int| 0 <= u < b.len() && b[u] == k;
                assert(u != 0);
                assert(b1[u - 1] == k);
            }
            if b1.contains(k) {
                let t = choose|t: int| 0 <= t < b1.len() && b1[t] == k;
                assert(b[t + 1] == k);
                assert(key_lt(b[0], b[t + 1]));
                lemma_key_lt_strict_total(k, k, k);
                assert(b.contains(k));
                assert(a.contains(k));
                let u = choose|u: int| 0 <= u < a.len() && a[u] == k;
                assert(u != 0);
                assert(a1[u - 1] == k);
            }
        }
        assert(strictly_sorted(a1)) by {
            assert forall|x: int, y: int| 0 <= x < y < a1.len() implies key_lt(
                #[trigger] a1[x],
                #[trigger] a1[y],
            ) by {
                assert(a1[x] == a[x + 1] && a1[y] == a[y + 1]);
            }
        }
        assert(strictly_sorted(b1)) by {
            assert forall|x: int, y: int| 0 <= x < y < b1.len() implies key_lt(
                #[trigger] b1[x],
                #[trigger] b1[y],
            ) by {
                assert(b1[x] == b[x + 1] && b1[y] == b[y + 1]);
            }
        }
        law_sorted_keys_are_unique(a1, b1);
        assert(a =~= seq![a[0]] + a1);
        assert(b =~= seq![b[0]] + b1);
    }
}

/// The coverage items are determined by the drift maps' contents alone: any
/// two item lists that cover the same maps carry the same labels, weights and
/// values in the same order, whatever order the drifts arrived in.
pub proof fn law_coverage_items_are_determined(
    items1: Seq<PortfolioItem>,
    items2: Seq<PortfolioItem>,
    counts: Map<DriftKeyView, RiskFactorDrift>,
    langs: Map<DriftKeyView, RiskFactorLanguageDrift>,
)
    requires
        covers(items1, counts, langs),
        covers(items2, counts, langs),
    ensures
        items1.len() == items2.len(),
        forall|i: int|
            0 <= i < items1.len() ==> {
                &&& (#[trigger] items1[i]).label@ == items2[i].label@
                &&& items1[i].weight == items2[i].weight
                &&& items1[i].value == items2[i].value
            },
{
    let ks1 = choose|ks: Seq<DriftKeyView>|
        #[trigger] is_coverage_order(ks, counts, langs) && items_follow(items1, ks, counts, langs);
    let ks2 = choose|ks: Seq<DriftKeyView>|
        #[trigger] is_coverage_order(ks, counts, langs) && items_follow(items2, ks, counts, langs);
    assert forall|k: DriftKeyView| ks1.contains(k) <==> ks2.contains(k) by {
        assert(ks1.contains(k) <==> ks2.contains(k));
    }
    law_sorted_keys_are_unique(ks1, ks2);
    assert forall|i: int| 0 <= i < items1.len() implies {
        &&& (#[trigger] items1[i]).label@ == items2[i].label@
        &&& items1[i].weight == items2[i].weight
        &&& items1[i].value == items2[i].value
    } by {
        assert(item_for(items1[i], ks1[i], counts, langs));
        assert(item_for(items2[i], ks2[i], counts, langs));
    }
}

/// The sum of the item weights, without clamping.
pub open spec fn weight_sum(items: Seq<PortfolioItem>) -> int
    decreases items.len(),
{
    if items.len() == 0 {
        0
    } else {
        weight_sum(items.drop_last()) + items.last().weight
    }
}

/// With non-negative weights whose sum fits in `i64`, the default budget is
/// exactly the sum of the weights.
pub proof fn law_default_budget_is_weight_sum(items: Seq<PortfolioItem>)
    requires
        forall|i: int| 0 <= i < items.len() ==> (#[trigger] items[i]).weight >= 0,
        weight_sum(items) <= i64::MAX,
    ensures
        total_weight(items) == weight_sum(items),
    decreases items.len(),
{
    if items.len() > 0 {
        let rest = items.drop_last();
        assert forall|i: int| 0 <= i < rest.len() implies (#[trigger] rest[i]).weight >= 0 by {
            assert(rest[i] == items[i]);
        }
        assert(items.last().weight >= 0) by {
            assert(items.last() == items[items.len() - 1]);
        }
        lemma_weight_sum_nonneg(rest);
        law_default_budget_is_weight_sum(rest);
    }
}

proof fn lemma_weight_sum_nonneg(items: Seq<PortfolioItem>)
    requires
        forall|i: int| 0 <= i < items.len() ==> (#[trigger] items[i]).weight >= 0,
    ensures
        weight_sum(items) >= 0,
    decreases items.len(),
{
    if items.len() > 0 {
        let rest = items.drop_last();
        assert forall|i: int| 0 <= i < rest.len() implies (#[trigger] rest[i]).weight >= 0 by {
            assert(rest[i] == items[i]);
        }
        lemma_weight_sum_nonneg(rest);
        assert(items.last() == items[items.len() - 1]);
    }
}

/// Two drift facts computed from the same pair of heading sets always pass
/// the mass-conservation check: when the current count is the identical
/// headings plus those added, the prior count the identical headings plus
/// those removed, and the delta their difference, then added minus removed is
/// the delta (for lists shorter than `i32::MAX`).
pub proof fn law_consistent_drifts_conserve_mass(
    count: RiskFactorDrift,
    lang: RiskFactorLanguageDrift,
)
    requires
        lang.added@.len() <= i32::MAX,
        lang.removed@.len() <= i32::MAX,
        count.current_count == lang.identical_count + lang.added@.len(),
        count.prior_count == lang.identical_count + lang.removed@.len(),
        count.delta == count.current_count - count.prior_count,
    ensures
        conserves_mass(count, lang),
{
}

/// Of several drift proposals under one key, the last one is the one indexed.
pub proof fn law_last_proposal_wins(ps: Seq<Proposal>, d: RiskFactorDrift, e: RiskFactorLanguageDrift)
    ensures
        count_index(ps.push(Proposal::CountDrift(d)))[count_key(d)] == d,
        count_index(ps.push(Proposal::CountDrift(d))).contains_key(count_key(d)),
        language_index(ps.push(Proposal::LanguageDrift(e)))[language_key(e)] == e,
        language_index(ps.push(Proposal::LanguageDrift(e))).contains_key(language_key(e)),
{
    assert(ps.push(Proposal::CountDrift(d)).drop_last() =~= ps);
    assert(ps.push(Proposal::LanguageDrift(e)).drop_last() =~= ps);
}

/// A suggestor that accepts always emits a request when it runs, and one that
/// has not seeded its request yet accepts exactly when running would emit one.
pub proof fn law_accepting_means_a_request_is_emitted(seeds: Seq<FactText>, ps: Seq<Proposal>)
    ensures
        would_accept(seeds, ps) ==> yields_request(ps),
        !seeded(seeds) ==> (would_accept(seeds, ps) <==> yields_request(ps)),
        seeded(seeds) ==> !would_accept(seeds, ps),
{
}

/// Nondecreasing in fiscal year.
pub open spec fn by_year<T>(s: Seq<(FilingId, T)>) -> bool {
    forall|i: int, j: int|
        0 <= i <= j < s.len() ==> (#[trigger] s[i]).0.fiscal_year <= (#[trigger] s[j]).0.fiscal_year
}

proof fn lemma_insert_by_year<T>(s: Seq<(FilingId, T)>, x: (FilingId, T))
    requires
        by_year(s),
    ensures
        by_year(insert_by_year(s, x)),
        insert_by_year(s, x).len() == s.len() + 1,
        forall|e: (FilingId, T)| #[trigger] insert_by_year(s, x).contains(e) <==> (s.contains(e) || e == x),
    decreases s.len(),
{
    if s.len() > 0 && s.last().0.fiscal_year > x.0.fiscal_year {
        let d = s.drop_last();
        assert(by_year(d)) by {
            assert forall|i: int, j: int| 0 <= i <= j < d.len() implies (#[trigger] d[i]).0.fiscal_year
                <= (#[trigger] d[j]).0.fiscal_year by {
                assert(d[i] == s[i] && d[j] == s[j]);
            }
        }
        lemma_insert_by_year(d, x);
        let r = insert_by_year(d, x);
        let last = s.last();
        assert(last == s[s.len() - 1]);
        assert forall|i: int| 0 <= i < r.len() implies (#[trigger] r[i]).0.fiscal_year
            <= last.0.fiscal_year by {
            assert(r.contains(r[i]));
            if r[i] != x {
                assert(d.contains(r[i]));
                let t = choose|t: int| 0 <= t < d.len() && d[t] == r[i];
                assert(s[t] == d[t]);
            }
        }
        assert(by_year(r.push(last))) by {
            let q = r.push(last);
            assert forall|i: int, j: int| 0 <= i <= j < q.len() implies (#[trigger] q[i]).0.fiscal_year
                <= (#[trigger] q[j]).0.fiscal_year by {
                if j < r.len() {
                    assert(q[i] == r[i] && q[j] == r[j]);
                } else if i < r.len() {
                    assert(q[i] == r[i]);
                }
            }
        }
        assert forall|e: (FilingId, T)| #[trigger] r.push(last).contains(e) <==> (s.contains(e) || e
            == x) by {
            if r.push(last).contains(e) {
                let t = choose|t: int| 0 <= t < r.push(last).len() && r.push(last)[t] == e;
                if t < r.len() {
                    assert(r.contains(e));
                    if e != x {
                        let u = choose|u: int| 0 <= u < d.len() && d[u] == e;
                        assert(s[u] == e);
                    }
                }
            }
            if s.contains(e) {
                let t = choose|t: int| 0 <= t < s.len() && s[t] == e;
                if t < s.len() - 1 {
                    assert(d[t] == e);
                    assert(r.contains(e));
                    let u = choose|u: int| 0 <= u < r.len() && r[u] == e;
                    assert(r.push(last)[u] == e);
                } else {
                    assert(r.push(last)[r.len() as int] == e);
                }
            }
            if e == x {
                assert(r.contains(e));
                let u = choose|u: int| 0 <= u < r.len() && r[u] == e;
                assert(r.push(last)[u] == e);
            }
        }
    } else if s.len() > 0 {
        let q = s.push(x);
        assert(s.last() == s[s.len() - 1]);
        assert(by_year(q)) by {
            assert forall|i: int, j: int| 0 <= i <= j < q.len() implies (#[trigger] q[i]).0.fiscal_year
                <= (#[trigger] q[j]).0.fiscal_year by {
                if j < s.len() {
                    assert(q[i] == s[i] && q[j] == s[j]);
                } else if i < s.len() {
                    assert(q[i] == s[i]);
                    assert(s[i].0.fiscal_year <= s[s.len() - 1].0.fiscal_year);
                }
            }
        }
        assert forall|e: (FilingId, T)| #[trigger] q.contains(e) <==> (s.contains(e) || e == x) by {
            if q.contains(e) {
                let t = choose|t: int| 0 <= t < q.len() && q[t] == e;
                if t < s.len() {
                    assert(s[t] == e);
                }
            }
            if s.contains(e) {
                let t = choose|t: int| 0 <= t < s.len() && s[t] == e;
                assert(q[t] == e);
            }
            if e == x {
                assert(q[s.len() as int] == e);
            }
        }
    } else {
        let q = seq![x];
        assert forall|e: (FilingId, T)| #[trigger] q.contains(e) <==> (s.contains(e) || e == x) by {
            if e == x {
                assert(q[0] == e);
            }
        }
    }
}

/// The sections an analysis runs over are those of the requested CIK only,
/// one per loaded entry of that CIK, in nondecreasing fiscal-year order.
pub proof fn law_sections_are_the_ciks_in_year_order<T>(s: Seq<(FilingId, T)>, cik: Seq<char>)
    ensures
        by_year(sections_by_year(s, cik)),
        forall|e: (FilingId, T)| #[trigger]
            sections_by_year(s, cik).contains(e) <==> (s.contains(e) && e.0.cik@ == cik),
    decreases s.len(),
{
    if s.len() > 0 {
        let d = s.drop_last();
        law_sections_are_the_ciks_in_year_order(d, cik);
        let rest = sections_by_year(d, cik);
        let x = s.last();
        assert(x == s[s.len() - 1]);
        if x.0.cik@ == cik {
            lemma_insert_by_year(rest, x);
        }
        assert forall|e: (FilingId, T)| #[trigger]
            sections_by_year(s, cik).contains(e) <==> (s.contains(e) && e.0.cik@ == cik) by {
            if s.contains(e) {
                let t = choose|t: int| 0 <= t < s.len() && s[t] == e;
                if t < s.len() - 1 {
                    assert(d[t] == e);
                    assert(d.contains(e));
                }
            }
            if d.contains(e) {
                let t = choose|t: int| 0 <= t < d.len() && d[t] == e;
                assert(s[t] == e);
            }
        }
    }
}


/// `item` is the coverage item of `k`, and `k` is present in both drift maps.
pub open spec fn is_item_of_shared_key(
    item: PortfolioItem,
    k: DriftKeyView,
    counts: Map<DriftKeyView, RiskFactorDrift>,
    langs: Map<DriftKeyView, RiskFactorLanguageDrift>,
) -> bool {
    &&& counts.contains_key(k)
    &&& langs.contains_key(k)
    &&& item.label@ == label_text(k)
    &&& item.weight == counts[k].current_count as i64
    &&& item.value == langs[k].churn_value
}

/// Item `i` is the coverage item of some key present in both drift maps.
pub open spec fn item_has_shared_key(
    items: Seq<PortfolioItem>,
    i: int,
    counts: Map<DriftKeyView, RiskFactorDrift>,
    langs: Map<DriftKeyView, RiskFactorLanguageDrift>,
) -> bool {
    exists|k: DriftKeyView| #[trigger] is_item_of_shared_key(items[i], k, counts, langs)
}

/// Every `(CIK, fiscal year)` present in both drift maps has a coverage item
/// with its label, heading count and churn, whatever the drifts hold; and
/// every item is the item of such a key.
pub proof fn law_coverage_items_are_exactly_the_shared_keys(
    items: Seq<PortfolioItem>,
    counts: Map<DriftKeyView, RiskFactorDrift>,
    langs: Map<DriftKeyView, RiskFactorLanguageDrift>,
)
    requires
        covers(items, counts, langs),
    ensures
        forall|k: DriftKeyView|
            #![trigger counts.contains_key(k), langs.contains_key(k)]
            counts.contains_key(k) && langs.contains_key(k) ==> exists|i: int|
                0 <= i < items.len() && is_item_of_shared_key(#[trigger] items[i], k, counts, langs),
        forall|i: int|
            0 <= i < items.len() ==> item_has_shared_key(items, i, counts, langs),
{
    let ks = choose|ks: Seq<DriftKeyView>|
        #[trigger] is_coverage_order(ks, counts, langs) && items_follow(items, ks, counts, langs);
    assert forall|k: DriftKeyView|
        #![trigger counts.contains_key(k), langs.contains_key(k)]
        counts.contains_key(k) && langs.contains_key(k) implies exists|i: int|
            0 <= i < items.len() && is_item_of_shared_key(#[trigger] items[i], k, counts, langs) by {
        assert(ks.contains(k));
        let t = choose|t: int| 0 <= t < ks.len() && ks[t] == k;
        assert(item_for(items[t], ks[t], counts, langs));
        assert(is_item_of_shared_key(items[t], k, counts, langs));
    }
    assert forall|i: int| 0 <= i < items.len() implies item_has_shared_key(items, i, counts, langs) by {
        assert(ks.contains(ks[i]));
        assert(item_for(items[i], ks[i], counts, langs));
        assert(is_item_of_shared_key(items[i], ks[i], counts, langs));
    }
}

/// The suggestor accepts exactly when its request is not yet seeded and some
/// `(CIK, fiscal year)` has both a count drift and a language drift, and
/// running it yields a request exactly when such a key exists.
pub proof fn law_accepts_exactly_when_a_key_has_both_drifts(seeds: Seq<FactText>, ps: Seq<Proposal>)
    ensures
        would_accept(seeds, ps) <==> (!seeded(seeds) && exists|k: DriftKeyView|
            #![trigger count_index(ps).contains_key(k), language_index(ps).contains_key(k)]
            count_index(ps).contains_key(k) && language_index(ps).contains_key(k)),
        yields_request(ps) <==> exists|k: DriftKeyView|
            #![trigger count_index(ps).contains_key(k), language_index(ps).contains_key(k)]
            count_index(ps).contains_key(k) && language_index(ps).contains_key(k),
{
    let c = count_index(ps);
    let l = language_index(ps);
    if exists|k: DriftKeyView|
        #![trigger c.contains_key(k), l.contains_key(k)]
        c.contains_key(k) && l.contains_key(k) {
        let k = choose|k: DriftKeyView|
            #![trigger c.contains_key(k), l.contains_key(k)]
            c.contains_key(k) && l.contains_key(k);
        assert(crate::portfolio_seed::has_both(c, l, k));
    }
    if yields_request(ps) {
        let k = choose|k: DriftKeyView| #[trigger] crate::portfolio_seed::has_both(c, l, k);
        assert(c.contains_key(k) && l.contains_key(k));
    }
}

/// With heading lists shorter than `i32::MAX`, the mass-conservation check
/// holds exactly when, at every shared `(CIK, fiscal year)`, the number of
/// headings added minus the number removed equals the count delta, signs
/// included; a violation names a shared key where they differ.
pub proof fn law_mass_check_compares_added_minus_removed(
    r: InvariantResult,
    counts: Map<DriftKeyView, RiskFactorDrift>,
    langs: Map<DriftKeyView, RiskFactorLanguageDrift>,
)
    requires
        is_mass_conservation_outcome(r, counts, langs),
        forall|k: DriftKeyView|
            #![trigger counts.contains_key(k), langs.contains_key(k)]
            counts.contains_key(k) && langs.contains_key(k) ==> langs[k].added@.len()
                <= i32::MAX && langs[k].removed@.len() <= i32::MAX,
    ensures
        r is Holds <==> forall|k: DriftKeyView|
            #![trigger counts.contains_key(k), langs.contains_key(k)]
            counts.contains_key(k) && langs.contains_key(k) ==> langs[k].added@.len() as int
                - langs[k].removed@.len() as int == counts[k].delta as int,
        r is Violated ==> exists|k: DriftKeyView|
            #![trigger counts.contains_key(k), langs.contains_key(k)]
            counts.contains_key(k) && langs.contains_key(k) && langs[k].added@.len() as int
                - langs[k].removed@.len() as int != counts[k].delta as int,
{
    assert forall|k: DriftKeyView|
        #![trigger counts.contains_key(k), langs.contains_key(k)]
        counts.contains_key(k) && langs.contains_key(k) implies (conserves_mass(
        counts[k],
        langs[k],
    ) <==> langs[k].added@.len() as int - langs[k].removed@.len() as int
        == counts[k].delta as int) by {
        lemma_short_lists_delta(langs[k], counts[k]);
    }
    if r is Violated {
        let v = r->Violated_0;
        let k = choose|k: DriftKeyView|
            #[trigger] counts.contains_key(k) && langs.contains_key(k) && !conserves_mass(
                counts[k],
                langs[k],
            ) && v.reason@ == crate::invariants::violation_text(counts[k], langs[k]);
        lemma_short_lists_delta(langs[k], counts[k]);
    }
}

proof fn lemma_short_lists_delta(lang: RiskFactorLanguageDrift, count: RiskFactorDrift)
    requires
        lang.added@.len() <= i32::MAX,
        lang.removed@.len() <= i32::MAX,
    ensures
        conserves_mass(count, lang) <==> lang.added@.len() as int - lang.removed@.len() as int
            == count.delta as int,
{
    let a = lang.added@.len() as i32;
    let b = lang.removed@.len() as i32;
    assert(a as int == lang.added@.len() as int);
    assert(b as int == lang.removed@.len() as int);
    assert(a.wrapping_sub(b) as int == a as int - b as int);
}

/// A seed, at any position, carrying `"portfolio-request:"` + the request id
/// means the request is seeded and the suggestor does not accept; with no such
/// seed, it is not seeded.
pub proof fn law_a_seeded_request_is_not_seeded_again(seeds: Seq<FactText>, ps: Seq<Proposal>)
    ensures
        (exists|i: int|
            0 <= i < seeds.len() && (#[trigger] seeds[i]).id@ == "portfolio-request:"@ + REQUEST_ID@)
            ==> seeded(seeds) && !would_accept(seeds, ps),
        (forall|i: int|
            0 <= i < seeds.len() ==> (#[trigger] seeds[i]).id@ != "portfolio-request:"@ + REQUEST_ID@)
            ==> !seeded(seeds),
{
}

/// Each indexed drift sits under its own current filing's `(CIK, fiscal
/// year)`, is one of the proposals, and every drift proposal's current
/// `(CIK, fiscal year)` is indexed.
pub proof fn law_drifts_are_filed_under_their_current_filing(ps: Seq<Proposal>)
    ensures
        forall|k: DriftKeyView| #[trigger]
            count_index(ps).contains_key(k) ==> count_index(ps)[k].current.cik@ == k.0
                && count_index(ps)[k].current.fiscal_year == k.1 && ps.contains(
                Proposal::CountDrift(count_index(ps)[k]),
            ),
        forall|k: DriftKeyView| #[trigger]
            language_index(ps).contains_key(k) ==> language_index(ps)[k].current.cik@ == k.0
                && language_index(ps)[k].current.fiscal_year == k.1 && ps.contains(
                Proposal::LanguageDrift(language_index(ps)[k]),
            ),
        forall|i: int|
            0 <= i < ps.len() ==> (#[trigger] ps[i] matches Proposal::CountDrift(d)
                ==> count_index(ps).contains_key((d.current.cik@, d.current.fiscal_year))),
        forall|i: int|
            0 <= i < ps.len() ==> (#[trigger] ps[i] matches Proposal::LanguageDrift(d)
                ==> language_index(ps).contains_key((d.current.cik@, d.current.fiscal_year))),
    decreases ps.len(),
{
    if ps.len() > 0 {
        let d = ps.drop_last();
        law_drifts_are_filed_under_their_current_filing(d);
        let x = ps.last();
        assert(x == ps[ps.len() - 1]);
        assert forall|k: DriftKeyView| #[trigger]
            count_index(ps).contains_key(k) implies count_index(ps)[k].current.cik@ == k.0
                && count_index(ps)[k].current.fiscal_year == k.1 && ps.contains(
                Proposal::CountDrift(count_index(ps)[k]),
            ) by {
            if x matches Proposal::CountDrift(e) && count_key(e) == k {
                assert(ps[ps.len() - 1] == Proposal::CountDrift(count_index(ps)[k]));
            } else {
                assert(count_index(d).contains_key(k));
                let t = choose|t: int| 0 <= t < d.len() && d[t] == Proposal::CountDrift(count_index(d)[k]);
                assert(ps[t] == d[t]);
            }
        }
        assert forall|k: DriftKeyView| #[trigger]
            language_index(ps).contains_key(k) implies language_index(ps)[k].current.cik@ == k.0
                && language_index(ps)[k].current.fiscal_year == k.1 && ps.contains(
                Proposal::LanguageDrift(language_index(ps)[k]),
            ) by {
            if x matches Proposal::LanguageDrift(e) && language_key(e) == k {
                assert(ps[ps.len() - 1] == Proposal::LanguageDrift(language_index(ps)[k]));
            } else {
                assert(language_index(d).contains_key(k));
                let t = choose|t: int| 0 <= t < d.len() && d[t] == Proposal::LanguageDrift(language_index(d)[k]);
                assert(ps[t] == d[t]);
            }
        }
        assert forall|i: int| 0 <= i < ps.len() implies (#[trigger] ps[i] matches Proposal::CountDrift(e)
            ==> count_index(ps).contains_key((e.current.cik@, e.current.fiscal_year))) by {
            if i < ps.len() - 1 {
                assert(ps[i] == d[i]);
            }
        }
        assert forall|i: int| 0 <= i < ps.len() implies (#[trigger] ps[i] matches Proposal::LanguageDrift(e)
            ==> language_index(ps).contains_key((e.current.cik@, e.current.fiscal_year))) by {
            if i < ps.len() - 1 {
                assert(ps[i] == d[i]);
            }
        }
    }
}

proof fn lemma_digit_char_code(d: int)
    requires
        0 <= d < 10,
    ensures
        digit_char(d) as int == 48 + d,
{
}

/// The decimal text of a natural number is a nonempty run of ASCII digits
/// that reads back, digit by digit, as the number.
pub proof fn law_decimal_text_reads_back(n: nat)
    ensures
        nat_text(n).len() > 0,
        all_digits(nat_text(n)),
        digits_value(nat_text(n)) == n,
    decreases n,
{
    let s = nat_text(n);
    if n < 10 {
        lemma_digit_char_code(n as int);
        assert(s.drop_last() =~= Seq::<char>::empty());
        assert(digits_value(s.drop_last()) == 0);
        assert(s.last() == digit_char(n as int));
        assert(digits_value(s) == digits_value(s.drop_last()) * 10 + (s.last() as int - 48));
    } else {
        law_decimal_text_reads_back(n / 10);
        lemma_digit_char_code((n % 10) as int);
        let p = nat_text(n / 10);
        assert(s.drop_last() =~= p);
        assert(s.last() == digit_char((n % 10) as int));
        assert forall|i: int| 0 <= i < s.len() implies is_ascii_digit(#[trigger] s[i]) by {
            if i < p.len() {
                assert(s[i] == p[i]);
            }
        }
        assert(digits_value(s) == digits_value(s.drop_last()) * 10 + (s.last() as int - 48));
        assert(n == (n / 10) * 10 + n % 10);
    }
}

/// Rendering an `i64` value in decimal and parsing it back as an `i64`
/// gives the value.
pub proof fn law_int_text_parses_back(n: int)
    requires
        i64::MIN <= n <= i64::MAX,
    ensures
        parse_i64_text(int_text(n)) == Some(n),
{
    let s = int_text(n);
    if n < 0 {
        let m = (-n) as nat;
        law_decimal_text_reads_back(m);
        assert(s[0] == '-');
        assert(unsigned_part(s) =~= nat_text(m));
    } else {
        law_decimal_text_reads_back(n as nat);
        assert(is_ascii_digit(s[0]));
        assert(s[0] != '-' && s[0] != '+');
        assert(unsigned_part(s) == s);
    }
}


/// A coverage item's label is the CIK, then `::FY`, then decimal digits that
/// read back as the fiscal year.
pub proof fn law_label_names_cik_and_year(k: DriftKeyView)
    ensures
        label_text(k).subrange(0, k.0.len() as int) == k.0,
        label_text(k).subrange(k.0.len() as int, k.0.len() as int + 4) == "::FY"@,
        all_digits(label_text(k).skip(k.0.len() as int + 4)),
        digits_value(label_text(k).skip(k.0.len() as int + 4)) == k.1,
{
    let l = label_text(k);
    let n = k.0.len() as int;
    law_decimal_text_reads_back(k.1 as nat);
    assert(int_text(k.1 as int) == nat_text(k.1 as nat));
    assert(l =~= k.0 + "::FY"@ + nat_text(k.1 as nat));
    assert(l.subrange(0, n) =~= k.0);
    assert("::FY"@.len() == 4) by {
        reveal_strlit("::FY");
    }
    assert(l.subrange(n, n + 4) =~= "::FY"@);
    assert(l.skip(n + 4) =~= nat_text(k.1 as nat));
}

/// A staged filing's identifier is `filing::`, the CIK, `::`, then decimal
/// digits that read back as the fiscal year.
pub proof fn law_filing_id_names_cik_and_year(filing: FilingId)
    ensures
        filing_fact_text(filing).subrange(0, 8) == "filing::"@,
        filing_fact_text(filing).subrange(8, 8 + filing.cik@.len() as int) == filing.cik@,
        filing_fact_text(filing).subrange(8 + filing.cik@.len() as int, 10 + filing.cik@.len() as int) == "::"@,
        all_digits(filing_fact_text(filing).skip(10 + filing.cik@.len() as int)),
        digits_value(filing_fact_text(filing).skip(10 + filing.cik@.len() as int)) == filing.fiscal_year,
{
    let t = filing_fact_text(filing);
    let c = filing.cik@;
    let n = c.len() as int;
    law_decimal_text_reads_back(filing.fiscal_year as nat);
    assert(int_text(filing.fiscal_year as int) == nat_text(filing.fiscal_year as nat));
    assert("filing::"@.len() == 8) by {
        reveal_strlit("filing::");
    }
    assert("::"@.len() == 2) by {
        reveal_strlit("::");
    }
    assert(t =~= "filing::"@ + c + "::"@ + nat_text(filing.fiscal_year as nat));
    assert(t.subrange(0, 8) =~= "filing::"@);
    assert(t.subrange(8, 8 + n) =~= c);
    assert(t.subrange(8 + n, 10 + n) =~= "::"@);
    assert(t.skip(10 + n) =~= nat_text(filing.fiscal_year as nat));
}

}
