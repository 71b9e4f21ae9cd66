//! The portfolio-coverage seed: every `(CIK, fiscal year)` that carries both a
//! heading-count drift and a heading-language drift becomes one knapsack item,
//! weighted by its current heading count (analyst reading capacity) and valued
//! by its language churn.

use vstd::prelude::*;
use crate::drift_map::{key_view, DriftMap};
use crate::filing::{DriftKeyView, RiskFactorDrift, RiskFactorLanguageDrift};
use crate::context::{ContextKey, FactText};
use crate::proposals::{count_index, index_drifts, language_index, Proposal};
use crate::text::{chars_lt, int_text, parse_i64, parse_i64_text, trim, trimmed,
    colons_to_underscore, push_colons_to_underscore, lemma_chars_lt_irreflexive, lemma_chars_lt_total,
    lemma_chars_lt_transitive, push_int, str_lt};

verus! {

// ---------------------------------------------------------------- key order

/// The order in which coverage items are listed: by CIK text, then by
/// fiscal year (the order of `(String, u16)` tuples).
pub open spec fn key_lt(a: DriftKeyView, b: DriftKeyView) -> bool {
    chars_lt(a.0, b.0) || (a.0 == b.0 && a.1 < b.1)
}

/// `key_lt` is a strict total order.
pub proof fn lemma_key_lt_strict_total(a: DriftKeyView, b: DriftKeyView, c: DriftKeyView)
    ensures
        !key_lt(a, a),
        key_lt(a, b) && key_lt(b, c) ==> key_lt(a, c),
        a == b || key_lt(a, b) || key_lt(b, a),
        key_lt(a, b) ==> !key_lt(b, a),
{
    lemma_chars_lt_irreflexive(a.0);
    lemma_chars_lt_total(a.0, b.0);
    if chars_lt(a.0, b.0) && chars_lt(b.0, c.0) {
        lemma_chars_lt_transitive(a.0, b.0, c.0);
    }
    if chars_lt(a.0, b.0) && chars_lt(b.0, a.0) {
        lemma_chars_lt_transitive(a.0, b.0, a.0);
    }
}

/// The abstract keys of a list of concrete keys.
pub open spec fn key_views(s: Seq<(String, u16)>) -> Seq<DriftKeyView> {
    s.map_values(|k: (String, u16)| key_view(k))
}

fn key_less(a: &(String, u16), b: &(String, u16)) -> (r: bool)
    ensures
        r == key_lt(key_view(*a), key_view(*b)),
{
    str_lt(a.0.as_str(), b.0.as_str()) || (a.0 == b.0 && a.1 < b.1)
}

/// Strictly increasing in `key_lt`.
pub open spec fn strictly_sorted(ks: Seq<DriftKeyView>) -> bool {
    forall|i: int, j: int| 0 <= i < j < ks.len() ==> key_lt(#[trigger] ks[i], #[trigger] ks[j])
}

// ---------------------------------------------------------------- request

/// One candidate of the coverage knapsack.
#[derive(Debug)]
pub struct PortfolioItem {
    pub label: String,
    pub weight: i64,
    pub value: i64,
}

/// The coverage knapsack: items and the capacity they compete for.
#[derive(Debug)]
pub struct PortfolioRequest {
    pub id: String,
    pub items: Vec<PortfolioItem>,
    pub budget: i64,
}

/// The label of the item for a key: `"{cik}::FY{year}"`.
pub open spec fn label_text(k: DriftKeyView) -> Seq<char> {
    k.0 + "::FY"@ + int_text(k.1 as int)
}

/// The keys that carry both signals.
pub open spec fn has_both(
    counts: Map<DriftKeyView, RiskFactorDrift>,
    langs: Map<DriftKeyView, RiskFactorLanguageDrift>,
    k: DriftKeyView,
) -> bool {
    counts.contains_key(k) && langs.contains_key(k)
}

/// `ks` lists every key with both signals, once each, in increasing order.
pub open spec fn is_coverage_order(
    ks: Seq<DriftKeyView>,
    counts: Map<DriftKeyView, RiskFactorDrift>,
    langs: Map<DriftKeyView, RiskFactorLanguageDrift>,
) -> bool {
    &&& strictly_sorted(ks)
    &&& forall|k: DriftKeyView| #[trigger] ks.contains(k) <==> has_both(counts, langs, k)
}

/// The item for key `k`: weight is the current heading count (cast to `i64`),
/// value is the language churn.
pub open spec fn item_for(
    item: PortfolioItem,
    k: DriftKeyView,
    counts: Map<DriftKeyView, RiskFactorDrift>,
    langs: Map<DriftKeyView, RiskFactorLanguageDrift>,
) -> bool {
    &&& item.label@ == label_text(k)
    &&& item.weight == counts[k].current_count as i64
    &&& item.value == langs[k].churn_value
}

/// `items[i]` is the item for `ks[i]`.
pub open spec fn items_follow(
    items: Seq<PortfolioItem>,
    ks: Seq<DriftKeyView>,
    counts: Map<DriftKeyView, RiskFactorDrift>,
    langs: Map<DriftKeyView, RiskFactorLanguageDrift>,
) -> bool {
    &&& items.len() == ks.len()
    &&& forall|i: int| 0 <= i < ks.len() ==> item_for(#[trigger] items[i], ks[i], counts, langs)
}

/// One item per key with both signals, in key order.
pub open spec fn covers(
    items: Seq<PortfolioItem>,
    counts: Map<DriftKeyView, RiskFactorDrift>,
    langs: Map<DriftKeyView, RiskFactorLanguageDrift>,
) -> bool {
    exists|ks: Seq<DriftKeyView>|
        #[trigger] is_coverage_order(ks, counts, langs) && items_follow(items, ks, counts, langs)
}

/// `a + b`, clamped to the `i64` range.
pub open spec fn saturating_add(a: i64, b: i64) -> i64 {
    if a + b > i64::MAX {
        i64::MAX
    } else if a + b < i64::MIN {
        i64::MIN
    } else {
        (a + b) as i64
    }
}

/// The weights of `items` summed left to right with saturation, from zero.
pub open spec fn total_weight(items: Seq<PortfolioItem>) -> i64
    decreases items.len(),
{
    if items.len() == 0 {
        0
    } else {
        saturating_add(total_weight(items.drop_last()), items.last().weight)
    }
}

fn add_saturating(a: i64, b: i64) -> (r: i64)
    ensures
        r == saturating_add(a, b),
{
    match a.checked_add(b) {
        Some(s) => s,
        None => if b > 0 {
            i64::MAX
        } else {
            i64::MIN
        },
    }
}

fn key_label(k: &(String, u16)) -> (r: String)
    ensures
        r@ == label_text(key_view(*k)),
{
    let mut s = k.0.clone();
    s.append("::FY");
    push_int(&mut s, k.1 as i128);
    s
}

/// The keys present in both maps, in increasing key order.
fn paired_keys_sorted(
    counts: &DriftMap<RiskFactorDrift>,
    langs: &DriftMap<RiskFactorLanguageDrift>,
) -> (r: Vec<(String, u16)>)
    ensures
        is_coverage_order(key_views(r@), counts@, langs@),
{
    let n = counts.len();
    let ghost ks = counts.keys_in_order();
    let mut sorted: Vec<(String, u16)> = Vec::new();
    let mut i: usize = 0;
    while i < n
        invariant
            n == ks.len(),
            ks == counts.keys_in_order(),
            ks.no_duplicates(),
            forall|k: DriftKeyView| #[trigger] counts@.dom().contains(k) <==> ks.contains(k),
            i <= n,
            strictly_sorted(key_views(sorted@)),
            forall|k: DriftKeyView|
                #[trigger] key_views(sorted@).contains(k) <==> (
                exists|j: int| 0 <= j < i && ks[j] == k) && langs@.contains_key(k),
        decreases n - i,
    {
        let ghost sv = key_views(sorted@);
        let key = counts.key_at(i);
        let ghost kv = key_view(*key);
        assert(kv == ks[i as int]);
        if langs.contains_key(key) {
            assert(!sv.contains(kv)) by {
                if sv.contains(kv) {
                    let j = choose|j: int| 0 <= j < i && ks[j] == kv;
                    assert(ks[j] == ks[i as int]);
                }
            }
            let m = sorted.len();
            let mut p: usize = 0;
            while p < m && key_less(&sorted[p], key)
                invariant
                    m == sorted@.len(),
                    sv == key_views(sorted@),
                    kv == key_view(*key),
                    p <= m,
                    forall|t: int| 0 <= t < p ==> key_lt(#[trigger] sv[t], kv),
                decreases m - p,
            {
                p = p + 1;
            }
            let copy = (key.0.clone(), key.1);
            sorted.insert(p, copy);
            let ghost nv = key_views(sorted@);
            assert(nv =~= sv.insert(p as int, kv));
            assert(strictly_sorted(nv)) by {
                assert forall|a: int, b: int| 0 <= a < b < nv.len() implies key_lt(
                    #[trigger] nv[a],
                    #[trigger] nv[b],
                ) by {
                    if p < m {
                        assert(sv.contains(sv[p as int]));
                        lemma_key_lt_strict_total(sv[p as int], kv, kv);
                        assert(key_lt(kv, sv[p as int]));
                    }
                    if b < p {
                        assert(nv[a] == sv[a] && nv[b] == sv[b]);
                    } else if b == p {
                        assert(nv[a] == sv[a]);
                    } else if a < p {
                        assert(nv[a] == sv[a] && nv[b] == sv[b - 1]);
                        if b - 1 > p {
                            lemma_key_lt_strict_total(kv, sv[p as int], sv[b - 1]);
                        }
                        lemma_key_lt_strict_total(sv[a], kv, sv[b - 1]);
                    } else if a == p {
                        assert(nv[b] == sv[b - 1]);
                        if b - 1 > p {
                            lemma_key_lt_strict_total(kv, sv[p as int], sv[b - 1]);
                        }
                    } else {
                        assert(nv[a] == sv[a - 1] && nv[b] == sv[b - 1]);
                    }
                }
            }
            assert forall|k: DriftKeyView| #[trigger] nv.contains(k) <==> (exists|j: int|
                0 <= j < i + 1 && ks[j] == k) && langs@.contains_key(k) by {
                if nv.contains(k) {
                    let t = choose|t: int| 0 <= t < nv.len() && nv[t] == k;
                    if t != p {
                        if t < p {
                            assert(sv[t] == k);
                        } else {
                            assert(sv[t - 1] == k);
                        }
                        assert(sv.contains(k));
                        let j = choose|j: int| 0 <= j < i && ks[j] == k;
                        assert(0 <= j < i + 1 && ks[j] == k);
                    } else {
                        assert(ks[i as int] == k);
                    }
                }
                if (exists|j: int| 0 <= j < i + 1 && ks[j] == k) && langs@.contains_key(k) {
                    let j = choose|j: int| 0 <= j < i + 1 && ks[j] == k;
                    if j < i {
                        assert(sv.contains(k));
                        let t = choose|t: int| 0 <= t < sv.len() && sv[t] == k;
                        if t < p {
                            assert(nv[t] == k);
                        } else {
                            assert(nv[t + 1] == k);
                        }
                    } else {
                        assert(nv[p as int] == k);
                    }
                }
            }
        } else {
            assert forall|k: DriftKeyView| #[trigger] sv.contains(k) <==> (exists|j: int|
                0 <= j < i + 1 && ks[j] == k) && langs@.contains_key(k) by {
                if (exists|j: int| 0 <= j < i + 1 && ks[j] == k) && langs@.contains_key(k) {
                    let j = choose|j: int| 0 <= j < i + 1 && ks[j] == k;
                    if j == i {
                        assert(ks[j] == kv);
                    }
                    assert(0 <= j < i && ks[j] == k);
                }
            }
        }
        i = i + 1;
    }
    let ghost sv = key_views(sorted@);
    assert forall|k: DriftKeyView| #[trigger] sv.contains(k) <==> has_both(counts@, langs@, k) by {
        if counts@.dom().contains(k) {
            assert(ks.contains(k));
            let j = choose|j: int| 0 <= j < ks.len() && ks[j] == k;
        }
        if sv.contains(k) {
            let j = choose|j: int| 0 <= j < n && ks[j] == k;
            assert(ks.contains(k));
        }
    }
    sorted
}

/// Builds the coverage request: one item per `(CIK, fiscal year)` that has
/// both a count drift and a language drift, listed by CIK then year, with the
/// budget set to the total weight (clamped at the `i64` bounds) as a default
/// that the caller may override.
pub fn build_request(
    id: &str,
    counts: &DriftMap<RiskFactorDrift>,
    langs: &DriftMap<RiskFactorLanguageDrift>,
) -> (r: PortfolioRequest)
    ensures
        r.id@ == id@,
        covers(r.items@, counts@, langs@),
        r.budget == total_weight(r.items@),
{
    let keys = paired_keys_sorted(counts, langs);
    let ghost ks = key_views(keys@);
    let mut items: Vec<PortfolioItem> = Vec::new();
    let mut total: i64 = 0;
    let n = keys.len();
    let mut j: usize = 0;
    while j < n
        invariant
            n == keys@.len(),
            ks == key_views(keys@),
            is_coverage_order(ks, counts@, langs@),
            j <= n,
            items@.len() == j,
            forall|t: int| 0 <= t < j ==> item_for(#[trigger] items@[t], ks[t], counts@, langs@),
            total == total_weight(items@),
        decreases n - j,
    {
        let key = &keys[j];
        assert(ks.contains(ks[j as int]));
        let count = counts.get(key).unwrap();
        let lang = langs.get(key).unwrap();
        let weight = count.current_count as i64;
        let item = PortfolioItem { label: key_label(key), weight, value: lang.churn_value };
        total = add_saturating(total, weight);
        let ghost before = items@;
        items.push(item);
        assert(items@.drop_last() =~= before);
        j = j + 1;
    }
    assert(is_coverage_order(ks, counts@, langs@) && items_follow(items@, ks, counts@, langs@));
    PortfolioRequest { id: String::from_str(id), items, budget: total }
}


// ---------------------------------------------------------------- suggestor

/// The identifier of the coverage request this suggestor emits.
pub const REQUEST_ID: &'static str = "fathom-sparc:portfolio:risk-coverage";

/// The identifier of the constraint fact whose content overrides the budget.
pub const BUDGET_DIRECTIVE_ID: &'static str = "portfolio-budget:risk-coverage";

/// The identifier of the seed fact carrying a knapsack request.
pub open spec fn portfolio_seed_text(request_id: Seq<char>) -> Seq<char> {
    "portfolio-request:"@ + request_id
}

/// The identifier of the seed fact carrying the same problem as a MIP.
pub open spec fn mip_seed_text(request_id: Seq<char>) -> Seq<char> {
    "mip-request:"@ + request_id
}

/// `"portfolio-request:{request_id}"`.
pub fn portfolio_seed_id(request_id: &str) -> (r: String)
    ensures
        r@ == portfolio_seed_text(request_id@),
{
    String::from_str("portfolio-request:").concat(request_id)
}

/// `"mip-request:{request_id}"`.
pub fn mip_seed_id(request_id: &str) -> (r: String)
    ensures
        r@ == mip_seed_text(request_id@),
{
    String::from_str("mip-request:").concat(request_id)
}

/// Some seed fact already carries this suggestor's knapsack request.
pub open spec fn seeded(seeds: Seq<FactText>) -> bool {
    exists|i: int| 0 <= i < seeds.len() && (#[trigger] seeds[i]).id@ == portfolio_seed_text(REQUEST_ID@)
}

/// Whether this suggestor's request is already among the seeds.
pub fn already_seeded(seeds: &Vec<FactText>) -> (r: bool)
    ensures
        r == seeded(seeds@),
{
    let seed_id = portfolio_seed_id(REQUEST_ID);
    let n = seeds.len();
    let mut i: usize = 0;
    while i < n
        invariant
            n == seeds@.len(),
            i <= n,
            seed_id@ == portfolio_seed_text(REQUEST_ID@),
            forall|j: int| 0 <= j < i ==> (#[trigger] seeds@[j]).id@ != portfolio_seed_text(REQUEST_ID@),
        decreases n - i,
    {
        if seeds[i].id == seed_id {
            return true;
        }
        i = i + 1;
    }
    false
}

/// The budget the constraints direct: the content, trimmed and read as an
/// `i64`, of the first constraint whose identifier is `BUDGET_DIRECTIVE_ID`;
/// none when there is no such constraint or its content is not an integer.
pub open spec fn budget_directive(constraints: Seq<FactText>) -> Option<int>
    decreases constraints.len(),
{
    if constraints.len() == 0 {
        None
    } else if constraints[0].id@ == BUDGET_DIRECTIVE_ID@ {
        parse_i64_text(trimmed(constraints[0].content@))
    } else {
        budget_directive(constraints.drop_first())
    }
}

/// Reads the budget directive among the constraints.
pub fn read_budget_directive(constraints: &Vec<FactText>) -> (r: Option<i64>)
    ensures
        match r {
            Some(b) => budget_directive(constraints@) == Some(b as int),
            None => budget_directive(constraints@) is None,
        },
{
    let n = constraints.len();
    let mut i: usize = 0;
    let directive = String::from_str(BUDGET_DIRECTIVE_ID);
    assert(constraints@.skip(0) =~= constraints@);
    while i < n
        invariant
            n == constraints@.len(),
            i <= n,
            directive@ == BUDGET_DIRECTIVE_ID@,
            budget_directive(constraints@) == budget_directive(constraints@.skip(i as int)),
        decreases n - i,
    {
        let f = &constraints[i];
        assert(constraints@.skip(i as int)[0] == *f);
        if f.id == directive {
            return parse_i64(trim(f.content.as_str()));
        }
        assert(constraints@.skip(i as int).drop_first() =~= constraints@.skip(i + 1));
        i = i + 1;
    }
    None
}

/// Some key carries both drifts.
pub open spec fn any_paired(
    counts: Map<DriftKeyView, RiskFactorDrift>,
    langs: Map<DriftKeyView, RiskFactorLanguageDrift>,
) -> bool {
    exists|k: DriftKeyView| #[trigger] has_both(counts, langs, k)
}

/// When the suggestor asks to run: its request is not yet seeded and some
/// key carries both drift signals.
pub open spec fn would_accept(seeds: Seq<FactText>, ps: Seq<Proposal>) -> bool {
    !seeded(seeds) && any_paired(count_index(ps), language_index(ps))
}

/// When running the suggestor yields a request: some key carries both signals.
pub open spec fn yields_request(ps: Seq<Proposal>) -> bool {
    any_paired(count_index(ps), language_index(ps))
}

/// Seeds the portfolio solvers with the coverage problem over the drift
/// facts: one knapsack item per `(CIK, fiscal year)` carrying both drift
/// signals, weight = current heading count, value = language churn.
#[derive(Debug)]
pub struct PortfolioCoverageSeedSuggestor;

impl PortfolioCoverageSeedSuggestor {
    /// The suggestor.
    pub fn new() -> (r: Self)
        ensures
            r == PortfolioCoverageSeedSuggestor,
    {
        PortfolioCoverageSeedSuggestor
    }

    /// The suggestor's name.
    pub fn name(&self) -> (r: &'static str)
        ensures
            r@ == "portfolio_coverage_seed"@,
    {
        "portfolio_coverage_seed"
    }

    /// The context keys it reads: the drift proposals, and the constraints
    /// that may hold a budget directive.
    pub fn dependencies(&self) -> (r: Vec<ContextKey>)
        ensures
            r@ == seq![ContextKey::Proposals, ContextKey::Constraints],
    {
        let mut v = Vec::new();
        v.push(ContextKey::Proposals);
        v.push(ContextKey::Constraints);
        v
    }

    /// A note on its cost.
    pub fn complexity_hint(&self) -> (r: Option<&'static str>)
        ensures
            r matches Some(s) && s@ == "O(n) — n = promoted drift facts; one PortfolioRequest emitted"@,
    {
        Some("O(n) — n = promoted drift facts; one PortfolioRequest emitted")
    }

    /// Whether to run: the request is not yet among the seeds, and some
    /// `(CIK, fiscal year)` carries both drift signals.
    pub fn accepts(&self, seeds: &Vec<FactText>, proposals: Vec<Proposal>) -> (r: bool)
        ensures
            r == would_accept(seeds@, proposals@),
    {
        if already_seeded(seeds) {
            return false;
        }
        let ghost ps = proposals@;
        let (counts, langs) = index_drifts(proposals);
        let n = counts.len();
        let mut i: usize = 0;
        while i < n
            invariant
                !seeded(seeds@),
                ps == proposals@,
                counts@ == count_index(ps),
                langs@ == language_index(ps),
                n == counts.keys_in_order().len(),
                i <= n,
                forall|k: DriftKeyView| #[trigger]
                    counts@.dom().contains(k) <==> counts.keys_in_order().contains(k),
                forall|j: int|
                    0 <= j < i ==> !langs@.contains_key(#[trigger] counts.keys_in_order()[j]),
            decreases n - i,
        {
            let key = counts.key_at(i);
            if langs.contains_key(key) {
                assert(counts.keys_in_order().contains(key_view(*key)));
                assert(has_both(count_index(ps), language_index(ps), key_view(*key)));
                return true;
            }
            i = i + 1;
        }
        assert forall|k: DriftKeyView| !#[trigger] has_both(counts@, langs@, k) by {
            if has_both(counts@, langs@, k) {
                assert(counts.keys_in_order().contains(k));
                let j = choose|j: int| 0 <= j < n && counts.keys_in_order()[j] == k;
            }
        }
        false
    }

    /// The coverage request to seed, if any key carries both signals: built by
    /// `build_request` under `REQUEST_ID`, with the budget taken from the
    /// budget directive when the constraints hold a readable one.
    pub fn execute(&self, proposals: Vec<Proposal>, constraints: &Vec<FactText>) -> (r: Option<
        PortfolioRequest,
    >)
        ensures
            r is Some <==> yields_request(proposals@),
            r matches Some(req) ==> {
                &&& req.id@ == REQUEST_ID@
                &&& covers(req.items@, count_index(proposals@), language_index(proposals@))
                &&& req.budget == match budget_directive(constraints@) {
                    Some(b) => b,
                    None => total_weight(req.items@) as int,
                }
            },
    {
        let ghost ps = proposals@;
        let (counts, langs) = index_drifts(proposals);
        let mut request = build_request(REQUEST_ID, &counts, &langs);
        proof {
            lemma_covers_empty(request.items@, counts@, langs@);
        }
        if request.items.len() == 0 {
            return None;
        }
        match read_budget_directive(constraints) {
            Some(b) => {
                request.budget = b;
            },
            None => {},
        }
        Some(request)
    }
}

impl Default for PortfolioCoverageSeedSuggestor {
    fn default() -> (r: Self)
        ensures
            r == PortfolioCoverageSeedSuggestor,
    {
        PortfolioCoverageSeedSuggestor::new()
    }
}

/// Items that cover the paired keys are empty exactly when no key is paired.
pub proof fn lemma_covers_empty(
    items: Seq<PortfolioItem>,
    counts: Map<DriftKeyView, RiskFactorDrift>,
    langs: Map<DriftKeyView, RiskFactorLanguageDrift>,
)
    requires
        covers(items, counts, langs),
    ensures
        items.len() == 0 <==> !any_paired(counts, langs),
{
    let ks = choose|ks: Seq<DriftKeyView>|
        #[trigger] is_coverage_order(ks, counts, langs) && items_follow(items, ks, counts, langs);
    if items.len() > 0 {
        assert(ks.contains(ks[0]));
        assert(has_both(counts, langs, ks[0]));
    }
    if any_paired(counts, langs) {
        let k = choose|k: DriftKeyView| #[trigger] has_both(counts, langs, k);
        assert(ks.contains(k));
    }
}

// ---------------------------------------------------------------- MIP form

/// One term `coeff * var` of a linear expression.
#[derive(Debug)]
pub struct MipTerm {
    pub var: String,
    pub coeff: i64,
}

/// The coverage knapsack as a mixed-integer program: one binary variable per
/// item, one constraint `sum(weight_i * x_i) <= budget` (no lower bound), and
/// the objective `maximize sum(value_i * x_i)`.
#[derive(Debug)]
pub struct MipProblem {
    pub id: String,
    pub variables: Vec<String>,
    pub budget_terms: Vec<MipTerm>,
    pub budget: i64,
    pub objective_terms: Vec<MipTerm>,
}

/// The variable for an item: `"x_"` then the label with every `::` turned into `_`.
pub open spec fn variable_text(label: Seq<char>) -> Seq<char> {
    "x_"@ + colons_to_underscore(label)
}

/// The variable name for an item label.
pub fn variable_name(label: &str) -> (r: String)
    ensures
        r@ == variable_text(label@),
{
    let mut s = String::from_str("x_");
    push_colons_to_underscore(&mut s, label);
    s
}

/// Restates a knapsack request as the MIP that a MIP solver reads.
pub fn build_mip_problem(req: &PortfolioRequest) -> (r: MipProblem)
    ensures
        r.id@ == req.id@,
        r.budget == req.budget,
        r.variables@.len() == req.items@.len(),
        r.budget_terms@.len() == req.items@.len(),
        r.objective_terms@.len() == req.items@.len(),
        forall|i: int|
            0 <= i < req.items@.len() ==> {
                &&& (#[trigger] r.variables@[i])@ == variable_text(req.items@[i].label@)
                &&& r.budget_terms@[i].var@ == variable_text(req.items@[i].label@)
                &&& r.budget_terms@[i].coeff == req.items@[i].weight
                &&& r.objective_terms@[i].var@ == variable_text(req.items@[i].label@)
                &&& r.objective_terms@[i].coeff == req.items@[i].value
            },
{
    let n = req.items.len();
    let mut variables: Vec<String> = Vec::new();
    let mut budget_terms: Vec<MipTerm> = Vec::new();
    let mut objective_terms: Vec<MipTerm> = Vec::new();
    let mut i: usize = 0;
    while i < n
        invariant
            n == req.items@.len(),
            i <= n,
            variables@.len() == i,
            budget_terms@.len() == i,
            objective_terms@.len() == i,
            forall|t: int|
                0 <= t < i ==> {
                    &&& (#[trigger] variables@[t])@ == variable_text(req.items@[t].label@)
                    &&& budget_terms@[t].var@ == variable_text(req.items@[t].label@)
                    &&& budget_terms@[t].coeff == req.items@[t].weight
                    &&& objective_terms@[t].var@ == variable_text(req.items@[t].label@)
                    &&& objective_terms@[t].coeff == req.items@[t].value
                },
        decreases n - i,
    {
        let item = &req.items[i];
        variables.push(variable_name(item.label.as_str()));
        budget_terms.push(MipTerm { var: variable_name(item.label.as_str()), coeff: item.weight });
        objective_terms.push(MipTerm { var: variable_name(item.label.as_str()), coeff: item.value });
        i = i + 1;
    }
    MipProblem { id: String::from_str(req.id.as_str()), variables, budget_terms, budget: req.budget, objective_terms }
}

}
