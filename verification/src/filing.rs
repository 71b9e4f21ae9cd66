//! Filing identities and the two drift facts that the risk-factor suggestors
//! propose for a `(CIK, fiscal year)` pair.

use vstd::prelude::*;

verus! {

/// An SEC Central Index Key, kept as the text it was given as.
#[derive(Debug)]
pub struct Cik {
    value: String,
}

impl View for Cik {
    type V = Seq<char>;

    closed spec fn view(&self) -> Seq<char> {
        self.value@
    }
}

impl Cik {
    /// A key holding `value` as given.
    pub fn new(value: &str) -> (r: Cik)
        ensures
            r@ == value@,
    {
        Cik { value: String::from_str(value) }
    }

    /// The key's text.
    pub fn as_str(&self) -> (r: &str)
        ensures
            r@ == self@,
    {
        self.value.as_str()
    }
}

impl PartialEq for Cik {
    fn eq(&self, other: &Cik) -> (r: bool) {
        self.value == other.value
    }
}

impl vstd::std_specs::cmp::PartialEqSpecImpl for Cik {
    open spec fn obeys_eq_spec() -> bool {
        true
    }

    open spec fn eq_spec(&self, other: &Cik) -> bool {
        self@ == other@
    }
}

/// The kind of periodic report a filing is.
#[derive(Debug, Clone, Copy, PartialEq, Eq, Structural)]
pub enum FormType {
    /// Annual report.
    TenK,
    /// Quarterly report.
    TenQ,
}

/// One filing: which company, which form, which fiscal year.
#[derive(Debug)]
pub struct FilingId {
    pub cik: Cik,
    pub form: FormType,
    pub fiscal_year: u16,
}

/// Year-over-year change in the number of risk-factor headings.
#[derive(Debug)]
pub struct RiskFactorDrift {
    pub current: FilingId,
    pub prior: FilingId,
    pub current_count: usize,
    pub prior_count: usize,
    /// Headings now minus headings a year before.
    pub delta: i32,
}

/// Year-over-year change in the wording of the risk-factor headings.
///
/// `churn_value` is the language-churn signal `round((1 - J) * 100)`, where
/// `J` is the Jaccard similarity of the two heading sets; it is computed where
/// the similarity is held as a floating-point number.
#[derive(Debug)]
pub struct RiskFactorLanguageDrift {
    pub current: FilingId,
    pub prior: FilingId,
    pub identical_count: usize,
    pub churn_value: i64,
    /// Headings present only in the current filing.
    pub added: Vec<String>,
    /// Headings present only in the prior filing.
    pub removed: Vec<String>,
}

/// The pair a drift fact is filed under: the current filing's CIK and fiscal year.
pub type DriftKeyView = (Seq<char>, u16);

/// The key of a count drift.
pub open spec fn count_key(d: RiskFactorDrift) -> DriftKeyView {
    (d.current.cik@, d.current.fiscal_year)
}

/// The key of a language drift.
pub open spec fn language_key(d: RiskFactorLanguageDrift) -> DriftKeyView {
    (d.current.cik@, d.current.fiscal_year)
}

}
