//! Choosing and naming the filings an analysis runs over.

use vstd::prelude::*;
use crate::filing::{Cik, FilingId};
use crate::text::{int_text, push_int};

verus! {

/// An analysis compares consecutive filings, so it needs at least this many.
pub const MIN_SECTIONS_FOR_DRIFT: usize = 2;

/// `sorted` with `x` placed after every entry whose fiscal year is not later
/// than `x`'s.
pub open spec fn insert_by_year<T>(sorted: Seq<(FilingId, T)>, x: (FilingId, T)) -> Seq<
    (FilingId, T),
>
    decreases sorted.len(),
{
    if sorted.len() == 0 {
        seq![x]
    } else if sorted.last().0.fiscal_year <= x.0.fiscal_year {
        sorted.push(x)
    } else {
        insert_by_year(sorted.drop_last(), x).push(sorted.last())
    }
}

/// The entries of `s` filed under `cik`, ordered by fiscal year; entries of
/// the same year keep their order (a stable sort).
pub open spec fn sections_by_year<T>(s: Seq<(FilingId, T)>, cik: Seq<char>) -> Seq<(FilingId, T)>
    decreases s.len(),
{
    if s.len() == 0 {
        seq![]
    } else {
        let rest = sections_by_year(s.drop_last(), cik);
        if s.last().0.cik@ == cik {
            insert_by_year(rest, s.last())
        } else {
            rest
        }
    }
}

/// Keeps the loaded entries whose filing belongs to `cik` and orders them by
/// fiscal year, stably.
pub fn sections_for_cik<T>(loaded: Vec<(FilingId, T)>, cik: &Cik) -> (r: Vec<(FilingId, T)>)
    ensures
        r@ == sections_by_year(loaded@, cik@),
{
    let ghost s = loaded@;
    let mut out: Vec<(FilingId, T)> = Vec::new();
    assert(s.take(0) =~= Seq::<(FilingId, T)>::empty());
    for x in it: loaded.into_iter()
        invariant
            it.seq() == s,
            out@ == sections_by_year(s.take(it.index() as int), cik@),
    {
        let ghost j = it.index() as int;
        assert(s.take(j + 1).drop_last() =~= s.take(j));
        assert(s.take(j + 1).last() == x);
        if x.0.cik == *cik {
            let ghost old_out = out@;
            let mut p = out.len();
            assert(old_out.take(p as int) =~= old_out);
            assert(old_out.skip(p as int) =~= Seq::<(FilingId, T)>::empty());
            while p > 0 && out[p - 1].0.fiscal_year > x.0.fiscal_year
                invariant
                    out@ == old_out,
                    p <= old_out.len(),
                    insert_by_year(old_out, x) == insert_by_year(old_out.take(p as int), x)
                        + old_out.skip(p as int),
                decreases p,
            {
                let ghost q = p as int;
                assert(old_out.take(q).drop_last() =~= old_out.take(q - 1));
                assert(old_out.take(q).last() == old_out[q - 1]);
                assert(insert_by_year(old_out.take(q), x) == insert_by_year(
                    old_out.take(q - 1),
                    x,
                ).push(old_out[q - 1]));
                assert(old_out.skip(q - 1) =~= seq![old_out[q - 1]] + old_out.skip(q));
                assert(insert_by_year(old_out.take(q - 1), x).push(old_out[q - 1])
                    + old_out.skip(q) =~= insert_by_year(old_out.take(q - 1), x) + old_out.skip(
                    q - 1,
                ));
                p = p - 1;
            }
            assert(insert_by_year(old_out.take(p as int), x) =~= old_out.take(p as int).push(x));
            out.insert(p, x);
            assert(out@ =~= insert_by_year(old_out, x));
        }
    }
    assert(s.take(s.len() as int) =~= s);
    out
}

/// The identifier under which a filing is staged: `"filing::{cik}::{year}"`.
pub open spec fn filing_fact_text(filing: FilingId) -> Seq<char> {
    "filing::"@ + filing.cik@ + "::"@ + int_text(filing.fiscal_year as int)
}

/// The identifier under which a filing is staged as an input.
pub fn filing_fact_id(filing: &FilingId) -> (r: String)
    ensures
        r@ == filing_fact_text(*filing),
{
    let mut s = String::from_str("filing::");
    s.append(filing.cik.as_str());
    s.append("::");
    push_int(&mut s, filing.fiscal_year as i128);
    s
}

}
