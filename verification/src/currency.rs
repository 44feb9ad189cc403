//! Currency codes as they appear in broker feeds.
//!
//! The codes this system knows are mapped to their own variants; any other
//! code is carried verbatim in an open variant, never rejected, so that
//! downstream reporting can preserve it.

use vstd::prelude::*;

use crate::text::str_eq;

verus! {

/// A currency code: a known unit, or any other code kept as it came.
#[derive(Debug, PartialEq, Eq)]
pub enum Currency {
    USD,
    EUR,
    Other(String),
}

/// The mathematical value of a currency code.
pub ghost enum CurrencyView {
    Usd,
    Eur,
    Other(Seq<char>),
}

impl View for Currency {
    type V = CurrencyView;

    closed spec fn view(&self) -> CurrencyView {
        match self {
            Currency::USD => CurrencyView::Usd,
            Currency::EUR => CurrencyView::Eur,
            Currency::Other(s) => CurrencyView::Other(s@),
        }
    }
}

impl Clone for Currency {
    fn clone(&self) -> (r: Self)
        ensures
            r@ == self@,
    {
        match self {
            Currency::USD => Currency::USD,
            Currency::EUR => Currency::EUR,
            Currency::Other(s) => Currency::Other(s.clone()),
        }
    }
}

/// What reading a currency code yields: the known units for their exact
/// codes, the code itself for every other.
pub open spec fn spec_parse_currency(s: Seq<char>) -> CurrencyView {
    if s == "USD"@ {
        CurrencyView::Usd
    } else if s == "EUR"@ {
        CurrencyView::Eur
    } else {
        CurrencyView::Other(s)
    }
}

impl Currency {
    /// Reads a currency code. Never fails: an unrecognized code is kept
    /// verbatim in the open variant.
    pub fn parse(s: &str) -> (r: Currency)
        ensures
            r@ == spec_parse_currency(s@),
    {
        if str_eq(s, "USD") {
            Currency::USD
        } else if str_eq(s, "EUR") {
            Currency::EUR
        } else {
            Currency::Other(s.to_owned())
        }
    }
}

} // verus!
