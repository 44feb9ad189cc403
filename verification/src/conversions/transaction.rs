//! Dated transactions: a calendar date paired with an amount of one
//! currency unit.

use vstd::prelude::*;

use crate::conversions::currency::{display_chars, Currency, CurrencyType};
use crate::date::Date;

verus! {

/// A dated amount of money in the unit `T`. Immutable once built.
#[derive(Debug, PartialEq, Eq)]
pub struct Transaction<T: CurrencyType> {
    date: Date,
    amount: Currency<T>,
}

impl<T: CurrencyType> Clone for Transaction<T> {
    fn clone(&self) -> (r: Self)
        ensures
            r == *self,
    {
        Transaction { date: self.date, amount: self.amount.clone() }
    }
}

impl<T: CurrencyType> Transaction<T> {
    /// The transaction's date.
    pub closed spec fn spec_date(self) -> Date {
        self.date
    }

    /// The transaction's amount.
    pub closed spec fn spec_amount(self) -> Currency<T> {
        self.amount
    }

    /// Pairs a date with an amount.
    pub fn new(date: Date, amount: Currency<T>) -> (r: Self)
        ensures
            r.spec_date() == date,
            r.spec_amount() == amount,
    {
        Transaction { date, amount }
    }

    /// The transaction's date.
    pub fn date(&self) -> (r: &Date)
        ensures
            *r == self.spec_date(),
    {
        &self.date
    }

    /// The transaction's amount.
    pub fn amount(&self) -> (r: &Currency<T>)
        ensures
            *r == self.spec_amount(),
    {
        &self.amount
    }

    /// Renders the transaction as `"<date>: <amount>"`, the date in
    /// ISO-8601.
    pub fn display(&self) -> (s: String)
        requires
            self.spec_date().valid(),
        ensures
            s@ == self.spec_date().iso_chars() + ": "@ + display_chars(
                T::symbol_spec(),
                self.spec_amount().spec_raw(),
            ),
    {
        let mut s = self.date.format_iso();
        s.append(": ");
        let amount = self.amount.display();
        s.append(amount.as_str());
        proof {
            assert(s@ =~= self.spec_date().iso_chars() + ": "@ + display_chars(
                T::symbol_spec(),
                self.spec_amount().spec_raw(),
            ));
        }
        s
    }
}

} // verus!
