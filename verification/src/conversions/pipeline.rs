//! The conversion pipeline: one output row per input transaction, in input
//! order. A missing rate fails the row, never the run.

use vstd::prelude::*;

use crate::conversions::currency::{Currency, CurrencyType};
use crate::conversions::daily_exchange_rates::{ConversionError, DailyExchangeRates};
use crate::conversions::exchange_rate::{convert_value, ExchangeRate};
use crate::conversions::transaction::Transaction;
use crate::date::Date;

verus! {

/// One row of pipeline output: the original dated amount, the rate used (if
/// any was found), and the conversion's result.
#[derive(Debug, PartialEq, Eq)]
pub struct OutputLine<N: CurrencyType, D: CurrencyType> {
    date: Date,
    from_amount: Currency<D>,
    exchange_rate: Option<ExchangeRate<N, D>>,
    to_amount: Result<Currency<N>, ConversionError>,
}

impl<N: CurrencyType, D: CurrencyType> OutputLine<N, D> {
    /// The row's date: the input transaction's date.
    pub closed spec fn spec_date(self) -> Date {
        self.date
    }

    /// The original amount.
    pub closed spec fn spec_from_amount(self) -> Currency<D> {
        self.from_amount
    }

    /// The rate found for the row's date, if any.
    pub closed spec fn spec_exchange_rate(self) -> Option<ExchangeRate<N, D>> {
        self.exchange_rate
    }

    /// The conversion's result: the converted amount, or the row's failure.
    pub closed spec fn spec_to_amount(self) -> Result<Currency<N>, ConversionError> {
        self.to_amount
    }

    /// Assembles a row from a source transaction, the rate found for its
    /// date, and the conversion's result. A successful conversion must carry
    /// the source transaction's date.
    pub fn from_transactions(
        from_transaction: Transaction<D>,
        rate: Option<ExchangeRate<N, D>>,
        to_transaction: Result<Transaction<N>, ConversionError>,
    ) -> (r: Self)
        requires
            to_transaction matches Ok(t) ==> t.spec_date() == from_transaction.spec_date(),
        ensures
            r.spec_date() == from_transaction.spec_date(),
            r.spec_from_amount() == from_transaction.spec_amount(),
            r.spec_exchange_rate() == rate,
            match to_transaction {
                Ok(t) => r.spec_to_amount() matches Ok(m) && m == t.spec_amount(),
                Err(e) => r.spec_to_amount() matches Err(e2) && e2 == e,
            },
    {
        let date = *from_transaction.date();
        let from_amount = from_transaction.amount().clone();
        let to_amount = match to_transaction {
            Ok(t) => Ok(t.amount().clone()),
            Err(e) => Err(e),
        };
        OutputLine { date, from_amount, exchange_rate: rate, to_amount }
    }

    /// The row's date.
    pub fn date(&self) -> (r: &Date)
        ensures
            *r == self.spec_date(),
    {
        &self.date
    }

    /// The original amount.
    pub fn from_amount(&self) -> (r: &Currency<D>)
        ensures
            *r == self.spec_from_amount(),
    {
        &self.from_amount
    }

    /// The rate found for the row's date, if any.
    pub fn exchange_rate(&self) -> (r: &Option<ExchangeRate<N, D>>)
        ensures
            *r == self.spec_exchange_rate(),
    {
        &self.exchange_rate
    }

    /// The conversion's result.
    pub fn to_amount(&self) -> (r: &Result<Currency<N>, ConversionError>)
        ensures
            *r == self.spec_to_amount(),
    {
        &self.to_amount
    }
}

/// What one output row of the pipeline holds for one input transaction: the
/// input's date and amount, the rate its date has in the table, and either
/// the converted amount or the row's typed failure.
pub open spec fn line_for<N: CurrencyType, D: CurrencyType>(
    line: OutputLine<N, D>,
    t: Transaction<D>,
    rates: DailyExchangeRates<N, D>,
) -> bool {
    &&& line.spec_date() == t.spec_date()
    &&& line.spec_from_amount() == t.spec_amount()
    &&& line.spec_exchange_rate() == rates.spec_day_rate(t.spec_date())
    &&& match rates.spec_day_rate(t.spec_date()) {
        Some(rate) => line.spec_to_amount() matches Ok(m) && m.spec_raw() == convert_value(
            t.spec_amount().spec_raw(),
            rate.spec_num(),
            rate.spec_den(),
        ),
        None => line.spec_to_amount() matches Err(ConversionError::MissingExchangeRate),
    }
}

/// Converts a batch of transactions against a rate table: exactly one output
/// row per input row, in input order; a missing rate is recorded in its row
/// and never aborts the batch.
pub fn convert_transactions<N: CurrencyType, D: CurrencyType>(
    transactions: &Vec<Transaction<D>>,
    rates: &DailyExchangeRates<N, D>,
) -> (out: Vec<OutputLine<N, D>>)
    requires
        rates.wf(),
    ensures
        out@.len() == transactions@.len(),
        forall|i: int| 0 <= i < out@.len() ==> line_for(#[trigger] out@[i], transactions@[i], *rates),
{
    let n = transactions.len();
    let mut out: Vec<OutputLine<N, D>> = Vec::new();
    let mut i: usize = 0;
    while i < n
        invariant
            0 <= i <= n == transactions@.len(),
            rates.wf(),
            out@.len() == i,
            forall|j: int|
                0 <= j < i ==> line_for(#[trigger] out@[j], transactions@[j], *rates),
        decreases n - i,
    {
        let transaction = &transactions[i];
        let to_transaction = rates.convert(transaction);
        let rate = rates.day_rate(transaction.date());
        let line = OutputLine::from_transactions(transaction.clone(), rate, to_transaction);
        out.push(line);
        i = i + 1;
    }
    out
}

} // verus!
