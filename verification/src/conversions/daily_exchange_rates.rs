//! The daily rate table: a date-keyed collection of exchange rates for one
//! fixed currency pair, with exact-date lookup and per-transaction
//! conversion.

use vstd::prelude::*;

use crate::conversions::currency::{Currency, CurrencyType};
use crate::conversions::exchange_rate::{convert_value, ExchangeRate};
use crate::conversions::transaction::Transaction;
use crate::date::Date;

verus! {

/// A per-row conversion failure. It never aborts a whole run.
#[derive(Clone, Copy, Debug, PartialEq, Eq, Structural)]
pub enum ConversionError {
    /// The rate table has no entry for the transaction's date.
    MissingExchangeRate,
}

impl ConversionError {
    /// A human-readable description of the failure.
    pub fn message(&self) -> (s: String)
        ensures
            s@ == "Missing exchange rate"@,
    {
        match self {
            ConversionError::MissingExchangeRate => String::from_str("Missing exchange rate"),
        }
    }
}

/// The rate stored for `date`, read from the front of the entry sequence.
pub open spec fn lookup<N: CurrencyType, D: CurrencyType>(
    s: Seq<(Date, ExchangeRate<N, D>)>,
    date: Date,
) -> Option<ExchangeRate<N, D>>
    decreases s.len(),
{
    if s.len() == 0 {
        None
    } else if s[0].0 == date {
        Some(s[0].1)
    } else {
        lookup(s.skip(1), date)
    }
}

/// Whether some entry of `s` carries `date`.
pub open spec fn has_date<N: CurrencyType, D: CurrencyType>(
    s: Seq<(Date, ExchangeRate<N, D>)>,
    date: Date,
) -> bool {
    exists|i: int| 0 <= i < s.len() && (#[trigger] s[i]).0 == date
}

/// The rate stored for `date`, read from the back: what a left-to-right
/// sequence of inserts leaves in the table.
pub open spec fn lookup_last<N: CurrencyType, D: CurrencyType>(
    s: Seq<(Date, ExchangeRate<N, D>)>,
    date: Date,
) -> Option<ExchangeRate<N, D>>
    decreases s.len(),
{
    if s.len() == 0 {
        None
    } else if s.last().0 == date {
        Some(s.last().1)
    } else {
        lookup_last(s.drop_last(), date)
    }
}

/// A lookup misses exactly when no entry carries the date.
proof fn lemma_lookup_none<N: CurrencyType, D: CurrencyType>(
    s: Seq<(Date, ExchangeRate<N, D>)>,
    date: Date,
)
    ensures
        lookup(s, date) is None <==> !has_date(s, date),
    decreases s.len(),
{
    if s.len() > 0 && s[0].0 != date {
        lemma_lookup_none(s.skip(1), date);
        assert(forall|i: int| 0 <= i < s.skip(1).len() ==> #[trigger] s.skip(1)[i] == s[i + 1]);
        if has_date(s, date) {
            let i = choose|i: int| 0 <= i < s.len() && (#[trigger] s[i]).0 == date;
            assert(s.skip(1)[i - 1] == s[i]);
        }
    }
}

/// A lookup in a one-entry sequence finds that entry's rate exactly for its
/// date.
proof fn lemma_lookup_singleton<N: CurrencyType, D: CurrencyType>(
    e: (Date, ExchangeRate<N, D>),
    d: Date,
)
    ensures
        lookup(seq![e], d) == if e.0 == d {
            Some(e.1)
        } else {
            None::<ExchangeRate<N, D>>
        },
{
    let s = seq![e];
    assert(s.len() == 1);
    assert(s[0] == e);
    if e.0 != d {
        assert(s.skip(1) =~= Seq::<(Date, ExchangeRate<N, D>)>::empty());
        assert(lookup(Seq::<(Date, ExchangeRate<N, D>)>::empty(), d) is None);
    }
}

/// Replacing the first entry that carries a date changes the lookup for
/// that date alone.
proof fn lemma_lookup_update<N: CurrencyType, D: CurrencyType>(
    s: Seq<(Date, ExchangeRate<N, D>)>,
    i: int,
    e: (Date, ExchangeRate<N, D>),
    d: Date,
)
    requires
        0 <= i < s.len(),
        s[i].0 == e.0,
        forall|j: int| 0 <= j < i ==> (#[trigger] s[j]).0 != e.0,
    ensures
        lookup(s.update(i, e), d) == if d == e.0 {
            Some(e.1)
        } else {
            lookup(s, d)
        },
    decreases i,
{
    let s2 = s.update(i, e);
    if i == 0 {
        assert(s2[0] == e);
        if d != e.0 {
            assert(s2.skip(1) =~= s.skip(1));
        }
    } else {
        assert(s2[0] == s[0]);
        assert(s[0].0 != e.0);
        if d != s[0].0 {
            assert(s2.skip(1) =~= s.skip(1).update(i - 1, e));
            assert(s.skip(1)[i - 1] == s[i]);
            assert(forall|j: int|
                0 <= j < i - 1 ==> #[trigger] s.skip(1)[j] == s[j + 1]);
            lemma_lookup_update(s.skip(1), i - 1, e, d);
        }
    }
}

/// A lookup over concatenated entries reads the front part first.
proof fn lemma_lookup_append<N: CurrencyType, D: CurrencyType>(
    s: Seq<(Date, ExchangeRate<N, D>)>,
    t: Seq<(Date, ExchangeRate<N, D>)>,
    date: Date,
)
    ensures
        lookup(s + t, date) == if has_date(s, date) {
            lookup(s, date)
        } else {
            lookup(t, date)
        },
    decreases s.len(),
{
    lemma_lookup_none(s, date);
    if s.len() == 0 {
        assert(s + t =~= t);
    } else if (s + t)[0].0 == date {
        assert(s[0] == (s + t)[0]);
    } else {
        assert((s + t).skip(1) =~= s.skip(1) + t);
        lemma_lookup_append(s.skip(1), t, date);
        lemma_lookup_none(s.skip(1), date);
        assert(forall|i: int| 0 <= i < s.skip(1).len() ==> #[trigger] s.skip(1)[i] == s[i + 1]);
        if has_date(s, date) {
            let i = choose|i: int| 0 <= i < s.len() && (#[trigger] s[i]).0 == date;
            assert(s.skip(1)[i - 1] == s[i]);
        }
    }
}

/// A date-keyed table of exchange rates for the fixed pair `(N, D)`: keys
/// are unique, lookup is by exact date only.
#[derive(Debug, PartialEq, Eq)]
pub struct DailyExchangeRates<N: CurrencyType, D: CurrencyType> {
    rates: Vec<(Date, ExchangeRate<N, D>)>,
}

impl<N: CurrencyType, D: CurrencyType> DailyExchangeRates<N, D> {
    /// The stored entries.
    pub closed spec fn spec_entries(self) -> Seq<(Date, ExchangeRate<N, D>)> {
        self.rates@
    }

    /// Every stored rate is well-formed and every date occurs at most once.
    pub open spec fn wf(self) -> bool {
        &&& forall|i: int|
            0 <= i < self.spec_entries().len() ==> (#[trigger] self.spec_entries()[i]).1.wf()
        &&& forall|i: int, j: int|
            0 <= i < j < self.spec_entries().len() ==> (#[trigger] self.spec_entries()[i]).0 != (
            #[trigger] self.spec_entries()[j]).0
    }

    /// The rate stored for `date`, if any.
    pub open spec fn spec_day_rate(self, date: Date) -> Option<ExchangeRate<N, D>> {
        lookup(self.spec_entries(), date)
    }

    /// An empty table.
    pub fn new() -> (r: Self)
        ensures
            r.wf(),
            forall|date: Date| r.spec_day_rate(date) is None,
    {
        DailyExchangeRates { rates: Vec::new() }
    }

    /// Stores a rate for a date, replacing any rate the date already had.
    #[verifier::loop_isolation(false)]
    pub fn insert(&mut self, date: Date, rate: ExchangeRate<N, D>)
        requires
            old(self).wf(),
            rate.wf(),
        ensures
            final(self).wf(),
            final(self).spec_day_rate(date) == Some(rate),
            forall|d: Date|
                d != date ==> final(self).spec_day_rate(d) == old(self).spec_day_rate(d),
    {
        let ghost s = self.rates@;
        let n = self.rates.len();
        let mut i: usize = 0;
        while i < n
            invariant
                0 <= i <= n == s.len(),
                s == self.rates@,
                old(self).wf(),
                s == old(self).spec_entries(),
                forall|j: int| 0 <= j < i ==> (#[trigger] s[j]).0 != date,
            decreases n - i,
        {
            if self.rates[i].0 == date {
                self.rates[i] = (date, rate.clone());
                proof {
                    let s2 = self.rates@;
                    assert(s2 =~= s.update(i as int, (date, rate)));
                    assert forall|d: Date| #[trigger]
                        lookup(s2, d) == if d == date {
                            Some(rate)
                        } else {
                            lookup(s, d)
                        } by {
                        lemma_lookup_update(s, i as int, (date, rate), d);
                    }
                    assert(self.wf()) by {
                        assert(forall|j: int|
                            0 <= j < s2.len() && j != i ==> s2[j] == s[j]);
                        assert(s2[i as int].0 == s[i as int].0);
                        assert(s2[i as int].1 == rate);
                    }
                }
                return ;
            }
            i = i + 1;
        }
        self.rates.push((date, rate));
        proof {
            let s2 = self.rates@;
            assert(s2 =~= s + seq![(date, rate)]);
            assert(!has_date(s, date));
            assert forall|d: Date| #[trigger]
                lookup(s2, d) == if d == date {
                    Some(rate)
                } else {
                    lookup(s, d)
                } by {
                lemma_lookup_append(s, seq![(date, rate)], d);
                lemma_lookup_none(s, d);
                lemma_lookup_singleton((date, rate), d);
                if d == date {
                    lemma_lookup_none(s, date);
                }
            }
            assert(self.wf()) by {
                assert(forall|j: int| 0 <= j < s.len() ==> s2[j] == s[j]);
                assert(s2[s.len() as int].0 == date);
            }
        }
    }

    /// Builds a table from a sequence of dated rates, read left to right:
    /// when two entries carry one date, the later entry wins.
    pub fn from_entries(entries: &Vec<(Date, ExchangeRate<N, D>)>) -> (r: Self)
        requires
            forall|i: int| 0 <= i < entries@.len() ==> (#[trigger] entries@[i]).1.wf(),
        ensures
            r.wf(),
            forall|date: Date| #[trigger]
                r.spec_day_rate(date) == lookup_last(entries@, date),
    {
        let mut table = DailyExchangeRates::new();
        let n = entries.len();
        let mut i: usize = 0;
        while i < n
            invariant
                0 <= i <= n == entries@.len(),
                forall|k: int| 0 <= k < entries@.len() ==> (#[trigger] entries@[k]).1.wf(),
                table.wf(),
                forall|date: Date| #[trigger]
                    table.spec_day_rate(date) == lookup_last(entries@.take(i as int), date),
            decreases n - i,
        {
            let entry = &entries[i];
            let date = entry.0;
            let rate = entry.1.clone();
            let ghost before = table;
            table.insert(date, rate);
            proof {
                assert forall|d: Date| #[trigger]
                    table.spec_day_rate(d) == lookup_last(entries@.take(i as int + 1), d) by {
                    let t2 = entries@.take(i as int + 1);
                    assert(t2.drop_last() =~= entries@.take(i as int));
                    assert(t2.last() == entries@[i as int]);
                }
            }
            i = i + 1;
        }
        proof {
            assert(entries@.take(n as int) =~= entries@);
        }
        table
    }

    /// The stored rate for `date`, or nothing when the table has no entry
    /// for it: exact match only, never an estimate.
    pub fn day_rate(&self, date: &Date) -> (r: Option<ExchangeRate<N, D>>)
        ensures
            r == self.spec_day_rate(*date),
    {
        let ghost s = self.rates@;
        proof {
            assert(s.skip(0) =~= s);
        }
        let n = self.rates.len();
        let mut i: usize = 0;
        while i < n
            invariant
                0 <= i <= n == s.len(),
                s == self.rates@,
                lookup(s, *date) == lookup(s.skip(i as int), *date),
            decreases n - i,
        {
            if self.rates[i].0 == *date {
                proof {
                    assert(s.skip(i as int)[0] == s[i as int]);
                }
                return Some(self.rates[i].1.clone());
            }
            proof {
                assert(s.skip(i as int)[0] == s[i as int]);
                assert(s.skip(i as int).skip(1) =~= s.skip(i as int + 1));
            }
            i = i + 1;
        }
        proof {
            assert(s.skip(n as int) =~= Seq::<(Date, ExchangeRate<N, D>)>::empty());
        }
        None
    }

    /// Converts a transaction of the denominator currency using the rate of
    /// its date. Succeeds, preserving the date, exactly when the table has a
    /// rate for that date; fails with `MissingExchangeRate` otherwise.
    pub fn convert(&self, transaction: &Transaction<D>) -> (r: Result<
        Transaction<N>,
        ConversionError,
    >)
        requires
            self.wf(),
        ensures
            match self.spec_day_rate(transaction.spec_date()) {
                Some(rate) => r matches Ok(t) && t.spec_date() == transaction.spec_date()
                    && t.spec_amount().spec_raw() == convert_value(
                    transaction.spec_amount().spec_raw(),
                    rate.spec_num(),
                    rate.spec_den(),
                ),
                None => r matches Err(ConversionError::MissingExchangeRate),
            },
    {
        match self.day_rate(transaction.date()) {
            None => Err(ConversionError::MissingExchangeRate),
            Some(rate) => {
                proof {
                    self.lemma_found_rate_wf(transaction.spec_date());
                }
                let amount = rate.convert(transaction.amount().clone());
                Ok(Transaction::new(*transaction.date(), amount))
            },
        }
    }

    /// Any rate a lookup finds in a well-formed table is well-formed.
    proof fn lemma_found_rate_wf(self, date: Date)
        requires
            self.wf(),
            self.spec_day_rate(date) is Some,
        ensures
            self.spec_day_rate(date)->0.wf(),
    {
        self.lemma_lookup_in_entries(self.spec_entries(), date);
    }

    /// A found rate is one of the stored entries.
    proof fn lemma_lookup_in_entries(self, s: Seq<(Date, ExchangeRate<N, D>)>, date: Date)
        requires
            lookup(s, date) is Some,
            forall|i: int| 0 <= i < s.len() ==> (#[trigger] s[i]).1.wf(),
        ensures
            lookup(s, date)->0.wf(),
        decreases s.len(),
    {
        if s.len() > 0 && s[0].0 != date {
            assert(forall|i: int| 0 <= i < s.skip(1).len() ==> #[trigger] s.skip(1)[i] == s[i + 1]);
            self.lemma_lookup_in_entries(s.skip(1), date);
        }
    }
}

} // verus!
