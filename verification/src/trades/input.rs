//! Broker trade records: one row of export data per record, already parsed
//! into plain values.

use vstd::prelude::*;

use crate::date::Date;
use crate::text::str_eq;

verus! {

/// The kind tag of a broker record.
#[derive(Clone, Copy, Debug, PartialEq, Eq, Structural)]
pub enum RecordKind {
    /// An order row; not part of any sale.
    Order,
    /// A sale event row.
    Trade,
    /// A closed-lot row: part of the preceding trade's cost basis.
    ClosedLot,
    /// Any other kind tag; carried along and filtered out before
    /// reconciliation.
    Other,
}

/// What reading a kind tag yields: the known kinds for their exact tags,
/// `Other` for everything else.
pub open spec fn spec_parse_kind(s: Seq<char>) -> RecordKind {
    if s == "Order"@ {
        RecordKind::Order
    } else if s == "Trade"@ {
        RecordKind::Trade
    } else if s == "ClosedLot"@ {
        RecordKind::ClosedLot
    } else {
        RecordKind::Other
    }
}

impl RecordKind {
    /// Reads a kind tag. Never fails: an unrecognized tag becomes `Other`.
    pub fn parse(s: &str) -> (r: RecordKind)
        ensures
            r == spec_parse_kind(s@),
    {
        if str_eq(s, "Order") {
            RecordKind::Order
        } else if str_eq(s, "Trade") {
            RecordKind::Trade
        } else if str_eq(s, "ClosedLot") {
            RecordKind::ClosedLot
        } else {
            RecordKind::Other
        }
    }
}

/// One row of broker export data. Quantities, prices, proceeds and basis are
/// fixed-point values: plain integers of whatever sub-unit scale the feed's
/// reader chose, compared and summed exactly.
#[derive(Debug, PartialEq, Eq)]
pub struct IbkrInputLine {
    /// The record's kind tag.
    pub data_discriminator: RecordKind,
    /// The currency code, verbatim.
    pub currency: String,
    /// The traded symbol, verbatim.
    pub symbol: String,
    /// The record's date.
    pub date: Date,
    /// The quantity moved.
    pub quantity: i64,
    /// The unit price.
    pub t_price: i64,
    /// The proceeds, when the row carries any. Closed-lot rows never do.
    pub proceeds: Option<i64>,
    /// The cost basis.
    pub basis: i64,
}

impl Clone for IbkrInputLine {
    fn clone(&self) -> (r: Self)
        ensures
            r == *self,
    {
        IbkrInputLine {
            data_discriminator: self.data_discriminator,
            currency: self.currency.clone(),
            symbol: self.symbol.clone(),
            date: self.date,
            quantity: self.quantity,
            t_price: self.t_price,
            proceeds: self.proceeds,
            basis: self.basis,
        }
    }
}

impl IbkrInputLine {
    /// The record's date names an existing calendar day.
    pub open spec fn wf(self) -> bool {
        self.date.valid()
    }
}

/// A whole broker export: its records in feed order.
#[derive(Debug, PartialEq, Eq)]
pub struct IbkrInput {
    /// The records, in the order the feed gave them.
    pub lines: Vec<IbkrInputLine>,
}

} // verus!
