//! The sale reconciler: groups a flat, chronologically ordered list of
//! broker records into sale events, each owning the closed lots that
//! realized it, and validates that the lots' totals agree with their trade's
//! reported totals.
//!
//! Reconciliation is one pass and all-or-nothing: the first failing segment
//! aborts the whole run with its typed error.

use vstd::prelude::*;

use crate::currency::{spec_parse_currency, Currency};
use crate::date::Date;
use crate::trades::input::{IbkrInput, IbkrInputLine, RecordKind};

verus! {

/// A closed lot: a prior acquisition, or part of one, consumed to realize
/// part or all of a sale.
#[derive(Clone, Copy, Debug, PartialEq, Eq, Structural)]
pub struct ClosedLot {
    /// The lot's acquisition date.
    pub date: Date,
    /// The quantity closed out of the lot.
    pub quantity: i64,
    /// The lot's unit price.
    pub t_price: i64,
    /// The lot's cost basis.
    pub basis: i64,
}

/// A reconciled sale: one trade record and the closed lots that funded it,
/// in input order.
#[derive(Debug, PartialEq, Eq)]
pub struct IbkrSale {
    /// The sale's currency code.
    pub currency: Currency,
    /// The traded symbol.
    pub symbol: String,
    /// The trade's date.
    pub date: Date,
    /// The trade's unit price.
    pub t_price: i64,
    /// The trade's proceeds.
    pub proceeds: i64,
    /// The lots closed by this sale, in input order.
    pub closed_lots: Vec<ClosedLot>,
}

/// The mathematical value of a reconciled sale.
pub ghost struct SaleView {
    /// The sale's currency code.
    pub currency: crate::currency::CurrencyView,
    /// The traded symbol.
    pub symbol: Seq<char>,
    /// The trade's date.
    pub date: Date,
    /// The trade's unit price.
    pub t_price: i64,
    /// The trade's proceeds.
    pub proceeds: i64,
    /// The lots closed by this sale, in input order.
    pub closed_lots: Seq<ClosedLot>,
}

impl View for IbkrSale {
    type V = SaleView;

    closed spec fn view(&self) -> SaleView {
        SaleView {
            currency: self.currency@,
            symbol: self.symbol@,
            date: self.date,
            t_price: self.t_price,
            proceeds: self.proceeds,
            closed_lots: self.closed_lots@,
        }
    }
}

/// The mathematical values of a sequence of sales.
pub open spec fn sales_views(s: Seq<IbkrSale>) -> Seq<SaleView> {
    s.map_values(|sale: IbkrSale| sale@)
}

/// The reconciled sales of one broker export, in input order.
#[derive(Debug, PartialEq, Eq)]
pub struct IbkrSales {
    /// The sales, ordered as their trade records came.
    pub sales: Vec<IbkrSale>,
}

impl View for IbkrSales {
    type V = Seq<SaleView>;

    closed spec fn view(&self) -> Seq<SaleView> {
        sales_views(self.sales@)
    }
}

/// Why a reconciliation failed. Any one of these aborts the whole run.
#[derive(Clone, Copy, Debug, PartialEq, Eq, Structural)]
pub enum IbkrSaleError {
    /// The filtered input has no trade record at all.
    NoSales,
    /// A closed lot has no preceding trade, or does not match its trade's
    /// symbol or currency.
    UnmatchedClosedLot,
    /// A closed lot's date is later than its trade's date.
    LotClosedAfterTrade,
    /// The lots' quantity or basis totals differ from the trade's.
    LotSumMismatch,
    /// The trade record carries no proceeds.
    TradeMissingProceeds,
}

impl IbkrSaleError {
    /// A human-readable description of the failure.
    pub fn message(&self) -> (s: String)
        ensures
            s@ == match *self {
                IbkrSaleError::NoSales => "No sales found"@,
                IbkrSaleError::UnmatchedClosedLot => "Unmatched closed lot"@,
                IbkrSaleError::LotClosedAfterTrade => "Lot closed after trade"@,
                IbkrSaleError::LotSumMismatch => "Sum of closed lots does not match trade basis"@,
                IbkrSaleError::TradeMissingProceeds => "Trade missing proceeds"@,
            },
    {
        match self {
            IbkrSaleError::NoSales => String::from_str("No sales found"),
            IbkrSaleError::UnmatchedClosedLot => String::from_str("Unmatched closed lot"),
            IbkrSaleError::LotClosedAfterTrade => String::from_str("Lot closed after trade"),
            IbkrSaleError::LotSumMismatch => String::from_str(
                "Sum of closed lots does not match trade basis",
            ),
            IbkrSaleError::TradeMissingProceeds => String::from_str("Trade missing proceeds"),
        }
    }
}

/// Whether a record survives the upstream filter: only trades and closed
/// lots take part in reconciliation, and a record with negative proceeds is
/// excluded.
pub open spec fn keeps_line(l: IbkrInputLine) -> bool {
    &&& (l.data_discriminator == RecordKind::Trade || l.data_discriminator
        == RecordKind::ClosedLot)
    &&& (l.proceeds matches Some(p) ==> p >= 0)
}

/// The records that survive the upstream filter, in input order.
pub open spec fn filtered_lines(lines: Seq<IbkrInputLine>) -> Seq<IbkrInputLine> {
    lines.filter(|l: IbkrInputLine| keeps_line(l))
}

/// Whether any record of `s` is a trade.
pub open spec fn has_trade(s: Seq<IbkrInputLine>) -> bool {
    exists|i: int| 0 <= i < s.len() && (#[trigger] s[i]).data_discriminator == RecordKind::Trade
}

/// The first index at or after `i` whose record is a trade, or the length
/// when there is none.
pub open spec fn next_trade(s: Seq<IbkrInputLine>, i: int) -> int
    decreases s.len() - i,
{
    if i < 0 || i >= s.len() {
        s.len() as int
    } else if s[i].data_discriminator == RecordKind::Trade {
        i
    } else {
        next_trade(s, i + 1)
    }
}

/// What validating one closed-lot record against its trade yields: the lot,
/// or the first reason it cannot belong to that trade.
pub open spec fn lot_of_line(line: IbkrInputLine, trade: IbkrInputLine) -> Result<
    ClosedLot,
    IbkrSaleError,
> {
    if trade.symbol@ != line.symbol@ || trade.currency@ != line.currency@ {
        Err(IbkrSaleError::UnmatchedClosedLot)
    } else if line.date.to_key() > trade.date.to_key() {
        Err(IbkrSaleError::LotClosedAfterTrade)
    } else {
        Ok(
            ClosedLot {
                date: line.date,
                quantity: line.quantity,
                t_price: line.t_price,
                basis: line.basis,
            },
        )
    }
}

/// What validating the records `s[i..end]` as the lots of `trade` yields:
/// the lots in input order, or the first record's failure.
pub open spec fn lots_of(
    s: Seq<IbkrInputLine>,
    trade: IbkrInputLine,
    i: int,
    end: int,
) -> Result<Seq<ClosedLot>, IbkrSaleError>
    decreases end - i,
{
    if i >= end {
        Ok(Seq::empty())
    } else {
        match lot_of_line(s[i], trade) {
            Err(e) => Err(e),
            Ok(lot) => match lots_of(s, trade, i + 1, end) {
                Err(e) => Err(e),
                Ok(rest) => Ok(seq![lot] + rest),
            },
        }
    }
}

/// The sum of the lots' quantities.
pub open spec fn sum_qty(lots: Seq<ClosedLot>) -> int
    decreases lots.len(),
{
    if lots.len() == 0 {
        0
    } else {
        sum_qty(lots.drop_last()) + lots.last().quantity
    }
}

/// The sum of the lots' cost bases.
pub open spec fn sum_basis(lots: Seq<ClosedLot>) -> int
    decreases lots.len(),
{
    if lots.len() == 0 {
        0
    } else {
        sum_basis(lots.drop_last()) + lots.last().basis
    }
}

/// What building one sale from the segment `s[start..end]` yields. The
/// segment's first record is the trade; the rest are its candidate lots.
/// After the lots validate, their totals must equal the trade's exactly, and
/// the trade must carry proceeds.
pub open spec fn sale_of_segment(s: Seq<IbkrInputLine>, start: int, end: int) -> Result<
    SaleView,
    IbkrSaleError,
>
    recommends
        0 <= start < end <= s.len(),
{
    let trade = s[start];
    match lots_of(s, trade, start + 1, end) {
        Err(e) => Err(e),
        Ok(lots) => {
            if sum_basis(lots) != trade.basis || sum_qty(lots) != trade.quantity {
                Err(IbkrSaleError::LotSumMismatch)
            } else {
                match trade.proceeds {
                    None => Err(IbkrSaleError::TradeMissingProceeds),
                    Some(p) => Ok(
                        SaleView {
                            currency: spec_parse_currency(trade.currency@),
                            symbol: trade.symbol@,
                            date: trade.date,
                            t_price: trade.t_price,
                            proceeds: p,
                            closed_lots: lots,
                        },
                    ),
                }
            }
        },
    }
}

/// What reconciling the filtered records from position `p` on yields, where
/// `p` sits on a trade record or at the end: one sale per segment, in input
/// order, or the first segment's failure.
pub open spec fn sales_from(s: Seq<IbkrInputLine>, p: int) -> Result<Seq<SaleView>, IbkrSaleError>
    decreases s.len() - p,
{
    if p < 0 || p >= s.len() {
        Ok(Seq::empty())
    } else {
        let e0 = next_trade(s, p + 1);
        let e = if e0 < p + 1 {
            p + 1
        } else if e0 > s.len() {
            s.len() as int
        } else {
            e0
        };
        match sale_of_segment(s, p, e) {
            Err(err) => Err(err),
            Ok(sale) => match sales_from(s, e) {
                Err(err) => Err(err),
                Ok(rest) => Ok(seq![sale] + rest),
            },
        }
    }
}

/// What reconciling a broker export yields: records other than trades and
/// closed lots (and records with negative proceeds) are filtered out; the
/// remainder must open with a trade; every trade opens one segment, and each
/// segment builds one sale.
pub open spec fn reconcile_spec(lines: Seq<IbkrInputLine>) -> Result<
    Seq<SaleView>,
    IbkrSaleError,
> {
    let f = filtered_lines(lines);
    if !has_trade(f) {
        Err(IbkrSaleError::NoSales)
    } else if f[0].data_discriminator != RecordKind::Trade {
        Err(IbkrSaleError::UnmatchedClosedLot)
    } else {
        sales_from(f, 0)
    }
}

/// `next_trade` stays within the sequence, lands on a trade when it lands
/// inside, and skips no trade.
proof fn lemma_next_trade_bounds(s: Seq<IbkrInputLine>, i: int)
    requires
        0 <= i <= s.len(),
    ensures
        i <= next_trade(s, i) <= s.len(),
        next_trade(s, i) < s.len() ==> s[next_trade(s, i)].data_discriminator == RecordKind::Trade,
        forall|k: int|
            i <= k < next_trade(s, i) ==> (#[trigger] s[k]).data_discriminator
                != RecordKind::Trade,
    decreases s.len() - i,
{
    if i < s.len() && s[i].data_discriminator != RecordKind::Trade {
        lemma_next_trade_bounds(s, i + 1);
    }
}

/// A scan that passed no trade and stopped at a trade (or the end) computes
/// `next_trade`.
proof fn lemma_next_trade_at(s: Seq<IbkrInputLine>, i: int, j: int)
    requires
        0 <= i <= j <= s.len(),
        forall|k: int| i <= k < j ==> (#[trigger] s[k]).data_discriminator != RecordKind::Trade,
        j == s.len() || s[j].data_discriminator == RecordKind::Trade,
    ensures
        next_trade(s, i) == j,
    decreases j - i,
{
    if i < j {
        lemma_next_trade_at(s, i + 1, j);
    }
}

/// A validated lot extends the lot list at its end.
proof fn lemma_lots_snoc(
    s: Seq<IbkrInputLine>,
    trade: IbkrInputLine,
    i: int,
    j: int,
    lot: ClosedLot,
)
    requires
        i <= j,
        lots_of(s, trade, i, j) is Ok,
        lot_of_line(s[j], trade) == Ok::<ClosedLot, IbkrSaleError>(lot),
    ensures
        lots_of(s, trade, i, j + 1) == Ok::<Seq<ClosedLot>, IbkrSaleError>(
            lots_of(s, trade, i, j)->Ok_0.push(lot),
        ),
    decreases j - i,
{
    if i == j {
        assert(lots_of(s, trade, i, j)->Ok_0 =~= Seq::<ClosedLot>::empty());
        assert(lots_of(s, trade, i + 1, j + 1) == Ok::<Seq<ClosedLot>, IbkrSaleError>(
            Seq::empty(),
        ));
        assert(seq![lot] + Seq::<ClosedLot>::empty() =~= Seq::<ClosedLot>::empty().push(lot));
    } else {
        let l0 = lot_of_line(s[i], trade)->Ok_0;
        let rest = lots_of(s, trade, i + 1, j);
        assert(rest is Ok);
        lemma_lots_snoc(s, trade, i + 1, j, lot);
        assert(seq![l0] + rest->Ok_0.push(lot) =~= (seq![l0] + rest->Ok_0).push(lot));
    }
}

/// A failing lot fails the whole segment with its error, whatever follows.
proof fn lemma_lots_err(
    s: Seq<IbkrInputLine>,
    trade: IbkrInputLine,
    i: int,
    j: int,
    end: int,
    e: IbkrSaleError,
)
    requires
        i <= j < end,
        lots_of(s, trade, i, j) is Ok,
        lot_of_line(s[j], trade) == Err::<ClosedLot, IbkrSaleError>(e),
    ensures
        lots_of(s, trade, i, end) == Err::<Seq<ClosedLot>, IbkrSaleError>(e),
    decreases j - i,
{
    if i < j {
        lemma_lots_err(s, trade, i + 1, j, end, e);
    }
}

impl ClosedLot {
    /// Validates one closed-lot record against its trade: the lot's symbol
    /// and currency must match the trade's, and the lot cannot close later
    /// than the trade's date.
    pub fn from_closed_lot_line(line: &IbkrInputLine, trade: &IbkrInputLine) -> (r: Result<
        ClosedLot,
        IbkrSaleError,
    >)
        requires
            line.wf(),
            trade.wf(),
        ensures
            r == lot_of_line(*line, *trade),
    {
        let date = line.date;
        let quantity = line.quantity;
        let t_price = line.t_price;
        let basis = line.basis;

        if !(trade.symbol == line.symbol) || !(trade.currency == line.currency) {
            return Err(IbkrSaleError::UnmatchedClosedLot);
        } else if line.date.is_after(&trade.date) {
            return Err(IbkrSaleError::LotClosedAfterTrade);
        }

        Ok(Self { date, quantity, t_price, basis })
    }
}

impl IbkrSale {
    /// Builds one sale from the segment `lines[start..end]`: the record at
    /// `start` is the trade, the rest are its candidate lots, validated in
    /// order; then the lots' totals must equal the trade's exactly, and the
    /// trade must carry proceeds.
    #[verifier::loop_isolation(false)]
    pub fn from_sales_slice(lines: &Vec<IbkrInputLine>, start: usize, end: usize) -> (r: Result<
        IbkrSale,
        IbkrSaleError,
    >)
        requires
            start < end <= lines@.len(),
            forall|k: int| 0 <= k < lines@.len() ==> (#[trigger] lines@[k]).wf(),
        ensures
            match (r, sale_of_segment(lines@, start as int, end as int)) {
                (Ok(sale), Ok(view)) => sale@ == view,
                (Err(e1), Err(e2)) => e1 == e2,
                _ => false,
            },
    {
        let ghost t = lines@[start as int];
        let trade = &lines[start];
        let mut lots: Vec<ClosedLot> = Vec::new();
        let mut qty_sum: i128 = 0;
        let mut basis_sum: i128 = 0;
        let mut j = start + 1;
        proof {
            assert(lots_of(lines@, t, start + 1, start + 1) == Ok::<
                Seq<ClosedLot>,
                IbkrSaleError,
            >(Seq::empty()));
            assert(lots@ =~= Seq::<ClosedLot>::empty());
        }
        while j < end
            invariant
                start + 1 <= j <= end <= lines@.len(),
                forall|k: int| 0 <= k < lines@.len() ==> (#[trigger] lines@[k]).wf(),
                t == lines@[start as int],
                start < end,
                lots_of(lines@, t, start + 1, j as int) == Ok::<Seq<ClosedLot>, IbkrSaleError>(
                    lots@,
                ),
                lots@.len() == j - start - 1,
                qty_sum == sum_qty(lots@),
                basis_sum == sum_basis(lots@),
                -((j - start - 1) as int) * 0x8000000000000000 <= qty_sum <= ((j - start
                    - 1) as int) * 0x8000000000000000,
                -((j - start - 1) as int) * 0x8000000000000000 <= basis_sum <= ((j - start
                    - 1) as int) * 0x8000000000000000,
            decreases end - j,
        {
            let line = &lines[j];
            let lot = match ClosedLot::from_closed_lot_line(line, trade) {
                Err(e) => {
                    proof {
                        lemma_lots_err(lines@, t, start + 1, j as int, end as int, e);
                    }
                    return Err(e);
                },
                Ok(lot) => lot,
            };
            proof {
                lemma_lots_snoc(lines@, t, start + 1, j as int, lot);
                assert(lots@.push(lot).drop_last() =~= lots@);
                assert(sum_qty(lots@.push(lot)) == sum_qty(lots@) + lot.quantity);
                assert(sum_basis(lots@.push(lot)) == sum_basis(lots@) + lot.basis);
                assert(((j - start - 1) as int) * 0x8000000000000000 + 0x8000000000000000 == ((j
                    - start) as int) * 0x8000000000000000) by (nonlinear_arith);
                assert(((j - start) as int) * 0x8000000000000000 <= 0xffffffffffffffff
                    * 0x8000000000000000) by (nonlinear_arith)
                    requires
                        j - start <= 0xffffffffffffffff,
                ;
            }
            qty_sum = qty_sum + (line.quantity as i128);
            basis_sum = basis_sum + (line.basis as i128);
            lots.push(lot);
            j = j + 1;
        }
        if basis_sum != (trade.basis as i128) || qty_sum != (trade.quantity as i128) {
            return Err(IbkrSaleError::LotSumMismatch);
        }
        match trade.proceeds {
            None => Err(IbkrSaleError::TradeMissingProceeds),
            Some(p) => {
                let sale = IbkrSale {
                    currency: Currency::parse(trade.currency.as_str()),
                    symbol: trade.symbol.clone(),
                    date: trade.date,
                    t_price: trade.t_price,
                    proceeds: p,
                    closed_lots: lots,
                };
                Ok(sale)
            },
        }
    }
}

/// The first index at or after `from` whose record is a trade, or the
/// record count when there is none.
fn next_trade_index(lines: &Vec<IbkrInputLine>, from: usize) -> (r: usize)
    requires
        from <= lines@.len(),
    ensures
        r == next_trade(lines@, from as int),
        from <= r <= lines@.len(),
{
    let n = lines.len();
    let mut j = from;
    while j < n && !(matches!(lines[j].data_discriminator, RecordKind::Trade))
        invariant
            from <= j <= n == lines@.len(),
            forall|k: int|
                from <= k < j ==> (#[trigger] lines@[k]).data_discriminator != RecordKind::Trade,
        decreases n - j,
    {
        j = j + 1;
    }
    proof {
        lemma_next_trade_at(lines@, from as int, j as int);
    }
    j
}

impl IbkrSales {
    /// Reconciles a broker export into its sales: filters the records down
    /// to trades and closed lots (dropping records with negative proceeds),
    /// demands that the remainder opens with a trade, and builds one sale
    /// per trade segment, in input order. The first failure aborts the whole
    /// run.
    #[verifier::loop_isolation(false)]
    pub fn from_input(input: IbkrInput) -> (r: Result<IbkrSales, IbkrSaleError>)
        requires
            forall|i: int| 0 <= i < input.lines@.len() ==> (#[trigger] input.lines@[i]).wf(),
        ensures
            match (r, reconcile_spec(input.lines@)) {
                (Ok(sales), Ok(views)) => sales@ == views,
                (Err(e1), Err(e2)) => e1 == e2,
                _ => false,
            },
    {
        let lines = input.lines;
        let ghost orig = lines@;
        let n = lines.len();
        let mut filtered: Vec<IbkrInputLine> = Vec::new();
        let mut i: usize = 0;
        proof {
            reveal(Seq::filter);
            assert(orig.take(0) =~= Seq::<IbkrInputLine>::empty());
            assert(filtered@ =~= filtered_lines(orig.take(0)));
        }
        while i < n
            invariant
                0 <= i <= n == orig.len(),
                orig == lines@,
                filtered@ == filtered_lines(orig.take(i as int)),
                forall|k: int| 0 <= k < orig.len() ==> (#[trigger] orig[k]).wf(),
                forall|k: int| 0 <= k < filtered@.len() ==> (#[trigger] filtered@[k]).wf(),
            decreases n - i,
        {
            let l = &lines[i];
            let keep = (matches!(l.data_discriminator, RecordKind::Trade) || matches!(
                l.data_discriminator,
                RecordKind::ClosedLot,
            )) && (match l.proceeds {
                Some(p) => p >= 0,
                None => true,
            });
            proof {
                reveal(Seq::filter);
                assert(orig.take(i + 1).drop_last() =~= orig.take(i as int));
                assert(orig.take(i + 1).last() == orig[i as int]);
                assert(keep == keeps_line(orig[i as int]));
            }
            if keep {
                filtered.push(l.clone());
            }
            i = i + 1;
        }
        proof {
            assert(orig.take(n as int) =~= orig);
        }
        let ghost f = filtered@;
        let m = filtered.len();
        let ft = next_trade_index(&filtered, 0);
        if ft == m {
            proof {
                lemma_next_trade_bounds(f, 0);
                if has_trade(f) {
                    let w = choose|w: int|
                        0 <= w < f.len() && (#[trigger] f[w]).data_discriminator
                            == RecordKind::Trade;
                    assert(f[w].data_discriminator != RecordKind::Trade);
                }
            }
            return Err(IbkrSaleError::NoSales);
        }
        if ft != 0 {
            proof {
                lemma_next_trade_bounds(f, 0);
                assert(f[ft as int].data_discriminator == RecordKind::Trade);
                assert(has_trade(f));
                assert(f[0].data_discriminator != RecordKind::Trade);
            }
            return Err(IbkrSaleError::UnmatchedClosedLot);
        }
        proof {
            lemma_next_trade_bounds(f, 0);
            assert(f[0].data_discriminator == RecordKind::Trade);
            assert(has_trade(f));
        }
        let mut sales: Vec<IbkrSale> = Vec::new();
        let mut p: usize = 0;
        proof {
            assert(sales_views(sales@) =~= Seq::<SaleView>::empty());
        }
        while p < m
            invariant
                0 <= p <= m == f.len(),
                f == filtered@,
                forall|k: int| 0 <= k < f.len() ==> (#[trigger] f[k]).wf(),
                p < m ==> f[p as int].data_discriminator == RecordKind::Trade,
                match sales_from(f, p as int) {
                    Ok(rest) => sales_from(f, 0) == Ok::<Seq<SaleView>, IbkrSaleError>(
                        sales_views(sales@) + rest,
                    ),
                    Err(e) => sales_from(f, 0) == Err::<Seq<SaleView>, IbkrSaleError>(e),
                },
            decreases m - p,
        {
            let e = next_trade_index(&filtered, p + 1);
            proof {
                lemma_next_trade_bounds(f, p as int + 1);
            }
            match IbkrSale::from_sales_slice(&filtered, p, e) {
                Err(err) => {
                    proof {
                        assert(sales_from(f, p as int) == Err::<Seq<SaleView>, IbkrSaleError>(
                            err,
                        ));
                    }
                    return Err(err);
                },
                Ok(sale) => {
                    proof {
                        let rest0 = sales_from(f, e as int);
                        assert(sales_from(f, p as int) == match rest0 {
                            Err(er) => Err::<Seq<SaleView>, IbkrSaleError>(er),
                            Ok(rest) => Ok::<Seq<SaleView>, IbkrSaleError>(seq![sale@] + rest),
                        });
                        assert(sales_views(sales@.push(sale)) =~= sales_views(sales@).push(
                            sale@,
                        ));
                        if rest0 is Ok {
                            assert(sales_views(sales@) + (seq![sale@] + rest0->Ok_0)
                                =~= sales_views(sales@.push(sale)) + rest0->Ok_0);
                        }
                    }
                    sales.push(sale);
                    p = e;
                },
            }
        }
        proof {
            assert(sales_from(f, m as int) == Ok::<Seq<SaleView>, IbkrSaleError>(Seq::empty()));
            assert(sales_views(sales@) + Seq::<SaleView>::empty() =~= sales_views(sales@));
        }
        Ok(IbkrSales { sales })
    }
}

} // verus!
