//! Tests for the sale reconciler.

use currency_conversions::currency::Currency;
use currency_conversions::date::Date;
use currency_conversions::trades::input::{IbkrInput, IbkrInputLine, RecordKind};
use currency_conversions::trades::sale::{ClosedLot, IbkrSale, IbkrSaleError, IbkrSales};

fn date(y: i32, m: u32, d: u32) -> Date {
    Date::from_ymd_opt(y, m, d).unwrap()
}

fn line(
    kind: RecordKind,
    date: Date,
    quantity: i64,
    t_price: i64,
    proceeds: Option<i64>,
    basis: i64,
) -> IbkrInputLine {
    IbkrInputLine {
        data_discriminator: kind,
        currency: "USD".to_string(),
        symbol: "TST".to_string(),
        date,
        quantity,
        t_price,
        proceeds,
        basis,
    }
}

#[test]
fn test_ibkr_sales() {
    let input = IbkrInput {
        lines: vec![
            line(RecordKind::Trade, date(2023, 1, 4), 2, 11, Some(22), 20),
            line(RecordKind::ClosedLot, date(2023, 1, 1), 2, 10, None, 20),
        ],
    };

    let sales = IbkrSales::from_input(input).unwrap();

    assert!(sales.sales.len() == 1);
    assert_eq!(
        sales.sales[0],
        IbkrSale {
            currency: Currency::USD,
            symbol: "TST".into(),
            date: date(2023, 1, 4),
            t_price: 11,
            proceeds: 22,
            closed_lots: vec![ClosedLot {
                date: date(2023, 1, 1),
                quantity: 2,
                t_price: 10,
                basis: 20,
            }],
        }
    );
}

#[test]
fn test_ibkr_sales_multiple_lots() {
    let input = IbkrInput {
        lines: vec![
            line(RecordKind::Trade, date(2023, 1, 4), 3, 11, Some(33), 30),
            line(RecordKind::ClosedLot, date(2023, 1, 1), 1, 10, None, 10),
            line(RecordKind::ClosedLot, date(2023, 1, 2), 2, 10, None, 20),
        ],
    };

    let sales = IbkrSales::from_input(input).unwrap();

    assert!(sales.sales.len() == 1);
    assert_eq!(
        sales.sales[0],
        IbkrSale {
            currency: Currency::USD,
            symbol: "TST".into(),
            date: date(2023, 1, 4),
            t_price: 11,
            proceeds: 33,
            closed_lots: vec![
                ClosedLot { date: date(2023, 1, 1), quantity: 1, t_price: 10, basis: 10 },
                ClosedLot { date: date(2023, 1, 2), quantity: 2, t_price: 10, basis: 20 },
            ],
        }
    );
}

#[test]
fn test_ibkr_sales_concatenated_inputs() {
    let input = IbkrInput {
        lines: vec![
            line(RecordKind::Trade, date(2023, 1, 4), 2, 11, Some(22), 20),
            line(RecordKind::ClosedLot, date(2023, 1, 1), 2, 10, None, 20),
            line(RecordKind::Trade, date(2023, 1, 4), 3, 11, Some(33), 30),
            line(RecordKind::ClosedLot, date(2023, 1, 1), 1, 10, None, 10),
            line(RecordKind::ClosedLot, date(2023, 1, 2), 2, 10, None, 20),
        ],
    };

    let sales = IbkrSales::from_input(input).unwrap();

    assert!(sales.sales.len() == 2);
    assert_eq!(
        sales.sales[0],
        IbkrSale {
            currency: Currency::USD,
            symbol: "TST".into(),
            date: date(2023, 1, 4),
            t_price: 11,
            proceeds: 22,
            closed_lots: vec![ClosedLot {
                date: date(2023, 1, 1),
                quantity: 2,
                t_price: 10,
                basis: 20,
            }],
        }
    );
    assert_eq!(
        sales.sales[1],
        IbkrSale {
            currency: Currency::USD,
            symbol: "TST".into(),
            date: date(2023, 1, 4),
            t_price: 11,
            proceeds: 33,
            closed_lots: vec![
                ClosedLot { date: date(2023, 1, 1), quantity: 1, t_price: 10, basis: 10 },
                ClosedLot { date: date(2023, 1, 2), quantity: 2, t_price: 10, basis: 20 },
            ],
        }
    );
}

#[test]
fn test_ibkr_sales_unmatched_leading_lot() {
    // A closed lot with no preceding trade fails the whole reconciliation.
    let input = IbkrInput {
        lines: vec![
            line(RecordKind::ClosedLot, date(2023, 1, 1), 2, 10, None, 20),
            line(RecordKind::Trade, date(2023, 1, 4), 2, 11, Some(22), 20),
        ],
    };
    assert_eq!(
        IbkrSales::from_input(input),
        Err(IbkrSaleError::UnmatchedClosedLot)
    );
}

#[test]
fn test_ibkr_sales_unmatched_symbol() {
    let mut lot = line(RecordKind::ClosedLot, date(2023, 1, 1), 2, 10, None, 20);
    lot.symbol = "OTHER".to_string();
    let input = IbkrInput {
        lines: vec![
            line(RecordKind::Trade, date(2023, 1, 4), 2, 11, Some(22), 20),
            lot,
        ],
    };
    assert_eq!(
        IbkrSales::from_input(input),
        Err(IbkrSaleError::UnmatchedClosedLot)
    );
}

#[test]
fn test_ibkr_sales_lot_sum_mismatch() {
    // The lots' basis total differs from the trade's basis.
    let input = IbkrInput {
        lines: vec![
            line(RecordKind::Trade, date(2023, 1, 4), 2, 11, Some(22), 20),
            line(RecordKind::ClosedLot, date(2023, 1, 1), 2, 10, None, 19),
        ],
    };
    assert_eq!(
        IbkrSales::from_input(input),
        Err(IbkrSaleError::LotSumMismatch)
    );
}

#[test]
fn test_ibkr_sales_lot_quantity_mismatch() {
    let input = IbkrInput {
        lines: vec![
            line(RecordKind::Trade, date(2023, 1, 4), 2, 11, Some(22), 20),
            line(RecordKind::ClosedLot, date(2023, 1, 1), 1, 10, None, 20),
        ],
    };
    assert_eq!(
        IbkrSales::from_input(input),
        Err(IbkrSaleError::LotSumMismatch)
    );
}

#[test]
fn test_ibkr_sales_lot_closed_after_trade() {
    let input = IbkrInput {
        lines: vec![
            line(RecordKind::Trade, date(2023, 1, 4), 2, 11, Some(22), 20),
            line(RecordKind::ClosedLot, date(2023, 1, 5), 2, 10, None, 20),
        ],
    };
    assert_eq!(
        IbkrSales::from_input(input),
        Err(IbkrSaleError::LotClosedAfterTrade)
    );
}

#[test]
fn test_ibkr_sales_trade_missing_proceeds() {
    let input = IbkrInput {
        lines: vec![
            line(RecordKind::Trade, date(2023, 1, 4), 2, 11, None, 20),
            line(RecordKind::ClosedLot, date(2023, 1, 1), 2, 10, None, 20),
        ],
    };
    assert_eq!(
        IbkrSales::from_input(input),
        Err(IbkrSaleError::TradeMissingProceeds)
    );
}

#[test]
fn test_ibkr_sales_no_sales() {
    // Orders alone never make a sale.
    let input = IbkrInput {
        lines: vec![line(RecordKind::Order, date(2023, 1, 1), 2, 10, Some(20), 20)],
    };
    assert_eq!(IbkrSales::from_input(input), Err(IbkrSaleError::NoSales));

    let empty = IbkrInput { lines: Vec::new() };
    assert_eq!(IbkrSales::from_input(empty), Err(IbkrSaleError::NoSales));
}

#[test]
fn test_ibkr_sales_negative_proceeds_filtered() {
    // A trade with negative proceeds is excluded upstream; with nothing else
    // left, there are no sales.
    let input = IbkrInput {
        lines: vec![line(
            RecordKind::Trade,
            date(2023, 1, 1),
            2,
            10,
            Some(-20),
            20,
        )],
    };
    assert_eq!(IbkrSales::from_input(input), Err(IbkrSaleError::NoSales));
}

#[test]
fn test_ibkr_sale_error_message() {
    assert_eq!(IbkrSaleError::NoSales.message(), "No sales found");
    assert_eq!(
        IbkrSaleError::UnmatchedClosedLot.message(),
        "Unmatched closed lot"
    );
    assert_eq!(
        IbkrSaleError::LotClosedAfterTrade.message(),
        "Lot closed after trade"
    );
    assert_eq!(
        IbkrSaleError::LotSumMismatch.message(),
        "Sum of closed lots does not match trade basis"
    );
    assert_eq!(
        IbkrSaleError::TradeMissingProceeds.message(),
        "Trade missing proceeds"
    );
}

#[test]
fn test_record_kind_parse() {
    assert_eq!(RecordKind::parse("Order"), RecordKind::Order);
    assert_eq!(RecordKind::parse("Trade"), RecordKind::Trade);
    assert_eq!(RecordKind::parse("ClosedLot"), RecordKind::ClosedLot);
    assert_eq!(RecordKind::parse("Header"), RecordKind::Other);
}

#[test]
fn test_from_str() {
    assert_eq!(Currency::parse("USD"), Currency::USD);
    assert_eq!(Currency::parse("EUR"), Currency::EUR);
    assert_eq!(Currency::parse("JPY"), Currency::Other("JPY".to_string()));
}
