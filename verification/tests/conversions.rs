//! Tests for the conversion engine: money display, exchange rates, the rate
//! table, transactions, and the pipeline.

use currency_conversions::conversions::currency::{Currency, EUR, USD};
use currency_conversions::conversions::daily_exchange_rates::{
    ConversionError, DailyExchangeRates,
};
use currency_conversions::conversions::exchange_rate::ExchangeRate;
use currency_conversions::conversions::pipeline::convert_transactions;
use currency_conversions::conversions::transaction::Transaction;
use currency_conversions::date::Date;

fn date(y: i32, m: u32, d: u32) -> Date {
    Date::from_ymd_opt(y, m, d).unwrap()
}

#[test]
fn test_currency() {
    let amount = Currency::<EUR>::from_raw_amount(12345);
    assert_eq!(amount.display(), "€ 123.45");
}

#[test]
fn test_currency_usd() {
    let amount = Currency::<USD>::from_raw_amount(10000);
    assert_eq!(amount.display(), "$ 100.00");
}

#[test]
fn test_currency_int() {
    let amount = Currency::<USD>::from_major_units(100);
    assert_eq!(amount.display(), "$ 100.00");
}

#[test]
fn test_currency_negative_display() {
    let amount = Currency::<EUR>::from_raw_amount(-50);
    assert_eq!(amount.display(), "€ -0.50");
    let amount = Currency::<EUR>::from_raw_amount(-12345);
    assert_eq!(amount.display(), "€ -123.45");
}

#[test]
fn test_currency_display_round_trip() {
    for raw in [0i64, 1, -1, 99, -99, 100, -100, 12345, -12345, i64::MAX, i64::MIN] {
        let amount = Currency::<EUR>::from_raw_amount(raw);
        let back = Currency::<EUR>::parse_display(amount.display().as_str()).unwrap();
        assert_eq!(back.raw_amount(), raw);
    }
}

#[test]
fn test_currency_parse_display_rejects() {
    assert!(Currency::<EUR>::parse_display("€ 12.3").is_none());
    assert!(Currency::<EUR>::parse_display("$ 12.34").is_none());
    assert!(Currency::<EUR>::parse_display("€ 12x34.56").is_none());
    assert!(Currency::<EUR>::parse_display("€ 99999999999999999999999999.00").is_none());
    assert_eq!(
        Currency::<EUR>::parse_display("€ 000123.45").unwrap().raw_amount(),
        12345
    );
}

#[test]
fn test_exchange_rate() {
    let rate = ExchangeRate::<EUR, USD>::new(8, 10);
    assert_eq!(rate, ExchangeRate::<EUR, USD>::new(8, 10));
    assert_eq!(rate.invert(), ExchangeRate::<USD, EUR>::new(10, 8));
    // The stored factor, with the unit scales divided back out, is 0.8.
    let (num, den) = rate.rate();
    assert_eq!(num * 10, den * 8);
}

#[test]
fn test_exchange_rate_convert() {
    let rate = ExchangeRate::<EUR, USD>::new(8, 10);
    let amount = Currency::<USD>::from_major_units(100);
    assert_eq!(rate.convert(amount), Currency::<EUR>::from_major_units(80));
}

#[test]
fn test_exchange_rate_convert_rounds_half_away() {
    // 0.5 of a minor unit rounds away from zero.
    let rate = ExchangeRate::<EUR, USD>::new(1, 2);
    assert_eq!(
        rate.convert(Currency::<USD>::from_raw_amount(3)).raw_amount(),
        2
    );
    assert_eq!(
        rate.convert(Currency::<USD>::from_raw_amount(-3)).raw_amount(),
        -2
    );
}

#[test]
fn test_exchange_rate_round_trip_within_one() {
    // Converting and converting back errs by at most one minor unit.
    for (num, den) in [(8u32, 10u32), (3, 7), (1, 2), (12, 10), (123, 100)] {
        let rate = ExchangeRate::<EUR, USD>::new(num, den);
        for raw in [0i64, 1, -1, 49, -49, 12345, -12345, 1000000007] {
            let amount = Currency::<USD>::from_raw_amount(raw);
            let back = rate.invert().convert(rate.convert(amount));
            let diff = back.raw_amount() - raw;
            assert!(-1 <= diff && diff <= 1);
        }
    }
}

#[test]
fn test_daily_exchange_rates() {
    let mut rates: DailyExchangeRates<EUR, USD> = DailyExchangeRates::new();
    rates.insert(date(2021, 1, 1), ExchangeRate::new(8, 10));
    rates.insert(date(2021, 1, 2), ExchangeRate::new(9, 10));

    assert_eq!(
        rates.day_rate(&date(2021, 1, 1)),
        Some(ExchangeRate::new(8, 10))
    );
    assert_eq!(
        rates.day_rate(&date(2021, 1, 2)),
        Some(ExchangeRate::new(9, 10))
    );
    assert_eq!(rates.day_rate(&date(2021, 1, 3)), None);
}

#[test]
fn test_daily_rates_convert() {
    let mut rates: DailyExchangeRates<EUR, USD> = DailyExchangeRates::new();
    rates.insert(date(2021, 1, 1), ExchangeRate::new(8, 10));
    rates.insert(date(2021, 1, 3), ExchangeRate::new(9, 10));

    let transaction = Transaction::new(date(2021, 1, 1), Currency::<USD>::from_major_units(100));
    assert_eq!(
        rates.convert(&transaction),
        Ok(Transaction::new(
            date(2021, 1, 1),
            Currency::<EUR>::from_major_units(80)
        ))
    );

    let transaction = Transaction::new(date(2021, 1, 2), Currency::<USD>::from_major_units(100));
    assert_eq!(
        rates.convert(&transaction),
        Err(ConversionError::MissingExchangeRate)
    );

    let transaction = Transaction::new(date(2021, 1, 3), Currency::<USD>::from_major_units(100));
    assert_eq!(
        rates.convert(&transaction),
        Ok(Transaction::new(
            date(2021, 1, 3),
            Currency::<EUR>::from_major_units(90)
        ))
    );
}

#[test]
fn test_daily_rates_from_entries_last_wins() {
    let entries = vec![
        (date(2021, 1, 1), ExchangeRate::<EUR, USD>::new(8, 10)),
        (date(2021, 1, 2), ExchangeRate::new(9, 10)),
        (date(2021, 1, 1), ExchangeRate::new(7, 10)),
    ];
    let rates = DailyExchangeRates::from_entries(&entries);
    assert_eq!(
        rates.day_rate(&date(2021, 1, 1)),
        Some(ExchangeRate::new(7, 10))
    );
    assert_eq!(
        rates.day_rate(&date(2021, 1, 2)),
        Some(ExchangeRate::new(9, 10))
    );
}

#[test]
fn test_transaction() {
    let transaction = Transaction::new(date(2021, 1, 1), Currency::<EUR>::from_raw_amount(12345));
    assert_eq!(transaction.display(), "2021-01-01: € 123.45");
}

#[test]
fn exchange_rate_test_exchange_rate() {
    let rate = ExchangeRate::<EUR, USD>::new(8, 10);
    assert_eq!(rate, ExchangeRate::<EUR, USD>::new(8, 10));
    assert_eq!(rate.invert(), ExchangeRate::<USD, EUR>::new(10, 8));
}

#[test]
fn daily_exchange_rates_test_daily_exchange_rates() {
    let mut rates: DailyExchangeRates<EUR, USD> = DailyExchangeRates::new();
    rates.insert(date(2021, 1, 1), ExchangeRate::new(8, 10));
    rates.insert(date(2021, 1, 2), ExchangeRate::new(9, 10));

    assert_eq!(
        rates.day_rate(&date(2021, 1, 1)),
        Some(ExchangeRate::new(8, 10))
    );
    assert_eq!(
        rates.day_rate(&date(2021, 1, 2)),
        Some(ExchangeRate::new(9, 10))
    );
    assert_eq!(rates.day_rate(&date(2021, 1, 3)), None);
}

#[test]
fn daily_exchange_rates_test_daily_rates_convert() {
    let mut rates: DailyExchangeRates<EUR, USD> = DailyExchangeRates::new();
    rates.insert(date(2021, 1, 1), ExchangeRate::new(8, 10));
    rates.insert(date(2021, 1, 3), ExchangeRate::new(9, 10));

    let transaction = Transaction::new(date(2021, 1, 1), Currency::<USD>::from_major_units(100));
    assert_eq!(
        rates.convert(&transaction),
        Ok(Transaction::new(
            date(2021, 1, 1),
            Currency::<EUR>::from_major_units(80)
        ))
    );

    let transaction = Transaction::new(date(2021, 1, 2), Currency::<USD>::from_major_units(100));
    assert_eq!(
        rates.convert(&transaction),
        Err(ConversionError::MissingExchangeRate)
    );

    let transaction = Transaction::new(date(2021, 1, 3), Currency::<USD>::from_major_units(100));
    assert_eq!(
        rates.convert(&transaction),
        Ok(Transaction::new(
            date(2021, 1, 3),
            Currency::<EUR>::from_major_units(90)
        ))
    );
}

#[test]
fn transaction_test_transaction() {
    let transaction = Transaction::new(date(2021, 1, 1), Currency::<EUR>::from_raw_amount(12345));
    assert_eq!(transaction.display(), "2021-01-01: € 123.45");
}

#[test]
fn test_conversion_error_message() {
    assert_eq!(
        ConversionError::MissingExchangeRate.message(),
        "Missing exchange rate"
    );
}

#[test]
fn test_pipeline_three_rows() {
    // A table with rates for two dates only; three transactions. Every input
    // row yields exactly one output row in input order; the rows with a rate
    // succeed, the row without one fails, and the run goes on.
    let mut rates: DailyExchangeRates<EUR, USD> = DailyExchangeRates::new();
    rates.insert(date(2021, 1, 1), ExchangeRate::new(8, 10));
    rates.insert(date(2021, 1, 2), ExchangeRate::new(9, 10));

    let transactions = vec![
        Transaction::new(date(2021, 1, 1), Currency::<USD>::from_major_units(100)),
        Transaction::new(date(2021, 1, 2), Currency::<USD>::from_major_units(100)),
        Transaction::new(date(2021, 1, 3), Currency::<USD>::from_major_units(100)),
    ];

    let out = convert_transactions(&transactions, &rates);
    assert_eq!(out.len(), 3);

    assert_eq!(*out[0].date(), date(2021, 1, 1));
    assert_eq!(*out[0].from_amount(), Currency::<USD>::from_major_units(100));
    assert_eq!(*out[0].exchange_rate(), Some(ExchangeRate::new(8, 10)));
    assert_eq!(
        *out[0].to_amount(),
        Ok(Currency::<EUR>::from_major_units(80))
    );

    assert_eq!(*out[1].date(), date(2021, 1, 2));
    assert_eq!(
        *out[1].to_amount(),
        Ok(Currency::<EUR>::from_major_units(90))
    );

    assert_eq!(*out[2].date(), date(2021, 1, 3));
    assert_eq!(*out[2].exchange_rate(), None);
    assert_eq!(
        *out[2].to_amount(),
        Err(ConversionError::MissingExchangeRate)
    );
}

#[test]
fn test_pipeline_empty_input() {
    let rates: DailyExchangeRates<EUR, USD> = DailyExchangeRates::new();
    let transactions: Vec<Transaction<USD>> = Vec::new();
    let out = convert_transactions(&transactions, &rates);
    assert!(out.is_empty());
}
