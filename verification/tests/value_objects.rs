use bullboard::decimal::Decimal;
use bullboard::value_objects::Amount;
use bullboard::value_objects::Amounts;
use bullboard::value_objects::Currency;
use bullboard::value_objects::MoneyError;
use bullboard::value_objects::StockIdentifier;

#[test]
fn test_amount_display() {
    let amount = Amount::parse("123.45 EUR").unwrap();
    assert_eq!(amount.display_string(), "123.45 EUR");
}

#[test]
fn test_amount_display_no_currency() {
    let amount = Amount::zero(Currency("".to_string()));
    assert_eq!(amount.display_string(), "0.00");
}

#[test]
fn test_amount_zero() {
    let amount = Amount::zero(Currency("USD".to_string()));
    assert_eq!(amount.num, Decimal::parse("0.00").unwrap());
    assert_eq!(amount.currency.0, "USD".to_string());
}

#[test]
fn test_amount_from_string() {
    let good_strings = vec![
        ("123.45 EUR", ("123.45", "EUR")),
        ("200 USD", ("200", "USD")),
        ("0.0045 BTC", ("0.0045", "BTC")),
    ];

    for (s, (num, currency)) in good_strings {
        let amount = Amount::parse(s).unwrap();
        assert_eq!(amount.num, Decimal::parse(num).unwrap());
        assert_eq!(amount.currency.0, currency.to_string());
    }
}

#[test]
fn test_amount_mul() {
    let amount = Amount::parse("123.45 EUR").unwrap();
    let amount = amount.checked_mul(Decimal::from_int(2)).unwrap();
    assert_eq!(amount.num, Decimal::parse("246.90").unwrap());
    assert_eq!(amount.currency.0, "EUR".to_string());
}

#[test]
fn test_amount_add() {
    let amount = Amount::parse("123.45 EUR").unwrap();
    let amount = amount.checked_add_num(Decimal::parse("123.45").unwrap()).unwrap();
    assert_eq!(amount.num, Decimal::parse("246.90").unwrap());
    assert_eq!(amount.currency.0, "EUR".to_string());
}

#[test]
fn test_amount_add_assign() {
    let amount = Amount::parse("123.45 EUR").unwrap();
    let amount = amount.checked_add(&Amount::parse("123.45 EUR").unwrap()).unwrap();
    assert_eq!(amount.num, Decimal::parse("246.90").unwrap());
    assert_eq!(amount.currency.0, "EUR".to_string());
}

#[test]
fn test_amount_add_different_currencies_is_mismatch() {
    let amount = Amount::parse("123.45 EUR").unwrap();
    let other = Amount::parse("123.45 USD").unwrap();
    assert_eq!(amount.checked_add(&other), Err(MoneyError::CurrencyMismatch));
}

#[test]
fn test_amount_parse_rejects_malformed() {
    match Amount::parse("garbage") {
        Err(MoneyError::MalformedAmount(s)) => assert_eq!(s, "garbage"),
        other => panic!("expected MalformedAmount, got {:?}", other),
    }
    assert!(Amount::parse("12.3.4 EUR").is_err());
    assert!(Amount::parse("12 EUR extra").is_err());
    assert!(Amount::parse("").is_err());
    assert!(Amount::parse("12.3456789012345 EUR").is_err());
}

#[test]
fn test_amount_parse_format_round_trip() {
    // parse then display normalizes the number to two decimal places
    assert_eq!(Amount::parse("123.4 EUR").unwrap().display_string(), "123.40 EUR");
    assert_eq!(Amount::parse("200 USD").unwrap().display_string(), "200.00 USD");
    assert_eq!(Amount::parse("0.0045 BTC").unwrap().display_string(), "0.00 BTC");
    assert_eq!(Amount::parse("  7.5   JPY ").unwrap().display_string(), "7.50 JPY");
}

#[test]
fn test_decimal_display_rounds_half_away_from_zero() {
    assert_eq!(Decimal::parse("0.005").unwrap().format2(), "0.01");
    assert_eq!(Decimal::parse("0.004999").unwrap().format2(), "0.00");
    assert_eq!(Decimal::parse("-1.005").unwrap().format2(), "-1.01");
}

#[test]
fn test_stock_identifier_display() {
    let stock = StockIdentifier::from("AAPL".to_string());
    assert_eq!(stock.display_string(), "AAPL");
}

#[test]
fn test_amounts_upsert_with_new_currency() {
    let mut amounts = Amounts::default();
    amounts.upsert(Amount::parse("123.45 EUR").unwrap()).unwrap();
    assert_eq!(amounts.len(), 1);
}

#[test]
fn test_amounts_zero_has_default_currency() {
    let amounts = Amounts::zero();
    let default_curr = Currency::default();
    assert_eq!(amounts.for_currency(&default_curr), Amount::zero(Currency::default()));
    assert!(amounts.contains_currency(&default_curr));
}

#[test]
fn test_amounts_sorted_by_currency() {
    let amounts = Amounts::new(vec![
        Amount::parse("123.45 USD").unwrap(),
        Amount::parse("123.45 EUR").unwrap(),
    ]);

    assert_eq!(
        amounts.sorted(),
        vec![
            Amount::parse("123.45 EUR").unwrap(),
            Amount::parse("123.45 USD").unwrap(),
        ]
    );
}

#[test]
fn test_currency_has_default() {
    let currency = Currency::default();
    assert_eq!(currency.0, "USD");
}

#[test]
fn test_amount_overflow_is_reported() {
    // twenty-five integer digits parse fine, but squaring the value cannot
    // be represented
    let big = Amount::parse("9999999999999999999999999 USD").unwrap();
    let factor = Decimal::parse("9999999999999999999999999").unwrap();
    assert_eq!(big.checked_mul(factor), Err(MoneyError::Overflow));

    let mut amounts = Amounts::default();
    amounts.upsert(big.duplicate()).unwrap();
    // the sum of two representable values can still overflow the bag entry
    let mut more = big.duplicate();
    for _ in 0..20 {
        match amounts.upsert(more.duplicate()) {
            Ok(()) => match more.checked_add(&more) {
                Ok(doubled) => more = doubled,
                Err(e) => {
                    assert_eq!(e, MoneyError::Overflow);
                    return;
                }
            },
            Err(e) => {
                assert_eq!(e, MoneyError::Overflow);
                return;
            }
        }
    }
    panic!("expected an overflow");
}
