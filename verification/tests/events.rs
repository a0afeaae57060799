use bullboard::date_utils::ParseError;
use bullboard::decimal::Decimal;
use bullboard::events::Date;
use bullboard::events::Event;
use bullboard::events::Timestamp;
use bullboard::value_objects::MoneyError;

#[test]
fn timestamp_validates_field_ranges() {
    assert!(Timestamp::new(2020, 8, 10, 0, 0, 0).is_some());
    assert!(Timestamp::new(2020, 0, 10, 0, 0, 0).is_none());
    assert!(Timestamp::new(2020, 13, 10, 0, 0, 0).is_none());
    assert!(Timestamp::new(2020, 8, 32, 0, 0, 0).is_none());
    assert!(Timestamp::new(2020, 8, 10, 24, 0, 0).is_none());
}

#[test]
fn timestamp_date_is_its_day_part() {
    let ts = Timestamp::new(2007, 1, 9, 9, 42, 0).unwrap();
    assert_eq!(ts.date(), Date { year: 2007, month: 1, day: 9 });
}

#[test]
fn event_created_at_returns_creation_time() {
    let ts = Timestamp::new(2007, 1, 9, 9, 42, 0).unwrap();
    let e = Event::new_price_obtained(ts, "1.00 USD".to_string(), "AAPL".to_string()).unwrap();
    assert_eq!(e.created_at(), ts);
}

#[test]
fn event_constructors_reject_malformed_prices() {
    let ts = Timestamp::new(2007, 1, 9, 9, 42, 0).unwrap();
    let r = Event::new_stocks_bought(
        ts,
        Decimal::from_int(1),
        "not a price".to_string(),
        "AAPL".to_string(),
    );
    match r {
        Err(MoneyError::MalformedAmount(s)) => assert_eq!(s, "not a price"),
        other => panic!("expected MalformedAmount, got {:?}", other),
    }
    assert!(Event::new_price_obtained(ts, "1,00 USD".to_string(), "AAPL".to_string()).is_err());
    assert!(Event::new_dividend_paid(ts, "USD 1.00 USD".to_string(), "AAPL".to_string()).is_err());
}

#[test]
fn parse_error_wraps_its_source() {
    let _err = ParseError::new("Could not parse date 2020-02-31".to_string());
    assert_eq!(
        ParseError::new("x".to_string()),
        ParseError::new("x".to_string())
    );
}
