use bullboard::dashboard::Dashboard;
use bullboard::decimal::Decimal;
use bullboard::events::Event;
use bullboard::events::Timestamp;
use bullboard::value_objects::Amount;
use bullboard::value_objects::Amounts;
use bullboard::value_objects::Asset;
use bullboard::value_objects::Currency;
use bullboard::value_objects::MoneyError;

fn iphone_launched_at() -> Timestamp {
    Timestamp::new(2007, 1, 9, 9, 42, 0).unwrap()
}

fn date_time(year: u16, month: u8, day: u8) -> Timestamp {
    Timestamp::new(year, month, day, 0, 0, 0).unwrap()
}

fn asset_for(dashboard: &Dashboard, ticker: &str) -> Asset {
    dashboard
        .assets()
        .into_iter()
        .find(|a| a.identifier.ticker == ticker)
        .expect("no asset for ticker")
}

#[test]
fn test_that_stocks_bought_adds_asset() {
    let dashboard = Dashboard::new(vec![Event::new_stocks_bought(
        iphone_launched_at(),
        Decimal::from_int(10),
        "13.37 USD".to_string(),
        "AAPL".to_string(),
    )
    .unwrap()])
    .unwrap();
    assert_eq!(dashboard.assets().len(), 1);
}

#[test]
fn test_that_stocks_bought_sets_dividend_to_zero() {
    let dashboard = Dashboard::new(vec![Event::new_stocks_bought(
        iphone_launched_at(),
        Decimal::from_int(10),
        "13.37 USD".to_string(),
        "AAPL".to_string(),
    )
    .unwrap()])
    .unwrap();

    assert_eq!(
        asset_for(&dashboard, "AAPL").dividends,
        Amount::new(Decimal::from_int(0), Currency("USD".to_string()))
    );
}

#[test]
fn test_stocks_bought_with_multiple_currencies() {
    let events = vec![
        Event::new_stocks_bought(
            iphone_launched_at(),
            Decimal::from_int(1),
            "42.00 USD".to_string(),
            "AAPL".to_string(),
        )
        .unwrap(),
        Event::new_stocks_bought(
            iphone_launched_at(),
            Decimal::from_int(1),
            "13.37 EUR".to_string(),
            "ASR-AS".to_string(),
        )
        .unwrap(),
    ];
    let dashboard = Dashboard::new(events).unwrap();

    assert_eq!(
        dashboard.total_buying_price,
        Amounts::new(vec![
            Amount::parse("13.37 EUR").unwrap(),
            Amount::parse("42.00 USD").unwrap(),
        ])
    );
}

#[test]
fn test_stocks_bought_has_default_totals() {
    let dashboard = Dashboard::new(vec![]).unwrap();
    assert_eq!(dashboard.total_value, Amounts::zero());
    assert_eq!(dashboard.total_dividend, Amounts::zero());
    assert_eq!(dashboard.total_buying_price, Amounts::zero());
    assert_eq!(dashboard.number_of_positions, 0);
}

#[test]
fn test_stocks_bought_adds_totals() {
    let events = vec![
        Event::new_stocks_bought(
            iphone_launched_at(),
            Decimal::from_int(1),
            "42.00 USD".to_string(),
            "AAPL".to_string(),
        )
        .unwrap(),
        Event::new_price_obtained(
            date_time(2020, 1, 1),
            "42.00 USD".to_string(),
            "AAPL".to_string(),
        )
        .unwrap(),
    ];
    let dashboard = Dashboard::new(events).unwrap();

    assert_eq!(
        dashboard.total_value,
        Amounts::new(vec![Amount::parse("42.00 USD").unwrap()])
    );
}

#[test]
fn test_price_obtained_with_multiple_currencies() {
    let date = date_time(2020, 1, 1);
    let events = vec![
        Event::new_stocks_bought(
            iphone_launched_at(),
            Decimal::from_int(1),
            "42.00 USD".to_string(),
            "AAPL".to_string(),
        )
        .unwrap(),
        Event::new_stocks_bought(
            iphone_launched_at(),
            Decimal::from_int(1),
            "13.37 EUR".to_string(),
            "ASR-AS".to_string(),
        )
        .unwrap(),
        Event::new_price_obtained(date, "42.00 USD".to_string(), "AAPL".to_string()).unwrap(),
        Event::new_price_obtained(date, "13.37 EUR".to_string(), "ASR-AS".to_string()).unwrap(),
    ];
    let dashboard = Dashboard::new(events).unwrap();

    assert_eq!(
        dashboard.total_value,
        Amounts::new(vec![
            Amount::parse("13.37 EUR").unwrap(),
            Amount::parse("42.00 USD").unwrap(),
        ])
    );
}

#[test]
fn test_that_dividend_paid_adds_dividend_to_asset() {
    let events = vec![
        // first we need to buy some stocks before getting dividend on them
        Event::new_stocks_bought(
            iphone_launched_at(),
            Decimal::from_int(10),
            "13.37 USD".to_string(),
            "AAPL".to_string(),
        )
        .unwrap(),
        Event::new_dividend_paid(iphone_launched_at(), "13.37 USD".to_string(), "AAPL".to_string())
            .unwrap(),
    ];
    let dashboard = Dashboard::new(events).unwrap();

    assert_eq!(
        asset_for(&dashboard, "AAPL").dividends,
        Amount::parse("133.70 USD").unwrap()
    );
}

#[test]
fn test_single_purchase_dashboard() {
    // one purchase: ten shares at 13.37 USD each
    let dashboard = Dashboard::new(vec![Event::new_stocks_bought(
        iphone_launched_at(),
        Decimal::from_int(10),
        "13.37 USD".to_string(),
        "AAPL".to_string(),
    )
    .unwrap()])
    .unwrap();

    assert_eq!(dashboard.number_of_positions, 1);
    let asset = asset_for(&dashboard, "AAPL");
    assert_eq!(asset.amount, Decimal::from_int(10));
    assert_eq!(asset.dividends, Amount::parse("0.00 USD").unwrap());
    assert_eq!(asset.value, None);
    assert_eq!(
        dashboard.total_buying_price,
        Amounts::new(vec![Amount::parse("133.70 USD").unwrap()])
    );
}

#[test]
fn test_dividend_in_other_currency_is_mismatch() {
    let events = vec![
        Event::new_stocks_bought(
            iphone_launched_at(),
            Decimal::from_int(10),
            "13.37 USD".to_string(),
            "AAPL".to_string(),
        )
        .unwrap(),
        Event::new_dividend_paid(iphone_launched_at(), "1.00 EUR".to_string(), "AAPL".to_string())
            .unwrap(),
    ];
    match Dashboard::new(events) {
        Err(e) => assert_eq!(e, MoneyError::CurrencyMismatch),
        Ok(_) => panic!("expected a currency mismatch"),
    }
}
