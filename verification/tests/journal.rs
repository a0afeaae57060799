use bullboard::decimal::Decimal;
use bullboard::events::Event;
use bullboard::events::Timestamp;
use bullboard::journal::Journal;
use bullboard::journal::JournalEntry;
use bullboard::journal::JournalRow;
use bullboard::journal::JournalRowType;
use bullboard::value_objects::Amount;
use bullboard::value_objects::StockIdentifier;

fn iphone_launched_at() -> Timestamp {
    Timestamp::new(2007, 1, 9, 9, 42, 0).unwrap()
}

#[test]
fn journal_from_stocks_bought_events() {
    let events = vec![
        Event::new_stocks_bought(
            iphone_launched_at(),
            Decimal::from_int(10),
            "100.00 USD".to_string(),
            "AAPL".to_string(),
        )
        .unwrap(),
        Event::new_stocks_bought(
            iphone_launched_at(),
            Decimal::from_int(20),
            "200.00 USD".to_string(),
            "AAPL".to_string(),
        )
        .unwrap(),
    ];
    let journal = Journal::new(events).unwrap();
    assert_eq!(
        journal.entries,
        vec![
            JournalEntry::Buy(JournalRow {
                date: Some(iphone_launched_at().date()),
                rtype: JournalRowType::Buy,
                identifier: StockIdentifier::from("AAPL".to_string()),
                amount: Decimal::from_int(10),
                price: Amount::parse("100.00 USD").unwrap(),
                total: Amount::parse("1000.00 USD").unwrap()
            }),
            JournalEntry::Buy(JournalRow {
                date: Some(iphone_launched_at().date()),
                rtype: JournalRowType::Buy,
                identifier: StockIdentifier::from("AAPL".to_string()),
                amount: Decimal::from_int(20),
                price: Amount::parse("200.00 USD").unwrap(),
                total: Amount::parse("4000.00 USD").unwrap()
            })
        ]
    );
}

#[test]
fn journal_from_dividend_paid_events() {
    let events = vec![
        Event::new_dividend_paid(
            iphone_launched_at(),
            "100.00 USD".to_string(),
            "AAPL".to_string(),
        )
        .unwrap(),
        Event::new_dividend_paid(
            iphone_launched_at(),
            "200.00 USD".to_string(),
            "AAPL".to_string(),
        )
        .unwrap(),
    ];
    let journal = Journal::new(events).unwrap();
    assert_eq!(
        journal.entries,
        vec![
            JournalEntry::Dividend(JournalRow {
                date: Some(iphone_launched_at().date()),
                rtype: JournalRowType::Dividend,
                identifier: StockIdentifier::from("AAPL".to_string()),
                amount: Decimal::from_int(1),
                price: Amount::parse("100.00 USD").unwrap(),
                total: Amount::parse("100.00 USD").unwrap()
            }),
            JournalEntry::Dividend(JournalRow {
                date: Some(iphone_launched_at().date()),
                rtype: JournalRowType::Dividend,
                identifier: StockIdentifier::from("AAPL".to_string()),
                amount: Decimal::from_int(1),
                price: Amount::parse("200.00 USD").unwrap(),
                total: Amount::parse("200.00 USD").unwrap()
            })
        ]
    );
}

#[test]
fn journal_from_price_obtained_events() {
    let events = vec![
        Event::new_price_obtained(
            iphone_launched_at(),
            "100.00 USD".to_string(),
            "AAPL".to_string(),
        )
        .unwrap(),
        Event::new_price_obtained(
            iphone_launched_at(),
            "200.00 USD".to_string(),
            "AAPL".to_string(),
        )
        .unwrap(),
    ];
    let journal = Journal::new(events).unwrap();
    assert_eq!(journal.entries, vec![]);
}

#[test]
fn journal_single_buy_has_one_row() {
    let events = vec![Event::new_stocks_bought(
        iphone_launched_at(),
        Decimal::from_int(10),
        "100.00 USD".to_string(),
        "AAPL".to_string(),
    )
    .unwrap()];
    let journal = Journal::new(events).unwrap();
    assert_eq!(journal.entries.len(), 1);
    match &journal.entries[0] {
        JournalEntry::Buy(row) => {
            assert_eq!(row.total, Amount::parse("1000.00 USD").unwrap());
        },
        other => panic!("expected a buy row, got {:?}", other),
    }
}

#[test]
fn journal_row_type_display() {
    assert_eq!(JournalRowType::Buy.display_string(), "Buy");
    assert_eq!(JournalRowType::Dividend.display_string(), "Dividend");
}
