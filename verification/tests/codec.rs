use bullboard::codec::decode_event;
use bullboard::codec::encode_event;
use bullboard::cqrs::CqrsFramework;
use bullboard::decimal::Decimal;
use bullboard::event_store::EventStore;
use bullboard::event_store::memory::MemoryEventStore;
use bullboard::events::Event;
use bullboard::events::Timestamp;

fn iphone_launched_at() -> Timestamp {
    Timestamp::new(2007, 1, 9, 9, 42, 0).unwrap()
}

#[test]
fn wire_round_trip_stocks_bought() {
    let e = Event::new_stocks_bought(
        iphone_launched_at(),
        Decimal::parse("10.5").unwrap(),
        "13.37 USD".to_string(),
        "AAPL".to_string(),
    )
    .unwrap();
    let wire = encode_event(&e);
    assert_eq!(decode_event(wire.as_str()), Some(e));
}

#[test]
fn wire_round_trip_price_obtained() {
    let e = Event::new_price_obtained(
        iphone_launched_at(),
        "-0.25 EUR".to_string(),
        "ASR;AS".to_string(),
    )
    .unwrap();
    let wire = encode_event(&e);
    assert_eq!(decode_event(wire.as_str()), Some(e));
}

#[test]
fn wire_round_trip_dividend_paid() {
    let e = Event::new_dividend_paid(
        iphone_launched_at(),
        "0.0045 BTC".to_string(),
        "".to_string(),
    )
    .unwrap();
    let wire = encode_event(&e);
    assert_eq!(decode_event(wire.as_str()), Some(e));
}

#[test]
fn wire_record_names_its_variant() {
    let e = Event::new_dividend_paid(
        iphone_launched_at(),
        "1.00 USD".to_string(),
        "AAPL".to_string(),
    )
    .unwrap();
    let wire = encode_event(&e);
    assert!(wire.starts_with("DividendPaid;"));
}

#[test]
fn decode_rejects_garbage() {
    assert_eq!(decode_event(""), None);
    assert_eq!(decode_event("NotAnEvent;123"), None);
    let e = Event::new_dividend_paid(
        iphone_launched_at(),
        "1.00 USD".to_string(),
        "AAPL".to_string(),
    )
    .unwrap();
    let wire = encode_event(&e);
    // a truncated record does not decode
    let truncated = &wire[0..wire.len() - 1];
    assert_eq!(decode_event(truncated), None);
}

#[test]
fn cqrs_framework_wraps_a_store() {
    let mut cqrs = CqrsFramework::new(MemoryEventStore::default());
    let events = vec![Event::new_stocks_bought(
        iphone_launched_at(),
        Decimal::from_int(1),
        "1.00 USD".to_string(),
        "AAPL".to_string(),
    )
    .unwrap()];
    cqrs.store.persist("ber", &events).unwrap();
    assert_eq!(cqrs.store.get_events("ber").unwrap().len(), 1);
}
