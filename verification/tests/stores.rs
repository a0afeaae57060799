use bullboard::decimal::Decimal;
use bullboard::event_store::EventStore;
use bullboard::event_store::memory::MemoryEventStore;
use bullboard::event_store::sqlite::SqliteEventStore;
use bullboard::events::Event;
use bullboard::events::StocksBought;
use bullboard::events::Timestamp;
use bullboard::event_store::EventStoreError;
use bullboard::event_store::sqlite::events_from_rows;
use tempfile::TempDir;

fn iphone_launched_at() -> Timestamp {
    Timestamp::new(2007, 1, 9, 9, 42, 0).unwrap()
}

fn one_second_later() -> Timestamp {
    Timestamp::new(2007, 1, 9, 9, 42, 1).unwrap()
}

fn buy(at: Timestamp, ticker: &str) -> Event {
    Event::new_stocks_bought(
        at,
        Decimal::from_int(10),
        "100.00 USD".to_string(),
        ticker.to_string(),
    )
    .unwrap()
}

#[test]
fn test_memory_persist() {
    let mut event_store = MemoryEventStore::default();
    let events = vec![buy(iphone_launched_at(), "AAPL")];
    event_store.persist("123", &events).unwrap();
    let events = event_store.get_events("123").unwrap();
    assert_eq!(events.len(), 1);
}

#[test]
fn test_memory_get_events() {
    let mut event_store = MemoryEventStore::default();
    let events = vec![buy(iphone_launched_at(), "AAPL")];
    event_store.persist("123", &events).unwrap();
    let events = event_store.get_events("123").unwrap();
    assert_eq!(events.len(), 1);
}

#[test]
fn test_memory_get_events_not_found() {
    let event_store = MemoryEventStore::default();
    let events = event_store.get_events("123");
    assert!(events.is_err());
}

#[test]
fn test_memory_get_events_sorts_by_created_at() {
    // append a later-timestamped event first; reading yields the earlier one
    // first regardless of append order
    let mut event_store = MemoryEventStore::default();
    let events = vec![buy(one_second_later(), "MSFT"), buy(iphone_launched_at(), "AAPL")];
    event_store.persist("123", &events).unwrap();
    let events = event_store.get_events("123").unwrap();

    let tickers: Vec<String> = events
        .iter()
        .map(|e| match e {
            Event::StocksBought(StocksBought { identifier, .. }) => identifier.ticker.clone(),
            _ => panic!("Unexpected event type"),
        })
        .collect();
    assert_eq!(tickers, vec!["AAPL", "MSFT"]);
}

#[test]
fn test_memory_persist_keeps_every_event() {
    // repeated appends lose nothing: the read length is the total appended
    let mut event_store = MemoryEventStore::default();
    let mut total = 0;
    for round in 0..5 {
        let events = vec![
            buy(iphone_launched_at(), "AAPL"),
            buy(one_second_later(), &format!("T{}", round)),
        ];
        event_store.persist("123", &events).unwrap();
        total += events.len();
    }
    assert_eq!(event_store.get_events("123").unwrap().len(), total);
}

fn setup_db() -> (TempDir, SqliteEventStore) {
    let temp_dir = tempfile::tempdir().expect("Failed to create tmp directory");
    let db_path = temp_dir.path().join("test.db");
    let db_path_str = db_path.to_str().expect("Failed to convert path to string");

    let mut event_store = SqliteEventStore::new(db_path_str).expect("Failed to create event store");
    event_store.init().expect("Failed to initialize event store");

    (temp_dir, event_store)
}

#[test]
fn test_sqlite_persist() {
    let (db_file, mut event_store) = setup_db();
    let events = vec![buy(iphone_launched_at(), "AAPL")];
    event_store.persist("123", &events).unwrap();
    let events = event_store.get_events("123").unwrap();

    assert_eq!(events.len(), 1);

    db_file.close().unwrap();
}

#[test]
fn test_sqlite_get_events() {
    let (db_file, mut event_store) = setup_db();
    let events = vec![buy(iphone_launched_at(), "AAPL")];
    event_store.persist("123", &events).unwrap();
    let events = event_store.get_events("123").unwrap();

    assert_eq!(events.len(), 1);
    assert_eq!(events[0], buy(iphone_launched_at(), "AAPL"));

    db_file.close().unwrap();
}

#[test]
fn test_sqlite_get_events_sorts_by_created_at() {
    // Insert MSFT event first, then AAPL event
    // But post-date the AAPL event by 1 second, so it should be first
    let (db_file, mut event_store) = setup_db();
    let events = vec![buy(one_second_later(), "MSFT"), buy(iphone_launched_at(), "AAPL")];
    event_store.persist("123", &events).unwrap();
    let events = event_store.get_events("123").unwrap();

    assert_eq!(events.len(), 2);
    let tickers = events
        .iter()
        .map(|e| match e {
            Event::StocksBought(StocksBought { identifier, .. }) => identifier.ticker.clone(),
            _ => panic!("Unexpected event type"),
        })
        .collect::<Vec<String>>();

    assert_eq!(tickers, vec!["AAPL", "MSFT"]);

    db_file.close().unwrap();
}

#[test]
fn test_sqlite_get_events_not_found() {
    let (db_file, event_store) = setup_db();
    let events = event_store.get_events("123");

    assert!(events.is_err());

    db_file.close().unwrap();
}

#[test]
fn test_sqlite_open_failure_is_storage_error() {
    let result = SqliteEventStore::new("/definitely/not/a/writable/path/test.db");
    match result {
        Err(EventStoreError::StorageError(_)) => {}
        other => panic!("expected a storage error, got {:?}", other.map(|_| ())),
    }
}

#[test]
fn test_sqlite_read_before_init_is_storage_error() {
    let temp_dir = tempfile::tempdir().expect("Failed to create tmp directory");
    let db_path = temp_dir.path().join("fresh.db");
    let event_store =
        SqliteEventStore::new(db_path.to_str().unwrap()).expect("Failed to create event store");
    match event_store.get_events("123") {
        Err(EventStoreError::StorageError(_)) => {}
        other => panic!("expected a storage error, got {:?}", other.map(|es| es.len())),
    }
    temp_dir.close().unwrap();
}

#[test]
fn test_sqlite_init_is_idempotent() {
    let (db_file, mut event_store) = setup_db();
    let events = vec![buy(iphone_launched_at(), "AAPL")];
    event_store.persist("123", &events).unwrap();
    // a second init leaves the schema and every stored row in place
    event_store.init().unwrap();
    assert_eq!(event_store.get_events("123").unwrap().len(), 1);
    db_file.close().unwrap();
}

#[test]
fn test_events_from_rows_decides_the_read() {
    // no rows: the ledger was never appended to
    match events_from_rows(vec![], "123") {
        Err(EventStoreError::AggregateNotFound(s)) => {
            assert_eq!(s, "123")
        }
        other => panic!("expected not-found, got {:?}", other.map(|es| es.len())),
    }
    // a row that is no event's encoding: a storage failure
    match events_from_rows(vec!["not an event record".to_string()], "123") {
        Err(EventStoreError::StorageError(_)) => {}
        other => panic!("expected a storage error, got {:?}", other.map(|es| es.len())),
    }
    // a well-formed row decodes
    let wire = bullboard::codec::encode_event(&buy(iphone_launched_at(), "AAPL"));
    let events = events_from_rows(vec![wire], "123").unwrap();
    assert_eq!(events, vec![buy(iphone_launched_at(), "AAPL")]);
}
