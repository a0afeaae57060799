//! The durable event store: one row per event in a SQLite database file.
//!
//! The database calls go through trusted wrappers whose contracts speak of
//! `stored_rows`, the payload texts the events table holds per ledger id.
//! Everything else — serialization, deserialization, ordering — is verified
//! library code.  The store owns its database file: a single process writes
//! it, so the table's contents are a function of the connection the store
//! holds.

use vstd::prelude::*;
use crate::codec::decode_event;
use crate::codec::encode_event;
use crate::codec::encode_model;
use crate::codec::lemma_encode_model_injective;
use crate::codec::model_bounded;
use crate::events::Event;
use crate::events::EventModel;
use crate::events::event_model;
use crate::event_store::EventStore;
use crate::event_store::EventStoreError;
use crate::event_store::event_models;
use crate::event_store::sort_events_by_created_at;
use crate::event_store::sorted_by_created_at;

verus! {

#[verifier::external_type_specification]
#[verifier::external_body]
pub struct ExConnection(rusqlite::Connection);

/// The payload texts the events table holds: for each ledger id, the stored
/// rows in insertion order.
pub uninterp spec fn stored_rows(db: rusqlite::Connection) -> Map<Seq<char>, Seq<Seq<char>>>;

/// Does the database hold the events table?
pub uninterp spec fn schema_ready(db: rusqlite::Connection) -> bool;

/// The event model a stored payload denotes: the unique bounded model whose
/// encoding is the payload, if there is one.
pub open spec fn row_model(r: Seq<char>) -> Option<EventModel> {
    if exists|m: EventModel| model_bounded(m) && encode_model(m) == r {
        Some(choose|m: EventModel| model_bounded(m) && encode_model(m) == r)
    } else {
        None
    }
}

/// The models of the decodable rows, in order.
pub open spec fn rows_models(rows: Seq<Seq<char>>) -> Seq<EventModel>
    decreases rows.len(),
{
    if rows.len() == 0 {
        Seq::empty()
    } else {
        let p = rows_models(rows.drop_last());
        match row_model(rows.last()) {
            Some(m) => p.push(m),
            None => p,
        }
    }
}

/// The encodings of a sequence of events.
pub open spec fn row_seq(es: Seq<Event>) -> Seq<Seq<char>> {
    es.map_values(|e: Event| encode_model(event_model(e)))
}

/// The ledger map denoted by a rows table; ledgers whose rows denote no
/// events are absent.
pub open spec fn sqlite_contents(rows: Map<Seq<char>, Seq<Seq<char>>>) -> Map<
    Seq<char>,
    Seq<EventModel>,
> {
    Map::new(
        |k: Seq<char>| rows.contains_key(k) && rows_models(rows[k]).len() > 0,
        |k: Seq<char>| rows_models(rows[k]),
    )
}

/// An encoded bounded model decodes back to itself.
proof fn lemma_row_model_of_encoding(m: EventModel)
    requires
        model_bounded(m),
    ensures
        row_model(encode_model(m)) == Some(m),
{
    let r = encode_model(m);
    assert(exists|m2: EventModel| model_bounded(m2) && encode_model(m2) == r);
    let m2 = choose|m2: EventModel| model_bounded(m2) && encode_model(m2) == r;
    lemma_encode_model_injective(m, m2);
}

/// Appending encodings of events appends exactly their models.
proof fn lemma_rows_models_append(rows: Seq<Seq<char>>, es: Seq<Event>)
    requires
        forall|i: int| 0 <= i < es.len() ==> model_bounded(event_model(#[trigger] es[i])),
    ensures
        rows_models(rows + row_seq(es)) == rows_models(rows) + event_models(es),
    decreases es.len(),
{
    if es.len() == 0 {
        assert(rows + row_seq(es) =~= rows);
        assert(rows_models(rows) + event_models(es) =~= rows_models(rows));
    } else {
        let front = es.drop_last();
        assert(forall|i: int|
            0 <= i < front.len() ==> model_bounded(event_model(#[trigger] front[i])));
        lemma_rows_models_append(rows, front);
        let whole = rows + row_seq(es);
        assert(whole.drop_last() =~= rows + row_seq(front));
        assert(whole.last() == encode_model(event_model(es.last())));
        lemma_row_model_of_encoding(event_model(es.last()));
        assert(rows_models(whole) =~= rows_models(rows) + event_models(es));
    }
}

/// When every row decodes, the decoded models are one per row.
proof fn lemma_rows_models_all_some(rows: Seq<Seq<char>>)
    requires
        forall|i: int| 0 <= i < rows.len() ==> row_model(#[trigger] rows[i]) is Some,
    ensures
        rows_models(rows).len() == rows.len(),
    decreases rows.len(),
{
    if rows.len() > 0 {
        assert(forall|i: int|
            0 <= i < rows.drop_last().len() ==> row_model(#[trigger] rows.drop_last()[i])
                is Some);
        lemma_rows_models_all_some(rows.drop_last());
        assert(rows.last() == rows[rows.len() - 1]);
    }
}

/// The decoded contents after the stored rows of ledger `k` grew by the
/// encodings of the first `j` of `events`: the old contents extended by
/// exactly those events' models.
proof fn lemma_partial_append(
    orig: Map<Seq<char>, Seq<Seq<char>>>,
    cur: Map<Seq<char>, Seq<Seq<char>>>,
    k: Seq<char>,
    events: Seq<Event>,
    j: int,
)
    requires
        0 <= j <= events.len(),
        forall|p: int| 0 <= p < j ==> model_bounded(event_model(#[trigger] events[p])),
        cur == (if j > 0 {
            orig.insert(
                k,
                (if orig.contains_key(k) {
                    orig[k]
                } else {
                    Seq::empty()
                }) + row_seq(events.subrange(0, j)),
            )
        } else {
            orig
        }),
    ensures
        sqlite_contents(cur) == crate::event_store::appended(
            sqlite_contents(orig),
            k,
            event_models(events.subrange(0, j)),
        ),
{
    let prefix = events.subrange(0, j);
    if j > 0 {
        assert(forall|p: int|
            0 <= p < prefix.len() ==> model_bounded(event_model(#[trigger] prefix[p])));
        let orig_k: Seq<Seq<char>> = if orig.contains_key(k) {
            orig[k]
        } else {
            Seq::empty()
        };
        lemma_rows_models_append(orig_k, prefix);
        assert(event_models(prefix).len() == j);
        assert(sqlite_contents(cur) =~= crate::event_store::appended(
            sqlite_contents(orig),
            k,
            event_models(prefix),
        ));
    } else {
        assert(event_models(prefix).len() == 0);
    }
}

/// Relies on rusqlite's `Connection::open`: opens or creates the database
/// file at `path`.  What an existing file holds is unknown, so nothing is
/// promised about the opened store's rows.
#[verifier::external_body]
fn open_db(path: &str) -> (r: Result<rusqlite::Connection, EventStoreError>) {
    match rusqlite::Connection::open(path) {
        Ok(db) => Ok(db),
        Err(e) => Err(EventStoreError::StorageError(e.to_string())),
    }
}

/// Relies on rusqlite's `Connection::execute` running `CREATE TABLE IF NOT
/// EXISTS`: on success the events table exists; it is created when missing
/// and no rows ever change.
#[verifier::external_body]
fn create_events_table(db: &mut rusqlite::Connection) -> (r: Result<(), EventStoreError>)
    ensures
        stored_rows(*final(db)) == stored_rows(*old(db)),
        r is Ok ==> schema_ready(*final(db)),
{
    let res = db.execute(
        "CREATE TABLE IF NOT EXISTS events (
            id INTEGER PRIMARY KEY,
            created_at INTEGER NOT NULL,
            aggregate_id TEXT NOT NULL,
            event TEXT NOT NULL
        )",
        (),
    );
    match res {
        Ok(_) => Ok(()),
        Err(_) => Err(EventStoreError::Unknown),
    }
}

/// Relies on rusqlite's `Connection::execute` running `INSERT`: on success
/// exactly one row holding the payload is appended to the ledger's rows; on
/// failure nothing changes.
#[verifier::external_body]
fn insert_event_row(
    db: &mut rusqlite::Connection,
    aggregate_id: &str,
    created_key: u64,
    payload: &str,
) -> (r: Result<(), EventStoreError>)
    ensures
        r is Ok ==> stored_rows(*final(db)) == stored_rows(*old(db)).insert(
            aggregate_id@,
            (if stored_rows(*old(db)).contains_key(aggregate_id@) {
                stored_rows(*old(db))[aggregate_id@]
            } else {
                Seq::empty()
            }).push(payload@),
        ),
        r is Err ==> stored_rows(*final(db)) == stored_rows(*old(db)),
{
    let res = db.execute(
        "INSERT INTO events (aggregate_id, created_at, event) VALUES (?1, ?2, ?3)",
        (aggregate_id, created_key as i64, payload),
    );
    match res {
        Ok(_) => Ok(()),
        Err(e) => Err(EventStoreError::StorageError(e.to_string())),
    }
}

/// Relies on rusqlite's `Connection::prepare` and `Statement::query_map`
/// running `SELECT ... ORDER BY id ASC`: on success returns exactly the
/// ledger's stored payloads in insertion order (none for an unknown id).
/// Row ids ascend with insertion because rows are never deleted.
#[verifier::external_body]
fn select_event_rows(db: &rusqlite::Connection, aggregate_id: &str) -> (r: Result<
    Vec<String>,
    EventStoreError,
>)
    ensures
        r matches Ok(rows) ==> rows@.map_values(|t: String| t@) == (if stored_rows(
            *db,
        ).contains_key(aggregate_id@) {
            stored_rows(*db)[aggregate_id@]
        } else {
            Seq::empty()
        }),
        r matches Err(e) ==> e is StorageError,
{
    let run = || -> rusqlite::Result<Vec<String>>
        {
            let mut stmt = db.prepare(
                "SELECT event FROM events WHERE aggregate_id = ?1 ORDER BY id ASC",
            )?;
            let rows = stmt.query_map([aggregate_id], |row| row.get::<_, String>(0))?;
            rows.collect()
        };
    match run() {
        Ok(rows) => Ok(rows),
        Err(e) => Err(EventStoreError::StorageError(e.to_string())),
    }
}

/// The durable event store.
pub struct SqliteEventStore {
    db: rusqlite::Connection,
}

impl SqliteEventStore {
    /// Open (or create) the database file at `path`.
    pub fn new(path: &str) -> (r: Result<SqliteEventStore, EventStoreError>) {
        match open_db(path) {
            Ok(db) => Ok(SqliteEventStore { db }),
            Err(e) => Err(e),
        }
    }

    /// Does this store's database hold the events table?
    pub closed spec fn ready(&self) -> bool {
        schema_ready(self.db)
    }

    /// Create the events table when missing; idempotent: on success the
    /// table exists, and existing events are untouched either way.
    pub fn init(&mut self) -> (r: Result<(), EventStoreError>)
        ensures
            final(self).contents() == old(self).contents(),
            r is Ok ==> final(self).ready(),
    {
        create_events_table(&mut self.db)
    }
}

/// Turn a ledger's stored rows into its events: no rows means the ledger
/// was never appended to (`AggregateNotFound` with the requested id); a
/// row that is no event's encoding is a storage failure; otherwise every
/// row decodes and the events come back sorted by creation time.
pub fn events_from_rows(rows: Vec<String>, aggregate_id: &str) -> (r: Result<
    Vec<Event>,
    EventStoreError,
>)
    ensures
        (rows@.len() == 0) <==> (r matches Err(e) && e matches EventStoreError::AggregateNotFound(
            s,
        ) && s@ == aggregate_id@),
        (r is Ok) <==> (rows@.len() > 0 && (forall|i: int|
            0 <= i < rows@.len() ==> row_model((#[trigger] rows@[i])@) is Some)),
        r matches Ok(es) ==> sorted_by_created_at(es@) && event_models(es@).to_multiset()
            == rows_models(rows@.map_values(|t: String| t@)).to_multiset(),
        r matches Err(e) ==> e is AggregateNotFound || e is StorageError,
        r matches Err(e) ==> (e matches EventStoreError::AggregateNotFound(s) ==> rows@.len()
            == 0 && s@ == aggregate_id@),
{
    let ghost rv = rows@.map_values(|t: String| t@);
    if rows.len() == 0 {
        return Err(EventStoreError::AggregateNotFound(aggregate_id.to_owned()));
    }
    let mut events: Vec<Event> = Vec::new();
    let n = rows.len();
    let mut i: usize = 0;
    proof {
        assert(rv.subrange(0, 0) =~= Seq::<Seq<char>>::empty());
        assert(event_models(events@) =~= rows_models(rv.subrange(0, 0)));
    }
    while i < n
        invariant
            i <= n,
            n == rows@.len(),
            rv == rows@.map_values(|t: String| t@),
            event_models(events@) == rows_models(rv.subrange(0, i as int)),
            events@.len() == i,
            forall|p: int| 0 <= p < i ==> row_model((#[trigger] rows@[p])@) is Some,
        decreases n - i,
    {
        proof {
            assert(rv.subrange(0, i as int + 1).drop_last() =~= rv.subrange(0, i as int));
            assert(rv.subrange(0, i as int + 1).last() == rv[i as int]);
        }
        match decode_event(rows[i].as_str()) {
            Some(e) => {
                proof {
                    lemma_row_model_of_encoding(event_model(e));
                    assert(row_model(rv[i as int]) == Some(event_model(e)));
                }
                events.push(e);
                proof {
                    assert(event_models(events@) =~= rows_models(rv.subrange(0, i as int + 1)));
                }
            },
            None => {
                proof {
                    assert(row_model(rv[i as int]) is None);
                }
                return Err(
                    EventStoreError::StorageError(
                        String::from_str("stored event payload does not decode"),
                    ),
                );
            },
        }
        i = i + 1;
    }
    proof {
        assert(rv.subrange(0, n as int) =~= rv);
    }
    sort_events_by_created_at(&mut events);
    Ok(events)
}

impl EventStore for SqliteEventStore {
    closed spec fn contents(&self) -> Map<Seq<char>, Seq<EventModel>> {
        sqlite_contents(stored_rows(self.db))
    }

    open spec fn infallible(&self) -> bool {
        false
    }

    fn get_events(&self, aggregate_id: &str) -> (r: Result<Vec<Event>, EventStoreError>) {
        let rows = match select_event_rows(&self.db, aggregate_id) {
            Ok(rows) => rows,
            Err(e) => {
                return Err(e);
            },
        };
        let ghost rv = rows@.map_values(|t: String| t@);
        let r = events_from_rows(rows, aggregate_id);
        proof {
            if rv.len() == 0 {
                assert(rows_models(rv).len() == 0);
                if stored_rows(self.db).contains_key(aggregate_id@) {
                    assert(rows_models(stored_rows(self.db)[aggregate_id@]).len() == 0);
                }
                assert(!self.contents().contains_key(aggregate_id@));
            }
            if r is Ok {
                assert forall|i: int| 0 <= i < rv.len() implies row_model(
                    #[trigger] rv[i],
                ) is Some by {
                    assert(rv[i] == rows@[i]@);
                }
                lemma_rows_models_all_some(rv);
            }
        }
        r
    }

    fn persist(&mut self, aggregate_id: &str, events: &Vec<Event>) -> (r: Result<
        (),
        EventStoreError,
    >) {
        let ghost orig = stored_rows(old(self).db);
        let ghost k = aggregate_id@;
        let ghost orig_k: Seq<Seq<char>> = if orig.contains_key(k) {
            orig[k]
        } else {
            Seq::empty()
        };
        let n = events.len();
        let mut i: usize = 0;
        while i < n
            invariant
                i <= n,
                n == events@.len(),
                orig == stored_rows(old(self).db),
                k == aggregate_id@,
                orig_k == (if orig.contains_key(k) {
                    orig[k]
                } else {
                    Seq::<Seq<char>>::empty()
                }),
                forall|p: int|
                    0 <= p < i ==> model_bounded(event_model(#[trigger] events@[p])),
                stored_rows(self.db) == (if i > 0 {
                    orig.insert(k, orig_k + row_seq(events@.subrange(0, i as int)))
                } else {
                    orig
                }),
            decreases n - i,
        {
            let payload = encode_event(&events[i]);
            let key = events[i].created_at().key_u64();
            let ghost before = stored_rows(self.db);
            match insert_event_row(&mut self.db, aggregate_id, key, payload.as_str()) {
                Ok(u) => u,
                Err(e) => {
                    proof {
                        lemma_partial_append(orig, stored_rows(self.db), k, events@, i as int);
                        assert(0 <= i as int <= events@.len() && self.contents()
                            == crate::event_store::appended(
                            old(self).contents(),
                            k,
                            event_models(events@.subrange(0, i as int)),
                        ));
                    }
                    return Err(e);
                },
            };
            proof {
                let cur_k: Seq<Seq<char>> = if before.contains_key(k) {
                    before[k]
                } else {
                    Seq::empty()
                };
                assert(cur_k =~= orig_k + row_seq(events@.subrange(0, i as int)));
                assert(cur_k.push(payload@) =~= orig_k + row_seq(
                    events@.subrange(0, i as int + 1),
                ));
                assert(stored_rows(self.db) =~= orig.insert(
                    k,
                    orig_k + row_seq(events@.subrange(0, i as int + 1)),
                ));
            }
            i = i + 1;
        }
        proof {
            lemma_partial_append(orig, stored_rows(self.db), k, events@, n as int);
            assert(events@.subrange(0, n as int) =~= events@);
            assert(event_models(events@.subrange(0, n as int)) =~= event_models(events@));
        }
        Ok(())
    }
}

} // verus!
