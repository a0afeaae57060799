//! The append-only event store abstraction.
//!
//! A store keeps, per ledger (aggregate) id, the sequence of events appended
//! for it.  Reading a ledger returns its events ordered by creation
//! timestamp ascending, however they were appended; ties keep an
//! unspecified, storage-assigned order.

use vstd::prelude::*;
use vstd::assert_multisets_equal;
use crate::events::Event;
use crate::events::EventModel;
use crate::events::event_model;

pub mod memory;
pub mod sqlite;

verus! {

/// Errors reported by an event store.
#[derive(Debug, Clone, PartialEq)]
pub enum EventStoreError {
    /// No events have ever been appended for the requested ledger id.
    AggregateNotFound(String),
    /// The underlying storage or serialization layer failed.
    StorageError(String),
    /// An unclassified failure.
    Unknown,
}

/// Are the events ordered by creation timestamp ascending, year first and
/// second last?
pub open spec fn sorted_by_created_at(s: Seq<Event>) -> bool {
    forall|i: int, j: int|
        0 <= i < j < s.len() ==> s[i].spec_created_at().spec_le(&s[j].spec_created_at())
}

/// The models of a sequence of events.
pub open spec fn event_models(s: Seq<Event>) -> Seq<EventModel> {
    s.map_values(|e: Event| event_model(e))
}

/// The events a ledger holds, defaulting to none.
pub open spec fn ledger_events(m: Map<Seq<char>, Seq<EventModel>>, id: Seq<char>) -> Seq<EventModel> {
    if m.contains_key(id) {
        m[id]
    } else {
        Seq::empty()
    }
}

/// The ledger map after appending `more` to ledger `id`; appending nothing
/// changes nothing.
pub open spec fn appended(
    m: Map<Seq<char>, Seq<EventModel>>,
    id: Seq<char>,
    more: Seq<EventModel>,
) -> Map<Seq<char>, Seq<EventModel>> {
    if more.len() > 0 {
        m.insert(id, ledger_events(m, id) + more)
    } else {
        m
    }
}

/// An append-only store of events, keyed by ledger (aggregate) id.
pub trait EventStore {
    /// The persisted events per ledger id, by their models, in append
    /// order.  Ids without events are absent.
    spec fn contents(&self) -> Map<Seq<char>, Seq<EventModel>>;

    /// Does every operation on this store succeed?  An in-memory store is
    /// infallible; a durable one may report storage failures.
    spec fn infallible(&self) -> bool;

    /// All events for ledger `aggregate_id`, ordered by creation timestamp
    /// ascending.  Fails with `AggregateNotFound` when no events have ever
    /// been appended for that id; the only other failures are storage
    /// failures, and an infallible store reports a missing ledger as
    /// exactly `AggregateNotFound` with the requested id.
    fn get_events(&self, aggregate_id: &str) -> (r: Result<Vec<Event>, EventStoreError>)
        ensures
            r matches Ok(es) ==> self.contents().contains_key(aggregate_id@) && event_models(
                es@,
            ).to_multiset() == self.contents()[aggregate_id@].to_multiset()
                && sorted_by_created_at(es@),
            r matches Err(e) ==> (e matches EventStoreError::AggregateNotFound(s)
                ==> !self.contents().contains_key(aggregate_id@) && s@ == aggregate_id@),
            r matches Err(e) ==> e is AggregateNotFound || e is StorageError,
            self.infallible() ==> (r is Err <==> !self.contents().contains_key(aggregate_id@)),
            self.infallible() ==> (r matches Err(e) ==> e matches EventStoreError::AggregateNotFound(
                s,
            ) && s@ == aggregate_id@),
    ;

    /// Append `events` to the end of the ledger's log, preserving their
    /// order.  On success the ledger holds exactly its old events followed
    /// by the new ones, and no other ledger changes.  On failure a durable
    /// store may have kept a prefix of the new events (a multi-event append
    /// is not atomic), but nothing else: the ledger holds its old events
    /// followed by some prefix of the new ones, and no other ledger
    /// changes.
    fn persist(&mut self, aggregate_id: &str, events: &Vec<Event>) -> (r: Result<
        (),
        EventStoreError,
    >)
        ensures
            r is Ok ==> final(self).contents() == appended(
                old(self).contents(),
                aggregate_id@,
                event_models(events@),
            ),
            r is Err ==> exists|k: int|
                0 <= k <= events@.len() && final(self).contents() == appended(
                    old(self).contents(),
                    aggregate_id@,
                    event_models(#[trigger] events@.subrange(0, k)),
                ),
            final(self).infallible() == old(self).infallible(),
            old(self).infallible() ==> r is Ok,
    ;
}

/// Append a copy of each event of `events` to `log`, in order.
pub fn append_duplicates(log: &mut Vec<Event>, events: &Vec<Event>)
    ensures
        final(log)@ == old(log)@ + events@,
{
    let n = events.len();
    let mut i: usize = 0;
    while i < n
        invariant
            i <= n,
            n == events@.len(),
            log@ == old(log)@ + events@.subrange(0, i as int),
        decreases n - i,
    {
        log.push(events[i].duplicate());
        i = i + 1;
        proof {
            assert(old(log)@ + events@.subrange(0, i - 1) + seq![events@[i - 1]] =~= old(log)@
                + events@.subrange(0, i as int));
        }
    }
    proof {
        assert(old(log)@ + events@.subrange(0, n as int) =~= old(log)@ + events@);
    }
}

/// First position whose event is strictly later than `key`, scanning a
/// sorted vector from the front.
fn find_insert_pos(v: &Vec<Event>, key: u64) -> (p: usize)
    ensures
        p <= v@.len(),
        forall|q: int| 0 <= q < p ==> (#[trigger] v@[q]).spec_created_at().key() <= key as int,
        p == v@.len() || v@[p as int].spec_created_at().key() > key as int,
{
    let n = v.len();
    let mut p: usize = 0;
    while p < n
        invariant
            p <= n,
            n == v@.len(),
            forall|q: int| 0 <= q < p ==> (#[trigger] v@[q]).spec_created_at().key() <= key as int,
        ensures
            p <= n,
            forall|q: int| 0 <= q < p ==> (#[trigger] v@[q]).spec_created_at().key() <= key as int,
            p == n || v@[p as int].spec_created_at().key() > key as int,
        decreases n - p,
    {
        if v[p].created_at().key_u64() > key {
            break ;
        }
        p = p + 1;
    }
    p
}

/// Insert `e` into a timestamp-sorted vector, keeping it sorted.
fn insert_sorted(out: &mut Vec<Event>, e: Event)
    requires
        sorted_by_created_at(old(out)@),
    ensures
        sorted_by_created_at(final(out)@),
        event_models(final(out)@).to_multiset() == event_models(old(out)@).to_multiset().insert(
            event_model(e),
        ),
{
    proof {
        assert forall|i: int, j: int|
            0 <= i < j < old(out)@.len() implies (#[trigger] old(out)@[i]).spec_created_at().key()
            <= (#[trigger] old(out)@[j]).spec_created_at().key() by {
            crate::events::lemma_key_orders_timestamps(
                old(out)@[i].spec_created_at(),
                old(out)@[j].spec_created_at(),
            );
        }
    }
    let key = e.created_at().key_u64();
    let p = find_insert_pos(out, key);
    let ghost before = out@;
    out.insert(p, e);
    proof {
        assert(forall|q: int|
            0 <= q < out@.len() ==> out@[q] == if q < p {
                before[q]
            } else if q == p {
                e
            } else {
                before[q - 1]
            });
        assert forall|i: int, j: int|
            0 <= i < j < out@.len() implies (#[trigger] out@[i]).spec_created_at().spec_le(
            &(#[trigger] out@[j]).spec_created_at(),
        ) by {
            crate::events::lemma_key_orders_timestamps(
                out@[i].spec_created_at(),
                out@[j].spec_created_at(),
            );
        }
        assert(event_models(out@) =~= event_models(before).insert(p as int, event_model(e)));
        vstd::seq_lib::to_multiset_insert(event_models(before), p as int, event_model(e));
    }
}

/// Sort events ascending by creation timestamp; the multiset of events is
/// unchanged.  The relative order of events with equal timestamps is
/// unspecified.
pub fn sort_events_by_created_at(v: &mut Vec<Event>)
    ensures
        sorted_by_created_at(final(v)@),
        event_models(final(v)@).to_multiset() == event_models(old(v)@).to_multiset(),
{
    broadcast use vstd::seq_lib::group_to_multiset_ensures;

    let mut out: Vec<Event> = Vec::new();
    loop
        invariant
            sorted_by_created_at(out@),
            event_models(out@).to_multiset().add(event_models(v@).to_multiset()) == event_models(
                old(v)@,
            ).to_multiset(),
        ensures
            v@.len() == 0,
            sorted_by_created_at(out@),
            event_models(out@).to_multiset().add(event_models(v@).to_multiset()) == event_models(
                old(v)@,
            ).to_multiset(),
        decreases v@.len(),
    {
        let ghost vs = event_models(v@);
        match v.pop() {
            Some(e) => {
                let ghost em = event_model(e);
                proof {
                    broadcast use vstd::multiset::group_multiset_axioms;

                    assert(event_models(v@) =~= vs.drop_last());
                    vstd::seq_lib::to_multiset_remove(vs, vs.len() - 1);
                    assert(vs.remove(vs.len() - 1) =~= vs.drop_last());
                    assert(vs.drop_last().to_multiset() =~= vs.to_multiset().remove(em));
                    assert(vs.contains(em)) by {
                        assert(vs[vs.len() - 1] == em);
                    }
                    vstd::seq_lib::to_multiset_contains(vs, em);
                    assert(vs.to_multiset().count(em) > 0);
                    assert_multisets_equal!(
                        event_models(out@).to_multiset().add(vs.drop_last().to_multiset()).insert(
                            em
                        ),
                        event_models(out@).to_multiset().add(vs.to_multiset())
                    );
                }
                insert_sorted(&mut out, e);
                proof {
                    assert(event_models(out@).to_multiset().add(event_models(v@).to_multiset())
                        =~= event_models(old(v)@).to_multiset());
                }
            },
            None => {
                break ;
            },
        }
    }
    *v = out;
}

} // verus!
