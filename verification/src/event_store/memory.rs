//! The in-memory event store: a map from ledger id to its append-only log.
//! Data does not survive the process.

use vstd::prelude::*;
use crate::events::Event;
use crate::events::EventModel;
use crate::event_store::EventStore;
use crate::event_store::event_models;
use crate::event_store::EventStoreError;
use crate::event_store::append_duplicates;
use crate::event_store::sort_events_by_created_at;

verus! {

/// Do the entries carry pairwise different ledger ids?
pub open spec fn distinct_keys(s: Seq<(String, Vec<Event>)>) -> bool {
    forall|i: int, j: int| 0 <= i < j < s.len() ==> s[i].0@ != s[j].0@
}

/// The ledger map denoted by a list of entries; entries holding no events
/// are treated as absent.
pub open spec fn entries_map(s: Seq<(String, Vec<Event>)>) -> Map<Seq<char>, Seq<EventModel>>
    decreases s.len(),
{
    if s.len() == 0 {
        Map::empty()
    } else if s.last().1@.len() > 0 {
        entries_map(s.drop_last()).insert(s.last().0@, event_models(s.last().1@))
    } else {
        entries_map(s.drop_last())
    }
}

/// What each entry of a distinct-keyed list contributes to its map.
proof fn lemma_entries_map_entry(s: Seq<(String, Vec<Event>)>, i: int)
    requires
        distinct_keys(s),
        0 <= i < s.len(),
    ensures
        s[i].1@.len() > 0 ==> entries_map(s).contains_key(s[i].0@) && entries_map(s)[s[i].0@]
            == event_models(s[i].1@),
        s[i].1@.len() == 0 ==> !entries_map(s).contains_key(s[i].0@),
    decreases s.len(),
{
    if i < s.len() - 1 {
        assert(distinct_keys(s.drop_last()));
        lemma_entries_map_entry(s.drop_last(), i);
        assert(s.drop_last()[i] == s[i]);
        assert(s.last() == s[s.len() - 1]);
        assert(s.last().0@ != s[i].0@);
    } else {
        if s[i].1@.len() == 0 {
            lemma_entries_map_absent(s.drop_last(), s[i].0@);
        }
    }
}

/// A key no entry carries is absent from the map.
proof fn lemma_entries_map_absent(s: Seq<(String, Vec<Event>)>, k: Seq<char>)
    requires
        forall|i: int| 0 <= i < s.len() ==> (#[trigger] s[i]).0@ != k,
    ensures
        !entries_map(s).contains_key(k),
    decreases s.len(),
{
    if s.len() > 0 {
        assert(forall|i: int|
            0 <= i < s.drop_last().len() ==> (#[trigger] s.drop_last()[i]).0@ != k);
        lemma_entries_map_absent(s.drop_last(), k);
        assert(s.last() == s[s.len() - 1]);
    }
}

/// Replacing the entry that carries a key updates the map at that key.
proof fn lemma_entries_map_update(s: Seq<(String, Vec<Event>)>, i: int, e: (String, Vec<Event>))
    requires
        distinct_keys(s),
        0 <= i < s.len(),
        s[i].0@ == e.0@,
    ensures
        entries_map(s.update(i, e)) =~= if e.1@.len() > 0 {
            entries_map(s).insert(e.0@, event_models(e.1@))
        } else {
            entries_map(s).remove(e.0@)
        },
    decreases s.len(),
{
    let k = e.0@;
    let m0 = entries_map(s.drop_last());
    if i == s.len() - 1 {
        assert(s.update(i, e).drop_last() =~= s.drop_last());
        assert(s.update(i, e).last() == e);
        assert(forall|p: int| 0 <= p < s.drop_last().len() ==> (#[trigger] s.drop_last()[p]).0@ != k);
        lemma_entries_map_absent(s.drop_last(), k);
    } else {
        assert(distinct_keys(s.drop_last()));
        assert(s.drop_last()[i] == s[i]);
        lemma_entries_map_update(s.drop_last(), i, e);
        assert(s.update(i, e).drop_last() =~= s.drop_last().update(i, e));
        assert(s.update(i, e).last() == s.last());
        assert(s.last() == s[s.len() - 1]);
        assert(s.last().0@ != k);
    }
}

/// An in-memory event store.
#[derive(Debug)]
pub struct MemoryEventStore {
    entries: Vec<(String, Vec<Event>)>,
}

impl MemoryEventStore {
    #[verifier::type_invariant]
    spec fn inv(self) -> bool {
        distinct_keys(self.entries@)
    }

    /// Index of the entry for ledger `id`, if any.
    fn find_key(v: &Vec<(String, Vec<Event>)>, id: &str) -> (r: Option<usize>)
        ensures
            r matches Some(i) ==> i < v@.len() && v@[i as int].0@ == id@,
            r is None ==> forall|i: int| 0 <= i < v@.len() ==> (#[trigger] v@[i]).0@ != id@,
    {
        let key = id.to_owned();
        let n = v.len();
        let mut i: usize = 0;
        while i < n
            invariant
                i <= n,
                n == v@.len(),
                key@ == id@,
                forall|p: int| 0 <= p < i ==> (#[trigger] v@[p]).0@ != id@,
            decreases n - i,
        {
            if v[i].0 == key {
                return Some(i);
            }
            i = i + 1;
        }
        None
    }
}

impl Default for MemoryEventStore {
    /// A store holding no events.
    fn default() -> (r: MemoryEventStore)
        ensures
            r.contents() == Map::<Seq<char>, Seq<EventModel>>::empty(),
            r.infallible(),
    {
        MemoryEventStore { entries: Vec::new() }
    }
}

impl EventStore for MemoryEventStore {
    closed spec fn contents(&self) -> Map<Seq<char>, Seq<EventModel>> {
        entries_map(self.entries@)
    }

    open spec fn infallible(&self) -> bool {
        true
    }

    fn get_events(&self, aggregate_id: &str) -> (r: Result<Vec<Event>, EventStoreError>) {
        proof {
            use_type_invariant(&*self);
        }
        match Self::find_key(&self.entries, aggregate_id) {
            Some(i) => {
                proof {
                    lemma_entries_map_entry(self.entries@, i as int);
                }
                if self.entries[i].1.len() > 0 {
                    let mut out: Vec<Event> = Vec::new();
                    append_duplicates(&mut out, &self.entries[i].1);
                    proof {
                        assert(out@ =~= self.entries@[i as int].1@);
                    }
                    sort_events_by_created_at(&mut out);
                    Ok(out)
                } else {
                    Err(EventStoreError::AggregateNotFound(aggregate_id.to_owned()))
                }
            },
            None => {
                proof {
                    lemma_entries_map_absent(self.entries@, aggregate_id@);
                }
                Err(EventStoreError::AggregateNotFound(aggregate_id.to_owned()))
            },
        }
    }

    fn persist(&mut self, aggregate_id: &str, events: &Vec<Event>) -> (r: Result<
        (),
        EventStoreError,
    >) {
        proof {
            use_type_invariant(&*self);
        }
        let mut v: Vec<(String, Vec<Event>)> = Vec::new();
        core::mem::swap(&mut v, &mut self.entries);
        let ghost orig = v@;
        match Self::find_key(&v, aggregate_id) {
            Some(i) => {
                let (key, mut log) = v.remove(i);
                let ghost old_log = log@;
                append_duplicates(&mut log, events);
                let entry = (key, log);
                v.insert(i, entry);
                proof {
                    assert(v@ =~= orig.update(i as int, entry));
                    lemma_entries_map_update(orig, i as int, entry);
                    lemma_entries_map_entry(orig, i as int);
                    assert(distinct_keys(v@));
                    if events@.len() == 0 {
                        assert(entry.1@ =~= old_log);
                        assert(event_models(entry.1@) =~= event_models(old_log));
                        if old_log.len() > 0 {
                            assert(entries_map(v@) =~= entries_map(orig));
                        } else {
                            lemma_entries_map_entry(orig, i as int);
                            assert(entries_map(v@) =~= entries_map(orig));
                        }
                    } else {
                        assert(event_models(entry.1@) =~= event_models(old_log) + event_models(
                            events@,
                        ));
                        if old_log.len() == 0 {
                            assert(entry.1@ =~= Seq::<Event>::empty() + events@);
                            assert(entry.1@ =~= events@);
                            assert(event_models(entry.1@) =~= event_models(events@));
                        }
                    }
                }
                self.entries = v;
                Ok(())
            },
            None => {
                let mut log: Vec<Event> = Vec::new();
                append_duplicates(&mut log, events);
                let entry = (aggregate_id.to_owned(), log);
                v.push(entry);
                proof {
                    assert(v@.drop_last() =~= orig);
                    assert(distinct_keys(v@));
                    lemma_entries_map_absent(orig, aggregate_id@);
                    if events@.len() > 0 {
                        assert(v@.last().1@ =~= Seq::<Event>::empty() + events@);
                        assert(v@.last().1@ =~= events@);
                        assert(event_models(v@.last().1@) =~= event_models(events@));
                    }
                }
                self.entries = v;
                Ok(())
            },
        }
    }
}

} // verus!
