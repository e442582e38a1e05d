//! A store that keeps its records in memory, under a logical clock that its
//! owner moves.

use std::time::Duration;
use vstd::prelude::*;
use vstd::string::StringExecFns;

use crate::config::{resolve_ttl, DbConfig};
use crate::database::{duration_nanos, ttl_nanos, IDatabase};
use crate::error::StoreError;
use crate::key::combine_key;
use crate::model::{deadline_of, live_records, StoreState, Stored};
use crate::record::{IdempotencyTransaction, MessageStatusDef};

verus! {

/// One record as the store keeps it: under its composite key, with the
/// instant at which it was written and the expiry it was written with.
struct Entry {
    key: String,
    record: IdempotencyTransaction,
    written_at: u128,
    ttl: Option<u128>,
}

impl Entry {
    spec fn expiry(self) -> Option<nat> {
        match self.ttl {
            Some(ttl) => Some(ttl as nat),
            None => None,
        }
    }

    spec fn stored(self) -> Stored {
        Stored { record: self.record@, deadline: deadline_of(self.written_at as nat, self.expiry()) }
    }

    /// Written no later than `now`, of a status that may be persisted, and
    /// not expired at `now`.
    spec fn sound_at(self, now: u128) -> bool {
        &&& self.written_at <= now
        &&& self.record@.persistable()
        &&& self.stored().live_at(now as nat)
    }

    fn is_live_at(&self, now: u128) -> (live: bool)
        requires
            self.written_at <= now,
        ensures
            live == self.stored().live_at(now as nat),
    {
        match self.ttl {
            Some(ttl) => now - self.written_at <= ttl,
            None => true,
        }
    }
}

/// Some entry is kept under the key.
spec fn holds(entries: Seq<Entry>, key: Seq<char>) -> bool {
    exists|i: int| 0 <= i < entries.len() && (#[trigger] entries[i]).key@ == key
}

/// The position of the entry kept under the key.
spec fn slot(entries: Seq<Entry>, key: Seq<char>) -> int {
    choose|i: int| 0 <= i < entries.len() && (#[trigger] entries[i]).key@ == key
}

/// No two entries are kept under one key.
spec fn distinct(entries: Seq<Entry>) -> bool {
    forall|i: int, j: int|
        0 <= i < j < entries.len() ==> (#[trigger] entries[i]).key@ != (#[trigger] entries[j]).key@
}

/// The records that the entries stand for, by composite key.
spec fn records_of(entries: Seq<Entry>) -> Map<Seq<char>, Stored> {
    Map::new(
        |key: Seq<char>| holds(entries, key),
        |key: Seq<char>| entries[slot(entries, key)].stored(),
    )
}

/// Among entries with distinct keys, each is the one found under its key.
proof fn lemma_slot(entries: Seq<Entry>, i: int)
    requires
        distinct(entries),
        0 <= i < entries.len(),
    ensures
        holds(entries, entries[i].key@),
        slot(entries, entries[i].key@) == i,
        records_of(entries).contains_key(entries[i].key@),
        records_of(entries)[entries[i].key@] == entries[i].stored(),
{
    let found = slot(entries, entries[i].key@);
    assert(entries[found].key@ == entries[i].key@);
    if found < i {
        assert(entries[found].key@ != entries[i].key@);
    } else if i < found {
        assert(entries[i].key@ != entries[found].key@);
    }
}

/// Adding an entry under a key that is not held writes its record there.
proof fn lemma_push(entries: Seq<Entry>, entry: Entry)
    requires
        distinct(entries),
        !holds(entries, entry.key@),
    ensures
        distinct(entries.push(entry)),
        records_of(entries.push(entry)) == records_of(entries).insert(entry.key@, entry.stored()),
{
    let after = entries.push(entry);
    let last = entries.len() as int;
    assert(after[last] == entry);
    assert forall|i: int, j: int| 0 <= i < j < after.len() implies (#[trigger] after[i]).key@ != (
    #[trigger] after[j]).key@ by {
        assert(after[i] == entries[i]);
        if j < last {
            assert(after[j] == entries[j]);
        }
    }
    assert forall|key: Seq<char>|
        records_of(after).contains_key(key) <==> #[trigger] records_of(entries).insert(
            entry.key@,
            entry.stored(),
        ).contains_key(key) by {
        if holds(entries, key) {
            let i = slot(entries, key);
            assert(after[i] == entries[i]);
        }
        if holds(after, key) {
            let i = slot(after, key);
            if i < last {
                assert(entries[i] == after[i]);
            }
        }
    }
    assert forall|key: Seq<char>| #[trigger] records_of(after).contains_key(key) implies records_of(
        after,
    )[key] == records_of(entries).insert(entry.key@, entry.stored())[key] by {
        let i = slot(after, key);
        lemma_slot(after, i);
        if i < last {
            assert(after[i] == entries[i]);
            lemma_slot(entries, i);
        }
    }
    assert(records_of(after) =~= records_of(entries).insert(entry.key@, entry.stored()));
}

/// Replacing the entry under a key writes the new record there.
proof fn lemma_replace(entries: Seq<Entry>, at: int, entry: Entry)
    requires
        distinct(entries),
        0 <= at < entries.len(),
        entries[at].key@ == entry.key@,
    ensures
        distinct(entries.update(at, entry)),
        records_of(entries.update(at, entry)) == records_of(entries).insert(
            entry.key@,
            entry.stored(),
        ),
{
    let after = entries.update(at, entry);
    assert forall|i: int, j: int| 0 <= i < j < after.len() implies (#[trigger] after[i]).key@ != (
    #[trigger] after[j]).key@ by {
        assert(after[i].key@ == entries[i].key@);
        assert(after[j].key@ == entries[j].key@);
    }
    assert forall|key: Seq<char>|
        records_of(after).contains_key(key) <==> #[trigger] records_of(entries).insert(
            entry.key@,
            entry.stored(),
        ).contains_key(key) by {
        if holds(entries, key) {
            let i = slot(entries, key);
            assert(after[i].key@ == entries[i].key@);
        }
        if holds(after, key) {
            let i = slot(after, key);
            assert(entries[i].key@ == after[i].key@);
        }
        if key == entry.key@ {
            assert(after[at].key@ == key);
        }
    }
    assert forall|key: Seq<char>| #[trigger] records_of(after).contains_key(key) implies records_of(
        after,
    )[key] == records_of(entries).insert(entry.key@, entry.stored())[key] by {
        let i = slot(after, key);
        lemma_slot(after, i);
        lemma_slot(entries, i);
    }
    assert(records_of(after) =~= records_of(entries).insert(entry.key@, entry.stored()));
}

/// Taking an entry out removes the record under its key and no other.
proof fn lemma_remove(entries: Seq<Entry>, at: int)
    requires
        distinct(entries),
        0 <= at < entries.len(),
    ensures
        distinct(entries.remove(at)),
        records_of(entries.remove(at)) == records_of(entries).remove(entries[at].key@),
{
    let after = entries.remove(at);
    let gone = entries[at].key@;
    assert forall|i: int| 0 <= i < after.len() implies #[trigger] after[i] == entries[if i < at {
        i
    } else {
        i + 1
    }] by {}
    assert forall|i: int, j: int| 0 <= i < j < after.len() implies (#[trigger] after[i]).key@ != (
    #[trigger] after[j]).key@ by {
        let from_i = if i < at { i } else { i + 1 };
        let from_j = if j < at { j } else { j + 1 };
        assert(after[i] == entries[from_i]);
        assert(after[j] == entries[from_j]);
    }
    assert forall|key: Seq<char>|
        records_of(after).contains_key(key) <==> #[trigger] records_of(entries).remove(
            gone,
        ).contains_key(key) by {
        if holds(entries, key) && key != gone {
            let i = slot(entries, key);
            let to = if i < at { i } else { i - 1 };
            assert(after[to] == entries[i]);
        }
        if holds(after, key) {
            let i = slot(after, key);
            let from = if i < at { i } else { i + 1 };
            assert(after[i] == entries[from]);
            if key == gone {
                lemma_slot(entries, from);
                lemma_slot(entries, at);
            }
        }
    }
    assert forall|key: Seq<char>| #[trigger] records_of(after).contains_key(key) implies records_of(
        after,
    )[key] == records_of(entries).remove(gone)[key] by {
        let i = slot(after, key);
        let from = if i < at { i } else { i + 1 };
        lemma_slot(after, i);
        assert(after[i] == entries[from]);
        lemma_slot(entries, from);
    }
    assert(records_of(after) =~= records_of(entries).remove(gone));
}

/// Looks for the entry kept under the key.
fn find(entries: &Vec<Entry>, key: &String) -> (found: Option<usize>)
    ensures
        match found {
            Some(at) => at < entries.len() && entries[at as int].key@ == key@,
            None => !holds(entries@, key@),
        },
{
    let mut at: usize = 0;
    while at < entries.len()
        invariant
            at <= entries.len(),
            forall|i: int| 0 <= i < at ==> (#[trigger] entries[i]).key@ != key@,
        decreases entries.len() - at,
    {
        if entries[at].key == *key {
            return Some(at);
        }
        at += 1;
    }
    None
}

/// An expiry in nanoseconds, where there is one.
fn nanos_of(ttl: Option<Duration>) -> (nanos: Option<u128>)
    ensures
        match nanos {
            Some(n) => ttl_nanos(ttl) == Some(n as nat),
            None => ttl_nanos(ttl) is None,
        },
{
    match ttl {
        Some(duration) => Some(duration.as_nanos()),
        None => None,
    }
}

/// A store in memory. It holds no clock of its own: its owner tells it the
/// time, and records expire as the time moves beyond their deadline.
pub struct MemoryStore {
    entries: Vec<Entry>,
    default_ttl: Option<Duration>,
    now: u128,
}

impl MemoryStore {
    #[verifier::type_invariant]
    spec fn inv(self) -> bool {
        &&& distinct(self.entries@)
        &&& forall|i: int|
            0 <= i < self.entries@.len() ==> (#[trigger] self.entries@[i]).sound_at(self.now)
    }

    /// An empty store at the start of its clock, with the given default
    /// expiry.
    pub fn new(default_ttl: Option<Duration>) -> (store: MemoryStore)
        ensures
            store.state() == StoreState::empty(),
            store.default_ttl() == default_ttl,
    {
        let store = MemoryStore { entries: Vec::new(), default_ttl, now: 0 };
        assert(store.state().records =~= Map::empty());
        store
    }

    /// An empty store built from a configuration, whose expiry becomes the
    /// store's default. A configuration that lacks a field that its backend
    /// requires is refused here, before the store is used.
    pub fn from_config(config: &DbConfig) -> (built: Result<MemoryStore, StoreError>)
        ensures
            match built {
                Ok(store) => {
                    &&& config.complete()
                    &&& store.state() == StoreState::empty()
                    &&& store.default_ttl() == config.ttl
                },
                Err(error) => {
                    &&& !config.complete()
                    &&& error is Configuration
                    &&& error.detail() == if !config.has_table_name() {
                        "table_name is required"@
                    } else {
                        "keyspace is required"@
                    }
                },
            },
    {
        match config.validate() {
            Ok(()) => Ok(MemoryStore::new(config.ttl)),
            Err(error) => Err(error),
        }
    }

    /// Tells the store the time: `at`, counted from the start of its clock.
    /// The clock moves there unless it is already further, and the records
    /// whose deadline the clock has passed are dropped.
    pub fn advance_to(&mut self, at: Duration)
        ensures
            final(self).state() == old(self).state().advance_to(duration_nanos(at)),
            final(self).default_ttl() == old(self).default_ttl(),
            final(self).state().wf(),
    {
        proof {
            use_type_invariant(&*self);
        }
        let target = at.as_nanos();
        let now = self.now;
        let goal = if target > now {
            target
        } else {
            now
        };
        let mut entries: Vec<Entry> = Vec::new();
        std::mem::swap(&mut entries, &mut self.entries);
        let ghost at_start = entries@;
        let mut at_index: usize = 0;
        while at_index < entries.len()
            invariant
                at_index <= entries.len(),
                now <= goal,
                distinct(entries@),
                forall|i: int| 0 <= i < entries@.len() ==> (#[trigger] entries@[i]).sound_at(now),
                forall|i: int|
                    0 <= i < at_index ==> (#[trigger] entries@[i]).stored().live_at(goal as nat),
                live_records(records_of(entries@), goal as nat) == live_records(
                    records_of(at_start),
                    goal as nat,
                ),
            decreases entries.len() - at_index,
        {
            if entries[at_index].is_live_at(goal) {
                at_index += 1;
            } else {
                proof {
                    lemma_slot(entries@, at_index as int);
                    lemma_remove(entries@, at_index as int);
                    assert(live_records(records_of(entries@.remove(at_index as int)), goal as nat)
                        =~= live_records(records_of(entries@), goal as nat));
                }
                entries.remove(at_index);
            }
        }
        proof {
            assert forall|key: Seq<char>| #[trigger]
                records_of(entries@).contains_key(key) implies records_of(entries@)[key].live_at(
                goal as nat,
            ) by {
                let found = slot(entries@, key);
                assert(entries@[found].stored().live_at(goal as nat));
            }
            assert(live_records(records_of(entries@), goal as nat) =~= records_of(entries@));
        }
        self.entries = entries;
        self.now = goal;
        proof {
            self.lemma_state_wf();
        }
    }

    /// The time on the store's clock, in nanoseconds since its start.
    pub fn now_nanos(&self) -> (now: u128)
        ensures
            now == self.state().now,
    {
        self.now
    }

    /// Reads the record held at a composite key, without claiming it.
    pub fn read(&self, full_key: &String) -> (found: Option<IdempotencyTransaction>)
        ensures
            self.state().wf(),
            match found {
                Some(record) => {
                    &&& self.state().records.contains_key(full_key@)
                    &&& record@ == self.state().records[full_key@].record
                },
                None => !self.state().records.contains_key(full_key@),
            },
    {
        proof {
            use_type_invariant(self);
            self.lemma_state_wf();
        }
        match find(&self.entries, full_key) {
            Some(at) => {
                proof {
                    lemma_slot(self.entries@, at as int);
                }
                Some(self.entries[at].record.snapshot())
            },
            None => None,
        }
    }

    /// The contents of a store whose entries are sound are well-formed.
    proof fn lemma_state_wf(self)
        requires
            self.inv(),
        ensures
            self.state().wf(),
    {
        assert forall|key: Seq<char>| #[trigger]
            self.state().records.contains_key(key) implies self.state().records[key].record.persistable()
            && self.state().records[key].live_at(self.state().now) by {
            let at = slot(self.entries@, key);
            assert(self.entries@[at].sound_at(self.now));
        }
    }
}

impl IDatabase for MemoryStore {
    closed spec fn state(&self) -> StoreState {
        StoreState { now: self.now as nat, records: records_of(self.entries@) }
    }

    closed spec fn default_ttl(&self) -> Option<Duration> {
        self.default_ttl
    }

    /// In memory a claim never fails.
    fn claim_or_observe(&mut self, key: String, app_id: String) -> (found: Result<
        IdempotencyTransaction,
        StoreError,
    >)
        ensures
            found is Ok,
    {
        proof {
            use_type_invariant(&*self);
        }
        let full_key = combine_key(key, app_id);
        let mut entries: Vec<Entry> = Vec::new();
        std::mem::swap(&mut entries, &mut self.entries);
        let record = match find(&entries, &full_key) {
            Some(at) => {
                proof {
                    lemma_slot(entries@, at as int);
                }
                entries[at].record.snapshot()
            },
            None => {
                let entry = Entry {
                    key: full_key,
                    record: IdempotencyTransaction::new_from_status(MessageStatusDef::InProgress),
                    written_at: self.now,
                    ttl: nanos_of(self.default_ttl),
                };
                proof {
                    lemma_push(entries@, entry);
                }
                entries.push(entry);
                IdempotencyTransaction::new_default_none()
            },
        };
        self.entries = entries;
        proof {
            self.lemma_state_wf();
        }
        Ok(record)
    }

    /// In memory a delete never fails.
    fn delete(&mut self, key: String, app_id: String) -> (removed: Result<(), StoreError>)
        ensures
            removed is Ok,
    {
        proof {
            use_type_invariant(&*self);
        }
        let full_key = combine_key(key, app_id);
        let mut entries: Vec<Entry> = Vec::new();
        std::mem::swap(&mut entries, &mut self.entries);
        match find(&entries, &full_key) {
            Some(at) => {
                proof {
                    lemma_remove(entries@, at as int);
                }
                entries.remove(at);
            },
            None => {
                assert(records_of(entries@).remove(full_key@) =~= records_of(entries@));
            },
        }
        self.entries = entries;
        proof {
            self.lemma_state_wf();
        }
        Ok(())
    }

    /// In memory a put fails only for a record that cannot be persisted.
    fn put(
        &mut self,
        key: String,
        app_id: String,
        value: IdempotencyTransaction,
        ttl: Option<Duration>,
    ) -> (written: Result<(), StoreError>)
        ensures
            written is Ok <==> value@.persistable(),
            written matches Err(error) ==> error.detail()
                == "a record of status Absent is not stored"@,
    {
        proof {
            use_type_invariant(&*self);
            self.lemma_state_wf();
        }
        if value.status == MessageStatusDef::Absent {
            return Err(
                StoreError::Serialization(String::from_str("a record of status Absent is not stored")),
            );
        }
        let entry = Entry {
            key: combine_key(key, app_id),
            record: value,
            written_at: self.now,
            ttl: nanos_of(resolve_ttl(ttl, self.default_ttl)),
        };
        let mut entries: Vec<Entry> = Vec::new();
        std::mem::swap(&mut entries, &mut self.entries);
        match find(&entries, &entry.key) {
            Some(at) => {
                proof {
                    lemma_replace(entries@, at as int, entry);
                }
                entries[at] = entry;
            },
            None => {
                proof {
                    lemma_push(entries@, entry);
                }
                entries.push(entry);
            },
        }
        self.entries = entries;
        proof {
            self.lemma_state_wf();
        }
        Ok(())
    }
}

} // verus!
