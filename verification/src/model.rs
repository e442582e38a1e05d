//! The store as a mathematical state machine: what it holds at each
//! instant of a logical clock, and what each operation makes of it.

use vstd::prelude::*;

use crate::record::{MessageStatusDef, RecordView};

verus! {

/// A record as a store keeps it: the record and the instant through which
/// it lives. A record without a deadline does not expire.
pub struct Stored {
    pub record: RecordView,
    pub deadline: Option<nat>,
}

impl Stored {
    /// The record lives through its deadline and is gone beyond it.
    pub open spec fn live_at(self, now: nat) -> bool {
        self.deadline matches Some(deadline) ==> now <= deadline
    }
}

/// The instant through which a record lives that is written at `now` with
/// the expiry `ttl`.
pub open spec fn deadline_of(now: nat, ttl: Option<nat>) -> Option<nat> {
    match ttl {
        Some(ttl) => Some(now + ttl),
        None => None,
    }
}

/// The records that have not expired at `now`.
pub open spec fn live_records(records: Map<Seq<char>, Stored>, now: nat) -> Map<Seq<char>, Stored> {
    Map::new(
        |key: Seq<char>| records.contains_key(key) && records[key].live_at(now),
        |key: Seq<char>| records[key],
    )
}

/// The contents of a store at one instant: the clock, and the records by
/// composite key.
#[verifier::ext_equal]
pub struct StoreState {
    pub now: nat,
    pub records: Map<Seq<char>, Stored>,
}

impl StoreState {
    /// The store that holds nothing, at the start of the clock.
    pub open spec fn empty() -> StoreState {
        StoreState { now: 0, records: Map::empty() }
    }

    /// Every record held is one that may be persisted and has not expired.
    pub open spec fn wf(self) -> bool {
        forall|key: Seq<char>| #[trigger]
            self.records.contains_key(key) ==> self.records[key].record.persistable()
                && self.records[key].live_at(self.now)
    }

    /// What a reader sees at a key: the record held there, or the value
    /// that stands for "no record".
    pub open spec fn observe(self, key: Seq<char>) -> RecordView {
        if self.records.contains_key(key) {
            self.records[key].record
        } else {
            RecordView::absent()
        }
    }

    /// The store after `record` was written at `key` with the expiry `ttl`,
    /// whatever was held there before.
    pub open spec fn write(self, key: Seq<char>, record: RecordView, ttl: Option<nat>) -> StoreState {
        StoreState {
            now: self.now,
            records: self.records.insert(
                key,
                Stored { record, deadline: deadline_of(self.now, ttl) },
            ),
        }
    }

    /// The store after a claim of `key`: where no record is held, the
    /// in-progress marker is created; where one is held, nothing changes.
    pub open spec fn claim(self, key: Seq<char>, ttl: Option<nat>) -> StoreState {
        if self.records.contains_key(key) {
            self
        } else {
            self.write(key, RecordView::in_progress(), ttl)
        }
    }

    /// The store after `record` was put at `key`. A record of status
    /// `Absent` is not persisted: the store stays as it is.
    pub open spec fn put(self, key: Seq<char>, record: RecordView, ttl: Option<nat>) -> StoreState {
        if record.persistable() {
            self.write(key, record, ttl)
        } else {
            self
        }
    }

    /// The store after the record at `key`, if any, was removed.
    pub open spec fn delete(self, key: Seq<char>) -> StoreState {
        StoreState { now: self.now, records: self.records.remove(key) }
    }

    /// The store once the clock has reached `at`: the clock never runs
    /// backwards, and the records whose deadline has passed are gone.
    pub open spec fn advance_to(self, at: nat) -> StoreState {
        let now = if at > self.now {
            at
        } else {
            self.now
        };
        StoreState { now, records: live_records(self.records, now) }
    }
}

/// One operation on a store.
pub enum StoreOp {
    Claim { key: Seq<char>, ttl: Option<nat> },
    Put { key: Seq<char>, record: RecordView, ttl: Option<nat> },
    Delete { key: Seq<char> },
    AdvanceTo { at: nat },
}

impl StoreOp {
    /// The operation is a claim of `key`.
    pub open spec fn claims(self, key: Seq<char>) -> bool {
        self matches StoreOp::Claim { key: target, .. } && target == key
    }
}

/// Some operation before position `at` of the sequence is a claim of `key`.
pub open spec fn claimed_before(ops: Seq<StoreOp>, key: Seq<char>, at: int) -> bool {
    exists|earlier: int| 0 <= earlier < at && (#[trigger] ops[earlier]).claims(key)
}

impl StoreState {
    /// The store after one operation.
    pub open spec fn step(self, op: StoreOp) -> StoreState {
        match op {
            StoreOp::Claim { key, ttl } => self.claim(key, ttl),
            StoreOp::Put { key, record, ttl } => self.put(key, record, ttl),
            StoreOp::Delete { key } => self.delete(key),
            StoreOp::AdvanceTo { at } => self.advance_to(at),
        }
    }

    /// The store after a sequence of operations, applied in order.
    pub open spec fn run(self, ops: Seq<StoreOp>) -> StoreState
        decreases ops.len(),
    {
        if ops.len() == 0 {
            self
        } else {
            self.run(ops.drop_last()).step(ops.last())
        }
    }

    /// The store after `count` claims of one key in a row.
    pub open spec fn claim_times(self, key: Seq<char>, ttl: Option<nat>, count: nat) -> StoreState
        decreases count,
    {
        if count == 0 {
            self
        } else {
            self.claim_times(key, ttl, (count - 1) as nat).claim(key, ttl)
        }
    }

    /// What a claim of `key` returns that comes after `earlier` claims of
    /// the same key.
    pub open spec fn claim_result(self, key: Seq<char>, ttl: Option<nat>, earlier: nat) -> RecordView {
        self.claim_times(key, ttl, earlier).observe(key)
    }

    /// What the operation at position `at` of the sequence finds at `key`
    /// when its turn comes.
    pub open spec fn found_by(self, ops: Seq<StoreOp>, at: int, key: Seq<char>) -> RecordView {
        self.run(ops.take(at)).observe(key)
    }

    /// The operation leaves a claim of `key` standing: it writes no record
    /// at that key, does not delete that key, and does not move the clock
    /// beyond the deadline of the record held there.
    pub open spec fn keeps_claim(self, op: StoreOp, key: Seq<char>) -> bool {
        match op {
            StoreOp::Claim { .. } => true,
            StoreOp::Put { key: target, record, .. } => target != key || !record.persistable(),
            StoreOp::Delete { key: target } => target != key,
            StoreOp::AdvanceTo { at } => self.records.contains_key(key) ==> self.records[key].live_at(
                at,
            ),
        }
    }

    /// Each operation of the sequence, at the state that it is applied to,
    /// leaves a claim of `key` standing.
    pub open spec fn keeps_claim_throughout(self, ops: Seq<StoreOp>, key: Seq<char>) -> bool {
        forall|i: int|
            0 <= i < ops.len() ==> #[trigger] self.run(ops.take(i)).keeps_claim(ops[i], key)
    }

    /// The operation creates the in-progress marker at `key`, or writes a
    /// record of status `InProgress` there.
    pub open spec fn sets_in_progress(self, op: StoreOp, key: Seq<char>) -> bool {
        match op {
            StoreOp::Claim { key: target, .. } => target == key && !self.records.contains_key(key),
            StoreOp::Put { key: target, record, .. } => target == key && record.status
                == MessageStatusDef::InProgress,
            StoreOp::Delete { .. } => false,
            StoreOp::AdvanceTo { .. } => false,
        }
    }

    /// The operation cannot take a completed record at `key` away or turn
    /// it back: it puts no in-progress record at that key, does not delete
    /// that key, and does not move the clock beyond the record's deadline.
    pub open spec fn keeps_completion(self, op: StoreOp, key: Seq<char>) -> bool {
        match op {
            StoreOp::Claim { .. } => true,
            StoreOp::Put { key: target, record, .. } => target != key || record.status
                != MessageStatusDef::InProgress,
            StoreOp::Delete { key: target } => target != key,
            StoreOp::AdvanceTo { at } => self.records.contains_key(key) ==> self.records[key].live_at(
                at,
            ),
        }
    }

    /// Each operation of the sequence, at the state that it is applied to,
    /// keeps a completed record at `key`.
    pub open spec fn keeps_completion_throughout(self, ops: Seq<StoreOp>, key: Seq<char>) -> bool {
        forall|i: int|
            0 <= i < ops.len() ==> #[trigger] self.run(ops.take(i)).keeps_completion(ops[i], key)
    }
}

/// Every operation keeps a well-formed store well-formed: no operation
/// persists a record of status `Absent` or leaves an expired record behind.
pub proof fn lemma_step_preserves_wf(state: StoreState, op: StoreOp)
    requires
        state.wf(),
    ensures
        state.step(op).wf(),
{
}

/// A sequence of operations keeps a well-formed store well-formed.
pub proof fn lemma_run_preserves_wf(state: StoreState, ops: Seq<StoreOp>)
    requires
        state.wf(),
    ensures
        state.run(ops).wf(),
    decreases ops.len(),
{
    if ops.len() > 0 {
        lemma_run_preserves_wf(state, ops.drop_last());
        lemma_step_preserves_wf(state.run(ops.drop_last()), ops.last());
    }
}

/// A claim leaves every record that is already held as it is, and what it
/// creates is the in-progress marker with an empty response.
pub proof fn lemma_claim_outcome(state: StoreState, key: Seq<char>, ttl: Option<nat>)
    ensures
        state.records.contains_key(key) ==> state.claim(key, ttl) == state,
        forall|other: Seq<char>| #[trigger]
            state.records.contains_key(other) ==> state.claim(key, ttl).observe(other)
                == state.observe(other),
        state.claim(key, ttl).records.contains_key(key),
        !state.records.contains_key(key) ==> state.claim(key, ttl).observe(key)
            == RecordView::in_progress(),
{
}

/// Mutual exclusion. Of any number of claims of a key at which no record
/// is held, exactly one finds no record, so that its caller owns the
/// execution: the first. Every other one finds the in-progress marker that
/// the first created, with an empty response, and the store is left as the
/// first claim left it.
pub proof fn lemma_mutual_exclusion(
    state: StoreState,
    key: Seq<char>,
    ttl: Option<nat>,
    calls: nat,
)
    requires
        !state.records.contains_key(key),
    ensures
        state.claim_result(key, ttl, 0) == RecordView::absent(),
        forall|earlier: nat|
            1 <= earlier < calls ==> #[trigger] state.claim_result(key, ttl, earlier)
                == RecordView::in_progress(),
        calls >= 1 ==> state.claim_times(key, ttl, calls) == state.claim(key, ttl),
    decreases calls,
{
    if calls >= 1 {
        lemma_mutual_exclusion(state, key, ttl, (calls - 1) as nat);
        if calls == 1 {
            assert(state.claim_times(key, ttl, 0) == state);
        }
        assert(state.claim_times(key, ttl, calls) == state.claim(key, ttl));
    }
}

/// Where no record is held at `key` at the start, and the operations
/// leave a claim of `key` standing, a record is held there after the first
/// `count` operations exactly if one of them was a claim of `key`, and that
/// record is the in-progress marker.
proof fn lemma_claim_history(state: StoreState, ops: Seq<StoreOp>, key: Seq<char>, count: int)
    requires
        state.wf(),
        !state.records.contains_key(key),
        state.keeps_claim_throughout(ops, key),
        0 <= count <= ops.len(),
    ensures
        state.run(ops.take(count)).wf(),
        state.run(ops.take(count)).records.contains_key(key) <==> claimed_before(ops, key, count),
        state.found_by(ops, count, key) == if claimed_before(ops, key, count) {
            RecordView::in_progress()
        } else {
            RecordView::absent()
        },
    decreases count,
{
    if count == 0 {
        assert(ops.take(0) =~= Seq::<StoreOp>::empty());
    } else {
        let before = state.run(ops.take(count - 1));
        let op = ops[count - 1];
        lemma_claim_history(state, ops, key, count - 1);
        assert(ops.take(count).drop_last() =~= ops.take(count - 1));
        assert(ops.take(count).last() == op);
        assert(state.run(ops.take(count)) == before.step(op));
        lemma_step_preserves_wf(before, op);
        assert(before.keeps_claim(op, key));
        if claimed_before(ops, key, count - 1) {
            let earlier = choose|earlier: int|
                0 <= earlier < count - 1 && (#[trigger] ops[earlier]).claims(key);
            assert(ops[earlier].claims(key));
        }
        if op.claims(key) {
            assert(ops[count - 1].claims(key));
        }
        if claimed_before(ops, key, count) {
            let earlier = choose|earlier: int|
                0 <= earlier < count && (#[trigger] ops[earlier]).claims(key);
            if earlier < count - 1 {
                assert(ops[earlier].claims(key));
            }
        }
    }
}

/// Mutual exclusion among other traffic. Where no record is held at `key`
/// at the start, and claims of `key` are mixed in any order with claims,
/// puts and deletes of other keys and with moves of the clock within the
/// marker's deadline, exactly one claim of `key` finds no record: the first
/// of them. Every other one finds the in-progress marker with an empty
/// response.
pub proof fn lemma_mutual_exclusion_interleaved(
    state: StoreState,
    ops: Seq<StoreOp>,
    key: Seq<char>,
)
    requires
        state.wf(),
        !state.records.contains_key(key),
        state.keeps_claim_throughout(ops, key),
    ensures
        forall|at: int|
            0 <= at < ops.len() && (#[trigger] ops[at]).claims(key) ==> state.found_by(ops, at, key)
                == if claimed_before(ops, key, at) {
                RecordView::in_progress()
            } else {
                RecordView::absent()
            },
{
    assert forall|at: int| 0 <= at < ops.len() && (#[trigger] ops[at]).claims(key) implies state.found_by(
        ops,
        at,
        key,
    ) == if claimed_before(ops, key, at) {
        RecordView::in_progress()
    } else {
        RecordView::absent()
    } by {
        lemma_claim_history(state, ops, key, at);
    }
}

/// An abandoned claim does not block the key for ever. A marker created
/// with an expiry is found by later claims through its deadline; beyond it
/// the next claim finds no record and owns the execution.
pub proof fn lemma_abandoned_claim_expires(state: StoreState, key: Seq<char>, ttl: nat, at: nat)
    requires
        !state.records.contains_key(key),
    ensures
        at <= state.now + ttl ==> state.claim(key, Some(ttl)).advance_to(at).observe(key)
            == RecordView::in_progress(),
        at > state.now + ttl ==> state.claim(key, Some(ttl)).advance_to(at).observe(key)
            == RecordView::absent(),
{
}

/// Where a completed record is held at `key`, it is still held, and
/// completed, after any operation that keeps completion; a claim of any key
/// is such an operation.
pub proof fn lemma_completed_stays_completed(state: StoreState, op: StoreOp, key: Seq<char>)
    requires
        state.wf(),
        state.observe(key).status == MessageStatusDef::Completed,
        state.keeps_completion(op, key),
    ensures
        state.step(op).observe(key).status == MessageStatusDef::Completed,
{
}

/// Monotonic status. Once a completed record is held at `key`, every
/// reader finds a completed record there, after any sequence of claims, of
/// writes and deletes at other keys, of puts of completed records, and of
/// moves of the clock within the record's deadline.
pub proof fn lemma_monotonic_status(state: StoreState, ops: Seq<StoreOp>, key: Seq<char>)
    requires
        state.wf(),
        state.observe(key).status == MessageStatusDef::Completed,
        state.keeps_completion_throughout(ops, key),
    ensures
        forall|at: int|
            0 <= at <= ops.len() ==> (#[trigger] state.found_by(ops, at, key)).status
                == MessageStatusDef::Completed,
{
    assert forall|at: int| 0 <= at <= ops.len() implies (#[trigger] state.found_by(
        ops,
        at,
        key,
    )).status == MessageStatusDef::Completed by {
        lemma_completion_history(state, ops, key, at);
    }
}

/// A completed record at `key` is still there, and completed, after the
/// first `count` operations of a sequence that keeps completion.
proof fn lemma_completion_history(state: StoreState, ops: Seq<StoreOp>, key: Seq<char>, count: int)
    requires
        state.wf(),
        state.observe(key).status == MessageStatusDef::Completed,
        state.keeps_completion_throughout(ops, key),
        0 <= count <= ops.len(),
    ensures
        state.run(ops.take(count)).wf(),
        state.run(ops.take(count)).observe(key).status == MessageStatusDef::Completed,
    decreases count,
{
    if count == 0 {
        assert(ops.take(0) =~= Seq::<StoreOp>::empty());
    } else {
        let before = state.run(ops.take(count - 1));
        let op = ops[count - 1];
        lemma_completion_history(state, ops, key, count - 1);
        assert(ops.take(count).drop_last() =~= ops.take(count - 1));
        assert(ops.take(count).last() == op);
        assert(before.keeps_completion(op, key));
        lemma_step_preserves_wf(before, op);
        lemma_completed_stays_completed(before, op, key);
    }
}

/// No way back. A key at which no in-progress record is held, a completed
/// one for instance, is never found in progress later, unless an operation
/// sets it so: a put of an in-progress record at that key, or a claim of
/// that key once its record has been deleted or has expired. No claim of a
/// key at which a record is held is such an operation.
pub proof fn lemma_no_return_to_in_progress(state: StoreState, ops: Seq<StoreOp>, key: Seq<char>)
    requires
        state.observe(key).status != MessageStatusDef::InProgress,
        forall|i: int|
            0 <= i < ops.len() ==> !(#[trigger] state.run(ops.take(i)).sets_in_progress(ops[i], key)),
    ensures
        forall|at: int|
            0 <= at <= ops.len() ==> (#[trigger] state.found_by(ops, at, key)).status
                != MessageStatusDef::InProgress,
{
    assert forall|at: int| 0 <= at <= ops.len() implies (#[trigger] state.found_by(
        ops,
        at,
        key,
    )).status != MessageStatusDef::InProgress by {
        lemma_no_return_history(state, ops, key, at);
    }
}

/// Where no operation sets `key` in progress, it is not in progress after
/// the first `count` operations.
proof fn lemma_no_return_history(state: StoreState, ops: Seq<StoreOp>, key: Seq<char>, count: int)
    requires
        state.observe(key).status != MessageStatusDef::InProgress,
        forall|i: int|
            0 <= i < ops.len() ==> !(#[trigger] state.run(ops.take(i)).sets_in_progress(ops[i], key)),
        0 <= count <= ops.len(),
    ensures
        state.run(ops.take(count)).observe(key).status != MessageStatusDef::InProgress,
    decreases count,
{
    if count == 0 {
        assert(ops.take(0) =~= Seq::<StoreOp>::empty());
    } else {
        let before = state.run(ops.take(count - 1));
        let op = ops[count - 1];
        lemma_no_return_history(state, ops, key, count - 1);
        assert(ops.take(count).drop_last() =~= ops.take(count - 1));
        assert(ops.take(count).last() == op);
        assert(!before.sets_in_progress(op, key));
    }
}

/// Idempotent delete. Deleting a key twice leaves the store as deleting
/// it once does, whether or not a record was held there, and no record is
/// held at the key afterwards.
pub proof fn lemma_delete_idempotent(state: StoreState, key: Seq<char>)
    ensures
        state.delete(key).delete(key) == state.delete(key),
        state.delete(key).observe(key) == RecordView::absent(),
        !state.records.contains_key(key) ==> state.delete(key) == state,
{
    assert(state.delete(key).delete(key).records =~= state.delete(key).records);
    if !state.records.contains_key(key) {
        assert(state.delete(key).records =~= state.records);
    }
}

/// Expiry. A record put with an expiry is seen through its deadline; once
/// the clock has moved beyond the deadline no record is held at the key,
/// and the next claim finds none and creates the in-progress marker.
pub proof fn lemma_ttl_expiry(
    state: StoreState,
    key: Seq<char>,
    record: RecordView,
    ttl: nat,
    at: nat,
)
    requires
        record.persistable(),
    ensures
        at <= state.now + ttl ==> state.put(key, record, Some(ttl)).advance_to(at).observe(key)
            == record,
        at > state.now + ttl ==> {
            let later = state.put(key, record, Some(ttl)).advance_to(at);
            &&& !later.records.contains_key(key)
            &&& later.observe(key) == RecordView::absent()
            &&& later.claim(key, Some(ttl)).observe(key) == RecordView::in_progress()
        },
{
}

/// A record put without an expiry is seen at every later instant.
pub proof fn lemma_no_ttl_no_expiry(
    state: StoreState,
    key: Seq<char>,
    record: RecordView,
    at: nat,
)
    requires
        record.persistable(),
    ensures
        state.put(key, record, None).advance_to(at).observe(key) == record,
{
}

} // verus!
