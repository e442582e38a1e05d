//! The contract that every store meets, whatever backend it is built on.

use std::time::Duration;
use vstd::prelude::*;

use crate::config::effective_ttl;
use crate::error::StoreError;
use crate::key::composite_key;
use crate::model::StoreState;
use crate::record::IdempotencyTransaction;

verus! {

/// The length of a duration in whole nanoseconds.
pub uninterp spec fn duration_nanos(duration: Duration) -> nat;

/// `Duration::as_nanos` returns the total number of nanoseconds that the
/// duration holds. The number is a function of the duration alone; this
/// gives it its name and claims nothing else of it.
pub assume_specification[ Duration::as_nanos ](duration: &Duration) -> (nanos: u128)
    ensures
        nanos == duration_nanos(*duration),
;

/// An expiry in nanoseconds, where there is one.
pub open spec fn ttl_nanos(ttl: Option<Duration>) -> Option<nat> {
    match ttl {
        Some(duration) => Some(duration_nanos(duration)),
        None => None,
    }
}

/// A store of idempotency records. Each operation acts on the record at the
/// composite key of a caller's key and an application identifier, and takes
/// effect as one atomic step on the contents of the store: either the whole
/// step, or, where the backend fails, nothing. What the store holds after an
/// operation is well-formed: no record of status `Absent`, none expired.
pub trait IDatabase {
    /// The contents of the store.
    spec fn state(&self) -> StoreState;

    /// The expiry given to a record that is written without one of its own.
    spec fn default_ttl(&self) -> Option<Duration>;

    /// Claims the key or observes the record held there.
    ///
    /// Where no record is held, the in-progress marker is created with the
    /// store's default expiry, and the record returned has status `Absent`:
    /// the caller has made the claim and owns the execution. Where a record
    /// is held, it is returned as it is and nothing changes. A failure
    /// creates nothing.
    fn claim_or_observe(&mut self, key: String, app_id: String) -> (found: Result<
        IdempotencyTransaction,
        StoreError,
    >)
        ensures
            final(self).default_ttl() == old(self).default_ttl(),
            final(self).state().wf(),
            match found {
                Ok(record) => {
                    &&& record@ == old(self).state().observe(composite_key(key@, app_id@))
                    &&& final(self).state() == old(self).state().claim(
                        composite_key(key@, app_id@),
                        ttl_nanos(old(self).default_ttl()),
                    )
                },
                Err(error) => {
                    &&& final(self).state() == old(self).state()
                    &&& error is Connectivity || error is Serialization
                },
            },
    ;

    /// Removes the record at the key, if one is held. That none is held is
    /// no error. Only a connectivity failure is surfaced, and it removes
    /// nothing.
    fn delete(&mut self, key: String, app_id: String) -> (removed: Result<(), StoreError>)
        ensures
            final(self).default_ttl() == old(self).default_ttl(),
            final(self).state().wf(),
            match removed {
                Ok(()) => final(self).state() == old(self).state().delete(
                    composite_key(key@, app_id@),
                ),
                Err(error) => {
                    &&& final(self).state() == old(self).state()
                    &&& error is Connectivity
                },
            },
    ;

    /// Writes the record at the key, whatever is held there, with the
    /// expiry given, else the store's default, else none.
    ///
    /// A record of status `Absent` stands for no record and is never
    /// persisted: it is refused with a serialization error. A failure
    /// writes nothing.
    fn put(
        &mut self,
        key: String,
        app_id: String,
        value: IdempotencyTransaction,
        ttl: Option<Duration>,
    ) -> (written: Result<(), StoreError>)
        ensures
            final(self).default_ttl() == old(self).default_ttl(),
            final(self).state().wf(),
            match written {
                Ok(()) => {
                    &&& value@.persistable()
                    &&& final(self).state() == old(self).state().put(
                        composite_key(key@, app_id@),
                        value@,
                        ttl_nanos(effective_ttl(ttl, old(self).default_ttl())),
                    )
                },
                Err(error) => {
                    &&& final(self).state() == old(self).state()
                    &&& error is Connectivity || error is Serialization
                    &&& !value@.persistable() ==> error is Serialization
                },
            },
    ;
}

} // verus!
