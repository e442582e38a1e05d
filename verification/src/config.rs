//! The configuration of a store, what each backend requires of it, and the
//! expiry that applies to a write.

use std::time::Duration;
use vstd::prelude::*;
use vstd::string::StringExecFns;

use crate::error::StoreError;

verus! {

/// The backend technology that a store is built on.
#[derive(Clone, Copy, Debug, PartialEq, Eq, Structural)]
pub enum DatabaseOption {
    /// A cache-class store.
    Redis,
    /// A wide-column store.
    Dynamo,
    /// A partitioned column-family store.
    Cassandra,
}

impl DatabaseOption {
    /// Column-oriented backends keep their records in a named table.
    pub open spec fn requires_table_name(self) -> bool {
        self == DatabaseOption::Dynamo || self == DatabaseOption::Cassandra
    }

    /// Partitioned column-family backends keep their tables in a keyspace.
    pub open spec fn requires_keyspace(self) -> bool {
        self == DatabaseOption::Cassandra
    }

    /// Whether a configuration for this backend must name a table.
    pub fn needs_table_name(self) -> (needed: bool)
        ensures
            needed == self.requires_table_name(),
    {
        match self {
            DatabaseOption::Redis => false,
            DatabaseOption::Dynamo => true,
            DatabaseOption::Cassandra => true,
        }
    }

    /// Whether a configuration for this backend must name a keyspace.
    pub fn needs_keyspace(self) -> (needed: bool)
        ensures
            needed == self.requires_keyspace(),
    {
        match self {
            DatabaseOption::Redis => false,
            DatabaseOption::Dynamo => false,
            DatabaseOption::Cassandra => true,
        }
    }
}

/// The options from which a store is built.
pub struct DbConfig {
    /// The connection endpoint.
    pub url: String,
    /// The table or collection, where the backend has one.
    pub table_name: Option<String>,
    /// The namespace, where the backend has one.
    pub keyspace: Option<String>,
    /// The expiry given to a record that is written without one of its own.
    pub ttl: Option<Duration>,
    /// The backend that the store is built on.
    pub database_option: DatabaseOption,
}

impl Clone for DbConfig {
    fn clone(&self) -> (copy: DbConfig)
        ensures
            copy == *self,
    {
        DbConfig {
            url: self.url.clone(),
            table_name: match &self.table_name {
                Some(name) => Some(name.clone()),
                None => None,
            },
            keyspace: match &self.keyspace {
                Some(name) => Some(name.clone()),
                None => None,
            },
            ttl: self.ttl,
            database_option: self.database_option,
        }
    }
}

/// The expiry that applies to a write: the one given with the write, else
/// the store's default, else none, and the record does not expire.
pub open spec fn effective_ttl(
    ttl_override: Option<Duration>,
    default_ttl: Option<Duration>,
) -> Option<Duration> {
    if ttl_override is Some {
        ttl_override
    } else {
        default_ttl
    }
}

/// Picks the expiry that applies to a write.
pub fn resolve_ttl(ttl_override: Option<Duration>, default_ttl: Option<Duration>) -> (ttl: Option<
    Duration,
>)
    ensures
        ttl == effective_ttl(ttl_override, default_ttl),
{
    match ttl_override {
        Some(given) => Some(given),
        None => default_ttl,
    }
}

impl DbConfig {
    /// The configuration names the table where the backend requires one.
    pub open spec fn has_table_name(&self) -> bool {
        self.database_option.requires_table_name() ==> self.table_name is Some
    }

    /// The configuration names the keyspace where the backend requires one.
    pub open spec fn has_keyspace(&self) -> bool {
        self.database_option.requires_keyspace() ==> self.keyspace is Some
    }

    /// The configuration holds every field that its backend requires.
    pub open spec fn complete(&self) -> bool {
        self.has_table_name() && self.has_keyspace()
    }

    /// Checks the configuration against what its backend requires. A
    /// missing field is a configuration error, found before any store is
    /// built from the configuration.
    pub fn validate(&self) -> (checked: Result<(), StoreError>)
        ensures
            checked is Ok <==> self.complete(),
            checked matches Err(error) ==> {
                &&& error is Configuration
                &&& error.detail() == if !self.has_table_name() {
                    "table_name is required"@
                } else {
                    "keyspace is required"@
                }
            },
    {
        if self.database_option.needs_table_name() && self.table_name.is_none() {
            Err(StoreError::Configuration(String::from_str("table_name is required")))
        } else if self.database_option.needs_keyspace() && self.keyspace.is_none() {
            Err(StoreError::Configuration(String::from_str("keyspace is required")))
        } else {
            Ok(())
        }
    }

    /// The expiry that applies to a write made through a store of this
    /// configuration.
    pub fn ttl_for(&self, ttl_override: Option<Duration>) -> (ttl: Option<Duration>)
        ensures
            ttl == effective_ttl(ttl_override, self.ttl),
    {
        resolve_ttl(ttl_override, self.ttl)
    }
}

} // verus!
