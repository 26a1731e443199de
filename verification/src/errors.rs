//! The error types of the storage layer and of the entity handlers.

use vstd::prelude::*;

verus! {

/// Failure reported by the storage layer.
#[derive(Debug)]
pub enum DbError {
    /// The store itself could not be opened.
    CannotOpenDb(String),
    /// A partition (bucket) could not be opened.
    CannotOpenBucket(String),
    /// The store was reachable but an access failed.
    AccessFailed(String),
    /// No record matched the requested name or id.
    NotExists(String),
}

/// Failure reported to callers of the entity handlers.
#[derive(Debug)]
pub enum EleboxError {
    /// An entity of this kind already uses the name: `(kind, name)`.
    AlreadyExists(String, String),
    /// A required entity was not found: `(kind, name or id)`.
    NotExists(String, String),
    /// A quantity decrement would drive the stock below zero.
    InventoryShortage(String),
    /// The underlying store failed; not recoverable at this layer.
    DatabaseError(DbError),
}

impl DbError {
    /// The text `message` produces, as a spec-level sequence.
    pub open spec fn message_view(&self) -> Seq<char> {
        match self {
            DbError::CannotOpenDb(n) => "cannot open or connect database "@ + n@,
            DbError::CannotOpenBucket(n) => "cannot open bucket "@ + n@,
            DbError::AccessFailed(n) => n@ + " access failed"@,
            DbError::NotExists(n) => n@ + " does not exists"@,
        }
    }

    /// Human-readable description of the failure.
    pub fn message(&self) -> (r: String)
        ensures
            self matches DbError::CannotOpenDb(n) ==> r@ == "cannot open or connect database "@ + n@,
            self matches DbError::CannotOpenBucket(n) ==> r@ == "cannot open bucket "@ + n@,
            self matches DbError::AccessFailed(n) ==> r@ == n@ + " access failed"@,
            self matches DbError::NotExists(n) ==> r@ == n@ + " does not exists"@,
    {
        match self {
            DbError::CannotOpenDb(n) => {
                let mut s = String::from_str("cannot open or connect database ");
                s.append(n.as_str());
                s
            },
            DbError::CannotOpenBucket(n) => {
                let mut s = String::from_str("cannot open bucket ");
                s.append(n.as_str());
                s
            },
            DbError::AccessFailed(n) => {
                let mut s = n.clone();
                s.append(" access failed");
                s
            },
            DbError::NotExists(n) => {
                let mut s = n.clone();
                s.append(" does not exists");
                s
            },
        }
    }
}

impl EleboxError {
    /// Wraps a storage failure: a missing record becomes `NotExists` with an
    /// empty kind, anything else is carried along as `DatabaseError`.
    pub fn from_db(err: DbError) -> (r: EleboxError)
        ensures
            err matches DbError::NotExists(n) ==> (r matches EleboxError::NotExists(k, m)
                && k@.len() == 0 && m == n),
            !(err matches DbError::NotExists(_)) ==> (r matches EleboxError::DatabaseError(e)
                && e == err),
    {
        match err {
            DbError::NotExists(name) => EleboxError::NotExists(String::new(), name),
            other => EleboxError::DatabaseError(other),
        }
    }

    /// Human-readable description of the failure.
    pub fn message(&self) -> (r: String)
        ensures
            self matches EleboxError::AlreadyExists(k, n) ==> r@ == k@ + " "@ + n@ + " already exists"@,
            self matches EleboxError::NotExists(k, n) ==> r@ == k@ + " "@ + n@ + " does not exists"@,
            self matches EleboxError::InventoryShortage(n) ==> r@ == "Part "@ + n@ + " not enough stock"@,
            self matches EleboxError::DatabaseError(e) ==> r@ == "database error "@ + e.message_view(),
    {
        match self {
            EleboxError::AlreadyExists(k, n) => {
                let mut s = k.clone();
                s.append(" ");
                s.append(n.as_str());
                s.append(" already exists");
                s
            },
            EleboxError::NotExists(k, n) => {
                let mut s = k.clone();
                s.append(" ");
                s.append(n.as_str());
                s.append(" does not exists");
                s
            },
            EleboxError::InventoryShortage(n) => {
                let mut s = String::from_str("Part ");
                s.append(n.as_str());
                s.append(" not enough stock");
                s
            },
            EleboxError::DatabaseError(e) => {
                let mut s = String::from_str("database error ");
                let m = e.message();
                s.append(m.as_str());
                s
            },
        }
    }
}

} // verus!
