//! The stored licenses: one row for each checkout session.

use crate::text::contains;
use vstd::prelude::*;
use vstd::string::*;

verus! {

/// A license as it is stored.
#[derive(Debug)]
pub struct StoredLicense {
    /// The session that paid for it. No two rows have the same.
    pub stripe_session_id: String,
    pub license_id: String,
    pub product: String,
    pub sku: String,
    pub customer: String,
    pub email: String,
    pub blob: String,
    pub issued_at: i64,
}

impl Clone for StoredLicense {
    fn clone(&self) -> (r: StoredLicense)
        ensures
            r == *self,
    {
        StoredLicense {
            stripe_session_id: self.stripe_session_id.clone(),
            license_id: self.license_id.clone(),
            product: self.product.clone(),
            sku: self.sku.clone(),
            customer: self.customer.clone(),
            email: self.email.clone(),
            blob: self.blob.clone(),
            issued_at: self.issued_at,
        }
    }
}

/// How the database is opened.
#[derive(Debug, Clone, Copy, PartialEq, Eq, Structural)]
pub struct PoolPlan {
    pub max_connections: u32,
    /// Whether changes go through a write-ahead log. They are kept in memory
    /// otherwise.
    pub write_ahead_log: bool,
    /// How long a writer waits for another.
    pub busy_timeout_seconds: u64,
}

/// How the database at an address is opened.
pub open spec fn plan_for(database_url: Seq<char>) -> PoolPlan {
    if crate::text::occurs_in(":memory:"@, database_url) {
        PoolPlan { max_connections: 1, write_ahead_log: false, busy_timeout_seconds: 5 }
    } else {
        PoolPlan { max_connections: 5, write_ahead_log: true, busy_timeout_seconds: 5 }
    }
}

/// A database in memory has one connection and no log, wherever its address says
/// so. Any other has five connections and a log. Writers wait five seconds for
/// each other.
pub proof fn lemma_only_memory_has_one_connection(before: Seq<char>, after: Seq<char>, url: Seq<char>)
    ensures
        plan_for(before + ":memory:"@ + after).max_connections == 1,
        !plan_for(before + ":memory:"@ + after).write_ahead_log,
        plan_for(url).max_connections == 1 <==> crate::text::occurs_in(":memory:"@, url),
        plan_for(url).write_ahead_log <==> !crate::text::occurs_in(":memory:"@, url),
        plan_for(url).max_connections == 1 || plan_for(url).max_connections == 5,
        plan_for(url).busy_timeout_seconds == 5,
{
    crate::text::lemma_occurs(before, ":memory:"@, after);
}

/// How the database at an address is opened. Each connection to a database in
/// memory has one of its own, so there is only one. A file has several, and
/// writers that wait for each other.
pub fn pool_plan(database_url: &str) -> (plan: PoolPlan)
    ensures
        plan == plan_for(database_url@),
        plan == if crate::text::occurs_in(":memory:"@, database_url@) {
            PoolPlan { max_connections: 1, write_ahead_log: false, busy_timeout_seconds: 5 }
        } else {
            PoolPlan { max_connections: 5, write_ahead_log: true, busy_timeout_seconds: 5 }
        },
{
    if contains(database_url, ":memory:") {
        PoolPlan { max_connections: 1, write_ahead_log: false, busy_timeout_seconds: 5 }
    } else {
        PoolPlan { max_connections: 5, write_ahead_log: true, busy_timeout_seconds: 5 }
    }
}

/// A row that was there a moment ago is gone.
#[derive(Debug)]
pub struct RowVanished {}

/// The row that holds after an insertion which gives way to an existing row,
/// and whether it is the one that was inserted: so it is if a row was written.
pub fn inserted_or_existing(rows_affected: u64, row: Option<StoredLicense>) -> (r: Result<
    (StoredLicense, bool),
    RowVanished,
>)
    ensures
        match row {
            Some(stored) => r == Ok::<(StoredLicense, bool), RowVanished>(
                (stored, rows_affected == 1),
            ),
            None => r is Err,
        },
{
    match row {
        Some(stored) => Ok((stored, rows_affected == 1)),
        None => Err(RowVanished {  }),
    }
}

} // verus!
