//! Trusted bindings to the persistence collaborator: an ordered, durable
//! key-value table mapping an alias name to its serialized definition list.
//! One [`Kv`] is one opened database together with its at most one open
//! write transaction, so a transaction can never be committed against a
//! database other than its own, and a second write transaction can never be
//! begun while one is open. The store depends on seven operations —
//! begin-read (inside [`Kv::read_committed`]), begin-write, get, insert,
//! remove, iterate-all, and commit — and on nothing else of the collaborator.

use vstd::prelude::*;
use crate::error::AkaError;
use redb::ReadableDatabase;
use redb::ReadableTable;

verus! {

/// The connection to the collaborator: the opened database file and its
/// single open write transaction, if one is.
#[verifier::external_body]
pub struct Kv {
    db: redb::Database,
    txn: Option<redb::WriteTransaction>,
}

/// What the alias table holds as committed: each stored key with its stored
/// value.
pub uninterp spec fn kv_committed(kv: &Kv) -> Map<Seq<char>, Seq<char>>;

/// What the alias table holds as pending inside the open write transaction;
/// meaningful while one is open.
pub uninterp spec fn kv_pending(kv: &Kv) -> Map<Seq<char>, Seq<char>>;

/// Whether this connection holds an open write transaction.
pub uninterp spec fn kv_open(kv: &Kv) -> bool;

/// The entry list `es` is exactly the table `m`: every listed pair is stored,
/// no key is listed twice, and every stored key is listed.
pub open spec fn entries_match(es: Seq<(String, String)>, m: Map<Seq<char>, Seq<char>>) -> bool {
    &&& forall|i: int| 0 <= i < es.len() ==> m.contains_key(#[trigger] es[i].0@) && m[es[i].0@]
        == es[i].1@
    &&& forall|i: int, j: int| 0 <= i < j < es.len() ==> (#[trigger] es[i].0@) != (#[trigger] es[
        j
    ].0@)
    &&& forall|k: Seq<char>| m.contains_key(k) ==> exists|i: int|
        0 <= i < es.len() && (#[trigger] es[i].0@) == k
    &&& m.dom().finite()
}

/// Relies on `redb::Database::create`: opens the database file, creating it
/// if absent; a fresh connection holds no transaction. Every failure of the
/// engine's open is reported as `DatabaseError`.
#[verifier::external_body]
pub fn kv_open_db(path: &str) -> (r: Result<Kv, AkaError>)
    ensures
        r matches Ok(kv) ==> !kv_open(&kv),
        r matches Err(e) ==> e is DatabaseError,
{
    match redb::Database::create(std::path::Path::new(path)) {
        Ok(db) => Ok(Kv { db, txn: None }),
        Err(e) => Err(AkaError::DatabaseError(e.to_string())),
    }
}

impl Kv {
    /// Relies on `redb::Database::begin_write`: opens this connection's
    /// write transaction, which sees the committed table. redb blocks while
    /// another write transaction on the same database is live, so a new one
    /// may only be begun when none is open here; a second process cannot
    /// share the file (its open fails), so no other writer can exist.
    #[verifier::external_body]
    pub fn begin_write(&mut self) -> (r: Result<(), AkaError>)
        requires
            !kv_open(old(self)),
        ensures
            kv_committed(final(self)) == kv_committed(old(self)),
            r is Ok ==> kv_open(final(self)) && kv_pending(final(self)) == kv_committed(
                old(self),
            ),
            r is Err ==> !kv_open(final(self)),
            r matches Err(e) ==> e is TransactionError,
    {
        match self.db.begin_write() {
            Ok(t) => {
                self.txn = Some(t);
                Ok(())
            },
            Err(e) => Err(AkaError::TransactionError(e.to_string())),
        }
    }

    /// Relies on `redb::WriteTransaction::open_table` (which creates a
    /// missing table, leaving it empty) and `redb::Table::get`: returns the
    /// value pending under `key`, if any.
    #[verifier::external_body]
    pub fn get(&self, key: &str) -> (r: Result<Option<String>, AkaError>)
        requires
            kv_open(self),
        ensures
            r matches Ok(o) ==> match o {
                Some(v) => kv_pending(self).contains_key(key@) && kv_pending(self)[key@] == v@,
                None => !kv_pending(self).contains_key(key@),
            },
            r matches Err(e) ==> e is TableError || e is StorageError,
    {
        let t = match self.txn.as_ref() {
            Some(t) => t,
            None => return Err(AkaError::TableError("no open transaction".to_string())),
        };
        let table = t.open_table(redb::TableDefinition::<&str, &str>::new("aliases")).map_err(
            |e| AkaError::TableError(e.to_string()),
        )?;
        let got = table.get(key).map_err(|e| AkaError::StorageError(e.to_string()))?;
        Ok(got.map(|g| g.value().to_string()))
    }

    /// Relies on `redb::Table::insert`: maps `key` to `value` inside the
    /// open transaction, replacing any prior value; the committed table is
    /// untouched either way.
    #[verifier::external_body]
    pub fn insert(&mut self, key: &str, value: &str) -> (r: Result<(), AkaError>)
        requires
            kv_open(old(self)),
        ensures
            kv_committed(final(self)) == kv_committed(old(self)),
            kv_open(final(self)),
            r is Ok ==> kv_pending(final(self)) == kv_pending(old(self)).insert(key@, value@),
            r matches Err(e) ==> e is TableError || e is StorageError,
    {
        let t = match self.txn.as_ref() {
            Some(t) => t,
            None => return Err(AkaError::TableError("no open transaction".to_string())),
        };
        let mut table = t.open_table(redb::TableDefinition::<&str, &str>::new("aliases")).map_err(
            |e| AkaError::TableError(e.to_string()),
        )?;
        table.insert(key, value).map_err(|e| AkaError::StorageError(e.to_string()))?;
        Ok(())
    }

    /// Relies on `redb::Table::remove`: unmaps `key` inside the open
    /// transaction and hands back the value it held, if any; the committed
    /// table is untouched either way.
    #[verifier::external_body]
    pub fn remove(&mut self, key: &str) -> (r: Result<Option<String>, AkaError>)
        requires
            kv_open(old(self)),
        ensures
            kv_committed(final(self)) == kv_committed(old(self)),
            kv_open(final(self)),
            r matches Ok(o) ==> match o {
                Some(v) => kv_pending(old(self)).contains_key(key@) && kv_pending(old(self))[key@]
                    == v@ && kv_pending(final(self)) == kv_pending(old(self)).remove(key@),
                None => !kv_pending(old(self)).contains_key(key@) && kv_pending(final(self))
                    == kv_pending(old(self)),
            },
            r matches Err(e) ==> e is TableError || e is StorageError,
    {
        let t = match self.txn.as_ref() {
            Some(t) => t,
            None => return Err(AkaError::TableError("no open transaction".to_string())),
        };
        let mut table = t.open_table(redb::TableDefinition::<&str, &str>::new("aliases")).map_err(
            |e| AkaError::TableError(e.to_string()),
        )?;
        let got = table.remove(key).map_err(|e| AkaError::StorageError(e.to_string()))?;
        Ok(got.map(|g| g.value().to_string()))
    }

    /// Relies on `redb::Table::iter` over the open transaction: lists every
    /// pending pair, each key once.
    #[verifier::external_body]
    pub fn list_pending(&self) -> (r: Result<Vec<(String, String)>, AkaError>)
        requires
            kv_open(self),
        ensures
            r matches Ok(es) ==> entries_match(es@, kv_pending(self)),
            r matches Err(e) ==> e is TableError || e is StorageError,
    {
        let t = match self.txn.as_ref() {
            Some(t) => t,
            None => return Err(AkaError::TableError("no open transaction".to_string())),
        };
        let table = t.open_table(redb::TableDefinition::<&str, &str>::new("aliases")).map_err(
            |e| AkaError::TableError(e.to_string()),
        )?;
        let iter = table.iter().map_err(|e| AkaError::StorageError(e.to_string()))?;
        iter.map(
            |item|
                item.map(|(k, v)| (k.value().to_string(), v.value().to_string())).map_err(
                    |e| AkaError::StorageError(e.to_string()),
                ),
        ).collect()
    }

    /// Relies on dropping a `redb::WriteTransaction`, which aborts it: the
    /// open transaction and its pending changes are discarded.
    #[verifier::external_body]
    pub fn abort(&mut self)
        requires
            kv_open(old(self)),
        ensures
            !kv_open(final(self)),
            kv_committed(final(self)) == kv_committed(old(self)),
    {
        self.txn = None;
    }

    /// Relies on `redb::WriteTransaction::commit`: on success the pending
    /// table becomes the committed one; a failed commit applies the
    /// transaction's changes atomically, fully or not at all. Either way the
    /// transaction is over.
    #[verifier::external_body]
    pub fn commit(&mut self) -> (r: Result<(), AkaError>)
        requires
            kv_open(old(self)),
        ensures
            !kv_open(final(self)),
            r is Ok ==> kv_committed(final(self)) == kv_pending(old(self)),
            r is Err ==> kv_committed(final(self)) == kv_committed(old(self)) || kv_committed(
                final(self),
            ) == kv_pending(old(self)),
            r matches Err(e) ==> e is CommitError,
    {
        let t = match self.txn.take() {
            Some(t) => t,
            None => return Err(AkaError::CommitError("no open transaction".to_string())),
        };
        t.commit().map_err(|e| AkaError::CommitError(e.to_string()))
    }

    /// Relies on `redb::Database::begin_read`, `redb::ReadTransaction::open_table`
    /// and `redb::Table::iter`: one committed snapshot of the table, each key
    /// once; a missing table reads as empty.
    #[verifier::external_body]
    pub fn read_committed(&self) -> (r: Result<Vec<(String, String)>, AkaError>)
        ensures
            r matches Ok(es) ==> entries_match(es@, kv_committed(self)),
            r matches Err(e) ==> e is TransactionError || e is TableError || e is StorageError,
    {
        let txn = self.db.begin_read().map_err(|e| AkaError::TransactionError(e.to_string()))?;
        let table = match txn.open_table(redb::TableDefinition::<&str, &str>::new("aliases")) {
            Ok(t) => t,
            Err(redb::TableError::TableDoesNotExist(_)) => return Ok(Vec::new()),
            Err(e) => return Err(AkaError::TableError(e.to_string())),
        };
        let iter = table.iter().map_err(|e| AkaError::StorageError(e.to_string()))?;
        iter.map(
            |item|
                item.map(|(k, v)| (k.value().to_string(), v.value().to_string())).map_err(
                    |e| AkaError::StorageError(e.to_string()),
                ),
        ).collect()
    }
}

} // verus!
