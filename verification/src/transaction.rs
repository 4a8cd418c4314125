//! A redb transaction, read or write, and the operations on it: opening a
//! model's tables, running code against the raw transaction, committing,
//! and the model operations.
use crate::codec::{entry_views, ModelEntry, ModelEntryView};
use crate::crud::{
    capped_len, has_corrupted_entry, invalid_reference_from, lists_entries_with_secondary_key, lists_stored_entries,
};
use crate::errors::{NetabaseError, NetabaseResult};
use crate::query::{QueryConfig, QueryResult};
use crate::relational::{
    grants, relational_flag, table_names, ModelRelationPermissions, ModelTreeNames,
    PermissionFlag, RelationPermission,
};
use crate::storage::{begin_read, begin_write, commit_write, describe_commit_error, describe_transaction_error};
use crate::tables::{
    assemble_model_tables, open_read_category, open_read_main, open_write_category, open_write_main, relational_write_plan,
    uniform_plan, AccessMode, ModelOpenTables, TablePermission,
};
use vstd::prelude::*;

verus! {

/// A redb read transaction.
pub struct NetabaseRedbReadTransaction {
    pub inner: redb::ReadTransaction,
}

/// A redb write transaction.
pub struct NetabaseRedbWriteTransaction {
    pub inner: redb::WriteTransaction,
}

impl NetabaseRedbReadTransaction {
    /// Wraps a redb read transaction.
    pub fn new(inner: redb::ReadTransaction) -> (r: Self)
        ensures
            r.inner == inner,
    {
        NetabaseRedbReadTransaction { inner }
    }
}

impl NetabaseRedbWriteTransaction {
    /// Wraps a redb write transaction.
    pub fn new(inner: redb::WriteTransaction) -> (r: Self)
        ensures
            r.inner == inner,
    {
        NetabaseRedbWriteTransaction { inner }
    }

    /// Commits the transaction; a failure is a commit error.
    pub fn commit(self) -> (r: NetabaseResult<()>)
        ensures
            r matches Err(e) ==> e is RedbCommitError,
    {
        Self::from_commit(commit_write(self.inner))
    }

    /// The result that committing gave: `Ok` where redb committed, and its
    /// failure as a commit error.
    pub fn from_commit(committed: Result<(), redb::CommitError>) -> (r: NetabaseResult<()>)
        ensures
            committed is Ok <==> r is Ok,
            r matches Err(e) ==> e is RedbCommitError,
    {
        match committed {
            Ok(()) => Ok(()),
            Err(e) => Err(NetabaseError::RedbCommitError(describe_commit_error(&e))),
        }
    }
}

/// The kind of a transaction, with the redb transaction itself.
pub enum RedbTransactionType {
    Read(NetabaseRedbReadTransaction),
    Write(NetabaseRedbWriteTransaction),
}

/// A transaction on a redb database.
pub struct RedbTransactionInner {
    transaction: RedbTransactionType,
}

/// A transaction on a redb database.
pub type RedbTransaction = RedbTransactionInner;

/// With a single model's tree names as the only permission, every
/// relational table of that model is opened read-write.
pub proof fn lemma_own_permission_grants_all(names: &ModelTreeNames, perms: &ModelRelationPermissions)
    requires
        perms.relationa_tree_access@.len() == 1,
        perms.relationa_tree_access@[0].0 == names,
        perms.relationa_tree_access@[0].1 == PermissionFlag::ReadWrite,
    ensures
        relational_write_plan(table_names(names.relational@), Some(perms))
            == uniform_plan(table_names(names.relational@), AccessMode::ReadWrite),
{
    let ns = table_names(names.relational@);
    assert forall|i: int| 0 <= i < ns.len() implies relational_flag(Some(perms), #[trigger] ns[i])
        == PermissionFlag::ReadWrite by {
        assert(grants(perms.relationa_tree_access@[0], ns[i]));
    }
    assert(relational_write_plan(ns, Some(perms)) =~= uniform_plan(ns, AccessMode::ReadWrite));
}

impl RedbTransactionInner {
    /// The transaction writes.
    pub closed spec fn writes(&self) -> bool {
        self.transaction is Write
    }

    /// The redb read transaction, where this is a read transaction.
    pub closed spec fn read_inner(&self) -> redb::ReadTransaction {
        self.transaction->Read_0.inner
    }

    /// The redb write transaction, where this is a write transaction.
    pub closed spec fn write_inner(&self) -> redb::WriteTransaction {
        self.transaction->Write_0.inner
    }

    /// The write transaction, where this is one.
    pub closed spec fn write_transaction(&self) -> NetabaseRedbWriteTransaction {
        self.transaction->Write_0
    }

    /// The read transaction, where this is one.
    pub closed spec fn read_transaction(&self) -> NetabaseRedbReadTransaction {
        self.transaction->Read_0
    }

    /// Begins a write transaction.
    pub fn new(db: &redb::Database) -> (r: NetabaseResult<Self>)
        ensures
            r matches Ok(t) ==> t.writes(),
            r matches Err(e) ==> e is RedbTransactionError,
    {
        Self::new_write(db)
    }

    /// Begins a write transaction.
    pub fn new_write(db: &redb::Database) -> (r: NetabaseResult<Self>)
        ensures
            r matches Ok(t) ==> t.writes(),
            r matches Err(e) ==> e is RedbTransactionError,
    {
        Self::from_write_begun(begin_write(db))
    }

    /// Begins a read-only transaction.
    pub fn new_read(db: &redb::Database) -> (r: NetabaseResult<Self>)
        ensures
            r matches Ok(t) ==> !t.writes(),
            r matches Err(e) ==> e is RedbTransactionError,
    {
        Self::from_read_begun(begin_read(db))
    }

    /// The transaction that beginning a write transaction gave, or its
    /// failure as a transaction error.
    pub fn from_write_begun(begun: Result<redb::WriteTransaction, redb::TransactionError>) -> (r: NetabaseResult<Self>)
        ensures
            begun is Ok <==> r is Ok,
            r matches Ok(t) ==> t.writes() && t.write_inner() == begun->Ok_0,
            r matches Err(e) ==> e is RedbTransactionError,
    {
        match begun {
            Ok(write_txn) => {
                let transaction = RedbTransactionType::Write(NetabaseRedbWriteTransaction::new(write_txn));
                Ok(RedbTransactionInner { transaction })
            },
            Err(e) => Err(NetabaseError::RedbTransactionError(describe_transaction_error(&e))),
        }
    }

    /// The transaction that beginning a read transaction gave, or its
    /// failure as a transaction error.
    pub fn from_read_begun(begun: Result<redb::ReadTransaction, redb::TransactionError>) -> (r: NetabaseResult<Self>)
        ensures
            begun is Ok <==> r is Ok,
            r matches Ok(t) ==> !t.writes() && t.read_inner() == begun->Ok_0,
            r matches Err(e) ==> e is RedbTransactionError,
    {
        match begun {
            Ok(read_txn) => {
                let transaction = RedbTransactionType::Read(NetabaseRedbReadTransaction::new(read_txn));
                Ok(RedbTransactionInner { transaction })
            },
            Err(e) => Err(NetabaseError::RedbTransactionError(describe_transaction_error(&e))),
        }
    }

    /// Opens the tables of a model for batch operations: in a write
    /// transaction every table, the relational ones included, read-write; in
    /// a read transaction every table read-only.
    pub fn prepare_model<'txn>(&'txn self, tree_names: &ModelTreeNames) -> (r: NetabaseResult<ModelOpenTables<'txn>>)
        requires
            tree_names.wf(),
        ensures
            r matches Ok(t) ==> self.writes() ==> t.follows_uniform_plan(tree_names, AccessMode::ReadWrite),
            r matches Ok(t) ==> !self.writes() ==> t.follows_uniform_plan(tree_names, AccessMode::ReadOnly),
            r matches Err(e) ==> e is RedbTableError,
    {
        let perms = Self::own_permissions(tree_names);
        self.open_model_tables(tree_names, Some(&perms))
    }

    /// Opens the tables of a model: the main table, then each list of
    /// multimap tables in order. In a read transaction every table is
    /// read-only. In a write transaction every table is read-write, but a
    /// relational table, which is read-write only where the first permission
    /// naming it grants read-write, and otherwise opened writable but to be
    /// read only.
    pub fn open_model_tables<'txn>(
        &'txn self,
        definitions: &ModelTreeNames,
        relational_permissions: Option<&ModelRelationPermissions>,
    ) -> (r: NetabaseResult<ModelOpenTables<'txn>>)
        requires
            definitions.wf(),
        ensures
            r matches Ok(t) ==> t.follows_plan(definitions, self.writes(), relational_permissions),
            r matches Err(e) ==> e is RedbTableError,
    {
        match &self.transaction {
            RedbTransactionType::Read(read_txn) => {
                let main_table = open_read_main(&read_txn.inner, &definitions.main.table_name)?;
                let secondary_tables = open_read_category(&read_txn.inner, &definitions.secondary);
                let blob_tables = open_read_category(&read_txn.inner, &definitions.blob);
                let relational_tables = open_read_category(&read_txn.inner, &definitions.relational);
                let subscription_tables = match &definitions.subscription {
                    Some(subs) => open_read_category(&read_txn.inner, subs),
                    None => Ok(Vec::new()),
                };
                let t = assemble_model_tables(
                    main_table,
                    secondary_tables,
                    blob_tables,
                    relational_tables,
                    subscription_tables,
                )?;
                assert(uniform_plan(definitions.subscription_names(), AccessMode::ReadOnly) =~= t.subscription@.map_values(
                    |e: (TablePermission, String)| (e.1@, e.0.access()),
                ));
                Ok(t)
            },
            RedbTransactionType::Write(write_txn) => {
                let main_table = open_write_main(&write_txn.inner, &definitions.main.table_name)?;
                let secondary_tables = open_write_category(&write_txn.inner, &definitions.secondary, false, None);
                let blob_tables = open_write_category(&write_txn.inner, &definitions.blob, false, None);
                let relational_tables = open_write_category(
                    &write_txn.inner,
                    &definitions.relational,
                    true,
                    relational_permissions,
                );
                let subscription_tables = match &definitions.subscription {
                    Some(subs) => open_write_category(&write_txn.inner, subs, false, None),
                    None => Ok(Vec::new()),
                };
                let t = assemble_model_tables(
                    main_table,
                    secondary_tables,
                    blob_tables,
                    relational_tables,
                    subscription_tables,
                )?;
                assert(uniform_plan(definitions.subscription_names(), AccessMode::ReadWrite) =~= t.subscription@.map_values(
                    |e: (TablePermission, String)| (e.1@, e.0.access()),
                ));
                Ok(t)
            },
        }
    }

    /// Runs `f` on the redb read transaction; a write transaction gives
    /// `Other`.
    pub fn with_read_transaction<F, R>(&self, f: F) -> (r: NetabaseResult<R>)
        where
            F: FnOnce(&redb::ReadTransaction) -> NetabaseResult<R>,
        requires
            !self.writes() ==> f.requires((&self.read_inner(),)),
        ensures
            self.writes() ==> r == Err::<R, NetabaseError>(NetabaseError::Other),
            !self.writes() ==> f.ensures((&self.read_inner(),), r),
    {
        match &self.transaction {
            RedbTransactionType::Read(read_txn) => f(&read_txn.inner),
            RedbTransactionType::Write(_) => Err(NetabaseError::Other),
        }
    }

    /// Runs `f` on the redb write transaction; a read transaction gives
    /// `Other`.
    pub fn with_write_transaction<F, R>(&self, f: F) -> (r: NetabaseResult<R>)
        where
            F: FnOnce(&redb::WriteTransaction) -> NetabaseResult<R>,
        requires
            self.writes() ==> f.requires((&self.write_inner(),)),
        ensures
            !self.writes() ==> r == Err::<R, NetabaseError>(NetabaseError::Other),
            self.writes() ==> f.ensures((&self.write_inner(),), r),
    {
        match &self.transaction {
            RedbTransactionType::Write(write_txn) => f(&write_txn.inner),
            RedbTransactionType::Read(_) => Err(NetabaseError::Other),
        }
    }

    /// Commits a write transaction; a read transaction needs no commit and
    /// gives `Ok`.
    pub fn commit(self) -> (r: NetabaseResult<()>)
        ensures
            !self.writes() ==> r == Ok::<(), NetabaseError>(()),
            r matches Err(e) ==> e is RedbCommitError,
    {
        match self.transaction {
            RedbTransactionType::Write(write_txn) => write_txn.commit(),
            RedbTransactionType::Read(_) => Ok(()),
        }
    }
}

/// The outcome of a create of `model` in a transaction that writes
/// (`writes`) or not, through tables opened after `names`.
pub open spec fn create_outcome(writes: bool, names: &ModelTreeNames, model: ModelEntryView, r: NetabaseResult<()>) -> bool {
    &&& r is Ok ==> writes && !invalid_reference_from(names, model.indexes, 0) && exists|before: ModelOpenTables, after: ModelOpenTables|
        opened_for_model(before, names, writes) && !before.main_contents().contains_key(model.primary_key)
            && #[trigger] before.create_effect(&after, model)
    &&& !writes ==> (r matches Err(e) && (e == NetabaseError::PermissionDenied || e is RedbTableError))
    &&& writes && invalid_reference_from(names, model.indexes, 0) ==> (r matches Err(e) && (e == NetabaseError::InvalidIndexReference
        || e is RedbTableError))
    &&& r matches Err(e) ==> e is RedbTableError || e is RedbStorageError || (e == NetabaseError::PermissionDenied && !writes)
        || (e == NetabaseError::InvalidIndexReference && writes && invalid_reference_from(names, model.indexes, 0)) || (e
        == NetabaseError::PrimaryKeyExists && writes && exists|before: ModelOpenTables|
        opened_for_model(before, names, writes) && #[trigger] before.main_contents().contains_key(model.primary_key))
}

/// `t` holds the tables of `names`, every one read-write in a transaction
/// that writes and read-only in one that does not.
pub open spec fn opened_for_model(t: ModelOpenTables, names: &ModelTreeNames, writes: bool) -> bool {
    t.follows_uniform_plan(names, if writes { AccessMode::ReadWrite } else { AccessMode::ReadOnly })
}

/// The outcome of an update with `model`, as `create_outcome`.
pub open spec fn update_outcome(writes: bool, names: &ModelTreeNames, model: ModelEntryView, r: NetabaseResult<()>) -> bool {
    &&& r is Ok ==> writes && !invalid_reference_from(names, model.indexes, 0) && exists|before: ModelOpenTables, after: ModelOpenTables, prev: ModelEntryView|
        opened_for_model(before, names, writes) && before.stored_entry(model.primary_key) == Some(prev)
            && !invalid_reference_from(names, prev.indexes, 0) && #[trigger] before.update_effect(&after, model, prev.indexes)
    &&& !writes ==> (r matches Err(e) && (e == NetabaseError::PermissionDenied || e is RedbTableError))
    &&& writes && invalid_reference_from(names, model.indexes, 0) ==> (r matches Err(e) && (e == NetabaseError::InvalidIndexReference
        || e is RedbTableError))
    &&& r matches Err(e) ==> e is RedbTableError || e is RedbStorageError || (e == NetabaseError::PermissionDenied && !writes)
        || (e == NetabaseError::InvalidIndexReference && writes && (invalid_reference_from(names, model.indexes, 0)
        || exists|before: ModelOpenTables| opened_for_model(before, names, writes) && (#[trigger] before.stored_entry(
        model.primary_key)) is Some && invalid_reference_from(names, before.stored_entry(model.primary_key)->Some_0.indexes, 0))) || (e == NetabaseError::NotFound
        && writes && exists|before: ModelOpenTables| opened_for_model(before, names, writes) && !#[trigger] before.main_contents().contains_key(
        model.primary_key)) || (e == NetabaseError::CorruptedEntry && writes && exists|before: ModelOpenTables|
        opened_for_model(before, names, writes) && #[trigger] before.main_contents().contains_key(model.primary_key)
        && before.stored_entry(model.primary_key) is None)
}

/// The outcome of a delete of `key`, as `create_outcome`.
pub open spec fn delete_outcome(writes: bool, names: &ModelTreeNames, key: Seq<u8>, r: NetabaseResult<()>) -> bool {
    &&& r is Ok ==> writes && exists|before: ModelOpenTables, after: ModelOpenTables|
        opened_for_model(before, names, writes) && #[trigger] deleted(before, after, key, names)
    &&& !writes ==> (r matches Err(e) && (e == NetabaseError::PermissionDenied || e is RedbTableError))
    &&& r matches Err(e) ==> e is RedbTableError || e is RedbStorageError || (e == NetabaseError::PermissionDenied && !writes)
        || (e == NetabaseError::InvalidIndexReference && writes && exists|before: ModelOpenTables|
        opened_for_model(before, names, writes) && (#[trigger] before.stored_entry(key)) is Some && invalid_reference_from(
        names, before.stored_entry(key)->Some_0.indexes, 0))
        || (e == NetabaseError::CorruptedEntry && writes && exists|before: ModelOpenTables| opened_for_model(before, names, writes)
        && #[trigger] before.main_contents().contains_key(key) && before.stored_entry(key) is None)
}

/// `after` is `before` without the entry under `key`: unchanged where there
/// was none, and otherwise as `delete_entry` says.
pub open spec fn deleted(before: ModelOpenTables, after: ModelOpenTables, key: Seq<u8>, names: &ModelTreeNames) -> bool {
    ||| !before.main_contents().contains_key(key) && after == before
    ||| before.stored_entry(key) is Some && !invalid_reference_from(names, before.stored_entry(key)->Some_0.indexes, 0)
        && before.delete_effect(&after, key, before.stored_entry(key)->Some_0.indexes)
}

/// The outcome of a read of `key` in a transaction that writes (`writes`)
/// or not, through tables opened after `names`.
pub open spec fn read_outcome(writes: bool, names: &ModelTreeNames, key: Seq<u8>, r: NetabaseResult<Option<ModelEntry>>) -> bool {
    &&& r matches Ok(Some(e)) ==> e@.primary_key == key && exists|t: ModelOpenTables| t.follows_plan(names, writes, None)
        && #[trigger] t.stored_entry(key) == Some(e@)
    &&& r matches Ok(None) ==> exists|t: ModelOpenTables| t.follows_plan(names, writes, None) && !#[trigger] t.main_contents().contains_key(key)
    &&& r matches Err(e) ==> e is RedbTableError || e is RedbStorageError || (e == NetabaseError::CorruptedEntry && exists|t: ModelOpenTables|
        t.follows_plan(names, writes, None) && #[trigger] t.main_contents().contains_key(key) && t.stored_entry(key) is None)
}

/// The outcome of reading every entry, as `read_outcome`.
pub open spec fn read_all_outcome(writes: bool, names: &ModelTreeNames, r: NetabaseResult<Vec<ModelEntry>>) -> bool {
    &&& r matches Ok(v) ==> exists|t: ModelOpenTables| opened_for_model(t, names, writes) && #[trigger] lists_stored_entries(t, entry_views(v@))
    &&& r matches Err(e) ==> e is RedbTableError || e is RedbStorageError || (e == NetabaseError::CorruptedEntry && exists|t: ModelOpenTables|
        opened_for_model(t, names, writes) && #[trigger] has_corrupted_entry(t))
}

impl RedbTransactionInner {
    /// The relational permission that opens every table of the model
    /// read-write.
    fn own_permissions<'a>(names: &'a ModelTreeNames) -> (p: ModelRelationPermissions<'a>)
        ensures
            relational_write_plan(table_names(names.relational@), Some(&p))
                == uniform_plan(table_names(names.relational@), AccessMode::ReadWrite),
    {
        let perms = ModelRelationPermissions {
            relationa_tree_access: vec![RelationPermission(names, PermissionFlag::ReadWrite)],
        };
        proof {
            lemma_own_permission_grants_all(names, &perms);
        }
        perms
    }

    /// Creates `model` in the tables of `names`, opened with every table
    /// read-write; a read transaction refuses it. The contract speaks of the
    /// tables this call opens and closes before it returns: what the
    /// transaction holds afterwards is redb's, and is not stated. For stated
    /// effects across several operations, use `prepare_model` and
    /// `create_entry`.
    pub fn create_redb(&self, names: &ModelTreeNames, model: &ModelEntry) -> (r: NetabaseResult<()>)
        requires
            names.wf(),
        ensures
            create_outcome(self.writes(), names, model@, r),
    {
        let perms = Self::own_permissions(names);
        let mut tables = self.open_model_tables(names, Some(&perms))?;
        let ghost before = tables;
        proof {
            if self.writes() {
                assert(before.follows_uniform_plan(names, AccessMode::ReadWrite));
                before.lemma_read_write_targets(names, model@.indexes, 0);
            } else {
                assert(before.main.access() == AccessMode::ReadOnly);
            }
        }
        let r = tables.create_entry(model);
        proof {
            if r is Ok {
                assert(before.create_effect(&tables, model@));
            }
        }
        r
    }

    /// Replaces the entry stored under `model`'s primary key in the tables
    /// of `names`, opened with every table read-write; a read transaction
    /// refuses it. The contract speaks of the tables this call opens and
    /// closes before it returns: what the transaction holds afterwards is
    /// redb's, and is not stated. For stated effects across several
    /// operations, use `prepare_model` and `update_entry`.
    pub fn update_redb(&self, names: &ModelTreeNames, model: &ModelEntry) -> (r: NetabaseResult<()>)
        requires
            names.wf(),
        ensures
            update_outcome(self.writes(), names, model@, r),
    {
        let perms = Self::own_permissions(names);
        let mut tables = self.open_model_tables(names, Some(&perms))?;
        let ghost before = tables;
        proof {
            if self.writes() {
                before.lemma_read_write_targets(names, model@.indexes, 0);
                if let Some(prev) = before.stored_entry(model@.primary_key) {
                    before.lemma_read_write_targets(names, prev.indexes, 0);
                }
            }
        }
        let r = tables.update_entry(model);
        proof {
            if r is Ok {
                let prev = before.stored_entry(model@.primary_key)->Some_0;
                assert(before.update_effect(&tables, model@, prev.indexes));
            }
        }
        r
    }

    /// Removes the entry stored under `key` from the tables of `names`,
    /// opened with every table read-write; a read transaction refuses it.
    /// The contract speaks of the tables this call opens and closes before
    /// it returns: what the transaction holds afterwards is redb's, and is
    /// not stated. For stated effects across several operations, use
    /// `prepare_model` and `delete_entry`.
    pub fn delete_redb(&self, names: &ModelTreeNames, key: &Vec<u8>) -> (r: NetabaseResult<()>)
        requires
            names.wf(),
        ensures
            delete_outcome(self.writes(), names, key@, r),
    {
        let perms = Self::own_permissions(names);
        let mut tables = self.open_model_tables(names, Some(&perms))?;
        let ghost before = tables;
        proof {
            if self.writes() {
                if let Some(prev) = before.stored_entry(key@) {
                    before.lemma_read_write_targets(names, prev.indexes, 0);
                }
            }
        }
        let r = tables.delete_entry(key);
        proof {
            if r is Ok {
                assert(deleted(before, tables, key@, names));
            }
        }
        r
    }

    /// Reads the entry stored under `key` in the tables of `names`, opened
    /// with no relational permission.
    pub fn read_redb(&self, names: &ModelTreeNames, key: &Vec<u8>) -> (r: NetabaseResult<Option<ModelEntry>>)
        requires
            names.wf(),
        ensures
            read_outcome(self.writes(), names, key@, r),
    {
        let tables = self.open_model_tables(names, None)?;
        tables.read_default(key)
    }

    /// Creates a new model in the database, as `create_redb` does; its
    /// contract likewise speaks of tables closed before it returns.
    pub fn create(&self, names: &ModelTreeNames, model: &ModelEntry) -> (r: NetabaseResult<()>)
        requires
            names.wf(),
        ensures
            create_outcome(self.writes(), names, model@, r),
    {
        self.create_redb(names, model)
    }

    /// Reads a model by its primary key.
    pub fn read(&self, names: &ModelTreeNames, key: &Vec<u8>) -> (r: NetabaseResult<Option<ModelEntry>>)
        requires
            names.wf(),
        ensures
            read_outcome(self.writes(), names, key@, r),
    {
        self.read_redb(names, key)
    }

    /// Updates an existing model in the database, as `update_redb` does;
    /// its contract likewise speaks of tables closed before it returns.
    pub fn update(&self, names: &ModelTreeNames, model: &ModelEntry) -> (r: NetabaseResult<()>)
        requires
            names.wf(),
        ensures
            update_outcome(self.writes(), names, model@, r),
    {
        self.update_redb(names, model)
    }

    /// Deletes a model by its primary key, as `delete_redb` does; its
    /// contract likewise speaks of tables closed before it returns.
    pub fn delete(&self, names: &ModelTreeNames, key: &Vec<u8>) -> (r: NetabaseResult<()>)
        requires
            names.wf(),
        ensures
            delete_outcome(self.writes(), names, key@, r),
    {
        self.delete_redb(names, key)
    }

    /// Reads every model of the given tables, in ascending order of primary
    /// key.
    pub fn read_all(&self, names: &ModelTreeNames) -> (r: NetabaseResult<Vec<ModelEntry>>)
        requires
            names.wf(),
        ensures
            read_all_outcome(self.writes(), names, r),
    {
        let perms = Self::own_permissions(names);
        let tables = self.open_model_tables(names, Some(&perms))?;
        tables.list_default()
    }

    /// Reads the models that have a secondary key `key`, in ascending order
    /// of primary key, from the tables of `names` opened with no relational
    /// permission.
    pub fn read_by_secondary(&self, names: &ModelTreeNames, key: &Vec<u8>) -> (r: NetabaseResult<Vec<ModelEntry>>)
        requires
            names.wf(),
        ensures
            r matches Ok(v) ==> exists|t: ModelOpenTables| t.follows_plan(names, self.writes(), None)
                && #[trigger] lists_entries_with_secondary_key(t, entry_views(v@), key@),
            r matches Err(e) ==> e is RedbTableError || e is RedbStorageError || (e == NetabaseError::CorruptedEntry
                && exists|t: ModelOpenTables| t.follows_plan(names, self.writes(), None) && #[trigger] has_corrupted_entry(t)),
    {
        let tables = self.open_model_tables(names, None)?;
        tables.list_by_secondary(key)
    }

    /// Runs a query over the tables of `names`, opened with no relational
    /// permission: the first models in ascending order of primary key, at
    /// most `config.limit` of them where there is a limit.
    pub fn query(&self, names: &ModelTreeNames, config: QueryConfig) -> (r: NetabaseResult<QueryResult>)
        requires
            names.wf(),
        ensures
            r matches Ok(QueryResult::Multiple(v)) ==> exists|t: ModelOpenTables, all: Seq<ModelEntryView>|
                t.follows_plan(names, self.writes(), None) && #[trigger] lists_stored_entries(t, all) && entry_views(v@)
                    == all.take(capped_len(all.len(), config.limit)),
            r matches Err(e) ==> e is RedbTableError || e is RedbStorageError || (e == NetabaseError::CorruptedEntry
                && exists|t: ModelOpenTables| t.follows_plan(names, self.writes(), None) && #[trigger] has_corrupted_entry(t)),
    {
        let tables = self.open_model_tables(names, None)?;
        let v = tables.list_first(config.limit)?;
        Ok(QueryResult::Multiple(v))
    }

    /// Creates each model in order, stopping at the first that fails.
    pub fn create_many(&self, names: &ModelTreeNames, models: &Vec<ModelEntry>) -> (r: NetabaseResult<()>)
        requires
            names.wf(),
        ensures
            r is Ok ==> forall|i: int| 0 <= i < models@.len() ==> #[trigger] create_outcome(self.writes(), names, models@[i]@, Ok(())),
            r matches Err(e) ==> exists|i: int| 0 <= i < models@.len() && #[trigger] create_outcome(self.writes(), names, models@[i]@, Err(e))
                && forall|j: int| 0 <= j < i ==> #[trigger] create_outcome(self.writes(), names, models@[j]@, Ok(())),
            models@.len() > 0 && !self.writes() ==> r is Err,
    {
        let mut i: usize = 0;
        while i < models.len()
            invariant
                0 <= i <= models.len(),
                names.wf(),
                forall|j: int| 0 <= j < i ==> #[trigger] create_outcome(self.writes(), names, models@[j]@, Ok(())),
            decreases models.len() - i,
        {
            let r = self.create(names, &models[i]);
            if let Err(e) = r {
                assert(create_outcome(self.writes(), names, models@[i as int]@, Err(e)));
                return Err(e);
            }
            i = i + 1;
        }
        proof {
            if models@.len() > 0 && !self.writes() {
                assert(create_outcome(self.writes(), names, models@[0]@, Ok(())));
            }
        }
        Ok(())
    }

    /// Deletes the model under each key in order, stopping at the first
    /// that fails.
    pub fn delete_many(&self, names: &ModelTreeNames, keys: &Vec<Vec<u8>>) -> (r: NetabaseResult<()>)
        requires
            names.wf(),
        ensures
            r is Ok ==> forall|i: int| 0 <= i < keys@.len() ==> #[trigger] delete_outcome(self.writes(), names, keys@[i]@, Ok(())),
            r matches Err(e) ==> exists|i: int| 0 <= i < keys@.len() && #[trigger] delete_outcome(self.writes(), names, keys@[i]@, Err(e))
                && forall|j: int| 0 <= j < i ==> #[trigger] delete_outcome(self.writes(), names, keys@[j]@, Ok(())),
            keys@.len() > 0 && !self.writes() ==> r is Err,
    {
        let mut i: usize = 0;
        while i < keys.len()
            invariant
                0 <= i <= keys.len(),
                names.wf(),
                forall|j: int| 0 <= j < i ==> #[trigger] delete_outcome(self.writes(), names, keys@[j]@, Ok(())),
            decreases keys.len() - i,
        {
            let r = self.delete(names, &keys[i]);
            if let Err(e) = r {
                assert(delete_outcome(self.writes(), names, keys@[i as int]@, Err(e)));
                return Err(e);
            }
            i = i + 1;
        }
        proof {
            if keys@.len() > 0 && !self.writes() {
                assert(delete_outcome(self.writes(), names, keys@[0]@, Ok(())));
            }
        }
        Ok(())
    }

    /// Runs `f` on the write transaction; a read transaction gives `Other`.
    pub fn write<F, R>(&self, f: F) -> (r: NetabaseResult<R>)
        where
            F: FnOnce(&NetabaseRedbWriteTransaction) -> NetabaseResult<R>,
        requires
            self.writes() ==> f.requires((&self.write_transaction(),)),
        ensures
            !self.writes() ==> r == Err::<R, NetabaseError>(NetabaseError::Other),
            self.writes() ==> f.ensures((&self.write_transaction(),), r),
    {
        match &self.transaction {
            RedbTransactionType::Write(write_txn) => f(write_txn),
            RedbTransactionType::Read(_) => Err(NetabaseError::Other),
        }
    }

    /// Runs `f` on the read transaction; a write transaction gives `Other`.
    pub fn read_fn<F, R>(&self, f: F) -> (r: NetabaseResult<R>)
        where
            F: FnOnce(&NetabaseRedbReadTransaction) -> NetabaseResult<R>,
        requires
            !self.writes() ==> f.requires((&self.read_transaction(),)),
        ensures
            self.writes() ==> r == Err::<R, NetabaseError>(NetabaseError::Other),
            !self.writes() ==> f.ensures((&self.read_transaction(),), r),
    {
        match &self.transaction {
            RedbTransactionType::Read(read_txn) => f(read_txn),
            RedbTransactionType::Write(_) => Err(NetabaseError::Other),
        }
    }

    /// Any definition may be reached from this transaction.
    pub fn can_access_definition(&self) -> (r: bool)
        ensures
            r,
    {
        true
    }
}

} // verus!
