//! The tables of one model, opened in a transaction, each with the access it
//! was opened for; and the plan that says which access each table gets.
use crate::errors::NetabaseError;
use crate::relational::{
    relational_flag, relational_permission_flag, table_names, DiscriminantTableName,
    ModelRelationPermissions, ModelTreeNames, PermissionFlag,
};
use crate::storage::{
    describe_table_error, index_table_name, main_table_name, open_index_table, open_main_table,
    open_read_only_index_table, open_read_only_main_table, read_only_index_table_name,
    read_only_main_table_name, IndexTable, MainTable, ReadOnlyIndexTable, ReadOnlyMainTable,
};
use vstd::prelude::*;

verus! {

/// The access a table was opened for: read-only in a read transaction;
/// read-write, or opened writable but to be read only, in a write
/// transaction.
#[derive(Clone, Copy, Debug, PartialEq, Eq, Structural)]
pub enum AccessMode {
    ReadOnly,
    ReadWrite,
    ReadOnlyWrite,
}

/// A table opened in a read transaction.
pub enum TableType {
    Table(ReadOnlyMainTable),
    MultimapTable(ReadOnlyIndexTable),
}

/// A table opened in a write transaction.
pub enum ReadWriteTableType<'txn> {
    Table(MainTable<'txn>),
    MultimapTable(IndexTable<'txn>),
}

/// An open table together with the access it was opened for.
pub enum TablePermission<'txn> {
    ReadOnly(TableType),
    ReadWrite(ReadWriteTableType<'txn>),
    ReadOnlyWrite(ReadWriteTableType<'txn>),
}

impl<'txn> TablePermission<'txn> {
    /// The access the table was opened for.
    pub open spec fn access(&self) -> AccessMode {
        match self {
            TablePermission::ReadOnly(_) => AccessMode::ReadOnly,
            TablePermission::ReadWrite(_) => AccessMode::ReadWrite,
            TablePermission::ReadOnlyWrite(_) => AccessMode::ReadOnlyWrite,
        }
    }

    /// Whether the table is a multimap table.
    pub open spec fn is_multimap(&self) -> bool {
        match self {
            TablePermission::ReadOnly(TableType::MultimapTable(_)) => true,
            TablePermission::ReadWrite(ReadWriteTableType::MultimapTable(_)) => true,
            TablePermission::ReadOnlyWrite(ReadWriteTableType::MultimapTable(_)) => true,
            _ => false,
        }
    }

    /// The name the table was opened under.
    pub open spec fn opened_name(&self) -> Seq<char> {
        match self {
            TablePermission::ReadOnly(TableType::Table(t)) => read_only_main_table_name(*t),
            TablePermission::ReadOnly(TableType::MultimapTable(t)) => read_only_index_table_name(*t),
            TablePermission::ReadWrite(ReadWriteTableType::Table(t)) => main_table_name(*t),
            TablePermission::ReadWrite(ReadWriteTableType::MultimapTable(t)) => index_table_name(*t),
            TablePermission::ReadOnlyWrite(ReadWriteTableType::Table(t)) => main_table_name(*t),
            TablePermission::ReadOnlyWrite(ReadWriteTableType::MultimapTable(t)) => index_table_name(*t),
        }
    }
}

/// The open tables of one model: the main table and, beside each multimap
/// table, the name it was asked for under.
pub struct ModelOpenTables<'txn> {
    pub main: TablePermission<'txn>,
    pub secondary: Vec<(TablePermission<'txn>, String)>,
    pub blob: Vec<(TablePermission<'txn>, String)>,
    pub relational: Vec<(TablePermission<'txn>, String)>,
    pub subscription: Vec<(TablePermission<'txn>, String)>,
}

/// Each name and access of a list of open tables, in order.
pub open spec fn opened_plan(v: Seq<(TablePermission, String)>) -> Seq<(Seq<char>, AccessMode)> {
    v.map_values(|e: (TablePermission, String)| (e.1@, e.0.access()))
}

/// Every table of the list is a multimap table opened under the name beside
/// it.
pub open spec fn multimaps_named(v: Seq<(TablePermission, String)>) -> bool {
    forall|i: int| 0 <= i < v.len() ==> (#[trigger] v[i]).0.is_multimap() && v[i].0.opened_name() == v[i].1@
}

/// Every name of the list, each with the same access.
pub open spec fn uniform_plan(names: Seq<Seq<char>>, mode: AccessMode) -> Seq<(Seq<char>, AccessMode)> {
    names.map_values(|n: Seq<char>| (n, mode))
}

/// The access of a relational table in a write transaction: read-write
/// where its flag allows writing, otherwise opened writable but read-only.
pub open spec fn write_relational_access(perms: Option<&ModelRelationPermissions>, name: Seq<char>) -> AccessMode {
    match relational_flag(perms, name) {
        PermissionFlag::ReadWrite => AccessMode::ReadWrite,
        PermissionFlag::ReadOnly => AccessMode::ReadOnlyWrite,
    }
}

/// The relational names of a write transaction, each with its access.
pub open spec fn relational_write_plan(names: Seq<Seq<char>>, perms: Option<&ModelRelationPermissions>) -> Seq<(Seq<char>, AccessMode)> {
    names.map_values(|n: Seq<char>| (n, write_relational_access(perms, n)))
}

impl<'txn> ModelOpenTables<'txn> {
    /// The main table is a plain table and every other table a multimap
    /// table opened under the name beside it.
    pub open spec fn wf(&self) -> bool {
        &&& !self.main.is_multimap()
        &&& multimaps_named(self.secondary@)
        &&& multimaps_named(self.blob@)
        &&& multimaps_named(self.relational@)
        &&& multimaps_named(self.subscription@)
    }

    /// The tables are those of `names`, in order, each with the access that a
    /// read transaction (`write` false) or a write transaction under `perms`
    /// gives it: read-only in a read transaction; in a write transaction
    /// read-write, but for the relational tables, which follow `perms`.
    pub open spec fn follows_plan(&self, names: &ModelTreeNames, write: bool, perms: Option<&ModelRelationPermissions>) -> bool {
        let mode = if write { AccessMode::ReadWrite } else { AccessMode::ReadOnly };
        &&& self.wf()
        &&& self.main.access() == mode
        &&& self.main.opened_name() == names.main.table_name@
        &&& opened_plan(self.secondary@) == uniform_plan(table_names(names.secondary@), mode)
        &&& opened_plan(self.blob@) == uniform_plan(table_names(names.blob@), mode)
        &&& opened_plan(self.relational@) == (if write {
            relational_write_plan(table_names(names.relational@), perms)
        } else {
            uniform_plan(table_names(names.relational@), mode)
        })
        &&& opened_plan(self.subscription@) == uniform_plan(names.subscription_names(), mode)
    }

    /// The tables are those of `names`, in order, all with access `mode`.
    pub open spec fn follows_uniform_plan(&self, names: &ModelTreeNames, mode: AccessMode) -> bool {
        &&& self.wf()
        &&& self.main.access() == mode
        &&& self.main.opened_name() == names.main.table_name@
        &&& opened_plan(self.secondary@) == uniform_plan(table_names(names.secondary@), mode)
        &&& opened_plan(self.blob@) == uniform_plan(table_names(names.blob@), mode)
        &&& opened_plan(self.relational@) == uniform_plan(table_names(names.relational@), mode)
        &&& opened_plan(self.subscription@) == uniform_plan(names.subscription_names(), mode)
    }
}

/// The open tables of a model from the opened main table and the outcome
/// of opening each list: the first list that failed, in the order
/// secondary, blob, relational, subscription, gives its error.
pub fn assemble_model_tables<'txn>(
    main: TablePermission<'txn>,
    secondary: Result<Vec<(TablePermission<'txn>, String)>, NetabaseError>,
    blob: Result<Vec<(TablePermission<'txn>, String)>, NetabaseError>,
    relational: Result<Vec<(TablePermission<'txn>, String)>, NetabaseError>,
    subscription: Result<Vec<(TablePermission<'txn>, String)>, NetabaseError>,
) -> (r: Result<ModelOpenTables<'txn>, NetabaseError>)
    ensures
        secondary matches Err(e) ==> r == Err::<ModelOpenTables, NetabaseError>(e),
        secondary is Ok ==> (blob matches Err(e) ==> r == Err::<ModelOpenTables, NetabaseError>(e)),
        secondary is Ok && blob is Ok ==> (relational matches Err(e) ==> r == Err::<ModelOpenTables, NetabaseError>(e)),
        secondary is Ok && blob is Ok && relational is Ok ==> (subscription matches Err(e) ==> r == Err::<
            ModelOpenTables,
            NetabaseError,
        >(e)),
        r is Ok <==> (secondary is Ok && blob is Ok && relational is Ok && subscription is Ok),
        r matches Ok(t) ==> t.main == main && t.secondary == secondary->Ok_0 && t.blob == blob->Ok_0 && t.relational
            == relational->Ok_0 && t.subscription == subscription->Ok_0,
{
    Ok(ModelOpenTables { main, secondary: secondary?, blob: blob?, relational: relational?, subscription: subscription? })
}

/// Opens the main table of a write transaction, read-write.
pub fn open_write_main<'txn>(txn: &'txn redb::WriteTransaction, name: &String) -> (r: Result<TablePermission<'txn>, NetabaseError>)
    requires
        name@.len() > 0,
    ensures
        r matches Ok(p) ==> !p.is_multimap() && p.access() == AccessMode::ReadWrite && p.opened_name() == name@,
        r matches Err(e) ==> e is RedbTableError,
{
    match open_main_table(txn, name.as_str()) {
        Ok(t) => Ok(TablePermission::ReadWrite(ReadWriteTableType::Table(t))),
        Err(e) => Err(NetabaseError::RedbTableError(describe_table_error(&e))),
    }
}

/// Opens the main table of a read transaction, read-only.
pub fn open_read_main<'txn>(txn: &redb::ReadTransaction, name: &String) -> (r: Result<TablePermission<'txn>, NetabaseError>)
    requires
        name@.len() > 0,
    ensures
        r matches Ok(p) ==> !p.is_multimap() && p.access() == AccessMode::ReadOnly && p.opened_name() == name@,
        r matches Err(e) ==> e is RedbTableError,
{
    match open_read_only_main_table(txn, name.as_str()) {
        Ok(t) => Ok(TablePermission::ReadOnly(TableType::Table(t))),
        Err(e) => Err(NetabaseError::RedbTableError(describe_table_error(&e))),
    }
}

/// Opens, in a write transaction, the multimap tables of `names` in order,
/// stopping at the first that fails: read-write, or, for relational tables
/// (`relational`), with the access their flag under `perms` gives.
pub fn open_write_category<'txn>(
    txn: &'txn redb::WriteTransaction,
    names: &Vec<DiscriminantTableName>,
    relational: bool,
    perms: Option<&ModelRelationPermissions>,
) -> (r: Result<Vec<(TablePermission<'txn>, String)>, NetabaseError>)
    requires
        forall|i: int| 0 <= i < names@.len() ==> (#[trigger] names@[i]).table_name@.len() > 0,
    ensures
        r matches Ok(v) ==> multimaps_named(v@) && opened_plan(v@) == (if relational {
            relational_write_plan(table_names(names@), perms)
        } else {
            uniform_plan(table_names(names@), AccessMode::ReadWrite)
        }),
        r matches Err(e) ==> e is RedbTableError,
{
    let ghost plan = if relational {
        relational_write_plan(table_names(names@), perms)
    } else {
        uniform_plan(table_names(names@), AccessMode::ReadWrite)
    };
    let mut out: Vec<(TablePermission<'txn>, String)> = Vec::new();
    let mut i: usize = 0;
    while i < names.len()
        invariant
            0 <= i <= names.len(),
            forall|j: int| 0 <= j < names@.len() ==> (#[trigger] names@[j]).table_name@.len() > 0,
            plan == (if relational {
                relational_write_plan(table_names(names@), perms)
            } else {
                uniform_plan(table_names(names@), AccessMode::ReadWrite)
            }),
            out@.len() == i,
            multimaps_named(out@),
            opened_plan(out@) == plan.subrange(0, i as int),
        decreases names.len() - i,
    {
        let name = &names[i].table_name;
        let t = match open_index_table(txn, name.as_str()) {
            Ok(t) => t,
            Err(e) => {
                return Err(NetabaseError::RedbTableError(describe_table_error(&e)));
            },
        };
        let access = if relational {
            relational_permission_flag(perms, name)
        } else {
            PermissionFlag::ReadWrite
        };
        let p = match access {
            PermissionFlag::ReadWrite => TablePermission::ReadWrite(ReadWriteTableType::MultimapTable(t)),
            PermissionFlag::ReadOnly => TablePermission::ReadOnlyWrite(ReadWriteTableType::MultimapTable(t)),
        };
        let ghost before = out@;
        out.push((p, name.clone()));
        proof {
            assert(table_names(names@)[i as int] == name@);
            assert(opened_plan(out@) =~= opened_plan(before).push(plan[i as int]));
            assert(plan.subrange(0, i + 1) =~= plan.subrange(0, i as int).push(plan[i as int]));
        }
        i = i + 1;
    }
    proof {
        assert(plan.subrange(0, i as int) =~= plan);
    }
    Ok(out)
}

/// Opens, in a read transaction, the multimap tables of `names` in order,
/// read-only, stopping at the first that fails.
pub fn open_read_category<'txn>(txn: &redb::ReadTransaction, names: &Vec<DiscriminantTableName>) -> (r: Result<Vec<(TablePermission<'txn>, String)>, NetabaseError>)
    requires
        forall|i: int| 0 <= i < names@.len() ==> (#[trigger] names@[i]).table_name@.len() > 0,
    ensures
        r matches Ok(v) ==> multimaps_named(v@) && opened_plan(v@) == uniform_plan(table_names(names@), AccessMode::ReadOnly),
        r matches Err(e) ==> e is RedbTableError,
{
    let ghost plan = uniform_plan(table_names(names@), AccessMode::ReadOnly);
    let mut out: Vec<(TablePermission<'txn>, String)> = Vec::new();
    let mut i: usize = 0;
    while i < names.len()
        invariant
            0 <= i <= names.len(),
            forall|j: int| 0 <= j < names@.len() ==> (#[trigger] names@[j]).table_name@.len() > 0,
            plan == uniform_plan(table_names(names@), AccessMode::ReadOnly),
            out@.len() == i,
            multimaps_named(out@),
            opened_plan(out@) == plan.subrange(0, i as int),
        decreases names.len() - i,
    {
        let name = &names[i].table_name;
        let t = match open_read_only_index_table(txn, name.as_str()) {
            Ok(t) => t,
            Err(e) => {
                return Err(NetabaseError::RedbTableError(describe_table_error(&e)));
            },
        };
        let ghost before = out@;
        out.push((TablePermission::ReadOnly(TableType::MultimapTable(t)), name.clone()));
        proof {
            assert(table_names(names@)[i as int] == name@);
            assert(opened_plan(out@) =~= opened_plan(before).push(plan[i as int]));
            assert(plan.subrange(0, i + 1) =~= plan.subrange(0, i as int).push(plan[i as int]));
        }
        i = i + 1;
    }
    proof {
        assert(plan.subrange(0, i as int) =~= plan);
    }
    Ok(out)
}

} // verus!
