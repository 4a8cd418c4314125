//! The boundary with redb: the redb types that the library holds, the names
//! under which the contracts speak of what a table holds, and one small
//! wrapper per redb call. Every contract in this file is trusted; each says
//! only what redb's source for the call shows.
use redb::ReadableDatabase;
use redb::ReadableTable;
use vstd::prelude::*;

verus! {

/// `redb::Database`, carried through opaquely.
#[verifier::external_type_specification]
#[verifier::external_body]
pub struct ExDatabase(redb::Database);

/// `redb::ReadTransaction`, carried through opaquely.
#[verifier::external_type_specification]
#[verifier::external_body]
pub struct ExReadTransaction(redb::ReadTransaction);

/// `redb::WriteTransaction`, carried through opaquely.
#[verifier::external_type_specification]
#[verifier::external_body]
pub struct ExWriteTransaction(redb::WriteTransaction);

/// `redb::TransactionError`, the error of `begin_read` and `begin_write`.
#[verifier::external_type_specification]
#[verifier::external_body]
pub struct ExTransactionError(redb::TransactionError);

/// `redb::TableError`, the error of opening a table.
#[verifier::external_type_specification]
#[verifier::external_body]
pub struct ExTableError(redb::TableError);

/// `redb::StorageError`, the error of reading or writing a table.
#[verifier::external_type_specification]
#[verifier::external_body]
pub struct ExStorageError(redb::StorageError);

/// `redb::CommitError`, the error of committing a write transaction.
#[verifier::external_type_specification]
#[verifier::external_body]
pub struct ExCommitError(redb::CommitError);

/// A `redb::Table` of byte-string keys and byte-string values, opened in a
/// write transaction. Its contents are `main_table_contents`.
#[verifier::external_body]
pub struct MainTable<'txn> {
    inner: redb::Table<'txn, &'static [u8], &'static [u8]>,
}

/// A `redb::ReadOnlyTable` of byte-string keys and values, opened in a read
/// transaction. Its contents are `read_only_main_table_contents`.
#[verifier::external_body]
pub struct ReadOnlyMainTable {
    inner: redb::ReadOnlyTable<&'static [u8], &'static [u8]>,
}

/// A `redb::MultimapTable` of byte-string keys and values, opened in a
/// write transaction. Its contents, a set of key-value pairs, are
/// `index_table_contents`.
#[verifier::external_body]
pub struct IndexTable<'txn> {
    inner: redb::MultimapTable<'txn, &'static [u8], &'static [u8]>,
}

/// A `redb::ReadOnlyMultimapTable` of byte-string keys and values, opened in
/// a read transaction, together with the name it was opened under (redb's
/// read-only multimap table does not keep its name).
#[verifier::external_body]
pub struct ReadOnlyIndexTable {
    inner: redb::ReadOnlyMultimapTable<&'static [u8], &'static [u8]>,
    name: String,
}

/// What a writable table maps each key to.
pub uninterp spec fn main_table_contents(t: MainTable<'_>) -> Map<Seq<u8>, Seq<u8>>;

/// The name a writable table was opened under.
pub uninterp spec fn main_table_name(t: MainTable<'_>) -> Seq<char>;

/// What a read-only table maps each key to.
pub uninterp spec fn read_only_main_table_contents(t: ReadOnlyMainTable) -> Map<Seq<u8>, Seq<u8>>;

/// The name a read-only table was opened under.
pub uninterp spec fn read_only_main_table_name(t: ReadOnlyMainTable) -> Seq<char>;

/// The key-value pairs that a writable multimap table holds.
pub uninterp spec fn index_table_contents(t: IndexTable<'_>) -> Set<(Seq<u8>, Seq<u8>)>;

/// The name a writable multimap table was opened under.
pub uninterp spec fn index_table_name(t: IndexTable<'_>) -> Seq<char>;

/// The name a read-only multimap table was opened under.
pub uninterp spec fn read_only_index_table_name(t: ReadOnlyIndexTable) -> Seq<char>;

/// Strict lexicographic order on byte strings: the order of `<[u8] as Ord>`,
/// which redb's `Key` impl for `&[u8]` uses to order a table.
pub open spec fn bytes_lt(a: Seq<u8>, b: Seq<u8>) -> bool
    decreases a.len(),
{
    if a.len() == 0 {
        b.len() > 0
    } else if b.len() == 0 {
        false
    } else if a[0] < b[0] {
        true
    } else if a[0] > b[0] {
        false
    } else {
        bytes_lt(a.drop_first(), b.drop_first())
    }
}

/// `entries` lists exactly the pairs of `m`, each key once, in ascending key
/// order.
pub open spec fn lists_map_in_order(entries: Seq<(Seq<u8>, Seq<u8>)>, m: Map<Seq<u8>, Seq<u8>>) -> bool {
    &&& forall|i: int| 0 <= i < entries.len() ==> #[trigger] m.contains_key(entries[i].0) && m[entries[i].0] == entries[i].1
    &&& forall|k: Seq<u8>| #[trigger] m.contains_key(k) ==> exists|i: int| 0 <= i < entries.len() && entries[i].0 == k
    &&& forall|i: int, j: int| 0 <= i < j < entries.len() ==> bytes_lt(#[trigger] entries[i].0, #[trigger] entries[j].0)
}

/// `Database::begin_write`. Its outcome depends on the database's state and
/// on the storage, so nothing is claimed of it; while another write
/// transaction of the database is open it waits for that one to end.
#[verifier::external_body]
pub(crate) fn begin_write(db: &redb::Database) -> Result<redb::WriteTransaction, redb::TransactionError> {
    db.begin_write()
}

/// `ReadableDatabase::begin_read` for `Database`. Its outcome depends on the
/// database's state, so nothing is claimed of it.
#[verifier::external_body]
pub(crate) fn begin_read(db: &redb::Database) -> Result<redb::ReadTransaction, redb::TransactionError> {
    db.begin_read()
}

/// `WriteTransaction::commit`. Whether it succeeds depends on the storage, so
/// nothing is claimed of it.
#[verifier::external_body]
pub(crate) fn commit_write(txn: redb::WriteTransaction) -> Result<(), redb::CommitError> {
    txn.commit()
}

/// `WriteTransaction::open_table`: the table it gives back was opened under
/// `name`. `TableDefinition::new` panics on an empty name, hence the
/// requirement. Whether it succeeds (the name may be open already, or be a
/// multimap table) and what the table holds depend on the transaction's
/// state, which is not stated.
#[verifier::external_body]
pub(crate) fn open_main_table<'txn>(txn: &'txn redb::WriteTransaction, name: &str) -> (r: Result<MainTable<'txn>, redb::TableError>)
    requires
        name@.len() > 0,
    ensures
        r matches Ok(t) ==> main_table_name(t) == name@,
{
    match txn.open_table(redb::TableDefinition::<&[u8], &[u8]>::new(name)) {
        Ok(inner) => Ok(MainTable { inner }),
        Err(e) => Err(e),
    }
}

/// `WriteTransaction::open_multimap_table`: the table it gives back was
/// opened under `name`; as for `open_main_table`, success and contents
/// depend on the transaction's state.
#[verifier::external_body]
pub(crate) fn open_index_table<'txn>(txn: &'txn redb::WriteTransaction, name: &str) -> (r: Result<IndexTable<'txn>, redb::TableError>)
    requires
        name@.len() > 0,
    ensures
        r matches Ok(t) ==> index_table_name(t) == name@,
{
    match txn.open_multimap_table(redb::MultimapTableDefinition::<&[u8], &[u8]>::new(name)) {
        Ok(inner) => Ok(IndexTable { inner }),
        Err(e) => Err(e),
    }
}

/// `ReadTransaction::open_table`: the table it gives back was opened under
/// `name`; success (the table must exist) and contents depend on the
/// snapshot, which is not stated.
#[verifier::external_body]
pub(crate) fn open_read_only_main_table(txn: &redb::ReadTransaction, name: &str) -> (r: Result<ReadOnlyMainTable, redb::TableError>)
    requires
        name@.len() > 0,
    ensures
        r matches Ok(t) ==> read_only_main_table_name(t) == name@,
{
    match txn.open_table(redb::TableDefinition::<&[u8], &[u8]>::new(name)) {
        Ok(inner) => Ok(ReadOnlyMainTable { inner }),
        Err(e) => Err(e),
    }
}

/// `ReadTransaction::open_multimap_table`, keeping `name` beside the table:
/// the table was opened under `name`; success and contents depend on the
/// snapshot.
#[verifier::external_body]
pub(crate) fn open_read_only_index_table(txn: &redb::ReadTransaction, name: &str) -> (r: Result<ReadOnlyIndexTable, redb::TableError>)
    requires
        name@.len() > 0,
    ensures
        r matches Ok(t) ==> read_only_index_table_name(t) == name@,
{
    match txn.open_multimap_table(redb::MultimapTableDefinition::<&[u8], &[u8]>::new(name)) {
        Ok(inner) => Ok(ReadOnlyIndexTable { inner, name: name.to_string() }),
        Err(e) => Err(e),
    }
}

/// `Table::insert`: on success the key maps to the value and the old value,
/// if any, comes back. On an error (an oversized pair, the storage) nothing
/// is claimed of the contents.
#[verifier::external_body]
pub(crate) fn main_insert(t: &mut MainTable<'_>, key: &[u8], value: &[u8]) -> (r: Result<Option<Vec<u8>>, redb::StorageError>)
    ensures
        main_table_name(*final(t)) == main_table_name(*old(t)),
        r is Ok ==> main_table_contents(*final(t)) == main_table_contents(*old(t)).insert(key@, value@),
        r matches Ok(Some(v)) ==> main_table_contents(*old(t)).contains_key(key@) && v@ == main_table_contents(*old(t))[key@],
        r matches Ok(None) ==> !main_table_contents(*old(t)).contains_key(key@),
{
    match t.inner.insert(key, value) {
        Ok(Some(g)) => Ok(Some(g.value().to_vec())),
        Ok(None) => Ok(None),
        Err(e) => Err(e),
    }
}

/// `Table::remove`: on success the key is gone and its old value, if any,
/// comes back. On an error nothing is claimed of the contents.
#[verifier::external_body]
pub(crate) fn main_remove(t: &mut MainTable<'_>, key: &[u8]) -> (r: Result<Option<Vec<u8>>, redb::StorageError>)
    ensures
        main_table_name(*final(t)) == main_table_name(*old(t)),
        r is Ok ==> main_table_contents(*final(t)) == main_table_contents(*old(t)).remove(key@),
        r matches Ok(Some(v)) ==> main_table_contents(*old(t)).contains_key(key@) && v@ == main_table_contents(*old(t))[key@],
        r matches Ok(None) ==> !main_table_contents(*old(t)).contains_key(key@),
{
    match t.inner.remove(key) {
        Ok(Some(g)) => Ok(Some(g.value().to_vec())),
        Ok(None) => Ok(None),
        Err(e) => Err(e),
    }
}

/// `ReadableTable::get` on a writable table: on success, the value the key
/// maps to, if any.
#[verifier::external_body]
pub(crate) fn main_get(t: &MainTable<'_>, key: &[u8]) -> (r: Result<Option<Vec<u8>>, redb::StorageError>)
    ensures
        r matches Ok(Some(v)) ==> main_table_contents(*t).contains_key(key@) && v@ == main_table_contents(*t)[key@],
        r matches Ok(None) ==> !main_table_contents(*t).contains_key(key@),
{
    match t.inner.get(key) {
        Ok(Some(g)) => Ok(Some(g.value().to_vec())),
        Ok(None) => Ok(None),
        Err(e) => Err(e),
    }
}

/// `ReadOnlyTable::get`: on success, the value the key maps to, if any.
#[verifier::external_body]
pub(crate) fn read_only_main_get(t: &ReadOnlyMainTable, key: &[u8]) -> (r: Result<Option<Vec<u8>>, redb::StorageError>)
    ensures
        r matches Ok(Some(v)) ==> read_only_main_table_contents(*t).contains_key(key@) && v@ == read_only_main_table_contents(*t)[key@],
        r matches Ok(None) ==> !read_only_main_table_contents(*t).contains_key(key@),
{
    match t.inner.get(key) {
        Ok(Some(g)) => Ok(Some(g.value().to_vec())),
        Ok(None) => Ok(None),
        Err(e) => Err(e),
    }
}

/// `ReadableTable::iter` on a writable table, each pair copied out: on
/// success, every pair of the table once, in ascending key order.
#[verifier::external_body]
pub(crate) fn main_entries(t: &MainTable<'_>) -> (r: Result<Vec<(Vec<u8>, Vec<u8>)>, redb::StorageError>)
    ensures
        r matches Ok(v) ==> lists_map_in_order(v@.map_values(|p: (Vec<u8>, Vec<u8>)| (p.0@, p.1@)), main_table_contents(*t)),
{
    let mut out = Vec::new();
    for item in t.inner.iter()? {
        let (k, v) = item?;
        out.push((k.value().to_vec(), v.value().to_vec()));
    }
    Ok(out)
}

/// `ReadableTable::iter` on a read-only table, each pair copied out: on
/// success, every pair of the table once, in ascending key order.
#[verifier::external_body]
pub(crate) fn read_only_main_entries(t: &ReadOnlyMainTable) -> (r: Result<Vec<(Vec<u8>, Vec<u8>)>, redb::StorageError>)
    ensures
        r matches Ok(v) ==> lists_map_in_order(v@.map_values(|p: (Vec<u8>, Vec<u8>)| (p.0@, p.1@)), read_only_main_table_contents(*t)),
{
    let mut out = Vec::new();
    for item in t.inner.iter()? {
        let (k, v) = item?;
        out.push((k.value().to_vec(), v.value().to_vec()));
    }
    Ok(out)
}

/// `MultimapTable::insert`: on success the pair is held, and the result says
/// whether it was held before.
#[verifier::external_body]
pub(crate) fn index_insert(t: &mut IndexTable<'_>, key: &[u8], value: &[u8]) -> (r: Result<bool, redb::StorageError>)
    ensures
        index_table_name(*final(t)) == index_table_name(*old(t)),
        r is Ok ==> index_table_contents(*final(t)) == index_table_contents(*old(t)).insert((key@, value@)),
        r matches Ok(b) ==> b == index_table_contents(*old(t)).contains((key@, value@)),
{
    t.inner.insert(key, value)
}

/// `MultimapTable::remove`: on success the pair is no longer held, and the
/// result says whether it was held before.
#[verifier::external_body]
pub(crate) fn index_remove(t: &mut IndexTable<'_>, key: &[u8], value: &[u8]) -> (r: Result<bool, redb::StorageError>)
    ensures
        index_table_name(*final(t)) == index_table_name(*old(t)),
        r is Ok ==> index_table_contents(*final(t)) == index_table_contents(*old(t)).remove((key@, value@)),
        r matches Ok(b) ==> b == index_table_contents(*old(t)).contains((key@, value@)),
{
    t.inner.remove(key, value)
}

/// The `Display` text of a `redb::TransactionError`; nothing is claimed of it.
#[verifier::external_body]
pub(crate) fn describe_transaction_error(e: &redb::TransactionError) -> String {
    format!("{}", e)
}

/// The `Display` text of a `redb::TableError`; nothing is claimed of it.
#[verifier::external_body]
pub(crate) fn describe_table_error(e: &redb::TableError) -> String {
    format!("{}", e)
}

/// The `Display` text of a `redb::StorageError`; nothing is claimed of it.
#[verifier::external_body]
pub(crate) fn describe_storage_error(e: &redb::StorageError) -> String {
    format!("{}", e)
}

/// The `Display` text of a `redb::CommitError`; nothing is claimed of it.
#[verifier::external_body]
pub(crate) fn describe_commit_error(e: &redb::CommitError) -> String {
    format!("{}", e)
}

} // verus!
