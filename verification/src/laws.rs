//! What the model operations promise together: what a read gives back after
//! each write, what a delete undoes, that tables opened for reading refuse
//! every write, and that the operations keep every stored entry's pairs
//! held in the index tables.
use crate::codec::{indexes_fit, lemma_decode_encode, IndexEntryView, ModelEntry, ModelEntryView, TreeCategory};
use crate::crud::{delete_entry_outcome, pairs_for, update_entry_outcome};
use crate::errors::NetabaseError;
use crate::relational::ModelTreeNames;
use crate::tables::{AccessMode, ModelOpenTables};
use vstd::prelude::*;

verus! {

/// Every length of the entry fits a `u64`, as it does for every entry held
/// in memory.
pub open spec fn entry_fits(e: ModelEntryView) -> bool {
    &&& e.data.len() <= u64::MAX
    &&& indexes_fit(e.indexes)
}

/// An entry held in memory fits.
pub proof fn lemma_entry_fits(e: &ModelEntry)
    ensures
        entry_fits(e@),
{
    let es = e@.indexes;
    assert forall|i: int| 0 <= i < es.len() implies (#[trigger] es[i]).key.len() <= u64::MAX && es[i].value.len() <= u64::MAX by {
        assert(es[i] == e.indexes@[i]@);
        assert(e.indexes@[i].key@.len() == e.indexes@[i].key.len());
        assert(e.indexes@[i].value@.len() == e.indexes@[i].value.len());
    }
    assert(es.len() == e.indexes.len());
    assert(e@.data.len() == e.data.len());
}

/// After a create, a read of the entry's primary key gives the entry back,
/// and a read of any other key gives what it gave before.
pub proof fn lemma_read_after_create(before: ModelOpenTables, after: ModelOpenTables, entry: ModelEntryView)
    requires
        entry_fits(entry),
        before.create_effect(&after, entry),
    ensures
        after.stored_entry(entry.primary_key) == Some(entry),
        forall|k: Seq<u8>| k != entry.primary_key ==> #[trigger] after.stored_entry(k) == before.stored_entry(k),
{
    lemma_decode_encode(entry.data, entry.indexes);
}

/// After an update, a read of the entry's primary key gives the new entry,
/// and a read of any other key gives what it gave before.
pub proof fn lemma_read_after_update(
    before: ModelOpenTables,
    after: ModelOpenTables,
    entry: ModelEntryView,
    prev: Seq<IndexEntryView>,
)
    requires
        entry_fits(entry),
        before.update_effect(&after, entry, prev),
    ensures
        after.stored_entry(entry.primary_key) == Some(entry),
        forall|k: Seq<u8>| k != entry.primary_key ==> #[trigger] after.stored_entry(k) == before.stored_entry(k),
{
    lemma_decode_encode(entry.data, entry.indexes);
}

/// After a delete, a read of the key gives nothing, and a read of any other
/// key gives what it gave before.
pub proof fn lemma_read_after_delete(before: ModelOpenTables, after: ModelOpenTables, key: Seq<u8>, prev: Seq<IndexEntryView>)
    requires
        before.delete_effect(&after, key, prev),
    ensures
        after.stored_entry(key) is None,
        forall|k: Seq<u8>| k != key ==> #[trigger] after.stored_entry(k) == before.stored_entry(k),
{
}

/// Deleting an entry just created gives back the tables as they were,
/// where none of the entry's pairs was held before.
pub proof fn lemma_delete_undoes_create(
    before: ModelOpenTables,
    created: ModelOpenTables,
    after: ModelOpenTables,
    entry: ModelEntryView,
)
    requires
        !before.main_contents().contains_key(entry.primary_key),
        before.create_effect(&created, entry),
        created.delete_effect(&after, entry.primary_key, entry.indexes),
        forall|c: TreeCategory, i: int|
            0 <= i < before.category(c).len() ==> #[trigger] pairs_for(entry.indexes, c, i).disjoint(before.index_contents(c, i)),
    ensures
        after.main_contents() == before.main_contents(),
        before.same_layout(&after),
        forall|c: TreeCategory, i: int| 0 <= i < before.category(c).len() ==> #[trigger] after.index_contents(c, i) == before.index_contents(c, i),
{
    assert(after.main_contents() =~= before.main_contents());
    assert forall|c: TreeCategory, i: int| 0 <= i < before.category(c).len() implies #[trigger] after.index_contents(c, i)
        == before.index_contents(c, i) by {
        assert(pairs_for(Seq::<IndexEntryView>::empty(), c, i) =~= Set::<(Seq<u8>, Seq<u8>)>::empty());
        assert(created.category(c).len() == before.category(c).len());
        assert(pairs_for(entry.indexes, c, i).disjoint(before.index_contents(c, i)));
        assert(after.index_contents(c, i) =~= before.index_contents(c, i));
    }
}

/// Tables opened for reading refuse every write: the main table is not
/// writable, so create, update and delete fail with `PermissionDenied`
/// and write nothing.
pub proof fn lemma_read_only_tables_refuse_writes(t: ModelOpenTables, names: &ModelTreeNames, es: Seq<IndexEntryView>)
    requires
        t.follows_uniform_plan(names, AccessMode::ReadOnly),
    ensures
        t.main_write_error() == Some(NetabaseError::PermissionDenied),
        t.write_error(es) == Some(NetabaseError::PermissionDenied),
{
}

/// Every pair of `e` goes to a table its list has, and that table holds it.
pub open spec fn holds_pairs(t: ModelOpenTables, e: ModelEntryView) -> bool {
    forall|j: int|
        0 <= j < e.indexes.len() ==> (#[trigger] e.indexes[j]).table < t.category(e.indexes[j].category).len()
            && t.index_contents(e.indexes[j].category, e.indexes[j].table as int).contains((e.indexes[j].key, e.indexes[j].value))
}

/// Every stored entry's pairs are held in their tables. The pairs of tables
/// opened in a read transaction are not followed (`held_pairs` gives the
/// empty set for them), so this speaks of tables opened in a write
/// transaction: for a read transaction's tables it is false wherever a
/// stored entry has index entries.
pub open spec fn indexes_consistent(t: ModelOpenTables) -> bool {
    forall|k: Seq<u8>| (#[trigger] t.stored_entry(k)) is Some ==> holds_pairs(t, t.stored_entry(k)->Some_0)
}

/// `a` and `b` have a pair in common, in the same table.
pub open spec fn shares_pair(a: ModelEntryView, b: ModelEntryView) -> bool {
    exists|j: int, m: int|
        0 <= j < a.indexes.len() && 0 <= m < b.indexes.len() && #[trigger] a.indexes[j] == #[trigger] b.indexes[m]
}

/// No entry stored under a key other than `key` shares a pair with `e`.
pub open spec fn pairs_private(t: ModelOpenTables, key: Seq<u8>, e: ModelEntryView) -> bool {
    forall|k: Seq<u8>| k != key && (#[trigger] t.stored_entry(k)) is Some ==> !shares_pair(t.stored_entry(k)->Some_0, e)
}

proof fn lemma_targets_valid(t: ModelOpenTables, es: Seq<IndexEntryView>, j: int)
    requires
        t.targets_error(es) is None,
        0 <= j < es.len(),
    ensures
        es[j].table < t.category(es[j].category).len(),
{
    t.lemma_first_target_error_all(es);
    assert(t.target_error(es[j]) is None);
}

/// A create keeps every stored entry's pairs held.
pub proof fn lemma_create_keeps_indexes_consistent(before: ModelOpenTables, after: ModelOpenTables, entry: ModelEntryView)
    requires
        entry_fits(entry),
        indexes_consistent(before),
        before.targets_error(entry.indexes) is None,
        before.create_effect(&after, entry),
    ensures
        indexes_consistent(after),
{
    lemma_read_after_create(before, after, entry);
    assert forall|k: Seq<u8>| (#[trigger] after.stored_entry(k)) is Some implies holds_pairs(after, after.stored_entry(k)->Some_0) by {
        let e = after.stored_entry(k)->Some_0;
        assert forall|j: int| 0 <= j < e.indexes.len() implies (#[trigger] e.indexes[j]).table < after.category(
            e.indexes[j].category,
        ).len() && after.index_contents(e.indexes[j].category, e.indexes[j].table as int).contains(
            (e.indexes[j].key, e.indexes[j].value),
        ) by {
            let c = e.indexes[j].category;
            let i = e.indexes[j].table as int;
            assert(after.category(c).len() == before.category(c).len());
            if k == entry.primary_key {
                lemma_targets_valid(before, entry.indexes, j);
                assert(pairs_for(entry.indexes, c, i).contains((e.indexes[j].key, e.indexes[j].value)));
            } else {
                assert(before.stored_entry(k) == Some(e));
                assert(holds_pairs(before, e));
            }
        }
    }
}

/// A delete keeps every remaining entry's pairs held, where no other entry
/// shares a pair with the deleted one.
pub proof fn lemma_delete_keeps_indexes_consistent(
    before: ModelOpenTables,
    after: ModelOpenTables,
    key: Seq<u8>,
    prev: ModelEntryView,
)
    requires
        indexes_consistent(before),
        before.stored_entry(key) == Some(prev),
        pairs_private(before, key, prev),
        before.delete_effect(&after, key, prev.indexes),
    ensures
        indexes_consistent(after),
{
    lemma_read_after_delete(before, after, key, prev.indexes);
    assert forall|k: Seq<u8>| (#[trigger] after.stored_entry(k)) is Some implies holds_pairs(after, after.stored_entry(k)->Some_0) by {
        let e = after.stored_entry(k)->Some_0;
        assert(k != key);
        assert(before.stored_entry(k) == Some(e));
        assert(holds_pairs(before, e));
        assert(!shares_pair(e, prev));
        assert forall|j: int| 0 <= j < e.indexes.len() implies (#[trigger] e.indexes[j]).table < after.category(
            e.indexes[j].category,
        ).len() && after.index_contents(e.indexes[j].category, e.indexes[j].table as int).contains(
            (e.indexes[j].key, e.indexes[j].value),
        ) by {
            let c = e.indexes[j].category;
            let i = e.indexes[j].table as int;
            assert(after.category(c).len() == before.category(c).len());
            if pairs_for(prev.indexes, c, i).contains((e.indexes[j].key, e.indexes[j].value)) {
                let m = choose|m: int|
                    0 <= m < prev.indexes.len() && #[trigger] prev.indexes[m].category == c && prev.indexes[m].table == i
                        && (e.indexes[j].key, e.indexes[j].value) == (prev.indexes[m].key, prev.indexes[m].value);
                assert(e.indexes[j] == prev.indexes[m]);
            }
        }
    }
}

/// An update keeps every stored entry's pairs held, where no other entry
/// shares a pair with the replaced one.
pub proof fn lemma_update_keeps_indexes_consistent(
    before: ModelOpenTables,
    after: ModelOpenTables,
    entry: ModelEntryView,
    prev: ModelEntryView,
)
    requires
        entry_fits(entry),
        indexes_consistent(before),
        before.targets_error(entry.indexes) is None,
        before.stored_entry(entry.primary_key) == Some(prev),
        pairs_private(before, entry.primary_key, prev),
        before.update_effect(&after, entry, prev.indexes),
    ensures
        indexes_consistent(after),
{
    lemma_read_after_update(before, after, entry, prev.indexes);
    assert forall|k: Seq<u8>| (#[trigger] after.stored_entry(k)) is Some implies holds_pairs(after, after.stored_entry(k)->Some_0) by {
        let e = after.stored_entry(k)->Some_0;
        assert forall|j: int| 0 <= j < e.indexes.len() implies (#[trigger] e.indexes[j]).table < after.category(
            e.indexes[j].category,
        ).len() && after.index_contents(e.indexes[j].category, e.indexes[j].table as int).contains(
            (e.indexes[j].key, e.indexes[j].value),
        ) by {
            let c = e.indexes[j].category;
            let i = e.indexes[j].table as int;
            assert(after.category(c).len() == before.category(c).len());
            if k == entry.primary_key {
                lemma_targets_valid(before, entry.indexes, j);
                assert(pairs_for(entry.indexes, c, i).contains((e.indexes[j].key, e.indexes[j].value)));
            } else {
                assert(before.stored_entry(k) == Some(e));
                assert(holds_pairs(before, e));
                assert(!shares_pair(e, prev));
                if pairs_for(prev.indexes, c, i).contains((e.indexes[j].key, e.indexes[j].value)) {
                    let m = choose|m: int|
                        0 <= m < prev.indexes.len() && #[trigger] prev.indexes[m].category == c && prev.indexes[m].table == i
                            && (e.indexes[j].key, e.indexes[j].value) == (prev.indexes[m].key, prev.indexes[m].value);
                    assert(e.indexes[j] == prev.indexes[m]);
                }
            }
        }
    }
}

/// Updating with the same entry twice is updating once: where the first
/// update succeeded, a second one with the same entry is refused by nothing
/// but redb, and where it succeeds it leaves every table as the first left
/// it.
pub proof fn lemma_update_twice(
    first: ModelOpenTables,
    once: ModelOpenTables,
    twice: ModelOpenTables,
    entry: ModelEntryView,
    r: Result<(), NetabaseError>,
)
    requires
        entry_fits(entry),
        update_entry_outcome(first, once, entry, Ok(())),
        update_entry_outcome(once, twice, entry, r),
    ensures
        r matches Err(e) ==> e is RedbStorageError,
        r is Ok ==> {
            &&& twice.main_contents() == once.main_contents()
            &&& once.same_layout(&twice)
            &&& forall|c: TreeCategory, i: int|
                0 <= i < once.category(c).len() ==> #[trigger] twice.index_contents(c, i) == once.index_contents(c, i)
        },
{
    let prev = first.stored_entry(entry.primary_key)->Some_0;
    lemma_read_after_update(first, once, entry, prev.indexes);
    first.lemma_targets_error_same(&once, entry.indexes, 0);
    assert(once.write_error(entry.indexes) is None);
    if r is Ok {
        assert(twice.main_contents() =~= once.main_contents());
        assert forall|c: TreeCategory, i: int| 0 <= i < once.category(c).len() implies #[trigger] twice.index_contents(c, i)
            == once.index_contents(c, i) by {
            assert(first.category(c).len() == once.category(c).len());
            assert(once.index_contents(c, i) == first.index_contents(c, i).difference(pairs_for(prev.indexes, c, i)).union(
                pairs_for(entry.indexes, c, i)));
            assert(twice.index_contents(c, i) =~= once.index_contents(c, i));
        }
    }
}

/// Deleting a key twice is deleting it once: where the first delete
/// succeeded, a second one of the same key leaves every table as the first
/// left it, and only redb can make it fail.
pub proof fn lemma_delete_twice(
    first: ModelOpenTables,
    once: ModelOpenTables,
    twice: ModelOpenTables,
    key: Seq<u8>,
    r: Result<(), NetabaseError>,
)
    requires
        delete_entry_outcome(first, once, key, Ok(())),
        delete_entry_outcome(once, twice, key, r),
    ensures
        twice == once,
        r matches Err(e) ==> e is RedbStorageError,
{
    assert(!once.main_contents().contains_key(key));
}

} // verus!
