//! The model operations on a model's open tables: the main table maps each
//! primary key to the stored form of its entry, and each index entry of a
//! stored entry is a pair held in one multimap table.
use crate::codec::{
    decode_entry, decode_model, encode_entry, encode_model, entry_views, index_views, IndexEntry, IndexEntryView,
    ModelEntry, ModelEntryView, TreeCategory,
};
use crate::errors::{NetabaseError, NetabaseResult};
use crate::relational::{table_names, ModelTreeNames};
use crate::storage::{
    bytes_lt, describe_storage_error, index_insert, index_remove, index_table_contents, lists_map_in_order,
    main_entries, main_get, main_insert, main_remove, main_table_contents, read_only_main_entries,
    read_only_main_get, read_only_main_table_contents,
};
use crate::tables::{
    multimaps_named, opened_plan, uniform_plan, AccessMode, ModelOpenTables, ReadWriteTableType, TablePermission, TableType,
};
use vstd::prelude::*;

verus! {

/// The pairs a writable multimap table holds; for a table opened in a read
/// transaction, whose pairs are not followed, the empty set (so statements
/// about held pairs, such as `indexes_consistent`, speak of tables opened in
/// a write transaction).
pub open spec fn held_pairs(p: TablePermission) -> Set<(Seq<u8>, Seq<u8>)> {
    match p {
        TablePermission::ReadWrite(ReadWriteTableType::MultimapTable(t)) => index_table_contents(t),
        TablePermission::ReadOnlyWrite(ReadWriteTableType::MultimapTable(t)) => index_table_contents(t),
        _ => Set::empty(),
    }
}

/// The pairs of `es` that go to table `i` of list `c`.
pub open spec fn pairs_for(es: Seq<IndexEntryView>, c: TreeCategory, i: int) -> Set<(Seq<u8>, Seq<u8>)> {
    Set::new(
        |p: (Seq<u8>, Seq<u8>)|
            exists|j: int| 0 <= j < es.len() && #[trigger] es[j].category == c && es[j].table == i && p == (es[j].key, es[j].value),
    )
}

/// `new` is `old` with table `i` of the list holding `pairs` in place of what
/// it held, every table keeping its access and name.
pub open spec fn list_updated(
    old: Seq<(TablePermission, String)>,
    new: Seq<(TablePermission, String)>,
    i: int,
    pairs: Set<(Seq<u8>, Seq<u8>)>,
) -> bool {
    &&& new.len() == old.len()
    &&& opened_plan(new) == opened_plan(old)
    &&& forall|j: int| 0 <= j < old.len() ==> (#[trigger] new[j]).0.is_multimap() == old[j].0.is_multimap()
        && new[j].0.opened_name() == old[j].0.opened_name()
    &&& forall|j: int| 0 <= j < old.len() && j != i ==> #[trigger] new[j] == old[j]
    &&& held_pairs(new[i].0) == pairs
}

/// Adds a pair to the writable multimap table at position `i` of a list.
fn insert_pair_at(v: &mut Vec<(TablePermission<'_>, String)>, i: usize, key: &Vec<u8>, value: &Vec<u8>) -> (r: NetabaseResult<()>)
    requires
        i < old(v)@.len(),
        old(v)@[i as int].0.is_multimap(),
        old(v)@[i as int].0.access() == AccessMode::ReadWrite,
    ensures
        r is Ok ==> list_updated(old(v)@, final(v)@, i as int, held_pairs(old(v)@[i as int].0).insert((key@, value@))),
        r matches Err(e) ==> e is RedbStorageError,
{
    let ghost before = v@;
    let r = match &mut v[i].0 {
        TablePermission::ReadWrite(ReadWriteTableType::MultimapTable(t)) => index_insert(t, key.as_slice(), value.as_slice()),
        _ => {
            assert(false);
            return Ok(());
        },
    };
    match r {
        Ok(_) => {
            assert(opened_plan(v@) =~= opened_plan(before));
            Ok(())
        },
        Err(e) => Err(NetabaseError::RedbStorageError(describe_storage_error(&e))),
    }
}

/// Takes a pair from the writable multimap table at position `i` of a list.
fn remove_pair_at(v: &mut Vec<(TablePermission<'_>, String)>, i: usize, key: &Vec<u8>, value: &Vec<u8>) -> (r: NetabaseResult<()>)
    requires
        i < old(v)@.len(),
        old(v)@[i as int].0.is_multimap(),
        old(v)@[i as int].0.access() == AccessMode::ReadWrite,
    ensures
        r is Ok ==> list_updated(old(v)@, final(v)@, i as int, held_pairs(old(v)@[i as int].0).remove((key@, value@))),
        r matches Err(e) ==> e is RedbStorageError,
{
    let ghost before = v@;
    let r = match &mut v[i].0 {
        TablePermission::ReadWrite(ReadWriteTableType::MultimapTable(t)) => index_remove(t, key.as_slice(), value.as_slice()),
        _ => {
            assert(false);
            return Ok(());
        },
    };
    match r {
        Ok(_) => {
            assert(opened_plan(v@) =~= opened_plan(before));
            Ok(())
        },
        Err(e) => Err(NetabaseError::RedbStorageError(describe_storage_error(&e))),
    }
}


/// Adding one entry to a list adds its pair to the pairs of its own table
/// only.
proof fn lemma_pairs_for_push(es: Seq<IndexEntryView>, e: IndexEntryView, c: TreeCategory, i: int)
    ensures
        pairs_for(es.push(e), c, i) == (if e.category == c && e.table == i {
            pairs_for(es, c, i).insert((e.key, e.value))
        } else {
            pairs_for(es, c, i)
        }),
{
    let l = pairs_for(es.push(e), c, i);
    let r = if e.category == c && e.table == i {
        pairs_for(es, c, i).insert((e.key, e.value))
    } else {
        pairs_for(es, c, i)
    };
    assert forall|p: (Seq<u8>, Seq<u8>)| l.contains(p) implies r.contains(p) by {
        let j = choose|j: int|
            0 <= j < es.push(e).len() && #[trigger] es.push(e)[j].category == c && es.push(e)[j].table == i && p == (
            es.push(e)[j].key, es.push(e)[j].value);
        if j < es.len() {
            assert(es[j] == es.push(e)[j]);
        }
    }
    assert forall|p: (Seq<u8>, Seq<u8>)| r.contains(p) implies l.contains(p) by {
        if e.category == c && e.table == i && p == (e.key, e.value) {
            assert(es.push(e)[es.len() as int] == e);
        } else {
            let j = choose|j: int| 0 <= j < es.len() && #[trigger] es[j].category == c && es[j].table == i && p == (es[j].key, es[j].value);
            assert(es.push(e)[j] == es[j]);
        }
    }
    assert(l =~= r);
}

/// No entries, no pairs.
proof fn lemma_pairs_for_empty(c: TreeCategory, i: int)
    ensures
        pairs_for(Seq::empty(), c, i) == Set::<(Seq<u8>, Seq<u8>)>::empty(),
{
    assert(pairs_for(Seq::empty(), c, i) =~= Set::<(Seq<u8>, Seq<u8>)>::empty());
}

impl<'txn> ModelOpenTables<'txn> {
    /// The list of multimap tables of a category.
    pub open spec fn category(&self, c: TreeCategory) -> Seq<(TablePermission<'txn>, String)> {
        match c {
            TreeCategory::Secondary => self.secondary@,
            TreeCategory::Blob => self.blob@,
            TreeCategory::Relational => self.relational@,
            TreeCategory::Subscription => self.subscription@,
        }
    }

    /// What the main table maps each primary key to.
    pub open spec fn main_contents(&self) -> Map<Seq<u8>, Seq<u8>> {
        match self.main {
            TablePermission::ReadOnly(TableType::Table(t)) => read_only_main_table_contents(t),
            TablePermission::ReadWrite(ReadWriteTableType::Table(t)) => main_table_contents(t),
            TablePermission::ReadOnlyWrite(ReadWriteTableType::Table(t)) => main_table_contents(t),
            _ => Map::empty(),
        }
    }

    /// The pairs held by table `i` of list `c`.
    pub open spec fn index_contents(&self, c: TreeCategory, i: int) -> Set<(Seq<u8>, Seq<u8>)> {
        held_pairs(self.category(c)[i].0)
    }

    /// The entry stored under `key`, where one is stored and decodes.
    pub open spec fn stored_entry(&self, key: Seq<u8>) -> Option<ModelEntryView> {
        if self.main_contents().contains_key(key) {
            match decode_entry(self.main_contents()[key]) {
                Some((data, indexes)) => Some(ModelEntryView { primary_key: key, data, indexes }),
                None => None,
            }
        } else {
            None
        }
    }

    /// `other` has the same tables as `self`, each with the same access
    /// and name.
    pub open spec fn same_layout(&self, other: &Self) -> bool {
        &&& other.wf() == self.wf()
        &&& other.main.access() == self.main.access()
        &&& other.main.is_multimap() == self.main.is_multimap()
        &&& other.main.opened_name() == self.main.opened_name()
        &&& forall|c: TreeCategory| #[trigger] opened_plan(other.category(c)) == opened_plan(self.category(c))
        &&& forall|c: TreeCategory| (#[trigger] other.category(c)).len() == self.category(c).len()
    }

    /// Every table of `new` holds what it held in `self`, less the pairs of
    /// `removed`, plus those of `added`.
    pub open spec fn index_effect(&self, new: &Self, removed: Seq<IndexEntryView>, added: Seq<IndexEntryView>) -> bool {
        forall|c: TreeCategory, i: int|
            0 <= i < self.category(c).len() ==> #[trigger] new.index_contents(c, i) == self.index_contents(c, i).difference(
                pairs_for(removed, c, i),
            ).union(pairs_for(added, c, i))
    }

    /// Why the entry's pair cannot be written: its table position is not in
    /// its list, or the table there is not open read-write.
    pub open spec fn target_error(&self, e: IndexEntryView) -> Option<NetabaseError> {
        if e.table >= self.category(e.category).len() {
            Some(NetabaseError::InvalidIndexReference)
        } else if self.category(e.category)[e.table as int].0.access() != AccessMode::ReadWrite {
            Some(NetabaseError::PermissionDenied)
        } else {
            None
        }
    }

    /// The error of the first entry from position `j` whose pair cannot be
    /// written.
    pub open spec fn first_target_error(&self, es: Seq<IndexEntryView>, j: int) -> Option<NetabaseError>
        decreases es.len() - j,
    {
        if j < 0 || j >= es.len() {
            None
        } else if self.target_error(es[j]) is Some {
            self.target_error(es[j])
        } else {
            self.first_target_error(es, j + 1)
        }
    }

    /// Why the entries' pairs cannot be written, if they cannot.
    pub open spec fn targets_error(&self, es: Seq<IndexEntryView>) -> Option<NetabaseError> {
        self.first_target_error(es, 0)
    }

    /// Why the main table cannot be written, if it cannot.
    pub open spec fn main_write_error(&self) -> Option<NetabaseError> {
        if self.main.access() == AccessMode::ReadWrite {
            None
        } else {
            Some(NetabaseError::PermissionDenied)
        }
    }

    /// Where no pair of `es` fails to be writable, each pair's table
    /// position is in its list and that table is open read-write.
    pub proof fn lemma_first_target_error_all(&self, es: Seq<IndexEntryView>)
        requires
            self.targets_error(es) is None,
        ensures
            forall|k: int| 0 <= k < es.len() ==> (#[trigger] self.target_error(es[k])) is None,
    {
        self.lemma_first_target_error(es, 0);
    }

    proof fn lemma_category_len(&self, c: TreeCategory)
        ensures
            self.category(c).len() <= usize::MAX,
    {
        match c {
            TreeCategory::Secondary => assert(self.secondary@.len() == self.secondary.len()),
            TreeCategory::Blob => assert(self.blob@.len() == self.blob.len()),
            TreeCategory::Relational => assert(self.relational@.len() == self.relational.len()),
            TreeCategory::Subscription => assert(self.subscription@.len() == self.subscription.len()),
        }
    }

    proof fn lemma_first_target_error(&self, es: Seq<IndexEntryView>, j: int)
        requires
            0 <= j <= es.len(),
        ensures
            (self.first_target_error(es, j) is None) <==> (forall|k: int| j <= k < es.len() ==> (#[trigger] self.target_error(es[k])) is None),
        decreases es.len() - j,
    {
        if j < es.len() {
            self.lemma_first_target_error(es, j + 1);
        }
    }

    /// Whether the main table maps `key`, and to what.
    fn main_lookup(&self, key: &Vec<u8>) -> (r: NetabaseResult<Option<Vec<u8>>>)
        requires
            !self.main.is_multimap(),
        ensures
            r matches Ok(Some(v)) ==> self.main_contents().contains_key(key@) && v@ == self.main_contents()[key@],
            r matches Ok(None) ==> !self.main_contents().contains_key(key@),
            r matches Err(e) ==> e is RedbStorageError,
    {
        let r = match &self.main {
            TablePermission::ReadOnly(TableType::Table(t)) => read_only_main_get(t, key.as_slice()),
            TablePermission::ReadWrite(ReadWriteTableType::Table(t)) => main_get(t, key.as_slice()),
            TablePermission::ReadOnlyWrite(ReadWriteTableType::Table(t)) => main_get(t, key.as_slice()),
            _ => {
                assert(false);
                return Ok(None);
            },
        };
        match r {
            Ok(v) => Ok(v),
            Err(e) => Err(NetabaseError::RedbStorageError(describe_storage_error(&e))),
        }
    }
}

impl<'txn> ModelOpenTables<'txn> {
    /// Adds a pair to table `i` of list `c`, which must be open read-write.
    fn insert_index_pair(&mut self, c: TreeCategory, i: usize, key: &Vec<u8>, value: &Vec<u8>) -> (r: NetabaseResult<()>)
        requires
            old(self).wf(),
            i < old(self).category(c).len(),
            old(self).category(c)[i as int].0.access() == AccessMode::ReadWrite,
        ensures
            r is Ok ==> {
                &&& old(self).same_layout(final(self))
                &&& final(self).main == old(self).main
                &&& forall|c2: TreeCategory, j: int|
                    0 <= j < old(self).category(c2).len() ==> #[trigger] final(self).index_contents(c2, j) == if c2 == c && j
                        == i {
                        old(self).index_contents(c, j).insert((key@, value@))
                    } else {
                        old(self).index_contents(c2, j)
                    }
            },
            r matches Err(e) ==> e is RedbStorageError,
    {
        assert(old(self).category(c)[i as int].0.is_multimap());
        let r = match c {
            TreeCategory::Secondary => insert_pair_at(&mut self.secondary, i, key, value),
            TreeCategory::Blob => insert_pair_at(&mut self.blob, i, key, value),
            TreeCategory::Relational => insert_pair_at(&mut self.relational, i, key, value),
            TreeCategory::Subscription => insert_pair_at(&mut self.subscription, i, key, value),
        };
        proof {
            if r is Ok {
                let o = old(self).category(c);
                let n = self.category(c);
                assert(multimaps_named(n)) by {
                    assert forall|j: int| 0 <= j < n.len() implies (#[trigger] n[j]).0.is_multimap() && n[j].0.opened_name() == n[j].1@ by {
                        assert(opened_plan(n)[j] == opened_plan(o)[j]);
                    }
                }
            }
        }
        r
    }

    /// Takes a pair from table `i` of list `c`, which must be open read-write.
    fn remove_index_pair(&mut self, c: TreeCategory, i: usize, key: &Vec<u8>, value: &Vec<u8>) -> (r: NetabaseResult<()>)
        requires
            old(self).wf(),
            i < old(self).category(c).len(),
            old(self).category(c)[i as int].0.access() == AccessMode::ReadWrite,
        ensures
            r is Ok ==> {
                &&& old(self).same_layout(final(self))
                &&& final(self).main == old(self).main
                &&& forall|c2: TreeCategory, j: int|
                    0 <= j < old(self).category(c2).len() ==> #[trigger] final(self).index_contents(c2, j) == if c2 == c && j
                        == i {
                        old(self).index_contents(c, j).remove((key@, value@))
                    } else {
                        old(self).index_contents(c2, j)
                    }
            },
            r matches Err(e) ==> e is RedbStorageError,
    {
        assert(old(self).category(c)[i as int].0.is_multimap());
        let r = match c {
            TreeCategory::Secondary => remove_pair_at(&mut self.secondary, i, key, value),
            TreeCategory::Blob => remove_pair_at(&mut self.blob, i, key, value),
            TreeCategory::Relational => remove_pair_at(&mut self.relational, i, key, value),
            TreeCategory::Subscription => remove_pair_at(&mut self.subscription, i, key, value),
        };
        proof {
            if r is Ok {
                let o = old(self).category(c);
                let n = self.category(c);
                assert(multimaps_named(n)) by {
                    assert forall|j: int| 0 <= j < n.len() implies (#[trigger] n[j]).0.is_multimap() && n[j].0.opened_name() == n[j].1@ by {
                        assert(opened_plan(n)[j] == opened_plan(o)[j]);
                    }
                }
            }
        }
        r
    }
}

impl<'txn> ModelOpenTables<'txn> {
    /// Adds the pair of every entry of `es`, in order.
    fn insert_pairs(&mut self, es: &Vec<IndexEntry>) -> (r: NetabaseResult<()>)
        requires
            old(self).wf(),
            old(self).targets_error(index_views(es@)) is None,
        ensures
            r is Ok ==> {
                &&& old(self).same_layout(final(self))
                &&& final(self).main == old(self).main
                &&& old(self).index_effect(final(self), Seq::empty(), index_views(es@))
            },
            r matches Err(e) ==> e is RedbStorageError,
    {
        let ghost views = index_views(es@);
        let ghost start = *self;
        proof {
            start.lemma_first_target_error(views, 0);
            assert(views.subrange(0, 0) =~= Seq::<IndexEntryView>::empty());
            assert forall|c: TreeCategory, i: int| 0 <= i < start.category(c).len() implies #[trigger] self.index_contents(c, i)
                == start.index_contents(c, i).difference(pairs_for(Seq::empty(), c, i)).union(pairs_for(Seq::empty(), c, i)) by {
                lemma_pairs_for_empty(c, i);
                assert(self.index_contents(c, i) =~= start.index_contents(c, i).difference(pairs_for(Seq::empty(), c, i)).union(
                    pairs_for(Seq::empty(), c, i)));
            }
        }
        let mut j: usize = 0;
        while j < es.len()
            invariant
                0 <= j <= es.len(),
                views == index_views(es@),
                start == *old(self),
                start.wf(),
                forall|k: int| 0 <= k < views.len() ==> (#[trigger] start.target_error(views[k])) is None,
                self.wf(),
                start.same_layout(self),
                self.main == start.main,
                start.index_effect(self, Seq::empty(), views.subrange(0, j as int)),
            decreases es.len() - j,
        {
            let e = &es[j];
            let ghost ev = views[j as int];
            proof {
                assert(ev == es@[j as int]@);
                assert(start.target_error(ev) is None);
                start.lemma_category_len(ev.category);
                assert(opened_plan(self.category(ev.category))[ev.table as int] == opened_plan(start.category(ev.category))[ev.table as int]);
            }
            let ti = e.table as usize;
            assert(ti as int == ev.table);
            let ghost mid = *self;
            let r = self.insert_index_pair(e.category, ti, &e.key, &e.value);
            if r.is_err() {
                return r;
            }
            proof {
                assert(views.subrange(0, j + 1) =~= views.subrange(0, j as int).push(ev));
                assert forall|c: TreeCategory, i: int| 0 <= i < start.category(c).len() implies #[trigger] self.index_contents(c, i)
                    == start.index_contents(c, i).difference(pairs_for(Seq::empty(), c, i)).union(
                    pairs_for(views.subrange(0, j + 1), c, i),
                ) by {
                    lemma_pairs_for_push(views.subrange(0, j as int), ev, c, i);
                    assert(mid.index_contents(c, i) == start.index_contents(c, i).difference(pairs_for(Seq::empty(), c, i)).union(
                        pairs_for(views.subrange(0, j as int), c, i)));
                    if c == ev.category && i == ev.table {
                        assert(self.index_contents(c, i) =~= start.index_contents(c, i).difference(pairs_for(Seq::empty(), c, i)).union(
                            pairs_for(views.subrange(0, j + 1), c, i)));
                    }
                }
            }
            j = j + 1;
        }
        proof {
            assert(views.subrange(0, j as int) =~= views);
        }
        Ok(())
    }

    /// Takes the pair of every entry of `es`, in order.
    fn remove_pairs(&mut self, es: &Vec<IndexEntry>) -> (r: NetabaseResult<()>)
        requires
            old(self).wf(),
            old(self).targets_error(index_views(es@)) is None,
        ensures
            r is Ok ==> {
                &&& old(self).same_layout(final(self))
                &&& final(self).main == old(self).main
                &&& old(self).index_effect(final(self), index_views(es@), Seq::empty())
            },
            r matches Err(e) ==> e is RedbStorageError,
    {
        let ghost views = index_views(es@);
        let ghost start = *self;
        proof {
            start.lemma_first_target_error(views, 0);
            assert(views.subrange(0, 0) =~= Seq::<IndexEntryView>::empty());
            assert forall|c: TreeCategory, i: int| 0 <= i < start.category(c).len() implies #[trigger] self.index_contents(c, i)
                == start.index_contents(c, i).difference(pairs_for(Seq::empty(), c, i)).union(pairs_for(Seq::empty(), c, i)) by {
                lemma_pairs_for_empty(c, i);
                assert(self.index_contents(c, i) =~= start.index_contents(c, i).difference(pairs_for(Seq::empty(), c, i)).union(
                    pairs_for(Seq::empty(), c, i)));
            }
        }
        let mut j: usize = 0;
        while j < es.len()
            invariant
                0 <= j <= es.len(),
                views == index_views(es@),
                start == *old(self),
                start.wf(),
                forall|k: int| 0 <= k < views.len() ==> (#[trigger] start.target_error(views[k])) is None,
                self.wf(),
                start.same_layout(self),
                self.main == start.main,
                start.index_effect(self, views.subrange(0, j as int), Seq::empty()),
            decreases es.len() - j,
        {
            let e = &es[j];
            let ghost ev = views[j as int];
            proof {
                assert(ev == es@[j as int]@);
                assert(start.target_error(ev) is None);
                start.lemma_category_len(ev.category);
                assert(opened_plan(self.category(ev.category))[ev.table as int] == opened_plan(start.category(ev.category))[ev.table as int]);
            }
            let ti = e.table as usize;
            assert(ti as int == ev.table);
            let ghost mid = *self;
            let r = self.remove_index_pair(e.category, ti, &e.key, &e.value);
            if r.is_err() {
                return r;
            }
            proof {
                assert(views.subrange(0, j + 1) =~= views.subrange(0, j as int).push(ev));
                assert forall|c: TreeCategory, i: int| 0 <= i < start.category(c).len() implies #[trigger] self.index_contents(c, i)
                    == start.index_contents(c, i).difference(pairs_for(views.subrange(0, j + 1), c, i)).union(
                    pairs_for(Seq::empty(), c, i),
                ) by {
                    lemma_pairs_for_push(views.subrange(0, j as int), ev, c, i);
                    lemma_pairs_for_empty(c, i);
                    assert(mid.index_contents(c, i) == start.index_contents(c, i).difference(pairs_for(views.subrange(0, j as int), c, i)).union(
                        pairs_for(Seq::empty(), c, i)));
                    assert(self.index_contents(c, i) =~= start.index_contents(c, i).difference(pairs_for(views.subrange(0, j + 1), c, i)).union(
                        pairs_for(Seq::empty(), c, i)));
                }
            }
            j = j + 1;
        }
        proof {
            assert(views.subrange(0, j as int) =~= views);
        }
        Ok(())
    }
}

impl<'txn> ModelOpenTables<'txn> {
    /// The number of tables of list `c`.
    fn category_len(&self, c: TreeCategory) -> (n: usize)
        ensures
            n == self.category(c).len(),
    {
        match c {
            TreeCategory::Secondary => self.secondary.len(),
            TreeCategory::Blob => self.blob.len(),
            TreeCategory::Relational => self.relational.len(),
            TreeCategory::Subscription => self.subscription.len(),
        }
    }

    /// Whether table `i` of list `c` is open read-write.
    fn writable_at(&self, c: TreeCategory, i: usize) -> (b: bool)
        requires
            i < self.category(c).len(),
        ensures
            b == (self.category(c)[i as int].0.access() == AccessMode::ReadWrite),
    {
        let p = match c {
            TreeCategory::Secondary => &self.secondary[i].0,
            TreeCategory::Blob => &self.blob[i].0,
            TreeCategory::Relational => &self.relational[i].0,
            TreeCategory::Subscription => &self.subscription[i].0,
        };
        match p {
            TablePermission::ReadWrite(_) => true,
            _ => false,
        }
    }

    /// Why the pairs of `es` cannot be written, if they cannot.
    fn check_targets(&self, es: &Vec<IndexEntry>) -> (r: Option<NetabaseError>)
        ensures
            r == self.targets_error(index_views(es@)),
    {
        let ghost views = index_views(es@);
        let mut j: usize = 0;
        while j < es.len()
            invariant
                0 <= j <= es.len(),
                views == index_views(es@),
                self.first_target_error(views, 0) == self.first_target_error(views, j as int),
            decreases es.len() - j,
        {
            let e = &es[j];
            assert(views[j as int] == e@);
            let n = self.category_len(e.category);
            if e.table >= n as u64 {
                return Some(NetabaseError::InvalidIndexReference);
            }
            if !self.writable_at(e.category, e.table as usize) {
                return Some(NetabaseError::PermissionDenied);
            }
            j = j + 1;
        }
        None
    }

    /// Whether the main table is open read-write.
    fn main_writable(&self) -> (b: bool)
        ensures
            b == (self.main.access() == AccessMode::ReadWrite),
    {
        match &self.main {
            TablePermission::ReadWrite(_) => true,
            _ => false,
        }
    }

    /// Maps `key` to `value` in the main table, which must be open
    /// read-write.
    fn main_put(&mut self, key: &Vec<u8>, value: &Vec<u8>) -> (r: NetabaseResult<()>)
        requires
            old(self).wf(),
            old(self).main.access() == AccessMode::ReadWrite,
        ensures
            final(self).main.access() == old(self).main.access(),
            final(self).main.is_multimap() == old(self).main.is_multimap(),
            final(self).main.opened_name() == old(self).main.opened_name(),
            final(self).secondary == old(self).secondary,
            final(self).blob == old(self).blob,
            final(self).relational == old(self).relational,
            final(self).subscription == old(self).subscription,
            r is Ok ==> final(self).main_contents() == old(self).main_contents().insert(key@, value@),
            r matches Err(e) ==> e is RedbStorageError,
    {
        let r = match &mut self.main {
            TablePermission::ReadWrite(ReadWriteTableType::Table(t)) => main_insert(t, key.as_slice(), value.as_slice()),
            _ => {
                assert(false);
                return Ok(());
            },
        };
        match r {
            Ok(_) => Ok(()),
            Err(e) => Err(NetabaseError::RedbStorageError(describe_storage_error(&e))),
        }
    }

    /// Takes `key` out of the main table, which must be open read-write.
    fn main_take(&mut self, key: &Vec<u8>) -> (r: NetabaseResult<()>)
        requires
            old(self).wf(),
            old(self).main.access() == AccessMode::ReadWrite,
        ensures
            final(self).main.access() == old(self).main.access(),
            final(self).main.is_multimap() == old(self).main.is_multimap(),
            final(self).main.opened_name() == old(self).main.opened_name(),
            final(self).secondary == old(self).secondary,
            final(self).blob == old(self).blob,
            final(self).relational == old(self).relational,
            final(self).subscription == old(self).subscription,
            r is Ok ==> final(self).main_contents() == old(self).main_contents().remove(key@),
            r matches Err(e) ==> e is RedbStorageError,
    {
        let r = match &mut self.main {
            TablePermission::ReadWrite(ReadWriteTableType::Table(t)) => main_remove(t, key.as_slice()),
            _ => {
                assert(false);
                return Ok(());
            },
        };
        match r {
            Ok(_) => Ok(()),
            Err(e) => Err(NetabaseError::RedbStorageError(describe_storage_error(&e))),
        }
    }
}

impl<'txn> ModelOpenTables<'txn> {
    /// Why an entry with index entries `es` cannot be written: the main
    /// table is not open read-write, or one of the pairs cannot be written.
    pub open spec fn write_error(&self, es: Seq<IndexEntryView>) -> Option<NetabaseError> {
        if self.main_write_error() is Some {
            self.main_write_error()
        } else {
            self.targets_error(es)
        }
    }

    /// `new` is `self` with `e` stored under its primary key and its pairs
    /// added.
    pub open spec fn create_effect(&self, new: &Self, e: ModelEntryView) -> bool {
        &&& self.same_layout(new)
        &&& new.main_contents() == self.main_contents().insert(e.primary_key, encode_entry(e.data, e.indexes))
        &&& self.index_effect(new, Seq::empty(), e.indexes)
    }

    /// `new` is `self` with `e` stored under its primary key in place of the
    /// entry with index entries `prev`, whose pairs are gone and `e`'s added.
    pub open spec fn update_effect(&self, new: &Self, e: ModelEntryView, prev: Seq<IndexEntryView>) -> bool {
        &&& self.same_layout(new)
        &&& new.main_contents() == self.main_contents().insert(e.primary_key, encode_entry(e.data, e.indexes))
        &&& self.index_effect(new, prev, e.indexes)
    }

    /// `new` is `self` without the entry under `key`, whose index entries
    /// were `prev`, and without their pairs.
    pub open spec fn delete_effect(&self, new: &Self, key: Seq<u8>, prev: Seq<IndexEntryView>) -> bool {
        &&& self.same_layout(new)
        &&& new.main_contents() == self.main_contents().remove(key)
        &&& self.index_effect(new, prev, Seq::empty())
    }

    proof fn lemma_target_error_kinds(&self, es: Seq<IndexEntryView>, j: int)
        ensures
            self.first_target_error(es, j) matches Some(e) ==> e == NetabaseError::InvalidIndexReference || e
                == NetabaseError::PermissionDenied,
        decreases es.len() - j,
    {
        if 0 <= j < es.len() {
            self.lemma_target_error_kinds(es, j + 1);
        }
    }

    /// Tables with the same layout refuse the same pairs.
    pub proof fn lemma_targets_error_same(&self, other: &Self, es: Seq<IndexEntryView>, j: int)
        requires
            self.same_layout(other),
        ensures
            other.first_target_error(es, j) == self.first_target_error(es, j),
        decreases es.len() - j,
    {
        if 0 <= j < es.len() {
            let c = es[j].category;
            let t = es[j].table as int;
            assert(opened_plan(other.category(c)) == opened_plan(self.category(c)));
            assert(other.category(c).len() == self.category(c).len());
            if 0 <= t < self.category(c).len() {
                assert(opened_plan(other.category(c))[t] == opened_plan(self.category(c))[t]);
            }
            self.lemma_targets_error_same(other, es, j + 1);
        }
    }

    /// Stores a new entry: maps its primary key to its stored form and adds
    /// its pairs to their tables. Refused, with nothing written, where the
    /// main table or a pair's table is not open read-write
    /// (`PermissionDenied`), where a pair names a table its list does not
    /// have (`InvalidIndexReference`), and where the primary key is present
    /// (`PrimaryKeyExists`). A redb error may stop it part-way.
    pub fn create_entry(&mut self, entry: &ModelEntry) -> (r: NetabaseResult<()>)
        requires
            old(self).wf(),
        ensures
            create_entry_outcome(*old(self), *final(self), entry@, r),
    {
        if !self.main_writable() {
            return Err(NetabaseError::PermissionDenied);
        }
        if let Some(err) = self.check_targets(&entry.indexes) {
            proof {
                self.lemma_target_error_kinds(entry@.indexes, 0);
            }
            return Err(err);
        }
        match self.main_lookup(&entry.primary_key) {
            Ok(Some(_)) => {
                return Err(NetabaseError::PrimaryKeyExists);
            },
            Ok(None) => {},
            Err(e) => {
                return Err(e);
            },
        }
        let bytes = encode_model(entry);
        let ghost start = *self;
        self.main_put(&entry.primary_key, &bytes)?;
        let ghost mid = *self;
        proof {
            assert forall|c: TreeCategory| #[trigger] mid.category(c) == start.category(c) by {}
            assert(start.same_layout(&mid));
            start.lemma_targets_error_same(&mid, entry@.indexes, 0);
        }
        self.insert_pairs(&entry.indexes)?;
        proof {
            assert(mid.index_effect(&*self, Seq::empty(), entry@.indexes));
            assert forall|c: TreeCategory, i: int| 0 <= i < start.category(c).len() implies #[trigger] self.index_contents(c, i)
                == start.index_contents(c, i).difference(pairs_for(Seq::empty(), c, i)).union(pairs_for(entry@.indexes, c, i)) by {
                assert(mid.category(c) == start.category(c));
                assert(mid.index_contents(c, i) == start.index_contents(c, i));
            }
        }
        Ok(())
    }

    /// The entry stored under `key`: `None` where there is none, and
    /// `CorruptedEntry` where the stored value does not decode.
    pub fn read_default(&self, key: &Vec<u8>) -> (r: NetabaseResult<Option<ModelEntry>>)
        requires
            self.wf(),
        ensures
            r matches Ok(Some(e)) ==> self.stored_entry(key@) == Some(e@),
            r matches Ok(None) ==> !self.main_contents().contains_key(key@),
            self.main_contents().contains_key(key@) && self.stored_entry(key@) is None ==> r is Err,
            r matches Err(e) ==> e is RedbStorageError || (e == NetabaseError::CorruptedEntry
                && self.main_contents().contains_key(key@) && self.stored_entry(key@) is None),
    {
        match self.main_lookup(key)? {
            None => Ok(None),
            Some(bytes) => match decode_model(key, &bytes) {
                Some(e) => Ok(Some(e)),
                None => Err(NetabaseError::CorruptedEntry),
            },
        }
    }
}

/// What `create_entry` of `entry` gives, from tables `old` to tables `new`:
/// a refusal by the library writes nothing; success stores the entry where
/// no entry was stored under its key; a present key is never overwritten.
pub open spec fn create_entry_outcome(old: ModelOpenTables, new: ModelOpenTables, entry: ModelEntryView, r: NetabaseResult<()>) -> bool {
    &&& old.write_error(entry.indexes) matches Some(e) ==> r == Err::<(), NetabaseError>(e) && new == old
    &&& r is Ok ==> {
        &&& old.write_error(entry.indexes) is None
        &&& !old.main_contents().contains_key(entry.primary_key)
        &&& old.create_effect(&new, entry)
    }
    &&& old.main_contents().contains_key(entry.primary_key) ==> r is Err && new == old
    &&& r == Err::<(), NetabaseError>(NetabaseError::PrimaryKeyExists) ==> old.main_contents().contains_key(entry.primary_key)
    &&& r matches Err(e) ==> old.write_error(entry.indexes) == Some(e) || e == NetabaseError::PrimaryKeyExists || e is RedbStorageError
}

/// What `update_entry` with `entry` gives, from tables `old` to tables
/// `new`: a refusal by the library writes nothing; success replaces the
/// entry stored under the key; where no entry is stored, or the stored one
/// does not decode or names a table that cannot be written, nothing
/// changes.
pub open spec fn update_entry_outcome(old: ModelOpenTables, new: ModelOpenTables, entry: ModelEntryView, r: NetabaseResult<()>) -> bool {
    &&& old.write_error(entry.indexes) matches Some(e) ==> r == Err::<(), NetabaseError>(e) && new == old
    &&& r is Ok ==> {
        &&& old.write_error(entry.indexes) is None
        &&& old.stored_entry(entry.primary_key) matches Some(prev)
        &&& old.targets_error(prev.indexes) is None
        &&& old.update_effect(&new, entry, prev.indexes)
    }
    &&& !old.main_contents().contains_key(entry.primary_key) ==> r is Err && new == old
    &&& r == Err::<(), NetabaseError>(NetabaseError::NotFound) ==> !old.main_contents().contains_key(entry.primary_key)
    &&& old.main_contents().contains_key(entry.primary_key) && old.stored_entry(entry.primary_key) is None ==> r is Err && new
        == old
    &&& r == Err::<(), NetabaseError>(NetabaseError::CorruptedEntry) ==> old.main_contents().contains_key(entry.primary_key)
        && old.stored_entry(entry.primary_key) is None
    &&& (old.stored_entry(entry.primary_key) matches Some(prev) && old.targets_error(prev.indexes) is Some) ==> r is Err && new == old
    &&& r matches Err(e) ==> old.write_error(entry.indexes) == Some(e) || e == NetabaseError::NotFound || e
        == NetabaseError::CorruptedEntry || e is RedbStorageError || (old.stored_entry(entry.primary_key) matches Some(prev)
        && old.targets_error(prev.indexes) == Some(e))
}

/// What `delete_entry` of `key` gives, from tables `old` to tables `new`: a
/// refusal by the library writes nothing; where no entry is stored under
/// `key`, or the stored one does not decode or names a table that cannot be
/// written, nothing changes; success otherwise removes the entry.
pub open spec fn delete_entry_outcome(old: ModelOpenTables, new: ModelOpenTables, key: Seq<u8>, r: NetabaseResult<()>) -> bool {
    &&& old.main_write_error() matches Some(e) ==> r == Err::<(), NetabaseError>(e) && new == old
    &&& r is Ok ==> old.main_write_error() is None && ((!old.main_contents().contains_key(key) && new == old) || (old.stored_entry(
        key,
    ) matches Some(prev) && old.targets_error(prev.indexes) is None && old.delete_effect(&new, key, prev.indexes)))
    &&& !old.main_contents().contains_key(key) ==> new == old
    &&& old.main_contents().contains_key(key) && old.stored_entry(key) is None ==> r is Err && new == old
    &&& r == Err::<(), NetabaseError>(NetabaseError::CorruptedEntry) ==> old.main_contents().contains_key(key) && old.stored_entry(
        key,
    ) is None
    &&& (old.stored_entry(key) matches Some(prev) && old.targets_error(prev.indexes) is Some) ==> r is Err && new == old
    &&& r matches Err(e) ==> old.main_write_error() == Some(e) || e == NetabaseError::CorruptedEntry || e is RedbStorageError
        || (old.stored_entry(key) matches Some(prev) && old.targets_error(prev.indexes) == Some(e))
}

impl<'txn> ModelOpenTables<'txn> {
    /// `other` differs from `self` in its main table's contents at most.
    proof fn lemma_main_only_changed(&self, other: &Self)
        requires
            other.main.access() == self.main.access(),
            other.main.is_multimap() == self.main.is_multimap(),
            other.main.opened_name() == self.main.opened_name(),
            other.secondary == self.secondary,
            other.blob == self.blob,
            other.relational == self.relational,
            other.subscription == self.subscription,
        ensures
            self.same_layout(other),
            forall|c: TreeCategory| #[trigger] other.category(c) == self.category(c),
            forall|c: TreeCategory, i: int| #[trigger] other.index_contents(c, i) == self.index_contents(c, i),
    {
        assert forall|c: TreeCategory| #[trigger] other.category(c) == self.category(c) by {}
    }

    /// Replaces the entry stored under the new entry's primary key: its
    /// pairs are taken from their tables, the key maps to the new entry's
    /// stored form, and the new entry's pairs are added. Refused, with
    /// nothing written, where the main table or one of the pairs' tables is
    /// not open read-write (`PermissionDenied`), where a pair names a table
    /// its list does not have (`InvalidIndexReference`), where no entry is
    /// stored under the key (`NotFound`), and where the stored value does not
    /// decode (`CorruptedEntry`). A redb error may stop it part-way.
    pub fn update_entry(&mut self, entry: &ModelEntry) -> (r: NetabaseResult<()>)
        requires
            old(self).wf(),
        ensures
            update_entry_outcome(*old(self), *final(self), entry@, r),
    {
        if !self.main_writable() {
            return Err(NetabaseError::PermissionDenied);
        }
        if let Some(err) = self.check_targets(&entry.indexes) {
            proof {
                self.lemma_target_error_kinds(entry@.indexes, 0);
            }
            return Err(err);
        }
        let bytes = match self.main_lookup(&entry.primary_key) {
            Ok(Some(b)) => b,
            Ok(None) => {
                return Err(NetabaseError::NotFound);
            },
            Err(e) => {
                return Err(e);
            },
        };
        let prev = match decode_model(&entry.primary_key, &bytes) {
            Some(p) => p,
            None => {
                return Err(NetabaseError::CorruptedEntry);
            },
        };
        assert(self.stored_entry(entry@.primary_key) == Some(prev@));
        if let Some(err) = self.check_targets(&prev.indexes) {
            proof {
                self.lemma_target_error_kinds(prev@.indexes, 0);
            }
            return Err(err);
        }
        let ghost start = *self;
        self.remove_pairs(&prev.indexes)?;
        let ghost mid1 = *self;
        let new_bytes = encode_model(entry);
        self.main_put(&entry.primary_key, &new_bytes)?;
        let ghost mid2 = *self;
        proof {
            mid1.lemma_main_only_changed(&mid2);
            start.lemma_targets_error_same(&mid2, entry@.indexes, 0);
            assert(mid1.index_effect(&mid2, Seq::empty(), Seq::empty())) by {
                assert forall|c: TreeCategory, i: int| 0 <= i < mid1.category(c).len() implies #[trigger] mid2.index_contents(c, i)
                    == mid1.index_contents(c, i).difference(pairs_for(Seq::empty(), c, i)).union(pairs_for(Seq::empty(), c, i)) by {
                    lemma_pairs_for_empty(c, i);
                    assert(mid2.index_contents(c, i) =~= mid1.index_contents(c, i).difference(pairs_for(Seq::empty(), c, i)).union(
                        pairs_for(Seq::empty(), c, i)));
                }
            }
        }
        self.insert_pairs(&entry.indexes)?;
        proof {
            assert forall|c: TreeCategory, i: int| 0 <= i < start.category(c).len() implies #[trigger] self.index_contents(c, i)
                == start.index_contents(c, i).difference(pairs_for(prev@.indexes, c, i)).union(pairs_for(entry@.indexes, c, i)) by {
                lemma_pairs_for_empty(c, i);
                assert(mid1.category(c).len() == start.category(c).len());
                assert(mid2.category(c) == mid1.category(c));
                assert(mid1.index_contents(c, i) =~= start.index_contents(c, i).difference(pairs_for(prev@.indexes, c, i)));
                assert(self.index_contents(c, i) =~= mid2.index_contents(c, i).union(pairs_for(entry@.indexes, c, i)));
            }
        }
        Ok(())
    }

    /// Removes the entry stored under `key`: its pairs are taken from their
    /// tables and the key from the main table. Where nothing is stored under
    /// `key` it succeeds with nothing changed. Refused, with nothing
    /// written, where the main table or one of the pairs' tables is not open
    /// read-write (`PermissionDenied`), where a pair names a table its list
    /// does not have (`InvalidIndexReference`), and where the stored value
    /// does not decode (`CorruptedEntry`). A redb error may stop it
    /// part-way.
    pub fn delete_entry(&mut self, key: &Vec<u8>) -> (r: NetabaseResult<()>)
        requires
            old(self).wf(),
        ensures
            delete_entry_outcome(*old(self), *final(self), key@, r),
    {
        if !self.main_writable() {
            return Err(NetabaseError::PermissionDenied);
        }
        let bytes = match self.main_lookup(key) {
            Ok(Some(b)) => b,
            Ok(None) => {
                return Ok(());
            },
            Err(e) => {
                return Err(e);
            },
        };
        let prev = match decode_model(key, &bytes) {
            Some(p) => p,
            None => {
                return Err(NetabaseError::CorruptedEntry);
            },
        };
        assert(self.stored_entry(key@) == Some(prev@));
        if let Some(err) = self.check_targets(&prev.indexes) {
            proof {
                self.lemma_target_error_kinds(prev@.indexes, 0);
            }
            return Err(err);
        }
        let ghost start = *self;
        self.remove_pairs(&prev.indexes)?;
        let ghost mid = *self;
        self.main_take(key)?;
        proof {
            mid.lemma_main_only_changed(&*self);
            assert forall|c: TreeCategory, i: int| 0 <= i < start.category(c).len() implies #[trigger] self.index_contents(c, i)
                == start.index_contents(c, i).difference(pairs_for(prev@.indexes, c, i)).union(pairs_for(Seq::empty(), c, i)) by {
                assert(mid.category(c).len() == start.category(c).len());
            }
        }
        Ok(())
    }
}

/// `entries` are the entries stored in `t`, each once, in ascending order of
/// primary key.
pub open spec fn lists_stored_entries(t: ModelOpenTables, entries: Seq<ModelEntryView>) -> bool {
    &&& forall|i: int| 0 <= i < entries.len() ==> t.stored_entry((#[trigger] entries[i]).primary_key) == Some(entries[i])
    &&& forall|k: Seq<u8>| #[trigger] t.main_contents().contains_key(k) ==> exists|i: int| 0 <= i < entries.len() && entries[i].primary_key == k
    &&& forall|i: int, j: int| 0 <= i < j < entries.len() ==> bytes_lt((#[trigger] entries[i]).primary_key, (#[trigger] entries[j]).primary_key)
}

/// Some key of the main table holds a value that does not decode.
pub open spec fn has_corrupted_entry(t: ModelOpenTables) -> bool {
    exists|k: Seq<u8>| #[trigger] t.main_contents().contains_key(k) && t.stored_entry(k) is None
}

impl<'txn> ModelOpenTables<'txn> {
    /// Every pair of the main table, in ascending key order.
    fn main_listing(&self) -> (r: NetabaseResult<Vec<(Vec<u8>, Vec<u8>)>>)
        requires
            !self.main.is_multimap(),
        ensures
            r matches Ok(v) ==> lists_map_in_order(v@.map_values(|p: (Vec<u8>, Vec<u8>)| (p.0@, p.1@)), self.main_contents()),
            r matches Err(e) ==> e is RedbStorageError,
    {
        let r = match &self.main {
            TablePermission::ReadOnly(TableType::Table(t)) => read_only_main_entries(t),
            TablePermission::ReadWrite(ReadWriteTableType::Table(t)) => main_entries(t),
            TablePermission::ReadOnlyWrite(ReadWriteTableType::Table(t)) => main_entries(t),
            _ => {
                assert(false);
                return Ok(Vec::new());
            },
        };
        match r {
            Ok(v) => Ok(v),
            Err(e) => Err(NetabaseError::RedbStorageError(describe_storage_error(&e))),
        }
    }

    /// Every stored entry, in ascending order of primary key;
    /// `CorruptedEntry` where a stored value does not decode.
    pub fn list_default(&self) -> (r: NetabaseResult<Vec<ModelEntry>>)
        requires
            self.wf(),
        ensures
            r matches Ok(v) ==> lists_stored_entries(*self, entry_views(v@)),
            has_corrupted_entry(*self) ==> r is Err,
            r matches Err(e) ==> e is RedbStorageError || (e == NetabaseError::CorruptedEntry && has_corrupted_entry(*self)),
    {
        let raw = self.main_listing()?;
        let ghost pairs = raw@.map_values(|p: (Vec<u8>, Vec<u8>)| (p.0@, p.1@));
        let mut out: Vec<ModelEntry> = Vec::new();
        let mut i: usize = 0;
        while i < raw.len()
            invariant
                0 <= i <= raw.len(),
                pairs == raw@.map_values(|p: (Vec<u8>, Vec<u8>)| (p.0@, p.1@)),
                lists_map_in_order(pairs, self.main_contents()),
                out@.len() == i,
                forall|j: int| 0 <= j < i ==> (#[trigger] out@[j])@.primary_key == pairs[j].0 && self.stored_entry(pairs[j].0)
                    == Some(out@[j]@),
            decreases raw.len() - i,
        {
            let ghost k = pairs[i as int].0;
            assert(self.main_contents().contains_key(k));
            match decode_model(&raw[i].0, &raw[i].1) {
                Some(e) => {
                    out.push(e);
                },
                None => {
                    assert(self.stored_entry(k) is None);
                    return Err(NetabaseError::CorruptedEntry);
                },
            }
            i = i + 1;
        }
        proof {
            let views = entry_views(out@);
            assert forall|j: int| 0 <= j < views.len() implies self.stored_entry((#[trigger] views[j]).primary_key) == Some(views[j]) by {
                assert(views[j] == out@[j]@);
            }
            assert forall|k: Seq<u8>| #[trigger] self.main_contents().contains_key(k) implies exists|j: int|
                0 <= j < views.len() && views[j].primary_key == k by {
                let j = choose|j: int| 0 <= j < pairs.len() && pairs[j].0 == k;
                assert(views[j] == out@[j]@);
            }
            assert forall|a: int, b: int| 0 <= a < b < views.len() implies bytes_lt((#[trigger] views[a]).primary_key, (#[trigger] views[b]).primary_key) by {
                assert(views[a] == out@[a]@);
                assert(views[b] == out@[b]@);
                assert(bytes_lt(pairs[a].0, pairs[b].0));
            }
            if has_corrupted_entry(*self) {
                let k = choose|k: Seq<u8>| #[trigger] self.main_contents().contains_key(k) && self.stored_entry(k) is None;
                let j = choose|j: int| 0 <= j < pairs.len() && pairs[j].0 == k;
                assert(self.stored_entry(pairs[j].0) == Some(out@[j]@));
            }
        }
        Ok(out)
    }
}

/// Some entry from position `j` names a table position that its list, in
/// `names`, does not have.
pub open spec fn invalid_reference_from(names: &ModelTreeNames, es: Seq<IndexEntryView>, j: int) -> bool {
    exists|k: int| j <= k < es.len() && 0 <= k && #[trigger] es[k].table >= names.category_len(es[k].category)
}

impl<'txn> ModelOpenTables<'txn> {
    /// Tables that follow a uniform plan have, in each list, as many tables
    /// as `names` has.
    pub proof fn lemma_uniform_lens(&self, names: &ModelTreeNames, mode: AccessMode, c: TreeCategory)
        requires
            self.follows_uniform_plan(names, mode),
        ensures
            self.category(c).len() == names.category_len(c),
            forall|i: int| 0 <= i < self.category(c).len() ==> (#[trigger] self.category(c)[i]).0.access() == mode,
    {
        let v = self.category(c);
        assert(opened_plan(v).len() == v.len());
        assert forall|i: int| 0 <= i < v.len() implies (#[trigger] v[i]).0.access() == mode by {
            assert(opened_plan(v)[i].1 == v[i].0.access());
            match c {
                TreeCategory::Secondary => assert(uniform_plan(table_names(names.secondary@), mode)[i].1 == mode),
                TreeCategory::Blob => assert(uniform_plan(table_names(names.blob@), mode)[i].1 == mode),
                TreeCategory::Relational => assert(uniform_plan(table_names(names.relational@), mode)[i].1 == mode),
                TreeCategory::Subscription => assert(uniform_plan(names.subscription_names(), mode)[i].1 == mode),
            }
        }
    }

    /// With every table read-write, the only reason a pair cannot be written
    /// is a table position its list does not have.
    pub proof fn lemma_read_write_targets(&self, names: &ModelTreeNames, es: Seq<IndexEntryView>, j: int)
        requires
            self.follows_uniform_plan(names, AccessMode::ReadWrite),
            0 <= j,
        ensures
            self.first_target_error(es, j) == (if invalid_reference_from(names, es, j) {
                Some(NetabaseError::InvalidIndexReference)
            } else {
                None::<NetabaseError>
            }),
        decreases es.len() - j,
    {
        if j < es.len() {
            self.lemma_uniform_lens(names, AccessMode::ReadWrite, es[j].category);
            self.lemma_read_write_targets(names, es, j + 1);
            if invalid_reference_from(names, es, j + 1) {
                let k = choose|k: int| j + 1 <= k < es.len() && 0 <= k && #[trigger] es[k].table >= names.category_len(es[k].category);
                assert(j <= k);
            }
            if invalid_reference_from(names, es, j) && !(es[j].table >= names.category_len(es[j].category)) {
                let k = choose|k: int| j <= k < es.len() && 0 <= k && #[trigger] es[k].table >= names.category_len(es[k].category);
                assert(k != j);
                assert(invalid_reference_from(names, es, j + 1));
            }
        }
    }
}

/// `e` has a secondary index entry whose key is `key`.
pub open spec fn has_secondary_key(e: ModelEntryView, key: Seq<u8>) -> bool {
    exists|j: int|
        0 <= j < e.indexes.len() && #[trigger] e.indexes[j].category == TreeCategory::Secondary && e.indexes[j].key == key
}

/// `entries` are the entries stored in `t` that have a secondary key `key`,
/// each once, in ascending order of primary key.
pub open spec fn lists_entries_with_secondary_key(t: ModelOpenTables, entries: Seq<ModelEntryView>, key: Seq<u8>) -> bool {
    &&& forall|i: int|
        0 <= i < entries.len() ==> t.stored_entry((#[trigger] entries[i]).primary_key) == Some(entries[i])
            && has_secondary_key(entries[i], key)
    &&& forall|k: Seq<u8>|
        (#[trigger] t.stored_entry(k)) is Some && has_secondary_key(t.stored_entry(k)->Some_0, key) ==> exists|i: int|
            0 <= i < entries.len() && entries[i].primary_key == k
    &&& forall|i: int, j: int| 0 <= i < j < entries.len() ==> bytes_lt((#[trigger] entries[i]).primary_key, (#[trigger] entries[j]).primary_key)
}

/// The number of entries a listing of `n` keeps under `limit`: all of them
/// where there is no limit, otherwise at most `limit`.
pub open spec fn capped_len(n: nat, limit: Option<usize>) -> int {
    match limit {
        Some(l) => if l < n {
            l as int
        } else {
            n as int
        },
        None => n as int,
    }
}

/// Whether two byte strings are equal.
fn bytes_equal(a: &Vec<u8>, b: &Vec<u8>) -> (r: bool)
    ensures
        r == (a@ == b@),
{
    if a.len() != b.len() {
        return false;
    }
    let mut i: usize = 0;
    while i < a.len()
        invariant
            0 <= i <= a.len(),
            a.len() == b.len(),
            forall|j: int| 0 <= j < i ==> a@[j] == b@[j],
        decreases a.len() - i,
    {
        if a[i] != b[i] {
            return false;
        }
        i = i + 1;
    }
    assert(a@ =~= b@);
    true
}

/// A copy of a byte string.
fn copy_bytes(b: &Vec<u8>) -> (r: Vec<u8>)
    ensures
        r@ == b@,
{
    let mut out: Vec<u8> = Vec::new();
    let mut i: usize = 0;
    while i < b.len()
        invariant
            0 <= i <= b.len(),
            out@ == b@.subrange(0, i as int),
        decreases b.len() - i,
    {
        out.push(b[i]);
        assert(b@.subrange(0, i + 1) =~= b@.subrange(0, i as int).push(b@[i as int]));
        i = i + 1;
    }
    assert(b@.subrange(0, i as int) =~= b@);
    out
}

/// A copy of an entry.
fn copy_entry(e: &ModelEntry) -> (r: ModelEntry)
    ensures
        r@ == e@,
{
    let mut indexes: Vec<IndexEntry> = Vec::new();
    let mut i: usize = 0;
    while i < e.indexes.len()
        invariant
            0 <= i <= e.indexes.len(),
            index_views(indexes@) == index_views(e.indexes@).subrange(0, i as int),
        decreases e.indexes.len() - i,
    {
        let x = &e.indexes[i];
        let c = IndexEntry { category: x.category, table: x.table, key: copy_bytes(&x.key), value: copy_bytes(&x.value) };
        let ghost before = indexes@;
        indexes.push(c);
        assert(index_views(indexes@) =~= index_views(before).push(x@));
        assert(index_views(e.indexes@).subrange(0, i + 1) =~= index_views(e.indexes@).subrange(0, i as int).push(x@));
        i = i + 1;
    }
    assert(index_views(e.indexes@).subrange(0, i as int) =~= index_views(e.indexes@));
    ModelEntry { primary_key: copy_bytes(&e.primary_key), data: copy_bytes(&e.data), indexes }
}

/// Whether `e` has a secondary index entry whose key is `key`.
fn entry_has_secondary_key(e: &ModelEntry, key: &Vec<u8>) -> (r: bool)
    ensures
        r == has_secondary_key(e@, key@),
{
    let mut j: usize = 0;
    while j < e.indexes.len()
        invariant
            0 <= j <= e.indexes.len(),
            forall|m: int| 0 <= m < j ==> !((#[trigger] e@.indexes[m]).category == TreeCategory::Secondary && e@.indexes[m].key == key@),
        decreases e.indexes.len() - j,
    {
        let x = &e.indexes[j];
        assert(e@.indexes[j as int] == x@);
        let is_secondary = match x.category {
            TreeCategory::Secondary => true,
            _ => false,
        };
        if is_secondary && bytes_equal(&x.key, key) {
            return true;
        }
        j = j + 1;
    }
    assert(e@.indexes.len() == e.indexes.len());
    false
}

impl<'txn> ModelOpenTables<'txn> {
    /// The stored entries that have a secondary key `key`, in ascending
    /// order of primary key; `CorruptedEntry` where a stored value does not
    /// decode.
    pub fn list_by_secondary(&self, key: &Vec<u8>) -> (r: NetabaseResult<Vec<ModelEntry>>)
        requires
            self.wf(),
        ensures
            r matches Ok(v) ==> lists_entries_with_secondary_key(*self, entry_views(v@), key@),
            has_corrupted_entry(*self) ==> r is Err,
            r matches Err(e) ==> e is RedbStorageError || (e == NetabaseError::CorruptedEntry && has_corrupted_entry(*self)),
    {
        let all = self.list_default()?;
        let ghost av = entry_views(all@);
        let mut out: Vec<ModelEntry> = Vec::new();
        let ghost mut idxs: Seq<int> = Seq::empty();
        let mut i: usize = 0;
        while i < all.len()
            invariant
                0 <= i <= all.len(),
                av == entry_views(all@),
                lists_stored_entries(*self, av),
                out@.len() == idxs.len(),
                forall|m: int| 0 <= m < idxs.len() ==> 0 <= #[trigger] idxs[m] < i && out@[m]@ == av[idxs[m]]
                    && has_secondary_key(av[idxs[m]], key@),
                forall|m: int, n: int| 0 <= m < n < idxs.len() ==> #[trigger] idxs[m] < #[trigger] idxs[n],
                forall|x: int| 0 <= x < i && has_secondary_key(#[trigger] av[x], key@) ==> exists|m: int| 0 <= m < idxs.len() && idxs[m] == x,
            decreases all.len() - i,
        {
            assert(av[i as int] == all@[i as int]@);
            if entry_has_secondary_key(&all[i], key) {
                let e = copy_entry(&all[i]);
                out.push(e);
                proof {
                    let old_idxs = idxs;
                    idxs = idxs.push(i as int);
                    assert forall|x: int| 0 <= x < i + 1 && has_secondary_key(#[trigger] av[x], key@) implies exists|m: int|
                        0 <= m < idxs.len() && idxs[m] == x by {
                        if x == i {
                            assert(idxs[old_idxs.len() as int] == x);
                        } else {
                            let m = choose|m: int| 0 <= m < old_idxs.len() && old_idxs[m] == x;
                            assert(idxs[m] == x);
                        }
                    }
                }
            }
            i = i + 1;
        }
        proof {
            let v = entry_views(out@);
            assert forall|m: int| 0 <= m < v.len() implies self.stored_entry((#[trigger] v[m]).primary_key) == Some(v[m])
                && has_secondary_key(v[m], key@) by {
                assert(v[m] == out@[m]@);
                assert(0 <= idxs[m] < av.len());
            }
            assert forall|k: Seq<u8>| (#[trigger] self.stored_entry(k)) is Some && has_secondary_key(self.stored_entry(k)->Some_0, key@)
                implies exists|m: int| 0 <= m < v.len() && v[m].primary_key == k by {
                let x = choose|x: int| 0 <= x < av.len() && av[x].primary_key == k;
                assert(self.stored_entry(av[x].primary_key) == Some(av[x]));
                assert(has_secondary_key(av[x], key@));
                let m = choose|m: int| 0 <= m < idxs.len() && idxs[m] == x;
                assert(v[m] == out@[m]@);
            }
            assert forall|a: int, b: int| 0 <= a < b < v.len() implies bytes_lt((#[trigger] v[a]).primary_key, (#[trigger] v[b]).primary_key) by {
                assert(v[a] == out@[a]@);
                assert(v[b] == out@[b]@);
                assert(idxs[a] < idxs[b]);
                assert(bytes_lt(av[idxs[a]].primary_key, av[idxs[b]].primary_key));
            }
        }
        Ok(out)
    }

    /// The first stored entries in ascending order of primary key, at most
    /// `limit` of them where there is a limit; `CorruptedEntry` where a
    /// stored value does not decode.
    pub fn list_first(&self, limit: Option<usize>) -> (r: NetabaseResult<Vec<ModelEntry>>)
        requires
            self.wf(),
        ensures
            r matches Ok(v) ==> exists|all: Seq<ModelEntryView>| #[trigger] lists_stored_entries(*self, all) && entry_views(v@)
                == all.take(capped_len(all.len(), limit)),
            has_corrupted_entry(*self) ==> r is Err,
            r matches Err(e) ==> e is RedbStorageError || (e == NetabaseError::CorruptedEntry && has_corrupted_entry(*self)),
    {
        let mut all = self.list_default()?;
        let ghost full = entry_views(all@);
        if let Some(l) = limit {
            all.truncate(l);
        }
        assert(entry_views(all@) =~= full.take(capped_len(full.len(), limit)));
        Ok(all)
    }
}

} // verus!
