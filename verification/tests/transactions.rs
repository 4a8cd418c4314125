use netabase_redb_txn::codec::{decode_model, encode_model, IndexEntry, ModelEntry, TreeCategory};
use netabase_redb_txn::errors::NetabaseError;
use netabase_redb_txn::query::{QueryConfig, QueryResult};
use netabase_redb_txn::relational::{
    names_contain, relational_permission_flag, DiscriminantTableName, ModelRelationPermissions, ModelTreeNames,
    PermissionFlag, RelationPermission,
};
use netabase_redb_txn::tables::{assemble_model_tables, ReadWriteTableType, TablePermission, TableType};
use netabase_redb_txn::transaction::{NetabaseRedbWriteTransaction, RedbTransaction};
use redb::{MultimapTableDefinition, ReadableDatabase, ReadableMultimapTable, TableDefinition};

fn memory_db() -> redb::Database {
    redb::Builder::new()
        .create_with_backend(redb::backends::InMemoryBackend::new())
        .unwrap()
}

fn dtn(name: &str) -> DiscriminantTableName {
    DiscriminantTableName { discriminant: name.to_string(), table_name: name.to_string() }
}

fn user_names() -> ModelTreeNames {
    ModelTreeNames {
        main: dtn("users"),
        secondary: vec![dtn("users_email")],
        blob: vec![dtn("users_avatar")],
        relational: vec![dtn("users_posts")],
        subscription: Some(vec![dtn("users_subs")]),
    }
}

fn post_names() -> ModelTreeNames {
    ModelTreeNames {
        main: dtn("posts"),
        secondary: vec![],
        blob: vec![],
        relational: vec![dtn("posts_author")],
        subscription: None,
    }
}

fn user(id: u8, email: &str) -> ModelEntry {
    ModelEntry {
        primary_key: vec![id],
        data: format!("user-{}", id).into_bytes(),
        indexes: vec![IndexEntry {
            category: TreeCategory::Secondary,
            table: 0,
            key: email.as_bytes().to_vec(),
            value: vec![id],
        }],
    }
}

fn email_index(db: &redb::Database, email: &str) -> Vec<Vec<u8>> {
    let txn = db.begin_read().unwrap();
    let t = txn
        .open_multimap_table(MultimapTableDefinition::<&[u8], &[u8]>::new("users_email"))
        .unwrap();
    let mut out = Vec::new();
    for v in t.get(email.as_bytes()).unwrap() {
        out.push(v.unwrap().value().to_vec());
    }
    out
}

/// Commits an empty write of every table of `names`, so read transactions can open them.
fn create_tables(db: &redb::Database, names: &ModelTreeNames) {
    let txn = RedbTransaction::new_write(db).unwrap();
    {
        let tables = txn.prepare_model(names);
        assert!(tables.is_ok());
    }
    txn.commit().unwrap();
}

#[test]
fn create_then_read_in_a_later_transaction() {
    let db = memory_db();
    let names = user_names();
    let txn = RedbTransaction::new_write(&db).unwrap();
    txn.create(&names, &user(1, "a@x")).unwrap();
    txn.commit().unwrap();

    let txn = RedbTransaction::new_read(&db).unwrap();
    assert_eq!(txn.read(&names, &vec![1u8]).unwrap(), Some(user(1, "a@x")));
    assert_eq!(txn.read(&names, &vec![2u8]).unwrap(), None);
    assert_eq!(email_index(&db, "a@x"), vec![vec![1u8]]);
}

#[test]
fn read_after_create_on_the_same_tables() {
    let db = memory_db();
    let names = user_names();
    let txn = RedbTransaction::new_write(&db).unwrap();
    let mut tables = txn.prepare_model(&names).unwrap();
    assert_eq!(tables.read_default(&vec![7u8]).unwrap(), None);
    tables.create_entry(&user(7, "s@x")).unwrap();
    assert_eq!(tables.read_default(&vec![7u8]).unwrap(), Some(user(7, "s@x")));
}

#[test]
fn read_after_update() {
    let db = memory_db();
    let names = user_names();
    let txn = RedbTransaction::new_write(&db).unwrap();
    txn.create(&names, &user(1, "old@x")).unwrap();
    let mut changed = user(1, "new@x");
    changed.data = b"renamed".to_vec();
    txn.update(&names, &changed).unwrap();
    assert_eq!(txn.read(&names, &vec![1u8]).unwrap(), Some(changed));
    txn.commit().unwrap();
    assert!(email_index(&db, "old@x").is_empty());
    assert_eq!(email_index(&db, "new@x"), vec![vec![1u8]]);
}

#[test]
fn read_after_delete() {
    let db = memory_db();
    let names = user_names();
    let txn = RedbTransaction::new_write(&db).unwrap();
    txn.create(&names, &user(1, "a@x")).unwrap();
    txn.create(&names, &user(2, "b@x")).unwrap();
    txn.delete(&names, &vec![1u8]).unwrap();
    assert_eq!(txn.read(&names, &vec![1u8]).unwrap(), None);
    assert_eq!(txn.read(&names, &vec![2u8]).unwrap(), Some(user(2, "b@x")));
    txn.commit().unwrap();
    assert!(email_index(&db, "a@x").is_empty());
    assert_eq!(email_index(&db, "b@x"), vec![vec![2u8]]);
}

#[test]
fn delete_of_an_absent_key_changes_nothing() {
    let db = memory_db();
    let names = user_names();
    let txn = RedbTransaction::new_write(&db).unwrap();
    txn.create(&names, &user(1, "a@x")).unwrap();
    assert_eq!(txn.delete(&names, &vec![9u8]), Ok(()));
    assert_eq!(txn.read_all(&names).unwrap(), vec![user(1, "a@x")]);
}

#[test]
fn delete_undoes_create() {
    let db = memory_db();
    let names = user_names();
    let txn = RedbTransaction::new_write(&db).unwrap();
    txn.create(&names, &user(1, "a@x")).unwrap();
    let before = txn.read_all(&names).unwrap();
    txn.create(&names, &user(2, "b@x")).unwrap();
    txn.delete(&names, &vec![2u8]).unwrap();
    assert_eq!(txn.read_all(&names).unwrap(), before);
    txn.commit().unwrap();
    assert!(email_index(&db, "b@x").is_empty());
    assert_eq!(email_index(&db, "a@x"), vec![vec![1u8]]);
}

#[test]
fn create_of_a_present_key_is_refused() {
    let db = memory_db();
    let names = user_names();
    let txn = RedbTransaction::new_write(&db).unwrap();
    txn.create(&names, &user(1, "a@x")).unwrap();
    assert_eq!(txn.create(&names, &user(1, "other@x")), Err(NetabaseError::PrimaryKeyExists));
    assert_eq!(txn.read(&names, &vec![1u8]).unwrap(), Some(user(1, "a@x")));
}

#[test]
fn update_of_an_absent_key_is_refused() {
    let db = memory_db();
    let names = user_names();
    let txn = RedbTransaction::new_write(&db).unwrap();
    assert_eq!(txn.update(&names, &user(3, "c@x")), Err(NetabaseError::NotFound));
    assert_eq!(txn.read(&names, &vec![3u8]).unwrap(), None);
}

#[test]
fn invalid_index_reference_is_refused() {
    let db = memory_db();
    let names = user_names();
    let txn = RedbTransaction::new_write(&db).unwrap();
    let mut bad = user(1, "a@x");
    bad.indexes[0].table = 5;
    assert_eq!(txn.create(&names, &bad), Err(NetabaseError::InvalidIndexReference));
    assert_eq!(txn.read(&names, &vec![1u8]).unwrap(), None);
}

#[test]
fn corrupted_entry_is_reported() {
    let db = memory_db();
    let names = user_names();
    let txn = RedbTransaction::new_write(&db).unwrap();
    txn.create(&names, &user(1, "a@x")).unwrap();
    txn.with_write_transaction(|w| {
        let mut t = w.open_table(TableDefinition::<&[u8], &[u8]>::new("users")).unwrap();
        t.insert([2u8].as_slice(), [9u8, 9, 9].as_slice()).unwrap();
        Ok(())
    })
    .unwrap();
    assert_eq!(txn.read(&names, &vec![2u8]), Err(NetabaseError::CorruptedEntry));
    assert_eq!(txn.read_all(&names), Err(NetabaseError::CorruptedEntry));
    assert_eq!(txn.delete(&names, &vec![2u8]), Err(NetabaseError::CorruptedEntry));
    assert_eq!(txn.update(&names, &user(2, "b@x")), Err(NetabaseError::CorruptedEntry));
}

#[test]
fn read_transaction_refuses_writes() {
    let db = memory_db();
    let names = user_names();
    create_tables(&db, &names);
    let txn = RedbTransaction::new_read(&db).unwrap();
    assert_eq!(txn.create(&names, &user(1, "a@x")), Err(NetabaseError::PermissionDenied));
    assert_eq!(txn.update(&names, &user(1, "a@x")), Err(NetabaseError::PermissionDenied));
    assert_eq!(txn.delete(&names, &vec![1u8]), Err(NetabaseError::PermissionDenied));
    assert_eq!(txn.create_many(&names, &vec![user(1, "a@x")]), Err(NetabaseError::PermissionDenied));
    assert_eq!(txn.read(&names, &vec![1u8]), Ok(None));
}

#[test]
fn read_transaction_needs_existing_tables() {
    let db = memory_db();
    let txn = RedbTransaction::new_read(&db).unwrap();
    assert!(matches!(txn.read(&user_names(), &vec![1u8]), Err(NetabaseError::RedbTableError(_))));
}

#[test]
fn relational_tables_without_permission_refuse_writes() {
    let db = memory_db();
    let names = user_names();
    let txn = RedbTransaction::new_write(&db).unwrap();
    let mut tables = txn.open_model_tables(&names, None).unwrap();
    assert!(matches!(tables.relational[0].0, TablePermission::ReadOnlyWrite(ReadWriteTableType::MultimapTable(_))));
    let mut entry = user(1, "a@x");
    entry.indexes.push(IndexEntry { category: TreeCategory::Relational, table: 0, key: vec![5], value: vec![1] });
    assert_eq!(tables.create_entry(&entry), Err(NetabaseError::PermissionDenied));
    assert_eq!(tables.read_default(&vec![1u8]), Ok(None));
    assert_eq!(tables.create_entry(&user(1, "a@x")), Ok(()));
}

#[test]
fn open_model_tables_follows_the_permissions() {
    let db = memory_db();
    let users = user_names();
    let posts = post_names();
    let txn = RedbTransaction::new_write(&db).unwrap();
    {
        // A permission that names another model's relational table does not open this one.
        let perms = ModelRelationPermissions { relationa_tree_access: vec![RelationPermission(&posts, PermissionFlag::ReadWrite)] };
        let tables = txn.open_model_tables(&users, Some(&perms)).unwrap();
        assert!(matches!(tables.main, TablePermission::ReadWrite(ReadWriteTableType::Table(_))));
        assert!(matches!(tables.secondary[0].0, TablePermission::ReadWrite(_)));
        assert!(matches!(tables.blob[0].0, TablePermission::ReadWrite(_)));
        assert!(matches!(tables.relational[0].0, TablePermission::ReadOnlyWrite(_)));
        assert!(matches!(tables.subscription[0].0, TablePermission::ReadWrite(_)));
        assert_eq!(tables.relational[0].1, "users_posts");
        assert_eq!(tables.subscription.len(), 1);
    }
    {
        let perms = ModelRelationPermissions {
            relationa_tree_access: vec![
                RelationPermission(&posts, PermissionFlag::ReadWrite),
                RelationPermission(&users, PermissionFlag::ReadWrite),
            ],
        };
        let tables = txn.open_model_tables(&users, Some(&perms)).unwrap();
        assert!(matches!(tables.relational[0].0, TablePermission::ReadWrite(_)));
    }
    {
        let tables = txn.open_model_tables(&posts, None).unwrap();
        assert!(tables.subscription.is_empty());
        assert!(matches!(tables.relational[0].0, TablePermission::ReadOnlyWrite(_)));
    }
    txn.commit().unwrap();

    let txn = RedbTransaction::new_read(&db).unwrap();
    let perms = ModelRelationPermissions { relationa_tree_access: vec![RelationPermission(&users, PermissionFlag::ReadWrite)] };
    let tables = txn.open_model_tables(&users, Some(&perms)).unwrap();
    assert!(matches!(tables.main, TablePermission::ReadOnly(TableType::Table(_))));
    assert!(matches!(tables.relational[0].0, TablePermission::ReadOnly(TableType::MultimapTable(_))));
    assert!(matches!(tables.secondary[0].0, TablePermission::ReadOnly(TableType::MultimapTable(_))));
}

#[test]
fn prepare_model_opens_every_table_read_write() {
    let db = memory_db();
    let names = user_names();
    let txn = RedbTransaction::new_write(&db).unwrap();
    let tables = txn.prepare_model(&names).unwrap();
    assert!(matches!(tables.main, TablePermission::ReadWrite(_)));
    for list in [&tables.secondary, &tables.blob, &tables.relational, &tables.subscription] {
        for (p, _) in list.iter() {
            assert!(matches!(p, TablePermission::ReadWrite(ReadWriteTableType::MultimapTable(_))));
        }
    }
}

#[test]
fn a_table_named_twice_fails_to_open() {
    let db = memory_db();
    let mut names = user_names();
    names.blob = vec![dtn("users_email")];
    let txn = RedbTransaction::new_write(&db).unwrap();
    assert!(matches!(txn.prepare_model(&names), Err(NetabaseError::RedbTableError(_))));
}

#[test]
fn relational_flag_takes_the_first_permission_that_names_the_table() {
    let users = user_names();
    let posts = post_names();
    let name = "users_posts".to_string();
    assert_eq!(relational_permission_flag(None, &name), PermissionFlag::ReadOnly);
    let perms = ModelRelationPermissions {
        relationa_tree_access: vec![
            RelationPermission(&posts, PermissionFlag::ReadWrite),
            RelationPermission(&users, PermissionFlag::ReadOnly),
            RelationPermission(&users, PermissionFlag::ReadWrite),
        ],
    };
    assert_eq!(relational_permission_flag(Some(&perms), &name), PermissionFlag::ReadOnly);
    assert_eq!(relational_permission_flag(Some(&perms), &"posts_author".to_string()), PermissionFlag::ReadWrite);
    assert_eq!(relational_permission_flag(Some(&perms), &"missing".to_string()), PermissionFlag::ReadOnly);
    assert!(names_contain(&users.relational, &name));
    assert!(!names_contain(&users.secondary, &name));
}

#[test]
fn read_all_lists_in_key_order() {
    let db = memory_db();
    let names = user_names();
    let txn = RedbTransaction::new_write(&db).unwrap();
    txn.create(&names, &user(3, "c@x")).unwrap();
    txn.create(&names, &user(1, "a@x")).unwrap();
    txn.create(&names, &user(2, "b@x")).unwrap();
    assert_eq!(txn.read_all(&names).unwrap(), vec![user(1, "a@x"), user(2, "b@x"), user(3, "c@x")]);
}

#[test]
fn create_many_stops_at_the_first_failure() {
    let db = memory_db();
    let names = user_names();
    let txn = RedbTransaction::new_write(&db).unwrap();
    let r = txn.create_many(&names, &vec![user(1, "a@x"), user(2, "b@x"), user(1, "c@x"), user(4, "d@x")]);
    assert_eq!(r, Err(NetabaseError::PrimaryKeyExists));
    assert_eq!(txn.read_all(&names).unwrap(), vec![user(1, "a@x"), user(2, "b@x")]);
    assert_eq!(txn.create_many(&names, &vec![]), Ok(()));
}

#[test]
fn delete_many_removes_each_key() {
    let db = memory_db();
    let names = user_names();
    let txn = RedbTransaction::new_write(&db).unwrap();
    txn.create_many(&names, &vec![user(1, "a@x"), user(2, "b@x"), user(3, "c@x")]).unwrap();
    txn.delete_many(&names, &vec![vec![1u8], vec![3u8], vec![8u8]]).unwrap();
    assert_eq!(txn.read_all(&names).unwrap(), vec![user(2, "b@x")]);
}

#[test]
fn raw_transaction_access_matches_the_kind() {
    let db = memory_db();
    let txn = RedbTransaction::new_write(&db).unwrap();
    assert_eq!(txn.with_read_transaction(|_| Ok(1)), Err(NetabaseError::Other));
    assert_eq!(txn.with_write_transaction(|_| Ok(2)), Ok(2));
    assert_eq!(txn.read_fn(|_| Ok(3)), Err(NetabaseError::Other));
    assert_eq!(txn.write(|_| Ok(4)), Ok(4));
    txn.commit().unwrap();

    let txn = RedbTransaction::new_read(&db).unwrap();
    assert_eq!(txn.with_read_transaction(|_| Ok(1)), Ok(1));
    assert_eq!(txn.with_write_transaction(|_| Ok(2)), Err(NetabaseError::Other));
    assert_eq!(txn.read_fn(|_| Ok(3)), Ok(3));
    assert_eq!(txn.write(|_| Ok(4)), Err(NetabaseError::Other));
    assert_eq!(txn.commit(), Ok(()));
}

#[test]
fn new_begins_a_write_transaction() {
    let db = memory_db();
    let txn = RedbTransaction::new(&db).unwrap();
    assert_eq!(txn.with_write_transaction(|_| Ok(())), Ok(()));
    assert!(txn.can_access_definition());
    txn.commit().unwrap();
}

#[test]
fn uncommitted_writes_are_not_seen() {
    let db = memory_db();
    let names = user_names();
    create_tables(&db, &names);
    {
        let txn = RedbTransaction::new_write(&db).unwrap();
        txn.create(&names, &user(1, "a@x")).unwrap();
    }
    let txn = RedbTransaction::new_read(&db).unwrap();
    assert_eq!(txn.read(&names, &vec![1u8]).unwrap(), None);
}

#[test]
fn read_by_secondary_finds_the_models_with_that_key() {
    let db = memory_db();
    let names = user_names();
    let txn = RedbTransaction::new_write(&db).unwrap();
    let mut c = user(3, "alice@x");
    c.indexes.push(IndexEntry { category: TreeCategory::Blob, table: 0, key: b"bob@x".to_vec(), value: vec![3] });
    txn.create(&names, &user(2, "alice@x")).unwrap();
    txn.create(&names, &user(1, "bob@x")).unwrap();
    txn.create(&names, &c).unwrap();
    assert_eq!(txn.read_by_secondary(&names, &b"alice@x".to_vec()).unwrap(), vec![user(2, "alice@x"), c.clone()]);
    // A blob key is no secondary key.
    assert_eq!(txn.read_by_secondary(&names, &b"bob@x".to_vec()).unwrap(), vec![user(1, "bob@x")]);
    assert!(txn.read_by_secondary(&names, &b"carol@x".to_vec()).unwrap().is_empty());
    txn.commit().unwrap();
    let txn = RedbTransaction::new_read(&db).unwrap();
    assert_eq!(txn.read_by_secondary(&names, &b"alice@x".to_vec()).unwrap(), vec![user(2, "alice@x"), c]);
}

#[test]
fn query_caps_the_results_at_the_limit() {
    let db = memory_db();
    let names = user_names();
    let txn = RedbTransaction::new_write(&db).unwrap();
    for id in [4u8, 1, 3, 2] {
        txn.create(&names, &user(id, &format!("{}@x", id))).unwrap();
    }
    let all: Vec<ModelEntry> = (1u8..=4).map(|id| user(id, &format!("{}@x", id))).collect();
    match txn.query(&names, QueryConfig { limit: Some(2) }).unwrap() {
        QueryResult::Multiple(v) => assert_eq!(v, all[..2].to_vec()),
    }
    match txn.query(&names, QueryConfig { limit: Some(10) }).unwrap() {
        QueryResult::Multiple(v) => assert_eq!(v, all),
    }
    match txn.query(&names, QueryConfig { limit: None }).unwrap() {
        QueryResult::Multiple(v) => assert_eq!(v, all),
    }
    match txn.query(&names, QueryConfig { limit: Some(0) }).unwrap() {
        QueryResult::Multiple(v) => assert!(v.is_empty()),
    }
}

#[test]
fn stored_form_is_length_prefixed() {
    let e = ModelEntry { primary_key: vec![9], data: vec![1, 2], indexes: vec![] };
    assert_eq!(encode_model(&e), vec![2, 0, 0, 0, 0, 0, 0, 0, 1, 2, 0, 0, 0, 0, 0, 0, 0, 0]);
    let f = ModelEntry {
        primary_key: vec![],
        data: vec![],
        indexes: vec![IndexEntry { category: TreeCategory::Blob, table: 258, key: vec![7], value: vec![] }],
    };
    let mut expected = vec![0u8; 8];
    expected.extend([1, 0, 0, 0, 0, 0, 0, 0]);
    expected.push(1);
    expected.extend([2, 1, 0, 0, 0, 0, 0, 0]);
    expected.extend([1, 0, 0, 0, 0, 0, 0, 0, 7]);
    expected.extend([0, 0, 0, 0, 0, 0, 0, 0]);
    assert_eq!(encode_model(&f), expected);
}

#[test]
fn decode_gives_back_what_encode_stored() {
    let e = ModelEntry {
        primary_key: vec![4, 2],
        data: b"payload".to_vec(),
        indexes: vec![
            IndexEntry { category: TreeCategory::Secondary, table: 0, key: b"k".to_vec(), value: vec![4, 2] },
            IndexEntry { category: TreeCategory::Subscription, table: 3, key: vec![], value: vec![1, 1, 1] },
        ],
    };
    let bytes = encode_model(&e);
    assert_eq!(decode_model(&e.primary_key, &bytes), Some(e.clone()));
    assert_eq!(decode_model(&e.primary_key, &bytes[..bytes.len() - 1].to_vec()), None);
    let mut longer = bytes.clone();
    longer.push(0);
    assert_eq!(decode_model(&e.primary_key, &longer), None);
    let mut bad_tag = bytes.clone();
    bad_tag[8 + 7 + 8] = 9;
    assert_eq!(decode_model(&e.primary_key, &bad_tag), None);
}

#[test]
fn the_first_list_that_failed_gives_the_error() {
    let db = memory_db();
    let names = user_names();
    let txn = RedbTransaction::new_write(&db).unwrap();
    let err = |s: &str| NetabaseError::RedbTableError(s.to_string());
    {
        let t = txn.prepare_model(&names).unwrap();
        let r = assemble_model_tables(t.main, Ok(vec![]), Err(err("blob")), Err(err("relational")), Err(err("subscription")));
        assert_eq!(r.err(), Some(err("blob")));
    }
    {
        let t = txn.prepare_model(&names).unwrap();
        let r = assemble_model_tables(t.main, Err(err("secondary")), Ok(vec![]), Ok(vec![]), Err(err("subscription")));
        assert_eq!(r.err(), Some(err("secondary")));
    }
    {
        let t = txn.prepare_model(&names).unwrap();
        let r = assemble_model_tables(t.main, Ok(vec![]), Ok(vec![]), Ok(vec![]), Err(err("subscription")));
        assert_eq!(r.err(), Some(err("subscription")));
    }
    {
        let t = txn.prepare_model(&names).unwrap();
        let r = assemble_model_tables(t.main, Ok(vec![]), Ok(t.blob), Ok(vec![]), Ok(vec![])).unwrap();
        assert_eq!(r.blob.len(), 1);
        assert!(r.secondary.is_empty());
    }
}

#[test]
fn begun_transactions_keep_their_kind() {
    let db = memory_db();
    let txn = RedbTransaction::from_write_begun(db.begin_write()).unwrap();
    assert_eq!(txn.with_write_transaction(|_| Ok(())), Ok(()));
    txn.commit().unwrap();
    let txn = RedbTransaction::from_read_begun(db.begin_read()).unwrap();
    assert_eq!(txn.with_read_transaction(|_| Ok(())), Ok(()));
}

#[test]
fn a_pair_shared_by_two_entries_goes_with_the_first_deleted() {
    let db = memory_db();
    let names = user_names();
    let txn = RedbTransaction::new_write(&db).unwrap();
    let mut a = user(1, "team@x");
    let mut b = user(2, "team@x");
    a.indexes[0].value = b"team".to_vec();
    b.indexes[0].value = b"team".to_vec();
    txn.create(&names, &a).unwrap();
    txn.create(&names, &b).unwrap();
    txn.delete(&names, &vec![1u8]).unwrap();
    assert_eq!(txn.read(&names, &vec![2u8]).unwrap(), Some(b));
    txn.commit().unwrap();
    // Entry 2 still lists the pair, but the shared pair went with entry 1.
    assert!(email_index(&db, "team@x").is_empty());
}

#[test]
fn open_tables_support_batches() {
    let db = memory_db();
    let names = user_names();
    let txn = RedbTransaction::new_write(&db).unwrap();
    {
        let mut tables = txn.prepare_model(&names).unwrap();
        for id in [5u8, 3, 4] {
            tables.create_entry(&user(id, &format!("{}@x", id))).unwrap();
        }
        let mut changed = user(4, "four@x");
        changed.data = b"four".to_vec();
        tables.update_entry(&changed).unwrap();
        assert_eq!(tables.read_default(&vec![4u8]).unwrap(), Some(changed.clone()));
        tables.delete_entry(&vec![3u8]).unwrap();
        assert_eq!(tables.read_default(&vec![3u8]).unwrap(), None);
        assert_eq!(tables.list_default().unwrap(), vec![changed, user(5, "5@x")]);
        assert_eq!(tables.update_entry(&user(3, "3@x")), Err(NetabaseError::NotFound));
        assert_eq!(tables.create_entry(&user(5, "again@x")), Err(NetabaseError::PrimaryKeyExists));
    }
    txn.commit().unwrap();
    assert_eq!(email_index(&db, "four@x"), vec![vec![4u8]]);
    assert!(email_index(&db, "4@x").is_empty());
    assert!(email_index(&db, "3@x").is_empty());
}

#[test]
fn read_only_tables_refuse_every_write() {
    let db = memory_db();
    let names = user_names();
    let txn = RedbTransaction::new_write(&db).unwrap();
    txn.create(&names, &user(1, "a@x")).unwrap();
    txn.commit().unwrap();

    let txn = RedbTransaction::new_read(&db).unwrap();
    let mut tables = txn.prepare_model(&names).unwrap();
    assert!(matches!(tables.main, TablePermission::ReadOnly(TableType::Table(_))));
    assert_eq!(tables.create_entry(&user(2, "b@x")), Err(NetabaseError::PermissionDenied));
    assert_eq!(tables.update_entry(&user(1, "b@x")), Err(NetabaseError::PermissionDenied));
    assert_eq!(tables.delete_entry(&vec![1u8]), Err(NetabaseError::PermissionDenied));
    assert_eq!(tables.list_default().unwrap(), vec![user(1, "a@x")]);
    assert_eq!(tables.read_default(&vec![1u8]).unwrap(), Some(user(1, "a@x")));
}

#[test]
fn commit_result_follows_redb() {
    let db = memory_db();
    let txn = db.begin_write().unwrap();
    assert_eq!(NetabaseRedbWriteTransaction::from_commit(txn.commit()), Ok(()));
    let txn = NetabaseRedbWriteTransaction::new(db.begin_write().unwrap());
    assert_eq!(txn.commit(), Ok(()));
}

#[test]
fn updating_twice_is_updating_once() {
    let db = memory_db();
    let names = user_names();
    let txn = RedbTransaction::new_write(&db).unwrap();
    {
        let mut tables = txn.prepare_model(&names).unwrap();
        tables.create_entry(&user(1, "a@x")).unwrap();
        let mut changed = user(1, "b@x");
        changed.data = b"changed".to_vec();
        tables.update_entry(&changed).unwrap();
        let once = tables.list_default().unwrap();
        tables.update_entry(&changed).unwrap();
        assert_eq!(tables.list_default().unwrap(), once);
    }
    txn.commit().unwrap();
    assert_eq!(email_index(&db, "b@x"), vec![vec![1u8]]);
    assert!(email_index(&db, "a@x").is_empty());
}

#[test]
fn deleting_twice_is_deleting_once() {
    let db = memory_db();
    let names = user_names();
    let txn = RedbTransaction::new_write(&db).unwrap();
    {
        let mut tables = txn.prepare_model(&names).unwrap();
        tables.create_entry(&user(1, "a@x")).unwrap();
        tables.create_entry(&user(2, "b@x")).unwrap();
        tables.delete_entry(&vec![1u8]).unwrap();
        let once = tables.list_default().unwrap();
        assert_eq!(tables.delete_entry(&vec![1u8]), Ok(()));
        assert_eq!(tables.list_default().unwrap(), once);
    }
    txn.commit().unwrap();
    assert!(email_index(&db, "a@x").is_empty());
    assert_eq!(email_index(&db, "b@x"), vec![vec![2u8]]);
}
