//! A model's table names and the permissions that decide, in a write
//! transaction, which relational tables may be written.
use crate::codec::TreeCategory;
use vstd::prelude::*;

verus! {

/// Whether a table may be written.
#[derive(Clone, Copy, Debug, PartialEq, Eq, Structural)]
pub enum PermissionFlag {
    ReadOnly,
    ReadWrite,
}

/// A table name, with the name of the key discriminant it stores.
#[derive(Clone, Debug)]
pub struct DiscriminantTableName {
    pub discriminant: String,
    pub table_name: String,
}

/// The tables of one model: the main table, which maps primary keys to
/// entries, and four lists of multimap tables.
#[derive(Clone, Debug)]
pub struct ModelTreeNames {
    pub main: DiscriminantTableName,
    pub secondary: Vec<DiscriminantTableName>,
    pub blob: Vec<DiscriminantTableName>,
    pub relational: Vec<DiscriminantTableName>,
    pub subscription: Option<Vec<DiscriminantTableName>>,
}

/// Access to the relational tables of one model, as a flag.
pub struct RelationPermission<'a>(pub &'a ModelTreeNames, pub PermissionFlag);

/// The relational access granted for one operation, in order: the first
/// entry that names a table decides its flag.
pub struct ModelRelationPermissions<'a> {
    pub relationa_tree_access: Vec<RelationPermission<'a>>,
}

/// The table names of a list, in order.
pub open spec fn table_names(v: Seq<DiscriminantTableName>) -> Seq<Seq<char>> {
    v.map_values(|d: DiscriminantTableName| d.table_name@)
}

impl ModelTreeNames {
    /// The subscription table names; none when there is no subscription
    /// list.
    pub open spec fn subscription_names(&self) -> Seq<Seq<char>> {
        match self.subscription {
            Some(v) => table_names(v@),
            None => Seq::empty(),
        }
    }

    /// The number of multimap tables in list `c`.
    pub open spec fn category_len(&self, c: TreeCategory) -> nat {
        match c {
            TreeCategory::Secondary => self.secondary@.len(),
            TreeCategory::Blob => self.blob@.len(),
            TreeCategory::Relational => self.relational@.len(),
            TreeCategory::Subscription => self.subscription_names().len(),
        }
    }

    /// Every table name is non-empty (redb refuses an empty one).
    pub open spec fn wf(&self) -> bool {
        &&& self.main.table_name@.len() > 0
        &&& forall|i: int| 0 <= i < self.secondary@.len() ==> (#[trigger] self.secondary@[i]).table_name@.len() > 0
        &&& forall|i: int| 0 <= i < self.blob@.len() ==> (#[trigger] self.blob@[i]).table_name@.len() > 0
        &&& forall|i: int| 0 <= i < self.relational@.len() ==> (#[trigger] self.relational@[i]).table_name@.len() > 0
        &&& self.subscription matches Some(v) ==> forall|i: int| 0 <= i < v@.len() ==> (#[trigger] v@[i]).table_name@.len() > 0
    }
}

/// The permission names `name` among its model's relational tables.
pub open spec fn grants(p: RelationPermission, name: Seq<char>) -> bool {
    table_names(p.0.relational@).contains(name)
}

/// The flag of the first permission from position `i` on that names `name`.
pub open spec fn first_grant_from(ps: Seq<RelationPermission>, name: Seq<char>, i: int) -> Option<PermissionFlag>
    decreases ps.len() - i,
{
    if i < 0 || i >= ps.len() {
        None
    } else if grants(ps[i], name) {
        Some(ps[i].1)
    } else {
        first_grant_from(ps, name, i + 1)
    }
}

/// The flag a relational table gets in a write transaction: that of the
/// first permission naming it, and read-only where none does or no
/// permissions were given.
pub open spec fn relational_flag(perms: Option<&ModelRelationPermissions>, name: Seq<char>) -> PermissionFlag {
    match perms {
        Some(p) => match first_grant_from(p.relationa_tree_access@, name, 0) {
            Some(f) => f,
            None => PermissionFlag::ReadOnly,
        },
        None => PermissionFlag::ReadOnly,
    }
}

/// The first permission that names a relational table decides its flag:
/// where permission `i` names it and none before does, the table gets
/// permission `i`'s flag, whatever the later ones say.
pub proof fn lemma_first_permission_decides(perms: &ModelRelationPermissions, name: Seq<char>, i: int)
    requires
        0 <= i < perms.relationa_tree_access@.len(),
        grants(perms.relationa_tree_access@[i], name),
        forall|j: int| 0 <= j < i ==> !grants(#[trigger] perms.relationa_tree_access@[j], name),
    ensures
        relational_flag(Some(perms), name) == perms.relationa_tree_access@[i].1,
{
    lemma_first_grant_skips(perms.relationa_tree_access@, name, 0, i);
}

proof fn lemma_first_grant_skips(ps: Seq<RelationPermission>, name: Seq<char>, j: int, i: int)
    requires
        0 <= j <= i < ps.len(),
        grants(ps[i], name),
        forall|k: int| j <= k < i ==> !grants(#[trigger] ps[k], name),
    ensures
        first_grant_from(ps, name, j) == Some(ps[i].1),
    decreases i - j,
{
    if j < i {
        lemma_first_grant_skips(ps, name, j + 1, i);
    }
}

/// Whether `names` holds a table named `name`.
pub fn names_contain(names: &Vec<DiscriminantTableName>, name: &String) -> (r: bool)
    ensures
        r == table_names(names@).contains(name@),
{
    let mut i: usize = 0;
    while i < names.len()
        invariant
            0 <= i <= names.len(),
            forall|j: int| 0 <= j < i ==> (#[trigger] names@[j]).table_name@ != name@,
        decreases names.len() - i,
    {
        if names[i].table_name == *name {
            assert(table_names(names@)[i as int] == name@);
            return true;
        }
        i = i + 1;
    }
    proof {
        if table_names(names@).contains(name@) {
            let j = choose|j: int| 0 <= j < table_names(names@).len() && table_names(names@)[j] == name@;
            assert(names@[j].table_name@ == name@);
        }
    }
    false
}

/// The flag a relational table named `table_name` gets in a write
/// transaction under `perms`.
pub fn relational_permission_flag(perms: Option<&ModelRelationPermissions>, table_name: &String) -> (f: PermissionFlag)
    ensures
        f == relational_flag(perms, table_name@),
{
    match perms {
        None => PermissionFlag::ReadOnly,
        Some(p) => {
            let ps = &p.relationa_tree_access;
            let mut i: usize = 0;
            while i < ps.len()
                invariant
                    0 <= i <= ps.len(),
                    perms == Some(p),
                    ps@ == p.relationa_tree_access@,
                    first_grant_from(ps@, table_name@, 0) == first_grant_from(ps@, table_name@, i as int),
                decreases ps.len() - i,
            {
                if names_contain(&ps[i].0.relational, table_name) {
                    assert(grants(ps@[i as int], table_name@));
                    return ps[i].1;
                }
                i = i + 1;
            }
            PermissionFlag::ReadOnly
        },
    }
}

} // verus!
