//! Stores, the roots of the hierarchy.

use crate::db::{
    has_key, lemma_kept_rows, lemma_push_row, lemma_replace_row, next_id, position, select, Db,
    DbError, Keyed,
};
use crate::rank::{sort, stable_sort, Ranked};
use crate::store::item::Item;
use crate::store::section::Section;
use crate::text::{
    lemma_text_le_antisymmetric, lemma_text_le_total, lemma_text_le_transitive, name_le, text_le,
};
use vstd::prelude::*;

verus! {

/// A store. Times are nanoseconds since the Unix epoch.
#[derive(Debug)]
pub struct Store {
    pub id: i64,
    pub name: String,
    pub created_at: i128,
    pub updated_at: i128,
}

impl Clone for Store {
    fn clone(&self) -> (copy: Store)
        ensures
            copy == *self,
    {
        Store {
            id: self.id,
            name: self.name.clone(),
            created_at: self.created_at,
            updated_at: self.updated_at,
        }
    }
}

/// A store with the name and last change of `a` may stand before one with
/// those of `b`: by name ascending, and of two with one name the one changed
/// last first.
pub open spec fn store_precedes(
    a_name: Seq<char>,
    a_updated_at: i128,
    b_name: Seq<char>,
    b_updated_at: i128,
) -> bool {
    if a_name == b_name {
        a_updated_at >= b_updated_at
    } else {
        text_le(a_name, b_name)
    }
}

impl Ranked for Store {
    open spec fn precedes(&self, other: &Self) -> bool {
        store_precedes(self.name@, self.updated_at, other.name@, other.updated_at)
    }

    fn stands_before(&self, other: &Self) -> (before: bool) {
        if self.name == other.name {
            self.updated_at >= other.updated_at
        } else {
            name_le(self.name.as_str(), other.name.as_str())
        }
    }

    proof fn precedes_is_total(a: &Self, b: &Self) {
        lemma_text_le_total(a.name@, b.name@);
    }

    proof fn precedes_is_transitive(a: &Self, b: &Self, c: &Self) {
        if a.name@ != b.name@ && b.name@ != c.name@ {
            lemma_text_le_transitive(a.name@, b.name@, c.name@);
            if a.name@ == c.name@ {
                lemma_text_le_antisymmetric(a.name@, b.name@);
            }
        }
    }
}

/// The predicate "not the store with the id".
pub open spec fn other_store(id: i64) -> spec_fn(Store) -> bool {
    |store: Store| store.id != id
}

/// The predicate "not a section of the store".
pub open spec fn section_outside(store_id: i64) -> spec_fn(Section) -> bool {
    |section: Section| section.store_id != store_id
}

/// The predicate "not an item of the store".
pub open spec fn item_outside(store_id: i64) -> spec_fn(Item) -> bool {
    |item: Item| item.store_id != Some(store_id)
}

/// The predicate "one of the ids".
pub open spec fn among(ids: Seq<i64>) -> spec_fn(Store) -> bool {
    |store: Store| ids.contains(store.id)
}

/// Adds a store under the next id.
pub fn create(db: &mut Db, name: &str, now: i128) -> (created: Result<Store, DbError>)
    requires
        old(db).wf(),
    ensures
        final(db).wf(),
        old(db).last_store_id == i64::MAX ==> created == Err::<Store, DbError>(DbError::OutOfRange)
            && *final(db) == *old(db),
        old(db).last_store_id < i64::MAX ==> created is Ok && {
            let store = created->Ok_0;
            &&& store.id == old(db).last_store_id + 1
            &&& store.name@ == name@
            &&& store.created_at == now
            &&& store.updated_at == now
            &&& final(db).stores@ == old(db).stores@.push(store)
            &&& final(db).last_store_id == store.id
            &&& final(db).sections == old(db).sections
            &&& final(db).items == old(db).items
            &&& final(db).last_section_id == old(db).last_section_id
            &&& final(db).last_item_id == old(db).last_item_id
        },
{
    let id = match next_id(db.last_store_id) {
        Ok(id) => id,
        Err(error) => {
            return Err(error);
        },
    };
    let store = Store { id, name: name.to_owned(), created_at: now, updated_at: now };
    proof {
        lemma_push_row(db.stores@, store, db.last_store_id);
    }
    db.stores.push(store.clone());
    db.last_store_id = id;
    Ok(store)
}

/// All stores by name, and of those with one name the one changed last first.
pub fn list(db: &Db) -> (stores: Vec<Store>)
    ensures
        stores@ == stable_sort(db.stores@),
{
    sort(copy_stores(&db.stores))
}

/// Renames the store.
pub fn update(db: &mut Db, id: i64, name: &str, now: i128) -> (updated: Result<Store, DbError>)
    requires
        old(db).wf(),
    ensures
        final(db).wf(),
        !has_key(old(db).stores@, id) ==> updated == Err::<Store, DbError>(DbError::RowNotFound)
            && *final(db) == *old(db),
        has_key(old(db).stores@, id) ==> updated is Ok && exists|at: int|
            {
                let store = updated->Ok_0;
                &&& 0 <= at < old(db).stores@.len()
                &&& (#[trigger] old(db).stores@[at]).id == id
                &&& store.id == id
                &&& store.name@ == name@
                &&& store.created_at == old(db).stores@[at].created_at
                &&& store.updated_at == now
                &&& final(db).stores@ == old(db).stores@.update(at, store)
                &&& final(db).sections == old(db).sections
                &&& final(db).items == old(db).items
                &&& final(db).last_store_id == old(db).last_store_id
                &&& final(db).last_section_id == old(db).last_section_id
                &&& final(db).last_item_id == old(db).last_item_id
            },
{
    let at = match position(&db.stores, id) {
        Some(at) => at,
        None => {
            return Err(DbError::RowNotFound);
        },
    };
    let store = Store {
        id,
        name: name.to_owned(),
        created_at: db.stores[at].created_at,
        updated_at: now,
    };
    proof {
        lemma_replace_row(db.stores@, at as int, store, db.last_store_id);
    }
    db.stores[at] = store.clone();
    Ok(store)
}

/// Removes the store, and with it its sections and its items.
pub fn delete(db: &mut Db, id: i64)
    requires
        old(db).wf(),
    ensures
        final(db).wf(),
        final(db).stores@ == old(db).stores@.filter(other_store(id)),
        final(db).sections@ == old(db).sections@.filter(section_outside(id)),
        final(db).items@ == old(db).items@.filter(item_outside(id)),
        final(db).last_store_id == old(db).last_store_id,
        final(db).last_section_id == old(db).last_section_id,
        final(db).last_item_id == old(db).last_item_id,
{
    let stores = stores_except(&db.stores, id);
    let sections = sections_outside(&db.sections, id);
    let items = items_outside(&db.items, id);
    proof {
        lemma_kept_rows(db.stores@, other_store(id), db.last_store_id);
        lemma_kept_rows(db.sections@, section_outside(id), db.last_section_id);
        lemma_kept_rows(db.items@, item_outside(id), db.last_item_id);
        assert forall|store_id: i64| has_key(db.stores@, store_id) && store_id != id implies has_key(
            stores@,
            store_id,
        ) by {
            let w = choose|w: int| 0 <= w < db.stores@.len() && (#[trigger] db.stores@[w]).key() == store_id;
            assert(stores@.contains(db.stores@[w]));
            let k = choose|k: int| 0 <= k < stores@.len() && stores@[k] == db.stores@[w];
            assert(stores@[k].key() == store_id);
        }
        assert forall|i: int| 0 <= i < sections@.len() implies has_key(
            stores@,
            (#[trigger] sections@[i]).store_id,
        ) by {
            let w = choose|w: int| 0 <= w < db.sections@.len() && db.sections@[w] == sections@[i];
            assert(has_key(db.stores@, db.sections@[w].store_id));
        }
        assert forall|i: int| 0 <= i < items@.len() implies crate::db::placed(
            #[trigger] items@[i],
            stores@,
            sections@,
        ) by {
            let w = choose|w: int| 0 <= w < db.items@.len() && db.items@[w] == items@[i];
            let item = db.items@[w];
            assert(crate::db::placed(item, db.stores@, db.sections@));
            if item.section_id is Some {
                let v = choose|v: int|
                    0 <= v < db.sections@.len() && (#[trigger] db.sections@[v]).id
                        == item.section_id->0 && db.sections@[v].store_id == item.store_id->0;
                assert(sections@.contains(db.sections@[v]));
                let k = choose|k: int| 0 <= k < sections@.len() && sections@[k] == db.sections@[v];
                assert(sections@[k].id == item.section_id->0);
            }
        }
    }
    db.stores = stores;
    db.sections = sections;
    db.items = items;
}

/// The store with the id, if there is one.
pub fn get(db: &Db, id: i64) -> (store: Option<Store>)
    ensures
        store is None <==> !has_key(db.stores@, id),
        store matches Some(found) ==> found.id == id && db.stores@.contains(found),
{
    match position(&db.stores, id) {
        Some(at) => Some(db.stores[at].clone()),
        None => None,
    }
}

/// The stores whose id is one of `ids`, in the order of the rows.
pub fn list_for_ids(db: &Db, ids: &Vec<i64>) -> (stores: Vec<Store>)
    ensures
        stores@ == db.stores@.filter(among(ids@)),
{
    let keep = |store: &Store| -> (keep: bool)
        ensures
            keep == ids@.contains(store.id),
        { holds(ids, store.id) };
    select(&db.stores, keep, Ghost(among(ids@)))
}

/// A copy of the rows.
pub fn copy_stores(stores: &Vec<Store>) -> (copy: Vec<Store>)
    ensures
        copy@ == stores@,
{
    let mut copy: Vec<Store> = Vec::new();
    let mut at: usize = 0;
    while at < stores.len()
        invariant
            at <= stores.len(),
            copy@ == stores@.take(at as int),
        decreases stores.len() - at,
    {
        copy.push(stores[at].clone());
        proof {
            assert(stores@.take(at + 1) =~= stores@.take(at as int).push(stores@[at as int]));
        }
        at += 1;
    }
    proof {
        assert(stores@.take(at as int) =~= stores@);
    }
    copy
}

/// The id is one of `ids`.
pub fn holds(ids: &Vec<i64>, id: i64) -> (found: bool)
    ensures
        found == ids@.contains(id),
{
    let mut at: usize = 0;
    while at < ids.len()
        invariant
            at <= ids.len(),
            forall|i: int| 0 <= i < at ==> ids@[i] != id,
        decreases ids.len() - at,
    {
        if ids[at] == id {
            return true;
        }
        at += 1;
    }
    false
}

/// The stores but the one with the id.
fn stores_except(stores: &Vec<Store>, id: i64) -> (kept: Vec<Store>)
    ensures
        kept@ == stores@.filter(other_store(id)),
{
    let keep = |store: &Store| -> (keep: bool)
        ensures
            keep == (store.id != id),
        { store.id != id };
    select(stores, keep, Ghost(other_store(id)))
}

/// The sections of other stores.
fn sections_outside(sections: &Vec<Section>, store_id: i64) -> (kept: Vec<Section>)
    ensures
        kept@ == sections@.filter(section_outside(store_id)),
{
    let keep = |section: &Section| -> (keep: bool)
        ensures
            keep == (section.store_id != store_id),
        { section.store_id != store_id };
    select(sections, keep, Ghost(section_outside(store_id)))
}

/// The items that are not the store's.
fn items_outside(items: &Vec<Item>, store_id: i64) -> (kept: Vec<Item>)
    ensures
        kept@ == items@.filter(item_outside(store_id)),
{
    let keep = |item: &Item| -> (keep: bool)
        ensures
            keep == (item.store_id != Some(store_id)),
        { !crate::store::item::same_id(item.store_id, Some(store_id)) };
    select(items, keep, Ghost(item_outside(store_id)))
}

} // verus!
