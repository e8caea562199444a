//! The stores, as a caller sees them.

use crate::db::{has_key, Db, DbError};
use crate::handler::{Problem, STATUS_INTERNAL_SERVER_ERROR, STATUS_NOT_FOUND};
use crate::rank::stable_sort;
use crate::store::shop::{item_outside, other_store, section_outside, Store};
use vstd::prelude::*;

verus! {

/// What a caller gives to name a store.
#[derive(Debug)]
pub struct StoreNameReq {
    pub name: String,
}

/// Adds a store. An id out of range is an internal failure.
pub fn create(db: &mut Db, req: StoreNameReq, now: i128) -> (created: Result<Store, Problem>)
    requires
        old(db).wf(),
    ensures
        final(db).wf(),
        old(db).last_store_id == i64::MAX ==> created is Err && created->Err_0.status
            == STATUS_INTERNAL_SERVER_ERROR && *final(db) == *old(db),
        old(db).last_store_id < i64::MAX ==> created is Ok && {
            let store = created->Ok_0;
            &&& store.id == old(db).last_store_id + 1
            &&& store.name@ == req.name@
            &&& store.created_at == now
            &&& store.updated_at == now
            &&& final(db).stores@ == old(db).stores@.push(store)
            &&& final(db).last_store_id == store.id
            &&& final(db).sections == old(db).sections
            &&& final(db).items == old(db).items
            &&& final(db).last_section_id == old(db).last_section_id
            &&& final(db).last_item_id == old(db).last_item_id
        },
{
    match crate::store::shop::create(db, req.name.as_str(), now) {
        Ok(store) => Ok(store),
        Err(_) => Err(Problem::internal()),
    }
}

/// All stores by name, and of those with one name the one changed last first.
pub fn list(db: &Db) -> (stores: Vec<Store>)
    ensures
        stores@ == stable_sort(db.stores@),
{
    crate::store::shop::list(db)
}

/// Renames the store. A store that does not exist is not found.
pub fn update(db: &mut Db, id: i64, req: StoreNameReq, now: i128) -> (updated: Result<Store, Problem>)
    requires
        old(db).wf(),
    ensures
        final(db).wf(),
        !has_key(old(db).stores@, id) ==> updated is Err && updated->Err_0.status == STATUS_NOT_FOUND
            && updated->Err_0.message@ == "Not found"@ && *final(db) == *old(db),
        has_key(old(db).stores@, id) ==> updated is Ok && exists|at: int|
            {
                let store = updated->Ok_0;
                &&& 0 <= at < old(db).stores@.len()
                &&& (#[trigger] old(db).stores@[at]).id == id
                &&& store.id == id
                &&& store.name@ == req.name@
                &&& store.created_at == old(db).stores@[at].created_at
                &&& store.updated_at == now
                &&& final(db).stores@ == old(db).stores@.update(at, store)
                &&& final(db).sections == old(db).sections
                &&& final(db).items == old(db).items
                &&& final(db).last_store_id == old(db).last_store_id
                &&& final(db).last_section_id == old(db).last_section_id
                &&& final(db).last_item_id == old(db).last_item_id
            },
{
    match crate::store::shop::update(db, id, req.name.as_str(), now) {
        Ok(store) => Ok(store),
        Err(DbError::RowNotFound) => Err(Problem::not_found()),
        Err(_) => Err(Problem::internal()),
    }
}

/// Removes the store, and with it its sections and its items.
pub fn delete(db: &mut Db, id: i64)
    requires
        old(db).wf(),
    ensures
        final(db).wf(),
        final(db).stores@ == old(db).stores@.filter(other_store(id)),
        final(db).sections@ == old(db).sections@.filter(section_outside(id)),
        final(db).items@ == old(db).items@.filter(item_outside(id)),
        final(db).last_store_id == old(db).last_store_id,
        final(db).last_section_id == old(db).last_section_id,
        final(db).last_item_id == old(db).last_item_id,
{
    crate::store::shop::delete(db, id)
}

} // verus!
