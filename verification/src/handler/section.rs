//! The sections of a store, as a caller sees them.

use crate::db::{has_key, Db, DbError};
use crate::handler::{Problem, STATUS_INTERNAL_SERVER_ERROR, STATUS_NOT_FOUND};
use crate::rank::stable_sort;
use crate::store::section::{max_section_ord_of, of_store, other_section, item_elsewhere, Section};
use vstd::prelude::*;

verus! {

/// What a caller gives to name a section.
#[derive(Debug)]
pub struct SectionNameReq {
    pub name: String,
}

/// Adds a section to the store. A store that does not exist is not found; an
/// id or order value out of range is an internal failure.
pub fn create(db: &mut Db, store_id: i64, req: SectionNameReq, now: i128) -> (created: Result<
    Section,
    Problem,
>)
    requires
        old(db).wf(),
    ensures
        final(db).wf(),
        created is Err ==> *final(db) == *old(db),
        !has_key(old(db).stores@, store_id) ==> created is Err && created->Err_0.status
            == STATUS_NOT_FOUND && created->Err_0.message@ == "Not found"@,
        has_key(old(db).stores@, store_id) && (old(db).last_section_id == i64::MAX
            || max_section_ord_of(old(db).sections@, store_id) == i64::MAX) ==> created is Err
            && created->Err_0.status == STATUS_INTERNAL_SERVER_ERROR,
        has_key(old(db).stores@, store_id) && old(db).last_section_id < i64::MAX
            && max_section_ord_of(old(db).sections@, store_id) < i64::MAX ==> created is Ok && {
            let section = created->Ok_0;
            &&& section.id == old(db).last_section_id + 1
            &&& section.store_id == store_id
            &&& section.name@ == req.name@
            &&& section.ord == max_section_ord_of(old(db).sections@, store_id) + 1
            &&& section.created_at == now
            &&& section.updated_at == now
            &&& final(db).sections@ == old(db).sections@.push(section)
            &&& final(db).last_section_id == section.id
            &&& final(db).stores == old(db).stores
            &&& final(db).items == old(db).items
            &&& final(db).last_store_id == old(db).last_store_id
            &&& final(db).last_item_id == old(db).last_item_id
        },
{
    match check_store_exists(db, store_id) {
        Ok(()) => {},
        Err(problem) => {
            return Err(problem);
        },
    }
    match crate::store::section::create(db, store_id, req.name.as_str(), now) {
        Ok(section) => Ok(section),
        Err(_) => Err(Problem::internal()),
    }
}

/// The sections of the store by order value. A store that does not exist is
/// not found.
pub fn list(db: &Db, store_id: i64) -> (listed: Result<Vec<Section>, Problem>)
    ensures
        !has_key(db.stores@, store_id) ==> listed is Err && listed->Err_0.status == STATUS_NOT_FOUND
            && listed->Err_0.message@ == "Not found"@,
        has_key(db.stores@, store_id) ==> listed is Ok && listed->Ok_0@ == stable_sort(
            db.sections@.filter(of_store(store_id)),
        ),
{
    match check_store_exists(db, store_id) {
        Ok(()) => {},
        Err(problem) => {
            return Err(problem);
        },
    }
    Ok(crate::store::section::list(db, store_id))
}

/// Renames the section. A section that does not exist is not found.
pub fn update(db: &mut Db, id: i64, req: SectionNameReq, now: i128) -> (updated: Result<
    Section,
    Problem,
>)
    requires
        old(db).wf(),
    ensures
        final(db).wf(),
        !has_key(old(db).sections@, id) ==> updated is Err && updated->Err_0.status
            == STATUS_NOT_FOUND && updated->Err_0.message@ == "Not found"@ && *final(db) == *old(
            db,
        ),
        has_key(old(db).sections@, id) ==> updated is Ok && exists|at: int|
            {
                let section = updated->Ok_0;
                let before = #[trigger] old(db).sections@[at];
                &&& 0 <= at < old(db).sections@.len()
                &&& before.id == id
                &&& section.id == id
                &&& section.store_id == before.store_id
                &&& section.name@ == req.name@
                &&& section.ord == before.ord
                &&& section.created_at == before.created_at
                &&& section.updated_at == now
                &&& final(db).sections@ == old(db).sections@.update(at, section)
                &&& final(db).stores == old(db).stores
                &&& final(db).items == old(db).items
                &&& final(db).last_store_id == old(db).last_store_id
                &&& final(db).last_section_id == old(db).last_section_id
                &&& final(db).last_item_id == old(db).last_item_id
            },
{
    match crate::store::section::update(db, id, req.name.as_str(), now) {
        Ok(section) => Ok(section),
        Err(DbError::RowNotFound) => Err(Problem::not_found()),
        Err(_) => Err(Problem::internal()),
    }
}

/// Removes the section, and with it its items.
pub fn delete(db: &mut Db, id: i64)
    requires
        old(db).wf(),
    ensures
        final(db).wf(),
        final(db).sections@ == old(db).sections@.filter(other_section(id)),
        final(db).items@ == old(db).items@.filter(item_elsewhere(id)),
        final(db).stores == old(db).stores,
        final(db).last_store_id == old(db).last_store_id,
        final(db).last_section_id == old(db).last_section_id,
        final(db).last_item_id == old(db).last_item_id,
{
    crate::store::section::delete(db, id)
}

/// Whether the store exists: not found where it does not.
pub fn check_store_exists(db: &Db, store_id: i64) -> (checked: Result<(), Problem>)
    ensures
        checked is Ok <==> has_key(db.stores@, store_id),
        checked matches Err(problem) ==> problem.status == STATUS_NOT_FOUND && problem.message@
            == "Not found"@,
{
    match crate::store::shop::get(db, store_id) {
        Some(_) => Ok(()),
        None => Err(Problem::not_found()),
    }
}

} // verus!
