//! Creating an item in a validated scope, and the nested listing of all active
//! items.

use crate::db::{
    has_key, index_of_key, lemma_index_of_key, lemma_kept_rows, lemma_section_owner,
    lemma_sort_keeps_keys, place_exists, placed, position, section_owner, select, unique_keys, Db,
    Keyed,
};
use crate::handler::{Problem, STATUS_CONFLICT, STATUS_INTERNAL_SERVER_ERROR, STATUS_NOT_FOUND};
use crate::rank::{lemma_sort_len, lemma_sort_same_elements, sort, stable_sort};
use crate::reorder::{landing_ord, landing_slot, plan_move};
use crate::store::item::{
    active_in, active_items, in_scope, in_section, max_ord_of, same_id, section_items, Item,
};
use crate::store::section::{of_store, sections_of, Section};
use crate::store::shop::{copy_stores, Store};
use vstd::prelude::*;

verus! {

/// What a caller gives to have an item made.
#[derive(Debug)]
pub struct ItemCreateReq {
    pub store_id: Option<i64>,
    pub section_id: Option<i64>,
    pub name: String,
}

/// A validated place for an item: a section of a store, a store outside its
/// sections, or no store.
#[derive(Debug, Clone, Copy, PartialEq, Eq, Structural)]
pub struct Scope {
    pub store_id: Option<i64>,
    pub section_id: Option<i64>,
}

/// Why a requested place is refused, if it is: the named store is missing, the
/// named section is missing, or both are named and the section is another
/// store's.
pub open spec fn scope_fault(
    store_id: Option<i64>,
    store_found: bool,
    section_id: Option<i64>,
    section_owner: Option<i64>,
) -> Option<(u16, Seq<char>)> {
    if store_id is Some && !store_found {
        Some((STATUS_NOT_FOUND, "Store not found"@))
    } else if section_id is Some && section_owner is None {
        Some((STATUS_NOT_FOUND, "Section not found"@))
    } else if section_id is Some && store_id is Some && store_id != section_owner {
        Some((STATUS_CONFLICT, "Section doesn't belong to the given store"@))
    } else {
        None
    }
}

/// The place that a request means: a named section brings its store with it.
pub open spec fn scope_meant(
    store_id: Option<i64>,
    section_id: Option<i64>,
    section_owner: Option<i64>,
) -> Scope {
    Scope { store_id: if section_id is Some { section_owner } else { store_id }, section_id }
}

/// Validates a requested place. `store_found` says whether the named store
/// exists, `section_owner` which store owns the named section, if the section
/// exists; both are ignored where the request names none.
pub fn resolve_scope(
    store_id: Option<i64>,
    store_found: bool,
    section_id: Option<i64>,
    section_owner: Option<i64>,
) -> (resolved: Result<Scope, Problem>)
    ensures
        match scope_fault(store_id, store_found, section_id, section_owner) {
            Some((status, message)) => resolved is Err && resolved->Err_0.status == status
                && resolved->Err_0.message@ == message,
            None => resolved == Ok::<Scope, Problem>(scope_meant(store_id, section_id, section_owner)),
        },
{
    if store_id.is_some() && !store_found {
        return Err(Problem::new(STATUS_NOT_FOUND, "Store not found".to_owned()));
    }
    if section_id.is_some() {
        let owner = match section_owner {
            Some(owner) => owner,
            None => {
                return Err(Problem::new(STATUS_NOT_FOUND, "Section not found".to_owned()));
            },
        };
        if let Some(given) = store_id {
            if given != owner {
                return Err(
                    Problem::new(
                        STATUS_CONFLICT,
                        "Section doesn't belong to the given store".to_owned(),
                    ),
                );
            }
        }
        return Ok(Scope { store_id: Some(owner), section_id });
    }
    Ok(Scope { store_id, section_id })
}

/// Validates a requested place against the tables.
pub fn resolve_in(db: &Db, store_id: Option<i64>, section_id: Option<i64>) -> (resolved: Result<
    Scope,
    Problem,
>)
    requires
        db.wf(),
    ensures
        match scope_fault(
            store_id,
            store_id is Some && has_key(db.stores@, store_id->0),
            section_id,
            if section_id is Some {
                section_owner(db.sections@, section_id->0)
            } else {
                None
            },
        ) {
            Some((status, message)) => resolved is Err && resolved->Err_0.status == status
                && resolved->Err_0.message@ == message,
            None => resolved is Ok && resolved->Ok_0 == scope_meant(
                store_id,
                section_id,
                if section_id is Some {
                    section_owner(db.sections@, section_id->0)
                } else {
                    None
                },
            ) && place_exists(
                resolved->Ok_0.store_id,
                resolved->Ok_0.section_id,
                db.stores@,
                db.sections@,
            ),
        },
{
    let store_found = match store_id {
        Some(id) => position(&db.stores, id).is_some(),
        None => false,
    };
    let owner = match section_id {
        Some(id) => match position(&db.sections, id) {
            Some(at) => {
                proof {
                    lemma_section_owner(db.sections@, at as int);
                    assert(has_key(db.stores@, db.sections@[at as int].store_id));
                }
                Some(db.sections[at].store_id)
            },
            None => None,
        },
        None => None,
    };
    resolve_scope(store_id, store_found, section_id, owner)
}

/// Makes an item in the requested place, at the end of its scope. The request
/// is refused as `resolve_in` says; an id or order value out of range is an
/// internal failure. A refused request changes nothing.
pub fn create(db: &mut Db, req: ItemCreateReq, now: i128) -> (created: Result<Item, Problem>)
    requires
        old(db).wf(),
    ensures
        final(db).wf(),
        created is Err ==> *final(db) == *old(db),
        ({
            let owner = if req.section_id is Some {
                section_owner(old(db).sections@, req.section_id->0)
            } else {
                None
            };
            let scope = scope_meant(req.store_id, req.section_id, owner);
            match scope_fault(
                req.store_id,
                req.store_id is Some && has_key(old(db).stores@, req.store_id->0),
                req.section_id,
                owner,
            ) {
                Some((status, message)) => created is Err && created->Err_0.status == status
                    && created->Err_0.message@ == message,
                None => if old(db).last_item_id == i64::MAX || max_ord_of(
                    old(db).items@,
                    scope.store_id,
                    scope.section_id,
                ) == i64::MAX {
                    created is Err && created->Err_0.status
                        == STATUS_INTERNAL_SERVER_ERROR
                } else {
                    created is Ok && {
                        let item = created->Ok_0;
                        &&& item.id == old(db).last_item_id + 1
                        &&& item.store_id == scope.store_id
                        &&& item.section_id == scope.section_id
                        &&& item.name@ == req.name@
                        &&& !item.checked
                        &&& item.ord == max_ord_of(old(db).items@, scope.store_id, scope.section_id)
                            + 1
                        &&& item.created_at == now
                        &&& item.updated_at == now
                        &&& final(db).items@ == old(db).items@.push(item)
                        &&& final(db).last_item_id == item.id
                        &&& final(db).stores == old(db).stores
                        &&& final(db).sections == old(db).sections
                        &&& final(db).last_store_id == old(db).last_store_id
                        &&& final(db).last_section_id == old(db).last_section_id
                    }
                },
            }
        }),
{
    let scope = match resolve_in(db, req.store_id, req.section_id) {
        Ok(scope) => scope,
        Err(problem) => {
            return Err(problem);
        },
    };
    match crate::store::item::create(db, scope.store_id, scope.section_id, req.name.as_str(), now) {
        Ok(item) => Ok(item),
        Err(_) => Err(Problem::internal()),
    }
}

/// The predicate "an active item of the scope other than the one with the id".
pub open spec fn sibling_in(id: i64, scope: Scope) -> spec_fn(Item) -> bool {
    |item: Item| item.id != id && active_in(item, scope.store_id, scope.section_id)
}

/// What a row becomes when the item with the id moves into `scope` and lands
/// in `slot` among its siblings, which stand as `order` has them: the item
/// that moves gets the scope, its order value and the time of the move; a
/// sibling gets its new order value; any other row stays as it is.
pub open spec fn moved_row(
    row: Item,
    id: i64,
    scope: Scope,
    order: Seq<Item>,
    slot: int,
    now: i128,
) -> Item {
    if row.id == id {
        Item {
            store_id: scope.store_id,
            section_id: scope.section_id,
            ord: (slot + 1) as i64,
            updated_at: now,
            ..row
        }
    } else if active_in(row, scope.store_id, scope.section_id) {
        Item { ord: landing_ord(index_of_key(order, row.id), slot) as i64, ..row }
    } else {
        row
    }
}

/// `moved_row` as a function of the row.
pub open spec fn move_rows(id: i64, scope: Scope, order: Seq<Item>, slot: int, now: i128) -> spec_fn(
    Item,
) -> Item {
    |row: Item| moved_row(row, id, scope, order, slot, now)
}

/// The active items of the scope other than the one with the id, in the order
/// of the rows.
pub fn siblings_in(items: &Vec<Item>, id: i64, scope: Scope) -> (found: Vec<Item>)
    ensures
        found@ == items@.filter(sibling_in(id, scope)),
{
    let keep = |item: &Item| -> (keep: bool)
        ensures
            keep == (item.id != id && active_in(*item, scope.store_id, scope.section_id)),
        {
            item.id != id && !item.checked && same_id(item.store_id, scope.store_id) && same_id(
                item.section_id,
                scope.section_id,
            )
        };
    select(items, keep, Ghost(sibling_in(id, scope)))
}

/// Moves the item with the id into the requested place, to the given index
/// among the active items there, or to the nearest end. The items of that
/// scope are then numbered from 1 in their new order, without gaps; the scope
/// that the item leaves keeps its order values. A request for an item that
/// does not exist is refused as not found, one for a place that is missing or
/// contradictory as `resolve_in` says; a refused request changes nothing.
pub fn move_item(
    db: &mut Db,
    id: i64,
    store_id: Option<i64>,
    section_id: Option<i64>,
    index: i64,
    now: i128,
) -> (moved: Result<Item, Problem>)
    requires
        old(db).wf(),
    ensures
        final(db).wf(),
        moved is Err ==> *final(db) == *old(db),
        !has_key(old(db).items@, id) ==> moved is Err && moved->Err_0.status == STATUS_NOT_FOUND
            && moved->Err_0.message@ == "Not found"@,
        has_key(old(db).items@, id) ==> ({
            let owner = if section_id is Some {
                section_owner(old(db).sections@, section_id->0)
            } else {
                None
            };
            let scope = scope_meant(store_id, section_id, owner);
            let siblings = old(db).items@.filter(sibling_in(id, scope));
            let slot = landing_slot(index, siblings.len() as int);
            match scope_fault(
                store_id,
                store_id is Some && has_key(old(db).stores@, store_id->0),
                section_id,
                owner,
            ) {
                Some((status, message)) => moved is Err && moved->Err_0.status == status
                    && moved->Err_0.message@ == message,
                None => if siblings.len() >= i64::MAX - 1 {
                    moved is Err && moved->Err_0.status == STATUS_INTERNAL_SERVER_ERROR
                } else {
                    &&& moved is Ok
                    &&& moved->Ok_0 == moved_row(
                        old(db).items@[index_of_key(old(db).items@, id)],
                        id,
                        scope,
                        stable_sort(siblings),
                        slot,
                        now,
                    )
                    &&& final(db).items@ == old(db).items@.map_values(
                        move_rows(id, scope, stable_sort(siblings), slot, now),
                    )
                    &&& final(db).stores == old(db).stores
                    &&& final(db).sections == old(db).sections
                    &&& final(db).last_store_id == old(db).last_store_id
                    &&& final(db).last_section_id == old(db).last_section_id
                    &&& final(db).last_item_id == old(db).last_item_id
                },
            }
        }),
{
    let found = match position(&db.items, id) {
        Some(found) => found,
        None => {
            return Err(Problem::not_found());
        },
    };
    let scope = match resolve_in(db, store_id, section_id) {
        Ok(scope) => scope,
        Err(problem) => {
            return Err(problem);
        },
    };
    let siblings = siblings_in(&db.items, id, scope);
    if siblings.len() as u64 >= (i64::MAX - 1) as u64 {
        return Err(Problem::internal());
    }
    let ghost unsorted = siblings@;
    let ghost order = stable_sort(unsorted);
    let ghost slot = landing_slot(index, unsorted.len() as int);
    let plan = plan_move(siblings, index);
    proof {
        lemma_kept_rows(db.items@, sibling_in(id, scope), db.last_item_id);
        lemma_sort_keeps_keys(unsorted);
        lemma_sort_same_elements(unsorted);
        lemma_sort_len(unsorted);
        lemma_index_of_key(db.items@, found as int);
    }
    let mut rows: Vec<Item> = Vec::new();
    let mut at: usize = 0;
    while at < db.items.len()
        invariant
            at <= db.items.len(),
            rows@.len() == at,
            forall|i: int|
                0 <= i < at ==> #[trigger] rows@[i] == moved_row(
                    db.items@[i],
                    id,
                    scope,
                    order,
                    slot,
                    now,
                ),
            unsorted == db.items@.filter(sibling_in(id, scope)),
            order == stable_sort(unsorted),
            order.len() == unsorted.len(),
            unique_keys(order),
            forall|x: Item|
                #![trigger order.contains(x)]
                #![trigger unsorted.contains(x)]
                order.contains(x) <==> unsorted.contains(x),
            forall|i: int|
                0 <= i < db.items@.len() && sibling_in(id, scope)(#[trigger] db.items@[i])
                    ==> unsorted.contains(db.items@[i]),
            slot == landing_slot(index, unsorted.len() as int),
            plan.ord == slot + 1,
            plan.siblings@.len() == order.len(),
            forall|rank: int|
                0 <= rank < order.len() ==> (#[trigger] plan.siblings@[rank]).id == order[rank].id
                    && plan.siblings@[rank].ord == landing_ord(rank, slot),
        decreases db.items.len() - at,
    {
        let row = &db.items[at];
        if row.id == id {
            rows.push(
                Item {
                    id: row.id,
                    store_id: scope.store_id,
                    section_id: scope.section_id,
                    name: row.name.clone(),
                    checked: row.checked,
                    ord: plan.ord,
                    created_at: row.created_at,
                    updated_at: now,
                },
            );
        } else if !row.checked && same_id(row.store_id, scope.store_id) && same_id(
            row.section_id,
            scope.section_id,
        ) {
            proof {
                assert(sibling_in(id, scope)(db.items@[at as int]));
                assert(unsorted.contains(*row));
                assert(order.contains(*row));
                let rank = choose|rank: int| 0 <= rank < order.len() && order[rank] == *row;
                lemma_index_of_key(order, rank);
                assert(plan.siblings@[rank].key() == row.id);
                assert forall|i: int, j: int|
                    #![trigger plan.siblings@[i], plan.siblings@[j]]
                    0 <= i < j < plan.siblings@.len() implies plan.siblings@[i].key()
                    != plan.siblings@[j].key() by {
                    assert(order[i].key() != order[j].key());
                }
                lemma_index_of_key(plan.siblings@, rank);
            }
            let rank = position(&plan.siblings, row.id).unwrap();
            proof {
                lemma_index_of_key(plan.siblings@, rank as int);
            }
            rows.push(
                Item {
                    id: row.id,
                    store_id: row.store_id,
                    section_id: row.section_id,
                    name: row.name.clone(),
                    checked: row.checked,
                    ord: plan.siblings[rank].ord,
                    created_at: row.created_at,
                    updated_at: row.updated_at,
                },
            );
        } else {
            rows.push(row.clone());
        }
        at += 1;
    }
    let moved = rows[found].clone();
    proof {
        let before = db.items@;
        assert(rows@ =~= before.map_values(move_rows(id, scope, order, slot, now)));
        assert forall|i: int| 0 <= i < rows@.len() implies (#[trigger] rows@[i]).key()
            == before[i].key() by {}
        assert forall|i: int, j: int|
            #![trigger rows@[i], rows@[j]]
            0 <= i < j < rows@.len() implies rows@[i].key() != rows@[j].key() by {
            assert(before[i].key() != before[j].key());
        }
        assert forall|i: int| 0 <= i < rows@.len() implies placed(
            #[trigger] rows@[i],
            db.stores@,
            db.sections@,
        ) by {
            assert(placed(before[i], db.stores@, db.sections@));
        }
    }
    db.items = rows;
    Ok(moved)
}

/// The nested listing of all active items in the tables.
pub fn list(db: &Db) -> (list: ItemList)
    ensures
        list@ == listing(db.items@, db.stores@, db.sections@),
{
    assemble(&db.items, &db.stores, &db.sections)
}

/// A section with its active items.
#[derive(Debug)]
pub struct ItemListSection {
    pub section: Section,
    pub items: Vec<Item>,
}

/// A store with its active items outside any section, and its sections.
#[derive(Debug)]
pub struct ItemListStore {
    pub store: Store,
    pub unassigned: Vec<Item>,
    pub sections: Vec<ItemListSection>,
}

/// All active items: those of no store, and the stores with theirs.
#[derive(Debug)]
pub struct ItemList {
    pub unassigned: Vec<Item>,
    pub stores: Vec<ItemListStore>,
}

/// What an `ItemListSection` holds.
pub struct SectionListing {
    pub section: Section,
    pub items: Seq<Item>,
}

/// What an `ItemListStore` holds.
pub struct StoreListing {
    pub store: Store,
    pub unassigned: Seq<Item>,
    pub sections: Seq<SectionListing>,
}

/// What an `ItemList` holds.
pub struct Listing {
    pub unassigned: Seq<Item>,
    pub stores: Seq<StoreListing>,
}

impl View for ItemListSection {
    type V = SectionListing;

    open spec fn view(&self) -> SectionListing {
        SectionListing { section: self.section, items: self.items@ }
    }
}

impl View for ItemListStore {
    type V = StoreListing;

    open spec fn view(&self) -> StoreListing {
        StoreListing {
            store: self.store,
            unassigned: self.unassigned@,
            sections: self.sections@.map_values(|entry: ItemListSection| entry@),
        }
    }
}

impl View for ItemList {
    type V = Listing;

    open spec fn view(&self) -> Listing {
        Listing {
            unassigned: self.unassigned@,
            stores: self.stores@.map_values(|entry: ItemListStore| entry@),
        }
    }
}

/// The section with its active items, sorted.
pub open spec fn section_listing(section: Section, items: Seq<Item>) -> SectionListing {
    SectionListing { section, items: stable_sort(items.filter(in_section(section.id))) }
}

/// The function that lists a section.
pub open spec fn list_section(items: Seq<Item>) -> spec_fn(Section) -> SectionListing {
    |section: Section| section_listing(section, items)
}

/// The store with its active items outside any section, sorted, and its
/// sections, sorted, each with its items.
pub open spec fn store_listing(store: Store, items: Seq<Item>, sections: Seq<Section>) -> StoreListing {
    StoreListing {
        store,
        unassigned: stable_sort(items.filter(in_scope(Some(store.id), None))),
        sections: stable_sort(sections.filter(of_store(store.id))).map_values(list_section(items)),
    }
}

/// The function that lists a store.
pub open spec fn list_store(items: Seq<Item>, sections: Seq<Section>) -> spec_fn(Store) -> StoreListing {
    |store: Store| store_listing(store, items, sections)
}

/// The nested listing of the rows: the active items of no store, sorted, and
/// every store, sorted, with its own.
pub open spec fn listing(items: Seq<Item>, stores: Seq<Store>, sections: Seq<Section>) -> Listing {
    Listing {
        unassigned: stable_sort(items.filter(in_scope(None, None))),
        stores: stable_sort(stores).map_values(list_store(items, sections)),
    }
}

/// Lists one store: its items outside any section, and its sections with theirs.
pub fn assemble_store(store: Store, items: &Vec<Item>, sections: &Vec<Section>) -> (entry:
    ItemListStore)
    ensures
        entry@ == store_listing(store, items@, sections@),
{
    let unassigned = sort(active_items(items, Some(store.id), None));
    let own = sort(sections_of(sections, store.id));
    let mut listed: Vec<ItemListSection> = Vec::new();
    let mut at: usize = 0;
    while at < own.len()
        invariant
            at <= own.len(),
            listed@.len() == at,
            forall|k: int|
                0 <= k < at ==> (#[trigger] listed@[k])@ == section_listing(own@[k], items@),
        decreases own.len() - at,
    {
        let section = own[at].clone();
        let found = sort(section_items(items, section.id));
        listed.push(ItemListSection { section, items: found });
        at += 1;
    }
    let entry = ItemListStore { store, unassigned, sections: listed };
    proof {
        assert(entry@.sections =~= own@.map_values(list_section(items@)));
    }
    entry
}

/// The nested listing of all active items: the items of no store, then every
/// store by name with its items outside any section and its sections by order
/// value, each with its items. Items stand by order value. Where two entries
/// of one list tie, the one changed last stands first, and entries that tie in
/// that too stand as their rows do.
pub fn assemble(items: &Vec<Item>, stores: &Vec<Store>, sections: &Vec<Section>) -> (list: ItemList)
    ensures
        list@ == listing(items@, stores@, sections@),
{
    let unassigned = sort(active_items(items, None, None));
    let sorted = sort(copy_stores(stores));
    let mut listed: Vec<ItemListStore> = Vec::new();
    let mut at: usize = 0;
    while at < sorted.len()
        invariant
            at <= sorted.len(),
            listed@.len() == at,
            forall|k: int|
                0 <= k < at ==> (#[trigger] listed@[k])@ == store_listing(
                    sorted@[k],
                    items@,
                    sections@,
                ),
        decreases sorted.len() - at,
    {
        listed.push(assemble_store(sorted[at].clone(), items, sections));
        at += 1;
    }
    let list = ItemList { unassigned, stores: listed };
    proof {
        assert(list@.stores =~= sorted@.map_values(list_store(items@, sections@)));
    }
    list
}

} // verus!
