//! Items, and the order values of a scope.

use crate::db::{
    has_key, lemma_push_row, lemma_replace_row, lemma_section_owner, next_id, place_exists, placed,
    position, select, Db, DbError,
};
use crate::rank::Ranked;
use crate::store::section::ord_precedes;
use vstd::prelude::*;

verus! {

/// An item of the list. It lies in a section of a store, in a store outside
/// any section, or in no store. Times are nanoseconds since the Unix epoch.
#[derive(Debug)]
pub struct Item {
    pub id: i64,
    pub store_id: Option<i64>,
    pub section_id: Option<i64>,
    pub name: String,
    pub checked: bool,
    pub ord: i64,
    pub created_at: i128,
    pub updated_at: i128,
}

impl Clone for Item {
    fn clone(&self) -> (copy: Item)
        ensures
            copy == *self,
    {
        Item {
            id: self.id,
            store_id: self.store_id,
            section_id: self.section_id,
            name: self.name.clone(),
            checked: self.checked,
            ord: self.ord,
            created_at: self.created_at,
            updated_at: self.updated_at,
        }
    }
}

impl Ranked for Item {
    open spec fn precedes(&self, other: &Self) -> bool {
        ord_precedes(self.ord, self.updated_at, other.ord, other.updated_at)
    }

    fn stands_before(&self, other: &Self) -> (before: bool) {
        self.ord < other.ord || (self.ord == other.ord && self.updated_at >= other.updated_at)
    }

    proof fn precedes_is_total(a: &Self, b: &Self) {
    }

    proof fn precedes_is_transitive(a: &Self, b: &Self, c: &Self) {
    }
}

/// The item is active and lies in the scope: in the given section of the given
/// store, in the store outside any section, or in no store.
pub open spec fn active_in(item: Item, store_id: Option<i64>, section_id: Option<i64>) -> bool {
    !item.checked && item.store_id == store_id && item.section_id == section_id
}

/// `active_in` as a predicate on items.
pub open spec fn in_scope(store_id: Option<i64>, section_id: Option<i64>) -> spec_fn(Item) -> bool {
    |item: Item| active_in(item, store_id, section_id)
}

/// The predicate "active and in the section", whatever store the item names.
pub open spec fn in_section(section_id: i64) -> spec_fn(Item) -> bool {
    |item: Item| !item.checked && item.section_id == Some(section_id)
}

/// The active items of a scope, in the order of the rows.
pub open spec fn scope_items(items: Seq<Item>, store_id: Option<i64>, section_id: Option<i64>) -> Seq<
    Item,
> {
    items.filter(in_scope(store_id, section_id))
}

/// The largest order value among the active items of the scope, if it has any.
pub open spec fn top_ord(items: Seq<Item>, store_id: Option<i64>, section_id: Option<i64>) -> Option<
    i64,
>
    decreases items.len(),
{
    if items.len() == 0 {
        None
    } else {
        let before = top_ord(items.drop_last(), store_id, section_id);
        let last = items.last();
        if !active_in(last, store_id, section_id) {
            before
        } else if before is Some && before->0 >= last.ord {
            before
        } else {
            Some(last.ord)
        }
    }
}

/// The order value that the scope has reached: the largest among its active
/// items, and 0 where it has none.
pub open spec fn max_ord_of(items: Seq<Item>, store_id: Option<i64>, section_id: Option<i64>) -> int {
    match top_ord(items, store_id, section_id) {
        Some(ord) => ord as int,
        None => 0,
    }
}

/// What `top_ord` is: nothing exactly when no active item lies in the scope,
/// else the order value of one of them that none of them exceeds.
pub proof fn lemma_top_ord(items: Seq<Item>, store_id: Option<i64>, section_id: Option<i64>)
    ensures
        top_ord(items, store_id, section_id) is None <==> forall|i: int|
            0 <= i < items.len() ==> !active_in(#[trigger] items[i], store_id, section_id),
        top_ord(items, store_id, section_id) matches Some(top) ==> {
            &&& exists|i: int|
                0 <= i < items.len() && active_in(#[trigger] items[i], store_id, section_id)
                    && items[i].ord == top
            &&& forall|i: int|
                0 <= i < items.len() && active_in(#[trigger] items[i], store_id, section_id)
                    ==> items[i].ord <= top
        },
    decreases items.len(),
{
    if items.len() > 0 {
        let front = items.drop_last();
        lemma_top_ord(front, store_id, section_id);
        let n = items.len() - 1;
        assert forall|i: int| 0 <= i < n implies #[trigger] items[i] == front[i] by {}
        if top_ord(items, store_id, section_id) is None {
            assert forall|i: int| 0 <= i < items.len() implies !active_in(
                #[trigger] items[i],
                store_id,
                section_id,
            ) by {
                if i < n {
                    assert(items[i] == front[i]);
                }
            }
        } else {
            let top = top_ord(items, store_id, section_id)->0;
            if active_in(items.last(), store_id, section_id) && !(top_ord(
                front,
                store_id,
                section_id,
            ) is Some && top_ord(front, store_id, section_id)->0 >= items.last().ord) {
                assert(active_in(items[n], store_id, section_id) && items[n].ord == top);
            } else {
                let w = choose|i: int|
                    0 <= i < front.len() && active_in(#[trigger] front[i], store_id, section_id)
                        && front[i].ord == top;
                assert(active_in(items[w], store_id, section_id) && items[w].ord == top);
            }
            assert forall|i: int|
                0 <= i < items.len() && active_in(
                    #[trigger] items[i],
                    store_id,
                    section_id,
                ) implies items[i].ord <= top by {
                if i < n {
                    assert(items[i] == front[i]);
                }
            }
        }
    }
}

/// The order value that the scope has reached.
pub fn max_ord(items: &Vec<Item>, store_id: Option<i64>, section_id: Option<i64>) -> (ord: i64)
    ensures
        ord == max_ord_of(items@, store_id, section_id),
{
    let mut top: Option<i64> = None;
    let mut at: usize = 0;
    while at < items.len()
        invariant
            at <= items.len(),
            top == top_ord(items@.take(at as int), store_id, section_id),
        decreases items.len() - at,
    {
        proof {
            assert(items@.take(at + 1).drop_last() =~= items@.take(at as int));
        }
        let item = &items[at];
        if !item.checked && same_id(item.store_id, store_id) && same_id(item.section_id, section_id) {
            top = match top {
                Some(ord) if ord >= item.ord => top,
                _ => Some(item.ord),
            };
        }
        at += 1;
    }
    proof {
        assert(items@.take(at as int) =~= items@);
    }
    match top {
        Some(ord) => ord,
        None => 0,
    }
}

/// Both are absent, or both are the same id.
pub fn same_id(a: Option<i64>, b: Option<i64>) -> (same: bool)
    ensures
        same == (a == b),
{
    match (a, b) {
        (None, None) => true,
        (Some(x), Some(y)) => x == y,
        _ => false,
    }
}

/// The predicate "active".
pub open spec fn unchecked() -> spec_fn(Item) -> bool {
    |item: Item| !item.checked
}

/// The place exists in the tables.
pub fn check_place(db: &Db, store_id: Option<i64>, section_id: Option<i64>) -> (exists: bool)
    requires
        db.wf(),
    ensures
        exists == place_exists(store_id, section_id, db.stores@, db.sections@),
{
    if let Some(id) = store_id {
        if position(&db.stores, id).is_none() {
            return false;
        }
    }
    if let Some(id) = section_id {
        let at = match position(&db.sections, id) {
            Some(at) => at,
            None => {
                return false;
            },
        };
        proof {
            lemma_section_owner(db.sections@, at as int);
        }
        return match store_id {
            Some(owner) => db.sections[at].store_id == owner,
            None => false,
        };
    }
    true
}

/// Adds an active item at the end of its scope: its order value is one more
/// than the scope has reached.
pub fn create(
    db: &mut Db,
    store_id: Option<i64>,
    section_id: Option<i64>,
    name: &str,
    now: i128,
) -> (created: Result<Item, DbError>)
    requires
        old(db).wf(),
    ensures
        final(db).wf(),
        created is Err ==> *final(db) == *old(db),
        created == Err::<Item, DbError>(DbError::Constraint) <==> !place_exists(
            store_id,
            section_id,
            old(db).stores@,
            old(db).sections@,
        ),
        created == Err::<Item, DbError>(DbError::OutOfRange) <==> place_exists(
            store_id,
            section_id,
            old(db).stores@,
            old(db).sections@,
        ) && (old(db).last_item_id == i64::MAX || max_ord_of(old(db).items@, store_id, section_id)
            == i64::MAX),
        created is Err ==> created->Err_0 != DbError::RowNotFound,
        created matches Ok(item) ==> {
            &&& item.id == old(db).last_item_id + 1
            &&& item.store_id == store_id
            &&& item.section_id == section_id
            &&& item.name@ == name@
            &&& !item.checked
            &&& item.ord == max_ord_of(old(db).items@, store_id, section_id) + 1
            &&& item.created_at == now
            &&& item.updated_at == now
            &&& final(db).items@ == old(db).items@.push(item)
            &&& final(db).last_item_id == item.id
            &&& final(db).stores == old(db).stores
            &&& final(db).sections == old(db).sections
            &&& final(db).last_store_id == old(db).last_store_id
            &&& final(db).last_section_id == old(db).last_section_id
        },
{
    if !check_place(db, store_id, section_id) {
        return Err(DbError::Constraint);
    }
    let id = match next_id(db.last_item_id) {
        Ok(id) => id,
        Err(error) => {
            return Err(error);
        },
    };
    let ord = match next_id(max_ord(&db.items, store_id, section_id)) {
        Ok(ord) => ord,
        Err(error) => {
            return Err(error);
        },
    };
    let item = Item {
        id,
        store_id,
        section_id,
        name: name.to_owned(),
        checked: false,
        ord,
        created_at: now,
        updated_at: now,
    };
    proof {
        lemma_push_row(db.items@, item, db.last_item_id);
        let more = db.items@.push(item);
        assert forall|i: int| 0 <= i < more.len() implies placed(
            #[trigger] more[i],
            db.stores@,
            db.sections@,
        ) by {
            if i < db.items@.len() {
                assert(more[i] == db.items@[i]);
            }
        }
    }
    db.items.push(item.clone());
    db.last_item_id = id;
    Ok(item)
}

/// Renames the item and sets whether it is checked. Its place and its order
/// value stay as they are.
pub fn update(db: &mut Db, id: i64, name: &str, checked: bool, now: i128) -> (updated: Result<
    Item,
    DbError,
>)
    requires
        old(db).wf(),
    ensures
        final(db).wf(),
        !has_key(old(db).items@, id) ==> updated == Err::<Item, DbError>(DbError::RowNotFound)
            && *final(db) == *old(db),
        has_key(old(db).items@, id) ==> updated is Ok && exists|at: int|
            {
                let item = updated->Ok_0;
                let before = #[trigger] old(db).items@[at];
                &&& 0 <= at < old(db).items@.len()
                &&& before.id == id
                &&& item.id == id
                &&& item.store_id == before.store_id
                &&& item.section_id == before.section_id
                &&& item.name@ == name@
                &&& item.checked == checked
                &&& item.ord == before.ord
                &&& item.created_at == before.created_at
                &&& item.updated_at == now
                &&& final(db).items@ == old(db).items@.update(at, item)
                &&& final(db).stores == old(db).stores
                &&& final(db).sections == old(db).sections
                &&& final(db).last_store_id == old(db).last_store_id
                &&& final(db).last_section_id == old(db).last_section_id
                &&& final(db).last_item_id == old(db).last_item_id
            },
{
    let at = match position(&db.items, id) {
        Some(at) => at,
        None => {
            return Err(DbError::RowNotFound);
        },
    };
    let item = Item {
        id,
        store_id: db.items[at].store_id,
        section_id: db.items[at].section_id,
        name: name.to_owned(),
        checked,
        ord: db.items[at].ord,
        created_at: db.items[at].created_at,
        updated_at: now,
    };
    proof {
        lemma_replace_row(db.items@, at as int, item, db.last_item_id);
        let changed = db.items@.update(at as int, item);
        assert forall|i: int| 0 <= i < changed.len() implies placed(
            #[trigger] changed[i],
            db.stores@,
            db.sections@,
        ) by {
            assert(placed(db.items@[i], db.stores@, db.sections@));
        }
    }
    db.items[at] = item.clone();
    Ok(item)
}

/// All active items, in the order of the rows.
pub fn list(db: &Db) -> (items: Vec<Item>)
    ensures
        items@ == db.items@.filter(unchecked()),
{
    let keep = |item: &Item| -> (keep: bool)
        ensures
            keep == !item.checked,
        { !item.checked };
    select(&db.items, keep, Ghost(unchecked()))
}

/// The active items of the store that lie in none of its sections, in the
/// order of the rows.
pub fn unassigned_for_store(db: &Db, store_id: i64) -> (items: Vec<Item>)
    ensures
        items@ == scope_items(db.items@, Some(store_id), None),
{
    active_items(&db.items, Some(store_id), None)
}

/// The active items of the scope, in the order of the rows.
pub fn active_items(items: &Vec<Item>, store_id: Option<i64>, section_id: Option<i64>) -> (found: Vec<
    Item,
>)
    ensures
        found@ == scope_items(items@, store_id, section_id),
{
    let keep = |item: &Item| -> (keep: bool)
        ensures
            keep == active_in(*item, store_id, section_id),
        {
            !item.checked && same_id(item.store_id, store_id) && same_id(
                item.section_id,
                section_id,
            )
        };
    select(items, keep, Ghost(in_scope(store_id, section_id)))
}

/// The active items of the section, in the order of the rows.
pub fn section_items(items: &Vec<Item>, section_id: i64) -> (found: Vec<Item>)
    ensures
        found@ == items@.filter(in_section(section_id)),
{
    let keep = |item: &Item| -> (keep: bool)
        ensures
            keep == (!item.checked && item.section_id == Some(section_id)),
        { !item.checked && same_id(item.section_id, Some(section_id)) };
    select(items, keep, Ghost(in_section(section_id)))
}

} // verus!
