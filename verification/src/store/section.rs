//! Sections, each owned by one store.

use crate::db::{
    has_key, lemma_kept_rows, lemma_push_row, lemma_replace_row, next_id, placed, position, select,
    Db, DbError,
};
use crate::rank::{sort, stable_sort, Ranked};
use crate::store::item::{same_id, Item};
use vstd::prelude::*;

verus! {

/// A section of a store. Times are nanoseconds since the Unix epoch.
#[derive(Debug)]
pub struct Section {
    pub id: i64,
    pub store_id: i64,
    pub name: String,
    pub ord: i64,
    pub created_at: i128,
    pub updated_at: i128,
}

impl Clone for Section {
    fn clone(&self) -> (copy: Section)
        ensures
            copy == *self,
    {
        Section {
            id: self.id,
            store_id: self.store_id,
            name: self.name.clone(),
            ord: self.ord,
            created_at: self.created_at,
            updated_at: self.updated_at,
        }
    }
}

/// An entry with order value `a_ord`, last changed at `a_updated_at`, may stand
/// before one with `b_ord` and `b_updated_at`: by order value ascending, and of
/// two with one order value the one changed last first.
pub open spec fn ord_precedes(a_ord: i64, a_updated_at: i128, b_ord: i64, b_updated_at: i128) -> bool {
    a_ord < b_ord || (a_ord == b_ord && a_updated_at >= b_updated_at)
}

impl Ranked for Section {
    open spec fn precedes(&self, other: &Self) -> bool {
        ord_precedes(self.ord, self.updated_at, other.ord, other.updated_at)
    }

    fn stands_before(&self, other: &Self) -> (before: bool) {
        self.ord < other.ord || (self.ord == other.ord && self.updated_at >= other.updated_at)
    }

    proof fn precedes_is_total(a: &Self, b: &Self) {
    }

    proof fn precedes_is_transitive(a: &Self, b: &Self, c: &Self) {
    }
}

/// The predicate "a section of the store".
pub open spec fn of_store(store_id: i64) -> spec_fn(Section) -> bool {
    |section: Section| section.store_id == store_id
}

/// The sections of the store, in the order of the rows.
pub fn sections_of(sections: &Vec<Section>, store_id: i64) -> (found: Vec<Section>)
    ensures
        found@ == sections@.filter(of_store(store_id)),
{
    let keep = |section: &Section| -> (keep: bool)
        ensures
            keep == (section.store_id == store_id),
        { section.store_id == store_id };
    select(sections, keep, Ghost(of_store(store_id)))
}

/// The predicate "not the section with the id".
pub open spec fn other_section(id: i64) -> spec_fn(Section) -> bool {
    |section: Section| section.id != id
}

/// The predicate "not an item of the section".
pub open spec fn item_elsewhere(section_id: i64) -> spec_fn(Item) -> bool {
    |item: Item| item.section_id != Some(section_id)
}

/// The largest order value among the sections of the store, if it has any.
pub open spec fn top_section_ord(sections: Seq<Section>, store_id: i64) -> Option<i64>
    decreases sections.len(),
{
    if sections.len() == 0 {
        None
    } else {
        let before = top_section_ord(sections.drop_last(), store_id);
        let last = sections.last();
        if last.store_id != store_id {
            before
        } else if before is Some && before->0 >= last.ord {
            before
        } else {
            Some(last.ord)
        }
    }
}

/// The order value that the sections of the store have reached: the largest
/// among them, and 0 where the store has none.
pub open spec fn max_section_ord_of(sections: Seq<Section>, store_id: i64) -> int {
    match top_section_ord(sections, store_id) {
        Some(ord) => ord as int,
        None => 0,
    }
}

/// What `top_section_ord` is: nothing exactly when the store has no section,
/// else the order value of one of its sections that none of them exceeds.
pub proof fn lemma_top_section_ord(sections: Seq<Section>, store_id: i64)
    ensures
        top_section_ord(sections, store_id) is None <==> forall|i: int|
            0 <= i < sections.len() ==> (#[trigger] sections[i]).store_id != store_id,
        top_section_ord(sections, store_id) matches Some(top) ==> {
            &&& exists|i: int|
                0 <= i < sections.len() && (#[trigger] sections[i]).store_id == store_id
                    && sections[i].ord == top
            &&& forall|i: int|
                0 <= i < sections.len() && (#[trigger] sections[i]).store_id == store_id
                    ==> sections[i].ord <= top
        },
    decreases sections.len(),
{
    if sections.len() > 0 {
        let front = sections.drop_last();
        lemma_top_section_ord(front, store_id);
        let n = sections.len() - 1;
        assert forall|i: int| 0 <= i < n implies #[trigger] sections[i] == front[i] by {}
        if top_section_ord(sections, store_id) is None {
            assert forall|i: int| 0 <= i < sections.len() implies (#[trigger] sections[i]).store_id
                != store_id by {
                if i < n {
                    assert(sections[i] == front[i]);
                }
            }
        } else {
            let top = top_section_ord(sections, store_id)->0;
            if sections.last().store_id == store_id && !(top_section_ord(front, store_id) is Some
                && top_section_ord(front, store_id)->0 >= sections.last().ord) {
                assert(sections[n].store_id == store_id && sections[n].ord == top);
            } else {
                let w = choose|i: int|
                    0 <= i < front.len() && (#[trigger] front[i]).store_id == store_id
                        && front[i].ord == top;
                assert(sections[w].store_id == store_id && sections[w].ord == top);
            }
            assert forall|i: int|
                0 <= i < sections.len() && (#[trigger] sections[i]).store_id
                    == store_id implies sections[i].ord <= top by {
                if i < n {
                    assert(sections[i] == front[i]);
                }
            }
        }
    }
}

/// The order value that the sections of the store have reached.
pub fn max_section_ord(sections: &Vec<Section>, store_id: i64) -> (ord: i64)
    ensures
        ord == max_section_ord_of(sections@, store_id),
{
    let mut top: Option<i64> = None;
    let mut at: usize = 0;
    while at < sections.len()
        invariant
            at <= sections.len(),
            top == top_section_ord(sections@.take(at as int), store_id),
        decreases sections.len() - at,
    {
        proof {
            assert(sections@.take(at + 1).drop_last() =~= sections@.take(at as int));
        }
        let section = &sections[at];
        if section.store_id == store_id {
            top = match top {
                Some(ord) if ord >= section.ord => top,
                _ => Some(section.ord),
            };
        }
        at += 1;
    }
    proof {
        assert(sections@.take(at as int) =~= sections@);
    }
    match top {
        Some(ord) => ord,
        None => 0,
    }
}

/// Adds a section to the store, after the sections that the store has.
pub fn create(db: &mut Db, store_id: i64, name: &str, now: i128) -> (created: Result<
    Section,
    DbError,
>)
    requires
        old(db).wf(),
    ensures
        final(db).wf(),
        created is Err ==> *final(db) == *old(db),
        created == Err::<Section, DbError>(DbError::Constraint) <==> !has_key(old(db).stores@, store_id),
        created == Err::<Section, DbError>(DbError::OutOfRange) <==> has_key(old(db).stores@, store_id)
            && (old(db).last_section_id == i64::MAX || max_section_ord_of(
            old(db).sections@,
            store_id,
        ) == i64::MAX),
        created is Err ==> created->Err_0 != DbError::RowNotFound,
        created matches Ok(section) ==> {
            &&& section.id == old(db).last_section_id + 1
            &&& section.store_id == store_id
            &&& section.name@ == name@
            &&& section.ord == max_section_ord_of(old(db).sections@, store_id) + 1
            &&& section.created_at == now
            &&& section.updated_at == now
            &&& final(db).sections@ == old(db).sections@.push(section)
            &&& final(db).last_section_id == section.id
            &&& final(db).stores == old(db).stores
            &&& final(db).items == old(db).items
            &&& final(db).last_store_id == old(db).last_store_id
            &&& final(db).last_item_id == old(db).last_item_id
        },
{
    if position(&db.stores, store_id).is_none() {
        return Err(DbError::Constraint);
    }
    let id = match next_id(db.last_section_id) {
        Ok(id) => id,
        Err(error) => {
            return Err(error);
        },
    };
    let ord = match next_id(max_section_ord(&db.sections, store_id)) {
        Ok(ord) => ord,
        Err(error) => {
            return Err(error);
        },
    };
    let section = Section { id, store_id, name: name.to_owned(), ord, created_at: now, updated_at: now };
    proof {
        lemma_push_row(db.sections@, section, db.last_section_id);
        let more = db.sections@.push(section);
        assert forall|i: int| 0 <= i < more.len() implies has_key(
            db.stores@,
            (#[trigger] more[i]).store_id,
        ) by {
            if i < db.sections@.len() {
                assert(more[i] == db.sections@[i]);
            }
        }
        assert forall|i: int| 0 <= i < db.items@.len() implies placed(
            #[trigger] db.items@[i],
            db.stores@,
            more,
        ) by {
            let item = db.items@[i];
            assert(placed(item, db.stores@, db.sections@));
            if item.section_id is Some {
                let v = choose|v: int|
                    0 <= v < db.sections@.len() && (#[trigger] db.sections@[v]).id
                        == item.section_id->0 && db.sections@[v].store_id == item.store_id->0;
                assert(more[v] == db.sections@[v]);
            }
        }
    }
    db.sections.push(section.clone());
    db.last_section_id = id;
    Ok(section)
}

/// The sections of the store by order value.
pub fn list(db: &Db, store_id: i64) -> (sections: Vec<Section>)
    ensures
        sections@ == stable_sort(db.sections@.filter(of_store(store_id))),
{
    sort(sections_of(&db.sections, store_id))
}

/// The section with the id, if there is one.
pub fn get(db: &Db, id: i64) -> (section: Option<Section>)
    ensures
        section is None <==> !has_key(db.sections@, id),
        section matches Some(found) ==> found.id == id && db.sections@.contains(found),
{
    match position(&db.sections, id) {
        Some(at) => Some(db.sections[at].clone()),
        None => None,
    }
}

/// Renames the section.
pub fn update(db: &mut Db, id: i64, name: &str, now: i128) -> (updated: Result<Section, DbError>)
    requires
        old(db).wf(),
    ensures
        final(db).wf(),
        !has_key(old(db).sections@, id) ==> updated == Err::<Section, DbError>(DbError::RowNotFound)
            && *final(db) == *old(db),
        has_key(old(db).sections@, id) ==> updated is Ok && exists|at: int|
            {
                let section = updated->Ok_0;
                let before = #[trigger] old(db).sections@[at];
                &&& 0 <= at < old(db).sections@.len()
                &&& before.id == id
                &&& section.id == id
                &&& section.store_id == before.store_id
                &&& section.name@ == name@
                &&& section.ord == before.ord
                &&& section.created_at == before.created_at
                &&& section.updated_at == now
                &&& final(db).sections@ == old(db).sections@.update(at, section)
                &&& final(db).stores == old(db).stores
                &&& final(db).items == old(db).items
                &&& final(db).last_store_id == old(db).last_store_id
                &&& final(db).last_section_id == old(db).last_section_id
                &&& final(db).last_item_id == old(db).last_item_id
            },
{
    let at = match position(&db.sections, id) {
        Some(at) => at,
        None => {
            return Err(DbError::RowNotFound);
        },
    };
    let section = Section {
        id,
        store_id: db.sections[at].store_id,
        name: name.to_owned(),
        ord: db.sections[at].ord,
        created_at: db.sections[at].created_at,
        updated_at: now,
    };
    proof {
        lemma_replace_row(db.sections@, at as int, section, db.last_section_id);
        let changed = db.sections@.update(at as int, section);
        assert forall|i: int| 0 <= i < changed.len() implies has_key(
            db.stores@,
            (#[trigger] changed[i]).store_id,
        ) by {
            assert(changed[i].store_id == db.sections@[i].store_id);
        }
        assert forall|i: int| 0 <= i < db.items@.len() implies placed(
            #[trigger] db.items@[i],
            db.stores@,
            changed,
        ) by {
            let item = db.items@[i];
            assert(placed(item, db.stores@, db.sections@));
            if item.section_id is Some {
                let v = choose|v: int|
                    0 <= v < db.sections@.len() && (#[trigger] db.sections@[v]).id
                        == item.section_id->0 && db.sections@[v].store_id == item.store_id->0;
                assert(changed[v].id == db.sections@[v].id && changed[v].store_id
                    == db.sections@[v].store_id);
            }
        }
    }
    db.sections[at] = section.clone();
    Ok(section)
}

/// Removes the section, and with it its items.
pub fn delete(db: &mut Db, id: i64)
    requires
        old(db).wf(),
    ensures
        final(db).wf(),
        final(db).sections@ == old(db).sections@.filter(other_section(id)),
        final(db).items@ == old(db).items@.filter(item_elsewhere(id)),
        final(db).stores == old(db).stores,
        final(db).last_store_id == old(db).last_store_id,
        final(db).last_section_id == old(db).last_section_id,
        final(db).last_item_id == old(db).last_item_id,
{
    let sections = sections_except(&db.sections, id);
    let items = items_elsewhere(&db.items, id);
    proof {
        lemma_kept_rows(db.sections@, other_section(id), db.last_section_id);
        lemma_kept_rows(db.items@, item_elsewhere(id), db.last_item_id);
        assert forall|i: int| 0 <= i < sections@.len() implies has_key(
            db.stores@,
            (#[trigger] sections@[i]).store_id,
        ) by {
            let w = choose|w: int| 0 <= w < db.sections@.len() && db.sections@[w] == sections@[i];
            assert(has_key(db.stores@, db.sections@[w].store_id));
        }
        assert forall|i: int| 0 <= i < items@.len() implies placed(
            #[trigger] items@[i],
            db.stores@,
            sections@,
        ) by {
            let w = choose|w: int| 0 <= w < db.items@.len() && db.items@[w] == items@[i];
            let item = db.items@[w];
            assert(placed(item, db.stores@, db.sections@));
            if item.section_id is Some {
                let v = choose|v: int|
                    0 <= v < db.sections@.len() && (#[trigger] db.sections@[v]).id
                        == item.section_id->0 && db.sections@[v].store_id == item.store_id->0;
                assert(sections@.contains(db.sections@[v]));
                let k = choose|k: int| 0 <= k < sections@.len() && sections@[k] == db.sections@[v];
                assert(sections@[k].id == item.section_id->0);
            }
        }
    }
    db.sections = sections;
    db.items = items;
}

/// The sections but the one with the id.
fn sections_except(sections: &Vec<Section>, id: i64) -> (kept: Vec<Section>)
    ensures
        kept@ == sections@.filter(other_section(id)),
{
    let keep = |section: &Section| -> (keep: bool)
        ensures
            keep == (section.id != id),
        { section.id != id };
    select(sections, keep, Ghost(other_section(id)))
}

/// The items that are not in the section.
fn items_elsewhere(items: &Vec<Item>, section_id: i64) -> (kept: Vec<Item>)
    ensures
        kept@ == items@.filter(item_elsewhere(section_id)),
{
    let keep = |item: &Item| -> (keep: bool)
        ensures
            keep == (item.section_id != Some(section_id)),
        { !same_id(item.section_id, Some(section_id)) };
    select(items, keep, Ghost(item_elsewhere(section_id)))
}

} // verus!
