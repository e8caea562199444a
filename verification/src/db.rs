//! The tables of the list, held in memory, and what makes them consistent.

use crate::rank::{
    entry_point, lemma_entry_point, lemma_sort_len, lemma_sort_same_elements, stable_sort, Ranked,
};
use crate::store::item::Item;
use crate::store::section::Section;
use crate::store::shop::Store;
use vstd::prelude::*;

verus! {

/// A row with an id.
pub trait Keyed: Sized {
    /// The row's id.
    spec fn key(&self) -> i64;

    /// The row's id.
    fn id(&self) -> (id: i64)
        ensures
            id == self.key(),
    ;

    /// A copy of the row.
    fn copy(&self) -> (copy: Self)
        ensures
            copy == *self,
    ;
}

impl Keyed for Store {
    open spec fn key(&self) -> i64 {
        self.id
    }

    fn id(&self) -> (id: i64) {
        self.id
    }

    fn copy(&self) -> (copy: Self) {
        self.clone()
    }
}

impl Keyed for Section {
    open spec fn key(&self) -> i64 {
        self.id
    }

    fn id(&self) -> (id: i64) {
        self.id
    }

    fn copy(&self) -> (copy: Self) {
        self.clone()
    }
}

impl Keyed for Item {
    open spec fn key(&self) -> i64 {
        self.id
    }

    fn id(&self) -> (id: i64) {
        self.id
    }

    fn copy(&self) -> (copy: Self) {
        self.clone()
    }
}

/// No two rows have one id.
pub open spec fn unique_keys<T: Keyed>(rows: Seq<T>) -> bool {
    forall|i: int, j: int|
        #![trigger rows[i], rows[j]]
        0 <= i < j < rows.len() ==> rows[i].key() != rows[j].key()
}

/// Some row has the id.
pub open spec fn has_key<T: Keyed>(rows: Seq<T>, id: i64) -> bool {
    exists|i: int| 0 <= i < rows.len() && (#[trigger] rows[i]).key() == id
}

/// No row has an id above `last`.
pub open spec fn keys_up_to<T: Keyed>(rows: Seq<T>, last: i64) -> bool {
    forall|i: int| 0 <= i < rows.len() ==> (#[trigger] rows[i]).key() <= last
}

/// The section with the id belongs to the store.
pub open spec fn section_in_store(sections: Seq<Section>, id: i64, store_id: i64) -> bool {
    exists|i: int|
        0 <= i < sections.len() && (#[trigger] sections[i]).id == id && sections[i].store_id
            == store_id
}

/// The item names a store only if the store exists, and a section only if the
/// section exists and belongs to the store that the item names.
pub open spec fn placed(item: Item, stores: Seq<Store>, sections: Seq<Section>) -> bool {
    place_exists(item.store_id, item.section_id, stores, sections)
}

/// The place exists: the store, if one is named, and the section, if one is
/// named, and then a store is named too and the section is one of its own.
pub open spec fn place_exists(
    store_id: Option<i64>,
    section_id: Option<i64>,
    stores: Seq<Store>,
    sections: Seq<Section>,
) -> bool {
    &&& store_id matches Some(id) ==> has_key(stores, id)
    &&& section_id matches Some(id) ==> store_id is Some && section_in_store(
        sections,
        id,
        store_id->0,
    )
}

/// The store that owns the section with the id, if there is such a section.
pub open spec fn section_owner(sections: Seq<Section>, id: i64) -> Option<i64> {
    if has_key(sections, id) {
        Some(
            sections[choose|i: int| 0 <= i < sections.len() && (#[trigger] sections[i]).key() == id].store_id,
        )
    } else {
        None
    }
}

/// Where ids are unique, the section's owner is the store of any row with the id.
pub proof fn lemma_section_owner(sections: Seq<Section>, at: int)
    requires
        unique_keys(sections),
        0 <= at < sections.len(),
    ensures
        section_owner(sections, sections[at].id) == Some(sections[at].store_id),
        forall|store_id: i64|
            section_in_store(sections, sections[at].id, store_id) <==> store_id
                == sections[at].store_id,
{
    let id = sections[at].id;
    assert(sections[at].key() == id);
    let w = choose|i: int| 0 <= i < sections.len() && (#[trigger] sections[i]).key() == id;
    if w < at {
        assert(sections[w].key() != sections[at].key());
    } else if at < w {
        assert(sections[at].key() != sections[w].key());
    }
    assert forall|store_id: i64| section_in_store(sections, id, store_id) implies store_id
        == sections[at].store_id by {
        let v = choose|i: int|
            0 <= i < sections.len() && (#[trigger] sections[i]).id == id && sections[i].store_id
                == store_id;
        if v < at {
            assert(sections[v].key() != sections[at].key());
        } else if at < v {
            assert(sections[at].key() != sections[v].key());
        }
    }
}

/// The error of a table operation.
#[derive(Debug, Clone, Copy, PartialEq, Eq, Structural)]
pub enum DbError {
    /// No row has the id.
    RowNotFound,
    /// The row would name a store or section that does not exist, or a
    /// section of another store.
    Constraint,
    /// The next id or order value would leave the range of the column.
    OutOfRange,
}

/// The tables. Ids are handed out in ascending order from 1 and never again.
#[derive(Debug)]
pub struct Db {
    pub stores: Vec<Store>,
    pub sections: Vec<Section>,
    pub items: Vec<Item>,
    pub last_store_id: i64,
    pub last_section_id: i64,
    pub last_item_id: i64,
}

impl Db {
    /// The tables are consistent: ids are unique in each table and were handed
    /// out, every section belongs to a store that exists, and every item is
    /// `placed`.
    pub open spec fn wf(&self) -> bool {
        &&& unique_keys(self.stores@)
        &&& unique_keys(self.sections@)
        &&& unique_keys(self.items@)
        &&& 0 <= self.last_store_id
        &&& 0 <= self.last_section_id
        &&& 0 <= self.last_item_id
        &&& keys_up_to(self.stores@, self.last_store_id)
        &&& keys_up_to(self.sections@, self.last_section_id)
        &&& keys_up_to(self.items@, self.last_item_id)
        &&& forall|i: int|
            0 <= i < self.sections@.len() ==> has_key(
                self.stores@,
                (#[trigger] self.sections@[i]).store_id,
            )
        &&& forall|i: int|
            0 <= i < self.items@.len() ==> placed(
                #[trigger] self.items@[i],
                self.stores@,
                self.sections@,
            )
    }

    /// Empty tables.
    pub fn new() -> (db: Db)
        ensures
            db.wf(),
            db.stores@.len() == 0,
            db.sections@.len() == 0,
            db.items@.len() == 0,
            db.last_store_id == 0,
            db.last_section_id == 0,
            db.last_item_id == 0,
    {
        Db {
            stores: Vec::new(),
            sections: Vec::new(),
            items: Vec::new(),
            last_store_id: 0,
            last_section_id: 0,
            last_item_id: 0,
        }
    }
}

/// A new row with an id above all others keeps the ids unique, and every id
/// that the table had is still there.
pub proof fn lemma_push_row<T: Keyed>(rows: Seq<T>, row: T, last: i64)
    requires
        unique_keys(rows),
        keys_up_to(rows, last),
        row.key() > last,
    ensures
        unique_keys(rows.push(row)),
        keys_up_to(rows.push(row), row.key()),
        has_key(rows.push(row), row.key()),
        forall|id: i64| has_key(rows, id) ==> has_key(rows.push(row), id),
        forall|id: i64| has_key(rows.push(row), id) ==> has_key(rows, id) || id == row.key(),
{
    let more = rows.push(row);
    assert(more[rows.len() as int].key() == row.key());
    assert forall|id: i64| has_key(rows, id) implies has_key(more, id) by {
        let i = choose|i: int| 0 <= i < rows.len() && (#[trigger] rows[i]).key() == id;
        assert(more[i].key() == id);
    }
    assert forall|id: i64| has_key(more, id) implies has_key(rows, id) || id == row.key() by {
        let i = choose|i: int| 0 <= i < more.len() && (#[trigger] more[i]).key() == id;
        if i < rows.len() {
            assert(rows[i].key() == id);
        }
    }
}

/// A row put in the place of one with the same id leaves the ids as they were.
pub proof fn lemma_replace_row<T: Keyed>(rows: Seq<T>, at: int, row: T, last: i64)
    requires
        unique_keys(rows),
        keys_up_to(rows, last),
        0 <= at < rows.len(),
        row.key() == rows[at].key(),
    ensures
        unique_keys(rows.update(at, row)),
        keys_up_to(rows.update(at, row), last),
        forall|id: i64| has_key(rows, id) <==> has_key(rows.update(at, row), id),
{
    let changed = rows.update(at, row);
    assert forall|id: i64| has_key(rows, id) implies has_key(changed, id) by {
        let i = choose|i: int| 0 <= i < rows.len() && (#[trigger] rows[i]).key() == id;
        assert(changed[i].key() == id);
    }
    assert forall|id: i64| has_key(changed, id) implies has_key(rows, id) by {
        let i = choose|i: int| 0 <= i < changed.len() && (#[trigger] changed[i]).key() == id;
        assert(rows[i].key() == id);
    }
}

/// The rows that a predicate keeps: each of them is a row of the table that
/// the predicate holds of, every such row is kept, and the ids stay unique.
pub proof fn lemma_kept_rows<T: Keyed>(rows: Seq<T>, keep: spec_fn(T) -> bool, last: i64)
    requires
        unique_keys(rows),
        keys_up_to(rows, last),
    ensures
        unique_keys(rows.filter(keep)),
        keys_up_to(rows.filter(keep), last),
        forall|i: int|
            0 <= i < rows.filter(keep).len() ==> keep(#[trigger] rows.filter(keep)[i])
                && rows.contains(rows.filter(keep)[i]),
        forall|i: int|
            0 <= i < rows.len() && keep(#[trigger] rows[i]) ==> rows.filter(keep).contains(rows[i]),
    decreases rows.len(),
{
    reveal(Seq::filter);
    if rows.len() > 0 {
        let front = rows.drop_last();
        let last_row = rows.last();
        assert forall|i: int, j: int|
            #![trigger front[i], front[j]]
            0 <= i < j < front.len() implies front[i].key() != front[j].key() by {
            assert(front[i] == rows[i] && front[j] == rows[j]);
        }
        assert forall|i: int| 0 <= i < front.len() implies (#[trigger] front[i]).key() <= last by {
            assert(front[i] == rows[i]);
        }
        lemma_kept_rows(front, keep, last);
        let kept_front = front.filter(keep);
        let kept = rows.filter(keep);
        assert forall|i: int| 0 <= i < kept.len() implies keep(#[trigger] kept[i]) && rows.contains(
            kept[i],
        ) by {
            if i < kept_front.len() {
                assert(kept[i] == kept_front[i]);
                assert(front.contains(kept_front[i]));
                let w = choose|w: int| 0 <= w < front.len() && front[w] == kept_front[i];
                assert(rows[w] == kept[i]);
            } else {
                assert(kept[i] == last_row);
                assert(rows[rows.len() - 1] == last_row);
            }
        }
        assert forall|i: int| 0 <= i < rows.len() && keep(#[trigger] rows[i]) implies kept.contains(
            rows[i],
        ) by {
            if i < front.len() {
                assert(front[i] == rows[i]);
                assert(kept_front.contains(front[i]));
                let w = choose|w: int| 0 <= w < kept_front.len() && kept_front[w] == front[i];
                assert(kept[w] == rows[i]);
            } else {
                assert(kept[kept.len() - 1] == rows[i]);
            }
        }
        assert forall|i: int, j: int|
            #![trigger kept[i], kept[j]]
            0 <= i < j < kept.len() implies kept[i].key() != kept[j].key() by {
            if j < kept_front.len() {
                assert(kept[i] == kept_front[i] && kept[j] == kept_front[j]);
            } else {
                assert(kept[j] == last_row);
                assert(kept[i] == kept_front[i]);
                assert(front.contains(kept_front[i]));
                let w = choose|w: int| 0 <= w < front.len() && front[w] == kept_front[i];
                assert(rows[w] == kept[i]);
                assert(rows[rows.len() - 1] == last_row);
            }
        }
        assert forall|i: int| 0 <= i < kept.len() implies (#[trigger] kept[i]).key() <= last by {
            let w = choose|w: int| 0 <= w < rows.len() && rows[w] == kept[i];
            assert(rows[w].key() <= last);
        }
    }
}

/// The index of a row with the id.
pub open spec fn index_of_key<T: Keyed>(rows: Seq<T>, id: i64) -> int {
    choose|i: int| 0 <= i < rows.len() && (#[trigger] rows[i]).key() == id
}

/// Where ids are unique, the index of a row's id is the row's index.
pub proof fn lemma_index_of_key<T: Keyed>(rows: Seq<T>, at: int)
    requires
        unique_keys(rows),
        0 <= at < rows.len(),
    ensures
        index_of_key(rows, rows[at].key()) == at,
{
    let id = rows[at].key();
    let w = index_of_key(rows, id);
    assert(rows[at].key() == id);
    if w < at {
        assert(rows[w].key() != rows[at].key());
    } else if at < w {
        assert(rows[at].key() != rows[w].key());
    }
}

/// Sorting keeps the ids unique.
pub proof fn lemma_sort_keeps_keys<T: Keyed + Ranked>(rows: Seq<T>)
    requires
        unique_keys(rows),
    ensures
        unique_keys(stable_sort(rows)),
    decreases rows.len(),
{
    if rows.len() > 0 {
        let first = rows[0];
        let tail = rows.drop_first();
        assert forall|i: int, j: int|
            #![trigger tail[i], tail[j]]
            0 <= i < j < tail.len() implies tail[i].key() != tail[j].key() by {
            assert(tail[i] == rows[i + 1] && tail[j] == rows[j + 1]);
        }
        lemma_sort_keeps_keys(tail);
        lemma_sort_same_elements(tail);
        lemma_sort_len(tail);
        let rest = stable_sort(tail);
        lemma_entry_point(first, rest);
        let p = entry_point(first, rest);
        let out = rest.insert(p, first);
        assert forall|i: int| 0 <= i < rest.len() implies (#[trigger] rest[i]).key()
            != first.key() by {
            assert(rest.contains(rest[i]));
            let w = choose|w: int| 0 <= w < tail.len() && tail[w] == rest[i];
            assert(rows[w + 1] == rest[i]);
            assert(rows[0].key() != rows[w + 1].key());
        }
        assert forall|i: int, j: int|
            #![trigger out[i], out[j]]
            0 <= i < j < out.len() implies out[i].key() != out[j].key() by {
            let a = if i < p {
                i
            } else {
                i - 1
            };
            let b = if j < p {
                j
            } else {
                j - 1
            };
            if i == p {
                assert(out[j] == rest[b]);
            } else if j == p {
                assert(out[i] == rest[a]);
            } else {
                assert(out[i] == rest[a] && out[j] == rest[b]);
            }
        }
    }
}

/// The rows that the test keeps, in their order. `kept` is what the test decides.
pub(crate) fn select<T: Keyed, F: Fn(&T) -> bool>(
    rows: &Vec<T>,
    keep: F,
    Ghost(kept): Ghost<spec_fn(T) -> bool>,
) -> (found: Vec<T>)
    requires
        forall|row: &T| #[trigger] keep.requires((row,)),
        forall|row: &T, verdict: bool| #[trigger] keep.ensures((row,), verdict) ==> verdict == kept(*row),
    ensures
        found@ == rows@.filter(kept),
{
    let mut found: Vec<T> = Vec::new();
    let mut at: usize = 0;
    proof {
        assert(rows@.take(0) =~= Seq::<T>::empty());
        reveal(Seq::filter);
    }
    while at < rows.len()
        invariant
            at <= rows.len(),
            found@ == rows@.take(at as int).filter(kept),
            forall|row: &T| #[trigger] keep.requires((row,)),
            forall|row: &T, verdict: bool| #[trigger] keep.ensures((row,), verdict) ==> verdict == kept(*row),
        decreases rows.len() - at,
    {
        proof {
            assert(rows@.take(at + 1) =~= rows@.take(at as int).push(rows@[at as int]));
            rows@.take(at as int).lemma_filter_push(rows@[at as int], kept);
        }
        if keep(&rows[at]) {
            found.push(rows[at].copy());
        }
        at += 1;
    }
    proof {
        assert(rows@.take(at as int) =~= rows@);
    }
    found
}

/// The index of the first row with the id.
pub fn position<T: Keyed>(rows: &Vec<T>, id: i64) -> (found: Option<usize>)
    ensures
        found is None <==> !has_key(rows@, id),
        found matches Some(at) ==> at < rows@.len() && rows@[at as int].key() == id && forall|i: int|
            0 <= i < at ==> (#[trigger] rows@[i]).key() != id,
{
    let mut at: usize = 0;
    while at < rows.len()
        invariant
            at <= rows.len(),
            forall|i: int| 0 <= i < at ==> (#[trigger] rows@[i]).key() != id,
        decreases rows.len() - at,
    {
        if rows[at].id() == id {
            return Some(at);
        }
        at += 1;
    }
    None
}

/// The next id after `last`, if the column has one.
pub fn next_id(last: i64) -> (id: Result<i64, DbError>)
    ensures
        last < i64::MAX ==> id == Ok::<i64, DbError>((last + 1) as i64),
        last == i64::MAX ==> id == Err::<i64, DbError>(DbError::OutOfRange),
{
    match last.checked_add(1) {
        Some(id) => Ok(id),
        None => Err(DbError::OutOfRange),
    }
}

} // verus!
