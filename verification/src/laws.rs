//! What holds of the list whatever is done with it.

use crate::db::{
    has_key, index_of_key, lemma_index_of_key, lemma_kept_rows, lemma_section_owner,
    lemma_sort_keeps_keys, section_owner, unique_keys, Db, Keyed,
};
use crate::handler::item::{
    listing, move_rows, moved_row, section_listing, sibling_in, store_listing, Scope,
};
use crate::reorder::{landing_ord, landing_slot};
use crate::handler::organize::{
    organize_plan, proposal_groups, reassign, sections_named, Categorization,
};
use crate::rank::{lemma_sort_len, lemma_sort_ordered, lemma_sort_same_elements, stable_sort, Ranked};
use crate::store::item::{
    active_in, in_scope, in_section, lemma_top_ord, max_ord_of, scope_items, top_ord, Item,
};
use crate::store::section::{of_store, Section};
use crate::store::shop::Store;
use vstd::prelude::*;

verus! {

/// The item is active and has the order value that `create` gives after the
/// rows `before`: one more than its scope has reached.
pub open spec fn created_after(before: Seq<Item>, item: Item) -> bool {
    !item.checked && item.ord == max_ord_of(before, item.store_id, item.section_id) + 1
}

/// `rows` came from `start` by creating items, one after another, in any
/// scopes, with nothing removed, checked or moved.
pub open spec fn grown_by_creates(start: Seq<Item>, rows: Seq<Item>) -> bool {
    &&& start.len() <= rows.len()
    &&& rows.take(start.len() as int) == start
    &&& forall|i: int| start.len() <= i < rows.len() ==> created_after(rows.take(i), #[trigger] rows[i])
}

/// The order value of an item.
pub open spec fn ord_of() -> spec_fn(Item) -> i64 {
    |item: Item| item.ord
}

/// The order values of the active items of a scope, in the order of the rows.
pub open spec fn scope_ords(items: Seq<Item>, store_id: Option<i64>, section_id: Option<i64>) -> Seq<
    i64,
> {
    scope_items(items, store_id, section_id).map_values(ord_of())
}

/// The numbers from 1 to `n`.
pub open spec fn counting(n: nat) -> Seq<i64> {
    Seq::new(n, |j: int| (j + 1) as i64)
}

/// A scope whose active items are numbered 1, 2, .., n has reached n.
pub proof fn lemma_counted_scope_has_reached(
    items: Seq<Item>,
    store_id: Option<i64>,
    section_id: Option<i64>,
)
    requires
        scope_ords(items, store_id, section_id) == counting(
            scope_items(items, store_id, section_id).len(),
        ),
        scope_items(items, store_id, section_id).len() < i64::MAX,
    ensures
        max_ord_of(items, store_id, section_id) == scope_items(items, store_id, section_id).len(),
{
    broadcast use vstd::seq_lib::group_filter_ensures;

    let inside = scope_items(items, store_id, section_id);
    let ords = scope_ords(items, store_id, section_id);
    let n = inside.len();
    lemma_top_ord(items, store_id, section_id);
    if n == 0 {
        if top_ord(items, store_id, section_id) is Some {
            let i = choose|i: int|
                0 <= i < items.len() && active_in(#[trigger] items[i], store_id, section_id);
            assert(in_scope(store_id, section_id)(items[i]));
            assert(inside.contains(items[i]));
        }
    } else {
        let top_row = inside[n - 1];
        assert(ords[n - 1] == n);
        assert(in_scope(store_id, section_id)(top_row));
        assert(inside.contains(top_row));
        items.lemma_filter_contains_rev(in_scope(store_id, section_id), top_row);
        let w = choose|w: int| 0 <= w < items.len() && items[w] == top_row;
        assert(active_in(items[w], store_id, section_id));
        let top = top_ord(items, store_id, section_id)->0;
        let i = choose|i: int|
            0 <= i < items.len() && active_in(#[trigger] items[i], store_id, section_id)
                && items[i].ord == top;
        assert(in_scope(store_id, section_id)(items[i]));
        assert(inside.contains(items[i]));
        let k = choose|k: int| 0 <= k < inside.len() && inside[k] == items[i];
        assert(ords[k] == k + 1);
    }
}

/// Items created one after another in a scope that had no active item are
/// numbered 1, 2, .., N in the order in which they were created, whatever was
/// created in other scopes meanwhile.
pub proof fn lemma_creates_count_up(
    start: Seq<Item>,
    rows: Seq<Item>,
    store_id: Option<i64>,
    section_id: Option<i64>,
)
    requires
        grown_by_creates(start, rows),
        scope_items(start, store_id, section_id).len() == 0,
    ensures
        scope_ords(rows, store_id, section_id) == counting(
            scope_items(rows, store_id, section_id).len(),
        ),
    decreases rows.len(),
{
    if rows.len() == start.len() {
        assert(rows.take(start.len() as int) =~= rows);
        assert(scope_ords(rows, store_id, section_id) =~= counting(0));
    } else {
        let front = rows.drop_last();
        let last = rows.last();
        let n = front.len() as int;
        assert(front =~= rows.take(n));
        assert(front.take(start.len() as int) =~= rows.take(start.len() as int));
        assert forall|i: int| start.len() <= i < front.len() implies created_after(
            front.take(i),
            #[trigger] front[i],
        ) by {
            assert(front.take(i) =~= rows.take(i));
            assert(created_after(rows.take(i), rows[i]));
        }
        lemma_creates_count_up(start, front, store_id, section_id);
        assert(rows =~= front.push(last));
        front.lemma_filter_push(last, in_scope(store_id, section_id));
        let inside = scope_items(front, store_id, section_id);
        if active_in(last, store_id, section_id) {
            assert(created_after(rows.take(n), rows[n]));
            front.lemma_filter_len(in_scope(store_id, section_id));
            assert(max_ord_of(front, store_id, section_id) + 1 <= i64::MAX);
            if inside.len() < i64::MAX {
                lemma_counted_scope_has_reached(front, store_id, section_id);
            } else {
                assert(scope_ords(front, store_id, section_id)[i64::MAX - 1] == i64::MAX);
                let top_row = inside[i64::MAX - 1];
                lemma_top_ord(front, store_id, section_id);
                assert(inside.contains(top_row));
                front.lemma_filter_contains_rev(in_scope(store_id, section_id), top_row);
                front.lemma_filter_pred(in_scope(store_id, section_id), i64::MAX - 1);
                let w = choose|w: int| 0 <= w < front.len() && front[w] == top_row;
                assert(active_in(front[w], store_id, section_id));
            }
            assert(last.ord == inside.len() + 1);
            assert(scope_items(rows, store_id, section_id) == inside.push(last));
            assert(scope_ords(rows, store_id, section_id) =~= scope_ords(
                front,
                store_id,
                section_id,
            ).push(last.ord));
            assert(scope_ords(rows, store_id, section_id) =~= counting(
                scope_items(rows, store_id, section_id).len(),
            ));
        }
    }
}

/// All items of the sequence are active.
pub open spec fn all_active(items: Seq<Item>) -> bool {
    forall|i: int| 0 <= i < items.len() ==> !(#[trigger] items[i]).checked
}

/// The listing holds no checked item: not among the items of no store, not
/// in a store, not in a section.
pub proof fn lemma_listing_is_active(items: Seq<Item>, stores: Seq<Store>, sections: Seq<Section>)
    ensures
        all_active(listing(items, stores, sections).unassigned),
        forall|s: int|
            0 <= s < listing(items, stores, sections).stores.len() ==> all_active(
                (#[trigger] listing(items, stores, sections).stores[s]).unassigned,
            ),
        forall|s: int, c: int|
            0 <= s < listing(items, stores, sections).stores.len() && 0 <= c < listing(
                items,
                stores,
                sections,
            ).stores[s].sections.len() ==> all_active(
                (#[trigger] listing(items, stores, sections).stores[s].sections[c]).items,
            ),
{
    let list = listing(items, stores, sections);
    lemma_sorted_scope_is_active(items, in_scope(None, None));
    assert forall|s: int| 0 <= s < list.stores.len() implies all_active(
        (#[trigger] list.stores[s]).unassigned,
    ) by {
        let store = stable_sort(stores)[s];
        assert(list.stores[s] == store_listing(store, items, sections));
        lemma_sorted_scope_is_active(items, in_scope(Some(store.id), None));
    }
    assert forall|s: int, c: int|
        0 <= s < list.stores.len() && 0 <= c < list.stores[s].sections.len() implies all_active(
        (#[trigger] list.stores[s].sections[c]).items,
    ) by {
        let store = stable_sort(stores)[s];
        assert(list.stores[s] == store_listing(store, items, sections));
        let section = stable_sort(sections.filter(of_store(store.id)))[c];
        assert(list.stores[s].sections[c] == section_listing(section, items));
        lemma_sorted_scope_is_active(items, in_section(section.id));
    }
}

/// The kept items, sorted, are active where the predicate keeps only active items.
proof fn lemma_sorted_scope_is_active(items: Seq<Item>, keep: spec_fn(Item) -> bool)
    requires
        forall|item: Item| #[trigger] keep(item) ==> !item.checked,
    ensures
        all_active(stable_sort(items.filter(keep))),
{
    broadcast use vstd::seq_lib::group_filter_ensures;

    let kept = items.filter(keep);
    let sorted = stable_sort(kept);
    lemma_sort_same_elements(kept);
    assert forall|i: int| 0 <= i < sorted.len() implies !(#[trigger] sorted[i]).checked by {
        assert(sorted.contains(sorted[i]));
        assert(kept.contains(sorted[i]));
        let k = choose|k: int| 0 <= k < kept.len() && kept[k] == sorted[i];
        assert(keep(kept[k]));
    }
}

/// In consistent tables every item that lies in a section names the store
/// that owns the section.
pub proof fn lemma_items_follow_their_sections(db: Db)
    requires
        db.wf(),
    ensures
        forall|i: int|
            0 <= i < db.items@.len() && (#[trigger] db.items@[i]).section_id is Some
                ==> db.items@[i].store_id == section_owner(
                db.sections@,
                db.items@[i].section_id->0,
            ),
{
    assert forall|i: int|
        0 <= i < db.items@.len() && (#[trigger] db.items@[i]).section_id is Some implies db.items@[i].store_id
        == section_owner(db.sections@, db.items@[i].section_id->0) by {
        let item = db.items@[i];
        assert(crate::db::placed(item, db.stores@, db.sections@));
        let at = choose|at: int|
            0 <= at < db.sections@.len() && (#[trigger] db.sections@[at]).id == item.section_id->0
                && db.sections@[at].store_id == item.store_id->0;
        lemma_section_owner(db.sections@, at);
    }
}

/// Two predicates that agree on every element keep the same elements.
pub proof fn lemma_filter_agrees<T>(s: Seq<T>, keep: spec_fn(T) -> bool, other: spec_fn(T) -> bool)
    requires
        forall|i: int| 0 <= i < s.len() ==> keep(#[trigger] s[i]) == other(s[i]),
    ensures
        s.filter(keep) == s.filter(other),
    decreases s.len(),
{
    reveal(Seq::filter);
    if s.len() > 0 {
        let front = s.drop_last();
        assert forall|i: int| 0 <= i < front.len() implies keep(#[trigger] front[i]) == other(
            front[i],
        ) by {
            assert(front[i] == s[i]);
        }
        lemma_filter_agrees(front, keep, other);
        assert(keep(s[s.len() - 1]) == other(s[s.len() - 1]));
    }
}

/// In consistent tables the active items that a section lists are the active
/// items of its scope: those that name the section and the store that owns it.
pub proof fn lemma_section_lists_its_scope(db: Db, at: int)
    requires
        db.wf(),
        0 <= at < db.sections@.len(),
    ensures
        db.items@.filter(in_section(db.sections@[at].id)) == scope_items(
            db.items@,
            Some(db.sections@[at].store_id),
            Some(db.sections@[at].id),
        ),
{
    let section = db.sections@[at];
    lemma_section_owner(db.sections@, at);
    assert forall|i: int| 0 <= i < db.items@.len() implies in_section(section.id)(
        #[trigger] db.items@[i],
    ) == in_scope(Some(section.store_id), Some(section.id))(db.items@[i]) by {
        assert(crate::db::placed(db.items@[i], db.stores@, db.sections@));
    }
    lemma_filter_agrees(
        db.items@,
        in_section(section.id),
        in_scope(Some(section.store_id), Some(section.id)),
    );
}

/// A classifier that proposes nothing leaves every item where it is, with its
/// order value.
pub proof fn lemma_empty_proposal_changes_nothing(
    items: Seq<Item>,
    sections: Seq<Section>,
    store_id: i64,
    now: i128,
)
    ensures
        items.map_values(
            reassign(
                organize_plan(
                    items,
                    store_id,
                    proposal_groups(items, sections, store_id, Seq::<Categorization>::empty()),
                ),
                now,
            ),
        ) == items,
{
    reveal(Seq::filter);
    let none = Seq::<Categorization>::empty();
    let groups = proposal_groups(items, sections, store_id, none);
    assert(sections_named(Seq::<Categorization>::empty()).len() == 0);
    assert(groups.len() == 0);
    let plan = organize_plan(items, store_id, groups);
    assert(plan.len() == 0);
    assert(items.map_values(reassign(plan, now)) =~= items);
}

/// Numbers that ascend strictly, lie between 1 and `m`, and among which every
/// number from 1 to `m` occurs, are the numbers 1, 2, .., m.
pub proof fn lemma_counts_from_one(ords: Seq<int>, m: int)
    requires
        forall|i: int, j: int| 0 <= i < j < ords.len() ==> ords[i] < ords[j],
        forall|i: int| 0 <= i < ords.len() ==> 1 <= #[trigger] ords[i] <= m,
        forall|v: int| 1 <= v <= m ==> #[trigger] ords.contains(v),
    ensures
        ords.len() == m || (m < 0 && ords.len() == 0),
        forall|i: int| 0 <= i < ords.len() ==> #[trigger] ords[i] == i + 1,
{
    assert forall|i: int| 0 <= i < ords.len() implies #[trigger] ords[i] == i + 1 by {
        lemma_counts_up_to(ords, m, i);
    }
    if m >= 1 {
        assert(ords.contains(m));
        let k = choose|k: int| 0 <= k < ords.len() && ords[k] == m;
        assert(ords[k] == k + 1);
        if ords.len() > m {
            assert(ords[m] == m + 1);
        }
    } else if ords.len() > 0 {
        assert(1 <= ords[0] <= m);
    }
}

/// The step of `lemma_counts_from_one`: the number at index `i` is `i + 1`.
proof fn lemma_counts_up_to(ords: Seq<int>, m: int, i: int)
    requires
        forall|i: int, j: int| 0 <= i < j < ords.len() ==> ords[i] < ords[j],
        forall|i: int| 0 <= i < ords.len() ==> 1 <= #[trigger] ords[i] <= m,
        forall|v: int| 1 <= v <= m ==> #[trigger] ords.contains(v),
        0 <= i < ords.len(),
    ensures
        ords[i] == i + 1,
    decreases i,
{
    if i > 0 {
        lemma_counts_up_to(ords, m, i - 1);
        assert(ords[i - 1] < ords[i]);
    }
    assert(1 <= ords[i] <= m);
    assert(ords.contains(i + 1));
    let k = choose|k: int| 0 <= k < ords.len() && ords[k] == i + 1;
    if k < i {
        lemma_counts_up_to(ords, m, k);
    } else if k > i {
        assert(ords[i] < ords[k]);
    }
}

/// Some item has the order value `v` and the id expected at place `v`.
spec fn shows(items: Seq<Item>, expected: Seq<i64>, v: int) -> bool {
    exists|i: int|
        0 <= i < items.len() && (#[trigger] items[i]).ord == v && items[i].id == expected[v - 1]
}

/// The id of an item.
pub open spec fn id_of() -> spec_fn(Item) -> i64 {
    |item: Item| item.id
}

/// After a move the scope that the item moved into lists, sorted, the items
/// that were there in their earlier order, with the item that moved at the
/// index that it asked for, or at the nearest end. This is stated of an
/// active item; a checked item moves too, but no listing shows it.
pub proof fn lemma_move_then_list(rows: Seq<Item>, id: i64, scope: Scope, index: i64, now: i128)
    requires
        unique_keys(rows),
        has_key(rows, id),
        !rows[index_of_key(rows, id)].checked,
        rows.filter(sibling_in(id, scope)).len() < i64::MAX - 1,
    ensures
        ({
            let order = stable_sort(rows.filter(sibling_in(id, scope)));
            let slot = landing_slot(index, order.len() as int);
            let after = rows.map_values(move_rows(id, scope, order, slot, now));
            stable_sort(scope_items(after, scope.store_id, scope.section_id)).map_values(id_of())
                == order.map_values(id_of()).insert(slot, id)
        }),
{
    broadcast use vstd::seq_lib::group_filter_ensures;

    let siblings = rows.filter(sibling_in(id, scope));
    let order = stable_sort(siblings);
    let n = order.len() as int;
    let slot = landing_slot(index, n);
    let change = move_rows(id, scope, order, slot, now);
    let after = rows.map_values(change);
    let inside = in_scope(scope.store_id, scope.section_id);
    let target = after.filter(inside);
    let sorted = stable_sort(target);
    let expected = order.map_values(id_of()).insert(slot, id);
    let mover = index_of_key(rows, id);

    lemma_sort_len(siblings);
    lemma_sort_same_elements(siblings);
    lemma_kept_rows(rows, sibling_in(id, scope), i64::MAX);
    lemma_sort_keeps_keys(siblings);
    assert forall|i: int, j: int|
        #![trigger after[i], after[j]]
        0 <= i < j < after.len() implies after[i].key() != after[j].key() by {
        assert(rows[i].key() != rows[j].key());
    }
    lemma_kept_rows(after, inside, i64::MAX);
    lemma_sort_keeps_keys(target);
    lemma_sort_same_elements(target);
    lemma_sort_len(target);
    lemma_sort_ordered(target);

    // Every item of the scope is the item that moved, with the order value of
    // its slot, or a sibling, with the order value of its rank.
    assert forall|x: Item| target.contains(x) implies (x.id == id && x.ord == slot + 1) || (x.id
        != id && 0 <= index_of_key(order, x.id) < n && order[index_of_key(order, x.id)].id == x.id
        && x.ord == landing_ord(index_of_key(order, x.id), slot)) by {
        let k = choose|k: int| 0 <= k < target.len() && target[k] == x;
        assert(inside(target[k]));
        after.lemma_filter_contains_rev(inside, x);
        let w = choose|w: int| 0 <= w < after.len() && after[w] == x;
        let row = rows[w];
        assert(x == moved_row(row, id, scope, order, slot, now));
        if row.id != id {
            assert(sibling_in(id, scope)(rows[w]));
            assert(siblings.contains(rows[w]));
            assert(order.contains(row));
            let r = choose|r: int| 0 <= r < order.len() && order[r] == row;
            assert(order[r].key() == row.id);
        }
    }

    // Every order value from 1 to n + 1 is that of an item of the scope, and
    // that item has the id expected at its place.
    assert forall|v: int| 1 <= v <= n + 1 implies #[trigger] shows(sorted, expected, v) by {
        let x = if v == slot + 1 {
            assert(rows[mover].key() == id);
            after[mover]
        } else {
            let r = if v <= slot {
                v - 1
            } else {
                v - 2
            };
            assert(order.contains(order[r]));
            assert(siblings.contains(order[r]));
            let k = choose|k: int| 0 <= k < siblings.len() && siblings[k] == order[r];
            assert(sibling_in(id, scope)(siblings[k]));
            rows.lemma_filter_contains_rev(sibling_in(id, scope), order[r]);
            let w = choose|w: int| 0 <= w < rows.len() && rows[w] == order[r];
            lemma_index_of_key(order, r);
            assert(expected[v - 1] == order[r].id);
            assert(after[w].ord == v);
            after[w]
        };
        assert(inside(x));
        assert(target.contains(x));
        assert(sorted.contains(x));
        let i = choose|i: int| 0 <= i < sorted.len() && sorted[i] == x;
        assert(sorted[i].ord == v && sorted[i].id == expected[v - 1]);
    }

    let ords = Seq::new(sorted.len(), |i: int| sorted[i].ord as int);
    assert forall|i: int, j: int| 0 <= i < j < ords.len() implies ords[i] < ords[j] by {
        assert(sorted[i].precedes(&sorted[j]));
        assert(sorted[i].key() != sorted[j].key());
        assert(sorted.contains(sorted[i]) && sorted.contains(sorted[j]));
        assert(target.contains(sorted[i]) && target.contains(sorted[j]));
        if sorted[i].id != id && sorted[j].id != id {
            let a = index_of_key(order, sorted[i].id);
            let b = index_of_key(order, sorted[j].id);
            assert(a != b);
        }
    }
    assert forall|i: int| 0 <= i < ords.len() implies 1 <= #[trigger] ords[i] <= n + 1 by {
        assert(sorted.contains(sorted[i]));
        assert(target.contains(sorted[i]));
    }
    assert forall|v: int| 1 <= v <= n + 1 implies #[trigger] ords.contains(v) by {
        assert(shows(sorted, expected, v));
        let i = choose|i: int|
            0 <= i < sorted.len() && (#[trigger] sorted[i]).ord == v && sorted[i].id == expected[v
                - 1];
        assert(ords[i] == v);
    }
    lemma_counts_from_one(ords, n + 1);
    assert forall|i: int| 0 <= i < sorted.len() implies sorted[i].id == expected[i] by {
        assert(shows(sorted, expected, i + 1));
        let k = choose|k: int|
            0 <= k < sorted.len() && (#[trigger] sorted[k]).ord == i + 1 && sorted[k].id
                == expected[i];
        assert(ords[k] == k + 1);
        assert(ords[i] == i + 1);
    }
    assert(sorted.map_values(id_of()) =~= expected);
}

/// Of two stores with one name the sorted list has the one changed last first.
pub proof fn lemma_stores_tie_by_last_change(stores: Seq<Store>, i: int, j: int)
    requires
        0 <= i < j < stores.len(),
        stable_sort(stores)[i].name@ == stable_sort(stores)[j].name@,
    ensures
        stable_sort(stores)[i].updated_at >= stable_sort(stores)[j].updated_at,
{
    lemma_sort_len(stores);
    lemma_sort_ordered(stores);
    let sorted = stable_sort(stores);
    assert(sorted[i].precedes(&sorted[j]));
}

/// Of two items with one order value the sorted list has the one changed last
/// first, and an item with a smaller order value stands before one with a
/// larger.
pub proof fn lemma_items_tie_by_last_change(items: Seq<Item>, i: int, j: int)
    requires
        0 <= i < j < items.len(),
    ensures
        stable_sort(items)[i].ord <= stable_sort(items)[j].ord,
        stable_sort(items)[i].ord == stable_sort(items)[j].ord ==> stable_sort(items)[i].updated_at
            >= stable_sort(items)[j].updated_at,
{
    lemma_sort_len(items);
    lemma_sort_ordered(items);
    let sorted = stable_sort(items);
    assert(sorted[i].precedes(&sorted[j]));
}

/// Of two sections with one order value the sorted list has the one changed
/// last first, and a section with a smaller order value stands before one
/// with a larger.
pub proof fn lemma_sections_tie_by_last_change(sections: Seq<Section>, i: int, j: int)
    requires
        0 <= i < j < sections.len(),
    ensures
        stable_sort(sections)[i].ord <= stable_sort(sections)[j].ord,
        stable_sort(sections)[i].ord == stable_sort(sections)[j].ord ==> stable_sort(
            sections,
        )[i].updated_at >= stable_sort(sections)[j].updated_at,
{
    lemma_sort_len(sections);
    lemma_sort_ordered(sections);
    let sorted = stable_sort(sections);
    assert(sorted[i].precedes(&sorted[j]));
}

} // verus!
