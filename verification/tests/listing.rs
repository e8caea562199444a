use shoplist::handler::item::{assemble, ItemList};
use shoplist::store::item::Item;
use shoplist::store::section::Section;
use shoplist::store::shop::Store;

fn item(id: i64, store_id: Option<i64>, section_id: Option<i64>, ord: i64, updated_at: i128) -> Item {
    Item {
        id,
        store_id,
        section_id,
        name: format!("item {id}"),
        checked: false,
        ord,
        created_at: 0,
        updated_at,
    }
}

fn shop(id: i64, name: &str, updated_at: i128) -> Store {
    Store { id, name: name.to_string(), created_at: 0, updated_at }
}

fn section(id: i64, store_id: i64, ord: i64, updated_at: i128) -> Section {
    Section { id, store_id, name: format!("section {id}"), ord, created_at: 0, updated_at }
}

fn ids(items: &[Item]) -> Vec<i64> {
    items.iter().map(|item| item.id).collect()
}

fn store_ids(list: &ItemList) -> Vec<i64> {
    list.stores.iter().map(|entry| entry.store.id).collect()
}

#[test]
fn listing_of_nothing_is_empty() {
    let list = assemble(&vec![], &vec![], &vec![]);
    assert!(list.unassigned.is_empty());
    assert!(list.stores.is_empty());
}

#[test]
fn items_fall_into_their_three_kinds_of_scope() {
    let items = vec![
        item(1, None, None, 1, 0),
        item(2, Some(1), None, 1, 0),
        item(3, Some(1), Some(7), 1, 0),
        item(4, Some(2), None, 1, 0),
    ];
    let stores = vec![shop(1, "a", 0), shop(2, "b", 0)];
    let sections = vec![section(7, 1, 1, 0)];
    let list = assemble(&items, &stores, &sections);
    assert_eq!(ids(&list.unassigned), vec![1]);
    assert_eq!(store_ids(&list), vec![1, 2]);
    assert_eq!(ids(&list.stores[0].unassigned), vec![2]);
    assert_eq!(list.stores[0].sections.len(), 1);
    assert_eq!(list.stores[0].sections[0].section.id, 7);
    assert_eq!(ids(&list.stores[0].sections[0].items), vec![3]);
    assert_eq!(ids(&list.stores[1].unassigned), vec![4]);
    assert!(list.stores[1].sections.is_empty());
}

#[test]
fn checked_items_are_never_listed() {
    let mut done = item(2, Some(1), Some(7), 1, 0);
    done.checked = true;
    let mut loose = item(3, None, None, 1, 0);
    loose.checked = true;
    let mut in_store = item(4, Some(1), None, 1, 0);
    in_store.checked = true;
    let items = vec![item(1, Some(1), Some(7), 2, 0), done, loose, in_store];
    let list = assemble(&items, &vec![shop(1, "a", 0)], &vec![section(7, 1, 1, 0)]);
    assert!(list.unassigned.is_empty());
    assert!(list.stores[0].unassigned.is_empty());
    assert_eq!(ids(&list.stores[0].sections[0].items), vec![1]);
}

#[test]
fn stores_sort_by_name_then_by_last_change_descending() {
    let stores = vec![
        shop(1, "Market", 5),
        shop(2, "Bakery", 1),
        shop(3, "Market", 9),
        shop(4, "Bakery", 1),
        shop(5, "Bake", 0),
    ];
    let list = assemble(&vec![], &stores, &vec![]);
    assert_eq!(store_ids(&list), vec![5, 2, 4, 3, 1]);
}

#[test]
fn names_sort_by_code_point() {
    let stores = vec![shop(1, "b", 0), shop(2, "B", 0), shop(3, "", 0), shop(4, "é", 0), shop(5, "z", 0)];
    let list = assemble(&vec![], &stores, &vec![]);
    assert_eq!(store_ids(&list), vec![3, 2, 1, 5, 4]);
}

#[test]
fn items_sort_by_order_value_then_by_last_change_descending() {
    let items = vec![
        item(1, None, None, 2, 10),
        item(2, None, None, 1, 10),
        item(3, None, None, 2, 30),
        item(4, None, None, 2, 20),
        item(5, None, None, -1, 0),
        item(6, None, None, 2, 20),
    ];
    let list = assemble(&items, &vec![], &vec![]);
    assert_eq!(ids(&list.unassigned), vec![5, 2, 3, 4, 6, 1]);
}

#[test]
fn sections_sort_by_order_value_then_by_last_change_descending() {
    let sections = vec![section(1, 1, 2, 0), section(2, 1, 1, 5), section(3, 1, 1, 7), section(4, 2, 0, 0)];
    let list = assemble(&vec![], &vec![shop(1, "a", 0)], &sections);
    let listed: Vec<i64> = list.stores[0].sections.iter().map(|entry| entry.section.id).collect();
    assert_eq!(listed, vec![3, 2, 1]);
}

#[test]
fn stores_and_sections_without_items_are_listed() {
    let list = assemble(&vec![], &vec![shop(1, "a", 0)], &vec![section(7, 1, 1, 0)]);
    assert_eq!(store_ids(&list), vec![1]);
    assert_eq!(list.stores[0].sections.len(), 1);
    assert!(list.stores[0].sections[0].items.is_empty());
}

#[test]
fn items_of_a_missing_store_or_section_are_not_listed() {
    let items = vec![item(1, Some(9), None, 1, 0), item(2, Some(1), Some(8), 1, 0)];
    let list = assemble(&items, &vec![shop(1, "a", 0)], &vec![section(7, 1, 1, 0)]);
    assert!(list.unassigned.is_empty());
    assert!(list.stores[0].unassigned.is_empty());
    assert!(list.stores[0].sections[0].items.is_empty());
}
