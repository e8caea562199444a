use shoplist::rank::{sort, Ranked};
use shoplist::store::item::Item;
use shoplist::store::section::Section;
use shoplist::store::shop::Store;
use shoplist::text::name_le;

fn item(id: i64, ord: i64, updated_at: i128) -> Item {
    Item {
        id,
        store_id: None,
        section_id: None,
        name: String::new(),
        checked: false,
        ord,
        created_at: 0,
        updated_at,
    }
}

fn shop(id: i64, name: &str, updated_at: i128) -> Store {
    Store { id, name: name.to_string(), created_at: 0, updated_at }
}

#[test]
fn sort_is_stable() {
    let sorted = sort(vec![item(1, 3, 0), item(2, 1, 0), item(3, 3, 0), item(4, 1, 0), item(5, 2, 0)]);
    assert_eq!(sorted.iter().map(|i| i.id).collect::<Vec<_>>(), vec![2, 4, 5, 1, 3]);
    assert!(sort(Vec::<Item>::new()).is_empty());
    let one = sort(vec![item(9, 0, 0)]);
    assert_eq!(one.len(), 1);
}

#[test]
fn sort_of_many_items_is_in_order() {
    let mut items = Vec::new();
    for n in 0..200i64 {
        items.push(item(n, (n * 37) % 101, (n % 7) as i128));
    }
    let sorted = sort(items);
    assert_eq!(sorted.len(), 200);
    for pair in sorted.windows(2) {
        assert!(pair[0].stands_before(&pair[1]));
        if pair[0].ord == pair[1].ord && pair[0].updated_at == pair[1].updated_at {
            assert!(pair[0].id < pair[1].id);
        }
    }
}

#[test]
fn items_and_sections_compare_by_order_value_then_last_change() {
    assert!(item(1, 1, 0).stands_before(&item(2, 2, 9)));
    assert!(!item(1, 2, 9).stands_before(&item(2, 1, 0)));
    assert!(item(1, 2, 9).stands_before(&item(2, 2, 3)));
    assert!(!item(1, 2, 3).stands_before(&item(2, 2, 9)));
    assert!(item(1, 2, 3).stands_before(&item(2, 2, 3)));
    let section = |ord: i64, updated_at: i128| Section {
        id: 1,
        store_id: 1,
        name: String::new(),
        ord,
        created_at: 0,
        updated_at,
    };
    assert!(section(1, 0).stands_before(&section(2, 9)));
    assert!(section(2, 9).stands_before(&section(2, 3)));
    assert!(!section(2, 3).stands_before(&section(2, 9)));
}

#[test]
fn stores_compare_by_name_then_last_change() {
    assert!(shop(1, "a", 0).stands_before(&shop(2, "b", 9)));
    assert!(!shop(1, "b", 9).stands_before(&shop(2, "a", 0)));
    assert!(shop(1, "a", 9).stands_before(&shop(2, "a", 3)));
    assert!(!shop(1, "a", 3).stands_before(&shop(2, "a", 9)));
    assert!(shop(1, "a", 3).stands_before(&shop(2, "a", 3)));
}

#[test]
fn names_compare_character_by_character() {
    assert!(name_le("", ""));
    assert!(name_le("", "a"));
    assert!(!name_le("a", ""));
    assert!(name_le("abc", "abc"));
    assert!(name_le("ab", "abc"));
    assert!(!name_le("abc", "ab"));
    assert!(name_le("abc", "abd"));
    assert!(!name_le("abd", "abc"));
    assert!(name_le("Z", "a"));
    assert!(name_le("z", "é"));
    assert!(name_le("é", "\u{10000}"));
    assert!(!name_le("\u{10000}", "\u{ffff}"));
    for (a, b) in [("kruh", "mleko"), ("Mleko", "mleko"), ("a", "a\u{0}"), ("šunka", "sir")] {
        assert_eq!(name_le(a, b), a <= b);
        assert_eq!(name_le(b, a), b <= a);
    }
}
