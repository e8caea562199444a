use shoplist::db::Db;
use shoplist::handler::item::{create, list, move_item, ItemCreateReq};
use shoplist::handler::organize::{organize, Categorization, CategorizationResponse};
use shoplist::handler::section::SectionNameReq;
use shoplist::handler::store::StoreNameReq;
use shoplist::handler::{section, store};
use shoplist::store::item::Item;

fn grocery() -> (Db, i64, i64, i64) {
    let mut db = Db::new();
    let shop = store::create(&mut db, StoreNameReq { name: "Grocery".to_string() }, 10).unwrap();
    let produce =
        section::create(&mut db, shop.id, SectionNameReq { name: "Produce".to_string() }, 11)
            .unwrap();
    let dairy =
        section::create(&mut db, shop.id, SectionNameReq { name: "Dairy".to_string() }, 12)
            .unwrap();
    (db, shop.id, produce.id, dairy.id)
}

fn add(db: &mut Db, store_id: Option<i64>, section_id: Option<i64>, name: &str, now: i128) -> Item {
    create(db, ItemCreateReq { store_id, section_id, name: name.to_string() }, now).unwrap()
}

fn answer(pairs: Vec<(i64, i64)>) -> CategorizationResponse {
    CategorizationResponse {
        categorized: pairs
            .into_iter()
            .map(|(item_id, section_id)| Categorization { section_id, item_id })
            .collect(),
    }
}

fn row(db: &Db, id: i64) -> &Item {
    db.items.iter().find(|item| item.id == id).unwrap()
}

#[test]
fn first_store_and_its_sections() {
    let mut db = Db::new();
    let shop = store::create(&mut db, StoreNameReq { name: "Grocery".to_string() }, 10).unwrap();
    assert_eq!(shop.id, 1);
    assert_eq!(shop.name, "Grocery");
    assert_eq!((shop.created_at, shop.updated_at), (10, 10));
    let produce =
        section::create(&mut db, 1, SectionNameReq { name: "Produce".to_string() }, 11).unwrap();
    let dairy =
        section::create(&mut db, 1, SectionNameReq { name: "Dairy".to_string() }, 12).unwrap();
    assert_eq!((produce.id, produce.store_id, produce.ord), (1, 1, 1));
    assert_eq!((dairy.id, dairy.store_id, dairy.ord), (2, 1, 2));
}

#[test]
fn first_item_of_a_store_outside_its_sections() {
    let (mut db, shop, _, _) = grocery();
    let milk = add(&mut db, Some(shop), None, "Milk", 20);
    assert_eq!(milk.ord, 1);
    assert_eq!((milk.store_id, milk.section_id), (Some(1), None));
    assert!(!milk.checked);
    assert_eq!(milk.name, "Milk");
}

#[test]
fn first_item_of_a_section() {
    let (mut db, shop, produce, _) = grocery();
    add(&mut db, Some(shop), None, "Milk", 20);
    let apple = add(&mut db, Some(shop), Some(produce), "Apple", 21);
    assert_eq!(apple.ord, 1);
    assert_eq!((apple.store_id, apple.section_id), (Some(shop), Some(produce)));
}

#[test]
fn a_section_alone_brings_its_store() {
    let (mut db, shop, produce, _) = grocery();
    let apple = add(&mut db, None, Some(produce), "Apple", 21);
    assert_eq!((apple.store_id, apple.section_id), (Some(shop), Some(produce)));
}

#[test]
fn organize_moves_an_item_to_the_end_of_its_section() {
    let (mut db, shop, _, dairy) = grocery();
    let milk = add(&mut db, Some(shop), None, "Milk", 20);
    let done = organize(&mut db, shop, Ok(answer(vec![(milk.id, dairy)])), 30);
    assert!(done.is_ok());
    let milk = row(&db, milk.id);
    assert_eq!(milk.section_id, Some(dairy));
    assert_eq!(milk.store_id, Some(shop));
    assert_eq!(milk.ord, 1);
    assert_eq!(milk.updated_at, 30);
    assert_eq!(milk.created_at, 20);
}

#[test]
fn organize_drops_a_pair_for_a_missing_section() {
    let (mut db, shop, _, _) = grocery();
    let milk = add(&mut db, Some(shop), None, "Milk", 20);
    let done = organize(&mut db, shop, Ok(answer(vec![(milk.id, 999)])), 30);
    assert!(done.is_ok());
    let milk = row(&db, milk.id);
    assert_eq!(milk.section_id, None);
    assert_eq!(milk.ord, 1);
    assert_eq!(milk.updated_at, 20);
}

#[test]
fn move_to_the_front_renumbers_the_section() {
    let (mut db, shop, produce, dairy) = grocery();
    let milk = add(&mut db, Some(shop), None, "Milk", 20);
    let apple = add(&mut db, Some(shop), Some(produce), "Apple", 21);
    organize(&mut db, shop, Ok(answer(vec![(milk.id, dairy)])), 30).unwrap();
    assert_eq!(row(&db, milk.id).ord, 1);
    let moved = move_item(&mut db, apple.id, None, Some(dairy), 0, 40).unwrap();
    assert_eq!(moved.id, apple.id);
    assert_eq!(moved.ord, 1);
    assert_eq!((moved.store_id, moved.section_id), (Some(shop), Some(dairy)));
    assert_eq!(moved.updated_at, 40);
    assert_eq!(row(&db, apple.id).ord, 1);
    assert_eq!(row(&db, milk.id).ord, 2);
    assert_eq!(row(&db, milk.id).updated_at, 30);
    let view = list(&db);
    let names: Vec<&str> =
        view.stores[0].sections[1].items.iter().map(|item| item.name.as_str()).collect();
    assert_eq!(view.stores[0].sections[1].section.id, dairy);
    assert_eq!(names, vec!["Apple", "Milk"]);
    assert!(view.stores[0].sections[0].items.is_empty());
}

#[test]
fn items_created_in_a_row_count_up() {
    let (mut db, shop, produce, _) = grocery();
    for n in 1..=5 {
        let loose = add(&mut db, None, None, "loose", 100 + n);
        let in_store = add(&mut db, Some(shop), None, "in store", 200 + n);
        let in_section = add(&mut db, Some(shop), Some(produce), "in section", 300 + n);
        assert_eq!(loose.ord, n as i64);
        assert_eq!(in_store.ord, n as i64);
        assert_eq!(in_section.ord, n as i64);
    }
    assert_eq!(db.items.len(), 15);
    assert_eq!(db.last_item_id, 15);
}

#[test]
fn checked_items_do_not_count_for_the_next_order_value() {
    let (mut db, shop, _, _) = grocery();
    add(&mut db, Some(shop), None, "a", 1);
    let b = add(&mut db, Some(shop), None, "b", 2);
    let at = db.items.iter().position(|item| item.id == b.id).unwrap();
    db.items[at].checked = true;
    let c = add(&mut db, Some(shop), None, "c", 3);
    assert_eq!(c.ord, 2);
}

#[test]
fn empty_answer_changes_nothing() {
    let (mut db, shop, produce, _) = grocery();
    add(&mut db, Some(shop), None, "Milk", 20);
    add(&mut db, Some(shop), None, "Bread", 21);
    add(&mut db, Some(shop), Some(produce), "Apple", 22);
    let before: Vec<(i64, Option<i64>, i64, i128)> =
        db.items.iter().map(|i| (i.id, i.section_id, i.ord, i.updated_at)).collect();
    assert!(organize(&mut db, shop, Ok(answer(vec![])), 99).is_ok());
    let after: Vec<(i64, Option<i64>, i64, i128)> =
        db.items.iter().map(|i| (i.id, i.section_id, i.ord, i.updated_at)).collect();
    assert_eq!(before, after);
}

#[test]
fn every_item_in_a_section_names_the_store_of_its_section() {
    let (mut db, shop, produce, dairy) = grocery();
    let other = store::create(&mut db, StoreNameReq { name: "Market".to_string() }, 13).unwrap();
    let fish =
        section::create(&mut db, other.id, SectionNameReq { name: "Fish".to_string() }, 14).unwrap();
    let milk = add(&mut db, Some(shop), None, "Milk", 20);
    let apple = add(&mut db, None, Some(produce), "Apple", 21);
    let trout = add(&mut db, Some(other.id), Some(fish.id), "Trout", 22);
    let salt = add(&mut db, None, None, "Salt", 23);
    organize(&mut db, shop, Ok(answer(vec![(milk.id, dairy), (salt.id, dairy), (trout.id, produce)])), 30)
        .unwrap();
    move_item(&mut db, apple.id, None, Some(fish.id), 0, 31).unwrap();
    move_item(&mut db, trout.id, Some(shop), None, 0, 32).unwrap();
    assert!(move_item(&mut db, salt.id, Some(shop), Some(fish.id), 0, 33).is_err());
    assert!(create(
        &mut db,
        ItemCreateReq { store_id: Some(other.id), section_id: Some(dairy), name: "x".to_string() },
        34
    )
    .is_err());
    for item in &db.items {
        if let Some(section_id) = item.section_id {
            let owner = db.sections.iter().find(|s| s.id == section_id).unwrap().store_id;
            assert_eq!(item.store_id, Some(owner));
        }
    }
    assert_eq!(row(&db, apple.id).store_id, Some(other.id));
    assert_eq!(row(&db, trout.id).section_id, None);
    assert_eq!(row(&db, salt.id).store_id, None);
}
