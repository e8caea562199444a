use shoplist::db::Db;
use shoplist::handler::item::{create, list, move_item, resolve_scope, ItemCreateReq, Scope};
use shoplist::handler::section::SectionNameReq;
use shoplist::handler::store::StoreNameReq;
use shoplist::handler::{section, store};
use shoplist::reorder::{plan_move, OrdChange};
use shoplist::store::item::Item;

fn item(id: i64, ord: i64, updated_at: i128) -> Item {
    Item {
        id,
        store_id: None,
        section_id: None,
        name: format!("item {id}"),
        checked: false,
        ord,
        created_at: 0,
        updated_at,
    }
}

fn state() -> (Db, i64, i64, i64) {
    let mut db = Db::new();
    let shop = store::create(&mut db, StoreNameReq { name: "Grocery".to_string() }, 1).unwrap();
    let a = section::create(&mut db, shop.id, SectionNameReq { name: "A".to_string() }, 2).unwrap();
    let b = section::create(&mut db, shop.id, SectionNameReq { name: "B".to_string() }, 3).unwrap();
    (db, shop.id, a.id, b.id)
}

fn add(db: &mut Db, store_id: Option<i64>, section_id: Option<i64>, name: &str) -> i64 {
    create(db, ItemCreateReq { store_id, section_id, name: name.to_string() }, 5).unwrap().id
}

fn ord(db: &Db, id: i64) -> i64 {
    db.items.iter().find(|item| item.id == id).unwrap().ord
}

fn changes(plan: &[OrdChange]) -> Vec<(i64, i64)> {
    plan.iter().map(|change| (change.id, change.ord)).collect()
}

#[test]
fn plan_numbers_the_scope_from_one() {
    let siblings = vec![item(1, 40, 0), item(2, 10, 0), item(3, 40, 9)];
    let plan = plan_move(siblings, 1);
    assert_eq!(plan.ord, 2);
    assert_eq!(changes(&plan.siblings), vec![(2, 1), (3, 3), (1, 4)]);
}

#[test]
fn plan_clamps_the_index_to_the_ends() {
    let siblings = || vec![item(1, 1, 0), item(2, 2, 0)];
    let first = plan_move(siblings(), -5);
    assert_eq!(first.ord, 1);
    assert_eq!(changes(&first.siblings), vec![(1, 2), (2, 3)]);
    let lowest = plan_move(siblings(), i64::MIN);
    assert_eq!(lowest.ord, 1);
    let last = plan_move(siblings(), 2);
    assert_eq!(last.ord, 3);
    assert_eq!(changes(&last.siblings), vec![(1, 1), (2, 2)]);
    let beyond = plan_move(siblings(), i64::MAX);
    assert_eq!(beyond.ord, 3);
    assert_eq!(changes(&beyond.siblings), vec![(1, 1), (2, 2)]);
    let alone = plan_move(vec![], 7);
    assert_eq!(alone.ord, 1);
    assert!(alone.siblings.is_empty());
}

#[test]
fn move_within_a_scope_reorders_it() {
    let (mut db, shop, a, _) = state();
    let x = add(&mut db, Some(shop), Some(a), "x");
    let y = add(&mut db, Some(shop), Some(a), "y");
    let z = add(&mut db, Some(shop), Some(a), "z");
    let moved = move_item(&mut db, x, Some(shop), Some(a), 2, 9).unwrap();
    assert_eq!(moved.ord, 3);
    assert_eq!((ord(&db, y), ord(&db, z), ord(&db, x)), (1, 2, 3));
    move_item(&mut db, z, Some(shop), Some(a), 0, 9).unwrap();
    assert_eq!((ord(&db, z), ord(&db, y), ord(&db, x)), (1, 2, 3));
    let view = list(&db);
    let names: Vec<&str> =
        view.stores[0].sections[0].items.iter().map(|item| item.name.as_str()).collect();
    assert_eq!(names, vec!["z", "y", "x"]);
}

#[test]
fn move_leaves_the_old_scope_with_a_gap() {
    let (mut db, shop, a, b) = state();
    let x = add(&mut db, Some(shop), Some(a), "x");
    let y = add(&mut db, Some(shop), Some(a), "y");
    let z = add(&mut db, Some(shop), Some(a), "z");
    let moved = move_item(&mut db, y, None, Some(b), 5, 9).unwrap();
    assert_eq!((moved.section_id, moved.ord), (Some(b), 1));
    assert_eq!((ord(&db, x), ord(&db, z)), (1, 3));
}

#[test]
fn move_to_no_store_and_to_a_store() {
    let (mut db, shop, a, _) = state();
    let x = add(&mut db, Some(shop), Some(a), "x");
    let loose = add(&mut db, None, None, "loose");
    let moved = move_item(&mut db, x, None, None, 0, 9).unwrap();
    assert_eq!((moved.store_id, moved.section_id, moved.ord), (None, None, 1));
    assert_eq!(ord(&db, loose), 2);
    let moved = move_item(&mut db, loose, Some(shop), None, 3, 9).unwrap();
    assert_eq!((moved.store_id, moved.section_id, moved.ord), (Some(shop), None, 1));
    assert_eq!(ord(&db, x), 1);
}

#[test]
fn move_skips_checked_siblings() {
    let (mut db, shop, a, b) = state();
    let x = add(&mut db, Some(shop), Some(a), "x");
    let done = add(&mut db, Some(shop), Some(b), "done");
    let y = add(&mut db, Some(shop), Some(b), "y");
    let at = db.items.iter().position(|item| item.id == done).unwrap();
    db.items[at].checked = true;
    let moved = move_item(&mut db, x, None, Some(b), 1, 9).unwrap();
    assert_eq!(moved.ord, 2);
    assert_eq!((ord(&db, y), ord(&db, x), ord(&db, done)), (1, 2, 1));
}

#[test]
fn move_of_a_missing_item_is_not_found() {
    let (mut db, shop, a, _) = state();
    add(&mut db, Some(shop), Some(a), "x");
    let problem = move_item(&mut db, 99, None, Some(a), 0, 9).unwrap_err();
    assert_eq!(problem.status, 404);
    assert_eq!(problem.message, "Not found");
}

#[test]
fn move_to_a_bad_place_is_refused_and_changes_nothing() {
    let (mut db, shop, a, _) = state();
    let other = store::create(&mut db, StoreNameReq { name: "Other".to_string() }, 1).unwrap();
    let x = add(&mut db, Some(shop), Some(a), "x");
    let problem = move_item(&mut db, x, Some(other.id), Some(a), 0, 9).unwrap_err();
    assert_eq!(problem.status, 409);
    assert_eq!(problem.message, "Section doesn't belong to the given store");
    let problem = move_item(&mut db, x, Some(77), None, 0, 9).unwrap_err();
    assert_eq!((problem.status, problem.message.as_str()), (404, "Store not found"));
    let problem = move_item(&mut db, x, None, Some(77), 0, 9).unwrap_err();
    assert_eq!((problem.status, problem.message.as_str()), (404, "Section not found"));
    let row = db.items.iter().find(|item| item.id == x).unwrap();
    assert_eq!((row.store_id, row.section_id, row.ord, row.updated_at), (Some(shop), Some(a), 1, 5));
}

#[test]
fn scope_is_resolved_from_plain_lookups() {
    assert_eq!(
        resolve_scope(None, false, None, None).unwrap(),
        Scope { store_id: None, section_id: None }
    );
    assert_eq!(
        resolve_scope(Some(1), true, None, Some(9)).unwrap(),
        Scope { store_id: Some(1), section_id: None }
    );
    assert_eq!(
        resolve_scope(None, false, Some(4), Some(2)).unwrap(),
        Scope { store_id: Some(2), section_id: Some(4) }
    );
    assert_eq!(
        resolve_scope(Some(2), true, Some(4), Some(2)).unwrap(),
        Scope { store_id: Some(2), section_id: Some(4) }
    );
    let problem = resolve_scope(Some(1), false, Some(4), Some(2)).unwrap_err();
    assert_eq!((problem.status, problem.message.as_str()), (404, "Store not found"));
    let problem = resolve_scope(Some(1), true, Some(4), None).unwrap_err();
    assert_eq!((problem.status, problem.message.as_str()), (404, "Section not found"));
    let problem = resolve_scope(Some(1), true, Some(4), Some(2)).unwrap_err();
    assert_eq!(problem.status, 409);
}
