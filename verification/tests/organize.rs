use shoplist::db::Db;
use shoplist::handler::item::{create, ItemCreateReq};
use shoplist::handler::organize::{
    apply_plan, group_pairs, last_assignment, number_group, organize, plan_groups, valid_pairs,
    Assignment, Categorization, CategorizationResponse, Prompt, PromptError, PromptItem,
    SectionGroup,
};
use shoplist::handler::section::SectionNameReq;
use shoplist::handler::store::StoreNameReq;
use shoplist::handler::{section, store};
use shoplist::store::item::Item;
use shoplist::store::section::Section;

fn pair(item_id: i64, section_id: i64) -> Categorization {
    Categorization { section_id, item_id }
}

fn item(id: i64, store_id: Option<i64>, section_id: Option<i64>, ord: i64) -> Item {
    Item {
        id,
        store_id,
        section_id,
        name: format!("item {id}"),
        checked: false,
        ord,
        created_at: 0,
        updated_at: 0,
    }
}

fn sec(id: i64, store_id: i64) -> Section {
    Section { id, store_id, name: format!("section {id}"), ord: id, created_at: 0, updated_at: 0 }
}

fn state() -> (Db, i64, i64, i64) {
    let mut db = Db::new();
    let shop = store::create(&mut db, StoreNameReq { name: "Grocery".to_string() }, 1).unwrap();
    let a = section::create(&mut db, shop.id, SectionNameReq { name: "A".to_string() }, 2).unwrap();
    let b = section::create(&mut db, shop.id, SectionNameReq { name: "B".to_string() }, 3).unwrap();
    (db, shop.id, a.id, b.id)
}

fn add(db: &mut Db, store_id: Option<i64>, section_id: Option<i64>, name: &str) -> i64 {
    create(db, ItemCreateReq { store_id, section_id, name: name.to_string() }, 5).unwrap().id
}

fn place(db: &Db, id: i64) -> (Option<i64>, i64) {
    let item = db.items.iter().find(|item| item.id == id).unwrap();
    (item.section_id, item.ord)
}

#[test]
fn prompt_tells_id_and_name_only() {
    let prompt = Prompt::new(vec![item(4, Some(1), None, 9)], vec![sec(2, 1), sec(3, 1)]);
    assert_eq!(prompt.items.len(), 1);
    assert_eq!((prompt.items[0].id, prompt.items[0].name.as_str()), (4, "item 4"));
    let sections: Vec<(i64, &str)> =
        prompt.sections.iter().map(|told| (told.id, told.name.as_str())).collect();
    assert_eq!(sections, vec![(2, "section 2"), (3, "section 3")]);
    let told = PromptItem::from(sec(8, 1));
    assert_eq!((told.id, told.name.as_str()), (8, "section 8"));
}

#[test]
fn pairs_that_name_no_candidate_are_dropped() {
    let items = vec![item(1, Some(1), None, 1), item(2, Some(1), None, 2)];
    let sections = vec![sec(10, 1)];
    let proposed = vec![pair(1, 10), pair(3, 10), pair(2, 11), pair(2, 10)];
    let valid = valid_pairs(&proposed, &items, &sections);
    assert_eq!(valid, vec![pair(1, 10), pair(2, 10)]);
}

#[test]
fn pairs_are_grouped_by_section_in_order_of_first_mention() {
    let groups = group_pairs(&vec![pair(1, 20), pair(2, 10), pair(3, 20), pair(4, 30), pair(5, 10)]);
    let seen: Vec<(i64, Vec<i64>)> =
        groups.into_iter().map(|group| (group.section_id, group.item_ids)).collect();
    assert_eq!(seen, vec![(20, vec![1, 3]), (10, vec![2, 5]), (30, vec![4])]);
    assert!(group_pairs(&vec![]).is_empty());
}

#[test]
fn a_group_is_numbered_after_what_its_section_has_reached() {
    let group = SectionGroup { section_id: 7, item_ids: vec![5, 3, 9] };
    let plan = number_group(&group, 4).unwrap();
    assert_eq!(
        plan,
        vec![
            Assignment { item_id: 5, section_id: 7, ord: 5 },
            Assignment { item_id: 3, section_id: 7, ord: 6 },
            Assignment { item_id: 9, section_id: 7, ord: 7 },
        ]
    );
    assert_eq!(number_group(&group, i64::MAX - 3).unwrap()[2].ord, i64::MAX);
    assert!(number_group(&group, i64::MAX - 2).is_none());
}

#[test]
fn plan_numbers_each_section_from_its_own_rows() {
    let items = vec![
        item(1, Some(1), Some(10), 3),
        item(2, Some(1), Some(20), 8),
        item(3, Some(1), None, 50),
        item(4, Some(1), None, 51),
        item(5, Some(2), Some(10), 99),
    ];
    let groups = vec![
        SectionGroup { section_id: 20, item_ids: vec![3] },
        SectionGroup { section_id: 10, item_ids: vec![4] },
        SectionGroup { section_id: 30, item_ids: vec![3] },
    ];
    let plan = plan_groups(&items, 1, &groups).unwrap();
    assert_eq!(
        plan,
        vec![
            Assignment { item_id: 3, section_id: 20, ord: 9 },
            Assignment { item_id: 4, section_id: 10, ord: 4 },
            Assignment { item_id: 3, section_id: 30, ord: 1 },
        ]
    );
    assert_eq!(last_assignment(&plan, 3), Some(Assignment { item_id: 3, section_id: 30, ord: 1 }));
    assert_eq!(last_assignment(&plan, 5), None);
    let rows = apply_plan(&items, &plan, 77);
    let seen: Vec<(i64, Option<i64>, i64, i128)> =
        rows.iter().map(|row| (row.id, row.section_id, row.ord, row.updated_at)).collect();
    assert_eq!(
        seen,
        vec![
            (1, Some(10), 3, 0),
            (2, Some(20), 8, 0),
            (3, Some(30), 1, 77),
            (4, Some(10), 4, 77),
            (5, Some(10), 99, 0),
        ]
    );
}

#[test]
fn organize_appends_each_group_in_the_order_proposed() {
    let (mut db, shop, a, b) = state();
    let old = add(&mut db, Some(shop), Some(a), "old");
    let x = add(&mut db, Some(shop), None, "x");
    let y = add(&mut db, Some(shop), None, "y");
    let z = add(&mut db, Some(shop), None, "z");
    let w = add(&mut db, Some(shop), None, "w");
    let answer = CategorizationResponse { categorized: vec![pair(z, a), pair(y, b), pair(x, a)] };
    assert!(organize(&mut db, shop, Ok(answer), 50).is_ok());
    assert_eq!(place(&db, old), (Some(a), 1));
    assert_eq!(place(&db, z), (Some(a), 2));
    assert_eq!(place(&db, x), (Some(a), 3));
    assert_eq!(place(&db, y), (Some(b), 1));
    assert_eq!(place(&db, w), (None, 4));
}

#[test]
fn organize_leaves_items_of_other_scopes_alone() {
    let (mut db, shop, a, b) = state();
    let other = store::create(&mut db, StoreNameReq { name: "Other".to_string() }, 1).unwrap();
    let elsewhere =
        section::create(&mut db, other.id, SectionNameReq { name: "E".to_string() }, 2).unwrap();
    let placed = add(&mut db, Some(shop), Some(a), "placed");
    let foreign = add(&mut db, Some(other.id), None, "foreign");
    let loose = add(&mut db, None, None, "loose");
    let mine = add(&mut db, Some(shop), None, "mine");
    let done_id = add(&mut db, Some(shop), None, "done");
    let at = db.items.iter().position(|item| item.id == done_id).unwrap();
    db.items[at].checked = true;
    let answer = CategorizationResponse {
        categorized: vec![
            pair(placed, b),
            pair(foreign, a),
            pair(loose, a),
            pair(mine, elsewhere.id),
            pair(done_id, a),
        ],
    };
    assert!(organize(&mut db, shop, Ok(answer), 50).is_ok());
    assert_eq!(place(&db, placed), (Some(a), 1));
    assert_eq!(place(&db, foreign), (None, 1));
    assert_eq!(place(&db, loose), (None, 1));
    assert_eq!(place(&db, mine), (None, 1));
    assert_eq!(place(&db, done_id), (None, 2));
}

#[test]
fn organize_on_a_missing_store_does_nothing() {
    let (mut db, shop, a, _) = state();
    let x = add(&mut db, Some(shop), None, "x");
    let answer = CategorizationResponse { categorized: vec![pair(x, a)] };
    assert!(organize(&mut db, 42, Ok(answer), 50).is_ok());
    assert_eq!(place(&db, x), (None, 1));
}

#[test]
fn a_failed_classifier_is_an_internal_failure() {
    let (mut db, shop, _, _) = state();
    let x = add(&mut db, Some(shop), None, "x");
    let problem = organize(&mut db, shop, Err(PromptError::OpenAi), 50).unwrap_err();
    assert_eq!(problem.status, 500);
    assert_eq!(problem.message, "Internal Server Error");
    let problem = organize(&mut db, shop, Err(PromptError::InvalidResponse), 50).unwrap_err();
    assert_eq!(problem.status, 500);
    assert_eq!(place(&db, x), (None, 1));
    assert_eq!(PromptError::OpenAi.message(), "openai error");
    assert_eq!(PromptError::InvalidResponse.message(), "invalid response recieved");
}

#[test]
fn organize_changes_nothing_when_a_group_does_not_fit() {
    let (mut db, shop, a, b) = state();
    let full = add(&mut db, Some(shop), Some(b), "full");
    let at = db.items.iter().position(|item| item.id == full).unwrap();
    db.items[at].ord = i64::MAX;
    let x = add(&mut db, Some(shop), None, "x");
    let y = add(&mut db, Some(shop), None, "y");
    let answer = CategorizationResponse { categorized: vec![pair(x, a), pair(y, b)] };
    let problem = organize(&mut db, shop, Ok(answer), 50).unwrap_err();
    assert_eq!(problem.status, 500);
    assert_eq!(place(&db, x), (None, 1));
    assert_eq!(place(&db, y), (None, 2));
}

#[test]
fn an_item_proposed_twice_goes_where_it_was_assigned_last() {
    let (mut db, shop, a, b) = state();
    let x = add(&mut db, Some(shop), None, "x");
    let y = add(&mut db, Some(shop), None, "y");
    let answer = CategorizationResponse { categorized: vec![pair(x, a), pair(x, b), pair(y, a)] };
    assert!(organize(&mut db, shop, Ok(answer), 50).is_ok());
    assert_eq!(place(&db, x), (Some(b), 1));
    assert_eq!(place(&db, y), (Some(a), 2));
}
