use purchase_sync::PersistenceError;
use purchase_sync::category;
use purchase_sync::category::Category;
use purchase_sync::category::NewCategory;
use purchase_sync::date::Date;
use purchase_sync::history;
use purchase_sync::history::History;
use purchase_sync::history::NewHistory;
use purchase_sync::item;
use purchase_sync::item::Item;
use purchase_sync::item::NewItem;
use purchase_sync::log;
use purchase_sync::log::Log;
use purchase_sync::log::NewLog;
use purchase_sync::store::Store;

fn d(s: &str) -> Date {
    Date::parse(s).unwrap()
}

#[test]
fn category_crud() {
    let mut store = Store::new();

    let new_name = "keen";
    let update_name = "KeenS";

    let new_category = NewCategory { name: new_name.to_string() };

    let category = category::create(&mut store, new_category);
    assert_eq!(category.name, new_name);
    let edit_category = Category { name: update_name.to_string(), id: category.id };
    category::update(&mut store, edit_category);
    let updated_category = category::find(&store, category.id).unwrap();
    assert_eq!(updated_category.name, update_name);
    let delete_category = updated_category;
    category::delete(&mut store, delete_category.id).unwrap().unwrap();
}

#[test]
fn item_crud() {
    let mut store = Store::new();

    let category = category::test_init(&mut store);
    let category_id = category.id;

    let new_name = "keen";
    let update_name = "KeenS";

    let new_item =
        NewItem { category_id: Some(category_id), hash: "0000".to_string(), name: new_name.to_string() };

    let item = item::create(&mut store, new_item).unwrap();
    assert_eq!(item.name, new_name);
    let edit_item = Item {
        name: update_name.to_string(),
        id: item.id,
        category_id: item.category_id,
        hash: item.hash.clone(),
    };
    item::update(&mut store, edit_item).unwrap();
    let updated_item = item::find(&store, item.id).unwrap();
    assert_eq!(updated_item.name, update_name);

    let delete_item = updated_item;
    let delete_category = category::find(&store, delete_item.category_id.unwrap()).unwrap();
    item::delete(&mut store, delete_item.id).unwrap();
    category::delete(&mut store, delete_category.id).unwrap();
}

#[test]
fn history_crud() {
    let mut store = Store::new();

    let category = category::test_init(&mut store);
    let category_id = category.id;

    let item = item::test_init(&mut store, category_id);
    let item_id = item.expect("the initial item could not be read").id;

    let new_price = 42;
    let update_price = 35;

    let new_history = NewHistory { item_id, price: new_price, purchased_at: d("2021-10-01") };

    let history = history::create(&mut store, new_history).unwrap();
    assert_eq!(history.price, new_price);

    let edit_history = History {
        price: update_price,
        id: history.id,
        item_id: history.item_id,
        purchased_at: history.purchased_at,
    };
    history::update(&mut store, edit_history).unwrap();

    let updated_history = history::find(&store, history.id).unwrap();
    assert_eq!(updated_history.price, update_price);

    let delete_history = updated_history;
    let delete_item = item::find(&store, delete_history.item_id).unwrap();
    let delete_category = category::find(&store, delete_item.category_id.unwrap()).unwrap();
    history::delete(&mut store, delete_history.id).unwrap();
    item::delete(&mut store, delete_item.id).unwrap();
    category::delete(&mut store, delete_category.id).unwrap();
}

#[test]
fn log_crud() {
    let mut store = Store::new();

    let new_price = 42;
    let update_price = 35;

    let new_log = NewLog {
        hash: "hash".to_string(),
        name: "name".to_string(),
        price: new_price,
        purchased_at: d("2021-10-01"),
    };

    let log = log::create(&mut store, new_log).unwrap();
    assert_eq!(log.price, new_price);

    let edit_log = Log {
        price: update_price,
        id: log.id,
        hash: log.hash.clone(),
        name: log.name.clone(),
        purchased_at: log.purchased_at,
    };
    log::update(&mut store, edit_log).unwrap();

    let updated_log = log::find(&store, log.id).unwrap();
    assert_eq!(updated_log.price, update_price);

    let delete_log = updated_log;
    log::delete(&mut store, delete_log.id).unwrap();
}

#[test]
fn create_then_find_round_trip() {
    let mut store = Store::new();
    let new_log = NewLog {
        hash: "abc123".to_string(),
        name: "a thing".to_string(),
        price: 1980,
        purchased_at: d("2021-11-07"),
    };
    let created = log::create(&mut store, new_log).unwrap();
    assert_ne!(created.id, 0);
    let found = log::find(&store, created.id).unwrap();
    assert_eq!(found.id, created.id);
    assert_eq!(found.hash, "abc123");
    assert_eq!(found.name, "a thing");
    assert_eq!(found.price, 1980);
    assert_eq!(found.purchased_at, d("2021-11-07"));
}

#[test]
fn duplicate_log_hash_is_a_constraint_violation() {
    let mut store = Store::new();
    let first = NewLog {
        hash: "same".to_string(),
        name: "one".to_string(),
        price: 1,
        purchased_at: d("2021-10-01"),
    };
    log::create(&mut store, first).unwrap();
    let second = NewLog {
        hash: "same".to_string(),
        name: "two".to_string(),
        price: 2,
        purchased_at: d("2021-10-02"),
    };
    let r = log::create(&mut store, second);
    assert_eq!(r, Err(PersistenceError::Constraint));
    assert_eq!(store.logs.len(), 1);
}

#[test]
fn dangling_foreign_key_is_a_constraint_violation() {
    let mut store = Store::new();
    let new_item =
        NewItem { category_id: Some(7), hash: "x".to_string(), name: "x".to_string() };
    assert_eq!(item::create(&mut store, new_item), Err(PersistenceError::Constraint));

    let new_history = NewHistory { item_id: 7, price: 1, purchased_at: d("2021-10-01") };
    assert_eq!(history::create(&mut store, new_history), Err(PersistenceError::Constraint));
}

#[test]
fn deleting_a_referenced_parent_is_a_constraint_violation() {
    let mut store = Store::new();
    let category = category::create(&mut store, NewCategory { name: "parent".to_string() });
    let item = item::create(
        &mut store,
        NewItem { category_id: Some(category.id), hash: "i".to_string(), name: "i".to_string() },
    )
    .unwrap();
    let history = history::create(
        &mut store,
        NewHistory { item_id: item.id, price: 10, purchased_at: d("2021-10-01") },
    )
    .unwrap();

    assert_eq!(category::delete(&mut store, category.id), Err(PersistenceError::Constraint));
    assert_eq!(item::delete(&mut store, item.id), Err(PersistenceError::Constraint));

    // children first, then parents
    assert_eq!(history::delete(&mut store, history.id), Ok(Some(())));
    assert_eq!(item::delete(&mut store, item.id), Ok(Some(())));
    assert_eq!(category::delete(&mut store, category.id), Ok(Some(())));
}

#[test]
fn missing_rows_are_non_fatal() {
    let mut store = Store::new();
    assert!(log::find(&store, 1).is_none());
    assert_eq!(log::delete(&mut store, 1), Ok(None));
    let missing_log = Log {
        id: 1,
        hash: "g".to_string(),
        name: "g".to_string(),
        price: 0,
        purchased_at: d("2021-10-01"),
    };
    assert_eq!(log::update(&mut store, missing_log), Ok(None));
    assert_eq!(category::update(&mut store, Category { id: 9, name: "n".to_string() }), None);
}

#[test]
fn test_init_looks_up_before_creating() {
    let mut store = Store::new();
    let first = category::test_init(&mut store);
    assert_eq!(first.name, "None Category");
    let second = category::test_init(&mut store);
    assert_eq!(second.id, first.id);
    assert_eq!(store.categories.len(), 1);

    let filtered = category::filter(&store, "None Category").unwrap();
    assert_eq!(filtered.id, first.id);
    assert!(category::filter(&store, "Missing").is_none());
}

#[test]
fn item_without_a_category_is_accepted() {
    let mut store = Store::new();
    let orphan = NewItem { category_id: None, hash: "solo".to_string(), name: "solo".to_string() };
    let item = item::create(&mut store, orphan).unwrap();
    assert_eq!(item.category_id, None);
    assert_eq!(item::delete(&mut store, item.id), Ok(Some(())));
}

#[test]
fn item_test_init_seeds_an_empty_table_once() {
    let mut store = Store::new();
    let category = category::test_init(&mut store);
    let first = item::test_init(&mut store, category.id).unwrap();
    assert_eq!(first.hash, "1000");
    assert_eq!(first.name, "Initial Item");
    let second = item::test_init(&mut store, category.id).unwrap();
    assert_eq!(second.id, first.id);
    assert_eq!(store.items.len(), 1);
}
