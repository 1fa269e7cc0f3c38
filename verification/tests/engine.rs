use purchase_sync::PersistenceError;
use purchase_sync::amazon_browser::wakeup_browser_on;
use purchase_sync::business::most_recently_log;
use purchase_sync::business::resolve_range;
use purchase_sync::date::Date;
use purchase_sync::log;
use purchase_sync::log::NewLog;
use purchase_sync::range::Range;
use purchase_sync::source::ExternalSource;
use purchase_sync::source::RawRecord;
use purchase_sync::source::difference_log;
use purchase_sync::source::most_formerly_date;
use purchase_sync::store::Store;
use purchase_sync::sync::SyncSummary;
use purchase_sync::sync::apply_fetched;
use purchase_sync::sync::list_all_persisted;
use purchase_sync::sync::map_records;
use purchase_sync::sync::run_sync_cycle;
use purchase_sync::tx;
use purchase_sync::tx::Op;
use purchase_sync::tx::UnitOfWork;

fn d(s: &str) -> Date {
    Date::parse(s).unwrap()
}

fn raw(hash: &str, name: &str, price: i32, date: &str) -> RawRecord {
    RawRecord { hash: hash.to_string(), name: name.to_string(), price, purchased_at: d(date) }
}

fn new_log(hash: &str, name: &str, price: i32, date: &str) -> NewLog {
    NewLog { hash: hash.to_string(), name: name.to_string(), price, purchased_at: d(date) }
}

#[test]
fn range_ending_yesterday_is_valid_but_today_or_later_is_not() {
    // given today 2021-11-09: end 2021-11-08 valid; 2021-11-09 and later invalid
    let today = d("2021-11-09");
    let start = d("2021-10-21");
    assert!(Range::new(start, d("2021-11-08")).valid_on(&today));
    assert!(!Range::new(start, d("2021-11-09")).valid_on(&today));
    assert!(!Range::new(start, d("2021-11-10")).valid_on(&today));

    assert!(Range::new(start, d("2021-11-10")).end_after(&today));
    assert!(!Range::new(start, d("2021-11-08")).end_after(&today));
}

#[test]
fn browser_opens_only_for_ranges_that_stop_before_the_day() {
    let on_day = d("2021-11-09");
    let start = d("2021-04-01");
    assert!(wakeup_browser_on(Range::new(start, d("2021-11-08")), on_day).is_some());
    assert!(wakeup_browser_on(Range::new(start, d("2021-11-09")), on_day).is_none());
    assert!(wakeup_browser_on(Range::new(start, d("2021-11-10")), on_day).is_none());

    let opened = wakeup_browser_on(Range::new(start, d("2021-11-08")), on_day).unwrap();
    assert_eq!(opened.range().start(), start);
}

#[test]
fn resolver_continues_after_the_most_recent_record() {
    let mut store = Store::new();
    log::create(&mut store, new_log("h1", "older", 100, "2021-11-03")).unwrap();
    log::create(&mut store, new_log("h2", "newer", 200, "2021-11-05")).unwrap();

    let most_recent = most_recently_log(&store).unwrap();
    assert_eq!(most_recent.purchased_at, d("2021-11-05"));

    let rg = resolve_range(&store, d("2018-01-01"), d("2021-11-09")).unwrap();
    assert_eq!(rg.start(), d("2021-11-06"));
    assert_eq!(rg.end(), d("2021-11-08"));
}

#[test]
fn resolver_starts_at_the_floor_for_an_empty_store() {
    let store = Store::new();
    let rg = resolve_range(&store, d("2018-01-01"), d("2021-11-09")).unwrap();
    assert_eq!(rg.start(), d("2018-01-01"));
    assert_eq!(rg.end(), d("2021-11-08"));
}

#[test]
fn resolver_reports_an_empty_window_when_synced_through_yesterday() {
    let mut store = Store::new();
    log::create(&mut store, new_log("h1", "fresh", 100, "2021-11-08")).unwrap();
    // most recent is yesterday: nothing left to fetch
    assert!(resolve_range(&store, d("2018-01-01"), d("2021-11-09")).is_none());

    let mut ahead = Store::new();
    log::create(&mut ahead, new_log("h2", "today", 100, "2021-11-09")).unwrap();
    assert!(resolve_range(&ahead, d("2018-01-01"), d("2021-11-09")).is_none());
}

#[test]
fn resolver_reports_an_empty_window_when_the_floor_is_after_yesterday() {
    let store = Store::new();
    assert!(resolve_range(&store, d("2021-11-09"), d("2021-11-09")).is_none());
}

#[test]
fn most_recent_breaks_date_ties_by_id() {
    let mut store = Store::new();
    let first = log::create(&mut store, new_log("t1", "first", 1, "2021-11-05")).unwrap();
    let second = log::create(&mut store, new_log("t2", "second", 2, "2021-11-05")).unwrap();
    assert!(second.id > first.id);
    assert_eq!(most_recently_log(&store).unwrap().id, second.id);
}

#[test]
fn fetch_returns_only_records_within_the_window() {
    let source = ExternalSource {
        floor: d("2018-01-01"),
        records: vec![
            raw("a", "before", 1, "2021-11-01"),
            raw("b", "inside", 2, "2021-11-06"),
            raw("c", "edge", 3, "2021-11-08"),
            raw("d", "after", 4, "2021-11-09"),
        ],
    };
    assert_eq!(most_formerly_date(&source), d("2018-01-01"));
    let rg = Range::new(d("2021-11-06"), d("2021-11-08"));
    let fetched = difference_log(&source, &rg);
    assert_eq!(fetched.len(), 2);
    assert_eq!(fetched[0].hash, "b");
    assert_eq!(fetched[1].hash, "c");
}

#[test]
fn mapping_skips_persisted_and_repeated_fingerprints() {
    let mut store = Store::new();
    log::create(&mut store, new_log("known", "old", 9, "2021-11-01")).unwrap();
    let records = vec![
        raw("known", "already persisted", 1, "2021-11-06"),
        raw("fresh", "kept", 2, "2021-11-07"),
        raw("fresh", "repeated in batch", 3, "2021-11-08"),
    ];
    let mapped = map_records(&store, &records);
    assert_eq!(mapped.len(), 1);
    assert_eq!(mapped[0].name, "kept");
    assert_eq!(mapped[0].price, 2);
}

#[test]
fn end_to_end_cycle_persists_the_one_missing_day() {
    // store holds one log purchased 2021-11-07; the source reaches back to
    // 2018-01-01 and offers one record dated 2021-11-08; today is 2021-11-09
    let mut store = Store::new();
    log::create(&mut store, new_log("seed", "seeded", 500, "2021-11-07")).unwrap();
    let source = ExternalSource {
        floor: d("2018-01-01"),
        records: vec![raw("new", "the new one", 700, "2021-11-08")],
    };

    let rg = resolve_range(&store, most_formerly_date(&source), d("2021-11-09")).unwrap();
    assert_eq!(rg.start(), d("2021-11-08"));
    assert_eq!(rg.end(), d("2021-11-08"));

    let summary = run_sync_cycle(&mut store, &source, d("2021-11-09")).unwrap();
    assert_eq!(summary, SyncSummary { fetched_count: 1, persisted_count: 1 });
    let logs = list_all_persisted(&store);
    assert_eq!(logs.len(), 2);
    assert_eq!(logs[1].hash, "new");
    assert_eq!(logs[1].price, 700);
    assert_eq!(logs[1].purchased_at, d("2021-11-08"));
}

#[test]
fn second_cycle_persists_nothing() {
    let mut store = Store::new();
    let source = ExternalSource {
        floor: d("2021-11-01"),
        records: vec![
            raw("r1", "one", 10, "2021-11-02"),
            raw("r2", "two", 20, "2021-11-05"),
        ],
    };
    let first = run_sync_cycle(&mut store, &source, d("2021-11-09")).unwrap();
    assert_eq!(first.persisted_count, 2);
    let second = run_sync_cycle(&mut store, &source, d("2021-11-09")).unwrap();
    assert_eq!(second.persisted_count, 0);
    assert_eq!(list_all_persisted(&store).len(), 2);
}

#[test]
fn synced_store_skips_the_fetch_entirely() {
    // the most recent record is already dated yesterday, so the cycle ends
    // in the resolving state with zero counts
    let mut store = Store::new();
    log::create(&mut store, new_log("y", "yesterday", 1, "2021-11-08")).unwrap();
    let source = ExternalSource {
        floor: d("2018-01-01"),
        records: vec![raw("x", "ignored", 1, "2021-11-05")],
    };
    let summary = run_sync_cycle(&mut store, &source, d("2021-11-09")).unwrap();
    assert_eq!(summary, SyncSummary { fetched_count: 0, persisted_count: 0 });
    assert_eq!(list_all_persisted(&store).len(), 1);
}

#[test]
fn records_outside_the_window_are_an_external_source_error() {
    let mut store = Store::new();
    let rg = Range::new(d("2021-11-06"), d("2021-11-08"));
    let records = vec![
        raw("ok", "inside", 1, "2021-11-06"),
        raw("bad", "outside", 2, "2021-11-09"),
    ];
    let r = apply_fetched(&mut store, &rg, &records);
    assert_eq!(r, Err(purchase_sync::sync::SyncError::ExternalSource));
    assert_eq!(store.logs.len(), 0);
}

#[test]
fn failing_unit_of_work_leaves_the_store_untouched() {
    // five creations where the third collides with a persisted fingerprint:
    // none of the five may become visible
    let mut store = Store::new();
    log::create(&mut store, new_log("taken", "already here", 1, "2021-11-01")).unwrap();

    let mut uow = UnitOfWork::new();
    uow.enqueue(Op::CreateLog(new_log("n1", "one", 1, "2021-11-02")));
    uow.enqueue(Op::CreateLog(new_log("n2", "two", 2, "2021-11-03")));
    uow.enqueue(Op::CreateLog(new_log("taken", "the collision", 3, "2021-11-04")));
    uow.enqueue(Op::CreateLog(new_log("n4", "four", 4, "2021-11-05")));
    uow.enqueue(Op::CreateLog(new_log("n5", "five", 5, "2021-11-06")));

    let r = tx::run(&mut store, &uow);
    assert_eq!(r, Err(PersistenceError::Constraint));
    assert_eq!(store.logs.len(), 1);
    assert_eq!(store.logs[0].hash, "taken");
    assert_eq!(store.logs[0].name, "already here");
}

#[test]
fn successful_unit_of_work_commits_every_operation() {
    let mut store = Store::new();
    let mut uow = UnitOfWork::new();
    uow.enqueue(Op::CreateCategory(purchase_sync::category::NewCategory {
        name: "bundled".to_string(),
    }));
    uow.enqueue(Op::CreateItem(purchase_sync::item::NewItem {
        category_id: Some(1),
        hash: "bundle-item".to_string(),
        name: "bundled item".to_string(),
    }));
    uow.enqueue(Op::CreateHistory(purchase_sync::history::NewHistory {
        item_id: 1,
        price: 42,
        purchased_at: d("2021-10-01"),
    }));
    uow.enqueue(Op::CreateLog(new_log("bundle-log", "bundled log", 42, "2021-10-01")));

    assert_eq!(tx::run(&mut store, &uow), Ok(()));
    assert_eq!(store.categories.len(), 1);
    assert_eq!(store.items.len(), 1);
    assert_eq!(store.histories.len(), 1);
    assert_eq!(store.logs.len(), 1);

    // one more unit updates every row and then clears the store,
    // children before parents
    let mut rework = UnitOfWork::new();
    rework.enqueue(Op::UpdateCategory(purchase_sync::category::Category {
        id: 1,
        name: "renamed".to_string(),
    }));
    rework.enqueue(Op::UpdateItem(purchase_sync::item::Item {
        id: 1,
        category_id: Some(1),
        hash: "bundle-item".to_string(),
        name: "renamed item".to_string(),
    }));
    rework.enqueue(Op::UpdateHistory(purchase_sync::history::History {
        id: 1,
        item_id: 1,
        price: 35,
        purchased_at: d("2021-10-02"),
    }));
    rework.enqueue(Op::UpdateLog(purchase_sync::log::Log {
        id: 1,
        hash: "bundle-log".to_string(),
        name: "renamed log".to_string(),
        price: 35,
        purchased_at: d("2021-10-02"),
    }));
    rework.enqueue(Op::DeleteHistory(1));
    rework.enqueue(Op::DeleteItem(1));
    rework.enqueue(Op::DeleteCategory(1));
    rework.enqueue(Op::DeleteLog(1));
    assert_eq!(tx::run(&mut store, &rework), Ok(()));
    assert_eq!(store.categories.len(), 0);
    assert_eq!(store.items.len(), 0);
    assert_eq!(store.histories.len(), 0);
    assert_eq!(store.logs.len(), 0);
}

#[test]
fn unit_of_work_absorbs_missing_rows() {
    let mut store = Store::new();
    let mut uow = UnitOfWork::new();
    uow.enqueue(Op::UpdateLog(purchase_sync::log::Log {
        id: 5,
        hash: "ghost".to_string(),
        name: "ghost".to_string(),
        price: 0,
        purchased_at: d("2021-10-01"),
    }));
    uow.enqueue(Op::DeleteLog(5));
    uow.enqueue(Op::CreateLog(new_log("real", "real", 1, "2021-10-01")));
    assert_eq!(tx::run(&mut store, &uow), Ok(()));
    assert_eq!(store.logs.len(), 1);
    assert_eq!(store.logs[0].hash, "real");
}
