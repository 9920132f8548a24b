use holidays::db::{
    record_import, upsert, Database, Store, StoreError, WriteOutcome,
};
use holidays::model::{normalize_date, Category, DayQuery, DayType, Record};

fn rec(date: &str, category: Category, name_zh: &str, days: i64) -> Record {
    Record {
        date: date.to_string(),
        category,
        name_en: "Test".to_string(),
        name_zh: name_zh.to_string(),
        statutory_days: days,
        source_file: Some("test.json".to_string()),
    }
}

fn store_with(records: &[Record]) -> Store {
    let mut store = Store::open_in_memory().unwrap();
    store
        .with_transaction(|tx: &mut Database| {
            for r in records {
                upsert(tx, r)?;
            }
            Ok(())
        })
        .unwrap();
    store
}

fn query(store: &Store, date: &str) -> DayQuery {
    store.query_day(normalize_date(date).unwrap().1).unwrap()
}

#[test]
fn importing_same_date_twice_overwrites() {
    let mut store = store_with(&[rec("2026-01-01", Category::Holiday, "元旦", 1)]);

    store
        .with_transaction(|tx: &mut Database| {
            // The same date and category: it takes the place of the first.
            assert!(!upsert(tx, &rec("2026-01-01", Category::Holiday, "元旦", 1))?);
            // Another category: it is new.
            assert!(upsert(tx, &rec("2026-01-04", Category::Workday, "元旦", 1))?);
            Ok(())
        })
        .unwrap();

    let stats = store.stats().unwrap();
    assert_eq!(stats.total, 2);

    let day = store
        .query_day(normalize_date("2026-01-01").unwrap().1)
        .unwrap();
    assert!(day.is_holiday);
    assert!(day.data_available);
}

#[test]
fn overwrite_updates_fields() {
    let mut store = store_with(&[rec("2026-05-01", Category::Holiday, "劳动节", 1)]);
    store
        .with_transaction(|tx: &mut Database| {
            upsert(tx, &rec("2026-05-01", Category::Holiday, "劳动节", 2))
        })
        .unwrap();

    let day = store
        .query_day(normalize_date("2026-05-01").unwrap().1)
        .unwrap();
    assert_eq!(day.festival.unwrap().statutory_days, 2);
    assert_eq!(store.stats().unwrap().total, 1, "覆盖不应产生第二条记录");
}

#[test]
fn classifies_holiday_makeup_and_plain_days() {
    let store = store_with(&[
        rec("2026-02-17", Category::Holiday, "春节", 4),
        rec("2026-02-14", Category::Workday, "春节", 4),
        rec("2026-02-20", Category::Holiday, "春节", 4),
        rec("2026-02-20", Category::InLieu, "春节", 4),
    ]);

    // A Tuesday that is a day off.
    let holiday = store
        .query_day(normalize_date("2026-02-17").unwrap().1)
        .unwrap();
    assert_eq!(holiday.day_type, DayType::Holiday);
    assert!(holiday.is_holiday && holiday.is_rest_day);
    assert_eq!(holiday.day_of_week_cn, "周二");

    // A Saturday that is worked.
    let makeup = store
        .query_day(normalize_date("2026-02-14").unwrap().1)
        .unwrap();
    assert_eq!(makeup.day_type, DayType::MakeupWorkday);
    assert!(makeup.is_weekend && makeup.is_makeup_workday);
    assert!(!makeup.is_rest_day);

    // A Wednesday without records.
    let plain = store
        .query_day(normalize_date("2026-05-06").unwrap().1)
        .unwrap();
    assert_eq!(plain.day_type, DayType::Workday);
    assert!(!plain.is_holiday && !plain.is_rest_day);
    assert!(plain.data_available, "同一年有数据，应标记为已有数据");
    assert!(plain.festival.is_none());

    // A year without data.
    let unknown = store
        .query_day(normalize_date("1999-05-06").unwrap().1)
        .unwrap();
    assert!(!unknown.data_available);
}

#[test]
fn in_lieu_day_is_flagged() {
    let store = store_with(&[
        rec("2026-02-20", Category::Holiday, "春节", 4),
        rec("2026-02-20", Category::InLieu, "春节", 4),
    ]);
    let day = store
        .query_day(normalize_date("2026-02-20").unwrap().1)
        .unwrap();
    assert!(day.is_holiday && day.is_in_lieu);
    assert_eq!(day.festival.unwrap().name_zh, "春节");
}

#[test]
fn year_records_and_available_years() {
    let store = store_with(&[
        rec("2024-01-01", Category::Holiday, "元旦", 1),
        rec("2026-01-01", Category::Holiday, "元旦", 1),
    ]);
    assert_eq!(store.year_records(2024).unwrap().len(), 1);
    assert_eq!(store.year_records(2026).unwrap().len(), 1);
    assert!(store.year_records(2025).unwrap().is_empty());
    assert_eq!(store.available_years().unwrap(), vec![2024, 2026]);

    let stats = store.stats().unwrap();
    assert_eq!(stats.total, 2);
    assert_eq!(stats.distinct_dates, 2);
}

#[test]
fn transaction_rolls_back_on_error() {
    let mut store = Store::open_in_memory().unwrap();
    let result: Result<(), StoreError> = store.with_transaction(|tx: &mut Database| {
        upsert(tx, &rec("2026-01-01", Category::Holiday, "元旦", 1))?;
        Err(StoreError::Given("模拟中途失败".to_string()))
    });
    assert!(result.is_err());
    assert_eq!(result.unwrap_err().message(), "模拟中途失败");
    assert_eq!(store.stats().unwrap().total, 0, "失败的事务不应留下数据");
}

#[test]
fn a_failed_transaction_leaves_none_open() {
    let mut store = store_with(&[rec("2026-01-01", Category::Holiday, "元旦", 1)]);
    for _ in 0..3 {
        let result: Result<(), StoreError> = store.with_transaction(|tx: &mut Database| {
            upsert(tx, &rec("2026-01-01", Category::Holiday, "春节", 4))?;
            upsert(tx, &rec("2026-01-02", Category::Holiday, "春节", 4))?;
            record_import(tx, "2026.json", 2)?;
            Err(StoreError::Given("x".to_string()))
        });
        assert_eq!(result.unwrap_err().message(), "x");
        assert_eq!(store.stats().unwrap().total, 1);
        assert_eq!(store.year_records(2026).unwrap()[0].name_zh, "元旦");
        assert!(store.import_log().unwrap().is_empty());
    }
    store
        .with_transaction(|tx: &mut Database| {
            upsert(tx, &rec("2026-01-02", Category::Holiday, "春节", 4))
        })
        .unwrap();
    assert_eq!(store.stats().unwrap().total, 2);
}

#[test]
fn transaction_gives_back_what_its_body_gave() {
    let mut store = Store::open_in_memory().unwrap();
    let n: i32 = store.with_transaction(|_tx: &mut Database| Ok(7)).unwrap();
    assert_eq!(n, 7);
}

#[test]
fn a_connection_that_is_used_already_keeps_its_data() {
    let conn = rusqlite::Connection::open_in_memory().unwrap();
    conn.execute_batch(
        "CREATE TABLE import_log (source_file TEXT PRIMARY KEY, imported_at TEXT NOT NULL,
         record_count INTEGER NOT NULL);
         INSERT INTO import_log VALUES ('2020.json', 'then', 3);",
    )
    .unwrap();
    let store = Store::from_conn(conn).unwrap();
    assert_eq!(
        store.import_log().unwrap(),
        vec![("2020.json".to_string(), "then".to_string(), 3)]
    );
    assert_eq!(store.stats().unwrap().total, 0);
}

#[test]
fn sqlite_errors_are_told() {
    let conn = rusqlite::Connection::open_in_memory().unwrap();
    conn.execute_batch("CREATE TABLE import_log (x TEXT);").unwrap();
    let store = Store::from_conn(conn).unwrap();
    let err = store.import_log().unwrap_err();
    assert!(matches!(err, StoreError::Sql(_)));
    assert!(err.message().contains("no such column: source_file"));
}

#[test]
fn errors_tell_what_they_came_from() {
    let conn = rusqlite::Connection::open_in_memory().unwrap();
    conn.execute_batch("CREATE TABLE holiday_records (x TEXT);").unwrap();
    let err = Store::from_conn(conn).err().unwrap();
    assert!(matches!(err, StoreError::Setup(_, _)));
    assert_eq!(err.message(), "初始化表结构失败");
    let full = err.full_message();
    assert!(full.starts_with("初始化表结构失败: no such column: date"));
    assert!(full.contains(": Error code 1: "));
    assert_eq!(StoreError::Given("x".to_string()).full_message(), "x");
}

#[test]
fn a_write_that_fails_undoes_the_transaction() {
    let conn = rusqlite::Connection::open_in_memory().unwrap();
    conn.execute_batch("CREATE TABLE import_log (x TEXT);").unwrap();
    let mut store = Store::from_conn(conn).unwrap();
    let result: Result<(), StoreError> = store.with_transaction(|tx: &mut Database| {
        assert!(upsert(tx, &rec("2026-01-01", Category::Holiday, "元旦", 1))?);
        record_import(tx, "2026.json", 1)
    });
    assert!(result.is_err());
    assert_eq!(store.stats().unwrap().total, 0);
    store
        .with_transaction(|tx: &mut Database| {
            assert!(upsert(tx, &rec("2026-01-01", Category::Holiday, "元旦", 1))?);
            Ok(())
        })
        .unwrap();
    assert_eq!(store.stats().unwrap().total, 1);
}

#[test]
fn a_day_is_told_in_full() {
    let store = store_with(&[rec("2026-10-01", Category::Holiday, "国庆节", 3)]);
    let day = query(&store, "2026-10-01");
    assert_eq!(day.date, "2026-10-01");
    assert_eq!((day.year, day.month, day.day), (2026, 10, 1));
    assert_eq!(day.day_of_week, 4);
    assert_eq!(day.day_of_week_cn, "周四");
    assert!(!day.is_weekend);
    assert!(day.data_available);
    assert_eq!(day.day_type, DayType::Holiday);
    assert!(day.is_holiday && !day.is_makeup_workday && !day.is_in_lieu && day.is_rest_day);
    let festival = day.festival.unwrap();
    assert_eq!(festival.name_en, "Test");
    assert_eq!(festival.name_zh, "国庆节");
    assert_eq!(festival.statutory_days, 3);
}

#[test]
fn a_weekend_is_a_day_off() {
    let store = store_with(&[]);
    let day = query(&store, "2026-10-03");
    assert_eq!(day.day_type, DayType::Weekend);
    assert!(day.is_rest_day && day.is_weekend && !day.data_available);
}

#[test]
fn the_holiday_is_named_first() {
    let store = store_with(&[
        rec("2026-10-01", Category::Workday, "工", 1),
        rec("2026-10-01", Category::InLieu, "补", 2),
        rec("2026-10-01", Category::Holiday, "假", 3),
        rec("2026-10-02", Category::Workday, "工", 1),
        rec("2026-10-02", Category::InLieu, "补", 2),
        rec("2026-10-03", Category::Workday, "工", 1),
    ]);
    let first = query(&store, "2026-10-01");
    assert_eq!(first.festival.unwrap().name_zh, "假");
    assert_eq!(first.day_type, DayType::Holiday);
    assert!(first.is_makeup_workday && first.is_rest_day);
    let second = query(&store, "2026-10-02");
    assert_eq!(second.festival.unwrap().name_zh, "补");
    assert_eq!(second.day_type, DayType::MakeupWorkday);
    let third = query(&store, "2026-10-03");
    assert_eq!(third.festival.unwrap().name_zh, "工");
    assert!(!third.is_rest_day && third.is_weekend);
}

#[test]
fn early_years_are_found() {
    let store = store_with(&[
        rec("0999-03-04", Category::Holiday, "古", 1),
        rec("0005-03-04", Category::Holiday, "古", 1),
    ]);
    assert!(query(&store, "0999-01-01").data_available);
    assert!(query(&store, "0005-12-31").data_available);
    assert!(!query(&store, "0998-01-01").data_available);
    assert_eq!(store.year_records(999).unwrap().len(), 1);
    assert_eq!(store.available_years().unwrap(), vec![5, 999]);
}

#[test]
fn the_year_has_its_first_and_last_day() {
    let store = store_with(&[rec("2025-12-31", Category::Holiday, "末", 1)]);
    assert!(query(&store, "2025-01-01").data_available);
    assert!(!query(&store, "2026-01-01").data_available);
    let store = store_with(&[rec("2026-01-01", Category::Holiday, "初", 1)]);
    assert!(query(&store, "2026-12-31").data_available);
    assert!(!query(&store, "2025-12-31").data_available);
}

#[test]
fn records_of_a_year_are_ordered() {
    let store = store_with(&[
        rec("2026-02-20", Category::Workday, "三", 3),
        rec("2026-02-20", Category::Holiday, "一", 1),
        rec("2026-02-20", Category::InLieu, "二", 2),
        rec("2026-01-01", Category::Holiday, "零", 0),
        rec("2025-12-31", Category::Holiday, "前", 9),
    ]);
    let names: Vec<String> = store
        .year_records(2026)
        .unwrap()
        .into_iter()
        .map(|r| r.name_zh)
        .collect();
    assert_eq!(names, vec!["零", "一", "二", "三"]);
    let record = store.year_records(2025).unwrap().remove(0);
    assert_eq!(record, rec("2025-12-31", Category::Holiday, "前", 9));
}

#[test]
fn a_record_may_have_no_file() {
    let mut record = rec("2026-01-01", Category::Holiday, "元旦", 1);
    record.source_file = None;
    let store = store_with(&[record.clone()]);
    assert_eq!(store.year_records(2026).unwrap(), vec![record]);
}

#[test]
fn stats_count_each_category() {
    let store = store_with(&[
        rec("2026-02-20", Category::Holiday, "一", 1),
        rec("2026-02-20", Category::InLieu, "二", 2),
        rec("2027-02-21", Category::Holiday, "三", 3),
        rec("2024-02-14", Category::Workday, "四", 4),
    ]);
    let stats = store.stats().unwrap();
    assert_eq!(stats.total, 4);
    assert_eq!(stats.distinct_dates, 3);
    assert_eq!((stats.holiday, stats.workday, stats.in_lieu), (2, 1, 1));
    assert_eq!(stats.total, stats.holiday + stats.workday + stats.in_lieu);
    assert!(stats.distinct_dates <= stats.total && stats.total <= 3 * stats.distinct_dates);
    assert_eq!(stats.years, store.available_years().unwrap());
    assert_eq!(stats.years, vec![2024, 2026, 2027]);
}

#[test]
fn the_log_is_kept_by_file() {
    let mut store = Store::open_in_memory().unwrap();
    assert!(store.import_log().unwrap().is_empty());
    store
        .with_transaction(|tx: &mut Database| {
            record_import(tx, "2026.json", 3)?;
            record_import(tx, "2025.json", 1)?;
            record_import(tx, "2026.json", 5)
        })
        .unwrap();
    let log = store.import_log().unwrap();
    assert_eq!(log.len(), 2);
    assert_eq!((log[0].0.as_str(), log[0].2), ("2025.json", 1));
    assert_eq!((log[1].0.as_str(), log[1].2), ("2026.json", 5));
    assert_eq!(log[0].1.len(), "2026-01-01 00:00:00".len());
}

#[test]
fn outcomes_add_up() {
    assert_eq!(WriteOutcome { inserted: 2, updated: 3 }.total(), 5);
    assert_eq!(WriteOutcome::default().total(), 0);
}
