use holidays::api::docs::{ApiDoc, Method, Route};
use holidays::api::{
    batch, day_by_query, health, list_year, lookup, not_found, year_by_query, years, ApiError,
    BATCH_LIMIT,
};
use holidays::db::{upsert, Database, Store, StoreError};
use holidays::model::{Category, DayType, Record};

fn test_store() -> Store {
    let mut store = Store::open_in_memory().unwrap();
    let records = [
        ("2026-02-15", Category::Holiday, "Spring Festival", "春节", 4),
        ("2026-02-16", Category::Holiday, "Spring Festival", "春节", 4),
        ("2026-02-16", Category::InLieu, "Spring Festival", "春节", 4),
        ("2026-02-14", Category::Workday, "Spring Festival", "春节", 4),
    ];
    store
        .with_transaction(|tx: &mut Database| {
            for (date, category, name_en, name_zh, days) in records {
                upsert(
                    tx,
                    &Record {
                        date: date.to_string(),
                        category,
                        name_en: name_en.to_string(),
                        name_zh: name_zh.to_string(),
                        statutory_days: days,
                        source_file: Some("test.json".to_string()),
                    },
                )?;
            }
            Ok(())
        })
        .unwrap();
    store
}

#[test]
fn lookup_classifies_days() {
    let store = test_store();

    let holiday = lookup(&store, "2026-02-15").unwrap();
    assert_eq!(holiday.day_type, DayType::Holiday);
    assert!(holiday.is_holiday && holiday.data_available);
    assert_eq!(holiday.festival.unwrap().name_zh, "春节");

    let makeup = lookup(&store, "2026-02-14").unwrap();
    assert_eq!(makeup.day_type, DayType::MakeupWorkday);
    assert!(makeup.is_weekend && !makeup.is_rest_day);

    // A day off that was also traded for a day of work.
    let in_lieu = lookup(&store, "2026-02-16").unwrap();
    assert!(in_lieu.is_holiday && in_lieu.is_in_lieu);

    // A date that is not valid is answered with 400 and invalid_date.
    let err = lookup(&store, "2026-2-15").unwrap_err();
    assert_eq!(err.status, 400);
    assert_eq!(err.code, "invalid_date");
}

#[test]
fn a_date_that_does_not_exist_is_refused() {
    let store = Store::open_in_memory().unwrap();
    let err = lookup(&store, "2026-02-30").unwrap_err();
    assert_eq!((err.status, err.code), (400, "invalid_date"));
    assert_eq!(err.message, "日期 \"2026-02-30\" 不合法:input is out of range");
}

#[test]
fn year_listing_splits_categories() {
    let store = test_store();
    let body = list_year(&store, 2026).unwrap();
    assert!(body.data_available);
    assert_eq!(body.holidays.len(), 2);
    assert_eq!(body.in_lieu_days.len(), 1);
    assert_eq!(body.makeup_workdays.len(), 1);
    assert_eq!(body.total, 4);

    let empty = list_year(&store, 2011).unwrap();
    assert!(!empty.data_available);
    assert_eq!(empty.total, 0);
}

#[test]
fn year_range_is_validated() {
    let store = test_store();
    let err = list_year(&store, 1200).unwrap_err();
    assert_eq!(err.code, "invalid_year");
}

#[test]
fn year_range_has_its_ends() {
    let store = test_store();
    assert_eq!(list_year(&store, 1900).unwrap().year, 1900);
    assert_eq!(list_year(&store, 2999).unwrap().year, 2999);
    for year in [1899, 3000, -5] {
        let err = list_year(&store, year).unwrap_err();
        assert_eq!(err.status, 400);
        assert_eq!(err.message, format!("年份超出合理范围（1900-2999）：{year}"));
    }
}

#[test]
fn year_listing_keeps_the_order() {
    let store = test_store();
    let body = list_year(&store, 2026).unwrap();
    let dates: Vec<&str> = body.holidays.iter().map(|r| r.date.as_str()).collect();
    assert_eq!(dates, vec!["2026-02-15", "2026-02-16"]);
    assert_eq!(body.in_lieu_days[0].date, "2026-02-16");
    assert_eq!(body.makeup_workdays[0].date, "2026-02-14");
}

#[test]
fn parameters_may_be_missing() {
    let store = test_store();
    let err = day_by_query(&store, None).unwrap_err();
    assert_eq!((err.status, err.code), (400, "missing_date"));
    assert_eq!(err.message, "缺少查询参数 date，例如 ?date=2026-10-01");
    let err = year_by_query(&store, None).unwrap_err();
    assert_eq!((err.status, err.code), (400, "missing_year"));
    assert_eq!(err.message, "缺少查询参数 year，例如 ?year=2026");
    assert!(day_by_query(&store, Some("2026-02-15".to_string())).unwrap().is_holiday);
    assert_eq!(year_by_query(&store, Some(2026)).unwrap().total, 4);
}

#[test]
fn health_counts_the_records() {
    let store = test_store();
    let body = health(&store).unwrap();
    assert_eq!(body.status, "ok");
    assert_eq!(body.records, 4);
    assert_eq!(body.dates, 3);
    assert_eq!(body.years, vec![2026]);
}

#[test]
fn years_are_counted() {
    let store = test_store();
    let body = years(&store).unwrap();
    assert_eq!(body.count, 1);
    assert_eq!(body.years, vec![2026]);
}

#[test]
fn a_batch_answers_every_date() {
    let store = test_store();
    let dates: Vec<String> = ["2026-02-15", "2026-02-30", "nope", "2026-02-14"]
        .iter()
        .map(|d| d.to_string())
        .collect();
    let body = batch(&store, &dates).unwrap();
    assert_eq!((body.total, body.succeeded, body.failed), (4, 2, 2));
    assert_eq!(body.results[0].date, "2026-02-15");
    assert_eq!(body.results[1].date, "2026-02-14");
    assert_eq!(body.errors[0].date, "2026-02-30");
    assert_eq!(body.errors[0].code, "invalid_date");
    assert_eq!(
        body.errors[0].message,
        "日期 \"2026-02-30\" 不合法:input is out of range"
    );
    assert_eq!(body.errors[1].date, "nope");
}

#[test]
fn a_batch_has_limits() {
    let store = test_store();
    let err = batch(&store, &vec![]).unwrap_err();
    assert_eq!((err.status, err.code), (400, "empty_batch"));
    assert_eq!(err.message, "dates 不能为空");
    let full = vec!["2026-02-15".to_string(); BATCH_LIMIT];
    assert_eq!(batch(&store, &full).unwrap().succeeded, 1000);
    let too_many = vec!["2026-02-15".to_string(); BATCH_LIMIT + 1];
    let err = batch(&store, &too_many).unwrap_err();
    assert_eq!((err.status, err.code), (400, "batch_too_large"));
    assert_eq!(err.message, "单次最多查询 1000 个日期，当前 1001");
}

#[test]
fn a_store_that_fails_is_told() {
    let conn = rusqlite::Connection::open_in_memory().unwrap();
    conn.execute_batch(
        "CREATE TABLE holiday_records (date TEXT, category TEXT, PRIMARY KEY (date, category));",
    )
    .unwrap();
    let store = Store::from_conn(conn).unwrap();
    let err = lookup(&store, "2026-02-15").unwrap_err();
    assert_eq!((err.status, err.code), (500, "internal_error"));
    assert!(err.message.contains("no such column"));
    let body = batch(&store, &vec!["2026-02-15".to_string(), "x".to_string()]).unwrap();
    assert_eq!((body.succeeded, body.failed), (0, 2));
    assert_eq!(body.errors[0].code, "internal_error");
    assert_eq!(body.errors[1].code, "invalid_date");
    assert_eq!(list_year(&store, 2026).unwrap_err().status, 500);
}

#[test]
fn errors_have_a_status() {
    let err = not_found();
    assert_eq!((err.status, err.code), (404, "not_found"));
    assert!(err.message.starts_with("接口不存在，可用接口：GET /api/v1/years"));
    let err = ApiError::internal(&StoreError::Given("x".to_string()));
    assert_eq!((err.status, err.code, err.message.as_str()), (500, "internal_error", "x"));
    let err = ApiError::bad_request("c", "m".to_string());
    assert_eq!((err.status, err.code, err.message.as_str()), (400, "c", "m"));
}

/// A route that the document does not have fails here.
#[test]
fn openapi_covers_every_route() {
    let doc = ApiDoc::openapi();
    let paths: Vec<&str> = doc.paths.iter().map(|p| p.path).collect();
    let expected = [
        "/health",
        "/api/v1/holiday",
        "/api/v1/holiday/{date}",
        "/api/v1/holidays",
        "/api/v1/holidays/batch",
        "/api/v1/year/{year}",
        "/api/v1/years",
    ];
    for path in expected {
        assert!(paths.contains(&path), "OpenAPI 文档缺少路径 {path}");
    }
    assert_eq!(
        paths.len(),
        expected.len(),
        "路由数量与文档不一致，请同步 src/api/docs.rs"
    );
}

#[test]
fn routes_are_described() {
    let doc = ApiDoc::openapi();
    assert_eq!(doc.title, "中国节假日查询服务");
    assert!(doc.description.starts_with("按日期查询中国法定节假日"));
    for (entry, route) in doc.paths.iter().zip(Route::ALL) {
        assert_eq!(entry.route, route);
        assert_eq!(entry.path, route.path());
        assert_eq!(entry.summary, route.summary());
        assert!(doc.tags.iter().any(|(name, _)| *name == entry.tag));
        assert_eq!(entry.method == Method::Post, route == Route::Batch);
    }
}
