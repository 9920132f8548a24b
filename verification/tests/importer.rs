use holidays::db::{Store, WriteOutcome};
use holidays::importer::{
    discover_files, import_dir, import_file, is_data_file, is_wanted_file, sort_by_name, Contents,
    FileReport, ImportReport,
};
use holidays::model::{normalize_date, Category, YearFile};
use holidays::record_map::RecordMap;

fn put_records(records: &mut RecordMap, value: Option<&serde_json::Value>) {
    if let Some(entries) = value.and_then(|v| v.as_object()) {
        for (date, text) in entries {
            records.insert(date.clone(), text.as_str().unwrap().to_string());
        }
    }
}

fn contents(body: &str) -> Contents {
    match serde_json::from_str::<serde_json::Value>(body) {
        Ok(value) => {
            let mut file = YearFile::new();
            put_records(&mut file.holidays, value.get("holidays"));
            put_records(&mut file.workdays, value.get("workdays"));
            put_records(&mut file.in_lieu_days, value.get("inLieuDays"));
            Ok(file)
        }
        Err(e) => Err(e.to_string()),
    }
}

fn listing(files: &[(&str, &str)]) -> Option<Vec<(String, Contents)>> {
    Some(
        files
            .iter()
            .map(|(name, body)| (name.to_string(), contents(body)))
            .collect(),
    )
}

#[test]
fn imports_directory_and_covers_conflicts_by_file_order() {
    let files = [
        (
            "2024.json",
            r#"{"holidays":{"2024-01-01":"New Year's Day,元旦,1"},
                "workdays":{},"inLieuDays":{}}"#,
        ),
        (
            "2025.json",
            r#"{"holidays":{"2025-01-01":"New Year's Day,元旦,1"},
                "workdays":{"2025-01-26":"Spring Festival,春节,4"},
                "inLieuDays":{}}"#,
        ),
        // A later file has the same date, and overrides the earlier one.
        (
            "2026.json",
            r#"{"holidays":{"2024-01-01":"New Year's Day,元旦,2",
                            "2026-01-01":"New Year's Day,元旦,1"},
                "workdays":{},"inLieuDays":{}}"#,
        ),
        // An entry that is not valid is left out; the others stay.
        (
            "2027.json",
            r#"{"holidays":{"2027-02-30":"Bad,坏,1","2027-10-01":"National Day,国庆节,3"},
                "workdays":{},"inLieuDays":{}}"#,
        ),
    ];

    let mut store = Store::open_in_memory().unwrap();
    let report = import_dir(&mut store, "holidays-test", listing(&files), &vec![]).unwrap();

    assert!(report.failures.is_empty());
    assert_eq!(report.files.len(), 4);
    assert_eq!(report.invalid, 1, "2027-02-30 应被跳过");

    let stats = store.stats().unwrap();
    assert_eq!(stats.total, 5);
    assert_eq!(stats.holiday, 4);
    assert_eq!(stats.workday, 1);
    assert_eq!(stats.years, vec![2024, 2025, 2026, 2027]);

    // 2024-01-01 has 2 days from 2026.json.
    let day = store
        .query_day(normalize_date("2024-01-01").unwrap().1)
        .unwrap();
    let festival = day.festival.unwrap();
    assert_eq!(festival.statutory_days, 2);
    assert_eq!(
        store.year_records(2024).unwrap()[0].source_file.as_deref(),
        Some("2026.json")
    );

    // The files have 6 valid records, one of them twice. All are there already, so
    // all are overwritten, and the number of records stays.
    let again = import_dir(&mut store, "holidays-test", listing(&files), &vec![]).unwrap();
    assert_eq!(again.outcome.inserted, 0);
    assert_eq!(again.outcome.updated, 6);
    assert_eq!(again.invalid, 1);
    let restats = store.stats().unwrap();
    assert_eq!(restats.total, 5, "覆盖不应新增记录");
    assert_eq!(restats.distinct_dates, 5);

    // Only the files of given years.
    let filtered = import_dir(&mut store, "holidays-test", listing(&files), &vec![2025]).unwrap();
    assert_eq!(filtered.files.len(), 1);
    assert_eq!(filtered.files[0].file, "2025.json");
    assert_eq!(
        store.year_records(2025).unwrap()[0].category,
        Category::Holiday
    );
}

#[test]
fn missing_directory_is_an_error() {
    let mut store = Store::open_in_memory().unwrap();
    let missing = import_dir(&mut store, "holidays-definitely-not-here", None, &vec![]);
    assert!(missing.is_err());
    assert_eq!(
        missing.unwrap_err(),
        "数据目录不存在或不是目录：holidays-definitely-not-here"
    );
}

#[test]
fn broken_json_is_reported_without_killing_other_files() {
    let files = [
        ("2024.json", "{ not json"),
        (
            "2025.json",
            r#"{"holidays":{"2025-01-01":"New Year's Day,元旦,1"}}"#,
        ),
    ];
    let mut store = Store::open_in_memory().unwrap();
    let report = import_dir(&mut store, "holidays-badjson", listing(&files), &vec![]).unwrap();

    assert_eq!(report.failures.len(), 1);
    assert_eq!(report.failures[0].0, "2024.json");
    assert_eq!(report.files.len(), 1);
    assert_eq!(store.stats().unwrap().total, 1);
    assert!(report.has_problems());
}

#[test]
fn a_file_that_sqlite_refuses_does_not_keep_the_others_out() {
    let conn = rusqlite::Connection::open_in_memory().unwrap();
    conn.execute_batch(
        "CREATE TABLE holiday_records (
             date TEXT NOT NULL, category TEXT NOT NULL,
             name_en TEXT NOT NULL CHECK (name_en <> 'Bad'), name_zh TEXT NOT NULL,
             statutory_days INTEGER NOT NULL, source_file TEXT, updated_at TEXT NOT NULL,
             PRIMARY KEY (date, category));",
    )
    .unwrap();
    let mut store = Store::from_conn(conn).unwrap();
    let files = [
        ("a.json", r#"{"holidays":{"2026-01-01":"A,甲,1"}}"#),
        ("b.json", r#"{"holidays":{"2026-01-01":"B,乙,2","2026-01-02":"Bad,坏,1"}}"#),
        ("c.json", r#"{"holidays":{"2026-01-03":"C,丙,3"}}"#),
    ];
    let report = import_dir(&mut store, "data", listing(&files), &vec![]).unwrap();
    assert_eq!(report.failures.len(), 1);
    assert_eq!(report.failures[0].0, "b.json");
    assert!(report.failures[0].1.contains("CHECK constraint failed"));
    assert_eq!(report.files.len(), 2);
    // Nothing of the second file was kept.
    let names: Vec<String> = store
        .year_records(2026)
        .unwrap()
        .into_iter()
        .map(|r| r.name_en)
        .collect();
    assert_eq!(names, vec!["A", "C"]);
    assert_eq!(store.import_log().unwrap().len(), 2);
}

#[test]
fn a_directory_without_data_files_is_an_error() {
    let mut store = Store::open_in_memory().unwrap();
    let r = import_dir(&mut store, "data", listing(&[("README.md", "{}")]), &vec![]);
    assert_eq!(r.unwrap_err(), "目录 data 下没有找到 .json 文件");
}

#[test]
fn the_order_of_the_listing_does_not_matter() {
    let files = [
        ("b.json", r#"{"holidays":{"2026-01-01":"B,乙,2"}}"#),
        ("a.json", r#"{"holidays":{"2026-01-01":"A,甲,1"}}"#),
        ("c.txt", "{ not json"),
    ];
    let reversed: Vec<(&str, &str)> = files.iter().rev().cloned().collect();
    for list in [&files[..], &reversed[..]] {
        let mut store = Store::open_in_memory().unwrap();
        let report = import_dir(&mut store, "data", listing(list), &vec![]).unwrap();
        assert_eq!(report.files[0].file, "a.json");
        assert_eq!(report.files[1].file, "b.json");
        assert_eq!((report.outcome.inserted, report.outcome.updated), (1, 1));
        assert_eq!(store.year_records(2026).unwrap()[0].name_en, "B");
    }
}

#[test]
fn a_file_is_reported_in_full() {
    let mut store = Store::open_in_memory().unwrap();
    let parsed = contents(
        r#"{"holidays":{"2026-01-01":"A,甲,1","2025-12-31":"A,甲,1","x":"A,甲,1"},
            "workdays":{"2026-01-04":"no"},
            "inLieuDays":{" 2026-01-02 ":"C,丙,3"}}"#,
    )
    .unwrap();
    let report = import_file(&mut store, &parsed, "2026.json").unwrap();
    assert_eq!(report.file, "2026.json");
    assert_eq!(report.outcome.inserted, 3);
    assert_eq!(report.outcome.updated, 0);
    assert_eq!(
        report.invalid,
        vec![
            "x: 日期格式应为 YYYY-MM-DD（如 2026-10-01），实际为 \"x\"",
            "2026-01-04: 缺少法定天数分段：\"no\"",
        ]
    );
    assert_eq!(report.year_range(), "2025..2026");
    let records = store.year_records(2026).unwrap();
    assert_eq!(records.len(), 2);
    assert_eq!(records[1].date, "2026-01-02");
    assert_eq!(records[1].category, Category::InLieu);
    assert_eq!(records[1].name_zh, "丙");
    let log = store.import_log().unwrap();
    assert_eq!((log[0].0.as_str(), log[0].2), ("2026.json", 3));
}

#[test]
fn a_file_without_entries_writes_nothing() {
    let mut store = Store::open_in_memory().unwrap();
    let report = import_file(&mut store, &YearFile::new(), "2026.json").unwrap();
    assert_eq!(report.file, "2026.json");
    assert_eq!(report.outcome.total(), 0);
    assert!(report.invalid.is_empty());
    assert_eq!(report.year_range(), "-");
    assert!(store.import_log().unwrap().is_empty());
}

#[test]
fn a_file_that_fails_leaves_nothing() {
    let conn = rusqlite::Connection::open_in_memory().unwrap();
    conn.execute_batch("CREATE TABLE import_log (x TEXT);").unwrap();
    let mut store = Store::from_conn(conn).unwrap();
    let files = [
        ("a.json", r#"{"holidays":{"2026-01-01":"A,甲,1"}}"#),
        ("b.json", "{}"),
    ];
    let report = import_dir(&mut store, "data", listing(&files), &vec![]).unwrap();
    assert_eq!(report.failures.len(), 1);
    assert_eq!(report.failures[0].0, "a.json");
    assert!(report.failures[0].1.contains("has no column named source_file"));
    assert!(report.failures[0].1.contains(": "));
    assert_eq!(report.files.len(), 1);
    assert_eq!(report.files[0].file, "b.json");
    assert_eq!(store.stats().unwrap().total, 0);
}

#[test]
fn later_collections_do_not_override_earlier_ones() {
    let mut store = Store::open_in_memory().unwrap();
    let parsed = contents(
        r#"{"holidays":{"2026-01-01":"A,甲,1"},"workdays":{"2026-01-01":"B,乙,2"},
            "inLieuDays":{"2026-01-01":"C,丙,3"}}"#,
    )
    .unwrap();
    let report = import_file(&mut store, &parsed, "2026.json").unwrap();
    assert_eq!(report.outcome.inserted, 3);
    assert_eq!(report.year_range(), "2026");
    assert_eq!(store.stats().unwrap().distinct_dates, 1);
    assert_eq!(store.year_records(2026).unwrap().len(), 3);
}

#[test]
fn two_spellings_of_a_date_are_one() {
    let mut store = Store::open_in_memory().unwrap();
    let parsed = contents(r#"{"holidays":{"2026-01-01":"A,甲,1"," 2026-01-01":"B,乙,2"}}"#).unwrap();
    let report = import_file(&mut store, &parsed, "2026.json").unwrap();
    assert_eq!((report.outcome.inserted, report.outcome.updated), (1, 1));
    // The space sorts first.
    assert_eq!(store.year_records(2026).unwrap()[0].name_en, "A");
}

#[test]
fn data_files_are_told_by_their_names() {
    assert!(is_data_file("2026.json"));
    assert!(is_data_file("x.json"));
    assert!(!is_data_file(".json"));
    assert!(!is_data_file("2026.JSON"));
    assert!(!is_data_file("2026json"));
    assert!(!is_data_file(""));
    assert!(is_wanted_file("2026.json", &vec![]));
    assert!(is_wanted_file("2026.json", &vec![2025, 2026]));
    assert!(!is_wanted_file("2026.json", &vec![2025]));
    assert!(!is_wanted_file("x.json", &vec![2025]));
    assert!(is_wanted_file("x.json", &vec![]));
}

#[test]
fn data_files_are_found_in_order() {
    let names: Vec<String> = ["2026.json", "b.txt", "10.json", "2004.json"]
        .iter()
        .map(|n| n.to_string())
        .collect();
    assert_eq!(
        discover_files(names),
        vec!["10.json", "2004.json", "2026.json"]
    );
}

#[test]
fn sorting_is_stable() {
    let items: Vec<(String, i32)> = [("b", 1), ("a", 2), ("b", 3), ("a", 4), ("", 5)]
        .iter()
        .map(|(n, v)| (n.to_string(), *v))
        .collect();
    let values: Vec<i32> = sort_by_name(items).into_iter().map(|(_, v)| v).collect();
    assert_eq!(values, vec![5, 2, 4, 1, 3]);
}

#[test]
fn reports_add_up() {
    let mut report = ImportReport {
        files: Vec::new(),
        failures: Vec::new(),
        outcome: WriteOutcome::default(),
        invalid: 0,
    };
    assert!(!report.has_problems());
    let mut years = std::collections::BTreeSet::new();
    years.insert(2026);
    years.insert(2004);
    let done = FileReport {
        file: "a.json".to_string(),
        years,
        outcome: WriteOutcome { inserted: 3, updated: 4 },
        invalid: vec!["x".to_string()],
    };
    assert_eq!(done.year_range(), "2004..2026");
    report.note("a.json", Ok(done));
    assert_eq!((report.outcome.inserted, report.outcome.updated), (3, 4));
    assert_eq!(report.invalid, 1);
    assert_eq!(report.files.len(), 1);
    assert!(report.failures.is_empty() && report.has_problems());
    report.note("b.json", Err("why".to_string()));
    assert_eq!(report.files.len(), 1);
    assert_eq!(report.failures, vec![("b.json".to_string(), "why".to_string())]);
}
