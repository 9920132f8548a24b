use holidays::calendar::{Date, Weekday};
use holidays::model::{
    is_weekend, normalize_date, parse_value, weekday_cn, Category, DateError, YearFile,
};
use holidays::record_map::RecordMap;

fn fill_records(records: &mut RecordMap, value: Option<&serde_json::Value>) {
    if let Some(entries) = value.and_then(|v| v.as_object()) {
        for (date, text) in entries {
            records.insert(date.clone(), text.as_str().unwrap().to_string());
        }
    }
}

fn year_file(json: &str) -> YearFile {
    let value: serde_json::Value = serde_json::from_str(json).unwrap();
    let mut file = YearFile::new();
    fill_records(&mut file.holidays, value.get("holidays"));
    fill_records(&mut file.workdays, value.get("workdays"));
    fill_records(&mut file.in_lieu_days, value.get("inLieuDays"));
    file
}

#[test]
fn parses_plain_value() {
    let v = parse_value("Spring Festival,春节,4").unwrap();
    assert_eq!(v.name_en, "Spring Festival");
    assert_eq!(v.name_zh, "春节");
    assert_eq!(v.statutory_days, 4);
}

#[test]
fn parses_value_with_apostrophe() {
    let v = parse_value("New Year's Day,元旦,1").unwrap();
    assert_eq!(v.name_en, "New Year's Day");
    assert_eq!(v.statutory_days, 1);
}

#[test]
fn parses_value_with_commas_in_english_name() {
    // The days stand behind the last comma, and the names are parted at the first.
    let v = parse_value("Dragon Boat, Festival,端午,1").unwrap();
    assert_eq!(v.name_en, "Dragon Boat");
    assert_eq!(v.name_zh, "Festival,端午");
    assert_eq!(v.statutory_days, 1);
}

#[test]
fn rejects_malformed_values() {
    assert!(parse_value("").is_err());
    assert!(parse_value("元旦").is_err());
    assert!(parse_value("New Year,元旦").is_err());
    assert!(parse_value("New Year,元旦,一天").is_err());
    assert!(parse_value("New Year,,1").is_err());
}

#[test]
fn says_what_is_wrong_with_a_value() {
    assert_eq!(parse_value("  ").unwrap_err(), "值为空");
    assert_eq!(parse_value("元旦").unwrap_err(), "缺少法定天数分段：\"元旦\"");
    assert_eq!(
        parse_value("New Year,元旦").unwrap_err(),
        "缺少中文名分段：\"New Year,元旦\""
    );
    assert_eq!(
        parse_value("New Year,元旦, 一天 ").unwrap_err(),
        "法定天数不是整数：\"一天\""
    );
    assert_eq!(
        parse_value("New Year,,1").unwrap_err(),
        "中英文名不能为空：\"New Year,,1\""
    );
    assert_eq!(
        parse_value("a\tb\"").unwrap_err(),
        "缺少法定天数分段：\"a\\tb\\\"\""
    );
}

#[test]
fn reads_the_days_as_a_64_bit_number() {
    assert_eq!(parse_value("a,b,-3").unwrap().statutory_days, -3);
    assert_eq!(parse_value("a,b,+3").unwrap().statutory_days, 3);
    assert_eq!(parse_value("a,b,007").unwrap().statutory_days, 7);
    assert_eq!(
        parse_value("a,b,9223372036854775807").unwrap().statutory_days,
        i64::MAX
    );
    assert_eq!(
        parse_value("a,b,-9223372036854775808").unwrap().statutory_days,
        i64::MIN
    );
    assert!(parse_value("a,b,9223372036854775808").is_err());
    assert!(parse_value("a,b,99999999999999999999999999999999999999999999").is_err());
    assert!(parse_value("a,b,+").is_err());
    assert!(parse_value("a,b,1.5").is_err());
}

#[test]
fn values_read_back() {
    for (en, zh, days) in [("New Year", "元旦", 1i64), ("A", "甲,乙", -20), ("B b", "c", 0)] {
        let v = parse_value(&format!("{en},{zh},{days}")).unwrap();
        assert_eq!(v.name_en, en);
        assert_eq!(v.name_zh, zh);
        assert_eq!(v.statutory_days, days);
    }
}

#[test]
fn normalizes_valid_dates() {
    let (canon, day) = normalize_date("2026-10-01").unwrap();
    assert_eq!(canon, "2026-10-01");
    assert_eq!(day.year, 2026);
    // White space around it is allowed.
    assert_eq!(normalize_date("  2026-01-01 ").unwrap().0, "2026-01-01");
}

#[test]
fn rejects_bad_dates() {
    for bad in [
        "2026-1-1",
        "2026/10/01",
        "20261001",
        "2026-02-30",
        "2025-02-29",
        "abc",
        "",
    ] {
        assert!(normalize_date(bad).is_err(), "{bad} 不应通过校验");
    }
    // A leap year has the day.
    assert!(normalize_date("2024-02-29").is_ok());
}

#[test]
fn says_what_is_wrong_with_a_date() {
    assert_eq!(
        normalize_date("2026-02-30").unwrap_err().message(),
        "日期 \"2026-02-30\" 不合法:input is out of range"
    );
    assert_eq!(
        normalize_date(" 2026-13-01").unwrap_err().message(),
        "日期 \" 2026-13-01\" 不合法:input is out of range"
    );
    for out_of_range in ["2026-00-10", "2026-10-00", "2026-10-32", "2026-04-31"] {
        assert!(normalize_date(out_of_range)
            .unwrap_err()
            .message()
            .ends_with("input is out of range"));
    }
    assert_eq!(
        normalize_date("2026-1-1").unwrap_err().message(),
        "日期格式应为 YYYY-MM-DD（如 2026-10-01），实际为 \"2026-1-1\""
    );
}

#[test]
fn normal_form_is_kept() {
    for text in ["0000-01-01", "0001-12-31", "1900-02-28", "2000-02-29", "9999-12-31"] {
        let (canon, day) = normalize_date(text).unwrap();
        assert_eq!(canon, text);
        assert_eq!(day.text(), text);
        assert_eq!(normalize_date(&canon).unwrap().1, day);
    }
    assert_eq!(
        normalize_date("\u{3000}2026-05-06\n").unwrap().1,
        Date { year: 2026, month: 5, day: 6 }
    );
    assert!(normalize_date("1900-02-29").is_err());
}

#[test]
fn date_error_keeps_its_message() {
    assert_eq!(DateError::new("x".to_string()).message(), "x");
}

#[test]
fn knows_the_days_of_the_week() {
    let day = |text: &str| normalize_date(text).unwrap().1.weekday();
    assert_eq!(day("2026-10-01"), Weekday::Thu);
    assert_eq!(day("2026-02-14"), Weekday::Sat);
    assert_eq!(day("2024-02-29"), Weekday::Thu);
    assert_eq!(day("0001-01-01"), Weekday::Mon);
    assert_eq!(day("0000-01-01"), Weekday::Sat);
    assert_eq!(day("9999-12-31"), Weekday::Fri);
    let week = [
        (Weekday::Mon, "周一"),
        (Weekday::Tue, "周二"),
        (Weekday::Wed, "周三"),
        (Weekday::Thu, "周四"),
        (Weekday::Fri, "周五"),
        (Weekday::Sat, "周六"),
        (Weekday::Sun, "周日"),
    ];
    for (i, (weekday, name)) in week.iter().enumerate() {
        assert_eq!(weekday.number_from_monday(), i as u32 + 1);
        assert_eq!(weekday_cn(*weekday), *name);
        assert_eq!(is_weekend(*weekday), i >= 5);
    }
}

#[test]
fn days_of_the_week_follow_one_another() {
    for (day, next) in [
        ("2024-02-28", "2024-02-29"),
        ("2024-02-29", "2024-03-01"),
        ("2025-02-28", "2025-03-01"),
        ("1900-02-28", "1900-03-01"),
        ("2025-12-31", "2026-01-01"),
        ("0004-12-31", "0005-01-01"),
    ] {
        let number = |text: &str| normalize_date(text).unwrap().1.weekday().number_from_monday();
        assert_eq!(number(next), number(day) % 7 + 1);
    }
}

#[test]
fn year_file_entries_cover_all_categories() {
    let json = r#"{
        "holidays": {"2026-01-01": "New Year's Day,元旦,1"},
        "workdays": {"2026-01-04": "New Year's Day,元旦,1"},
        "inLieuDays": {"2026-01-02": "New Year's Day,元旦,1"}
    }"#;
    let file = year_file(json);
    assert_eq!(file.len(), 3);
    for entry in file.entries() {
        assert_eq!(entry.records.len(), 1);
    }
}

#[test]
fn year_file_tolerates_missing_keys() {
    let file = year_file(r#"{"holidays":{}}"#);
    assert!(file.is_empty());
    assert_eq!(file.entries().len(), 3);
}

#[test]
fn year_file_lists_categories_in_order() {
    let file = YearFile::new();
    let categories: Vec<Category> = file.entries().iter().map(|e| e.category).collect();
    assert_eq!(categories, Category::ALL);
}

#[test]
fn records_are_kept_by_date() {
    let mut records = RecordMap::new();
    assert!(records.is_empty());
    records.insert("b".to_string(), "1".to_string());
    records.insert("c".to_string(), "2".to_string());
    records.insert("a".to_string(), "3".to_string());
    records.insert("b".to_string(), "4".to_string());
    assert_eq!(records.len(), 3);
    assert_eq!(records.entry(0), ("a", "3"));
    assert_eq!(records.entry(1), ("b", "4"));
    assert_eq!(records.entry(2), ("c", "2"));
}

#[test]
fn category_round_trips() {
    for c in Category::ALL {
        assert_eq!(Category::parse(c.as_str()), Some(c));
    }
    assert_eq!(Category::parse("nope"), None);
}

#[test]
fn categories_have_labels() {
    assert_eq!(Category::Holiday.label_cn(), "放假");
    assert_eq!(Category::Workday.label_cn(), "调休上班");
    assert_eq!(Category::InLieu.label_cn(), "调休补假");
}
