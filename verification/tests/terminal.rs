use holidays::db::{StoreStats, WriteOutcome};
use holidays::importer::{FileReport, ImportReport};
use holidays::model::{Category, Record};
use holidays::probe::{probe_request, probe_timeout, probe_verdict, status_line};
use holidays::report::{
    import_lines, import_verdict, imported_lines, info_lines, started_lines, year_lines,
};
use holidays::terminal::{
    cut, format_range, pad, pad_from, padr, padr_from, summarize_years, truncate,
};

fn overview() -> StoreStats {
    StoreStats {
        total: 9,
        distinct_dates: 7,
        years: vec![2004, 2005, 2026],
        holiday: 4,
        workday: 3,
        in_lieu: 2,
    }
}

fn file_report(name: &str, invalid: usize) -> FileReport {
    FileReport {
        file: name.to_string(),
        years: std::collections::BTreeSet::from([2026]),
        outcome: WriteOutcome { inserted: 12, updated: 3 },
        invalid: (0..invalid).map(|i| format!("r{i}")).collect(),
    }
}

#[test]
fn texts_are_filled_up_by_columns() {
    assert_eq!(pad("ab", 4), "ab  ");
    assert_eq!(pad("春节", 6), "春节  ");
    assert_eq!(pad("春节", 3), "春节");
    assert_eq!(padr("4", 3), "  4");
    assert_eq!(padr("新增", 8), "    新增");
    assert_eq!(padr("", 0), "");
    assert_eq!(pad_from("x", 3, 5), "x  ");
    assert_eq!(padr_from("x", 9, 5), "x");
}

#[test]
fn texts_are_cut_by_columns() {
    assert_eq!(truncate("National Day", 12), "National Day");
    assert_eq!(truncate("National Day", 11), "National D…");
    assert_eq!(truncate("国庆节", 6), "国庆节");
    assert_eq!(truncate("国庆节", 5), "国庆…");
    assert_eq!(truncate("国庆节", 4), "国…");
    assert_eq!(truncate("国庆节", 1), "…");
    assert_eq!(truncate("国庆节", 0), "…");
    assert_eq!(truncate("a\u{7}bc", 3), "a\u{7}b…");
    assert_eq!(cut("abc", &vec![1, 2, 1], 3), "ab…");
    assert_eq!(cut("abc", &vec![5, 0, 0], 3), "…");
}

#[test]
fn years_are_shown_as_ranges() {
    assert_eq!(summarize_years(&vec![]), "-");
    assert_eq!(summarize_years(&vec![2026]), "2026");
    assert_eq!(summarize_years(&vec![2004, 2005, 2006]), "2004-2006");
    assert_eq!(summarize_years(&vec![2004, 2006, 2007, 2010]), "2004, 2006-2007, 2010");
    assert_eq!(summarize_years(&vec![i32::MAX, i32::MIN]), "2147483647, -2147483648");
    assert_eq!(format_range(2004, 2004), "2004");
    assert_eq!(format_range(-1, 4), "-1-4");
}

#[test]
fn an_import_is_shown_as_a_table() {
    let report = ImportReport {
        files: vec![file_report("2026.json", 1), file_report("x.json", 7)],
        failures: Vec::new(),
        outcome: WriteOutcome { inserted: 24, updated: 6 },
        invalid: 8,
    };
    let dashes = "-".repeat(50);
    let expected = vec![
        "文件            新增    覆盖    跳过      覆盖年份".to_string(),
        dashes.clone(),
        "2026.json         12       3       1          2026".to_string(),
        "    ↳ 跳过 r0".to_string(),
        "x.json            12       3       7          2026".to_string(),
        "    ↳ 跳过 r0".to_string(),
        "    ↳ 跳过 r1".to_string(),
        "    ↳ 跳过 r2".to_string(),
        "    ↳ 跳过 r3".to_string(),
        "    ↳ 跳过 r4".to_string(),
        "    ↳ 另有 2 条跳过记录未展示".to_string(),
        dashes,
        "共 2 个文件，新增 24，覆盖 6，跳过 8".to_string(),
    ];
    assert_eq!(import_lines(&report), expected);
}

#[test]
fn an_import_has_a_verdict() {
    let mut report = ImportReport {
        files: Vec::new(),
        failures: Vec::new(),
        outcome: WriteOutcome::default(),
        invalid: 0,
    };
    let verdict = import_verdict(&report);
    assert!(verdict.complaints.is_empty() && verdict.failure.is_none());
    report.invalid = 3;
    let verdict = import_verdict(&report);
    assert_eq!(
        verdict.complaints,
        vec!["注意：有 3 条记录因日期或值非法被跳过，详见上方明细"]
    );
    assert!(verdict.failure.is_none());
    report.failures.push(("a.json".to_string(), "why".to_string()));
    let verdict = import_verdict(&report);
    assert_eq!(verdict.complaints, vec!["导入失败：a.json —— why"]);
    assert_eq!(verdict.failure.unwrap(), "1 个文件导入失败");
}

#[test]
fn the_store_is_summed_up() {
    assert_eq!(
        imported_lines("h.db", &overview()),
        vec![
            "数据库 h.db",
            "  记录 9 条 / 日期 7 个 / 年份 3 个（2004-2005, 2026）",
            "  分类：放假 4，调休上班 3，调休补假 2",
        ]
    );
    assert_eq!(
        started_lines("127.0.0.1:8080", &overview()),
        vec![
            "holidays API 已启动：http://127.0.0.1:8080",
            "  数据库记录 9 条，覆盖 3 个年份",
            "  示例：curl \"http://127.0.0.1:8080/api/v1/holiday?date=2026-10-01\"",
            "  按 Ctrl+C 退出",
        ]
    );
    let head = vec![
        "数据库 h.db",
        "  记录 9 条 / 日期 7 个",
        "  年份 3 个：2004-2005, 2026",
        "  分类：放假 4，调休上班 3，调休补假 2",
        "",
        "导入记录：",
    ];
    let lines = info_lines("h.db", &overview(), &vec![]);
    assert_eq!(lines[..6], head);
    assert_eq!(lines[6..], ["  （尚未导入，请先执行 `holidays import`）"]);
    let log = vec![("2026.json".to_string(), "2026-01-02 03:04:05".to_string(), 45)];
    let lines = info_lines("h.db", &overview(), &log);
    assert_eq!(lines[..6], head);
    assert_eq!(lines[6], "文件          导入时间                  条数");
    assert_eq!(lines[7], "-".repeat(44));
    assert_eq!(lines[8], "2026.json     2026-01-02 03:04:05         45");
    assert_eq!(lines.len(), 9);
}

#[test]
fn a_year_is_shown_as_a_table() {
    assert_eq!(
        year_lines(2011, &vec![]),
        vec!["2011 年没有数据，可用年份见 `holidays info`"]
    );
    let records = vec![Record {
        date: "2026-10-01".to_string(),
        category: Category::Holiday,
        name_en: "National Day".to_string(),
        name_zh: "国庆节国庆节节".to_string(),
        statutory_days: 3,
        source_file: None,
    }];
    let lines = year_lines(2026, &records);
    assert_eq!(lines.len(), 5);
    assert_eq!(
        lines[0],
        "日期        类别        英文名                    中文名        法定"
    );
    assert_eq!(lines[1], "-".repeat(68));
    assert_eq!(
        lines[2],
        "2026-10-01  放假        National Day              国庆节国庆…      3"
    );
    assert_eq!(lines[3], "-".repeat(68));
    assert_eq!(lines[4], "共 1 条记录");
}

#[test]
fn the_probe_asks_once() {
    assert_eq!(
        probe_request("127.0.0.1:8080", "/health"),
        "GET /health HTTP/1.1\r\nHost: 127.0.0.1:8080\r\nConnection: close\r\n\r\n"
    );
    assert_eq!(probe_timeout(0), 1);
    assert_eq!(probe_timeout(3), 3);
}

#[test]
fn the_probe_reads_the_status_line() {
    assert_eq!(status_line("HTTP/1.1 200 OK\r\nx: y\r\n"), "HTTP/1.1 200 OK");
    assert_eq!(status_line("  HTTP/1.1 200 OK"), "HTTP/1.1 200 OK");
    assert_eq!(status_line(""), "");
    assert_eq!(
        probe_verdict("a:1", "/h", "HTTP/1.1 200 OK\r\n").unwrap(),
        "ok: HTTP/1.1 200 OK"
    );
    assert_eq!(
        probe_verdict("a:1", "/h", "\n").unwrap_err(),
        "探测 a:1/h 失败：没有收到任何 HTTP 响应"
    );
    assert_eq!(
        probe_verdict("a:1", "/h", "HTTP/1.1 500 Oops\r\n").unwrap_err(),
        "探测 a:1/h 失败，状态行：\"HTTP/1.1 500 Oops\""
    );
    assert!(probe_verdict("a:1", "/h", "HTTP/1.1 200").is_err());
    assert!(probe_verdict("a:1", "/h", "200 \n 200 ").is_err());
}
