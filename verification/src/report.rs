//! The lines that the commands print.

use vstd::prelude::*;
use vstd::string::*;

use crate::db::StoreStats;
use crate::importer::{years_text, FileReport, ImportReport};
use crate::model::{category_label, record_views, Record, RecordView};
use crate::sqlite::texts;
use crate::terminal::{
    pad, padded, padded_left, padr, summarize_years, truncate, truncated, years_summary,
};
use crate::text::{decimal, decimal_text, integer, integer_text};

verus! {

/// A line of `n` dashes.
pub open spec fn dashes(n: nat) -> Seq<char> {
    Seq::new(n, |i: int| '-')
}

fn rule(n: usize) -> (r: String)
    ensures
        r@ == dashes(n as nat),
{
    let mut out = String::new();
    let mut i: usize = 0;
    assert(out@ =~= dashes(0));
    while i < n
        invariant
            i <= n,
            out@ == dashes(i as nat),
        decreases n - i,
    {
        out.push('-');
        i = i + 1;
        assert(out@ =~= dashes(i as nat));
    }
    out
}

/// A number in decimal.
fn number(n: usize) -> (r: String)
    ensures
        r@ == decimal_text(n as nat),
{
    decimal(n as u64)
}

fn add_line(lines: &mut Vec<String>, line: String)
    ensures
        texts(final(lines)@) == texts(old(lines)@).push(line@),
{
    lines.push(line);
    assert(texts(lines@) =~= texts(old(lines)@).push(line@));
}

// ---------------------------------------------------------------- importing

pub open spec fn import_header() -> Seq<char> {
    padded("文件"@, 12) + padded_left("新增"@, 8) + padded_left("覆盖"@, 8) + padded_left(
        "跳过"@,
        8,
    ) + padded_left("覆盖年份"@, 14)
}

/// The row of a file: its name, the numbers of its records, and its years.
pub open spec fn file_row(file: FileReport) -> Seq<char> {
    padded(file.file@, 12) + padded_left(decimal_text(file.outcome.inserted as nat), 8)
        + padded_left(decimal_text(file.outcome.updated as nat), 8) + padded_left(
        decimal_text(file.invalid@.len()),
        8,
    ) + padded_left(years_text(file.years@), 14)
}

pub open spec fn skipped_line(reason: Seq<char>) -> Seq<char> {
    "    ↳ 跳过 "@ + reason
}

pub open spec fn more_skipped_line(n: nat) -> Seq<char> {
    "    ↳ 另有 "@ + decimal_text(n) + " 条跳过记录未展示"@
}

/// The first `n` of the entries that were left out.
pub open spec fn skipped_lines(reasons: Seq<Seq<char>>, n: nat) -> Seq<Seq<char>> {
    Seq::new(n, |i: int| skipped_line(reasons[i]))
}

/// The lines of a file: its row, and up to five of the entries that were left out.
pub open spec fn file_lines(file: FileReport) -> Seq<Seq<char>> {
    let reasons = texts(file.invalid@);
    if reasons.len() > 5 {
        (seq![file_row(file)] + skipped_lines(reasons, 5)).push(
            more_skipped_line((reasons.len() - 5) as nat),
        )
    } else {
        seq![file_row(file)] + skipped_lines(reasons, reasons.len())
    }
}

/// The lines of all files, in order.
pub open spec fn files_lines(files: Seq<FileReport>) -> Seq<Seq<char>>
    decreases files.len(),
{
    if files.len() == 0 {
        Seq::empty()
    } else {
        files_lines(files.drop_last()) + file_lines(files.last())
    }
}

pub open spec fn import_summary(report: ImportReport) -> Seq<char> {
    "共 "@ + decimal_text(report.files@.len()) + " 个文件，新增 "@ + decimal_text(
        report.outcome.inserted as nat,
    ) + "，覆盖 "@ + decimal_text(report.outcome.updated as nat) + "，跳过 "@ + decimal_text(
        report.invalid as nat,
    )
}

/// The table of an import.
pub open spec fn import_table(report: ImportReport) -> Seq<Seq<char>> {
    (seq![import_header(), dashes(50)] + files_lines(report.files@)).push(dashes(50)).push(
        import_summary(report),
    )
}

fn file_row_line(file: &FileReport) -> (r: String)
    ensures
        r@ == file_row(*file),
{
    let mut out = pad(file.file.as_str(), 12);
    out.append(padr(number(file.outcome.inserted).as_str(), 8).as_str());
    out.append(padr(number(file.outcome.updated).as_str(), 8).as_str());
    out.append(padr(number(file.invalid.len()).as_str(), 8).as_str());
    out.append(padr(file.year_range().as_str(), 14).as_str());
    out
}

fn add_file_lines(lines: &mut Vec<String>, file: &FileReport)
    ensures
        texts(final(lines)@) == texts(old(lines)@) + file_lines(*file),
{
    let ghost start = texts(lines@);
    let ghost reasons = texts(file.invalid@);
    add_line(lines, file_row_line(file));
    let total: usize = file.invalid.len();
    let shown: usize = if total > 5 {
        5
    } else {
        total
    };
    let mut i: usize = 0;
    assert(texts(lines@) =~= start + (seq![file_row(*file)] + skipped_lines(reasons, 0)));
    while i < shown
        invariant
            i <= shown <= file.invalid@.len(),
            reasons == texts(file.invalid@),
            texts(lines@) == start + (seq![file_row(*file)] + skipped_lines(reasons, i as nat)),
        decreases shown - i,
    {
        let mut line = String::from_str("    ↳ 跳过 ");
        line.append(file.invalid[i].as_str());
        assert(line@ == skipped_line(reasons[i as int]));
        add_line(lines, line);
        i = i + 1;
        assert(texts(lines@) =~= start + (seq![file_row(*file)] + skipped_lines(
            reasons,
            i as nat,
        )));
    }
    if total > 5 {
        let mut line = String::from_str("    ↳ 另有 ");
        line.append(number(total - 5).as_str());
        line.append(" 条跳过记录未展示");
        add_line(lines, line);
    }
    assert(texts(lines@) =~= start + file_lines(*file));
}

/// The table of an import: a row for each file, and the totals.
pub fn import_lines(report: &ImportReport) -> (r: Vec<String>)
    ensures
        texts(r@) == import_table(*report),
{
    let mut lines: Vec<String> = Vec::new();
    let mut header = pad("文件", 12);
    header.append(padr("新增", 8).as_str());
    header.append(padr("覆盖", 8).as_str());
    header.append(padr("跳过", 8).as_str());
    header.append(padr("覆盖年份", 14).as_str());
    assert(texts(lines@) =~= Seq::<Seq<char>>::empty());
    add_line(&mut lines, header);
    add_line(&mut lines, rule(50));
    let ghost start = seq![import_header(), dashes(50)];
    let ghost files = report.files@;
    assert(files.take(0) =~= Seq::<FileReport>::empty());
    assert(texts(lines@) =~= start + files_lines(files.take(0)));
    let mut i: usize = 0;
    while i < report.files.len()
        invariant
            files == report.files@,
            i <= files.len(),
            texts(lines@) == start + files_lines(files.take(i as int)),
        decreases files.len() - i,
    {
        assert(files.take(i + 1).drop_last() =~= files.take(i as int));
        assert(files.take(i + 1).last() == files[i as int]);
        add_file_lines(&mut lines, &report.files[i]);
        assert(texts(lines@) =~= start + files_lines(files.take(i + 1)));
        i = i + 1;
    }
    assert(files.take(files.len() as int) =~= files);
    add_line(&mut lines, rule(50));
    let mut summary = String::from_str("共 ");
    summary.append(number(report.files.len()).as_str());
    summary.append(" 个文件，新增 ");
    summary.append(number(report.outcome.inserted).as_str());
    summary.append("，覆盖 ");
    summary.append(number(report.outcome.updated).as_str());
    summary.append("，跳过 ");
    summary.append(number(report.invalid).as_str());
    add_line(&mut lines, summary);
    lines
}

/// What an import leaves to look after.
#[derive(Debug)]
pub struct Verdict {
    /// The lines for the error output.
    pub complaints: Vec<String>,
    /// Why the command fails, where it does.
    pub failure: Option<String>,
}

pub open spec fn failure_line(failure: (String, String)) -> Seq<char> {
    "导入失败："@ + failure.0@ + " —— "@ + failure.1@
}

pub open spec fn failure_lines(failures: Seq<(String, String)>) -> Seq<Seq<char>> {
    Seq::new(failures.len(), |i: int| failure_line(failures[i]))
}

pub open spec fn failed_text(n: nat) -> Seq<char> {
    decimal_text(n) + " 个文件导入失败"@
}

pub open spec fn left_out_text(n: nat) -> Seq<char> {
    "注意：有 "@ + decimal_text(n) + " 条记录因日期或值非法被跳过，详见上方明细"@
}

/// The command fails where a file failed; entries that were left out are only
/// pointed at.
pub fn import_verdict(report: &ImportReport) -> (r: Verdict)
    ensures
        report.failures@.len() > 0 ==> {
            &&& texts(r.complaints@) == failure_lines(report.failures@)
            &&& r.failure matches Some(text) && text@ == failed_text(report.failures@.len())
        },
        report.failures@.len() == 0 ==> {
            &&& r.failure is None
            &&& texts(r.complaints@) == if report.invalid > 0 {
                seq![left_out_text(report.invalid as nat)]
            } else {
                Seq::empty()
            }
        },
{
    let mut complaints: Vec<String> = Vec::new();
    assert(texts(complaints@) =~= Seq::<Seq<char>>::empty());
    if report.failures.len() > 0 {
        let mut i: usize = 0;
        assert(texts(complaints@) =~= failure_lines(report.failures@).take(0));
        while i < report.failures.len()
            invariant
                i <= report.failures@.len(),
                texts(complaints@) == failure_lines(report.failures@).take(i as int),
            decreases report.failures@.len() - i,
        {
            let mut line = String::from_str("导入失败：");
            line.append(report.failures[i].0.as_str());
            line.append(" —— ");
            line.append(report.failures[i].1.as_str());
            assert(line@ == failure_line(report.failures@[i as int]));
            add_line(&mut complaints, line);
            i = i + 1;
            assert(texts(complaints@) =~= failure_lines(report.failures@).take(i as int));
        }
        assert(failure_lines(report.failures@).take(i as int) =~= failure_lines(
            report.failures@,
        ));
        let mut failure = number(report.failures.len());
        failure.append(" 个文件导入失败");
        return Verdict { complaints, failure: Some(failure) };
    }
    if report.invalid > 0 {
        let mut line = String::from_str("注意：有 ");
        line.append(number(report.invalid).as_str());
        line.append(" 条记录因日期或值非法被跳过，详见上方明细");
        add_line(&mut complaints, line);
        assert(texts(complaints@) =~= seq![left_out_text(report.invalid as nat)]);
    }
    Verdict { complaints, failure: None }
}

// ---------------------------------------------------------------- the store

pub open spec fn store_line(db: Seq<char>) -> Seq<char> {
    "数据库 "@ + db
}

pub open spec fn counts_line(stats: StoreStats) -> Seq<char> {
    "  记录 "@ + decimal_text(stats.total as nat) + " 条 / 日期 "@ + decimal_text(
        stats.distinct_dates as nat,
    ) + " 个"@
}

pub open spec fn years_note(stats: StoreStats) -> Seq<char> {
    " / 年份 "@ + decimal_text(stats.years@.len()) + " 个（"@ + years_summary(stats.years@) + "）"@
}

pub open spec fn years_line(stats: StoreStats) -> Seq<char> {
    "  年份 "@ + decimal_text(stats.years@.len()) + " 个："@ + years_summary(stats.years@)
}

pub open spec fn categories_line(stats: StoreStats) -> Seq<char> {
    "  分类：放假 "@ + decimal_text(stats.holiday as nat) + "，调休上班 "@ + decimal_text(
        stats.workday as nat,
    ) + "，调休补假 "@ + decimal_text(stats.in_lieu as nat)
}

fn counts_text(stats: &StoreStats) -> (r: String)
    ensures
        r@ == counts_line(*stats),
{
    let mut out = String::from_str("  记录 ");
    out.append(number(stats.total).as_str());
    out.append(" 条 / 日期 ");
    out.append(number(stats.distinct_dates).as_str());
    out.append(" 个");
    out
}

fn categories_text(stats: &StoreStats) -> (r: String)
    ensures
        r@ == categories_line(*stats),
{
    let mut out = String::from_str("  分类：放假 ");
    out.append(number(stats.holiday).as_str());
    out.append("，调休上班 ");
    out.append(number(stats.workday).as_str());
    out.append("，调休补假 ");
    out.append(number(stats.in_lieu).as_str());
    out
}

fn store_text(db: &str) -> (r: String)
    ensures
        r@ == store_line(db@),
{
    let mut out = String::from_str("数据库 ");
    out.append(db);
    out
}

/// The overview of the store after an import.
pub fn imported_lines(db: &str, stats: &StoreStats) -> (r: Vec<String>)
    ensures
        texts(r@) == seq![
            store_line(db@),
            counts_line(*stats) + years_note(*stats),
            categories_line(*stats),
        ],
{
    let mut lines: Vec<String> = Vec::new();
    add_line(&mut lines, store_text(db));
    let mut counts = counts_text(stats);
    counts.append(" / 年份 ");
    counts.append(number(stats.years.len()).as_str());
    counts.append(" 个（");
    counts.append(summarize_years(&stats.years).as_str());
    counts.append("）");
    assert(counts@ =~= counts_line(*stats) + years_note(*stats));
    add_line(&mut lines, counts);
    add_line(&mut lines, categories_text(stats));
    assert(texts(lines@) =~= seq![
        store_line(db@),
        counts_line(*stats) + years_note(*stats),
        categories_line(*stats),
    ]);
    lines
}

pub open spec fn log_header() -> Seq<char> {
    padded("文件"@, 14) + padded("导入时间"@, 22) + padded_left("条数"@, 8)
}

/// The row of a file that was taken in.
pub open spec fn log_row(entry: (String, String, i64)) -> Seq<char> {
    padded(entry.0@, 14) + padded(entry.1@, 22) + padded_left(integer_text(entry.2 as int), 8)
}

pub open spec fn log_rows(log: Seq<(String, String, i64)>) -> Seq<Seq<char>> {
    Seq::new(log.len(), |i: int| log_row(log[i]))
}

/// The files that were taken in.
pub open spec fn log_table(log: Seq<(String, String, i64)>) -> Seq<Seq<char>> {
    if log.len() == 0 {
        seq!["  （尚未导入，请先执行 `holidays import`）"@]
    } else {
        seq![log_header(), dashes(44)] + log_rows(log)
    }
}

/// The overview of the store and the files that were taken in, without the time.
pub open spec fn store_overview(
    db: Seq<char>,
    stats: StoreStats,
    log: Seq<(String, String, i64)>,
) -> Seq<Seq<char>> {
    seq![
        store_line(db),
        counts_line(stats),
        years_line(stats),
        categories_line(stats),
        ""@,
        "导入记录："@,
    ] + log_table(log)
}

/// The overview of the store and the files that were taken in.
pub fn info_lines(db: &str, stats: &StoreStats, log: &Vec<(String, String, i64)>) -> (r: Vec<
    String,
>)
    ensures
        texts(r@) == store_overview(db@, *stats, log@),
{
    let mut lines: Vec<String> = Vec::new();
    add_line(&mut lines, store_text(db));
    add_line(&mut lines, counts_text(stats));
    let mut years = String::from_str("  年份 ");
    years.append(number(stats.years.len()).as_str());
    years.append(" 个：");
    years.append(summarize_years(&stats.years).as_str());
    add_line(&mut lines, years);
    add_line(&mut lines, categories_text(stats));
    add_line(&mut lines, String::from_str(""));
    add_line(&mut lines, String::from_str("导入记录："));
    let ghost start = texts(lines@);
    assert(start =~= seq![
        store_line(db@),
        counts_line(*stats),
        years_line(*stats),
        categories_line(*stats),
        ""@,
        "导入记录："@,
    ]);
    if log.len() == 0 {
        add_line(&mut lines, String::from_str("  （尚未导入，请先执行 `holidays import`）"));
        assert(texts(lines@) =~= start + log_table(log@));
        return lines;
    }
    let mut header = pad("文件", 14);
    header.append(pad("导入时间", 22).as_str());
    header.append(padr("条数", 8).as_str());
    add_line(&mut lines, header);
    add_line(&mut lines, rule(44));
    let ghost top = start + seq![log_header(), dashes(44)];
    let mut i: usize = 0;
    assert(texts(lines@) =~= top + log_rows(log@).take(0));
    while i < log.len()
        invariant
            i <= log@.len(),
            texts(lines@) == top + log_rows(log@).take(i as int),
        decreases log@.len() - i,
    {
        let mut line = pad(log[i].0.as_str(), 14);
        line.append(pad(log[i].1.as_str(), 22).as_str());
        line.append(padr(integer(log[i].2).as_str(), 8).as_str());
        assert(line@ == log_row(log@[i as int]));
        add_line(&mut lines, line);
        i = i + 1;
        assert(texts(lines@) =~= top + log_rows(log@).take(i as int));
    }
    assert(texts(lines@) =~= start + log_table(log@));
    lines
}

// ---------------------------------------------------------------- a year

pub open spec fn no_year_line(year: int) -> Seq<char> {
    integer_text(year) + " 年没有数据，可用年份见 `holidays info`"@
}

pub open spec fn year_header() -> Seq<char> {
    padded("日期"@, 12) + padded("类别"@, 12) + padded("英文名"@, 26) + padded("中文名"@, 12)
        + padded_left("法定"@, 6)
}

/// The row of a record; names that are too long are cut.
pub open spec fn record_row(record: RecordView) -> Seq<char> {
    padded(record.date, 12) + padded(category_label(record.category), 12) + padded(
        truncated(record.name_en, 26),
        26,
    ) + padded(truncated(record.name_zh, 12), 12) + padded_left(
        integer_text(record.statutory_days as int),
        6,
    )
}

pub open spec fn record_rows(records: Seq<RecordView>) -> Seq<Seq<char>> {
    Seq::new(records.len(), |i: int| record_row(records[i]))
}

/// The table of the records of a year.
pub open spec fn year_table(year: int, records: Seq<RecordView>) -> Seq<Seq<char>> {
    if records.len() == 0 {
        seq![no_year_line(year)]
    } else {
        (seq![year_header(), dashes(68)] + record_rows(records)).push(dashes(68)).push(
            "共 "@ + decimal_text(records.len()) + " 条记录"@,
        )
    }
}

fn record_row_line(record: &Record) -> (r: String)
    ensures
        r@ == record_row(record@),
{
    let mut out = pad(record.date.as_str(), 12);
    out.append(pad(record.category.label_cn(), 12).as_str());
    out.append(pad(truncate(record.name_en.as_str(), 26).as_str(), 26).as_str());
    out.append(pad(truncate(record.name_zh.as_str(), 12).as_str(), 12).as_str());
    out.append(padr(integer(record.statutory_days).as_str(), 6).as_str());
    out
}

/// The table of the records of a year.
pub fn year_lines(year: i32, records: &Vec<Record>) -> (r: Vec<String>)
    ensures
        texts(r@) == year_table(year as int, record_views(records@)),
{
    let ghost all = record_views(records@);
    let mut lines: Vec<String> = Vec::new();
    if records.len() == 0 {
        let mut line = integer(year as i64);
        line.append(" 年没有数据，可用年份见 `holidays info`");
        add_line(&mut lines, line);
        assert(texts(lines@) =~= seq![no_year_line(year as int)]);
        return lines;
    }
    let mut header = pad("日期", 12);
    header.append(pad("类别", 12).as_str());
    header.append(pad("英文名", 26).as_str());
    header.append(pad("中文名", 12).as_str());
    header.append(padr("法定", 6).as_str());
    add_line(&mut lines, header);
    add_line(&mut lines, rule(68));
    let ghost top = seq![year_header(), dashes(68)];
    let mut i: usize = 0;
    assert(texts(lines@) =~= top + record_rows(all).take(0));
    while i < records.len()
        invariant
            all == record_views(records@),
            i <= records@.len(),
            texts(lines@) == top + record_rows(all).take(i as int),
        decreases records@.len() - i,
    {
        let line = record_row_line(&records[i]);
        assert(line@ == record_row(all[i as int]));
        add_line(&mut lines, line);
        i = i + 1;
        assert(texts(lines@) =~= top + record_rows(all).take(i as int));
    }
    assert(record_rows(all).take(i as int) =~= record_rows(all));
    add_line(&mut lines, rule(68));
    let mut total = String::from_str("共 ");
    total.append(number(records.len()).as_str());
    total.append(" 条记录");
    add_line(&mut lines, total);
    lines
}

// ---------------------------------------------------------------- serving

/// What is shown when the service has started.
pub open spec fn started(local: Seq<char>, stats: StoreStats) -> Seq<Seq<char>> {
    seq![
        "holidays API 已启动：http://"@ + local,
        "  数据库记录 "@ + decimal_text(stats.total as nat) + " 条，覆盖 "@ + decimal_text(
            stats.years@.len(),
        ) + " 个年份"@,
        "  示例：curl \"http://"@ + local + "/api/v1/holiday?date=2026-10-01\""@,
        "  按 Ctrl+C 退出"@,
    ]
}

/// What is shown when the service has started; `local` is where it listens.
pub fn started_lines(local: &str, stats: &StoreStats) -> (r: Vec<String>)
    ensures
        texts(r@) == started(local@, *stats),
{
    let mut lines: Vec<String> = Vec::new();
    let mut address = String::from_str("holidays API 已启动：http://");
    address.append(local);
    add_line(&mut lines, address);
    let mut counts = String::from_str("  数据库记录 ");
    counts.append(number(stats.total).as_str());
    counts.append(" 条，覆盖 ");
    counts.append(number(stats.years.len()).as_str());
    counts.append(" 个年份");
    add_line(&mut lines, counts);
    let mut example = String::from_str("  示例：curl \"http://");
    example.append(local);
    example.append("/api/v1/holiday?date=2026-10-01\"");
    add_line(&mut lines, example);
    add_line(&mut lines, String::from_str("  按 Ctrl+C 退出"));
    assert(texts(lines@) =~= started(local@, *stats));
    lines
}

} // verus!
