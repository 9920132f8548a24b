//! What the lines that are printed show, in terms of what they are about.

use vstd::prelude::*;

use crate::db::StoreStats;
use crate::importer::{law_years_have_one_span, years_text, FileReport, ImportReport};
use crate::model::{record_views, Category, Record};
use crate::report::{
    dashes, file_lines, file_row, files_lines, import_header, import_lines, import_table,
    import_verdict, imported_lines, info_lines, log_header, log_row, log_table, record_row,
    record_rows, started_lines, store_overview, year_lines, year_table, Verdict,
};
use crate::sqlite::texts;
use crate::terminal::{
    char_columns, columns_of, cut, fitting, format_range, law_cut_fits, pad, pad_from, padded,
    padded_left, padr, padr_from, range_text, run_end, spaces, summarize_years, summary_from,
    text_columns, truncate, truncated, widths_of, years_summary,
};
use crate::text::{decimal_text, integer_text};

verus! {

// ---------------------------------------------------------------- cells

/// The columns that are missing from a text to a width.
pub open spec fn missing(text: Seq<char>, width: int) -> int {
    if text_columns(text) < width {
        width - text_columns(text)
    } else {
        0
    }
}

/// Whether a cell shows a text, with spaces behind it up to the width.
pub open spec fn is_left_cell(cell: Seq<char>, text: Seq<char>, width: int) -> bool {
    &&& cell.len() == text.len() + missing(text, width)
    &&& forall|i: int| 0 <= i < text.len() ==> cell[i] == #[trigger] text[i]
    &&& forall|i: int| text.len() <= i < cell.len() ==> #[trigger] cell[i] == ' '
}

/// Whether a cell shows a text, with spaces before it up to the width.
pub open spec fn is_right_cell(cell: Seq<char>, text: Seq<char>, width: int) -> bool {
    &&& cell.len() == missing(text, width) + text.len()
    &&& forall|i: int| 0 <= i < missing(text, width) ==> #[trigger] cell[i] == ' '
    &&& forall|i: int|
        0 <= i < text.len() ==> cell[missing(text, width) + i] == #[trigger] text[i]
}

#[verifier::spinoff_prover]
proof fn lemma_cells(text: Seq<char>, width: int)
    ensures
        is_left_cell(padded(text, width), text, width),
        is_right_cell(padded_left(text, width), text, width),
{
    let n = width - text_columns(text);
    assert(spaces(n).len() == missing(text, width));
}

/// A text is filled up to the width with spaces behind it.
#[verifier::spinoff_prover]
pub proof fn law_cells_are_filled_on_the_right(text: &str, width: usize, r: String)
    requires
        call_ensures(pad, (text, width), r),
    ensures
        is_left_cell(r@, text@, width as int),
{
    lemma_cells(text@, width as int);
}

/// A text is filled up to the width with spaces before it.
#[verifier::spinoff_prover]
pub proof fn law_cells_are_filled_on_the_left(text: &str, width: usize, r: String)
    requires
        call_ensures(padr, (text, width), r),
    ensures
        is_right_cell(r@, text@, width as int),
{
    lemma_cells(text@, width as int);
}

/// A text of so many columns is filled up to the width on one side.
#[verifier::spinoff_prover]
pub proof fn law_texts_are_filled_up(
    text: &str,
    columns: usize,
    width: usize,
    left: String,
    right: String,
)
    requires
        call_ensures(pad_from, (text, columns, width), left),
        call_ensures(padr_from, (text, columns, width), right),
    ensures
        columns >= width ==> left@ == text@ && right@ == text@,
        columns < width ==> {
            let n = width - columns;
            &&& left@.len() == text@.len() + n
            &&& right@.len() == text@.len() + n
            &&& left@.take(text@.len() as int) == text@
            &&& right@.skip(n) == text@
            &&& forall|i: int| text@.len() <= i < left@.len() ==> #[trigger] left@[i] == ' '
            &&& forall|i: int| 0 <= i < n ==> #[trigger] right@[i] == ' '
        },
{
    if columns >= width {
        assert(left@ =~= text@);
        assert(right@ =~= text@);
    } else {
        assert(left@.take(text@.len() as int) =~= text@);
        assert(right@.skip(width - columns) =~= text@);
    }
}

// ---------------------------------------------------------------- cutting

/// The columns that the characters of a text take, one by one.
pub open spec fn columns_taken(text: Seq<char>) -> int {
    text.fold_left(
        0int,
        |sum: int, c: char|
            sum + match char_columns(c) {
                Some(w) => w as int,
                None => 0,
            },
    )
}

/// Whether as many characters as fit in the columns are `n`.
pub open spec fn fits_up_to(text: Seq<char>, columns: int, n: int) -> bool {
    &&& 0 <= n <= text.len()
    &&& columns_taken(text.take(n)) <= columns
    &&& n < text.len() ==> columns_taken(text.take(n + 1)) > columns
}

/// Whether a text is cut behind the last character that fits, with a sign that there
/// are more.
pub open spec fn is_cut_to(text: Seq<char>, columns: int, shown: Seq<char>) -> bool {
    exists|n: int| #[trigger] fits_up_to(text, columns, n) && shown == text.take(n) + seq!['…']
}

/// Whether a text is shown in a width: as it is where it fits, and else as many of
/// its characters as leave room for the sign that there are more.
pub open spec fn is_shown_in(text: Seq<char>, width: int, shown: Seq<char>) -> bool {
    &&& text_columns(text) <= width ==> shown == text
    &&& text_columns(text) > width && width > 0 ==> is_cut_to(text, width - 1, shown)
    &&& text_columns(text) > width && width == 0 ==> is_cut_to(text, 0, shown)
}

#[verifier::spinoff_prover]
proof fn lemma_columns_taken(text: Seq<char>, n: int)
    requires
        0 <= n <= text.len(),
    ensures
        columns_taken(text.take(n)) == columns_of(widths_of(text), n),
    decreases n,
{
    let part = text.take(n);
    if n > 0 {
        lemma_columns_taken(text, n - 1);
        assert(part.drop_last() =~= text.take(n - 1));
        assert(part.last() == text[n - 1]);
    }
}

#[verifier::spinoff_prover]
proof fn lemma_shown(text: Seq<char>, width: int)
    requires
        width >= 0,
    ensures
        is_shown_in(text, width, truncated(text, width)),
{
    if text_columns(text) > width {
        let room = if width > 0 {
            width - 1
        } else {
            0
        };
        let widths = widths_of(text);
        let n = fitting(widths, 0, 0, room);
        law_cut_fits(widths, room);
        lemma_columns_taken(text, n);
        if n < text.len() {
            lemma_columns_taken(text, n + 1);
        }
        assert(fits_up_to(text, room, n));
        let shown = truncated(text, width);
        assert(shown == text.take(n).push('…'));
        assert(shown =~= text.take(n) + seq!['…']);
        assert(is_cut_to(text, room, shown));
    }
}

/// A text that does not fit is cut behind the last character that does.
#[verifier::spinoff_prover]
pub proof fn law_texts_are_cut_right(text: &str, width: usize, r: String)
    requires
        call_ensures(truncate, (text, width), r),
    ensures
        is_shown_in(text@, width as int, r@),
{
    lemma_shown(text@, width as int);
}

/// Whether as many characters as fit in the columns are `n`, where each takes the
/// columns that are given for it.
pub open spec fn given_fit_up_to(widths: Seq<usize>, columns: int, n: int) -> bool {
    &&& 0 <= n <= widths.len()
    &&& widths.take(n).fold_left(0int, |sum: int, w: usize| sum + w) <= columns
    &&& n < widths.len() ==> widths.take(n + 1).fold_left(0int, |sum: int, w: usize| sum + w)
        > columns
}

#[verifier::spinoff_prover]
proof fn lemma_columns_given(widths: Seq<usize>, n: int)
    requires
        0 <= n <= widths.len(),
    ensures
        widths.take(n).fold_left(0int, |sum: int, w: usize| sum + w) == columns_of(widths, n),
    decreases n,
{
    let part = widths.take(n);
    if n > 0 {
        lemma_columns_given(widths, n - 1);
        assert(part.drop_last() =~= widths.take(n - 1));
        assert(part.last() == widths[n - 1]);
    }
}

/// A text is cut behind the last character that fits by the columns that are given.
#[verifier::spinoff_prover]
pub proof fn law_texts_are_cut_by_their_columns(
    text: &str,
    widths: &Vec<usize>,
    limit: usize,
    r: String,
)
    requires
        widths@.len() == text@.len(),
        call_ensures(cut, (text, widths, limit), r),
    ensures
        exists|n: int| #[trigger]
            given_fit_up_to(widths@, limit as int, n) && r@ == text@.take(n) + seq!['…'],
{
    let n = fitting(widths@, 0, 0, limit as int);
    law_cut_fits(widths@, limit as int);
    lemma_columns_given(widths@, n);
    if n < widths@.len() {
        lemma_columns_given(widths@, n + 1);
    }
    assert(r@ =~= text@.take(n) + seq!['…']);
    assert(given_fit_up_to(widths@, limit as int, n));
}

// ---------------------------------------------------------------- a year

/// Whether a line is made of dashes.
pub open spec fn is_rule(line: Seq<char>, n: int) -> bool {
    line.len() == n && forall|i: int| 0 <= i < line.len() ==> #[trigger] line[i] == '-'
}

/// How a category is shown.
pub open spec fn shown_category(category: Category) -> Seq<char> {
    match category {
        Category::Holiday => "放假"@,
        Category::Workday => "调休上班"@,
        Category::InLieu => "调休补假"@,
    }
}

/// Whether a line shows a record: its date, its category, its names and its days,
/// each in the cell of its column.
pub open spec fn shows_record(line: Seq<char>, record: Record, cells: Seq<Seq<char>>) -> bool {
    &&& cells.len() == 5
    &&& line == cells[0] + cells[1] + cells[2] + cells[3] + cells[4]
    &&& is_left_cell(cells[0], record.date@, 12)
    &&& is_left_cell(cells[1], shown_category(record.category), 12)
    &&& exists|en: Seq<char>| #[trigger]
        is_shown_in(record.name_en@, 26, en) && is_left_cell(cells[2], en, 26)
    &&& exists|zh: Seq<char>| #[trigger]
        is_shown_in(record.name_zh@, 12, zh) && is_left_cell(cells[3], zh, 12)
    &&& is_right_cell(cells[4], integer_text(record.statutory_days as int), 6)
}

/// Whether a line shows a record.
pub open spec fn is_line_of(line: Seq<char>, record: Record) -> bool {
    exists|cells: Seq<Seq<char>>| #[trigger] shows_record(line, record, cells)
}

/// Whether a line shows the titles of the columns.
pub open spec fn shows_year_titles(line: Seq<char>, cells: Seq<Seq<char>>) -> bool {
    &&& cells.len() == 5
    &&& line == cells[0] + cells[1] + cells[2] + cells[3] + cells[4]
    &&& is_left_cell(cells[0], "日期"@, 12)
    &&& is_left_cell(cells[1], "类别"@, 12)
    &&& is_left_cell(cells[2], "英文名"@, 26)
    &&& is_left_cell(cells[3], "中文名"@, 12)
    &&& is_right_cell(cells[4], "法定"@, 6)
}

#[verifier::spinoff_prover]
proof fn lemma_record_row(record: Record)
    ensures
        is_line_of(record_row(record@), record),
{
    let en = truncated(record.name_en@, 26);
    let zh = truncated(record.name_zh@, 12);
    let label = shown_category(record.category);
    let days = integer_text(record.statutory_days as int);
    let cells = seq![
        padded(record.date@, 12),
        padded(label, 12),
        padded(en, 26),
        padded(zh, 12),
        padded_left(days, 6),
    ];
    lemma_cells(record.date@, 12);
    lemma_cells(label, 12);
    lemma_cells(en, 26);
    lemma_cells(zh, 12);
    lemma_cells(days, 6);
    lemma_shown(record.name_en@, 26);
    lemma_shown(record.name_zh@, 12);
    assert(shows_record(record_row(record@), record, cells));
}

/// The table of a year has a line for each record, in order, between two rules, and
/// says how many there are.
#[verifier::spinoff_prover]
pub proof fn law_each_record_has_its_line(year: i32, records: &Vec<Record>, r: Vec<String>)
    requires
        call_ensures(year_lines, (year, records), r),
    ensures
        records@.len() > 0 ==> {
            let n = records@.len() as int;
            &&& r@.len() == n + 4
            &&& exists|cells: Seq<Seq<char>>| #[trigger] shows_year_titles(r@[0]@, cells)
            &&& is_rule(r@[1]@, 68)
            &&& forall|i: int|
                0 <= i < n ==> is_line_of(r@[i + 2]@, #[trigger] records@[i])
            &&& is_rule(r@[n + 2]@, 68)
            &&& r@[n + 3]@ == "共 "@ + decimal_text(n as nat) + " 条记录"@
        },
        records@.len() == 0 ==> r@.len() == 1 && r@[0]@ == integer_text(year as int)
            + " 年没有数据，可用年份见 `holidays info`"@,
{
    let lines = texts(r@);
    let views = record_views(records@);
    let n = records@.len() as int;
    assert(lines == year_table(year as int, views));
    assert(lines.len() == r@.len());
    assert(forall|k: int| 0 <= k < r@.len() ==> #[trigger] lines[k] == r@[k]@);
    if n > 0 {
        let cells = seq![
            padded("日期"@, 12),
            padded("类别"@, 12),
            padded("英文名"@, 26),
            padded("中文名"@, 12),
            padded_left("法定"@, 6),
        ];
        lemma_cells("日期"@, 12);
        lemma_cells("类别"@, 12);
        lemma_cells("英文名"@, 26);
        lemma_cells("中文名"@, 12);
        lemma_cells("法定"@, 6);
        assert(lines[0] == r@[0]@ && lines[1] == r@[1]@);
        assert(lines[1] == dashes(68));
        assert(is_rule(dashes(68), 68));
        assert(shows_year_titles(r@[0]@, cells));
        assert forall|i: int| 0 <= i < n implies is_line_of(
            r@[i + 2]@,
            #[trigger] records@[i],
        ) by {
            assert(lines[i + 2] == r@[i + 2]@);
            assert(lines[i + 2] == record_rows(views)[i]);
            lemma_record_row(records@[i]);
        }
        assert(lines[n + 2] == r@[n + 2]@ && lines[n + 3] == r@[n + 3]@);
        assert(lines[n + 2] == dashes(68));
        assert(lines[n + 3] == "共 "@ + decimal_text(n as nat) + " 条记录"@);
    } else {
        assert(lines[0] == r@[0]@);
    }
}

// ---------------------------------------------------------------- importing

/// Whether a line shows a file: its name, how many of its records are new, how many
/// replaced one, how many entries were left out, and its years.
pub open spec fn shows_file(line: Seq<char>, file: FileReport, cells: Seq<Seq<char>>) -> bool {
    &&& cells.len() == 5
    &&& line == cells[0] + cells[1] + cells[2] + cells[3] + cells[4]
    &&& is_left_cell(cells[0], file.file@, 12)
    &&& is_right_cell(cells[1], decimal_text(file.outcome.inserted as nat), 8)
    &&& is_right_cell(cells[2], decimal_text(file.outcome.updated as nat), 8)
    &&& is_right_cell(cells[3], decimal_text(file.invalid@.len()), 8)
    &&& is_right_cell(cells[4], years_text(file.years@), 14)
}

pub open spec fn is_line_of_file(line: Seq<char>, file: FileReport) -> bool {
    exists|cells: Seq<Seq<char>>| #[trigger] shows_file(line, file, cells)
}

/// The number of lines that a file has: one, one more for each entry that was left
/// out, up to five, and one where there were more.
pub open spec fn line_count(file: FileReport) -> int {
    if file.invalid@.len() > 5 {
        7
    } else {
        1 + file.invalid@.len() as int
    }
}

/// Whether the lines from `at` on are those of a file.
pub open spec fn shows_file_at(lines: Seq<String>, at: int, file: FileReport) -> bool {
    let reasons = file.invalid@;
    &&& is_line_of_file(lines[at]@, file)
    &&& forall|j: int|
        0 <= j < reasons.len() && j < 5 ==> lines[at + 1 + j]@ == "    ↳ 跳过 "@ + (
        #[trigger] reasons[j])@
    &&& reasons.len() > 5 ==> lines[at + 6]@ == "    ↳ 另有 "@ + decimal_text(
        (reasons.len() - 5) as nat,
    ) + " 条跳过记录未展示"@
}

/// Whether the lines of the files start at these places: one file behind the other,
/// from the third line on, up to the last but two.
pub open spec fn shows_files(lines: Seq<String>, files: Seq<FileReport>, at: Seq<int>) -> bool {
    &&& at.len() == files.len() + 1
    &&& at[0] == 2
    &&& forall|k: int|
        0 <= k < files.len() ==> at[k + 1] == at[k] + line_count(#[trigger] files[k])
    &&& at[files.len() as int] + 2 == lines.len()
    &&& forall|k: int| 0 <= k < files.len() ==> shows_file_at(lines, at[k], #[trigger] files[k])
}

#[verifier::spinoff_prover]
proof fn lemma_file_row(file: FileReport)
    ensures
        is_line_of_file(file_row(file), file),
{
    let new = decimal_text(file.outcome.inserted as nat);
    let replaced = decimal_text(file.outcome.updated as nat);
    let left_out = decimal_text(file.invalid@.len());
    let years = years_text(file.years@);
    let cells = seq![
        padded(file.file@, 12),
        padded_left(new, 8),
        padded_left(replaced, 8),
        padded_left(left_out, 8),
        padded_left(years, 14),
    ];
    lemma_cells(file.file@, 12);
    lemma_cells(new, 8);
    lemma_cells(replaced, 8);
    lemma_cells(left_out, 8);
    lemma_cells(years, 14);
    assert(shows_file(file_row(file), file, cells));
}

/// The lines of one of the files stand where those of the files before it end.
#[verifier::spinoff_prover]
proof fn lemma_lines_of_file(files: Seq<FileReport>, k: int, j: int)
    requires
        0 <= k < files.len(),
        0 <= j < file_lines(files[k]).len(),
    ensures
        files_lines(files.take(k)).len() + j < files_lines(files).len(),
        files_lines(files)[files_lines(files.take(k)).len() + j] == file_lines(files[k])[j],
    decreases files.len(),
{
    let rest = files.drop_last();
    if k < rest.len() {
        lemma_lines_of_file(rest, k, j);
        assert(rest.take(k) =~= files.take(k));
    } else {
        assert(files.take(k) =~= rest);
    }
}

#[verifier::spinoff_prover]
proof fn lemma_lines_grow(files: Seq<FileReport>, k: int)
    requires
        0 <= k < files.len(),
    ensures
        files_lines(files.take(k + 1)).len() == files_lines(files.take(k)).len() + line_count(
            files[k],
        ),
{
    assert(files.take(k + 1).drop_last() =~= files.take(k));
    assert(files.take(k + 1).last() == files[k]);
    assert(file_lines(files[k]).len() == line_count(files[k]));
}

#[verifier::spinoff_prover]
proof fn lemma_file_shown(lines: Seq<String>, start: int, file: FileReport)
    requires
        forall|j: int|
            0 <= j < file_lines(file).len() ==> #[trigger] file_lines(file)[j] == lines[start
                + j]@,
    ensures
        shows_file_at(lines, start, file),
{
    let reasons = file.invalid@;
    let own = file_lines(file);
    assert(own.len() == line_count(file));
    assert(own[0] == lines[start + 0]@);
    assert(own[0] == file_row(file));
    lemma_file_row(file);
    assert forall|j: int| 0 <= j < reasons.len() && j < 5 implies lines[start + 1 + j]@
        == "    ↳ 跳过 "@ + (#[trigger] reasons[j])@ by {
        assert(own[j + 1] == lines[start + (j + 1)]@);
        assert(texts(reasons)[j] == reasons[j]@);
    }
    if reasons.len() > 5 {
        assert(own[6] == lines[start + 6]@);
    }
}

/// Whether a line shows the titles of the columns.
pub open spec fn shows_import_titles(line: Seq<char>, cells: Seq<Seq<char>>) -> bool {
    &&& cells.len() == 5
    &&& line == cells[0] + cells[1] + cells[2] + cells[3] + cells[4]
    &&& is_left_cell(cells[0], "文件"@, 12)
    &&& is_right_cell(cells[1], "新增"@, 8)
    &&& is_right_cell(cells[2], "覆盖"@, 8)
    &&& is_right_cell(cells[3], "跳过"@, 8)
    &&& is_right_cell(cells[4], "覆盖年份"@, 14)
}

#[verifier::spinoff_prover]
proof fn lemma_import_titles()
    ensures
        exists|cells: Seq<Seq<char>>| #[trigger] shows_import_titles(import_header(), cells),
{
    let cells = seq![
        padded("文件"@, 12),
        padded_left("新增"@, 8),
        padded_left("覆盖"@, 8),
        padded_left("跳过"@, 8),
        padded_left("覆盖年份"@, 14),
    ];
    lemma_cells("文件"@, 12);
    lemma_cells("新增"@, 8);
    lemma_cells("覆盖"@, 8);
    lemma_cells("跳过"@, 8);
    lemma_cells("覆盖年份"@, 14);
    assert(shows_import_titles(import_header(), cells));
}

/// The table of an import has the lines of each file, in order, between two rules,
/// and gives the totals.
#[verifier::spinoff_prover]
pub proof fn law_each_file_has_its_lines(report: &ImportReport, r: Vec<String>)
    requires
        call_ensures(import_lines, (report,), r),
    ensures
        exists|cells: Seq<Seq<char>>| #[trigger] shows_import_titles(r@[0]@, cells),
        is_rule(r@[1]@, 50),
        exists|at: Seq<int>| #[trigger] shows_files(r@, report.files@, at),
        is_rule(r@[r@.len() - 2]@, 50),
        r@[r@.len() - 1]@ == "共 "@ + decimal_text(report.files@.len()) + " 个文件，新增 "@
            + decimal_text(report.outcome.inserted as nat) + "，覆盖 "@ + decimal_text(
            report.outcome.updated as nat,
        ) + "，跳过 "@ + decimal_text(report.invalid as nat),
{
    let files = report.files@;
    let lines = texts(r@);
    let middle = files_lines(files);
    assert(lines == import_table(*report));
    assert(lines.len() == r@.len());
    assert(lines.len() == middle.len() + 4);
    assert(lines[0] == r@[0]@ && lines[1] == r@[1]@);
    lemma_import_titles();
    assert(is_rule(dashes(50), 50));
    let n = lines.len() as int;
    assert(lines[n - 2] == r@[n - 2]@ && lines[n - 1] == r@[n - 1]@);
    assert(lines[n - 2] == dashes(50));
    let at = Seq::new(files.len() + 1, |k: int| 2int + files_lines(files.take(k)).len());
    assert(files.take(0) =~= Seq::<FileReport>::empty());
    assert(files.take(files.len() as int) =~= files);
    assert forall|k: int| 0 <= k < files.len() implies at[k + 1] == at[k] + line_count(
        #[trigger] files[k],
    ) by {
        lemma_lines_grow(files, k);
    }
    assert forall|k: int| 0 <= k < files.len() implies shows_file_at(
        r@,
        at[k],
        #[trigger] files[k],
    ) by {
        let own = file_lines(files[k]);
        let start = at[k];
        assert forall|j: int| 0 <= j < own.len() implies #[trigger] own[j] == r@[start + j]@ by {
            lemma_lines_of_file(files, k, j);
            assert(lines[start + j] == middle[start - 2 + j]);
            assert(lines[start + j] == r@[start + j]@);
        }
        lemma_file_shown(r@, start, files[k]);
    }
    assert(shows_files(r@, files, at));
}

/// The command fails where a file failed, and each of these is named with the
/// reason; where none failed, the entries that were left out are pointed at.
#[verifier::spinoff_prover]
pub proof fn law_failures_are_told(report: &ImportReport, r: Verdict)
    requires
        call_ensures(import_verdict, (report,), r),
    ensures
        r.failure is Some <==> report.failures@.len() > 0,
        r.failure matches Some(text) ==> text@ == decimal_text(report.failures@.len())
            + " 个文件导入失败"@ && r.complaints@.len() == report.failures@.len(),
        forall|i: int|
            0 <= i < report.failures@.len() ==> r.complaints@[i]@ == "导入失败："@ + (
            #[trigger] report.failures@[i]).0@ + " —— "@ + report.failures@[i].1@,
        r.failure is None && report.invalid > 0 ==> r.complaints@.len() == 1
            && r.complaints@[0]@ == "注意：有 "@ + decimal_text(report.invalid as nat)
            + " 条记录因日期或值非法被跳过，详见上方明细"@,
        r.failure is None && report.invalid == 0 ==> r.complaints@.len() == 0,
{
    let lines = texts(r.complaints@);
    assert(lines.len() == r.complaints@.len());
    assert forall|i: int| 0 <= i < report.failures@.len() implies r.complaints@[i]@
        == "导入失败："@ + (#[trigger] report.failures@[i]).0@ + " —— "@
        + report.failures@[i].1@ by {
        assert(lines[i] == r.complaints@[i]@);
    }
    if report.failures@.len() == 0 && report.invalid > 0 {
        assert(lines[0] == r.complaints@[0]@);
    }
}

// ---------------------------------------------------------------- the store

/// After an import the store is told by its numbers, each under its name.
#[verifier::spinoff_prover]
pub proof fn law_the_store_is_told_after_an_import(db: &str, stats: &StoreStats, r: Vec<String>)
    requires
        call_ensures(imported_lines, (db, stats), r),
    ensures
        r@.len() == 3,
        r@[0]@ == "数据库 "@ + db@,
        r@[1]@ == "  记录 "@ + decimal_text(stats.total as nat) + " 条 / 日期 "@ + decimal_text(
            stats.distinct_dates as nat,
        ) + " 个"@ + " / 年份 "@ + decimal_text(stats.years@.len()) + " 个（"@ + years_summary(
            stats.years@,
        ) + "）"@,
        r@[2]@ == "  分类：放假 "@ + decimal_text(stats.holiday as nat) + "，调休上班 "@
            + decimal_text(stats.workday as nat) + "，调休补假 "@ + decimal_text(
            stats.in_lieu as nat,
        ),
{
    let lines = texts(r@);
    assert(lines.len() == r@.len());
    assert(lines[0] == r@[0]@ && lines[1] == r@[1]@ && lines[2] == r@[2]@);
    assert(r@[1]@ =~= "  记录 "@ + decimal_text(stats.total as nat) + " 条 / 日期 "@
        + decimal_text(stats.distinct_dates as nat) + " 个"@ + " / 年份 "@ + decimal_text(
        stats.years@.len(),
    ) + " 个（"@ + years_summary(stats.years@) + "）"@);
}

/// Whether a line shows a file that was taken in: its name, the time, and how many
/// records it had.
pub open spec fn shows_import(
    line: Seq<char>,
    entry: (String, String, i64),
    cells: Seq<Seq<char>>,
) -> bool {
    &&& cells.len() == 3
    &&& line == cells[0] + cells[1] + cells[2]
    &&& is_left_cell(cells[0], entry.0@, 14)
    &&& is_left_cell(cells[1], entry.1@, 22)
    &&& is_right_cell(cells[2], integer_text(entry.2 as int), 8)
}

pub open spec fn is_line_of_import(line: Seq<char>, entry: (String, String, i64)) -> bool {
    exists|cells: Seq<Seq<char>>| #[trigger] shows_import(line, entry, cells)
}

#[verifier::spinoff_prover]
proof fn lemma_log_row(entry: (String, String, i64))
    ensures
        is_line_of_import(log_row(entry), entry),
{
    let count = integer_text(entry.2 as int);
    let cells = seq![padded(entry.0@, 14), padded(entry.1@, 22), padded_left(count, 8)];
    lemma_cells(entry.0@, 14);
    lemma_cells(entry.1@, 22);
    lemma_cells(count, 8);
    assert(shows_import(log_row(entry), entry, cells));
}

/// Whether a line shows the titles of the columns.
pub open spec fn shows_log_titles(line: Seq<char>, cells: Seq<Seq<char>>) -> bool {
    &&& cells.len() == 3
    &&& line == cells[0] + cells[1] + cells[2]
    &&& is_left_cell(cells[0], "文件"@, 14)
    &&& is_left_cell(cells[1], "导入时间"@, 22)
    &&& is_right_cell(cells[2], "条数"@, 8)
}

#[verifier::spinoff_prover]
proof fn lemma_log_titles()
    ensures
        exists|cells: Seq<Seq<char>>| #[trigger] shows_log_titles(log_header(), cells),
{
    let cells = seq![padded("文件"@, 14), padded("导入时间"@, 22), padded_left("条数"@, 8)];
    lemma_cells("文件"@, 14);
    lemma_cells("导入时间"@, 22);
    lemma_cells("条数"@, 8);
    assert(shows_log_titles(log_header(), cells));
}

/// The overview tells the store by its numbers, and has a line for each file that
/// was taken in, in order.
#[verifier::spinoff_prover]
pub proof fn law_the_store_is_told(
    db: &str,
    stats: &StoreStats,
    log: &Vec<(String, String, i64)>,
    r: Vec<String>,
)
    requires
        call_ensures(info_lines, (db, stats, log), r),
    ensures
        r@[0]@ == "数据库 "@ + db@,
        r@[1]@ == "  记录 "@ + decimal_text(stats.total as nat) + " 条 / 日期 "@ + decimal_text(
            stats.distinct_dates as nat,
        ) + " 个"@,
        r@[2]@ == "  年份 "@ + decimal_text(stats.years@.len()) + " 个："@ + years_summary(
            stats.years@,
        ),
        r@[3]@ == "  分类：放假 "@ + decimal_text(stats.holiday as nat) + "，调休上班 "@
            + decimal_text(stats.workday as nat) + "，调休补假 "@ + decimal_text(
            stats.in_lieu as nat,
        ),
        r@[4]@ == ""@,
        r@[5]@ == "导入记录："@,
        log@.len() == 0 ==> r@.len() == 7 && r@[6]@
            == "  （尚未导入，请先执行 `holidays import`）"@,
        log@.len() > 0 ==> {
            &&& r@.len() == log@.len() + 8
            &&& exists|cells: Seq<Seq<char>>| #[trigger] shows_log_titles(r@[6]@, cells)
            &&& is_rule(r@[7]@, 44)
            &&& forall|i: int|
                0 <= i < log@.len() ==> is_line_of_import(r@[i + 8]@, #[trigger] log@[i])
        },
{
    let lines = texts(r@);
    assert(lines == store_overview(db@, *stats, log@));
    assert(lines.len() == r@.len());
    assert(lines[0] == r@[0]@ && lines[1] == r@[1]@ && lines[2] == r@[2]@);
    assert(lines[3] == r@[3]@ && lines[4] == r@[4]@ && lines[5] == r@[5]@ && lines[6] == r@[6]@);
    let table = log_table(log@);
    assert(lines[6] == table[0]);
    if log@.len() > 0 {
        assert(lines[7] == r@[7]@);
        assert(lines[7] == table[1]);
        lemma_log_titles();
        assert(is_rule(dashes(44), 44));
        assert forall|i: int| 0 <= i < log@.len() implies is_line_of_import(
            r@[i + 8]@,
            #[trigger] log@[i],
        ) by {
            assert(lines[i + 8] == r@[i + 8]@);
            assert(lines[i + 8] == table[i + 2]);
            assert(table[i + 2] == log_row(log@[i]));
            lemma_log_row(log@[i]);
        }
    }
}

/// When the service has started, its address is shown, and what it serves.
#[verifier::spinoff_prover]
pub proof fn law_the_start_is_told(local: &str, stats: &StoreStats, r: Vec<String>)
    requires
        call_ensures(started_lines, (local, stats), r),
    ensures
        r@.len() == 4,
        r@[0]@ == "holidays API 已启动：http://"@ + local@,
        r@[1]@ == "  数据库记录 "@ + decimal_text(stats.total as nat) + " 条，覆盖 "@ + decimal_text(
            stats.years@.len(),
        ) + " 个年份"@,
        r@[2]@ == "  示例：curl \"http://"@ + local@ + "/api/v1/holiday?date=2026-10-01\""@,
        r@[3]@ == "  按 Ctrl+C 退出"@,
{
    let lines = texts(r@);
    assert(lines.len() == r@.len());
    assert(lines[0] == r@[0]@ && lines[1] == r@[1]@ && lines[2] == r@[2]@ && lines[3] == r@[3]@);
}

// ---------------------------------------------------------------- years

/// Two years are shown with a dash between them, one year alone.
#[verifier::spinoff_prover]
pub proof fn law_ranges_are_shown_right(start: i32, end: i32, r: String)
    requires
        call_ensures(format_range, (start, end), r),
    ensures
        start == end ==> r@ == integer_text(start as int),
        start != end ==> r@ == integer_text(start as int) + "-"@ + integer_text(end as int),
{
}

pub open spec fn follow_one_another(years: Seq<i32>) -> bool {
    forall|i: int| 0 < i < years.len() ==> #[trigger] years[i] == years[i - 1] + 1
}

#[verifier::spinoff_prover]
proof fn lemma_run(years: Seq<i32>, i: int)
    requires
        follow_one_another(years),
        0 <= i < years.len(),
    ensures
        run_end(years, i) == years.len() - 1,
    decreases years.len() - i,
{
    if i + 1 < years.len() {
        assert(years[i + 1] == years[(i + 1) - 1] + 1);
        lemma_run(years, i + 1);
    }
}

/// Years that follow one another are shown by the first and the last; no years, by
/// a dash.
#[verifier::spinoff_prover]
pub proof fn law_a_run_of_years_is_a_range(years: &Vec<i32>, r: String)
    requires
        follow_one_another(years@),
        call_ensures(summarize_years, (years,), r),
    ensures
        years@.len() == 0 ==> r@ == "-"@,
        years@.len() == 1 ==> r@ == integer_text(years@[0] as int),
        years@.len() > 1 ==> r@ == integer_text(years@[0] as int) + "-"@ + integer_text(
            years@[years@.len() - 1] as int,
        ),
{
    let all = years@;
    let n = all.len() as int;
    if n > 0 {
        lemma_run(all, 0);
    }
    if n > 1 {
        assert(all[1] == all[1 - 1] + 1);
        lemma_years_grow(all, n - 1);
    }
}

#[verifier::spinoff_prover]
proof fn lemma_years_grow(years: Seq<i32>, i: int)
    requires
        follow_one_another(years),
        0 <= i < years.len(),
    ensures
        years[i] == years[0] + i,
    decreases i,
{
    if i > 0 {
        lemma_years_grow(years, i - 1);
        assert(years[i] == years[i - 1] + 1);
    }
}

#[verifier::spinoff_prover]
proof fn lemma_run_before_gap(years: Seq<i32>, k: int, i: int)
    requires
        0 <= i < k < years.len(),
        years[k] != years[k - 1] + 1,
    ensures
        run_end(years, i) == run_end(years.take(k), i),
        i <= run_end(years, i) < k,
    decreases k - i,
{
    let head = years.take(k);
    if i + 1 < k && years[i + 1] == years[i] + 1 {
        lemma_run_before_gap(years, k, i + 1);
    }
}

#[verifier::spinoff_prover]
proof fn lemma_run_behind(years: Seq<i32>, k: int, j: int)
    requires
        0 <= k < years.len(),
        0 <= j < years.len() - k,
    ensures
        run_end(years, k + j) == k + run_end(years.skip(k), j),
        j <= run_end(years.skip(k), j) < years.len() - k,
    decreases years.len() - k - j,
{
    let tail = years.skip(k);
    if j + 1 < tail.len() && tail[j + 1] == tail[j] + 1 {
        lemma_run_behind(years, k, j + 1);
    }
}

#[verifier::spinoff_prover]
proof fn lemma_summary_behind(years: Seq<i32>, k: int, j: int)
    requires
        0 <= k < years.len(),
        0 <= j < years.len() - k,
    ensures
        summary_from(years, k + j) == summary_from(years.skip(k), j),
    decreases years.len() - k - j,
{
    let tail = years.skip(k);
    lemma_run_behind(years, k, j);
    let end = run_end(tail, j);
    assert(years[k + end] == tail[end] && years[k + j] == tail[j]);
    if end + 1 < tail.len() {
        lemma_summary_behind(years, k, end + 1);
    }
}

#[verifier::spinoff_prover]
proof fn lemma_summary_before_gap(years: Seq<i32>, k: int, i: int)
    requires
        0 <= i < k < years.len(),
        years[k] != years[k - 1] + 1,
    ensures
        summary_from(years, i) == summary_from(years.take(k), i) + ", "@ + summary_from(years, k),
    decreases k - i,
{
    let head = years.take(k);
    lemma_run_before_gap(years, k, i);
    let end = run_end(head, i);
    let range = range_text(years[i] as int, years[end] as int);
    assert(head[end] == years[end] && head[i] == years[i]);
    if end + 1 < k {
        lemma_summary_before_gap(years, k, end + 1);
        assert(range + ", "@ + (summary_from(head, end + 1) + ", "@ + summary_from(years, k))
            =~= range + ", "@ + summary_from(head, end + 1) + ", "@ + summary_from(years, k));
    }
}

/// Where a year does not follow the one before it, the years on both sides are shown
/// by themselves, with a comma between them.
#[verifier::spinoff_prover]
pub proof fn law_a_gap_parts_the_years(
    years: &Vec<i32>,
    head: &Vec<i32>,
    tail: &Vec<i32>,
    k: int,
    r: String,
    before: String,
    behind: String,
)
    requires
        0 < k < years@.len(),
        years@[k] != years@[k - 1] + 1,
        head@ == years@.take(k),
        tail@ == years@.skip(k),
        call_ensures(summarize_years, (years,), r),
        call_ensures(summarize_years, (head,), before),
        call_ensures(summarize_years, (tail,), behind),
    ensures
        r@ == before@ + ", "@ + behind@,
{
    lemma_summary_before_gap(years@, k, 0);
    lemma_summary_behind(years@, k, 0);
}

/// The years of a file are shown from the first to the last; no years, by a dash.
#[verifier::spinoff_prover]
pub proof fn law_the_years_of_a_file_are_shown_right(
    file: &FileReport,
    first: i32,
    last: i32,
    r: String,
)
    requires
        call_ensures(FileReport::year_range, (file,), r),
    ensures
        (forall|year: i32| !#[trigger] file.years@.contains(year)) ==> r@ == "-"@,
        file.years@.contains(first) && file.years@.contains(last) && (forall|year: i32| #[trigger]
            file.years@.contains(year) ==> first <= year <= last) ==> {
            &&& first == last ==> r@ == integer_text(first as int)
            &&& first != last ==> r@ == integer_text(first as int) + ".."@ + integer_text(
                last as int,
            )
        },
{
    law_years_have_one_span(file.years@, first, last);
}

} // verus!
