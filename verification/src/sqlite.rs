//! The SQLite database: its two tables, and the statements that are run on
//! them through `rusqlite`.
//!
//! What SQLite does is not proved here. Each statement stands in a function
//! whose contract says, over [`tables_of`], [`undo_of`] and [`sole`], what the
//! statement does. That memory runs out is left out of account, for SQLite as for
//! the rest of the library.

use vstd::prelude::*;

use crate::text::{text_at_most, text_less};

verus! {

#[verifier::external_type_specification]
#[verifier::external_body]
pub struct ExConnection(rusqlite::Connection);

#[verifier::external_type_specification]
#[verifier::external_body]
pub struct ExSqlError(rusqlite::Error);

// ---------------------------------------------------------------- the tables

/// What a row of `holiday_records` holds beside its key.
#[verifier::ext_equal]
pub struct RowValue {
    pub name_en: Seq<char>,
    pub name_zh: Seq<char>,
    pub statutory_days: i64,
    pub source_file: Option<Seq<char>>,
}

/// What a row of `import_log` holds beside its key.
#[verifier::ext_equal]
pub struct LogValue {
    pub imported_at: Seq<char>,
    pub record_count: i64,
}

/// The rows of `holiday_records`, by date and category.
pub type Rows = Map<(Seq<char>, Seq<char>), RowValue>;

/// The rows of `import_log`, by the name of the file.
pub type Log = Map<Seq<char>, LogValue>;

/// The two tables.
#[verifier::ext_equal]
pub struct Tables {
    pub rows: Rows,
    pub log: Log,
    /// Whether both tables are there, so that statements find them.
    pub made: bool,
}

pub open spec fn no_rows() -> Rows {
    Map::empty()
}

pub open spec fn no_log() -> Log {
    Map::empty()
}

/// What a connection finds in the two tables; a table that is not there is empty.
pub uninterp spec fn tables_of(conn: rusqlite::Connection) -> Tables;

/// What a rollback would put back, where a transaction is open.
pub uninterp spec fn undo_of(conn: rusqlite::Connection) -> Option<Tables>;

/// Whether a connection has its database to itself: as long as it is open
/// nobody else writes to the database, interrupts its statements or puts a hook or
/// an authorizer on it. What has the names of the two tables, where something has,
/// are those tables of [`SCHEMA`], with no trigger on them, and their text columns
/// hold text in UTF-8 and no blobs. Of a database in a file this rests on who else
/// opens the file.
pub uninterp spec fn sole(conn: rusqlite::Connection) -> bool;

/// What holds after a statement that failed: all is as it was, or the failure
/// ended the open transaction and undid it.
pub open spec fn kept_or_undone(
    before: rusqlite::Connection,
    after: rusqlite::Connection,
) -> bool {
    ||| tables_of(after) == tables_of(before) && undo_of(after) == undo_of(before)
    ||| undo_of(before) == Some(tables_of(after)) && undo_of(after) is None
}

/// The tables after the open transaction was undone, where there is one.
pub open spec fn undone(tables: Tables, undo: Option<Tables>) -> Tables {
    match undo {
        Some(before) => before,
        None => tables,
    }
}

/// The tables and the index. A date has one record of each category.
pub const SCHEMA: &'static str = "
CREATE TABLE IF NOT EXISTS holiday_records (
    date           TEXT    NOT NULL,
    category       TEXT    NOT NULL,
    name_en        TEXT    NOT NULL,
    name_zh        TEXT    NOT NULL,
    statutory_days INTEGER NOT NULL,
    source_file    TEXT,
    updated_at     TEXT    NOT NULL,
    PRIMARY KEY (date, category)
);

CREATE INDEX IF NOT EXISTS idx_holiday_records_year
    ON holiday_records (substr(date, 1, 4));

CREATE TABLE IF NOT EXISTS import_log (
    source_file  TEXT    PRIMARY KEY,
    imported_at  TEXT    NOT NULL,
    record_count INTEGER NOT NULL
);
";

// ---------------------------------------------------------------- opening

/// `rusqlite::Connection::open_in_memory`: a new database that nobody else
/// reaches, without tables.
#[verifier::external_body]
pub(crate) fn open_in_memory() -> (r: Result<rusqlite::Connection, rusqlite::Error>)
    ensures
        r matches Ok(conn) ==> {
            &&& sole(conn)
            &&& tables_of(conn).rows == no_rows()
            &&& tables_of(conn).log == no_log()
            &&& !tables_of(conn).made
            &&& undo_of(conn) is None
        },
{
    rusqlite::Connection::open_in_memory()
}

/// `rusqlite::Connection::query_row` on `PRAGMA journal_mode = WAL`, which
/// answers with a row: readers and the writer no longer wait for each other.
/// It leaves the tables as they are. Which mode is then in force is left unsaid:
/// that is for SQLite to choose, a database in memory keeps its own, and nothing
/// that is read or written depends on it.
#[verifier::external_body]
pub(crate) fn use_write_ahead_log(conn: &rusqlite::Connection) -> (r: Result<
    String,
    rusqlite::Error,
>) {
    conn.query_row("PRAGMA journal_mode = WAL", [], |row| row.get(0))
}

/// `rusqlite::Connection::pragma_update`, setting `synchronous` to `NORMAL`. It
/// leaves the tables as they are. When SQLite waits for the disk shows only after
/// the machine has lost power, so that it was set is left unsaid.
#[verifier::external_body]
pub(crate) fn relax_synchronous(conn: &rusqlite::Connection) -> (r: Result<(), rusqlite::Error>) {
    conn.pragma_update(None, "synchronous", "NORMAL")
}

/// `rusqlite::Connection::execute_batch` on [`SCHEMA`]: makes the tables that
/// are not there, empty, and leaves those that are there as they are.
#[verifier::external_body]
pub(crate) fn make_tables(conn: &mut rusqlite::Connection) -> (r: Result<(), rusqlite::Error>)
    ensures
        sole(*old(conn)) ==> (r is Ok ==> {
            &&& sole(*final(conn))
            &&& undo_of(*final(conn)) == undo_of(*old(conn))
            &&& tables_of(*final(conn)) == with_tables(tables_of(*old(conn)))
        }),
{
    conn.execute_batch(SCHEMA)
}

/// The tables, once both are there; one that was not there is empty.
pub open spec fn with_tables(tables: Tables) -> Tables {
    Tables { rows: tables.rows, log: tables.log, made: true }
}

// ---------------------------------------------------------------- transactions

/// `rusqlite::Connection::is_autocommit`: whether no transaction is open.
#[verifier::external_body]
pub(crate) fn is_autocommit(conn: &rusqlite::Connection) -> (r: bool)
    ensures
        sole(*conn) ==> r == (undo_of(*conn) is None),
{
    conn.is_autocommit()
}

/// `rusqlite::Connection::execute_batch` on `BEGIN DEFERRED`: opens a
/// transaction, unless one is open.
#[verifier::external_body]
pub(crate) fn begin(conn: &mut rusqlite::Connection) -> (r: Result<(), rusqlite::Error>)
    ensures
        sole(*old(conn)) ==> {
            &&& sole(*final(conn))
            &&& tables_of(*final(conn)) == tables_of(*old(conn))
            &&& r is Ok ==> undo_of(*old(conn)) is None && undo_of(*final(conn)) == Some(
                tables_of(*old(conn)),
            )
            &&& r is Err ==> undo_of(*final(conn)) == undo_of(*old(conn))
        },
{
    conn.execute_batch("BEGIN DEFERRED")
}

/// `rusqlite::Connection::execute_batch` on `COMMIT`: closes the transaction and
/// keeps what was written in it.
#[verifier::external_body]
pub(crate) fn commit(conn: &mut rusqlite::Connection) -> (r: Result<(), rusqlite::Error>)
    ensures
        sole(*old(conn)) ==> {
            &&& sole(*final(conn))
            &&& r is Ok ==> undo_of(*old(conn)) is Some && undo_of(*final(conn)) is None
                && tables_of(*final(conn)) == tables_of(*old(conn))
            &&& r is Err ==> kept_or_undone(*old(conn), *final(conn))
        },
{
    conn.execute_batch("COMMIT")
}

/// `rusqlite::Connection::execute_batch` on `ROLLBACK`: closes the transaction
/// and undoes what was written in it. Where none is open it fails and changes
/// nothing. SQLite undoes the transaction before anything in the statement can
/// fail, so a failure leaves none open either.
#[verifier::external_body]
pub(crate) fn rollback(conn: &mut rusqlite::Connection) -> (r: Result<(), rusqlite::Error>)
    ensures
        sole(*old(conn)) ==> {
            &&& sole(*final(conn))
            &&& undo_of(*final(conn)) is None
            &&& tables_of(*final(conn)) == undone(tables_of(*old(conn)), undo_of(*old(conn)))
            &&& r is Ok ==> undo_of(*old(conn)) is Some
        },
{
    conn.execute_batch("ROLLBACK")
}

// ---------------------------------------------------------------- reading

/// A row of `holiday_records`, of a date that is known.
pub struct DayRow {
    pub category: String,
    pub name_en: String,
    pub name_zh: String,
    pub statutory_days: i64,
}

/// A row of `holiday_records`.
pub struct YearRow {
    pub date: String,
    pub category: String,
    pub name_en: String,
    pub name_zh: String,
    pub statutory_days: i64,
    pub source_file: Option<String>,
}

/// Whether a row of the table says what `hit` says.
pub open spec fn day_row_is(value: RowValue, hit: DayRow) -> bool {
    &&& value.name_en == hit.name_en@
    &&& value.name_zh == hit.name_zh@
    &&& value.statutory_days == hit.statutory_days
}

/// Whether `hits` are the rows of `date`, each of them once, in any order.
pub open spec fn are_day_rows(rows: Rows, date: Seq<char>, hits: Seq<DayRow>) -> bool {
    &&& forall|i: int|
        0 <= i < hits.len() ==> rows.contains_key((date, (#[trigger] hits[i]).category@))
            && day_row_is(rows[(date, hits[i].category@)], hits[i])
    &&& forall|category: Seq<char>| #[trigger]
        rows.contains_key((date, category)) ==> exists|i: int|
            0 <= i < hits.len() && (#[trigger] hits[i]).category@ == category
    &&& forall|i: int, j: int|
        0 <= i < j < hits.len() ==> (#[trigger] hits[i]).category@ != (
        #[trigger] hits[j]).category@
}

/// `rusqlite::Connection::prepare_cached` and `query_map`: the rows of a date.
/// In which order they come is left unsaid.
#[verifier::external_body]
pub(crate) fn select_day(conn: &rusqlite::Connection, date: &str) -> (r: Result<
    Vec<DayRow>,
    rusqlite::Error,
>)
    ensures
        sole(*conn) ==> (r matches Ok(hits) ==> are_day_rows(tables_of(*conn).rows, date@, hits@)),
{
    let mut stmt = conn.prepare_cached(
        "SELECT category, name_en, name_zh, statutory_days FROM holiday_records WHERE date = ?1",
    )?;
    let hits = stmt.query_map([date], |r| Ok(DayRow {
        category: r.get(0)?,
        name_en: r.get(1)?,
        name_zh: r.get(2)?,
        statutory_days: r.get(3)?,
    }))?;
    hits.collect()
}

/// Whether a row has a date from `from` to `to`, in the order in which texts sort.
pub open spec fn has_date_within(rows: Rows, from: Seq<char>, to: Seq<char>) -> bool {
    exists|key: (Seq<char>, Seq<char>)| #[trigger]
        rows.contains_key(key) && text_at_most(from, key.0) && text_at_most(key.0, to)
}

/// `rusqlite::Connection::query_row`: whether a row has a date from `from` to
/// `to`. SQLite compares texts by their UTF-8 bytes, which is the order of their
/// characters.
#[verifier::external_body]
pub(crate) fn any_dated_within(conn: &rusqlite::Connection, from: &str, to: &str) -> (r: Result<
    bool,
    rusqlite::Error,
>)
    ensures
        sole(*conn) ==> (r matches Ok(found) ==> found == has_date_within(
            tables_of(*conn).rows,
            from@,
            to@,
        )),
{
    conn.query_row(
        "SELECT EXISTS(SELECT 1 FROM holiday_records WHERE date >= ?1 AND date <= ?2)",
        [from, to],
        |r| r.get(0),
    )
}

/// What `substr(date, 1, 4)` gives: the first four characters, or fewer where
/// the text ends, or a NUL character comes, before.
pub open spec fn leading(s: Seq<char>, n: nat) -> Seq<char>
    decreases n,
{
    if n == 0 || s.len() == 0 || s[0] == '\0' {
        Seq::empty()
    } else {
        seq![s[0]] + leading(s.drop_first(), (n - 1) as nat)
    }
}

/// The part of a date that names the year.
pub open spec fn year_part(date: Seq<char>) -> Seq<char> {
    leading(date, 4)
}

/// The order of rows by date, then by category.
pub open spec fn key_less(a: (Seq<char>, Seq<char>), b: (Seq<char>, Seq<char>)) -> bool {
    text_less(a.0, b.0) || (a.0 == b.0 && text_less(a.1, b.1))
}

pub open spec fn year_row_key(row: YearRow) -> (Seq<char>, Seq<char>) {
    (row.date@, row.category@)
}

/// What a row holds beside its key.
pub open spec fn year_row_value(row: YearRow) -> RowValue {
    row_value(row.name_en@, row.name_zh@, row.statutory_days, row.source_file)
}

/// Whether `list` has the rows of the year, each of them once, by date and category.
pub open spec fn are_year_rows(rows: Rows, year: Seq<char>, list: Seq<YearRow>) -> bool {
    &&& forall|i: int|
        0 <= i < list.len() ==> {
            let key = year_row_key(#[trigger] list[i]);
            &&& rows.contains_key(key)
            &&& rows[key] == year_row_value(list[i])
            &&& year_part(key.0) == year
        }
    &&& forall|key: (Seq<char>, Seq<char>)| #[trigger]
        rows.contains_key(key) && year_part(key.0) == year ==> exists|i: int|
            0 <= i < list.len() && year_row_key(#[trigger] list[i]) == key
    &&& forall|i: int, j: int|
        0 <= i < j < list.len() ==> key_less(
            year_row_key(#[trigger] list[i]),
            year_row_key(#[trigger] list[j]),
        )
}

/// `rusqlite::Connection::prepare_cached` and `query_map`: the rows whose dates
/// start with `year`, ordered by date and category.
#[verifier::external_body]
pub(crate) fn select_year(conn: &rusqlite::Connection, year: &str) -> (r: Result<
    Vec<YearRow>,
    rusqlite::Error,
>)
    ensures
        sole(*conn) ==> (r matches Ok(list) ==> are_year_rows(tables_of(*conn).rows, year@, list@)),
{
    let mut stmt = conn.prepare_cached(SELECT_YEAR)?;
    let list = stmt.query_map([year], |r| Ok(YearRow {
        date: r.get(0)?,
        category: r.get(1)?,
        name_en: r.get(2)?,
        name_zh: r.get(3)?,
        statutory_days: r.get(4)?,
        source_file: r.get(5)?,
    }))?;
    list.collect()
}

const SELECT_YEAR: &'static str = "
SELECT date, category, name_en, name_zh, statutory_days, source_file
FROM holiday_records
WHERE substr(date, 1, 4) = ?1
ORDER BY date, category";

/// The texts of a list of strings.
pub open spec fn texts(list: Seq<String>) -> Seq<Seq<char>> {
    Seq::new(list.len(), |i: int| list[i]@)
}

/// Whether `parts` are the years that the rows' dates start with, each of them
/// once, in the order in which texts sort.
#[verifier::opaque]
pub open spec fn are_year_parts(rows: Rows, parts: Seq<Seq<char>>) -> bool {
    &&& forall|i: int|
        0 <= i < parts.len() ==> exists|key: (Seq<char>, Seq<char>)| #[trigger]
            rows.contains_key(key) && year_part(key.0) == #[trigger] parts[i]
    &&& forall|key: (Seq<char>, Seq<char>)| #[trigger]
        rows.contains_key(key) ==> exists|i: int|
            0 <= i < parts.len() && #[trigger] parts[i] == year_part(key.0)
    &&& forall|i: int, j: int|
        0 <= i < j < parts.len() ==> text_less(#[trigger] parts[i], #[trigger] parts[j])
}

/// `rusqlite::Connection::prepare_cached` and `query_map`: the years that the
/// dates start with, without repetition, in order.
#[verifier::external_body]
pub(crate) fn select_years(conn: &rusqlite::Connection) -> (r: Result<Vec<String>, rusqlite::Error>)
    ensures
        sole(*conn) ==> (r matches Ok(list) ==> are_year_parts(tables_of(*conn).rows, texts(list@))),
{
    let mut stmt = conn.prepare_cached(
        "SELECT DISTINCT substr(date, 1, 4) AS y FROM holiday_records ORDER BY y",
    )?;
    let list = stmt.query_map([], |r| r.get(0))?;
    list.collect()
}

/// The keys of the rows of one category.
pub open spec fn keys_of_category(rows: Rows, category: Seq<char>) -> Set<
    (Seq<char>, Seq<char>),
> {
    rows.dom().filter(|key: (Seq<char>, Seq<char>)| key.1 == category)
}

/// The dates that the rows have.
pub open spec fn dates_of(rows: Rows) -> Set<Seq<char>> {
    rows.dom().map(|key: (Seq<char>, Seq<char>)| key.0)
}

/// `rusqlite::Connection::query_row`: the number of rows.
#[verifier::external_body]
pub(crate) fn count_rows(conn: &rusqlite::Connection) -> (r: Result<i64, rusqlite::Error>)
    ensures
        sole(*conn) ==> (r matches Ok(n) ==> tables_of(*conn).rows.dom().finite() && n
            == tables_of(*conn).rows.dom().len()),
        r matches Ok(n) ==> n >= 0,
{
    conn.query_row("SELECT COUNT(*) FROM holiday_records", [], |r| r.get(0))
}

/// `rusqlite::Connection::query_row`: the number of different dates.
#[verifier::external_body]
pub(crate) fn count_dates(conn: &rusqlite::Connection) -> (r: Result<i64, rusqlite::Error>)
    ensures
        sole(*conn) ==> (r matches Ok(n) ==> n == dates_of(tables_of(*conn).rows).len()),
        r matches Ok(n) ==> n >= 0,
{
    conn.query_row("SELECT COUNT(DISTINCT date) FROM holiday_records", [], |r| r.get(0))
}

/// `rusqlite::Connection::query_row`: the number of rows of a category.
#[verifier::external_body]
pub(crate) fn count_category(conn: &rusqlite::Connection, category: &str) -> (r: Result<
    i64,
    rusqlite::Error,
>)
    ensures
        sole(*conn) ==> (r matches Ok(n) ==> n == keys_of_category(
            tables_of(*conn).rows,
            category@,
        ).len()),
        r matches Ok(n) ==> n >= 0,
{
    conn.query_row(
        "SELECT COUNT(*) FROM holiday_records WHERE category = ?1",
        [category],
        |r| r.get(0),
    )
}

/// Whether `list` has the rows of the log, each of them once, by the name of the
/// file: the file, the time and the number of records.
pub open spec fn are_log_rows(log: Log, list: Seq<(String, String, i64)>) -> bool {
    &&& forall|i: int|
        0 <= i < list.len() ==> {
            let file = (#[trigger] list[i]).0@;
            &&& log.contains_key(file)
            &&& log[file].imported_at == list[i].1@
            &&& log[file].record_count == list[i].2
        }
    &&& forall|file: Seq<char>| #[trigger]
        log.contains_key(file) ==> exists|i: int|
            0 <= i < list.len() && (#[trigger] list[i]).0@ == file
    &&& forall|i: int, j: int|
        0 <= i < j < list.len() ==> text_less((#[trigger] list[i]).0@, (#[trigger] list[j]).0@)
}

/// `rusqlite::Connection::prepare_cached` and `query_map`: the rows of the log,
/// ordered by the name of the file.
#[verifier::external_body]
pub(crate) fn select_log(conn: &rusqlite::Connection) -> (r: Result<
    Vec<(String, String, i64)>,
    rusqlite::Error,
>)
    ensures
        sole(*conn) ==> (r matches Ok(list) ==> are_log_rows(tables_of(*conn).log, list@)),
{
    let mut stmt = conn.prepare_cached(
        "SELECT source_file, imported_at, record_count FROM import_log ORDER BY source_file",
    )?;
    let list = stmt.query_map([], |r| Ok((r.get(0)?, r.get(1)?, r.get(2)?)))?;
    list.collect()
}

/// `rusqlite::Connection::query_row`: whether a date has a row of a category. It
/// writes nothing, but where it fails inside a transaction SQLite may undo that.
#[verifier::external_body]
pub(crate) fn has_row(conn: &mut rusqlite::Connection, date: &str, category: &str) -> (r: Result<
    bool,
    rusqlite::Error,
>)
    ensures
        sole(*old(conn)) ==> {
            &&& sole(*final(conn))
            &&& r matches Ok(found) ==> {
                &&& found == tables_of(*old(conn)).rows.contains_key((date@, category@))
                &&& tables_of(*final(conn)) == tables_of(*old(conn))
                &&& undo_of(*final(conn)) == undo_of(*old(conn))
            }
            &&& r is Err ==> kept_or_undone(*old(conn), *final(conn))
        },
{
    conn.query_row(
        "SELECT EXISTS(SELECT 1 FROM holiday_records WHERE date = ?1 AND category = ?2)",
        [date, category],
        |r| r.get(0),
    )
}

// ---------------------------------------------------------------- writing

const PUT_ROW: &'static str = "
INSERT INTO holiday_records
    (date, category, name_en, name_zh, statutory_days, source_file, updated_at)
VALUES (?1, ?2, ?3, ?4, ?5, ?6, datetime('now', 'localtime'))
ON CONFLICT(date, category) DO UPDATE SET
    name_en        = excluded.name_en,
    name_zh        = excluded.name_zh,
    statutory_days = excluded.statutory_days,
    source_file    = excluded.source_file,
    updated_at     = datetime('now', 'localtime')";

/// `rusqlite::Connection::execute`: writes a row, in place of the one with the
/// same date and category. The time of writing goes into a column that is not
/// read.
#[verifier::external_body]
pub(crate) fn put_row(
    conn: &mut rusqlite::Connection,
    key: (&str, &str),
    name_en: &str,
    name_zh: &str,
    statutory_days: i64,
    source_file: &Option<String>,
) -> (r: Result<usize, rusqlite::Error>)
    ensures
        sole(*old(conn)) ==> {
            &&& sole(*final(conn))
            &&& r is Ok ==> undo_of(*final(conn)) == undo_of(*old(conn)) && tables_of(*final(conn))
                == with_row(
                tables_of(*old(conn)),
                (key.0@, key.1@),
                row_value(name_en@, name_zh@, statutory_days, *source_file),
            )
            &&& r is Err ==> kept_or_undone(*old(conn), *final(conn))
        },
{
    conn.execute(PUT_ROW, (key.0, key.1, name_en, name_zh, statutory_days, source_file))
}

/// What a row holds beside its key.
pub open spec fn row_value(
    name_en: Seq<char>,
    name_zh: Seq<char>,
    statutory_days: i64,
    source_file: Option<String>,
) -> RowValue {
    RowValue {
        name_en,
        name_zh,
        statutory_days,
        source_file: match source_file {
            Some(s) => Some(s@),
            None => None,
        },
    }
}

/// The tables after a row was written.
pub open spec fn with_row(tables: Tables, key: (Seq<char>, Seq<char>), value: RowValue) -> Tables {
    Tables { rows: tables.rows.insert(key, value), log: tables.log, made: tables.made }
}

const PUT_LOG: &'static str = "
INSERT INTO import_log (source_file, imported_at, record_count)
VALUES (?1, datetime('now', 'localtime'), ?2)
ON CONFLICT(source_file) DO UPDATE SET
    imported_at  = excluded.imported_at,
    record_count = excluded.record_count";

/// Whether `after` is `before` with the log saying, at some time, that
/// `record_count` records of `file` were taken in.
pub open spec fn logged(before: Tables, after: Tables, file: Seq<char>, record_count: i64) -> bool {
    &&& after.rows == before.rows
    &&& after.made == before.made
    &&& after.log.contains_key(file)
    &&& after.log[file].record_count == record_count
    &&& after.log == before.log.insert(file, after.log[file])
}

/// `rusqlite::Connection::execute`: writes a row of the log, in place of the one
/// of the same file. The time is that of the machine, and left unsaid.
#[verifier::external_body]
pub(crate) fn put_log(conn: &mut rusqlite::Connection, file: &str, record_count: i64) -> (r: Result<
    usize,
    rusqlite::Error,
>)
    ensures
        sole(*old(conn)) ==> {
            &&& sole(*final(conn))
            &&& r is Ok ==> undo_of(*final(conn)) == undo_of(*old(conn)) && logged(
                tables_of(*old(conn)),
                tables_of(*final(conn)),
                file@,
                record_count,
            )
            &&& r is Err ==> kept_or_undone(*old(conn), *final(conn))
        },
{
    conn.execute(PUT_LOG, (file, record_count))
}

// ---------------------------------------------------------------- errors

/// What an error of `rusqlite` says of itself.
pub uninterp spec fn sql_error_text(e: rusqlite::Error) -> Seq<char>;

/// `to_string` of `rusqlite::Error`. The text is named, not spelled out.
#[verifier::external_body]
pub(crate) fn describe_error(e: &rusqlite::Error) -> (r: String)
    ensures
        r@ == sql_error_text(*e),
{
    e.to_string()
}

/// What an error of `rusqlite` and all that it came from say.
pub uninterp spec fn sql_error_chain(e: rusqlite::Error) -> Seq<char>;

/// `anyhow::Error` from an error of `rusqlite`, with the format `{:#}`: what the
/// error says of itself, and what each error says that it came from, with colons
/// between them. The text is named, not spelled out.
#[verifier::external_body]
pub(crate) fn describe_chain(e: rusqlite::Error) -> (r: String)
    ensures
        r@ == sql_error_chain(e),
{
    format!("{:#}", anyhow::Error::from(e))
}

} // verus!
