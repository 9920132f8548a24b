//! The store: writing records, and asking for days, years and counts.

use vstd::prelude::*;
use vstd::string::*;

use crate::calendar::{four_digits, Date};
use crate::model::{
    category_named, category_text, is_weekend, law_category_round_trips, record_views, weekday_cn,
    weekday_label, Category, DayQuery, DayQueryView, DayType, Festival, FestivalView, Record,
    RecordView,
};
use crate::sqlite;
use crate::sqlite::{
    are_day_rows, are_log_rows, are_year_parts, are_year_rows, dates_of, has_date_within, key_less,
    keys_of_category, logged, sole, tables_of, texts, undo_of, with_row, year_part, year_row_key,
    year_row_value, DayRow, RowValue, Rows, Tables, YearRow,
};
use crate::text::{digit, integer, integer_text, parse_i32, parse_integer_32};

verus! {

// ---------------------------------------------------------------- errors

/// Why the store did not do what it was asked.
#[derive(Debug)]
pub enum StoreError {
    /// SQLite failed.
    Sql(rusqlite::Error),
    /// SQLite failed while the database was made ready, in this step.
    Setup(&'static str, rusqlite::Error),
    /// The caller of a transaction gave it up, for this reason.
    Given(String),
}

/// What an error says.
pub open spec fn store_error_text(e: StoreError) -> Seq<char> {
    match e {
        StoreError::Sql(e) => sqlite::sql_error_text(e),
        StoreError::Setup(step, _) => step@,
        StoreError::Given(message) => message@,
    }
}

/// What an error and all that it came from say.
pub open spec fn store_error_chain(e: StoreError) -> Seq<char> {
    match e {
        StoreError::Sql(e) => sqlite::sql_error_chain(e),
        StoreError::Setup(step, e) => step@ + ": "@ + sqlite::sql_error_chain(e),
        StoreError::Given(message) => message@,
    }
}

impl StoreError {
    /// What the error says.
    pub fn message(&self) -> (r: String)
        ensures
            r@ == store_error_text(*self),
    {
        match self {
            StoreError::Sql(e) => sqlite::describe_error(e),
            StoreError::Setup(step, _) => String::from_str(*step),
            StoreError::Given(message) => message.clone(),
        }
    }

    /// What the error and all that it came from say.
    pub fn full_message(self) -> (r: String)
        ensures
            r@ == store_error_chain(self),
    {
        match self {
            StoreError::Sql(e) => sqlite::describe_chain(e),
            StoreError::Setup(step, e) => {
                let mut out = String::from_str(step);
                out.append(": ");
                out.append(sqlite::describe_chain(e).as_str());
                out
            },
            StoreError::Given(message) => message,
        }
    }
}

// ---------------------------------------------------------------- the database

/// The tables behind one connection, open for writing inside a transaction.
pub struct Database {
    conn: rusqlite::Connection,
}

impl View for Database {
    type V = Tables;

    closed spec fn view(&self) -> Tables {
        tables_of(self.conn)
    }
}

impl Database {
    /// Whether nobody else writes to the database.
    pub closed spec fn sole(&self) -> bool {
        sole(self.conn)
    }

    /// What a rollback would put back, where a transaction is open.
    pub closed spec fn undo(&self) -> Option<Tables> {
        undo_of(self.conn)
    }
}

/// Whether `after` is the same transaction as `before`, whatever was written in
/// it, or what a failure left when it undid that transaction.
pub open spec fn same_transaction(before: Database, after: Database) -> bool {
    before.sole() ==> {
        &&& after.sole()
        &&& after.undo() == before.undo() || (after.undo() is None && before.undo() == Some(after@))
    }
}

/// Whether `after` is what a failed statement leaves: the tables as they were, or
/// the transaction undone.
pub open spec fn failed(before: Database, after: Database) -> bool {
    before.sole() ==> {
        &&& after.sole()
        &&& (after@ == before@ && after.undo() == before.undo()) || (after.undo() is None
            && before.undo() == Some(after@))
    }
}

/// The key under which a record is kept: one record for each date and category.
pub open spec fn record_key(record: RecordView) -> (Seq<char>, Seq<char>) {
    (record.date, category_text(record.category))
}

/// What is kept of a record beside its key.
pub open spec fn record_value(record: RecordView) -> RowValue {
    RowValue {
        name_en: record.name_en,
        name_zh: record.name_zh,
        statutory_days: record.statutory_days,
        source_file: record.source_file,
    }
}

/// Writes a record. Gives `true` where it is new, and `false` where it took the
/// place of a record with the same date and category.
pub fn upsert(tx: &mut Database, record: &Record) -> (r: Result<bool, StoreError>)
    ensures
        same_transaction(*old(tx), *final(tx)),
        old(tx).sole() ==> (r matches Ok(inserted) ==> {
            &&& inserted == !old(tx)@.rows.contains_key(record_key(record@))
            &&& final(tx)@ == with_row(old(tx)@, record_key(record@), record_value(record@))
            &&& final(tx).undo() == old(tx).undo()
        }),
        r matches Err(e) ==> e is Sql && failed(*old(tx), *final(tx)),
{
    let category = record.category.as_str();
    let existed: bool = match sqlite::has_row(&mut tx.conn, record.date.as_str(), category) {
        Ok(found) => found,
        Err(e) => {
            return Err(StoreError::Sql(e));
        },
    };
    match sqlite::put_row(
        &mut tx.conn,
        (record.date.as_str(), category),
        record.name_en.as_str(),
        record.name_zh.as_str(),
        record.statutory_days,
        &record.source_file,
    ) {
        Ok(_) => Ok(!existed),
        Err(e) => Err(StoreError::Sql(e)),
    }
}

/// Notes that a file was taken in, with the number of its records.
pub fn record_import(tx: &mut Database, source_file: &str, record_count: i64) -> (r: Result<
    (),
    StoreError,
>)
    ensures
        same_transaction(*old(tx), *final(tx)),
        old(tx).sole() ==> (r is Ok ==> logged(
            old(tx)@,
            final(tx)@,
            source_file@,
            record_count,
        ) && final(tx).undo() == old(tx).undo()),
        r matches Err(e) ==> e is Sql && failed(*old(tx), *final(tx)),
{
    match sqlite::put_log(&mut tx.conn, source_file, record_count) {
        Ok(_) => Ok(()),
        Err(e) => Err(StoreError::Sql(e)),
    }
}

// ---------------------------------------------------------------- the store

/// The store. It owns one connection.
pub struct Store {
    db: Database,
}

impl View for Store {
    type V = Tables;

    closed spec fn view(&self) -> Tables {
        self.db@
    }
}

/// Whether an error is one that opening a store may give.
pub open spec fn is_opening_error(e: StoreError) -> bool {
    match e {
        StoreError::Sql(_) => true,
        StoreError::Setup(step, _) => step@ == "设置 journal_mode 失败"@ || step@
            == "初始化表结构失败"@,
        StoreError::Given(_) => false,
    }
}

/// Whether `db` is the database of `store`, with a transaction just opened.
pub open spec fn opened(store: Store, db: Database) -> bool {
    store.sole() ==> db.sole() && db@ == store@ && db.undo() == Some(store@)
}

/// Whether an error is what SQLite said when it did not open a transaction.
pub closed spec fn begin_refused(e: StoreError) -> bool {
    e matches StoreError::Sql(cause) && exists|
        conn: &mut rusqlite::Connection,
        out: Result<(), rusqlite::Error>,
    | #[trigger]
        call_ensures(sqlite::begin, (conn,), out) && out == Err::<(), rusqlite::Error>(cause)
}

/// Whether an error is what SQLite said when it did not commit a transaction.
pub closed spec fn commit_refused(e: StoreError) -> bool {
    e matches StoreError::Sql(cause) && exists|
        conn: &mut rusqlite::Connection,
        out: Result<(), rusqlite::Error>,
    | #[trigger]
        call_ensures(sqlite::commit, (conn,), out) && out == Err::<(), rusqlite::Error>(cause)
}

impl Store {
    /// Whether nobody else writes to the database.
    pub closed spec fn sole(&self) -> bool {
        self.db.sole()
    }

    /// Whether no transaction is open.
    pub closed spec fn settled(&self) -> bool {
        self.db.undo() is None
    }

    /// An empty store in memory.
    pub fn open_in_memory() -> (r: Result<Self, StoreError>)
        ensures
            r matches Ok(store) ==> {
                &&& store.sole()
                &&& store.settled()
                &&& store@.rows == sqlite::no_rows()
                &&& store@.log == sqlite::no_log()
                &&& store@.made
            },
            r matches Err(e) ==> is_opening_error(e),
    {
        match sqlite::open_in_memory() {
            Ok(conn) => Store::from_conn(conn),
            Err(e) => Err(StoreError::Sql(e)),
        }
    }

    /// The store in the database of a connection. The tables are made where they
    /// are not there; what they hold stays.
    pub fn from_conn(conn: rusqlite::Connection) -> (r: Result<Self, StoreError>)
        ensures
            r matches Ok(store) ==> {
                &&& sole(conn) ==> store.sole()
                &&& sole(conn) ==> store.settled() == (undo_of(conn) is None)
                &&& sole(conn) ==> store@ == sqlite::with_tables(tables_of(conn))
            },
            r matches Err(e) ==> is_opening_error(e),
    {
        match sqlite::use_write_ahead_log(&conn) {
            Ok(_) => {},
            Err(e) => {
                return Err(StoreError::Setup("设置 journal_mode 失败", e));
            },
        }
        match sqlite::relax_synchronous(&conn) {
            Ok(_) => {},
            Err(e) => {
                return Err(StoreError::Sql(e));
            },
        }
        let mut conn = conn;
        match sqlite::make_tables(&mut conn) {
            Ok(_) => Ok(Store { db: Database { conn } }),
            Err(e) => Err(StoreError::Setup("初始化表结构失败", e)),
        }
    }

    /// Undoes the open transaction, where there is one: the tables are as they were
    /// when it was opened, and none is open any more.
    fn undo_open_transaction(&mut self) -> (r: Result<(), StoreError>)
        ensures
            old(self).sole() ==> {
                &&& final(self).sole()
                &&& final(self).settled()
                &&& final(self)@ == sqlite::undone(old(self)@, old(self).db.undo())
            },
            old(self).sole() && old(self).settled() ==> r is Ok,
            r matches Err(e) ==> e is Sql,
    {
        if sqlite::is_autocommit(&self.db.conn) {
            return Ok(());
        }
        match sqlite::rollback(&mut self.db.conn) {
            Ok(_) => Ok(()),
            Err(e) => Err(StoreError::Sql(e)),
        }
    }

    /// Does `f` in a transaction and gives back what it gave. Where `f` fails, all
    /// that it wrote is undone.
    pub fn with_transaction<T, F: FnOnce(&mut Database) -> Result<T, StoreError>>(
        &mut self,
        f: F,
    ) -> (r: Result<T, StoreError>)
        requires
            forall|db: &mut Database| opened(*old(self), *db) ==> #[trigger] call_requires(f, (db,)),
            forall|db: &mut Database, out: Result<T, StoreError>| #[trigger]
                call_ensures(f, (db,), out) ==> same_transaction(*db, *final(db)),
        ensures
            old(self).sole() ==> {
                &&& final(self).sole()
                &&& final(self).settled() == old(self).settled()
                &&& !old(self).settled() ==> r is Err
                &&& r is Err ==> final(self)@ == old(self)@
            },
            r matches Ok(v) ==> exists|db: &mut Database| #[trigger]
                call_ensures(f, (db,), Ok(v)) && opened(*old(self), *db) && (old(self).sole()
                    ==> final(self)@ == final(db)@),
            r matches Err(e) ==> {
                ||| e is Sql && begin_refused(e)
                ||| exists|db: &mut Database| #[trigger]
                    call_ensures(f, (db,), Err(e)) && opened(*old(self), *db)
                ||| e is Sql && commit_refused(e) && exists|db: &mut Database, v: T| #[trigger]
                    call_ensures(f, (db,), Ok(v)) && opened(*old(self), *db)
            },
    {
        match sqlite::begin(&mut self.db.conn) {
            Ok(_) => {},
            Err(e) => {
                return Err(StoreError::Sql(e));
            },
        }
        match f(&mut self.db) {
            Ok(v) => match sqlite::commit(&mut self.db.conn) {
                Ok(_) => Ok(v),
                Err(e) => {
                    let _ = self.undo_open_transaction();
                    Err(StoreError::Sql(e))
                },
            },
            Err(e) => {
                let _ = self.undo_open_transaction();
                Err(e)
            },
        }
    }
}

// ---------------------------------------------------------------- a single day

/// How the database writes a year: in four digits.
pub open spec fn year_text(year: int) -> Seq<char> {
    if 0 <= year <= 9999 {
        four_digits(year)
    } else {
        integer_text(year)
    }
}

/// How the database writes a year.
pub fn written_year(year: i32) -> (r: String)
    ensures
        r@ == year_text(year as int),
{
    if 0 <= year && year <= 9999 {
        let n: u64 = year as u64;
        let mut out = String::new();
        out.push(digit(n / 100 / 10));
        out.push(digit(n / 100 % 10));
        out.push(digit(n % 100 / 10));
        out.push(digit(n % 100 % 10));
        assert(out@ =~= four_digits(year as int));
        out
    } else {
        integer(year as i64)
    }
}

/// The first day of a year, as it is written.
pub open spec fn year_start(year: int) -> Seq<char> {
    year_text(year) + "-01-01"@
}

/// The last day of a year, as it is written.
pub open spec fn year_end(year: int) -> Seq<char> {
    year_text(year) + "-12-31"@
}

/// The festival that a row names.
pub open spec fn row_festival(row: DayRow) -> FestivalView {
    FestivalView {
        name_en: row.name_en@,
        name_zh: row.name_zh@,
        statutory_days: row.statutory_days,
    }
}

/// The festival of the last row of a category.
pub open spec fn last_of(hits: Seq<DayRow>, category: Category) -> Option<FestivalView>
    decreases hits.len(),
{
    if hits.len() == 0 {
        None
    } else if category_named(hits.last().category@) == Some(category) {
        Some(row_festival(hits.last()))
    } else {
        last_of(hits.drop_last(), category)
    }
}

/// The first of three festivals that is there.
pub open spec fn first_festival(
    a: Option<FestivalView>,
    b: Option<FestivalView>,
    c: Option<FestivalView>,
) -> Option<FestivalView> {
    if a is Some {
        a
    } else if b is Some {
        b
    } else {
        c
    }
}

/// What kind of day it is. A day off comes before a day of work that makes up
/// for one, and either before the calendar.
pub open spec fn day_type_of(is_holiday: bool, is_makeup_workday: bool, weekend: bool) -> DayType {
    if is_holiday {
        DayType::Holiday
    } else if is_makeup_workday {
        DayType::MakeupWorkday
    } else if weekend {
        DayType::Weekend
    } else {
        DayType::Workday
    }
}

/// What is said of a day, given the festivals of its records of each category
/// and whether there is data of its year.
pub open spec fn day_answer(
    day: Date,
    holiday: Option<FestivalView>,
    in_lieu: Option<FestivalView>,
    workday: Option<FestivalView>,
    data_available: bool,
) -> DayQueryView {
    let weekend = day.weekday_index() >= 6;
    DayQueryView {
        date: day.written(),
        year: day.year as int,
        month: day.month as int,
        day: day.day as int,
        day_of_week: day.weekday_index(),
        day_of_week_cn: weekday_label(day.weekday_index()),
        is_weekend: weekend,
        data_available,
        day_type: day_type_of(holiday is Some, workday is Some, weekend),
        is_holiday: holiday is Some,
        is_makeup_workday: workday is Some,
        is_in_lieu: in_lieu is Some,
        is_rest_day: holiday is Some || (weekend && workday is None),
        festival: first_festival(holiday, in_lieu, workday),
    }
}

/// What is said of a day, given its rows.
pub open spec fn answer_from_rows(
    day: Date,
    hits: Seq<DayRow>,
    data_available: bool,
) -> DayQueryView {
    day_answer(
        day,
        last_of(hits, Category::Holiday),
        last_of(hits, Category::InLieu),
        last_of(hits, Category::Workday),
        data_available,
    )
}

/// The festival of the record of a date and category.
pub open spec fn festival_in(rows: Rows, date: Seq<char>, category: Category) -> Option<
    FestivalView,
> {
    let key = (date, category_text(category));
    if rows.contains_key(key) {
        Some(
            FestivalView {
                name_en: rows[key].name_en,
                name_zh: rows[key].name_zh,
                statutory_days: rows[key].statutory_days,
            },
        )
    } else {
        None
    }
}

/// Whether there is data of a year.
pub open spec fn has_data_of(rows: Rows, year: int) -> bool {
    has_date_within(rows, year_start(year), year_end(year))
}

/// What the store says of a day.
pub open spec fn answer_in(rows: Rows, day: Date) -> DayQueryView {
    day_answer(
        day,
        festival_in(rows, day.written(), Category::Holiday),
        festival_in(rows, day.written(), Category::InLieu),
        festival_in(rows, day.written(), Category::Workday),
        has_data_of(rows, day.year as int),
    )
}

proof fn lemma_last_of_is_festival(
    rows: Rows,
    date: Seq<char>,
    hits: Seq<DayRow>,
    n: int,
    category: Category,
)
    requires
        are_day_rows(rows, date, hits),
        0 <= n <= hits.len(),
    ensures
        match last_of(hits.take(n), category) {
            Some(f) => festival_in(rows, date, category) == Some(f),
            None => forall|i: int|
                0 <= i < n ==> (#[trigger] hits[i]).category@ != category_text(category),
        },
    decreases n,
{
    if n > 0 {
        let part = hits.take(n);
        assert(part.drop_last() =~= hits.take(n - 1));
        assert(part.last() == hits[n - 1]);
        lemma_last_of_is_festival(rows, date, hits, n - 1, category);
        law_category_round_trips(category, hits[n - 1].category@);
    }
}

/// The rows of a date give the festivals of its records.
proof fn lemma_rows_give_festivals(
    rows: Rows,
    date: Seq<char>,
    hits: Seq<DayRow>,
    category: Category,
)
    requires
        are_day_rows(rows, date, hits),
    ensures
        last_of(hits, category) == festival_in(rows, date, category),
{
    lemma_last_of_is_festival(rows, date, hits, hits.len() as int, category);
    assert(hits.take(hits.len() as int) =~= hits);
    if last_of(hits, category) is None {
        assert(!rows.contains_key((date, category_text(category))));
    }
}

/// What is said of a day, given its rows and whether there is data of its year.
pub fn day_query(day: Date, hits: &Vec<DayRow>, data_available: bool) -> (r: DayQuery)
    requires
        day.valid(),
    ensures
        r@ == answer_from_rows(day, hits@, data_available),
{
    let mut holiday: Option<Festival> = None;
    let mut in_lieu: Option<Festival> = None;
    let mut workday: Option<Festival> = None;
    let mut i: usize = 0;
    assert(hits@.take(0) =~= Seq::<DayRow>::empty());
    while i < hits.len()
        invariant
            i <= hits@.len(),
            crate::model::optional_festival(holiday) == last_of(
                hits@.take(i as int),
                Category::Holiday,
            ),
            crate::model::optional_festival(in_lieu) == last_of(
                hits@.take(i as int),
                Category::InLieu,
            ),
            crate::model::optional_festival(workday) == last_of(
                hits@.take(i as int),
                Category::Workday,
            ),
        decreases hits@.len() - i,
    {
        let hit = &hits[i];
        let festival = Festival {
            name_en: hit.name_en.clone(),
            name_zh: hit.name_zh.clone(),
            statutory_days: hit.statutory_days,
        };
        assert(hits@.take(i + 1).drop_last() =~= hits@.take(i as int));
        assert(festival@ == row_festival(hits@.take(i + 1).last()));
        match Category::parse(hit.category.as_str()) {
            Some(Category::Holiday) => {
                holiday = Some(festival);
            },
            Some(Category::InLieu) => {
                in_lieu = Some(festival);
            },
            Some(Category::Workday) => {
                workday = Some(festival);
            },
            None => {},
        }
        i = i + 1;
    }
    assert(hits@.take(hits@.len() as int) =~= hits@);

    let weekday = day.weekday();
    let weekend: bool = is_weekend(weekday);
    let is_holiday: bool = holiday.is_some();
    let is_makeup_workday: bool = workday.is_some();
    let is_in_lieu: bool = in_lieu.is_some();
    let day_type = if is_holiday {
        DayType::Holiday
    } else if is_makeup_workday {
        DayType::MakeupWorkday
    } else if weekend {
        DayType::Weekend
    } else {
        DayType::Workday
    };
    // The day off comes first; the other records stand in for it, so that a
    // festival is named wherever there is a record.
    let festival = if is_holiday {
        holiday
    } else if is_in_lieu {
        in_lieu
    } else {
        workday
    };
    DayQuery {
        date: day.text(),
        year: day.year,
        month: day.month,
        day: day.day,
        day_of_week: weekday.number_from_monday(),
        day_of_week_cn: weekday_cn(weekday),
        is_weekend: weekend,
        data_available,
        day_type,
        is_holiday,
        is_makeup_workday,
        is_in_lieu,
        is_rest_day: is_holiday || (weekend && !is_makeup_workday),
        festival,
    }
}

impl Store {
    /// What is known of a day.
    pub fn query_day(&self, day: Date) -> (r: Result<DayQuery, StoreError>)
        requires
            day.valid(),
        ensures
            r matches Ok(q) ==> exists|hits: Seq<DayRow>, data_available: bool|
                q@ == #[trigger] answer_from_rows(day, hits, data_available),
            self.sole() ==> (r matches Ok(q) ==> q@ == answer_in(self@.rows, day)),
            r matches Err(e) ==> e is Sql,
    {
        let key = day.text();
        let hits: Vec<DayRow> = match sqlite::select_day(&self.db.conn, key.as_str()) {
            Ok(hits) => hits,
            Err(e) => {
                return Err(StoreError::Sql(e));
            },
        };
        let mut from = written_year(day.year);
        from.append("-01-01");
        let mut to = written_year(day.year);
        to.append("-12-31");
        let data_available: bool = match sqlite::any_dated_within(
            &self.db.conn,
            from.as_str(),
            to.as_str(),
        ) {
            Ok(found) => found,
            Err(e) => {
                return Err(StoreError::Sql(e));
            },
        };
        proof {
            if self.sole() {
                lemma_rows_give_festivals(self@.rows, day.written(), hits@, Category::Holiday);
                lemma_rows_give_festivals(self@.rows, day.written(), hits@, Category::InLieu);
                lemma_rows_give_festivals(self@.rows, day.written(), hits@, Category::Workday);
            }
        }
        Ok(day_query(day, &hits, data_available))
    }
}

// ---------------------------------------------------------------- a whole year

/// The record that a row says, where it names a category.
pub open spec fn row_record(row: YearRow) -> Option<RecordView> {
    match category_named(row.category@) {
        Some(category) => Some(
            RecordView {
                date: row.date@,
                category,
                name_en: row.name_en@,
                name_zh: row.name_zh@,
                statutory_days: row.statutory_days,
                source_file: year_row_value(row).source_file,
            },
        ),
        None => None,
    }
}

/// The records that rows say, in order. A row of an unknown category says none.
pub open spec fn decoded(list: Seq<YearRow>) -> Seq<RecordView>
    decreases list.len(),
{
    if list.len() == 0 {
        Seq::empty()
    } else {
        let before = decoded(list.drop_last());
        match row_record(list.last()) {
            Some(record) => before.push(record),
            None => before,
        }
    }
}

/// The records that rows say, in order.
pub fn decode(list: &Vec<YearRow>) -> (r: Vec<Record>)
    ensures
        record_views(r@) == decoded(list@),
{
    let mut out: Vec<Record> = Vec::new();
    let mut i: usize = 0;
    assert(list@.take(0) =~= Seq::<YearRow>::empty());
    assert(record_views(out@) =~= decoded(list@.take(0)));
    while i < list.len()
        invariant
            i <= list@.len(),
            record_views(out@) == decoded(list@.take(i as int)),
        decreases list@.len() - i,
    {
        let row = &list[i];
        assert(list@.take(i + 1).drop_last() =~= list@.take(i as int));
        assert(list@.take(i + 1).last() == *row);
        match Category::parse(row.category.as_str()) {
            Some(category) => {
                let source_file: Option<String> = match &row.source_file {
                    Some(s) => Some(s.clone()),
                    None => None,
                };
                let record = Record {
                    date: row.date.clone(),
                    category,
                    name_en: row.name_en.clone(),
                    name_zh: row.name_zh.clone(),
                    statutory_days: row.statutory_days,
                    source_file,
                };
                let ghost before = out@;
                out.push(record);
                assert(record_views(out@) =~= record_views(before).push(record@));
            },
            None => {},
        }
        i = i + 1;
    }
    assert(list@.take(list@.len() as int) =~= list@);
    out
}

/// Whether `records` are the records of a year, each of them once, by date and
/// category.
pub open spec fn are_year_records(rows: Rows, year: int, records: Seq<RecordView>) -> bool {
    &&& forall|i: int|
        0 <= i < records.len() ==> {
            let key = record_key(#[trigger] records[i]);
            &&& rows.contains_key(key)
            &&& rows[key] == record_value(records[i])
            &&& year_part(key.0) == year_text(year)
        }
    &&& forall|key: (Seq<char>, Seq<char>)| #[trigger]
        rows.contains_key(key) && year_part(key.0) == year_text(year) && category_named(
            key.1,
        ) is Some ==> exists|i: int|
            0 <= i < records.len() && record_key(#[trigger] records[i]) == key
    &&& forall|i: int, j: int|
        0 <= i < j < records.len() ==> key_less(
            record_key(#[trigger] records[i]),
            record_key(#[trigger] records[j]),
        )
}

/// Each record comes from a row.
proof fn lemma_decoded_from(list: Seq<YearRow>, i: int) -> (k: int)
    requires
        0 <= i < decoded(list).len(),
    ensures
        0 <= k < list.len(),
        row_record(list[k]) == Some(decoded(list)[i]),
    decreases list.len(),
{
    let rest = list.drop_last();
    if i < decoded(rest).len() {
        lemma_decoded_from(rest, i)
    } else {
        list.len() - 1
    }
}

/// Each row that says a record gives one.
proof fn lemma_decoded_has(list: Seq<YearRow>, k: int) -> (i: int)
    requires
        0 <= k < list.len(),
        row_record(list[k]) is Some,
    ensures
        0 <= i < decoded(list).len(),
        decoded(list)[i] == row_record(list[k])->0,
    decreases list.len(),
{
    let rest = list.drop_last();
    if k < rest.len() {
        lemma_decoded_has(rest, k)
    } else {
        decoded(list).len() - 1
    }
}

pub open spec fn rows_ascend(list: Seq<YearRow>) -> bool {
    forall|i: int, j: int|
        0 <= i < j < list.len() ==> key_less(
            year_row_key(#[trigger] list[i]),
            year_row_key(#[trigger] list[j]),
        )
}

/// The records stand in the order of the rows.
proof fn lemma_decoded_ascends(list: Seq<YearRow>, i: int, j: int)
    requires
        rows_ascend(list),
        0 <= i < j < decoded(list).len(),
    ensures
        key_less(record_key(decoded(list)[i]), record_key(decoded(list)[j])),
    decreases list.len(),
{
    let rest = list.drop_last();
    assert(rows_ascend(rest));
    if j < decoded(rest).len() {
        lemma_decoded_ascends(rest, i, j);
    } else {
        let k = lemma_decoded_from(rest, i);
        assert(rest[k] == list[k]);
        lemma_row_key(list[k]);
        lemma_row_key(list.last());
        assert(key_less(year_row_key(list[k]), year_row_key(list[list.len() - 1])));
    }
}

/// The record that a row says has the key of the row.
proof fn lemma_row_key(row: YearRow)
    ensures
        row_record(row) matches Some(record) ==> record_key(record) == year_row_key(row)
            && record_value(record) == year_row_value(row),
{
    law_category_round_trips(Category::Holiday, row.category@);
}

/// The rows of a year say the records of the year.
proof fn lemma_rows_give_records(rows: Rows, year: int, list: Seq<YearRow>)
    requires
        are_year_rows(rows, year_text(year), list),
    ensures
        are_year_records(rows, year, decoded(list)),
{
    let records = decoded(list);
    assert forall|i: int| 0 <= i < records.len() implies {
        let key = record_key(#[trigger] records[i]);
        &&& rows.contains_key(key)
        &&& rows[key] == record_value(records[i])
        &&& year_part(key.0) == year_text(year)
    } by {
        let k = lemma_decoded_from(list, i);
        lemma_row_key(list[k]);
    }
    assert forall|key: (Seq<char>, Seq<char>)| #[trigger]
        rows.contains_key(key) && year_part(key.0) == year_text(year) && category_named(
            key.1,
        ) is Some implies exists|i: int|
        0 <= i < records.len() && record_key(#[trigger] records[i]) == key by {
        let k = choose|k: int| 0 <= k < list.len() && year_row_key(#[trigger] list[k]) == key;
        lemma_row_key(list[k]);
        let i = lemma_decoded_has(list, k);
        assert(record_key(records[i]) == key);
    }
    assert forall|i: int, j: int| 0 <= i < j < records.len() implies key_less(
        record_key(#[trigger] records[i]),
        record_key(#[trigger] records[j]),
    ) by {
        lemma_decoded_ascends(list, i, j);
    }
}

impl Store {
    /// All records of a year, by date and category.
    pub fn year_records(&self, year: i32) -> (r: Result<Vec<Record>, StoreError>)
        ensures
            r matches Ok(records) ==> exists|list: Seq<YearRow>|
                record_views(records@) == #[trigger] decoded(list),
            self.sole() ==> (r matches Ok(records) ==> are_year_records(
                self@.rows,
                year as int,
                record_views(records@),
            )),
            r matches Err(e) ==> e is Sql,
    {
        match sqlite::select_year(&self.db.conn, written_year(year).as_str()) {
            Ok(list) => {
                proof {
                    if self.sole() {
                        lemma_rows_give_records(self@.rows, year as int, list@);
                    }
                }
                Ok(decode(&list))
            },
            Err(e) => Err(StoreError::Sql(e)),
        }
    }
}

// ---------------------------------------------------------------- overviews

/// The years that texts name, in order. A text that names no year is left out.
pub open spec fn years_named(parts: Seq<Seq<char>>) -> Seq<i32>
    decreases parts.len(),
{
    if parts.len() == 0 {
        Seq::empty()
    } else {
        let before = years_named(parts.drop_last());
        match parse_integer_32(parts.last()) {
            Some(year) => before.push(year),
            None => before,
        }
    }
}

/// The years that texts name, in order.
pub fn parse_years(list: &Vec<String>) -> (r: Vec<i32>)
    ensures
        r@ == years_named(texts(list@)),
{
    let mut out: Vec<i32> = Vec::new();
    let mut i: usize = 0;
    assert(texts(list@).take(0) =~= Seq::<Seq<char>>::empty());
    while i < list.len()
        invariant
            i <= list@.len(),
            out@ == years_named(texts(list@).take(i as int)),
        decreases list@.len() - i,
    {
        let ghost part = texts(list@).take(i + 1);
        assert(part.drop_last() =~= texts(list@).take(i as int));
        assert(part.last() == list@[i as int]@);
        match parse_i32(list[i].as_str()) {
            Some(year) => {
                out.push(year);
            },
            None => {},
        }
        i = i + 1;
    }
    assert(texts(list@).take(list@.len() as int) =~= texts(list@));
    out
}

/// Whether `years` are the years that the rows' dates name, in order.
pub open spec fn are_years(rows: Rows, years: Seq<i32>) -> bool {
    exists|parts: Seq<Seq<char>>| #[trigger]
        are_year_parts(rows, parts) && years == years_named(parts)
}

/// An overview of the store.
#[derive(Debug, Clone)]
pub struct StoreStats {
    /// The number of records.
    pub total: usize,
    /// The number of different dates.
    pub distinct_dates: usize,
    /// The years with data, ascending.
    pub years: Vec<i32>,
    pub holiday: usize,
    pub workday: usize,
    pub in_lieu: usize,
}

/// Whether `stats` is the overview of a store with these rows.
pub open spec fn are_stats(rows: Rows, stats: StoreStats) -> bool {
    &&& rows.dom().finite()
    &&& stats.total == rows.dom().len() as usize
    &&& stats.distinct_dates == dates_of(rows).len() as usize
    &&& are_years(rows, stats.years@)
    &&& stats.holiday == keys_of_category(rows, category_text(Category::Holiday)).len() as usize
    &&& stats.workday == keys_of_category(rows, category_text(Category::Workday)).len() as usize
    &&& stats.in_lieu == keys_of_category(rows, category_text(Category::InLieu)).len() as usize
}

/// How many records a file or a whole import wrote.
#[derive(Debug, Clone, Copy)]
pub struct WriteOutcome {
    pub inserted: usize,
    pub updated: usize,
}

impl Default for WriteOutcome {
    /// Nothing was written.
    fn default() -> (r: Self)
        ensures
            r.inserted == 0,
            r.updated == 0,
    {
        WriteOutcome { inserted: 0, updated: 0 }
    }
}

impl WriteOutcome {
    /// All records that were written.
    pub fn total(&self) -> (r: usize)
        requires
            self.inserted + self.updated <= usize::MAX,
        ensures
            r == self.inserted + self.updated,
    {
        self.inserted + self.updated
    }
}

impl Store {
    /// The years with data, ascending.
    pub fn available_years(&self) -> (r: Result<Vec<i32>, StoreError>)
        ensures
            r matches Ok(years) ==> exists|parts: Seq<Seq<char>>|
                years@ == #[trigger] years_named(parts),
            self.sole() ==> (r matches Ok(years) ==> are_years(self@.rows, years@)),
            r matches Err(e) ==> e is Sql,
    {
        match sqlite::select_years(&self.db.conn) {
            Ok(list) => Ok(parse_years(&list)),
            Err(e) => Err(StoreError::Sql(e)),
        }
    }

    /// The number of records of a category.
    fn count(&self, category: Category) -> (r: Result<usize, StoreError>)
        ensures
            self.sole() ==> (r matches Ok(n) ==> n == keys_of_category(
                self@.rows,
                category_text(category),
            ).len() as usize),
            r matches Err(e) ==> e is Sql,
    {
        match sqlite::count_category(&self.db.conn, category.as_str()) {
            Ok(n) => Ok(n as usize),
            Err(e) => Err(StoreError::Sql(e)),
        }
    }

    /// An overview of the store.
    pub fn stats(&self) -> (r: Result<StoreStats, StoreError>)
        ensures
            r matches Ok(stats) ==> exists|parts: Seq<Seq<char>>|
                stats.years@ == #[trigger] years_named(parts),
            self.sole() ==> (r matches Ok(stats) ==> are_stats(self@.rows, stats)),
            r matches Err(e) ==> e is Sql,
    {
        let total: i64 = match sqlite::count_rows(&self.db.conn) {
            Ok(n) => n,
            Err(e) => {
                return Err(StoreError::Sql(e));
            },
        };
        let distinct_dates: i64 = match sqlite::count_dates(&self.db.conn) {
            Ok(n) => n,
            Err(e) => {
                return Err(StoreError::Sql(e));
            },
        };
        let years: Vec<i32> = self.available_years()?;
        let holiday: usize = self.count(Category::Holiday)?;
        let workday: usize = self.count(Category::Workday)?;
        let in_lieu: usize = self.count(Category::InLieu)?;
        Ok(
            StoreStats {
                total: total as usize,
                distinct_dates: distinct_dates as usize,
                years,
                holiday,
                workday,
                in_lieu,
            },
        )
    }

    /// The files that were taken in: the name, the time and the number of records
    /// of each, by name.
    pub fn import_log(&self) -> (r: Result<Vec<(String, String, i64)>, StoreError>)
        ensures
            self.sole() ==> (r matches Ok(list) ==> are_log_rows(self@.log, list@)),
            r matches Err(e) ==> e is Sql,
    {
        match sqlite::select_log(&self.db.conn) {
            Ok(list) => Ok(list),
            Err(e) => Err(StoreError::Sql(e)),
        }
    }
}

} // verus!
