//! What the store keeps and tells, in terms of the rows of its tables.

use vstd::prelude::*;

use crate::db::{
    decode, parse_years, record_import, upsert, written_year, Database, Store, StoreError,
    StoreStats, WriteOutcome,
};
use crate::importer::ImportReport;
use crate::laws::answers::says_row;
use crate::laws::imports::written_category;
use crate::laws::texts::{writes_digits, writes_number};
use crate::laws::{has_record_of, law_year_listing, law_years_are_those_with_records, well_kept};
use crate::model::{
    lemma_category_texts_differ, normal_date, record_views, Category, Entry, Record, YearFile,
};
use crate::record_map::{keys_ascend, law_entry_replaces_its_key_only, RecordMap};
use crate::sqlite::{texts, LogValue, YearRow};

verus! {

// ---------------------------------------------------------------- writing

/// A record is written to the row of its date and category, and to no other; it is
/// new where there was no such row.
#[verifier::spinoff_prover]
pub proof fn law_records_are_written_right(record: &Record, r: Result<bool, StoreError>)
    ensures
        forall|tx: &mut Database| #[trigger]
            call_ensures(upsert, (tx, record), r) && tx.sole() ==> (r matches Ok(new) ==> {
                let key = (record.date@, written_category(record.category));
                &&& new <==> !tx@.rows.contains_key(key)
                &&& final(tx)@.rows.contains_key(key)
                &&& says_row(*record, key.0, final(tx)@.rows[key])
                &&& forall|other: (Seq<char>, Seq<char>)|
                    other != key ==> #[trigger] final(tx)@.rows.contains_key(other)
                        == tx@.rows.contains_key(other)
                &&& forall|other: (Seq<char>, Seq<char>)|
                    other != key && tx@.rows.contains_key(other)
                        ==> #[trigger] final(tx)@.rows[other] == tx@.rows[other]
                &&& final(tx)@.log == tx@.log
            }),
{
}

/// Taking a file in is noted with the number of its records; what was noted of other
/// files stays, and so do the rows.
#[verifier::spinoff_prover]
pub proof fn law_imports_are_noted_right(name: &str, count: i64, r: Result<(), StoreError>)
    ensures
        forall|tx: &mut Database| #[trigger]
            call_ensures(record_import, (tx, name, count), r) && tx.sole() && r is Ok ==> {
                &&& final(tx)@.log.contains_key(name@)
                &&& final(tx)@.log[name@].record_count == count
                &&& forall|other: Seq<char>|
                    other != name@ ==> #[trigger] final(tx)@.log.contains_key(other)
                        == tx@.log.contains_key(other)
                &&& forall|other: Seq<char>|
                    other != name@ && tx@.log.contains_key(other)
                        ==> #[trigger] final(tx)@.log[other] == tx@.log[other]
                &&& final(tx)@.rows == tx@.rows
            },
{
}

/// What failed in a transaction leaves no trace, and no transaction open.
#[verifier::spinoff_prover]
pub proof fn law_failed_transactions_leave_no_trace<
    T,
    F: FnOnce(&mut Database) -> Result<T, StoreError>,
>(f: F, r: Result<T, StoreError>)
    ensures
        forall|store: &mut Store| #[trigger]
            call_ensures(Store::with_transaction::<T, F>, (store, f), r) && store.sole()
                && r is Err ==> final(store)@ == store@ && final(store).sole()
                && final(store).settled() == store.settled(),
{
}

/// What was done in a transaction that succeeded is kept: it started from what the
/// store held, and the store holds what it left.
#[verifier::spinoff_prover]
pub proof fn law_finished_transactions_are_kept<
    T,
    F: FnOnce(&mut Database) -> Result<T, StoreError>,
>(f: F, r: Result<T, StoreError>)
    ensures
        forall|store: &mut Store| #[trigger]
            call_ensures(Store::with_transaction::<T, F>, (store, f), r) && store.sole() ==> (
            r matches Ok(v) ==> exists|db: &mut Database| #[trigger]
                call_ensures(f, (db,), Ok::<T, StoreError>(v)) && db@ == store@ && final(store)@
                    == final(db)@),
{
}

/// A store that is opened on a database finds what is there.
#[verifier::spinoff_prover]
pub proof fn law_opened_stores_find_what_is_there(
    conn: rusqlite::Connection,
    r: Result<Store, StoreError>,
)
    requires
        crate::sqlite::sole(conn),
        call_ensures(Store::from_conn, (conn,), r),
    ensures
        r matches Ok(store) ==> {
            &&& store.sole()
            &&& store@.rows == crate::sqlite::tables_of(conn).rows
            &&& store@.log == crate::sqlite::tables_of(conn).log
            &&& store@.made
        },
{
}

/// A new store has no rows.
#[verifier::spinoff_prover]
pub proof fn law_new_stores_are_empty(r: Result<Store, StoreError>)
    requires
        call_ensures(Store::open_in_memory, (), r),
    ensures
        r matches Ok(store) ==> {
            &&& forall|key: (Seq<char>, Seq<char>)| !#[trigger] store@.rows.contains_key(key)
            &&& forall|file: Seq<char>| !#[trigger] store@.log.contains_key(file)
        },
{
}

// ---------------------------------------------------------------- reading

/// Whether a row of the table is told of by one of the records.
pub open spec fn tells_of(records: Seq<Record>, date: Seq<char>, category: Category) -> bool {
    exists|i: int|
        0 <= i < records.len() && (#[trigger] records[i]).date@ == date && records[i].category
            == category
}

/// The records of a year are its rows: each of them once, by date and then by
/// category, with what the row says.
#[verifier::spinoff_prover]
pub proof fn law_the_records_of_a_year_are_its_rows(
    store: &Store,
    year: i32,
    r: Result<Vec<Record>, StoreError>,
)
    requires
        store.sole(),
        well_kept(store@.rows),
        0 <= year <= 9999,
        call_ensures(Store::year_records, (store, year), r),
    ensures
        r matches Ok(records) ==> {
            &&& forall|i: int|
                0 <= i < records@.len() ==> {
                    let record = #[trigger] records@[i];
                    let key = (record.date@, written_category(record.category));
                    &&& store@.rows.contains_key(key)
                    &&& says_row(record, key.0, store@.rows[key])
                    &&& (normal_date(record.date@) matches Some(day) && day.year == year)
                }
            &&& forall|date: Seq<char>, category: Category| #[trigger]
                store@.rows.contains_key((date, written_category(category))) && normal_date(
                    date,
                )->0.year == year ==> tells_of(records@, date, category)
            &&& forall|i: int, j: int|
                0 <= i < j < records@.len() ==> {
                    let a = #[trigger] records@[i];
                    let b = #[trigger] records@[j];
                    ||| crate::text::text_less(a.date@, b.date@)
                    ||| a.date@ == b.date@ && crate::text::text_less(
                        written_category(a.category),
                        written_category(b.category),
                    )
                }
        },
{
    if let Ok(records) = r {
        let rows = store@.rows;
        let views = record_views(records@);
        lemma_category_texts_differ();
        law_year_listing(rows, year as int, views);
        assert(forall|i: int| 0 <= i < records@.len() ==> #[trigger] views[i] == records@[i]@);
        assert forall|i: int| 0 <= i < records@.len() implies {
            let record = #[trigger] records@[i];
            let key = (record.date@, written_category(record.category));
            &&& rows.contains_key(key)
            &&& says_row(record, key.0, rows[key])
            &&& (normal_date(record.date@) matches Some(day) && day.year == year)
        } by {
            assert(views[i] == records@[i]@);
            assert(rows.contains_key(crate::db::record_key(views[i])));
        }
        assert forall|date: Seq<char>, category: Category| #[trigger]
            rows.contains_key((date, written_category(category))) && normal_date(date)->0.year
                == year implies tells_of(records@, date, category) by {
            let key = (date, written_category(category));
            assert(crate::model::category_named(key.1) == Some(category));
            let i = choose|i: int|
                0 <= i < views.len() && crate::db::record_key(#[trigger] views[i]) == key;
            assert(views[i] == records@[i]@);
            assert(records@[i].date@ == date);
        }
        assert forall|i: int, j: int| 0 <= i < j < records@.len() implies {
            let a = #[trigger] records@[i];
            let b = #[trigger] records@[j];
            ||| crate::text::text_less(a.date@, b.date@)
            ||| a.date@ == b.date@ && crate::text::text_less(
                written_category(a.category),
                written_category(b.category),
            )
        } by {
            assert(views[i] == records@[i]@ && views[j] == records@[j]@);
        }
    }
}

/// The overview counts the rows, the dates, and the rows of each category.
#[verifier::spinoff_prover]
pub proof fn law_rows_are_counted_right(store: &Store, r: Result<StoreStats, StoreError>)
    requires
        store.sole(),
        well_kept(store@.rows),
        call_ensures(Store::stats, (store,), r),
    ensures
        r matches Ok(stats) ==> {
            let keys = store@.rows.dom();
            &&& stats.total == keys.len() as usize
            &&& stats.distinct_dates == keys.map(
                |key: (Seq<char>, Seq<char>)| key.0,
            ).len() as usize
            &&& stats.holiday == keys.filter(
                |key: (Seq<char>, Seq<char>)| key.1 == "holiday"@,
            ).len() as usize
            &&& stats.workday == keys.filter(
                |key: (Seq<char>, Seq<char>)| key.1 == "workday"@,
            ).len() as usize
            &&& stats.in_lieu == keys.filter(
                |key: (Seq<char>, Seq<char>)| key.1 == "in_lieu"@,
            ).len() as usize
            &&& forall|i: int, j: int|
                0 <= i < j < stats.years@.len() ==> stats.years@[i] < stats.years@[j]
            &&& forall|y: i32| #[trigger]
                stats.years@.contains(y) == has_record_of(store@.rows, y as int)
        },
{
    if let Ok(stats) = r {
        let rows = store@.rows;
        law_years_are_those_with_records(rows, stats.years@);
        let keys = rows.dom();
        assert(crate::sqlite::dates_of(rows) =~= keys.map(|key: (Seq<char>, Seq<char>)| key.0));
        assert(crate::sqlite::keys_of_category(rows, "holiday"@) =~= keys.filter(
            |key: (Seq<char>, Seq<char>)| key.1 == "holiday"@,
        ));
        assert(crate::sqlite::keys_of_category(rows, "workday"@) =~= keys.filter(
            |key: (Seq<char>, Seq<char>)| key.1 == "workday"@,
        ));
        assert(crate::sqlite::keys_of_category(rows, "in_lieu"@) =~= keys.filter(
            |key: (Seq<char>, Seq<char>)| key.1 == "in_lieu"@,
        ));
    }
}

/// The years of the store are those that it has records of, ascending.
#[verifier::spinoff_prover]
pub proof fn law_the_years_of_the_store_are_right(store: &Store, r: Result<Vec<i32>, StoreError>)
    requires
        store.sole(),
        well_kept(store@.rows),
        call_ensures(Store::available_years, (store,), r),
    ensures
        r matches Ok(years) ==> {
            &&& forall|i: int, j: int|
                0 <= i < j < years@.len() ==> years@[i] < years@[j]
            &&& forall|y: i32| #[trigger]
                years@.contains(y) == has_record_of(store@.rows, y as int)
        },
{
    if let Ok(years) = r {
        law_years_are_those_with_records(store@.rows, years@);
    }
}

/// Whether an entry of a list says what was noted of a file.
pub open spec fn says_noted(
    entry: (String, String, i64),
    file: Seq<char>,
    noted: LogValue,
) -> bool {
    entry.0@ == file && entry.1@ == noted.imported_at && entry.2 == noted.record_count
}

/// The files that were taken in are listed, each of them once, by name, with what
/// was noted of them.
#[verifier::spinoff_prover]
pub proof fn law_the_log_is_listed_right(
    store: &Store,
    r: Result<Vec<(String, String, i64)>, StoreError>,
)
    requires
        store.sole(),
        call_ensures(Store::import_log, (store,), r),
    ensures
        r matches Ok(list) ==> {
            let log = store@.log;
            &&& forall|file: Seq<char>| #[trigger]
                log.contains_key(file) ==> exists|i: int|
                    0 <= i < list@.len() && says_noted(#[trigger] list@[i], file, log[file])
            &&& forall|i: int|
                0 <= i < list@.len() ==> {
                    let file = (#[trigger] list@[i]).0@;
                    log.contains_key(file) && says_noted(list@[i], file, log[file])
                }
            &&& forall|i: int, j: int|
                0 <= i < j < list@.len() ==> crate::text::text_less(
                    (#[trigger] list@[i]).0@,
                    (#[trigger] list@[j]).0@,
                )
        },
{
    if let Ok(list) = r {
        let log = store@.log;
        assert forall|file: Seq<char>| #[trigger] log.contains_key(file) implies exists|i: int|
            0 <= i < list@.len() && says_noted(#[trigger] list@[i], file, log[file]) by {
            let i = choose|i: int| 0 <= i < list@.len() && (#[trigger] list@[i]).0@ == file;
            assert(says_noted(list@[i], file, log[file]));
        }
    }
}

/// Whether a record says what a row that was read says.
pub open spec fn says_read(record: Record, row: YearRow) -> bool {
    &&& record.date@ == row.date@
    &&& written_category(record.category) == row.category@
    &&& record.name_en@ == row.name_en@
    &&& record.name_zh@ == row.name_zh@
    &&& record.statutory_days == row.statutory_days
    &&& (record.source_file is Some <==> row.source_file is Some)
    &&& (record.source_file matches Some(f) ==> f@ == row.source_file->0@)
}

/// Whether a row names a category that is known.
pub open spec fn is_known(row: YearRow) -> bool {
    row.category@ == "holiday"@ || row.category@ == "workday"@ || row.category@ == "in_lieu"@
}

/// A row that was read is turned into a record that says the same, behind those of
/// the rows before it; a row of no known category is left out.
#[verifier::spinoff_prover]
pub proof fn law_rows_are_decoded_right(
    list: &Vec<YearRow>,
    before: &Vec<YearRow>,
    r: Vec<Record>,
    done: Vec<Record>,
)
    requires
        list@.len() > 0,
        before@ == list@.drop_last(),
        call_ensures(decode, (list,), r),
        call_ensures(decode, (before,), done),
    ensures
        is_known(list@.last()) ==> r@.len() == done@.len() + 1 && says_read(
            r@.last(),
            list@.last(),
        ),
        !is_known(list@.last()) ==> r@.len() == done@.len(),
        forall|i: int| 0 <= i < done@.len() ==> (#[trigger] r@[i])@ == done@[i]@,
{
    lemma_category_texts_differ();
    let all = record_views(r@);
    let some = record_views(done@);
    assert(all.len() == r@.len() && some.len() == done@.len());
    assert forall|i: int| 0 <= i < done@.len() implies (#[trigger] r@[i])@ == done@[i]@ by {
        assert(all[i] == r@[i]@ && some[i] == done@[i]@);
    }
    if is_known(list@.last()) {
        assert(all[r@.len() - 1] == r@.last()@);
    }
}

/// No rows give no records.
#[verifier::spinoff_prover]
pub proof fn law_no_rows_give_no_records(list: &Vec<YearRow>, r: Vec<Record>)
    requires
        list@.len() == 0,
        call_ensures(decode, (list,), r),
    ensures
        r@.len() == 0,
{
    assert(record_views(r@).len() == r@.len());
}

/// A text that writes a year gives it, behind those of the texts before it; another
/// text is left out.
#[verifier::spinoff_prover]
pub proof fn law_years_are_gathered_right(
    list: &Vec<String>,
    before: &Vec<String>,
    r: Vec<i32>,
    done: Vec<i32>,
    year: i32,
)
    requires
        list@.len() > 0,
        before@ == list@.drop_last(),
        call_ensures(parse_years, (list,), r),
        call_ensures(parse_years, (before,), done),
    ensures
        writes_number(list@.last()@, year as int) ==> r@ == done@.push(year),
        (forall|other: i32| !#[trigger] writes_number(list@.last()@, other as int)) ==> r@
            == done@,
{
    let text = list@.last()@;
    assert(texts(list@).drop_last() =~= texts(before@));
    assert(texts(list@).last() == text);
    crate::laws::texts::lemma_number_read(text, year as int);
    if let Some(other) = crate::text::parse_integer_32(text) {
        crate::laws::texts::lemma_number_read(text, other as int);
    }
}

/// A year of four digits or fewer is written in four.
#[verifier::spinoff_prover]
pub proof fn law_years_are_written_in_four_digits(year: i32, r: String)
    requires
        call_ensures(written_year, (year,), r),
    ensures
        0 <= year <= 9999 ==> r@.len() == 4 && writes_digits(r@, year as int),
        year < 0 || year > 9999 ==> r@ == crate::text::integer_text(year as int),
{
    if 0 <= year <= 9999 {
        crate::calendar::law_written_day_reads_back(year as int, 1, 1);
        let s = crate::calendar::date_text(year as int, 1, 1);
        assert(s.subrange(0, 4) =~= r@);
        crate::laws::texts::lemma_read_digits(r@);
        assert(forall|i: int| 0 <= i < 4 ==> crate::text::is_digit(#[trigger] s[i]));
        assert forall|i: int| 0 <= i < 4 implies '0' <= #[trigger] r@[i] <= '9' by {
            assert(r@[i] == s[i]);
            assert(crate::text::is_digit(s[i]));
        }
    }
}

// ---------------------------------------------------------------- errors

/// An error says what went wrong, and where it happened in a step of its own, the
/// step first.
#[verifier::spinoff_prover]
pub proof fn law_errors_say_what_went_wrong(e: StoreError, short: String, full: String)
    requires
        call_ensures(StoreError::message, (&e,), short),
        call_ensures(StoreError::full_message, (e,), full),
    ensures
        match e {
            StoreError::Given(reason) => short@ == reason@ && full@ == reason@,
            StoreError::Setup(step, cause) => short@ == step@ && full@ == step@ + ": "@
                + crate::sqlite::sql_error_chain(cause),
            StoreError::Sql(cause) => short@ == crate::sqlite::sql_error_text(cause) && full@
                == crate::sqlite::sql_error_chain(cause),
        },
{
}

// ---------------------------------------------------------------- collections

/// Whether a collection has a value under a key.
pub open spec fn gives(map: RecordMap, key: Seq<char>, value: Seq<char>) -> bool {
    map@.contains((key, value))
}

/// A value that is put under a key is found there, in place of the one before, and
/// what stands under other keys stays.
#[verifier::spinoff_prover]
pub proof fn law_entries_are_kept_right(key: String, value: String)
    ensures
        forall|map: &mut RecordMap, k: Seq<char>, v: Seq<char>|
            #![trigger call_ensures(RecordMap::insert, (map, key, value), ()), gives(*final(map), k, v)]
            call_ensures(RecordMap::insert, (map, key, value), ()) && keys_ascend(map@) ==> gives(
                *final(map),
                k,
                v,
            ) == (if k == key@ {
                v == value@
            } else {
                gives(*map, k, v)
            }),
{
    assert forall|map: &mut RecordMap, k: Seq<char>, v: Seq<char>|
        #![trigger call_ensures(RecordMap::insert, (map, key, value), ()), gives(*final(map), k, v)]
        call_ensures(RecordMap::insert, (map, key, value), ()) && keys_ascend(
            map@,
        ) implies gives(*final(map), k, v) == (if k == key@ {
        v == value@
    } else {
        gives(*map, k, v)
    }) by {
        law_entry_replaces_its_key_only(map@, key@, value@, (k, v));
    }
}

/// The entries of a collection are handed out one by one, and counted.
#[verifier::spinoff_prover]
pub proof fn law_entries_are_handed_out(
    map: &RecordMap,
    i: usize,
    entry: (&str, &str),
    n: usize,
    empty: bool,
)
    requires
        i < map@.len(),
        call_ensures(RecordMap::entry, (map, i), entry),
        call_ensures(RecordMap::len, (map,), n),
        call_ensures(RecordMap::is_empty, (map,), empty),
    ensures
        gives(*map, entry.0@, entry.1@),
        n == map@.len(),
        !empty,
        forall|other: (&str, &str), j: usize|
            j < map@.len() && #[trigger] call_ensures(RecordMap::entry, (map, j), other) && j < i
                ==> crate::text::text_less(other.0@, entry.0@),
{
    assert(map@[i as int] == (entry.0@, entry.1@));
}

/// A file has the entries of its three collections, in all as many as these have.
#[verifier::spinoff_prover]
pub proof fn law_files_have_three_collections(
    file: &YearFile,
    parts: [Entry<'_>; 3],
    n: usize,
    empty: bool,
)
    requires
        file@.len() <= usize::MAX,
        call_ensures(YearFile::entries, (file,), parts),
        call_ensures(YearFile::len, (file,), n),
        call_ensures(YearFile::is_empty, (file,), empty),
    ensures
        parts[0].category == Category::Holiday && *parts[0].records == file.holidays,
        parts[1].category == Category::Workday && *parts[1].records == file.workdays,
        parts[2].category == Category::InLieu && *parts[2].records == file.in_lieu_days,
        n == file.holidays@.len() + file.workdays@.len() + file.in_lieu_days@.len(),
        empty <==> n == 0,
{
}

// ---------------------------------------------------------------- reports

/// Before anything is taken in, there is nothing to report, and a new file is empty.
#[verifier::spinoff_prover]
pub proof fn law_nothing_is_reported_at_first(
    outcome: WriteOutcome,
    report: ImportReport,
    file: YearFile,
    map: RecordMap,
)
    requires
        call_ensures(<WriteOutcome as Default>::default, (), outcome),
        call_ensures(<ImportReport as Default>::default, (), report),
        call_ensures(YearFile::new, (), file),
        call_ensures(RecordMap::new, (), map),
    ensures
        outcome.inserted == 0 && outcome.updated == 0,
        report.files@.len() == 0 && report.failures@.len() == 0 && report.invalid == 0,
        report.outcome.inserted == 0 && report.outcome.updated == 0,
        file.holidays@.len() == 0 && file.workdays@.len() == 0 && file.in_lieu_days@.len() == 0,
        map@.len() == 0,
{
}

/// What was written is what was new and what replaced something.
#[verifier::spinoff_prover]
pub proof fn law_what_was_written_adds_up(outcome: &WriteOutcome, n: usize)
    requires
        outcome.inserted + outcome.updated <= usize::MAX,
        call_ensures(WriteOutcome::total, (outcome,), n),
    ensures
        n == outcome.inserted + outcome.updated,
{
}

/// There is something to look after where a file failed or an entry was left out.
#[verifier::spinoff_prover]
pub proof fn law_problems_are_told(report: &ImportReport, r: bool)
    requires
        call_ensures(ImportReport::has_problems, (report,), r),
    ensures
        !r <==> report.failures@.len() == 0 && report.invalid == 0,
{
}

} // verus!
