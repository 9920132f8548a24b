//! What importing writes and reports, in terms of the entries of the files.

use vstd::prelude::*;

use crate::db::{record_key, record_value, store_error_chain, Store, StoreError};
use crate::importer::{
    asked_for, by_name, complaint_of, complaints_of, counts_after, data_files, entries_of,
    import_dir, import_file, imported, inserted_sum, invalid_sum, is_data_name, is_reason,
    is_wanted, law_by_name_sorts, listed, log_counts, name_year, names_ascend, new_count, record_of,
    records_of, reports_failures, reports_files, rows_after, updated_sum, wanted_files, written,
    years_of, Contents, FileReport, ImportReport,
};
use crate::laws::answers::{parts_of, positions};
use crate::laws::law_last_record_stays;
use crate::model::{
    date_complaint, lemma_category_texts_differ, normal_date, tagged, value_meaning, Category,
    RawEntry, RecordView, YearFile,
};
use crate::sqlite::{texts, RowValue, Rows, Tables};
use crate::text::{parse_integer, text_at_most};

verus! {

// ---------------------------------------------------------------- entries

/// Whether an entry has a date that exists and a value that can be read.
pub open spec fn is_valid(entry: RawEntry) -> bool {
    normal_date(entry.date) is Some && value_meaning(entry.value) is Ok
}

/// How the database writes a category.
pub open spec fn written_category(category: Category) -> Seq<char> {
    match category {
        Category::Holiday => "holiday"@,
        Category::Workday => "workday"@,
        Category::InLieu => "in_lieu"@,
    }
}

/// Whether an entry is about this date and category.
pub open spec fn is_about(entry: RawEntry, key: (Seq<char>, Seq<char>)) -> bool {
    &&& is_valid(entry)
    &&& normal_date(entry.date)->0.written() == key.0
    &&& written_category(entry.category) == key.1
}

/// Whether a row holds what the value of an entry says, and the file it came from.
pub open spec fn holds_entry(row: RowValue, entry: RawEntry, file: Seq<char>) -> bool {
    &&& value_meaning(entry.value) matches Ok(value)
    &&& row.name_en == value.name_en
    &&& row.name_zh == value.name_zh
    &&& row.statutory_days == value.statutory_days
    &&& row.source_file == Some(file)
}

/// Whether a position holds the last of the entries about this date and category.
pub open spec fn is_last_about(
    entries: Seq<RawEntry>,
    i: int,
    key: (Seq<char>, Seq<char>),
) -> bool {
    &&& 0 <= i < entries.len()
    &&& is_about(entries[i], key)
    &&& forall|j: int| i < j < entries.len() ==> !is_about(#[trigger] entries[j], key)
}

/// Whether no entry is about this date and category.
pub open spec fn none_about(entries: Seq<RawEntry>, key: (Seq<char>, Seq<char>)) -> bool {
    forall|j: int| 0 <= j < entries.len() ==> !is_about(#[trigger] entries[j], key)
}

/// Whether these are the positions of the valid entries.
pub open spec fn valid_at(entries: Seq<RawEntry>, at: Seq<int>) -> bool {
    &&& positions(at, entries.len() as int)
    &&& forall|i: int|
        0 <= i < entries.len() ==> #[trigger] at.contains(i) == is_valid(entries[i])
}

/// Whether these are the positions of the entries that are not valid.
pub open spec fn invalid_at(entries: Seq<RawEntry>, at: Seq<int>) -> bool {
    &&& positions(at, entries.len() as int)
    &&& forall|i: int|
        0 <= i < entries.len() ==> #[trigger] at.contains(i) == !is_valid(entries[i])
}

/// Positions stay what they are when one more is added behind them.
#[verifier::spinoff_prover]
proof fn lemma_one_more(at: Seq<int>, n: int, added: bool) -> (all: Seq<int>)
    requires
        n >= 0,
        positions(at, n),
    ensures
        all == (if added {
            at.push(n)
        } else {
            at
        }),
        positions(all, n + 1),
        forall|i: int| 0 <= i < n ==> #[trigger] all.contains(i) == at.contains(i),
        all.contains(n) == added,
{
    let all = if added {
        at.push(n)
    } else {
        at
    };
    assert forall|i: int| 0 <= i < n implies #[trigger] all.contains(i) == at.contains(i) by {
        if at.contains(i) {
            let k = choose|k: int| 0 <= k < at.len() && at[k] == i;
            assert(all[k] == i);
        }
        if all.contains(i) {
            let k = choose|k: int| 0 <= k < all.len() && all[k] == i;
            assert(at[k] == i);
        }
    }
    if added {
        assert(all[at.len() as int] == n);
    }
    all
}

/// Which entries give the records.
#[verifier::spinoff_prover]
proof fn lemma_valid_at(entries: Seq<RawEntry>, file: Seq<char>) -> (at: Seq<int>)
    ensures
        valid_at(entries, at),
        at.len() == records_of(entries, file).len(),
        forall|k: int|
            0 <= k < at.len() ==> records_of(entries, file)[k] == record_of(
                entries[#[trigger] at[k]],
                file,
            ),
    decreases entries.len(),
{
    if entries.len() == 0 {
        Seq::empty()
    } else {
        let n = entries.len() - 1;
        let rest = entries.drop_last();
        let before = lemma_valid_at(rest, file);
        let good = is_valid(entries[n]);
        assert(good == (complaint_of(entries.last()) is None));
        let at = lemma_one_more(before, n, good);
        assert forall|i: int| 0 <= i < entries.len() implies #[trigger] at.contains(i) == is_valid(
            entries[i],
        ) by {
            if i < n {
                assert(rest[i] == entries[i]);
                assert(before.contains(i) == is_valid(rest[i]));
            }
        }
        assert forall|k: int| 0 <= k < at.len() implies records_of(entries, file)[k] == record_of(
            entries[#[trigger] at[k]],
            file,
        ) by {
            if k < before.len() {
                assert(at[k] == before[k]);
                assert(rest[before[k]] == entries[at[k]]);
                assert(records_of(entries, file)[k] == records_of(rest, file)[k]);
            }
        }
        at
    }
}

/// Which entries give the complaints.
#[verifier::spinoff_prover]
proof fn lemma_invalid_at(entries: Seq<RawEntry>) -> (at: Seq<int>)
    ensures
        invalid_at(entries, at),
        at.len() == complaints_of(entries).len(),
        forall|k: int|
            0 <= k < at.len() ==> complaint_of(entries[#[trigger] at[k]]) == Some(
                complaints_of(entries)[k],
            ),
    decreases entries.len(),
{
    if entries.len() == 0 {
        Seq::empty()
    } else {
        let n = entries.len() - 1;
        let rest = entries.drop_last();
        let before = lemma_invalid_at(rest);
        let good = is_valid(entries[n]);
        assert(good == (complaint_of(entries.last()) is None));
        let at = lemma_one_more(before, n, !good);
        assert forall|i: int| 0 <= i < entries.len() implies #[trigger] at.contains(i)
            == !is_valid(entries[i]) by {
            if i < n {
                assert(rest[i] == entries[i]);
                assert(before.contains(i) == !is_valid(rest[i]));
            }
        }
        assert forall|k: int| 0 <= k < at.len() implies complaint_of(entries[#[trigger] at[k]])
            == Some(complaints_of(entries)[k]) by {
            if k < before.len() {
                assert(at[k] == before[k]);
                assert(rest[before[k]] == entries[at[k]]);
                assert(complaints_of(entries)[k] == complaints_of(rest)[k]);
            }
        }
        at
    }
}

/// The record of an entry is about the same date and category, and says the same.
#[verifier::spinoff_prover]
proof fn lemma_record_of(entry: RawEntry, file: Seq<char>, key: (Seq<char>, Seq<char>))
    requires
        is_valid(entry),
    ensures
        is_about(entry, key) == (record_key(record_of(entry, file)) == key),
        holds_entry(record_value(record_of(entry, file)), entry, file),
{
    lemma_category_texts_differ();
}

/// Whether the rows are those before, with each date and category holding what the
/// last entry about it says.
pub open spec fn rows_right(
    before: Rows,
    after: Rows,
    entries: Seq<RawEntry>,
    file: Seq<char>,
) -> bool {
    &&& forall|i: int, key: (Seq<char>, Seq<char>)| #[trigger]
        is_last_about(entries, i, key) ==> after.contains_key(key) && holds_entry(
            after[key],
            entries[i],
            file,
        )
    &&& forall|key: (Seq<char>, Seq<char>)| #[trigger]
        none_about(entries, key) ==> after.contains_key(key) == before.contains_key(key) && (
        before.contains_key(key) ==> after[key] == before[key])
}

/// The last entry about a date and category is what stands there.
#[verifier::spinoff_prover]
proof fn lemma_last_about(
    rows: Rows,
    entries: Seq<RawEntry>,
    file: Seq<char>,
    i: int,
    key: (Seq<char>, Seq<char>),
)
    requires
        is_last_about(entries, i, key),
    ensures
        written(rows, records_of(entries, file)).contains_key(key),
        holds_entry(written(rows, records_of(entries, file))[key], entries[i], file),
{
    let records = records_of(entries, file);
    let at = lemma_valid_at(entries, file);
    law_last_record_stays(rows, records);
    assert(at.contains(i));
    let k = choose|k: int| 0 <= k < at.len() && at[k] == i;
    lemma_record_of(entries[i], file, key);
    assert(records[k] == record_of(entries[at[k]], file));
    assert(record_key(records[k]) == key);
    assert forall|m: int| k < m < records.len() implies record_key(#[trigger] records[m])
        != record_key(records[k]) by {
        assert(at[k] < at[m]);
        assert(at.contains(at[m]));
        lemma_record_of(entries[at[m]], file, key);
        assert(records[m] == record_of(entries[at[m]], file));
        assert(!is_about(entries[at[m]], key));
    }
}

/// What no entry is about stays as it was.
#[verifier::spinoff_prover]
proof fn lemma_none_about(
    rows: Rows,
    entries: Seq<RawEntry>,
    file: Seq<char>,
    key: (Seq<char>, Seq<char>),
)
    requires
        none_about(entries, key),
    ensures
        written(rows, records_of(entries, file)).contains_key(key) == rows.contains_key(key),
        rows.contains_key(key) ==> written(rows, records_of(entries, file))[key] == rows[key],
{
    let records = records_of(entries, file);
    let at = lemma_valid_at(entries, file);
    law_last_record_stays(rows, records);
    assert forall|k: int| 0 <= k < records.len() implies record_key(#[trigger] records[k])
        != key by {
        assert(at.contains(at[k]));
        lemma_record_of(entries[at[k]], file, key);
        assert(records[k] == record_of(entries[at[k]], file));
        assert(!is_about(entries[at[k]], key));
    }
    assert(written(rows, records).contains_key(key) == rows.contains_key(key));
}

/// Writing the records of a file writes its entries.
#[verifier::spinoff_prover]
proof fn lemma_rows_right(rows: Rows, entries: Seq<RawEntry>, file: Seq<char>)
    ensures
        rows_right(rows, written(rows, records_of(entries, file)), entries, file),
{
    let after = written(rows, records_of(entries, file));
    assert forall|i: int, key: (Seq<char>, Seq<char>)| #[trigger]
        is_last_about(entries, i, key) implies after.contains_key(key) && holds_entry(
        after[key],
        entries[i],
        file,
    ) by {
        lemma_last_about(rows, entries, file, i, key);
    }
    assert forall|key: (Seq<char>, Seq<char>)| #[trigger] none_about(
        entries,
        key,
    ) implies after.contains_key(key) == rows.contains_key(key) && (rows.contains_key(key)
        ==> after[key] == rows[key]) by {
        lemma_none_about(rows, entries, file, key);
    }
}

/// As many rows are added as records are new.
#[verifier::spinoff_prover]
proof fn lemma_new_rows(rows: Rows, records: Seq<RecordView>)
    requires
        rows.dom().finite(),
    ensures
        written(rows, records).dom().finite(),
        written(rows, records).dom().len() == rows.dom().len() + new_count(rows, records),
    decreases records.len(),
{
    if records.len() > 0 {
        lemma_new_rows(rows, records.drop_last());
        let before = written(rows, records.drop_last());
        let key = record_key(records.last());
        assert(written(rows, records).dom() =~= before.dom().insert(key));
    }
}

/// The years are those of the valid entries.
#[verifier::spinoff_prover]
proof fn lemma_years_of(entries: Seq<RawEntry>, year: i32)
    ensures
        years_of(entries).contains(year) == exists|i: int|
            0 <= i < entries.len() && is_valid(#[trigger] entries[i]) && normal_date(
                entries[i].date,
            )->0.year == year,
    decreases entries.len(),
{
    if entries.len() > 0 {
        let rest = entries.drop_last();
        lemma_years_of(rest, year);
        assert(entries.last() == entries[entries.len() - 1]);
        assert(is_valid(entries.last()) == (complaint_of(entries.last()) is None));
        if years_of(rest).contains(year) {
            let i = choose|i: int|
                0 <= i < rest.len() && is_valid(#[trigger] rest[i]) && normal_date(
                    rest[i].date,
                )->0.year == year;
            assert(entries[i] == rest[i]);
        }
        if exists|i: int|
            0 <= i < entries.len() && is_valid(#[trigger] entries[i]) && normal_date(
                entries[i].date,
            )->0.year == year {
            let i = choose|i: int|
                0 <= i < entries.len() && is_valid(#[trigger] entries[i]) && normal_date(
                    entries[i].date,
                )->0.year == year;
            if i < rest.len() {
                assert(rest[i] == entries[i]);
            }
        }
    }
}

/// Whether a text gives the date of an entry and what is wrong with it: with the
/// date, or else with the value.
pub open spec fn says_why(text: Seq<char>, entry: RawEntry) -> bool {
    &&& normal_date(entry.date) is None ==> text == entry.date + ": "@ + date_complaint(entry.date)
    &&& normal_date(entry.date) is Some ==> (value_meaning(entry.value) matches Err(reason)
        && text == entry.date + ": "@ + reason)
}

/// Whether a report counts the valid entries of a file, names the others in order,
/// and has the years of the valid ones.
pub open spec fn report_right(
    report: FileReport,
    entries: Seq<RawEntry>,
    file: Seq<char>,
    at: Seq<int>,
    bad: Seq<int>,
) -> bool {
    &&& report.file@ == file
    &&& valid_at(entries, at)
    &&& invalid_at(entries, bad)
    &&& report.outcome.inserted + report.outcome.updated == at.len()
    &&& report.invalid@.len() == bad.len()
    &&& forall|k: int|
        0 <= k < bad.len() ==> says_why((#[trigger] report.invalid@[k])@, entries[bad[k]])
    &&& forall|year: i32| #[trigger]
        report.years@.contains(year) == exists|i: int|
            0 <= i < entries.len() && is_valid(#[trigger] entries[i]) && normal_date(
                entries[i].date,
            )->0.year == year
}

#[verifier::spinoff_prover]
proof fn lemma_report_right(report: FileReport, entries: Seq<RawEntry>, file: Seq<char>) -> (r: (
    Seq<int>,
    Seq<int>,
))
    requires
        report.file@ == file,
        texts(report.invalid@) == complaints_of(entries),
        report.years@ == years_of(entries),
        report.outcome.inserted + report.outcome.updated == records_of(entries, file).len(),
    ensures
        report_right(report, entries, file, r.0, r.1),
        r.0.len() == records_of(entries, file).len(),
{
    let at = lemma_valid_at(entries, file);
    let bad = lemma_invalid_at(entries);
    assert(texts(report.invalid@).len() == report.invalid@.len());
    assert forall|k: int| 0 <= k < bad.len() implies says_why(
        (#[trigger] report.invalid@[k])@,
        entries[bad[k]],
    ) by {
        assert(texts(report.invalid@)[k] == report.invalid@[k]@);
        assert(complaint_of(entries[bad[k]]) == Some(complaints_of(entries)[k]));
    }
    assert forall|year: i32| #[trigger]
        report.years@.contains(year) == exists|i: int|
            0 <= i < entries.len() && is_valid(#[trigger] entries[i]) && normal_date(
                entries[i].date,
            )->0.year == year by {
        lemma_years_of(entries, year);
    }
    (at, bad)
}

// ---------------------------------------------------------------- one file

/// Whether a file was taken in as it should be: every valid entry is written under
/// its date and category with its own names and days, the last one where several
/// are about the same; the others are left out and named; and the log has the number
/// of the valid ones.
pub open spec fn file_right(
    before: Tables,
    after: Tables,
    entries: Seq<RawEntry>,
    file: Seq<char>,
    report: FileReport,
    at: Seq<int>,
    bad: Seq<int>,
) -> bool {
    &&& report_right(report, entries, file, at, bad)
    &&& rows_right(before.rows, after.rows, entries, file)
    &&& before.rows.dom().finite() ==> after.rows.dom().len() == before.rows.dom().len()
        + report.outcome.inserted
    &&& entries.len() == 0 ==> after == before
    &&& entries.len() > 0 ==> after.log.contains_key(file) && after.log[file].record_count
        == at.len() as i64
    &&& forall|other: Seq<char>|
        other != file ==> (#[trigger] after.log.contains_key(other)) == before.log.contains_key(
            other,
        ) && (before.log.contains_key(other) ==> after.log[other] == before.log[other])
}

/// A file is taken in with every valid entry, or not at all.
#[verifier::spinoff_prover]
pub proof fn law_files_are_taken_in_right(
    parsed: &YearFile,
    name: &str,
    r: Result<FileReport, StoreError>,
)
    ensures
        forall|store: &mut Store| #[trigger]
            call_ensures(import_file, (store, parsed, name), r) && store.sole() ==> match r {
                Ok(report) => exists|at: Seq<int>, bad: Seq<int>| #[trigger]
                    file_right(store@, final(store)@, parsed@, name@, report, at, bad),
                Err(_) => final(store)@ == store@,
            },
{
    assert forall|store: &mut Store| #[trigger]
        call_ensures(import_file, (store, parsed, name), r) && store.sole() implies match r {
        Ok(report) => exists|at: Seq<int>, bad: Seq<int>| #[trigger]
            file_right(store@, final(store)@, parsed@, name@, report, at, bad),
        Err(_) => final(store)@ == store@,
    } by {
        if let Ok(report) = r {
            let before = store@;
            let after = final(store)@;
            let (at, bad) = lemma_report_right(report, parsed@, name@);
            lemma_rows_right(before.rows, parsed@, name@);
            if before.rows.dom().finite() {
                lemma_new_rows(before.rows, records_of(parsed@, name@));
            }
            assert(file_right(before, after, parsed@, name@, report, at, bad));
        }
    }
}

/// The entries of a file are those of its three collections, each with the category
/// of its collection.
#[verifier::spinoff_prover]
pub proof fn law_collections_give_the_entries(file: &YearFile, entry: RawEntry)
    ensures
        file@.contains(entry) == match entry.category {
            Category::Holiday => file.holidays@.contains((entry.date, entry.value)),
            Category::Workday => file.workdays@.contains((entry.date, entry.value)),
            Category::InLieu => file.in_lieu_days@.contains((entry.date, entry.value)),
        },
        file@.len() == file.holidays@.len() + file.workdays@.len() + file.in_lieu_days@.len(),
{
    let h = tagged(Category::Holiday, file.holidays@);
    let w = tagged(Category::Workday, file.workdays@);
    let l = tagged(Category::InLieu, file.in_lieu_days@);
    let all = file@;
    if all.contains(entry) {
        let i = choose|i: int| 0 <= i < all.len() && all[i] == entry;
        if i < h.len() {
            assert(h[i] == entry);
            assert(file.holidays@[i] == (entry.date, entry.value));
        } else if i < h.len() + w.len() {
            assert(w[i - h.len()] == entry);
            assert(file.workdays@[i - h.len()] == (entry.date, entry.value));
        } else {
            assert(l[i - h.len() - w.len()] == entry);
            assert(file.in_lieu_days@[i - h.len() - w.len()] == (entry.date, entry.value));
        }
    }
    match entry.category {
        Category::Holiday => {
            if file.holidays@.contains((entry.date, entry.value)) {
                let i = choose|i: int|
                    0 <= i < file.holidays@.len() && file.holidays@[i] == (entry.date, entry.value);
                assert(all[i] == entry);
            }
        },
        Category::Workday => {
            if file.workdays@.contains((entry.date, entry.value)) {
                let i = choose|i: int|
                    0 <= i < file.workdays@.len() && file.workdays@[i] == (entry.date, entry.value);
                assert(all[h.len() + i] == entry);
            }
        },
        Category::InLieu => {
            if file.in_lieu_days@.contains((entry.date, entry.value)) {
                let i = choose|i: int|
                    0 <= i < file.in_lieu_days@.len() && file.in_lieu_days@[i] == (
                        entry.date,
                        entry.value,
                    );
                assert(all[h.len() + w.len() + i] == entry);
            }
        },
    }
}

/// Whether an entry has this category and stands for this item of a collection.
pub open spec fn stands_for(
    entry: RawEntry,
    category: Category,
    item: (Seq<char>, Seq<char>),
) -> bool {
    entry.category == category && entry.date == item.0 && entry.value == item.1
}

/// The entries of a file stand in the order in which they are taken in: the days
/// off, the days of work and the days off in lieu, each as in its collection.
#[verifier::spinoff_prover]
pub proof fn law_entries_stand_in_order(file: &YearFile)
    ensures
        forall|i: int|
            0 <= i < file.holidays@.len() ==> stands_for(
                file@[i],
                Category::Holiday,
                #[trigger] file.holidays@[i],
            ),
        forall|i: int|
            0 <= i < file.workdays@.len() ==> stands_for(
                file@[file.holidays@.len() + i],
                Category::Workday,
                #[trigger] file.workdays@[i],
            ),
        forall|i: int|
            0 <= i < file.in_lieu_days@.len() ==> stands_for(
                file@[file.holidays@.len() + file.workdays@.len() + i],
                Category::InLieu,
                #[trigger] file.in_lieu_days@[i],
            ),
{
}

// ---------------------------------------------------------------- a directory

/// Whether an entry is the last about this date and category in a file that is
/// taken in, and no later file that is taken in has one.
pub open spec fn is_last_in_files(
    files: Seq<(String, Contents)>,
    taken: Seq<bool>,
    f: int,
    i: int,
    key: (Seq<char>, Seq<char>),
) -> bool {
    &&& 0 <= f < files.len()
    &&& taken[f]
    &&& is_last_about(entries_of(files[f]), i, key)
    &&& forall|g: int|
        f < g < files.len() && taken[g] ==> none_about(entries_of(#[trigger] files[g]), key)
}

/// Whether no file that is taken in has an entry about this date and category.
pub open spec fn none_in_files(
    files: Seq<(String, Contents)>,
    taken: Seq<bool>,
    key: (Seq<char>, Seq<char>),
) -> bool {
    forall|g: int|
        0 <= g < files.len() && taken[g] ==> none_about(entries_of(#[trigger] files[g]), key)
}

#[verifier::spinoff_prover]
proof fn lemma_none_in_rest(
    files: Seq<(String, Contents)>,
    taken: Seq<bool>,
    key: (Seq<char>, Seq<char>),
)
    requires
        files.len() == taken.len(),
        files.len() > 0,
        none_in_files(files, taken, key),
    ensures
        none_in_files(files.drop_last(), taken.drop_last(), key),
{
    let rest = files.drop_last();
    let part = taken.drop_last();
    assert forall|g: int| 0 <= g < rest.len() && part[g] implies none_about(
        entries_of(#[trigger] rest[g]),
        key,
    ) by {
        assert(rest[g] == files[g]);
        assert(taken[g]);
    }
}

/// A row that no file is about stays as it was.
#[verifier::spinoff_prover]
proof fn lemma_untouched(
    rows: Rows,
    files: Seq<(String, Contents)>,
    taken: Seq<bool>,
    key: (Seq<char>, Seq<char>),
)
    requires
        files.len() == taken.len(),
        none_in_files(files, taken, key),
    ensures
        rows_after(rows, files, taken).contains_key(key) == rows.contains_key(key),
        rows.contains_key(key) ==> rows_after(rows, files, taken)[key] == rows[key],
    decreases files.len(),
{
    if files.len() > 0 {
        let n = files.len() - 1;
        let before = rows_after(rows, files.drop_last(), taken.drop_last());
        lemma_none_in_rest(files, taken, key);
        lemma_untouched(rows, files.drop_last(), taken.drop_last(), key);
        if taken.last() {
            assert(taken[n] && files.last() == files[n]);
            lemma_rows_right(before, entries_of(files.last()), files.last().0@);
            assert(none_about(entries_of(files[n]), key));
        }
    }
}

/// A row says what the last entry about it says.
#[verifier::spinoff_prover]
proof fn lemma_last_entry(
    rows: Rows,
    files: Seq<(String, Contents)>,
    taken: Seq<bool>,
    f: int,
    i: int,
    key: (Seq<char>, Seq<char>),
)
    requires
        files.len() == taken.len(),
        is_last_in_files(files, taken, f, i, key),
    ensures
        rows_after(rows, files, taken).contains_key(key),
        holds_entry(
            rows_after(rows, files, taken)[key],
            entries_of(files[f])[i],
            files[f].0@,
        ),
    decreases files.len(),
{
    let n = files.len() - 1;
    let rest = files.drop_last();
    let part = taken.drop_last();
    let before = rows_after(rows, rest, part);
    assert(files.last() == files[n]);
    let after = rows_after(rows, files, taken);
    let last = entries_of(files.last());
    lemma_rows_right(before, last, files.last().0@);
    if f == n {
        assert(taken.last());
        assert(after == written(before, records_of(last, files.last().0@)));
        assert(is_last_about(last, i, key));
    }
    if f < n {
        assert(rest[f] == files[f] && part[f] == taken[f]);
        assert forall|g: int| f < g < rest.len() && part[g] implies none_about(
            entries_of(#[trigger] rest[g]),
            key,
        ) by {
            assert(rest[g] == files[g]);
            assert(taken[g]);
        }
        lemma_last_entry(rows, rest, part, f, i, key);
        if taken.last() {
            assert(taken[n]);
            assert(after == written(before, records_of(last, files.last().0@)));
            assert(none_about(last, key));
            assert(after.contains_key(key) == before.contains_key(key));
        }
    }
}

/// Whether a file failed for a reason: it could not be read, or the store refused to
/// take it in.
pub open spec fn failed_for(reason: Seq<char>, file: (String, Contents)) -> bool {
    match file.1 {
        Err(why) => reason == why@,
        Ok(parsed) => exists|store: &mut Store, name: &str, e: StoreError|
            name@ == file.0@ && reason == store_error_chain(e) && #[trigger] call_ensures(
                import_file,
                (store, &parsed, name),
                Err::<FileReport, StoreError>(e),
            ),
    }
}

/// Whether files are reported on in order, and the others are listed as failed.
pub open spec fn reports_right(
    report: ImportReport,
    files: Seq<(String, Contents)>,
    taken: Seq<bool>,
    at: Seq<int>,
    bad: Seq<int>,
) -> bool {
    &&& parts_of(at, bad, files.len() as int)
    &&& at.len() == report.files@.len()
    &&& bad.len() == report.failures@.len()
    &&& forall|k: int|
        0 <= k < at.len() ==> {
            let file = files[#[trigger] at[k]];
            &&& taken[at[k]]
            &&& file.1 is Ok
            &&& exists|good: Seq<int>, left_out: Seq<int>| #[trigger]
                report_right(report.files@[k], entries_of(file), file.0@, good, left_out)
        }
    &&& forall|k: int|
        0 <= k < bad.len() ==> {
            let file = files[#[trigger] bad[k]];
            &&& !taken[bad[k]]
            &&& report.failures@[k].0@ == file.0@
            &&& failed_for(report.failures@[k].1@, file)
        }
    &&& forall|f: int|
        0 <= f < files.len() && (#[trigger] files[f]).1 is Ok && entries_of(files[f]).len() == 0
            ==> taken[f]
}

/// Where the reports and the failures stand.
#[verifier::spinoff_prover]
proof fn lemma_reports_parted(
    reports: Seq<FileReport>,
    failures: Seq<(String, String)>,
    rows: Rows,
    files: Seq<(String, Contents)>,
    taken: Seq<bool>,
    sole: bool,
) -> (r: (Seq<int>, Seq<int>))
    requires
        files.len() == taken.len(),
        reports_files(reports, rows, files, taken, sole),
        reports_failures(failures, files, taken),
    ensures
        parts_of(r.0, r.1, files.len() as int),
        r.0.len() == reports.len(),
        r.1.len() == failures.len(),
        forall|k: int|
            0 <= k < r.0.len() ==> taken[#[trigger] r.0[k]] && reports[k].file@ == files[r.0[k]].0@
                && texts(reports[k].invalid@) == complaints_of(entries_of(files[r.0[k]]))
                && reports[k].years@ == years_of(entries_of(files[r.0[k]]))
                && reports[k].outcome.inserted + reports[k].outcome.updated == records_of(
                entries_of(files[r.0[k]]),
                files[r.0[k]].0@,
            ).len(),
        forall|k: int|
            0 <= k < r.1.len() ==> !taken[#[trigger] r.1[k]] && failures[k].0@
                == files[r.1[k]].0@ && is_reason(failures[k].1@, files[r.1[k]]),
    decreases files.len(),
{
    if files.len() == 0 {
        (Seq::empty(), Seq::empty())
    } else {
        let n = files.len() - 1;
        let rest = files.drop_last();
        let part = taken.drop_last();
        assert(files.last() == files[n] && taken.last() == taken[n]);
        let reports_before = if taken.last() {
            reports.drop_last()
        } else {
            reports
        };
        let failures_before = if taken.last() {
            failures
        } else {
            failures.drop_last()
        };
        let (at, bad) = lemma_reports_parted(
            reports_before,
            failures_before,
            rows,
            rest,
            part,
            sole,
        );
        let all_at = lemma_one_more(at, n, taken.last());
        let all_bad = lemma_one_more(bad, n, !taken.last());
        assert forall|k: int| 0 <= k < all_at.len() implies taken[#[trigger] all_at[k]]
            && reports[k].file@ == files[all_at[k]].0@ && texts(reports[k].invalid@)
            == complaints_of(entries_of(files[all_at[k]])) && reports[k].years@ == years_of(
            entries_of(files[all_at[k]]),
        ) && reports[k].outcome.inserted + reports[k].outcome.updated == records_of(
            entries_of(files[all_at[k]]),
            files[all_at[k]].0@,
        ).len() by {
            if k < at.len() {
                assert(all_at[k] == at[k]);
                assert(part[at[k]] == taken[at[k]] && rest[at[k]] == files[at[k]]);
                assert(reports_before[k] == reports[k]);
            }
        }
        assert forall|k: int| 0 <= k < all_bad.len() implies !taken[#[trigger] all_bad[k]]
            && failures[k].0@ == files[all_bad[k]].0@ && is_reason(
            failures[k].1@,
            files[all_bad[k]],
        ) by {
            if k < bad.len() {
                assert(all_bad[k] == bad[k]);
                assert(part[bad[k]] == taken[bad[k]] && rest[bad[k]] == files[bad[k]]);
                assert(failures_before[k] == failures[k]);
            }
        }
        (all_at, all_bad)
    }
}

/// The sum of a number that each file has.
pub open spec fn total_of(reports: Seq<FileReport>, f: spec_fn(FileReport) -> int) -> int {
    reports.fold_left(0int, |sum: int, report: FileReport| sum + f(report))
}

#[verifier::spinoff_prover]
proof fn lemma_totals(reports: Seq<FileReport>)
    ensures
        inserted_sum(reports) == total_of(reports, |r: FileReport| r.outcome.inserted as int),
        updated_sum(reports) == total_of(reports, |r: FileReport| r.outcome.updated as int),
        invalid_sum(reports) == total_of(reports, |r: FileReport| r.invalid@.len() as int),
    decreases reports.len(),
{
    if reports.len() > 0 {
        lemma_totals(reports.drop_last());
    }
}

/// Whether taking in a file, with entries, was noted under this name.
pub open spec fn is_noted(
    files: Seq<(String, Contents)>,
    taken: Seq<bool>,
    f: int,
    name: Seq<char>,
) -> bool {
    0 <= f < files.len() && taken[f] && entries_of(files[f]).len() > 0 && files[f].0@ == name
}

/// Whether this is the last file that was noted under this name.
pub open spec fn is_last_noted(
    files: Seq<(String, Contents)>,
    taken: Seq<bool>,
    f: int,
    name: Seq<char>,
) -> bool {
    is_noted(files, taken, f, name) && forall|g: int|
        g > f ==> !#[trigger] is_noted(files, taken, g, name)
}

/// Whether no file was noted under this name.
pub open spec fn is_unnoted(
    files: Seq<(String, Contents)>,
    taken: Seq<bool>,
    name: Seq<char>,
) -> bool {
    forall|g: int| !#[trigger] is_noted(files, taken, g, name)
}

#[verifier::spinoff_prover]
proof fn lemma_noted_before(
    files: Seq<(String, Contents)>,
    taken: Seq<bool>,
    g: int,
    name: Seq<char>,
)
    requires
        files.len() == taken.len(),
        files.len() > 0,
        g != files.len() - 1,
    ensures
        is_noted(files.drop_last(), taken.drop_last(), g, name) == is_noted(files, taken, g, name),
{
}

#[verifier::spinoff_prover]
proof fn lemma_unnoted(
    counts: Map<Seq<char>, i64>,
    files: Seq<(String, Contents)>,
    taken: Seq<bool>,
    name: Seq<char>,
)
    requires
        files.len() == taken.len(),
        is_unnoted(files, taken, name),
    ensures
        counts_after(counts, files, taken).contains_key(name) == counts.contains_key(name),
        counts.contains_key(name) ==> counts_after(counts, files, taken)[name] == counts[name],
    decreases files.len(),
{
    if files.len() > 0 {
        let n = files.len() - 1;
        assert(!is_noted(files, taken, n, name));
        assert(files.last() == files[n] && taken.last() == taken[n]);
        assert forall|g: int| !#[trigger] is_noted(
            files.drop_last(),
            taken.drop_last(),
            g,
            name,
        ) by {
            if g != n {
                lemma_noted_before(files, taken, g, name);
                assert(!is_noted(files, taken, g, name));
            }
        }
        lemma_unnoted(counts, files.drop_last(), taken.drop_last(), name);
    }
}

#[verifier::spinoff_prover]
proof fn lemma_last_noted(
    counts: Map<Seq<char>, i64>,
    files: Seq<(String, Contents)>,
    taken: Seq<bool>,
    f: int,
    name: Seq<char>,
)
    requires
        files.len() == taken.len(),
        is_last_noted(files, taken, f, name),
    ensures
        counts_after(counts, files, taken).contains_key(name),
        counts_after(counts, files, taken)[name] == records_of(
            entries_of(files[f]),
            name,
        ).len() as i64,
    decreases files.len(),
{
    let n = files.len() - 1;
    assert(files.last() == files[n] && taken.last() == taken[n]);
    if f < n {
        assert(!is_noted(files, taken, n, name));
        let rest = files.drop_last();
        let part = taken.drop_last();
        lemma_noted_before(files, taken, f, name);
        assert forall|g: int| g > f implies !#[trigger] is_noted(rest, part, g, name) by {
            if g != n {
                lemma_noted_before(files, taken, g, name);
                assert(!is_noted(files, taken, g, name));
            }
        }
        lemma_last_noted(counts, rest, part, f, name);
        assert(rest[f] == files[f]);
    }
}

/// Whether the log has the number of the valid entries of each file that was taken
/// in, the last of that name, and is otherwise as it was.
pub open spec fn log_right(
    before: Tables,
    after: Tables,
    files: Seq<(String, Contents)>,
    taken: Seq<bool>,
) -> bool {
    &&& forall|f: int, name: Seq<char>| #[trigger]
        is_last_noted(files, taken, f, name) ==> after.log.contains_key(name) && exists|
            at: Seq<int>,
        | #[trigger]
            valid_at(entries_of(files[f]), at) && after.log[name].record_count == at.len() as i64
    &&& forall|name: Seq<char>| #[trigger]
        is_unnoted(files, taken, name) ==> after.log.contains_key(name) == before.log.contains_key(
            name,
        ) && (before.log.contains_key(name) ==> after.log[name].record_count
            == before.log[name].record_count)
}

#[verifier::spinoff_prover]
proof fn lemma_log_right(
    before: Tables,
    after: Tables,
    files: Seq<(String, Contents)>,
    taken: Seq<bool>,
)
    requires
        files.len() == taken.len(),
        log_counts(after.log) == counts_after(log_counts(before.log), files, taken),
    ensures
        log_right(before, after, files, taken),
{
    let old_counts = log_counts(before.log);
    let new_counts = log_counts(after.log);
    assert forall|f: int, name: Seq<char>| #[trigger]
        is_last_noted(files, taken, f, name) implies after.log.contains_key(name) && exists|
        at: Seq<int>,
    | #[trigger]
        valid_at(entries_of(files[f]), at) && after.log[name].record_count
            == at.len() as i64 by {
        lemma_last_noted(old_counts, files, taken, f, name);
        assert(new_counts.contains_key(name));
        let at = lemma_valid_at(entries_of(files[f]), name);
        assert(valid_at(entries_of(files[f]), at));
    }
    assert forall|name: Seq<char>| #[trigger] is_unnoted(
        files,
        taken,
        name,
    ) implies after.log.contains_key(name) == before.log.contains_key(name) && (
    before.log.contains_key(name) ==> after.log[name].record_count
        == before.log[name].record_count) by {
        lemma_unnoted(old_counts, files, taken, name);
        assert(new_counts.contains_key(name) == old_counts.contains_key(name));
    }
}

/// As many rows are added as the reports say.
#[verifier::spinoff_prover]
proof fn lemma_rows_added(
    reports: Seq<FileReport>,
    rows: Rows,
    files: Seq<(String, Contents)>,
    taken: Seq<bool>,
)
    requires
        files.len() == taken.len(),
        rows.dom().finite(),
        reports_files(reports, rows, files, taken, true),
    ensures
        rows_after(rows, files, taken).dom().finite(),
        rows_after(rows, files, taken).dom().len() == rows.dom().len() + inserted_sum(reports),
    decreases files.len(),
{
    if files.len() > 0 {
        let rest = files.drop_last();
        let part = taken.drop_last();
        if taken.last() {
            lemma_rows_added(reports.drop_last(), rows, rest, part);
            lemma_new_rows(
                rows_after(rows, rest, part),
                records_of(entries_of(files.last()), files.last().0@),
            );
        } else {
            lemma_rows_added(reports, rows, rest, part);
        }
    }
}

/// Whether a directory was taken in as it should be: of the files that were taken
/// in, the last entry about a date and category stands in its row, and all other
/// rows are as they were; the report gives each file once, in order, and the totals.
pub open spec fn directory_right(
    before: Tables,
    after: Tables,
    files: Seq<(String, Contents)>,
    taken: Seq<bool>,
    report: ImportReport,
) -> bool {
    &&& taken.len() == files.len()
    &&& forall|f: int, i: int, key: (Seq<char>, Seq<char>)| #[trigger]
        is_last_in_files(files, taken, f, i, key) ==> after.rows.contains_key(key) && holds_entry(
            after.rows[key],
            entries_of(files[f])[i],
            files[f].0@,
        )
    &&& forall|key: (Seq<char>, Seq<char>)| #[trigger]
        none_in_files(files, taken, key) ==> after.rows.contains_key(key)
            == before.rows.contains_key(key) && (before.rows.contains_key(key) ==> after.rows[key]
            == before.rows[key])
    &&& exists|at: Seq<int>, bad: Seq<int>| #[trigger] reports_right(report, files, taken, at, bad)
    &&& log_right(before, after, files, taken)
    &&& before.rows.dom().finite() ==> after.rows.dom().len() == before.rows.dom().len()
        + report.outcome.inserted
    &&& report.outcome.inserted == total_of(
        report.files@,
        |r: FileReport| r.outcome.inserted as int,
    )
    &&& report.outcome.updated == total_of(report.files@, |r: FileReport| r.outcome.updated as int)
    &&& report.invalid == total_of(report.files@, |r: FileReport| r.invalid@.len() as int)
}

#[verifier::spinoff_prover]
proof fn lemma_directory_right(
    before: Store,
    after: Store,
    files: Seq<(String, Contents)>,
    taken: Seq<bool>,
    report: ImportReport,
)
    requires
        before.sole(),
        imported(before, after, files, taken, report),
    ensures
        directory_right(before@, after@, files, taken, report),
{
    let rows = before@.rows;
    assert forall|f: int, i: int, key: (Seq<char>, Seq<char>)| #[trigger]
        is_last_in_files(files, taken, f, i, key) implies after@.rows.contains_key(key)
        && holds_entry(after@.rows[key], entries_of(files[f])[i], files[f].0@) by {
        lemma_last_entry(rows, files, taken, f, i, key);
    }
    assert forall|key: (Seq<char>, Seq<char>)| #[trigger]
        none_in_files(files, taken, key) implies after@.rows.contains_key(key)
        == rows.contains_key(key) && (rows.contains_key(key) ==> after@.rows[key]
        == rows[key]) by {
        lemma_untouched(rows, files, taken, key);
    }
    let (at, bad) = lemma_reports_parted(
        report.files@,
        report.failures@,
        rows,
        files,
        taken,
        true,
    );
    assert forall|k: int| 0 <= k < at.len() implies {
        let file = files[#[trigger] at[k]];
        &&& taken[at[k]]
        &&& file.1 is Ok
        &&& exists|good: Seq<int>, left_out: Seq<int>| #[trigger]
            report_right(report.files@[k], entries_of(file), file.0@, good, left_out)
    } by {
        let file = files[at[k]];
        assert(taken[at[k]]);
        let (good, left_out) = lemma_report_right(report.files@[k], entries_of(file), file.0@);
    }
    assert forall|k: int| 0 <= k < bad.len() implies {
        let file = files[#[trigger] bad[k]];
        &&& !taken[bad[k]]
        &&& report.failures@[k].0@ == file.0@
        &&& failed_for(report.failures@[k].1@, file)
    } by {
        assert(is_reason(report.failures@[k].1@, files[bad[k]]));
    }
    assert forall|f: int|
        0 <= f < files.len() && (#[trigger] files[f]).1 is Ok && entries_of(files[f]).len()
            == 0 implies taken[f] by {
        assert(taken[f] ==> files[f].1 is Ok);
    }
    assert(reports_right(report, files, taken, at, bad));
    lemma_log_right(before@, after@, files, taken);
    if rows.dom().finite() {
        lemma_rows_added(report.files@, rows, files, taken);
    }
    lemma_totals(report.files@);
}

/// The files that a directory has; none where it is not there.
pub open spec fn files_of(listing: Option<Vec<(String, Contents)>>) -> Seq<(String, Contents)> {
    match listing {
        Some(files) => files@,
        None => Seq::empty(),
    }
}

/// A directory is taken in file by file, in the order of the names; where there is
/// none, or no data file in it, nothing is written.
#[verifier::spinoff_prover]
pub proof fn law_directories_are_taken_in_right(
    dir: &str,
    listing: Option<Vec<(String, Contents)>>,
    year_filter: &Vec<i32>,
    r: Result<ImportReport, String>,
)
    ensures
        forall|store: &mut Store| #[trigger]
            call_ensures(import_dir, (store, dir, listing, year_filter), r) && store.sole()
                ==> match r {
                Ok(report) => exists|taken: Seq<bool>| #[trigger]
                    directory_right(
                        store@,
                        final(store)@,
                        asked_for(files_of(listing), year_filter@),
                        taken,
                        report,
                    ),
                Err(message) => final(store)@ == store@ && message@ == if listing is None {
                    "数据目录不存在或不是目录："@ + dir@
                } else {
                    "目录 "@ + dir@ + " 下没有找到 .json 文件"@
                },
            },
        forall|store: &mut Store| #[trigger]
            call_ensures(import_dir, (store, dir, listing, year_filter), r) ==> (r is Ok
                <==> has_data_file(files_of(listing))),
{
    assert(files_of(listing) == listed(listing));
    assert forall|store: &mut Store| #[trigger]
        call_ensures(import_dir, (store, dir, listing, year_filter), r)
            && store.sole() implies match r {
        Ok(report) => exists|taken: Seq<bool>| #[trigger]
            directory_right(
                store@,
                final(store)@,
                asked_for(files_of(listing), year_filter@),
                taken,
                report,
            ),
        Err(message) => final(store)@ == store@ && message@ == if listing is None {
            "数据目录不存在或不是目录："@ + dir@
        } else {
            "目录 "@ + dir@ + " 下没有找到 .json 文件"@
        },
    } by {
        if let Ok(report) = r {
            let files = asked_for(files_of(listing), year_filter@);
            let taken = choose|taken: Seq<bool>| #[trigger]
                imported(*store, *final(store), files, taken, report);
            lemma_directory_right(*store, *final(store), files, taken, report);
        }
    }
    lemma_has_data_file(files_of(listing));
}

/// Whether a directory has a data file.
pub open spec fn has_data_file(files: Seq<(String, Contents)>) -> bool {
    exists|i: int, stem: Seq<char>|
        0 <= i < files.len() && stem.len() > 0 && (#[trigger] files[i]).0@
            == #[trigger] with_extension(stem)
}

#[verifier::spinoff_prover]
proof fn lemma_has_data_file(files: Seq<(String, Contents)>)
    ensures
        has_data_file(files) == (data_files(files).len() > 0),
{
    let found = data_files(files);
    if found.len() > 0 {
        let file = found[0];
        assert(found.contains(file));
        lemma_data_files_members(files, file);
        let i = choose|i: int| 0 <= i < files.len() && files[i] == file;
        lemma_extension(file.0@);
        assert(files[i].0@ == with_extension(file.0@.take(file.0@.len() - 5)));
    }
    if has_data_file(files) {
        let (i, stem) = choose|i: int, stem: Seq<char>|
            0 <= i < files.len() && stem.len() > 0 && (#[trigger] files[i]).0@
                == #[trigger] with_extension(stem);
        lemma_extended(stem);
        assert(files.contains(files[i]));
        lemma_data_files_members(files, files[i]);
    }
}

/// The files that are taken in are the data files of the directory, of the years
/// that are asked for where some are, in the order of their names.
#[verifier::spinoff_prover]
pub proof fn law_the_right_files_are_asked_for(
    files: Seq<(String, Contents)>,
    year_filter: Seq<i32>,
)
    ensures
        names_ascend(asked_for(files, year_filter)),
        forall|file: (String, Contents)| #[trigger]
            asked_for(files, year_filter).contains(file) == (files.contains(file) && exists|
                stem: Seq<char>,
            |
                {
                    &&& stem.len() > 0
                    &&& file.0@ == #[trigger] with_extension(stem)
                    &&& year_filter.len() == 0 || (parse_integer(stem) matches Some(year)
                        && exists|k: int|
                        0 <= k < year_filter.len() && #[trigger] year_filter[k] == year)
                }),
{
    let found = data_files(files);
    let sorted = by_name(found);
    law_by_name_sorts(found);
    lemma_wanted(sorted, year_filter);
    assert forall|file: (String, Contents)| #[trigger]
        asked_for(files, year_filter).contains(file) == (files.contains(file) && exists|
            stem: Seq<char>,
        |
            {
                &&& stem.len() > 0
                &&& file.0@ == #[trigger] with_extension(stem)
                &&& year_filter.len() == 0 || (parse_integer(stem) matches Some(year) && exists|
                    k: int,
                | 0 <= k < year_filter.len() && #[trigger] year_filter[k] == year)
            }) by {
        lemma_data_files_members(files, file);
        lemma_same_members(sorted, found, file);
        assert(sorted.contains(file) == found.contains(file));
        let name = file.0@;
        if is_data_name(name) {
            let stem = name.take(name.len() - 5);
            lemma_extension(name);
            if is_wanted(name, year_filter) && year_filter.len() > 0 {
                let year = name_year(name)->0;
                let k = choose|k: int| 0 <= k < year_filter.len() && year_filter[k] == year;
                assert(year_filter[k] == year);
            }
        }
        if exists|stem: Seq<char>|
            {
                &&& stem.len() > 0
                &&& file.0@ == #[trigger] with_extension(stem)
                &&& year_filter.len() == 0 || (parse_integer(stem) matches Some(year) && exists|
                    k: int,
                | 0 <= k < year_filter.len() && #[trigger] year_filter[k] == year)
            } {
            let stem = choose|stem: Seq<char>|
                {
                    &&& stem.len() > 0
                    &&& file.0@ == #[trigger] with_extension(stem)
                    &&& year_filter.len() == 0 || (parse_integer(stem) matches Some(year)
                        && exists|k: int|
                        0 <= k < year_filter.len() && #[trigger] year_filter[k] == year)
                };
            lemma_extended(stem);
        }
    }
}

/// The name of a data file, without and with what tells that it is one.
pub open spec fn with_extension(stem: Seq<char>) -> Seq<char> {
    stem + seq!['.', 'j', 's', 'o', 'n']
}

#[verifier::spinoff_prover]
pub proof fn lemma_extension(name: Seq<char>)
    requires
        is_data_name(name),
    ensures
        name == with_extension(name.take(name.len() - 5)),
        name.take(name.len() - 5).len() > 0,
{
    reveal_strlit(".json");
    let stem = name.take(name.len() - 5);
    let tail = name.skip(name.len() - 5);
    assert(tail =~= seq!['.', 'j', 's', 'o', 'n']);
    assert(name =~= stem + tail);
}

#[verifier::spinoff_prover]
pub proof fn lemma_extended(stem: Seq<char>)
    requires
        stem.len() > 0,
    ensures
        is_data_name(with_extension(stem)),
        with_extension(stem).take(with_extension(stem).len() - 5) == stem,
{
    reveal_strlit(".json");
    let name = with_extension(stem);
    assert(name.take(name.len() - 5) =~= stem);
    assert(name.skip(name.len() - 5) =~= ".json"@);
}

#[verifier::spinoff_prover]
pub proof fn lemma_data_files_members<T>(files: Seq<(String, T)>, file: (String, T))
    ensures
        data_files(files).contains(file) == (files.contains(file) && is_data_name(file.0@)),
    decreases files.len(),
{
    if files.len() > 0 {
        let rest = files.drop_first();
        lemma_data_files_members(rest, file);
        let kept = data_files(rest);
        let all = data_files(files);
        if files.contains(file) && files[0] != file {
            let i = choose|i: int| 0 <= i < files.len() && files[i] == file;
            assert(rest[i - 1] == file);
        }
        if rest.contains(file) {
            let i = choose|i: int| 0 <= i < rest.len() && rest[i] == file;
            assert(files[i + 1] == file);
        }
        if is_data_name(files[0].0@) {
            if kept.contains(file) {
                let i = choose|i: int| 0 <= i < kept.len() && kept[i] == file;
                assert(all[i + 1] == file);
            }
            if all.contains(file) && files[0] != file {
                let i = choose|i: int| 0 <= i < all.len() && all[i] == file;
                assert(kept[i - 1] == file);
            }
            assert(all[0] == files[0]);
        }
    }
}

/// What is reordered has the same members.
#[verifier::spinoff_prover]
pub proof fn lemma_same_members<T>(a: Seq<(String, T)>, b: Seq<(String, T)>, x: (String, T))
    requires
        a.to_multiset() == b.to_multiset(),
    ensures
        a.contains(x) == b.contains(x),
{
    broadcast use vstd::seq_lib::group_to_multiset_ensures;

    assert(a.contains(x) == (a.to_multiset().count(x) > 0));
    assert(b.contains(x) == (b.to_multiset().count(x) > 0));
}

/// The files that are asked for are in order, and are those that are wanted.
#[verifier::spinoff_prover]
proof fn lemma_wanted(files: Seq<(String, Contents)>, year_filter: Seq<i32>)
    requires
        names_ascend(files),
    ensures
        names_ascend(wanted_files(files, year_filter)),
        forall|file: (String, Contents)| #[trigger]
            wanted_files(files, year_filter).contains(file) == (files.contains(file) && is_wanted(
                file.0@,
                year_filter,
            )),
    decreases files.len(),
{
    if files.len() > 0 {
        let rest = files.drop_last();
        let n = files.len() - 1;
        assert forall|i: int, j: int| 0 <= i < j < rest.len() implies text_at_most(
            (#[trigger] rest[i]).0@,
            (#[trigger] rest[j]).0@,
        ) by {
            assert(rest[i] == files[i] && rest[j] == files[j]);
        }
        lemma_wanted(rest, year_filter);
        let kept = wanted_files(rest, year_filter);
        let all = wanted_files(files, year_filter);
        assert(files.last() == files[n]);
        assert forall|i: int, j: int| 0 <= i < j < all.len() implies text_at_most(
            (#[trigger] all[i]).0@,
            (#[trigger] all[j]).0@,
        ) by {
            assert(kept.contains(kept[i]));
            if j < kept.len() {
                assert(all[i] == kept[i] && all[j] == kept[j]);
            } else {
                assert(all[i] == kept[i]);
                assert(rest.contains(kept[i]));
                let m = choose|m: int| 0 <= m < rest.len() && rest[m] == kept[i];
                assert(files[m] == kept[i]);
            }
        }
        assert forall|file: (String, Contents)| #[trigger] all.contains(file) == (files.contains(
            file,
        ) && is_wanted(file.0@, year_filter)) by {
            assert(kept.contains(file) == (rest.contains(file) && is_wanted(
                file.0@,
                year_filter,
            )));
            if files.contains(file) && file != files[n] {
                let i = choose|i: int| 0 <= i < files.len() && files[i] == file;
                assert(rest[i] == file);
            }
            if rest.contains(file) {
                let i = choose|i: int| 0 <= i < rest.len() && rest[i] == file;
                assert(files[i] == file);
            }
            if kept.contains(file) {
                let i = choose|i: int| 0 <= i < kept.len() && kept[i] == file;
                assert(all[i] == file);
            }
            if all.contains(file) && file != files[n] {
                let i = choose|i: int| 0 <= i < all.len() && all[i] == file;
                assert(kept[i] == file);
            }
            if is_wanted(files[n].0@, year_filter) {
                assert(all[kept.len() as int] == files[n]);
            }
        }
    }
}

} // verus!
