//! Taking data files into the store.
//!
//! There is one file for each year, but what counts is what a file holds. The
//! files are taken in by name, and a later one overrides an earlier one.

use std::collections::BTreeSet;

use vstd::prelude::*;
use vstd::string::*;

use crate::db::{
    record_import, record_key, record_value, same_transaction, store_error_chain, upsert, Database,
    Store, StoreError, WriteOutcome,
};
use crate::model::{
    date_complaint, normal_date, normalize_date, parse_value, tagged, value_meaning, Category,
    RawEntry, Record, RecordView, YearFile,
};
use crate::record_map::RecordMap;
use crate::sqlite::{logged, texts, Log, LogValue, Rows, Tables};
use crate::text::{
    integer, integer_text, lemma_text_less_total, lemma_text_less_transitive, parse_i32,
    parse_integer_32, same_text, sorts_before, text_at_most, text_less,
};

verus! {

// ---------------------------------------------------------------- reports

/// What became of one file.
#[derive(Debug)]
pub struct FileReport {
    pub file: String,
    /// The years of the dates that were taken in.
    pub years: BTreeSet<i32>,
    pub outcome: WriteOutcome,
    /// The entries that were left out, with the reasons.
    pub invalid: Vec<String>,
}

impl Default for FileReport {
    /// Nothing was taken in, from a file without a name.
    fn default() -> (r: Self)
        ensures
            r.file@.len() == 0,
            r.years@ == Set::<i32>::empty(),
            r.outcome.inserted == 0,
            r.outcome.updated == 0,
            r.invalid@.len() == 0,
    {
        FileReport {
            file: String::new(),
            years: BTreeSet::new(),
            outcome: WriteOutcome { inserted: 0, updated: 0 },
            invalid: Vec::new(),
        }
    }
}

/// Whether `lo` is the least and `hi` the greatest of `years`.
pub open spec fn span(years: Set<i32>, lo: i32, hi: i32) -> bool {
    &&& years.contains(lo)
    &&& years.contains(hi)
    &&& forall|y: i32| #[trigger] years.contains(y) ==> lo <= y <= hi
}

/// How the years from `lo` to `hi` are shown.
pub open spec fn span_text(lo: int, hi: int) -> Seq<char> {
    if lo == hi {
        integer_text(lo)
    } else {
        integer_text(lo) + ".."@ + integer_text(hi)
    }
}

/// The least and the greatest of a set of years.
fn span_of(years: &BTreeSet<i32>) -> (r: Option<(i32, i32)>)
    ensures
        match r {
            Some((lo, hi)) => span(years@, lo, hi),
            None => forall|y: i32| !years@.contains(y),
        },
{
    broadcast use vstd::laws_cmp::group_laws_cmp;
    broadcast use vstd::std_specs::btree::group_btree_axioms;

    let mut found: Option<(i32, i32)> = None;
    let ghost all = vstd::std_specs::iter::IteratorSpec::remaining(
        &vstd::std_specs::btree::spec_btree_keys_iter(years),
    ).unref();
    for y in it: years.iter()
        invariant
            all == it.seq().unref(),
            all.to_set() == years@,
            match found {
                Some((lo, hi)) => {
                    &&& it.index() > 0
                    &&& exists|i: int| 0 <= i < it.index() && #[trigger] all[i] == lo
                    &&& exists|i: int| 0 <= i < it.index() && #[trigger] all[i] == hi
                    &&& forall|i: int| 0 <= i < it.index() ==> lo <= #[trigger] all[i] <= hi
                },
                None => it.index() == 0,
            },
    {
        assert(all[it.index()] == *y);
        found = match found {
            Some((lo, hi)) => Some(
                (
                    if *y < lo {
                        *y
                    } else {
                        lo
                    },
                    if *y > hi {
                        *y
                    } else {
                        hi
                    },
                ),
            ),
            None => Some((*y, *y)),
        };
    }
    proof {
        assert forall|y: i32| #[trigger] years@.contains(y) implies exists|i: int|
            0 <= i < all.len() && #[trigger] all[i] == y by {
            assert(all.contains(y));
        }
        assert forall|i: int| 0 <= i < all.len() implies years@.contains(#[trigger] all[i]) by {
            assert(all.contains(all[i]));
        }
    }
    found
}

/// How a set of years is shown: from the first to the last.
pub open spec fn years_text(years: Set<i32>) -> Seq<char> {
    if exists|lo: i32, hi: i32| #[trigger] span(years, lo, hi) {
        let (lo, hi) = choose|lo: i32, hi: i32| #[trigger] span(years, lo, hi);
        span_text(lo as int, hi as int)
    } else {
        "-"@
    }
}

/// There is one way to show years from the first to the last.
pub proof fn law_years_have_one_span(years: Set<i32>, lo: i32, hi: i32)
    ensures
        span(years, lo, hi) ==> years_text(years) == span_text(lo as int, hi as int),
        (forall|y: i32| !years.contains(y)) ==> years_text(years) == "-"@,
{
    if span(years, lo, hi) {
        let (a, b) = choose|a: i32, b: i32| #[trigger] span(years, a, b);
        assert(span(years, a, b));
        assert(a == lo && b == hi);
    }
}

impl FileReport {
    /// The years of the dates that were taken in, from the first to the last.
    pub fn year_range(&self) -> (r: String)
        ensures
            r@ == years_text(self.years@),
    {
        match span_of(&self.years) {
            Some((lo, hi)) => {
                proof {
                    law_years_have_one_span(self.years@, lo, hi);
                }
                if lo == hi {
                    integer(lo as i64)
                } else {
                    let mut out = integer(lo as i64);
                    out.append("..");
                    out.append(integer(hi as i64).as_str());
                    out
                }
            },
            None => {
                proof {
                    law_years_have_one_span(self.years@, 0, 0);
                }
                String::from_str("-")
            },
        }
    }
}

// ---------------------------------------------------------------- what a file says

/// Why an entry is left out, where it is.
pub open spec fn complaint_of(entry: RawEntry) -> Option<Seq<char>> {
    if normal_date(entry.date) is None {
        Some(entry.date + ": "@ + date_complaint(entry.date))
    } else {
        match value_meaning(entry.value) {
            Err(reason) => Some(entry.date + ": "@ + reason),
            Ok(_) => None,
        }
    }
}

/// The record that an entry of a file gives, where it is not left out.
pub open spec fn record_of(entry: RawEntry, file: Seq<char>) -> RecordView {
    let value = value_meaning(entry.value)->Ok_0;
    RecordView {
        date: normal_date(entry.date)->0.written(),
        category: entry.category,
        name_en: value.name_en,
        name_zh: value.name_zh,
        statutory_days: value.statutory_days,
        source_file: Some(file),
    }
}

/// Why entries are left out, one reason for each that is, in order.
pub open spec fn complaints_of(entries: Seq<RawEntry>) -> Seq<Seq<char>>
    decreases entries.len(),
{
    if entries.len() == 0 {
        Seq::empty()
    } else {
        let before = complaints_of(entries.drop_last());
        match complaint_of(entries.last()) {
            Some(reason) => before.push(reason),
            None => before,
        }
    }
}

/// The records that the entries of a file give, in order.
pub open spec fn records_of(entries: Seq<RawEntry>, file: Seq<char>) -> Seq<RecordView>
    decreases entries.len(),
{
    if entries.len() == 0 {
        Seq::empty()
    } else {
        let before = records_of(entries.drop_last(), file);
        match complaint_of(entries.last()) {
            Some(_) => before,
            None => before.push(record_of(entries.last(), file)),
        }
    }
}

/// The years of the dates of the entries that are not left out.
pub open spec fn years_of(entries: Seq<RawEntry>) -> Set<i32>
    decreases entries.len(),
{
    if entries.len() == 0 {
        Set::empty()
    } else {
        let before = years_of(entries.drop_last());
        match complaint_of(entries.last()) {
            Some(_) => before,
            None => before.insert(normal_date(entries.last().date)->0.year),
        }
    }
}

/// The rows after records were written, one after the other.
pub open spec fn written(rows: Rows, records: Seq<RecordView>) -> Rows
    decreases records.len(),
{
    if records.len() == 0 {
        rows
    } else {
        written(rows, records.drop_last()).insert(
            record_key(records.last()),
            record_value(records.last()),
        )
    }
}

/// How many of the records were new when they were written.
pub open spec fn new_count(rows: Rows, records: Seq<RecordView>) -> nat
    decreases records.len(),
{
    if records.len() == 0 {
        0
    } else {
        let before = new_count(rows, records.drop_last());
        if written(rows, records.drop_last()).contains_key(record_key(records.last())) {
            before
        } else {
            before + 1
        }
    }
}

// ---------------------------------------------------------------- one file

/// What was done so far with the entries of a file.
struct Progress {
    inserted: usize,
    updated: usize,
    years: BTreeSet<i32>,
    invalid: Vec<String>,
}

/// Whether `p` and `db` are what comes of writing `entries` to `start`.
spec fn progressed(
    p: Progress,
    start: Database,
    db: Database,
    entries: Seq<RawEntry>,
    file: Seq<char>,
) -> bool {
    &&& texts(p.invalid@) == complaints_of(entries)
    &&& p.years@ == years_of(entries)
    &&& p.inserted + p.updated == records_of(entries, file).len()
    &&& start.sole() ==> {
        &&& db.sole()
        &&& db.undo() == start.undo()
        &&& db@.made == start@.made
        &&& db@.log == start@.log
        &&& db@.rows == written(start@.rows, records_of(entries, file))
        &&& p.inserted == new_count(start@.rows, records_of(entries, file))
    }
}

/// Entries give at most one record each.
proof fn lemma_records_fit(entries: Seq<RawEntry>, file: Seq<char>)
    ensures
        records_of(entries, file).len() <= entries.len(),
    decreases entries.len(),
{
    if entries.len() > 0 {
        lemma_records_fit(entries.drop_last(), file);
    }
}

/// `date`, a colon and `reason`.
fn skipped(date: &str, reason: &str) -> (r: String)
    ensures
        r@ == date@ + ": "@ + reason@,
{
    let mut out = String::from_str(date);
    out.append(": ");
    out.append(reason);
    out
}

/// Adds a year to a set of years.
fn note_year(years: &mut BTreeSet<i32>, year: i32)
    ensures
        final(years)@ == old(years)@.insert(year),
{
    broadcast use vstd::laws_cmp::group_laws_cmp;

    let _ = years.insert(year);
}

/// Writes one entry, or notes why it is left out.
fn take_entry(
    db: &mut Database,
    category: Category,
    raw: (&str, &str),
    name: &str,
    progress: &mut Progress,
    Ghost(start): Ghost<Database>,
    Ghost(done): Ghost<Seq<RawEntry>>,
) -> (r: Result<(), StoreError>)
    requires
        progressed(*old(progress), start, *old(db), done, name@),
        done.len() < usize::MAX,
        same_transaction(start, *old(db)),
    ensures
        same_transaction(start, *final(db)),
        r is Ok ==> progressed(
            *final(progress),
            start,
            *final(db),
            done.push(RawEntry { category, date: raw.0@, value: raw.1@ }),
            name@,
        ),
        r matches Err(e) ==> e is Sql,
{
    let ghost entry = RawEntry { category, date: raw.0@, value: raw.1@ };
    proof {
        assert(done.push(entry).drop_last() =~= done);
        assert(done.push(entry).last() == entry);
        lemma_records_fit(done, name@);
    }
    let (date, day) = match normalize_date(raw.0) {
        Ok(found) => found,
        Err(e) => {
            let ghost before = progress.invalid@;
            progress.invalid.push(skipped(raw.0, e.message()));
            assert(texts(progress.invalid@) =~= texts(before).push(
                complaint_of(entry)->0,
            ));
            return Ok(());
        },
    };
    let value = match parse_value(raw.1) {
        Ok(value) => value,
        Err(reason) => {
            let ghost before = progress.invalid@;
            progress.invalid.push(skipped(raw.0, reason.as_str()));
            assert(texts(progress.invalid@) =~= texts(before).push(
                complaint_of(entry)->0,
            ));
            return Ok(());
        },
    };
    let record = Record {
        date,
        category,
        name_en: value.name_en,
        name_zh: value.name_zh,
        statutory_days: value.statutory_days,
        source_file: Some(String::from_str(name)),
    };
    let ghost records = records_of(done, name@);
    assert(record@ == record_of(entry, name@));
    assert(records.push(record@).drop_last() =~= records);
    let inserted: bool = upsert(db, &record)?;
    if inserted {
        progress.inserted = progress.inserted + 1;
    } else {
        progress.updated = progress.updated + 1;
    }
    note_year(&mut progress.years, day.year);
    Ok(())
}

/// Writes the entries of one collection.
fn take_collection(
    db: &mut Database,
    category: Category,
    records: &RecordMap,
    name: &str,
    progress: &mut Progress,
    Ghost(start): Ghost<Database>,
    Ghost(done): Ghost<Seq<RawEntry>>,
) -> (r: Result<(), StoreError>)
    requires
        progressed(*old(progress), start, *old(db), done, name@),
        done.len() + records@.len() <= usize::MAX,
        same_transaction(start, *old(db)),
    ensures
        same_transaction(start, *final(db)),
        r is Ok ==> progressed(
            *final(progress),
            start,
            *final(db),
            done + tagged(category, records@),
            name@,
        ),
        r matches Err(e) ==> e is Sql,
{
    let mut i: usize = 0;
    assert(done + tagged(category, records@).take(0) =~= done);
    while i < records.len()
        invariant
            i <= records@.len(),
            done.len() + records@.len() <= usize::MAX,
            same_transaction(start, *db),
            progressed(*progress, start, *db, done + tagged(category, records@).take(i as int), name@),
        decreases records@.len() - i,
    {
        let ghost so_far = done + tagged(category, records@).take(i as int);
        take_entry(
            db,
            category,
            records.entry(i),
            name,
            progress,
            Ghost(start),
            Ghost(so_far),
        )?;
        assert(so_far.push(tagged(category, records@)[i as int]) =~= done + tagged(
            category,
            records@,
        ).take(i + 1));
        i = i + 1;
    }
    assert(tagged(category, records@).take(records@.len() as int) =~= tagged(category, records@));
    Ok(())
}

/// Whether `after` is `before` with the entries of a file written and the log
/// saying so.
pub open spec fn file_taken(
    before: Tables,
    after: Tables,
    entries: Seq<RawEntry>,
    file: Seq<char>,
) -> bool {
    &&& after.rows == written(before.rows, records_of(entries, file))
    &&& logged(
        Tables { rows: after.rows, log: before.log, made: before.made },
        after,
        file,
        records_of(entries, file).len() as i64,
    )
}

/// What comes of writing all entries of a file to `before`.
spec fn entries_written(
    before: Database,
    after: Database,
    entries: Seq<RawEntry>,
    file: Seq<char>,
    r: Result<Progress, StoreError>,
) -> bool {
    same_transaction(before, after) && match r {
        Ok(p) => {
            &&& texts(p.invalid@) == complaints_of(entries)
            &&& p.years@ == years_of(entries)
            &&& p.inserted + p.updated == records_of(entries, file).len()
            &&& before.sole() ==> {
                &&& file_taken(before@, after@, entries, file)
                &&& p.inserted == new_count(before@.rows, records_of(entries, file))
            }
        },
        Err(e) => e is Sql,
    }
}

/// Writes all entries of a file, and notes in the log how many records they gave.
fn write_entries(db: &mut Database, parsed: &YearFile, name: &str) -> (r: Result<
    Progress,
    StoreError,
>)
    requires
        parsed@.len() <= usize::MAX,
    ensures
        entries_written(*old(db), *final(db), parsed@, name@, r),
{
    let ghost start = *db;
    let mut progress = Progress {
        inserted: 0,
        updated: 0,
        years: BTreeSet::new(),
        invalid: Vec::new(),
    };
    let ghost none = Seq::<RawEntry>::empty();
    assert(texts(progress.invalid@) =~= complaints_of(none));
    take_collection(
        db,
        Category::Holiday,
        &parsed.holidays,
        name,
        &mut progress,
        Ghost(start),
        Ghost(none),
    )?;
    let ghost one = tagged(Category::Holiday, parsed.holidays@);
    assert(none + one =~= one);
    take_collection(
        db,
        Category::Workday,
        &parsed.workdays,
        name,
        &mut progress,
        Ghost(start),
        Ghost(one),
    )?;
    let ghost two = one + tagged(Category::Workday, parsed.workdays@);
    take_collection(
        db,
        Category::InLieu,
        &parsed.in_lieu_days,
        name,
        &mut progress,
        Ghost(start),
        Ghost(two),
    )?;
    assert(two + tagged(Category::InLieu, parsed.in_lieu_days@) =~= parsed@);
    proof {
        lemma_records_fit(parsed@, name@);
    }
    let outcome = WriteOutcome { inserted: progress.inserted, updated: progress.updated };
    record_import(db, name, outcome.total() as i64)?;
    Ok(progress)
}

/// Takes in one file, whole or not at all. Entries that are not valid are left
/// out, with the reason.
pub fn import_file(store: &mut Store, parsed: &YearFile, name: &str) -> (r: Result<
    FileReport,
    StoreError,
>)
    requires
        parsed@.len() <= usize::MAX,
    ensures
        parsed@.len() == 0 ==> r is Ok && *final(store) == *old(store),
        r matches Ok(report) ==> {
            &&& report.file@ == name@
            &&& texts(report.invalid@) == complaints_of(parsed@)
            &&& report.years@ == years_of(parsed@)
            &&& report.outcome.inserted + report.outcome.updated == records_of(parsed@, name@).len()
        },
        old(store).sole() ==> {
            &&& final(store).sole()
            &&& final(store).settled() == old(store).settled()
            &&& r matches Ok(report) ==> {
                &&& parsed@.len() > 0 ==> old(store).settled() && file_taken(
                    old(store)@,
                    final(store)@,
                    parsed@,
                    name@,
                )
                &&& report.outcome.inserted == new_count(
                    old(store)@.rows,
                    records_of(parsed@, name@),
                )
            }
            &&& r is Err ==> final(store)@ == old(store)@
        },
        r matches Err(e) ==> e is Sql,
{
    if parsed.is_empty() {
        let report = FileReport {
            file: String::from_str(name),
            years: BTreeSet::new(),
            outcome: WriteOutcome { inserted: 0, updated: 0 },
            invalid: Vec::new(),
        };
        assert(texts(report.invalid@) =~= complaints_of(parsed@));
        return Ok(report);
    }
    let write = |db: &mut Database| -> (r: Result<Progress, StoreError>)
        ensures
            entries_written(*old(db), *final(db), parsed@, name@, r),
        {
            write_entries(db, parsed, name)
        };
    let progress = store.with_transaction(write)?;
    Ok(
        FileReport {
            file: String::from_str(name),
            years: progress.years,
            outcome: WriteOutcome { inserted: progress.inserted, updated: progress.updated },
            invalid: progress.invalid,
        },
    )
}

// ---------------------------------------------------------------- the order of files

/// The number of items at the front whose names sort before `name`.
pub open spec fn name_rank<T>(items: Seq<(String, T)>, name: Seq<char>) -> int
    decreases items.len(),
{
    if items.len() == 0 || !text_less(items[0].0@, name) {
        0
    } else {
        1 + name_rank(items.drop_first(), name)
    }
}

/// Items in the order of their names; of two with the same name, the first stays
/// first.
pub open spec fn by_name<T>(items: Seq<(String, T)>) -> Seq<(String, T)>
    decreases items.len(),
{
    if items.len() == 0 {
        items
    } else {
        let rest = by_name(items.drop_first());
        rest.insert(name_rank(rest, items[0].0@), items[0])
    }
}

/// Whether the names ascend.
pub open spec fn names_ascend<T>(items: Seq<(String, T)>) -> bool {
    forall|i: int, j: int|
        0 <= i < j < items.len() ==> text_at_most((#[trigger] items[i]).0@, (#[trigger] items[j]).0@)
}

pub proof fn lemma_name_rank<T>(items: Seq<(String, T)>, name: Seq<char>)
    ensures
        0 <= name_rank(items, name) <= items.len(),
        forall|i: int|
            0 <= i < name_rank(items, name) ==> text_less((#[trigger] items[i]).0@, name),
        name_rank(items, name) < items.len() ==> !text_less(
            items[name_rank(items, name)].0@,
            name,
        ),
    decreases items.len(),
{
    if items.len() > 0 && text_less(items[0].0@, name) {
        let rest = items.drop_first();
        lemma_name_rank(rest, name);
        assert forall|i: int| 0 <= i < name_rank(items, name) implies text_less(
            (#[trigger] items[i]).0@,
            name,
        ) by {
            if i > 0 {
                assert(items[i] == rest[i - 1]);
            }
        }
    }
}

/// Puts items in the order of their names.
pub fn sort_by_name<T>(items: Vec<(String, T)>) -> (r: Vec<(String, T)>)
    ensures
        r@ == by_name(items@),
{
    let mut left = items;
    let ghost all = items@;
    let mut out: Vec<(String, T)> = Vec::new();
    assert(all.skip(all.len() as int) =~= Seq::<(String, T)>::empty());
    while left.len() > 0
        invariant
            left@.len() <= all.len(),
            left@ == all.take(left@.len() as int),
            out@ == by_name(all.skip(left@.len() as int)),
        decreases left@.len(),
    {
        let ghost n = left@.len();
        let ghost before = out@;
        assert(all.skip(n - 1).drop_first() =~= all.skip(n as int));
        assert(all.skip(n - 1)[0] == all[n - 1]);
        match left.pop() {
            Some(item) => {
                let mut i: usize = 0;
                assert(before.skip(0) =~= before);
                while i < out.len() && sorts_before(out[i].0.as_str(), item.0.as_str())
                    invariant
                        out@ == before,
                        i <= before.len(),
                        name_rank(before, item.0@) == i + name_rank(
                            before.skip(i as int),
                            item.0@,
                        ),
                    decreases before.len() - i,
                {
                    assert(before.skip(i as int).drop_first() =~= before.skip(i + 1));
                    i = i + 1;
                }
                out.insert(i, item);
            },
            None => {},
        }
        assert(left@ =~= all.take(n - 1));
    }
    assert(all.skip(0) =~= all);
    out
}

/// The order of files is stable: sorting keeps all items, and puts their names in
/// ascending order.
pub proof fn law_by_name_sorts<T>(items: Seq<(String, T)>)
    ensures
        by_name(items).len() == items.len(),
        by_name(items).to_multiset() == items.to_multiset(),
        names_ascend(by_name(items)),
    decreases items.len(),
{
    broadcast use vstd::seq_lib::group_to_multiset_ensures;

    if items.len() > 0 {
        let tail = items.drop_first();
        law_by_name_sorts(tail);
        let rest = by_name(tail);
        let item = items[0];
        let at = name_rank(rest, item.0@);
        lemma_name_rank(rest, item.0@);
        let out = rest.insert(at, item);
        assert(items =~= tail.insert(0, item));
        assert forall|i: int, j: int| 0 <= i < j < out.len() implies text_at_most(
            (#[trigger] out[i]).0@,
            (#[trigger] out[j]).0@,
        ) by {
            if i == at {
                lemma_text_less_total(item.0@, rest[at].0@);
                if j - 1 > at {
                    assert(text_at_most(rest[at].0@, rest[j - 1].0@));
                    if text_less(item.0@, rest[at].0@) && text_less(
                        rest[at].0@,
                        rest[j - 1].0@,
                    ) {
                        lemma_text_less_transitive(item.0@, rest[at].0@, rest[j - 1].0@);
                    }
                }
            }
        }
    }
}

// ---------------------------------------------------------------- a directory

/// What a data file holds, or why it could not be read.
pub type Contents = Result<YearFile, String>;

/// Whether a file is a data file, by its name.
pub open spec fn is_data_name(name: Seq<char>) -> bool {
    name.len() > 5 && name.skip(name.len() - 5) == ".json"@
}

/// The year that the name of a data file gives, where it does.
pub open spec fn name_year(name: Seq<char>) -> Option<i32> {
    parse_integer_32(name.take(name.len() - 5))
}

/// Whether a data file is asked for: all are where no year is given.
pub open spec fn is_wanted(name: Seq<char>, year_filter: Seq<i32>) -> bool {
    year_filter.len() == 0 || (name_year(name) matches Some(year) && year_filter.contains(year))
}

/// Whether a file is a data file, by its name.
pub fn is_data_file(name: &str) -> (r: bool)
    ensures
        r == is_data_name(name@),
{
    let n: usize = name.unicode_len();
    if n <= 5 {
        return false;
    }
    assert(name@.subrange(n - 5, n as int) =~= name@.skip(n - 5));
    same_text(name.substring_char(n - 5, n), ".json")
}

/// Whether a data file is asked for.
pub fn is_wanted_file(name: &str, year_filter: &Vec<i32>) -> (r: bool)
    requires
        is_data_name(name@),
    ensures
        r == is_wanted(name@, year_filter@),
{
    if year_filter.len() == 0 {
        return true;
    }
    let n: usize = name.unicode_len();
    assert(name@.subrange(0, n - 5) =~= name@.take(n - 5));
    match parse_i32(name.substring_char(0, n - 5)) {
        Some(year) => has_year(year_filter, year),
        None => false,
    }
}

/// Whether a year is among years.
fn has_year(years: &Vec<i32>, year: i32) -> (r: bool)
    ensures
        r == years@.contains(year),
{
    let mut i: usize = 0;
    while i < years.len()
        invariant
            i <= years@.len(),
            forall|j: int| 0 <= j < i ==> years@[j] != year,
        decreases years@.len() - i,
    {
        if years[i] == year {
            return true;
        }
        i = i + 1;
    }
    false
}

/// The data files among files, in their order.
pub open spec fn data_files<T>(files: Seq<(String, T)>) -> Seq<(String, T)>
    decreases files.len(),
{
    if files.len() == 0 {
        files
    } else {
        let rest = data_files(files.drop_first());
        if is_data_name(files[0].0@) {
            seq![files[0]] + rest
        } else {
            rest
        }
    }
}

/// Keeps the data files.
fn keep_data_files<T>(files: Vec<(String, T)>) -> (r: Vec<(String, T)>)
    ensures
        r@ == data_files(files@),
{
    let mut left = files;
    let ghost all = files@;
    let mut kept: Vec<(String, T)> = Vec::new();
    assert(all.skip(all.len() as int) =~= Seq::<(String, T)>::empty());
    while left.len() > 0
        invariant
            left@.len() <= all.len(),
            left@ == all.take(left@.len() as int),
            kept@ == data_files(all.skip(left@.len() as int)),
        decreases left@.len(),
    {
        let ghost n = left@.len();
        let ghost before = kept@;
        assert(all.skip(n - 1).drop_first() =~= all.skip(n as int));
        assert(all.skip(n - 1)[0] == all[n - 1]);
        match left.pop() {
            Some(file) => {
                if is_data_file(file.0.as_str()) {
                    kept.insert(0, file);
                    assert(kept@ =~= seq![file] + before);
                }
            },
            None => {},
        }
        assert(left@ =~= all.take(n - 1));
    }
    assert(all.skip(0) =~= all);
    kept
}

/// The names of the data files among the files of a directory, in order.
pub fn discover_files(names: Vec<String>) -> (r: Vec<String>)
    ensures
        r@.len() == by_name(data_files(with_unit(names@))).len(),
        forall|i: int| 0 <= i < r@.len() ==> #[trigger] r@[i] == by_name(
            data_files(with_unit(names@)),
        )[i].0,
{
    let mut files: Vec<(String, ())> = Vec::new();
    let mut i: usize = 0;
    while i < names.len()
        invariant
            i <= names@.len(),
            files@ == with_unit(names@).take(i as int),
        decreases names@.len() - i,
    {
        files.push((names[i].clone(), ()));
        assert(files@ =~= with_unit(names@).take(i + 1));
        i = i + 1;
    }
    assert(with_unit(names@).take(names@.len() as int) =~= with_unit(names@));
    let sorted = sort_by_name(keep_data_files(files));
    let mut out: Vec<String> = Vec::new();
    let mut k: usize = 0;
    while k < sorted.len()
        invariant
            k <= sorted@.len(),
            out@.len() == k,
            forall|j: int| 0 <= j < k ==> #[trigger] out@[j] == sorted@[j].0,
        decreases sorted@.len() - k,
    {
        out.push(sorted[k].0.clone());
        k = k + 1;
    }
    out
}

/// Names, each with nothing beside it.
pub open spec fn with_unit(names: Seq<String>) -> Seq<(String, ())> {
    Seq::new(names.len(), |i: int| (names[i], ()))
}

/// What became of the files of a directory.
#[derive(Debug)]
pub struct ImportReport {
    pub files: Vec<FileReport>,
    /// The files that could not be taken in, with the reasons.
    pub failures: Vec<(String, String)>,
    pub outcome: WriteOutcome,
    pub invalid: usize,
}

impl Default for ImportReport {
    /// Nothing was imported.
    fn default() -> (r: Self)
        ensures
            r.files@.len() == 0,
            r.failures@.len() == 0,
            r.outcome.inserted == 0,
            r.outcome.updated == 0,
            r.invalid == 0,
    {
        ImportReport {
            files: Vec::new(),
            failures: Vec::new(),
            outcome: WriteOutcome { inserted: 0, updated: 0 },
            invalid: 0,
        }
    }
}

impl ImportReport {
    /// Whether there is something to look after.
    pub fn has_problems(&self) -> (r: bool)
        ensures
            r == (self.failures@.len() > 0 || self.invalid > 0),
    {
        !self.failures.is_empty() || self.invalid > 0
    }

    /// Notes what became of the file `name`: its own report, or why it could not
    /// be taken in.
    pub fn note(&mut self, name: &str, outcome: Result<FileReport, String>)
        requires
            outcome matches Ok(done) ==> old(self).outcome.inserted + done.outcome.inserted
                <= usize::MAX && old(self).outcome.updated + done.outcome.updated <= usize::MAX
                && old(self).invalid + done.invalid@.len() <= usize::MAX,
        ensures
            match outcome {
                Ok(done) => {
                    &&& final(self).files@ == old(self).files@.push(done)
                    &&& final(self).failures == old(self).failures
                    &&& final(self).outcome.inserted == old(self).outcome.inserted
                        + done.outcome.inserted
                    &&& final(self).outcome.updated == old(self).outcome.updated
                        + done.outcome.updated
                    &&& final(self).invalid == old(self).invalid + done.invalid@.len()
                },
                Err(reason) => {
                    &&& final(self).files == old(self).files
                    &&& final(self).failures@.len() == old(self).failures@.len() + 1
                    &&& final(self).failures@.drop_last() == old(self).failures@
                    &&& final(self).failures@.last().0@ == name@
                    &&& final(self).failures@.last().1 == reason
                    &&& final(self).outcome == old(self).outcome
                    &&& final(self).invalid == old(self).invalid
                },
            },
    {
        match outcome {
            Ok(done) => {
                self.outcome.inserted = self.outcome.inserted + done.outcome.inserted;
                self.outcome.updated = self.outcome.updated + done.outcome.updated;
                self.invalid = self.invalid + done.invalid.len();
                self.files.push(done);
            },
            Err(reason) => {
                self.failures.push((String::from_str(name), reason));
            },
        }
    }
}

/// The files that are asked for, in their order.
pub open spec fn wanted_files(
    files: Seq<(String, Contents)>,
    year_filter: Seq<i32>,
) -> Seq<(String, Contents)>
    decreases files.len(),
{
    if files.len() == 0 {
        files
    } else {
        let before = wanted_files(files.drop_last(), year_filter);
        if is_wanted(files.last().0@, year_filter) {
            before.push(files.last())
        } else {
            before
        }
    }
}

/// The entries of a file; none where it could not be read.
pub open spec fn entries_of(file: (String, Contents)) -> Seq<RawEntry> {
    match file.1 {
        Ok(parsed) => parsed@,
        Err(_) => Seq::empty(),
    }
}

/// The number of entries of all files.
pub open spec fn entry_count(files: Seq<(String, Contents)>) -> nat
    decreases files.len(),
{
    if files.len() == 0 {
        0
    } else {
        entry_count(files.drop_last()) + entries_of(files.last()).len()
    }
}

/// The rows after files were taken in, one after the other, as far as they were.
pub open spec fn rows_after(
    rows: Rows,
    files: Seq<(String, Contents)>,
    taken: Seq<bool>,
) -> Rows
    decreases files.len(),
{
    if files.len() == 0 {
        rows
    } else {
        let before = rows_after(rows, files.drop_last(), taken.drop_last());
        if taken.last() {
            written(before, records_of(entries_of(files.last()), files.last().0@))
        } else {
            before
        }
    }
}

/// The number of records that the log gives for each file.
pub open spec fn log_counts(log: Log) -> Map<Seq<char>, i64> {
    log.map_values(|v: LogValue| v.record_count)
}

/// The numbers in the log after files were taken in, as far as they were.
pub open spec fn counts_after(
    counts: Map<Seq<char>, i64>,
    files: Seq<(String, Contents)>,
    taken: Seq<bool>,
) -> Map<Seq<char>, i64>
    decreases files.len(),
{
    if files.len() == 0 {
        counts
    } else {
        let before = counts_after(counts, files.drop_last(), taken.drop_last());
        let entries = entries_of(files.last());
        if taken.last() && entries.len() > 0 {
            before.insert(
                files.last().0@,
                records_of(entries, files.last().0@).len() as i64,
            )
        } else {
            before
        }
    }
}

/// Whether a report says what became of a file that was taken in when the table
/// held `rows`; how many records were new is said only where `sole` holds.
pub open spec fn reports_file(
    report: FileReport,
    rows: Rows,
    file: (String, Contents),
    sole: bool,
) -> bool {
    let records = records_of(entries_of(file), file.0@);
    &&& report.file@ == file.0@
    &&& texts(report.invalid@) == complaints_of(entries_of(file))
    &&& report.years@ == years_of(entries_of(file))
    &&& report.outcome.inserted + report.outcome.updated == records.len()
    &&& sole ==> report.outcome.inserted == new_count(rows, records)
}

/// Whether there is one report, in order, for each file that was taken in.
pub open spec fn reports_files(
    reports: Seq<FileReport>,
    rows: Rows,
    files: Seq<(String, Contents)>,
    taken: Seq<bool>,
    sole: bool,
) -> bool
    decreases files.len(),
{
    if files.len() == 0 {
        reports.len() == 0
    } else if taken.last() {
        &&& reports.len() > 0
        &&& reports_files(reports.drop_last(), rows, files.drop_last(), taken.drop_last(), sole)
        &&& reports_file(
            reports.last(),
            rows_after(rows, files.drop_last(), taken.drop_last()),
            files.last(),
            sole,
        )
    } else {
        reports_files(reports, rows, files.drop_last(), taken.drop_last(), sole)
    }
}

/// Whether a reason says why a file was not taken in: why it could not be read, or
/// the error that taking in this very file gave.
pub open spec fn is_reason(reason: Seq<char>, file: (String, Contents)) -> bool {
    match file.1 {
        Err(why) => reason == why@,
        Ok(parsed) => exists|store: &mut Store, name: &str, e: StoreError|
            name@ == file.0@ && reason == store_error_chain(e) && #[trigger] call_ensures(
                import_file,
                (store, &parsed, name),
                Err::<FileReport, StoreError>(e),
            ),
    }
}

/// Whether there is one failure, in order, for each file that was not taken in.
pub open spec fn reports_failures(
    failures: Seq<(String, String)>,
    files: Seq<(String, Contents)>,
    taken: Seq<bool>,
) -> bool
    decreases files.len(),
{
    if files.len() == 0 {
        failures.len() == 0
    } else if taken.last() {
        reports_failures(failures, files.drop_last(), taken.drop_last())
    } else {
        &&& failures.len() > 0
        &&& failures.last().0@ == files.last().0@
        &&& is_reason(failures.last().1@, files.last())
        &&& reports_failures(failures.drop_last(), files.drop_last(), taken.drop_last())
    }
}

/// The records that files inserted.
pub open spec fn inserted_sum(reports: Seq<FileReport>) -> int
    decreases reports.len(),
{
    if reports.len() == 0 {
        0
    } else {
        inserted_sum(reports.drop_last()) + reports.last().outcome.inserted
    }
}

/// The records that files updated.
pub open spec fn updated_sum(reports: Seq<FileReport>) -> int
    decreases reports.len(),
{
    if reports.len() == 0 {
        0
    } else {
        updated_sum(reports.drop_last()) + reports.last().outcome.updated
    }
}

/// The entries of files that were left out.
pub open spec fn invalid_sum(reports: Seq<FileReport>) -> int
    decreases reports.len(),
{
    if reports.len() == 0 {
        0
    } else {
        invalid_sum(reports.drop_last()) + reports.last().invalid@.len()
    }
}

/// Whether a report says what became of `files`, of which those were taken in
/// that `taken` says. A file that could not be read is never taken in, and one
/// without entries always is.
pub open spec fn reports_import(
    report: ImportReport,
    rows: Rows,
    files: Seq<(String, Contents)>,
    taken: Seq<bool>,
    sole: bool,
) -> bool {
    &&& taken.len() == files.len()
    &&& forall|i: int|
        0 <= i < files.len() ==> {
            &&& #[trigger] taken[i] ==> files[i].1 is Ok
            &&& files[i].1 is Ok && entries_of(files[i]).len() == 0 ==> taken[i]
        }
    &&& reports_files(report.files@, rows, files, taken, sole)
    &&& reports_failures(report.failures@, files, taken)
    &&& report.outcome.inserted == inserted_sum(report.files@)
    &&& report.outcome.updated == updated_sum(report.files@)
    &&& report.invalid == invalid_sum(report.files@)
}

/// Whether a store holds what it held before, and what `files` gave, of which
/// those were taken in that `taken` says.
pub open spec fn holds_import(
    before: Tables,
    after: Tables,
    files: Seq<(String, Contents)>,
    taken: Seq<bool>,
) -> bool {
    &&& after.made == before.made
    &&& after.rows == rows_after(before.rows, files, taken)
    &&& log_counts(after.log) == counts_after(log_counts(before.log), files, taken)
}

/// What is said where a directory has no data files.
pub open spec fn no_files_text(dir: Seq<char>) -> Seq<char> {
    "目录 "@ + dir + " 下没有找到 .json 文件"@
}

fn no_files_message(dir: &str) -> (r: String)
    ensures
        r@ == no_files_text(dir@),
{
    let mut out = String::from_str("目录 ");
    out.append(dir);
    out.append(" 下没有找到 .json 文件");
    out
}

/// What is said where there is no directory.
pub open spec fn no_directory_text(dir: Seq<char>) -> Seq<char> {
    "数据目录不存在或不是目录："@ + dir
}

fn no_directory_message(dir: &str) -> (r: String)
    ensures
        r@ == no_directory_text(dir@),
{
    let mut out = String::from_str("数据目录不存在或不是目录：");
    out.append(dir);
    out
}

/// The entries of a file are either taken in or left out.
proof fn lemma_taken_or_left_out(entries: Seq<RawEntry>, file: Seq<char>)
    ensures
        records_of(entries, file).len() + complaints_of(entries).len() == entries.len(),
    decreases entries.len(),
{
    if entries.len() > 0 {
        lemma_taken_or_left_out(entries.drop_last(), file);
    }
}

/// Leaving out the files that are not asked for leaves out their entries.
proof fn lemma_wanted_entries(files: Seq<(String, Contents)>, year_filter: Seq<i32>)
    ensures
        entry_count(wanted_files(files, year_filter)) <= entry_count(files),
    decreases files.len(),
{
    if files.len() > 0 {
        let before = wanted_files(files.drop_last(), year_filter);
        lemma_wanted_entries(files.drop_last(), year_filter);
        if is_wanted(files.last().0@, year_filter) {
            assert(before.push(files.last()).drop_last() =~= before);
        }
    }
}

/// The entries of the first files are no more than those of all.
proof fn lemma_entry_count_grows(files: Seq<(String, Contents)>, n: int)
    requires
        0 <= n <= files.len(),
    ensures
        entry_count(files.take(n)) <= entry_count(files),
    decreases files.len(),
{
    if n < files.len() {
        lemma_entry_count_grows(files.drop_last(), n);
        assert(files.drop_last().take(n) =~= files.take(n));
    } else {
        assert(files.take(n) =~= files);
    }
}

/// A data file is still one after sorting and choosing.
proof fn lemma_data_files_named<T>(files: Seq<(String, T)>)
    ensures
        forall|i: int|
            0 <= i < data_files(files).len() ==> is_data_name((#[trigger] data_files(files)[i]).0@),
    decreases files.len(),
{
    if files.len() > 0 {
        let rest = data_files(files.drop_first());
        lemma_data_files_named(files.drop_first());
        assert forall|i: int| 0 <= i < data_files(files).len() implies is_data_name(
            (#[trigger] data_files(files)[i]).0@,
        ) by {
            if is_data_name(files[0].0@) && i > 0 {
                assert(data_files(files)[i] == rest[i - 1]);
            } else if !is_data_name(files[0].0@) {
                assert(data_files(files)[i] == rest[i]);
            }
        }
    }
}

/// Sorting keeps what holds of every name.
proof fn lemma_sorted_data_files_named<T>(files: Seq<(String, T)>)
    requires
        forall|i: int| 0 <= i < files.len() ==> is_data_name((#[trigger] files[i]).0@),
    ensures
        forall|i: int|
            0 <= i < by_name(files).len() ==> is_data_name((#[trigger] by_name(files)[i]).0@),
    decreases files.len(),
{
    if files.len() > 0 {
        let rest = by_name(files.drop_first());
        lemma_sorted_data_files_named(files.drop_first());
        lemma_name_rank(rest, files[0].0@);
        let at = name_rank(rest, files[0].0@);
        assert forall|i: int| 0 <= i < by_name(files).len() implies is_data_name(
            (#[trigger] by_name(files)[i]).0@,
        ) by {
            if i < at {
                assert(by_name(files)[i] == rest[i]);
            } else if i > at {
                assert(by_name(files)[i] == rest[i - 1]);
            }
        }
    }
}

/// Whether `after` and `report` are what comes of taking files into `before`, of
/// which those were taken in that `taken` says. Of the tables this is said where
/// nobody else writes to them.
pub open spec fn imported(
    before: Store,
    after: Store,
    files: Seq<(String, Contents)>,
    taken: Seq<bool>,
    report: ImportReport,
) -> bool {
    &&& reports_import(report, before@.rows, files, taken, before.sole())
    &&& before.sole() ==> {
        &&& after.sole()
        &&& after.settled() == before.settled()
        &&& holds_import(before@, after@, files, taken)
    }
}

/// Whether `report` and `now` are what comes of taking `files` into `start`.
spec fn took(
    report: ImportReport,
    start: Store,
    now: Store,
    files: Seq<(String, Contents)>,
    taken: Seq<bool>,
) -> bool {
    &&& reports_import(report, start@.rows, files, taken, start.sole())
    &&& report.outcome.inserted + report.outcome.updated + report.invalid <= entry_count(files)
    &&& start.sole() ==> {
        &&& now.sole()
        &&& now.settled() == start.settled()
        &&& holds_import(start@, now@, files, taken)
    }
}

/// Takes in one more file, or notes why that failed.
fn take_file(
    store: &mut Store,
    file: &(String, Contents),
    report: &mut ImportReport,
    Ghost(start): Ghost<Store>,
    Ghost(files): Ghost<Seq<(String, Contents)>>,
    Ghost(taken): Ghost<Seq<bool>>,
) -> (r: bool)
    requires
        took(*old(report), start, *old(store), files, taken),
        entry_count(files) + entries_of(*file).len() <= usize::MAX,
    ensures
        took(*final(report), start, *final(store), files.push(*file), taken.push(r)),
{
    let ghost before = *report;
    let ghost all = files.push(*file);
    let ghost rows = rows_after(start@.rows, files, taken);
    proof {
        assert(all.drop_last() =~= files);
        assert(taken.push(true).drop_last() =~= taken);
        assert(taken.push(false).drop_last() =~= taken);
        lemma_taken_or_left_out(entries_of(*file), file.0@);
    }
    match &file.1 {
        Ok(parsed) => {
            let ghost was = *store;
            match import_file(store, parsed, file.0.as_str()) {
                Ok(done) => {
                    assert(texts(done.invalid@).len() == done.invalid@.len());
                    report.note(file.0.as_str(), Ok(done));
                    assert(report.files@.drop_last() =~= before.files@);
                    proof {
                        if parsed@.len() > 0 && start.sole() {
                            assert(log_counts(store@.log) =~= log_counts(was@.log).insert(
                                file.0@,
                                records_of(parsed@, file.0@).len() as i64,
                            ));
                        }
                    }
                    true
                },
                Err(e) => {
                    report.note(file.0.as_str(), Err(e.full_message()));
                    false
                },
            }
        },
        Err(reason) => {
            report.note(file.0.as_str(), Err(reason.clone()));
            false
        },
    }
}

/// Takes in those of the files that are asked for, one after the other.
fn take_files(store: &mut Store, sorted: &Vec<(String, Contents)>, year_filter: &Vec<i32>) -> (r:
    ImportReport)
    requires
        entry_count(sorted@) <= usize::MAX,
        forall|k: int| 0 <= k < sorted@.len() ==> is_data_name((#[trigger] sorted@[k]).0@),
    ensures
        exists|taken: Seq<bool>| #[trigger]
            imported(*old(store), *final(store), wanted_files(sorted@, year_filter@), taken, r),
{
    let ghost start = *store;
    let mut report = ImportReport::default();
    let ghost mut chosen = Seq::<(String, Contents)>::empty();
    let ghost mut taken = Seq::<bool>::empty();
    let mut i: usize = 0;
    assert(sorted@.take(0) =~= Seq::<(String, Contents)>::empty());
    while i < sorted.len()
        invariant
            i <= sorted@.len(),
            entry_count(sorted@) <= usize::MAX,
            forall|k: int| 0 <= k < sorted@.len() ==> is_data_name((#[trigger] sorted@[k]).0@),
            chosen == wanted_files(sorted@.take(i as int), year_filter@),
            took(report, start, *store, chosen, taken),
        decreases sorted@.len() - i,
    {
        let ghost part = sorted@.take(i + 1);
        proof {
            assert(part.drop_last() =~= sorted@.take(i as int));
            assert(part.last() == sorted@[i as int]);
            lemma_entry_count_grows(sorted@, i + 1);
            lemma_wanted_entries(part.drop_last(), year_filter@);
        }
        if is_wanted_file(sorted[i].0.as_str(), year_filter) {
            let done: bool = take_file(
                store,
                &sorted[i],
                &mut report,
                Ghost(start),
                Ghost(chosen),
                Ghost(taken),
            );
            proof {
                chosen = chosen.push(sorted@[i as int]);
                taken = taken.push(done);
            }
        }
        i = i + 1;
    }
    assert(sorted@.take(sorted@.len() as int) =~= sorted@);
    assert(imported(start, *store, wanted_files(sorted@, year_filter@), taken, report));
    report
}

/// What comes of taking a directory in: of its data files, in the order of their
/// names, those that are asked for.
pub open spec fn asked_for(
    files: Seq<(String, Contents)>,
    year_filter: Seq<i32>,
) -> Seq<(String, Contents)> {
    wanted_files(by_name(data_files(files)), year_filter)
}

/// The files that a listing of a directory has.
pub open spec fn listed(listing: Option<Vec<(String, Contents)>>) -> Seq<(String, Contents)> {
    match listing {
        Some(files) => files@,
        None => Seq::empty(),
    }
}

/// What comes of taking in the files of a directory: a report on those that are
/// asked for, or, where there is no directory or no data file in it, a message.
pub open spec fn dir_imported(
    before: Store,
    after: Store,
    dir: Seq<char>,
    listing: Option<Vec<(String, Contents)>>,
    year_filter: Seq<i32>,
    r: Result<ImportReport, String>,
) -> bool {
    let files = listed(listing);
    match r {
        Ok(report) => {
            &&& data_files(files).len() > 0
            &&& exists|taken: Seq<bool>| #[trigger]
                imported(before, after, asked_for(files, year_filter), taken, report)
        },
        Err(message) => {
            &&& data_files(files).len() == 0
            &&& message@ == if listing is None {
                no_directory_text(dir)
            } else {
                no_files_text(dir)
            }
            &&& after == before
        },
    }
}

/// Takes in the data files of a directory by name, so that a later one overrides
/// an earlier one. A file that fails does not keep the others out.
///
/// `listing` has the files of the directory `dir`, with what they hold or why they
/// could not be read; there is none where `dir` is no directory. Where years are
/// given, only the files that are named after one of them are taken in.
pub fn import_dir(
    store: &mut Store,
    dir: &str,
    listing: Option<Vec<(String, Contents)>>,
    year_filter: &Vec<i32>,
) -> (r: Result<ImportReport, String>)
    requires
        entry_count(by_name(data_files(listed(listing)))) <= usize::MAX,
    ensures
        dir_imported(*old(store), *final(store), dir@, listing, year_filter@, r),
{
    let ghost start = *store;
    let found = match listing {
        Some(files) => keep_data_files(files),
        None => {
            return Err(no_directory_message(dir));
        },
    };
    proof {
        lemma_data_files_named(listed(listing));
        lemma_sorted_data_files_named(found@);
        law_by_name_sorts(found@);
    }
    if found.len() == 0 {
        return Err(no_files_message(dir));
    }
    let sorted = sort_by_name(found);
    let report = take_files(store, &sorted, year_filter);
    let ghost taken = choose|taken: Seq<bool>| #[trigger]
        imported(start, *store, wanted_files(sorted@, year_filter@), taken, report);
    let r: Result<ImportReport, String> = Ok(report);
    assert(imported(start, *store, asked_for(listed(listing), year_filter@), taken, r->Ok_0));
    r
}

} // verus!
