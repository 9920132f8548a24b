//! What holds of the library as a whole: how written records are read back, what
//! the years of the store are, and what importing again does.

pub mod answers;
pub mod days;
pub mod imports;
pub mod lines;
pub mod names;
pub mod service;
pub mod stores;
pub mod texts;

use vstd::prelude::*;

use crate::calendar::{date_text, four_digits, law_written_day_reads_back, two_digits, Date};
use crate::db::{
    answer_in, are_stats, are_year_records, are_years, day_answer, festival_in, has_data_of,
    record_key, record_value, year_end, year_start, years_named, Store, StoreStats,
};
use crate::importer::{
    asked_for, by_name, complaints_of, counts_after, data_files, dir_imported, entries_of,
    holds_import, imported, inserted_sum, invalid_sum, is_data_name, law_by_name_sorts, listed,
    log_counts, names_ascend, new_count, records_of, reports_failures, reports_files,
    reports_import, rows_after, updated_sum, written, Contents, FileReport, ImportReport,
};
use crate::model::{
    category_named, category_text, law_category_round_trips, law_days_have_one_name,
    law_normal_form, normal_date, Category, DayType, FestivalView, RawEntry, RecordView,
};
use crate::sqlite::{
    are_year_parts, dates_of, has_date_within, keys_of_category, leading, texts, year_part,
    RowValue, Rows, Tables,
};
use crate::text::{
    all_digits, digit_char, digits_value, lemma_text_less_irreflexive, lemma_text_less_total,
    lemma_text_less_transitive, parse_integer_32, text_at_most, text_less,
};

verus! {

// ---------------------------------------------------------------- the order of dates

/// Texts with the same start sort by what follows.
proof fn lemma_same_start(p: Seq<char>, a: Seq<char>, b: Seq<char>)
    ensures
        text_less(p + a, p + b) == text_less(a, b),
    decreases p.len(),
{
    if p.len() == 0 {
        assert(p + a =~= a);
        assert(p + b =~= b);
    } else {
        lemma_same_start(p.drop_first(), a, b);
        assert((p + a).drop_first() =~= p.drop_first() + a);
        assert((p + b).drop_first() =~= p.drop_first() + b);
    }
}

/// Texts with different starts of one length sort by those starts.
proof fn lemma_different_start(p: Seq<char>, q: Seq<char>, a: Seq<char>, b: Seq<char>)
    requires
        p.len() == q.len(),
        p != q,
    ensures
        text_less(p + a, q + b) == text_less(p, q),
    decreases p.len(),
{
    if p.len() == 0 {
        assert(p =~= q);
    } else if p[0] == q[0] {
        if p.drop_first() == q.drop_first() {
            assert(p =~= seq![p[0]] + p.drop_first());
            assert(q =~= seq![q[0]] + q.drop_first());
        }
        lemma_different_start(p.drop_first(), q.drop_first(), a, b);
        assert((p + a).drop_first() =~= p.drop_first() + a);
        assert((q + b).drop_first() =~= q.drop_first() + b);
    }
}

/// Two digits sort as the numbers they write.
proof fn lemma_two_digits_sort(a: int, b: int)
    requires
        0 <= a < 100,
        0 <= b < 100,
    ensures
        text_less(two_digits(a), two_digits(b)) == (a < b),
        two_digits(a) == two_digits(b) ==> a == b,
{
    reveal_with_fuel(text_less, 3);
    let x = two_digits(a);
    let y = two_digits(b);
    assert(x[0] == digit_char(a / 10) && x[1] == digit_char(a % 10));
    assert(y[0] == digit_char(b / 10) && y[1] == digit_char(b % 10));
    assert(x.drop_first()[0] == x[1]);
    assert(y.drop_first()[0] == y[1]);
}

/// Four digits sort as the numbers they write.
proof fn lemma_four_digits_sort(a: int, b: int)
    requires
        0 <= a <= 9999,
        0 <= b <= 9999,
    ensures
        text_less(four_digits(a), four_digits(b)) == (a < b),
        four_digits(a) == four_digits(b) ==> a == b,
{
    lemma_two_digits_sort(a / 100, b / 100);
    lemma_two_digits_sort(a % 100, b % 100);
    if two_digits(a / 100) == two_digits(b / 100) {
        lemma_same_start(two_digits(a / 100), two_digits(a % 100), two_digits(b % 100));
    } else {
        lemma_different_start(
            two_digits(a / 100),
            two_digits(b / 100),
            two_digits(a % 100),
            two_digits(b % 100),
        );
    }
    if four_digits(a) == four_digits(b) {
        assert(four_digits(a).take(2) =~= two_digits(a / 100));
        assert(four_digits(a).skip(2) =~= two_digits(a % 100));
        assert(four_digits(b).take(2) =~= two_digits(b / 100));
        assert(four_digits(b).skip(2) =~= two_digits(b % 100));
    }
}

/// What follows the year in a date.
spec fn after_year(month: int, day: int) -> Seq<char> {
    seq!['-'] + two_digits(month) + seq!['-'] + two_digits(day)
}

proof fn lemma_date_parts(year: int, month: int, day: int)
    ensures
        date_text(year, month, day) == four_digits(year) + after_year(month, day),
{
    assert(date_text(year, month, day) =~= four_digits(year) + after_year(month, day));
}

proof fn lemma_year_bounds(year: int)
    requires
        0 <= year <= 9999,
    ensures
        year_start(year) == four_digits(year) + after_year(1, 1),
        year_end(year) == four_digits(year) + after_year(12, 31),
{
    reveal_strlit("-01-01");
    reveal_strlit("-12-31");
    assert("-01-01"@ =~= after_year(1, 1));
    assert("-12-31"@ =~= after_year(12, 31));
}

/// Within a year, dates sort by month and day.
proof fn lemma_after_year_sorts(month: int, day: int, other_month: int, other_day: int)
    requires
        0 <= month < 100,
        0 <= day < 100,
        0 <= other_month < 100,
        0 <= other_day < 100,
    ensures
        text_less(after_year(month, day), after_year(other_month, other_day)) == (month
            < other_month || (month == other_month && day < other_day)),
{
    let dash = seq!['-'];
    let a = two_digits(month) + (dash + two_digits(day));
    let b = two_digits(other_month) + (dash + two_digits(other_day));
    assert(after_year(month, day) =~= dash + a);
    assert(after_year(other_month, other_day) =~= dash + b);
    lemma_same_start(dash, a, b);
    lemma_two_digits_sort(month, other_month);
    lemma_two_digits_sort(day, other_day);
    if month == other_month {
        lemma_same_start(
            two_digits(month),
            dash + two_digits(day),
            dash + two_digits(other_day),
        );
        lemma_same_start(dash, two_digits(day), two_digits(other_day));
    } else {
        lemma_different_start(
            two_digits(month),
            two_digits(other_month),
            dash + two_digits(day),
            dash + two_digits(other_day),
        );
    }
}

/// Dates sort as the days they name: by year, month and day.
pub proof fn law_dates_sort_as_days(a: Date, b: Date)
    requires
        a.valid(),
        b.valid(),
    ensures
        text_less(a.written(), b.written()) == (a.year < b.year || (a.year == b.year && (a.month
            < b.month || (a.month == b.month && a.day < b.day)))),
{
    lemma_date_parts(a.year as int, a.month as int, a.day as int);
    lemma_date_parts(b.year as int, b.month as int, b.day as int);
    let p = four_digits(a.year as int);
    let q = four_digits(b.year as int);
    let x = after_year(a.month as int, a.day as int);
    let y = after_year(b.month as int, b.day as int);
    lemma_four_digits_sort(a.year as int, b.year as int);
    lemma_after_year_sorts(a.month as int, a.day as int, b.month as int, b.day as int);
    if a.year == b.year {
        lemma_same_start(p, x, y);
    } else {
        lemma_different_start(p, q, x, y);
    }
}

/// A day lies between the first and the last day of a year exactly where it is a
/// day of that year.
proof fn lemma_within_year(day: Date, year: int)
    requires
        day.valid(),
        0 <= year <= 9999,
    ensures
        (text_at_most(year_start(year), day.written()) && text_at_most(
            day.written(),
            year_end(year),
        )) == (day.year == year),
{
    let first = Date { year: year as i32, month: 1, day: 1 };
    let last = Date { year: year as i32, month: 12, day: 31 };
    lemma_year_bounds(year);
    lemma_date_parts(year, 1, 1);
    lemma_date_parts(year, 12, 31);
    law_dates_sort_as_days(first, day);
    law_dates_sort_as_days(day, last);
    law_dates_sort_as_days(day, first);
    law_dates_sort_as_days(last, day);
    law_written_day_reads_back(day.year as int, day.month as int, day.day as int);
    law_written_day_reads_back(year, 1, 1);
    law_written_day_reads_back(year, 12, 31);
    lemma_text_less_total(first.written(), day.written());
    lemma_text_less_total(day.written(), last.written());
}

// ---------------------------------------------------------------- the years of the store

/// Whether a text is the normal form of a date.
pub open spec fn is_normal(date: Seq<char>) -> bool {
    normal_date(date) matches Some(day) && day.written() == date
}

/// Whether every row has a date in its normal form and a category that is known.
pub open spec fn well_kept(rows: Rows) -> bool {
    forall|key: (Seq<char>, Seq<char>)| #[trigger]
        rows.contains_key(key) ==> is_normal(key.0) && category_named(key.1) is Some
}

/// Whether a row has a date of the year.
pub open spec fn has_record_of(rows: Rows, year: int) -> bool {
    exists|key: (Seq<char>, Seq<char>)| #[trigger]
        rows.contains_key(key) && normal_date(key.0)->0.year == year
}

/// There is data of a year exactly where a record has a date of that year.
pub proof fn law_data_available(rows: Rows, year: int)
    requires
        well_kept(rows),
        0 <= year <= 9999,
    ensures
        has_data_of(rows, year) == has_record_of(rows, year),
{
    assert forall|key: (Seq<char>, Seq<char>)| #[trigger] rows.contains_key(key) implies (
    text_at_most(year_start(year), key.0) && text_at_most(key.0, year_end(year))) == (normal_date(
        key.0,
    )->0.year == year) by {
        law_normal_form(key.0);
        lemma_within_year(normal_date(key.0)->0, year);
    }
    if has_data_of(rows, year) {
        let key = choose|key: (Seq<char>, Seq<char>)| #[trigger]
            rows.contains_key(key) && text_at_most(year_start(year), key.0) && text_at_most(
                key.0,
                year_end(year),
            );
        assert(rows.contains_key(key) && normal_date(key.0)->0.year == year);
    }
    if has_record_of(rows, year) {
        let key = choose|key: (Seq<char>, Seq<char>)| #[trigger]
            rows.contains_key(key) && normal_date(key.0)->0.year == year;
        assert(rows.contains_key(key));
        assert(has_date_within(rows, year_start(year), year_end(year)));
    }
}

/// The year of a date is written in its first four characters.
proof fn lemma_year_part(date: Seq<char>)
    requires
        is_normal(date),
    ensures
        year_part(date) == four_digits(normal_date(date)->0.year as int),
        0 <= normal_date(date)->0.year <= 9999,
{
    law_normal_form(date);
    let day = normal_date(date)->0;
    lemma_date_parts(day.year as int, day.month as int, day.day as int);
    let y = four_digits(day.year as int);
    assert(date[0] == y[0] && date[1] == y[1] && date[2] == y[2] && date[3] == y[3]);
    let s1 = date.drop_first();
    let s2 = s1.drop_first();
    let s3 = s2.drop_first();
    assert(s1[0] == date[1] && s2[0] == date[2] && s3[0] == date[3]);
    reveal_with_fuel(leading, 5);
    assert(year_part(date) =~= y);
}

/// A year can be read back from its four digits.
proof fn lemma_year_reads_back(year: int)
    requires
        0 <= year <= 9999,
    ensures
        parse_integer_32(four_digits(year)) == Some(year as i32),
{
    let s = four_digits(year);
    reveal_with_fuel(digits_value, 5);
    assert(s.len() == 4);
    assert(all_digits(s));
    assert(s[0] != '-' && s[0] != '+');
    assert(digits_value(s) == year);
}

/// Whether a text is a year in four digits.
spec fn writes_year(part: Seq<char>) -> bool {
    exists|y: int| 0 <= y <= 9999 && part == #[trigger] four_digits(y)
}

/// Texts that each write a year name those years, in order.
proof fn lemma_years_named(parts: Seq<Seq<char>>)
    requires
        forall|i: int| 0 <= i < parts.len() ==> writes_year(#[trigger] parts[i]),
    ensures
        years_named(parts).len() == parts.len(),
        forall|i: int|
            0 <= i < parts.len() ==> 0 <= (#[trigger] years_named(parts)[i]) <= 9999
                && four_digits(years_named(parts)[i] as int) == parts[i],
    decreases parts.len(),
{
    if parts.len() > 0 {
        let rest = parts.drop_last();
        lemma_years_named(rest);
        assert(writes_year(parts[parts.len() - 1]));
        let y = choose|y: int| 0 <= y <= 9999 && parts.last() == #[trigger] four_digits(y);
        lemma_year_reads_back(y);
        assert forall|i: int| 0 <= i < parts.len() implies 0 <= (#[trigger] years_named(parts)[i])
            <= 9999 && four_digits(years_named(parts)[i] as int) == parts[i] by {
            if i < rest.len() {
                assert(years_named(parts)[i] == years_named(rest)[i]);
                assert(rest[i] == parts[i]);
            }
        }
    }
}

/// Each of the years comes from a row.
proof fn lemma_part_has_key(rows: Rows, parts: Seq<Seq<char>>, i: int) -> (key: (
    Seq<char>,
    Seq<char>,
))
    requires
        are_year_parts(rows, parts),
        0 <= i < parts.len(),
    ensures
        rows.contains_key(key),
        year_part(key.0) == parts[i],
{
    reveal(are_year_parts);
    choose|key: (Seq<char>, Seq<char>)| #[trigger]
        rows.contains_key(key) && year_part(key.0) == parts[i]
}

/// Each row gives one of the years.
proof fn lemma_key_has_part(
    rows: Rows,
    parts: Seq<Seq<char>>,
    key: (Seq<char>, Seq<char>),
) -> (i: int)
    requires
        are_year_parts(rows, parts),
        rows.contains_key(key),
    ensures
        0 <= i < parts.len(),
        parts[i] == year_part(key.0),
{
    reveal(are_year_parts);
    choose|i: int| 0 <= i < parts.len() && #[trigger] parts[i] == year_part(key.0)
}

/// The first four characters of the dates write years.
proof fn lemma_parts_write_years(rows: Rows, parts: Seq<Seq<char>>)
    requires
        well_kept(rows),
        are_year_parts(rows, parts),
    ensures
        forall|i: int| 0 <= i < parts.len() ==> writes_year(#[trigger] parts[i]),
{
    assert forall|i: int| 0 <= i < parts.len() implies writes_year(#[trigger] parts[i]) by {
        let key = lemma_part_has_key(rows, parts, i);
        lemma_year_part(key.0);
    }
}

/// A year that is named has a record, and a year with a record is named.
proof fn lemma_year_is_named(rows: Rows, parts: Seq<Seq<char>>, year: i32)
    requires
        well_kept(rows),
        are_year_parts(rows, parts),
    ensures
        years_named(parts).contains(year) == has_record_of(rows, year as int),
{
    let years = years_named(parts);
    lemma_parts_write_years(rows, parts);
    lemma_years_named(parts);
    if years.contains(year) {
        let i = choose|i: int| 0 <= i < years.len() && years[i] == year;
        let key = lemma_part_has_key(rows, parts, i);
        lemma_year_part(key.0);
        lemma_four_digits_sort(year as int, normal_date(key.0)->0.year as int);
    }
    if has_record_of(rows, year as int) {
        let key = choose|key: (Seq<char>, Seq<char>)| #[trigger]
            rows.contains_key(key) && normal_date(key.0)->0.year == year;
        lemma_year_part(key.0);
        let i = lemma_key_has_part(rows, parts, key);
        assert(four_digits(years[i] as int) == parts[i]);
        lemma_four_digits_sort(years[i] as int, year as int);
    }
}

/// The years of the store are those of which there is a record, each of them
/// once, ascending.
pub proof fn law_years_are_those_with_records(rows: Rows, years: Seq<i32>)
    requires
        well_kept(rows),
        are_years(rows, years),
    ensures
        forall|i: int, j: int| 0 <= i < j < years.len() ==> years[i] < years[j],
        forall|year: i32| #[trigger] years.contains(year) == has_record_of(rows, year as int),
{
    let parts = choose|parts: Seq<Seq<char>>| #[trigger]
        are_year_parts(rows, parts) && years == years_named(parts);
    lemma_parts_write_years(rows, parts);
    lemma_years_named(parts);
    assert forall|i: int, j: int| 0 <= i < j < years.len() implies years[i] < years[j] by {
        assert(text_less(parts[i], parts[j])) by {
            reveal(are_year_parts);
        }
        lemma_four_digits_sort(years[i] as int, years[j] as int);
    }
    assert forall|year: i32| #[trigger] years.contains(year) == has_record_of(
        rows,
        year as int,
    ) by {
        lemma_year_is_named(rows, parts, year);
    }
}

/// The records of a year are those with a date of that year; there is one exactly
/// where there is data of the year.
pub proof fn law_year_listing(rows: Rows, year: int, records: Seq<RecordView>)
    requires
        well_kept(rows),
        0 <= year <= 9999,
        are_year_records(rows, year, records),
    ensures
        (records.len() > 0) == has_data_of(rows, year),
        forall|i: int|
            0 <= i < records.len() ==> normal_date((#[trigger] records[i]).date)->0.year == year,
        forall|key: (Seq<char>, Seq<char>)| #[trigger]
            rows.contains_key(key) && normal_date(key.0)->0.year == year ==> exists|i: int|
                0 <= i < records.len() && record_key(#[trigger] records[i]) == key,
{
    law_data_available(rows, year);
    assert forall|i: int| 0 <= i < records.len() implies normal_date(
        (#[trigger] records[i]).date,
    )->0.year == year by {
        let key = record_key(records[i]);
        assert(rows.contains_key(key));
        lemma_year_part(key.0);
        lemma_four_digits_sort(normal_date(key.0)->0.year as int, year);
    }
    assert forall|key: (Seq<char>, Seq<char>)| #[trigger]
        rows.contains_key(key) && normal_date(key.0)->0.year == year implies exists|i: int|
        0 <= i < records.len() && record_key(#[trigger] records[i]) == key by {
        lemma_year_part(key.0);
    }
    if records.len() > 0 {
        assert(rows.contains_key(record_key(records[0])));
    }
}

/// Whether every row has a category that is known.
pub open spec fn categories_known(rows: Rows) -> bool {
    forall|key: (Seq<char>, Seq<char>)| #[trigger]
        rows.contains_key(key) ==> category_named(key.1) is Some
}

/// Writing a record keeps the categories known, whatever its date is.
pub proof fn law_writing_keeps_categories_known(rows: Rows, record: RecordView)
    requires
        categories_known(rows),
    ensures
        categories_known(rows.insert(record_key(record), record_value(record))),
{
    law_category_round_trips(record.category, Seq::empty());
}

/// Every record is counted in exactly one category.
pub proof fn law_categories_add_up(rows: Rows)
    requires
        categories_known(rows),
        rows.dom().finite(),
    ensures
        rows.dom().len() == keys_of_category(rows, category_text(Category::Holiday)).len()
            + keys_of_category(rows, category_text(Category::Workday)).len() + keys_of_category(
            rows,
            category_text(Category::InLieu),
        ).len(),
{
    let h = keys_of_category(rows, category_text(Category::Holiday));
    let w = keys_of_category(rows, category_text(Category::Workday));
    let l = keys_of_category(rows, category_text(Category::InLieu));
    crate::model::lemma_category_texts_differ();
    assert(h.disjoint(w));
    assert((h + w).disjoint(l));
    assert(rows.dom() =~= h + w + l) by {
        assert forall|key: (Seq<char>, Seq<char>)| rows.dom().contains(key) implies (h + w
            + l).contains(key) by {
            assert(rows.contains_key(key));
            law_category_round_trips(Category::Holiday, key.1);
        }
    }
    vstd::set_lib::lemma_set_disjoint_lens(h, w);
    vstd::set_lib::lemma_set_disjoint_lens(h + w, l);
}

/// A category has at most one record for each date.
proof fn lemma_one_of_a_category(rows: Rows, category: Seq<char>)
    requires
        rows.dom().finite(),
    ensures
        keys_of_category(rows, category).len() <= dates_of(rows).len(),
{
    let keys = keys_of_category(rows, category);
    let date = |key: (Seq<char>, Seq<char>)| key.0;
    assert(rows.dom().map(date) =~= dates_of(rows));
    vstd::set_lib::lemma_map_size_bound(rows.dom(), dates_of(rows), date);
    assert(vstd::relations::injective_on(date, keys));
    vstd::set_lib::lemma_map_size(keys, keys.map(date), date);
    assert(keys.map(date).subset_of(dates_of(rows)));
    vstd::set_lib::lemma_len_subset(keys.map(date), dates_of(rows));
}

/// Two lists of texts in strict order are the same where they have the same texts.
proof fn lemma_one_ascending_list(a: Seq<Seq<char>>, b: Seq<Seq<char>>)
    requires
        forall|i: int, j: int|
            0 <= i < j < a.len() ==> text_less(#[trigger] a[i], #[trigger] a[j]),
        forall|i: int, j: int|
            0 <= i < j < b.len() ==> text_less(#[trigger] b[i], #[trigger] b[j]),
        forall|t: Seq<char>| #[trigger] a.contains(t) == b.contains(t),
    ensures
        a == b,
    decreases a.len(),
{
    if a.len() == 0 {
        if b.len() > 0 {
            assert(b.contains(b[0]));
            assert(a.contains(b[0]));
        }
        assert(a =~= b);
    } else {
        let x = a.last();
        assert(a.contains(x));
        assert(b.contains(x));
        let y = b.last();
        assert(b.contains(y));
        assert(a.contains(y));
        let i = choose|i: int| 0 <= i < b.len() && b[i] == x;
        let j = choose|j: int| 0 <= j < a.len() && a[j] == y;
        if i < b.len() - 1 {
            assert(text_less(b[i], b[b.len() - 1]));
            if j < a.len() - 1 {
                assert(text_less(a[j], a[a.len() - 1]));
                lemma_text_less_transitive(x, y, x);
            }
            lemma_text_less_irreflexive(x);
        }
        assert(x == y);
        let p = a.drop_last();
        let q = b.drop_last();
        assert forall|t: Seq<char>| #[trigger] p.contains(t) == q.contains(t) by {
            if p.contains(t) {
                let k = choose|k: int| 0 <= k < p.len() && p[k] == t;
                assert(a[k] == t && text_less(a[k], a[a.len() - 1]));
                lemma_text_less_irreflexive(x);
                assert(a.contains(t));
                assert(b.contains(t));
                let m = choose|m: int| 0 <= m < b.len() && b[m] == t;
                assert(q[m] == t);
            }
            if q.contains(t) {
                let k = choose|k: int| 0 <= k < q.len() && q[k] == t;
                assert(b[k] == t && text_less(b[k], b[b.len() - 1]));
                lemma_text_less_irreflexive(x);
                assert(b.contains(t));
                assert(a.contains(t));
                let m = choose|m: int| 0 <= m < a.len() && a[m] == t;
                assert(p[m] == t);
            }
        }
        lemma_one_ascending_list(p, q);
        assert(a =~= p.push(x));
        assert(b =~= q.push(y));
    }
}

/// The years of a store are listed in one way.
pub proof fn law_years_are_listed_in_one_way(rows: Rows, years: Seq<i32>, other: Seq<i32>)
    requires
        are_years(rows, years),
        are_years(rows, other),
    ensures
        years == other,
{
    let a = choose|parts: Seq<Seq<char>>| #[trigger]
        are_year_parts(rows, parts) && years == years_named(parts);
    let b = choose|parts: Seq<Seq<char>>| #[trigger]
        are_year_parts(rows, parts) && other == years_named(parts);
    assert forall|t: Seq<char>| #[trigger] a.contains(t) == b.contains(t) by {
        if a.contains(t) {
            let i = choose|i: int| 0 <= i < a.len() && a[i] == t;
            let key = lemma_part_has_key(rows, a, i);
            let j = lemma_key_has_part(rows, b, key);
            assert(b[j] == t);
        }
        if b.contains(t) {
            let i = choose|i: int| 0 <= i < b.len() && b[i] == t;
            let key = lemma_part_has_key(rows, b, i);
            let j = lemma_key_has_part(rows, a, key);
            assert(a[j] == t);
        }
    }
    assert(forall|i: int, j: int|
        0 <= i < j < a.len() ==> text_less(#[trigger] a[i], #[trigger] a[j])) by {
        reveal(are_year_parts);
    }
    assert(forall|i: int, j: int|
        0 <= i < j < b.len() ==> text_less(#[trigger] b[i], #[trigger] b[j])) by {
        reveal(are_year_parts);
    }
    lemma_one_ascending_list(a, b);
}

/// The overview adds up: every record is counted in one category, each date has
/// between one and three records, and the years are those that the store lists.
pub proof fn law_stats_add_up(rows: Rows, stats: StoreStats, years: Seq<i32>)
    requires
        categories_known(rows),
        rows.dom().len() <= usize::MAX,
        are_stats(rows, stats),
        are_years(rows, years),
    ensures
        stats.total == stats.holiday + stats.workday + stats.in_lieu,
        stats.distinct_dates <= stats.total <= 3 * stats.distinct_dates,
        stats.years@ == years,
{
    let date = |key: (Seq<char>, Seq<char>)| key.0;
    assert(rows.dom().map(date) =~= dates_of(rows));
    vstd::set_lib::lemma_map_size_bound(rows.dom(), dates_of(rows), date);
    law_categories_add_up(rows);
    lemma_one_of_a_category(rows, category_text(Category::Holiday));
    lemma_one_of_a_category(rows, category_text(Category::Workday));
    lemma_one_of_a_category(rows, category_text(Category::InLieu));
    law_years_are_listed_in_one_way(rows, stats.years@, years);
}

// ---------------------------------------------------------------- days

/// The kind of a day, and whether it is a day off, agree with each other and with
/// what is listed: a day off is a holiday or a weekend, a listed day off is always
/// a holiday, and a festival is named exactly where something is listed.
pub proof fn law_day_kinds(rows: Rows, day: Date)
    ensures
        ({
            let q = answer_in(rows, day);
            &&& q.is_rest_day == (q.day_type == DayType::Holiday || q.day_type
                == DayType::Weekend)
            &&& q.is_holiday == (q.day_type == DayType::Holiday)
            &&& q.day_type == DayType::MakeupWorkday ==> q.is_makeup_workday && !q.is_rest_day
            &&& q.day_type == DayType::Weekend ==> q.is_weekend && !q.is_makeup_workday
            &&& q.day_type == DayType::Workday ==> !q.is_weekend && !q.is_makeup_workday
            &&& q.festival is Some == (q.is_holiday || q.is_in_lieu || q.is_makeup_workday)
        }),
{
}

/// Where there is no data of the year, nothing is listed of the day.
pub proof fn law_nothing_listed_without_data(rows: Rows, day: Date)
    requires
        well_kept(rows),
        day.valid(),
    ensures
        !answer_in(rows, day).data_available ==> {
            let q = answer_in(rows, day);
            !q.is_holiday && !q.is_in_lieu && !q.is_makeup_workday && q.festival is None
        },
{
    if !answer_in(rows, day).data_available {
        law_data_available(rows, day.year as int);
        law_days_have_one_name(day, day.written());
        assert forall|category: Category| festival_in(rows, day.written(), category) is None by {
            let key = (day.written(), category_text(category));
            assert(!rows.contains_key(key));
        }
    }
}

/// The festival that a record names.
pub open spec fn record_festival(record: RecordView) -> FestivalView {
    FestivalView {
        name_en: record.name_en,
        name_zh: record.name_zh,
        statutory_days: record.statutory_days,
    }
}

/// The festival of a category, once `record` is written.
pub open spec fn festival_with(
    rows: Rows,
    record: RecordView,
    category: Category,
) -> Option<FestivalView> {
    if record.category == category {
        Some(record_festival(record))
    } else {
        festival_in(rows, record.date, category)
    }
}

/// A record that was written is found on its day, in place of the one of the same
/// category and beside those of the others, and there is data of its year.
pub proof fn law_written_record_is_found(rows: Rows, record: RecordView, day: Date)
    requires
        day.valid(),
        record.date == day.written(),
    ensures
        answer_in(rows.insert(record_key(record), record_value(record)), day) == day_answer(
            day,
            festival_with(rows, record, Category::Holiday),
            festival_with(rows, record, Category::InLieu),
            festival_with(rows, record, Category::Workday),
            true,
        ),
{
    let key = record_key(record);
    let after = rows.insert(key, record_value(record));
    crate::model::lemma_category_texts_differ();
    lemma_within_year(day, day.year as int);
    assert(after.contains_key(key));
    assert(has_data_of(after, day.year as int));
}

/// Writing a record changes nothing that is listed of other days. Data of their
/// year is there where it was before, or where the record is of that year.
pub proof fn law_other_days_stay(rows: Rows, record: RecordView, other: Date)
    requires
        record.date != other.written(),
    ensures
        ({
            let before = answer_in(rows, other);
            let after = answer_in(rows.insert(record_key(record), record_value(record)), other);
            &&& before.data_available ==> after.data_available
            &&& after.data_available ==> before.data_available || (text_at_most(
                year_start(other.year as int),
                record.date,
            ) && text_at_most(record.date, year_end(other.year as int)))
            &&& after == day_answer(
                other,
                festival_in(rows, other.written(), Category::Holiday),
                festival_in(rows, other.written(), Category::InLieu),
                festival_in(rows, other.written(), Category::Workday),
                after.data_available,
            )
        }),
{
    let year = other.year as int;
    let after = rows.insert(record_key(record), record_value(record));
    if has_data_of(rows, year) {
        let key = choose|key: (Seq<char>, Seq<char>)| #[trigger]
            rows.contains_key(key) && text_at_most(year_start(year), key.0) && text_at_most(
                key.0,
                year_end(year),
            );
        assert(after.contains_key(key));
    }
    if has_data_of(after, year) {
        let key = choose|key: (Seq<char>, Seq<char>)| #[trigger]
            after.contains_key(key) && text_at_most(year_start(year), key.0) && text_at_most(
                key.0,
                year_end(year),
            );
        if key != record_key(record) {
            assert(rows.contains_key(key));
        }
    }
}

/// A record that was written is listed among the records of its year.
pub proof fn law_written_record_is_listed(
    rows: Rows,
    record: RecordView,
    listed: Seq<RecordView>,
)
    requires
        is_normal(record.date),
        are_year_records(
            rows.insert(record_key(record), record_value(record)),
            normal_date(record.date)->0.year as int,
            listed,
        ),
    ensures
        listed.contains(record),
{
    let key = record_key(record);
    let after = rows.insert(key, record_value(record));
    lemma_year_part(record.date);
    law_category_round_trips(record.category, Seq::empty());
    assert(after.contains_key(key));
    let i = choose|i: int| 0 <= i < listed.len() && record_key(#[trigger] listed[i]) == key;
    law_category_round_trips(listed[i].category, Seq::empty());
    assert(record_value(listed[i]) == record_value(record));
    assert(listed[i] == record);
}

// ---------------------------------------------------------------- importing

/// What the last of the records with this key says.
spec fn last_write(records: Seq<RecordView>, key: (Seq<char>, Seq<char>)) -> Option<RowValue>
    decreases records.len(),
{
    if records.len() == 0 {
        None
    } else if record_key(records.last()) == key {
        Some(record_value(records.last()))
    } else {
        last_write(records.drop_last(), key)
    }
}

/// After records were written, a row says what the last of its records says, or
/// what it said before.
proof fn lemma_written(rows: Rows, records: Seq<RecordView>, key: (Seq<char>, Seq<char>))
    ensures
        match last_write(records, key) {
            Some(value) => written(rows, records).contains_key(key) && written(rows, records)[key]
                == value,
            None => written(rows, records).contains_key(key) == rows.contains_key(key) && (
            rows.contains_key(key) ==> written(rows, records)[key] == rows[key]),
        },
    decreases records.len(),
{
    if records.len() > 0 {
        lemma_written(rows, records.drop_last(), key);
    }
}

proof fn lemma_last_write(records: Seq<RecordView>, i: int)
    requires
        0 <= i < records.len(),
    ensures
        last_write(records, record_key(records[i])) is Some,
        (forall|j: int| i < j < records.len() ==> record_key(#[trigger] records[j]) != record_key(
            records[i],
        )) ==> last_write(records, record_key(records[i])) == Some(record_value(records[i])),
    decreases records.len(),
{
    if i < records.len() - 1 {
        lemma_last_write(records.drop_last(), i);
        assert(records.drop_last()[i] == records[i]);
        if forall|j: int|
            i < j < records.len() ==> record_key(#[trigger] records[j]) != record_key(records[i]) {
            assert(records.last() == records[records.len() - 1]);
            assert forall|j: int| i < j < records.len() - 1 implies record_key(
                #[trigger] records.drop_last()[j],
            ) != record_key(records[i]) by {
                assert(records.drop_last()[j] == records[j]);
            }
        }
    }
}

proof fn lemma_nothing_written(records: Seq<RecordView>, key: (Seq<char>, Seq<char>))
    requires
        forall|i: int| 0 <= i < records.len() ==> record_key(#[trigger] records[i]) != key,
    ensures
        last_write(records, key) is None,
    decreases records.len(),
{
    if records.len() > 0 {
        assert(records.last() == records[records.len() - 1]);
        assert forall|i: int| 0 <= i < records.len() - 1 implies record_key(
            #[trigger] records.drop_last()[i],
        ) != key by {
            assert(records.drop_last()[i] == records[i]);
        }
        lemma_nothing_written(records.drop_last(), key);
    }
}

/// Of the records with one date and category the last one stays; rows that no
/// record has the date and category of stay as they were.
pub proof fn law_last_record_stays(rows: Rows, records: Seq<RecordView>)
    ensures
        forall|i: int|
            0 <= i < records.len() && (forall|j: int|
                i < j < records.len() ==> record_key(#[trigger] records[j]) != record_key(
                    records[i],
                )) ==> written(rows, records).contains_key(record_key(#[trigger] records[i]))
                && written(rows, records)[record_key(records[i])] == record_value(records[i]),
        forall|key: (Seq<char>, Seq<char>)|
            (forall|i: int| 0 <= i < records.len() ==> record_key(#[trigger] records[i]) != key)
                ==> (#[trigger] written(rows, records).contains_key(key)) == rows.contains_key(key)
                && (rows.contains_key(key) ==> written(rows, records)[key] == rows[key]),
{
    assert forall|i: int|
        0 <= i < records.len() && (forall|j: int|
            i < j < records.len() ==> record_key(#[trigger] records[j]) != record_key(
                records[i],
            )) implies written(rows, records).contains_key(record_key(#[trigger] records[i]))
        && written(rows, records)[record_key(records[i])] == record_value(records[i]) by {
        lemma_last_write(records, i);
        lemma_written(rows, records, record_key(records[i]));
    }
    assert forall|key: (Seq<char>, Seq<char>)|
        (forall|i: int| 0 <= i < records.len() ==> record_key(#[trigger] records[i]) != key)
        implies (#[trigger] written(rows, records).contains_key(key)) == rows.contains_key(key)
        && (rows.contains_key(key) ==> written(rows, records)[key] == rows[key]) by {
        lemma_nothing_written(records, key);
        lemma_written(rows, records, key);
    }
}

/// Whether there is a row for each of the records.
spec fn covers(rows: Rows, records: Seq<RecordView>) -> bool {
    forall|i: int| 0 <= i < records.len() ==> rows.contains_key(record_key(#[trigger] records[i]))
}

/// Where each record has a row, none is new.
proof fn lemma_covered_is_not_new(rows: Rows, records: Seq<RecordView>)
    requires
        covers(rows, records),
    ensures
        new_count(rows, records) == 0,
    decreases records.len(),
{
    if records.len() > 0 {
        let rest = records.drop_last();
        assert forall|i: int| 0 <= i < rest.len() implies rows.contains_key(
            record_key(#[trigger] rest[i]),
        ) by {
            assert(rest[i] == records[i]);
        }
        lemma_covered_is_not_new(rows, rest);
        assert(records.last() == records[records.len() - 1]);
        lemma_written(rows, rest, record_key(records.last()));
    }
}

/// Writing leaves a row for each record.
proof fn lemma_written_covers(rows: Rows, records: Seq<RecordView>)
    ensures
        covers(written(rows, records), records),
{
    assert forall|i: int| 0 <= i < records.len() implies written(rows, records).contains_key(
        record_key(#[trigger] records[i]),
    ) by {
        lemma_last_write(records, i);
        lemma_written(rows, records, record_key(records[i]));
    }
}

/// Writing the same records again changes no row, and none of them is new.
pub proof fn law_writing_again_changes_nothing(rows: Rows, records: Seq<RecordView>)
    ensures
        written(written(rows, records), records) == written(rows, records),
        new_count(written(rows, records), records) == 0,
{
    let once = written(rows, records);
    let twice = written(once, records);
    assert forall|key: (Seq<char>, Seq<char>)|
        #![trigger twice.dom().contains(key)]
        #![trigger twice[key]]
        twice.contains_key(key) == once.contains_key(key) && (once.contains_key(key) ==> twice[key]
            == once[key]) by {
        lemma_written(rows, records, key);
        lemma_written(once, records, key);
    }
    assert(twice =~= once);
    lemma_written_covers(rows, records);
    lemma_covered_is_not_new(once, records);
}

/// The records that a file gives, by its name.
pub open spec fn file_records(file: (String, Contents)) -> Seq<RecordView> {
    records_of(entries_of(file), file.0@)
}

/// What the last file with a record of this key says.
spec fn last_in_files(
    files: Seq<(String, Contents)>,
    taken: Seq<bool>,
    key: (Seq<char>, Seq<char>),
) -> Option<RowValue>
    decreases files.len(),
{
    if files.len() == 0 {
        None
    } else if taken.last() && last_write(file_records(files.last()), key) is Some {
        last_write(file_records(files.last()), key)
    } else {
        last_in_files(files.drop_last(), taken.drop_last(), key)
    }
}

proof fn lemma_rows_after(
    rows: Rows,
    files: Seq<(String, Contents)>,
    taken: Seq<bool>,
    key: (Seq<char>, Seq<char>),
)
    requires
        files.len() == taken.len(),
    ensures
        match last_in_files(files, taken, key) {
            Some(value) => rows_after(rows, files, taken).contains_key(key) && rows_after(
                rows,
                files,
                taken,
            )[key] == value,
            None => rows_after(rows, files, taken).contains_key(key) == rows.contains_key(key) && (
            rows.contains_key(key) ==> rows_after(rows, files, taken)[key] == rows[key]),
        },
    decreases files.len(),
{
    if files.len() > 0 {
        let before = rows_after(rows, files.drop_last(), taken.drop_last());
        lemma_rows_after(rows, files.drop_last(), taken.drop_last(), key);
        lemma_written(before, file_records(files.last()), key);
    }
}

/// Whether there is a row for each record of each file that is taken in.
spec fn covers_files(rows: Rows, files: Seq<(String, Contents)>, taken: Seq<bool>) -> bool {
    forall|i: int|
        0 <= i < files.len() && taken[i] ==> covers(rows, file_records(#[trigger] files[i]))
}

/// Taking files in removes no row.
proof fn lemma_rows_stay(rows: Rows, files: Seq<(String, Contents)>, taken: Seq<bool>)
    requires
        files.len() == taken.len(),
    ensures
        forall|key: (Seq<char>, Seq<char>)| #[trigger]
            rows.contains_key(key) ==> rows_after(rows, files, taken).contains_key(key),
{
    assert forall|key: (Seq<char>, Seq<char>)| #[trigger] rows.contains_key(key) implies rows_after(
        rows,
        files,
        taken,
    ).contains_key(key) by {
        lemma_rows_after(rows, files, taken, key);
    }
}

proof fn lemma_rows_after_covers(rows: Rows, files: Seq<(String, Contents)>, taken: Seq<bool>)
    requires
        files.len() == taken.len(),
    ensures
        covers_files(rows_after(rows, files, taken), files, taken),
    decreases files.len(),
{
    if files.len() > 0 {
        let rest = files.drop_last();
        let before = rows_after(rows, rest, taken.drop_last());
        let after = rows_after(rows, files, taken);
        lemma_rows_after_covers(rows, rest, taken.drop_last());
        assert forall|key: (Seq<char>, Seq<char>)| #[trigger]
            before.contains_key(key) implies after.contains_key(key) by {
            lemma_written(before, file_records(files.last()), key);
        }
        lemma_written_covers(before, file_records(files.last()));
        assert forall|i: int| 0 <= i < files.len() && taken[i] implies covers(
            after,
            file_records(#[trigger] files[i]),
        ) by {
            if i < rest.len() {
                assert(rest[i] == files[i]);
                assert(taken.drop_last()[i] == taken[i]);
                assert(covers(before, file_records(rest[i])));
            }
        }
    }
}

/// Where each record has a row, the reports count none as new.
proof fn lemma_nothing_new_in_files(
    reports: Seq<FileReport>,
    rows: Rows,
    files: Seq<(String, Contents)>,
    taken: Seq<bool>,
)
    requires
        files.len() == taken.len(),
        covers_files(rows, files, taken),
        reports_files(reports, rows, files, taken, true),
    ensures
        inserted_sum(reports) == 0,
    decreases files.len(),
{
    if files.len() > 0 {
        let rest = files.drop_last();
        let part = taken.drop_last();
        assert forall|i: int| 0 <= i < rest.len() && part[i] implies covers(
            rows,
            file_records(#[trigger] rest[i]),
        ) by {
            assert(rest[i] == files[i]);
            assert(taken[i]);
        }
        if taken.last() {
            lemma_nothing_new_in_files(reports.drop_last(), rows, rest, part);
            let before = rows_after(rows, rest, part);
            lemma_rows_stay(rows, rest, part);
            let records = file_records(files.last());
            assert(taken[files.len() - 1]);
            assert(covers(rows, file_records(files[files.len() - 1])));
            assert(covers(before, records));
            lemma_covered_is_not_new(before, records);
        } else {
            lemma_nothing_new_in_files(reports, rows, rest, part);
        }
    }
}

/// The records of all files that are taken in.
pub open spec fn record_total(files: Seq<(String, Contents)>, taken: Seq<bool>) -> nat
    decreases files.len(),
{
    if files.len() == 0 {
        0
    } else {
        let before = record_total(files.drop_last(), taken.drop_last());
        if taken.last() {
            before + file_records(files.last()).len()
        } else {
            before
        }
    }
}

/// Every record of a file that is taken in is counted, as new or as overwritten.
pub proof fn law_reports_count_all_records(
    reports: Seq<FileReport>,
    rows: Rows,
    files: Seq<(String, Contents)>,
    taken: Seq<bool>,
    sole: bool,
)
    requires
        files.len() == taken.len(),
        reports_files(reports, rows, files, taken, sole),
    ensures
        inserted_sum(reports) + updated_sum(reports) == record_total(files, taken),
    decreases files.len(),
{
    if files.len() > 0 {
        let rest = files.drop_last();
        let part = taken.drop_last();
        if taken.last() {
            law_reports_count_all_records(reports.drop_last(), rows, rest, part, sole);
        } else {
            law_reports_count_all_records(reports, rows, rest, part, sole);
        }
    }
}

/// The entries of all files that are taken in that are left out.
pub open spec fn left_out_total(files: Seq<(String, Contents)>, taken: Seq<bool>) -> nat
    decreases files.len(),
{
    if files.len() == 0 {
        0
    } else {
        let before = left_out_total(files.drop_last(), taken.drop_last());
        if taken.last() {
            before + complaints_of(entries_of(files.last())).len()
        } else {
            before
        }
    }
}

/// Every entry that is left out is counted.
pub proof fn law_reports_count_all_left_out(
    reports: Seq<FileReport>,
    rows: Rows,
    files: Seq<(String, Contents)>,
    taken: Seq<bool>,
    sole: bool,
)
    requires
        files.len() == taken.len(),
        reports_files(reports, rows, files, taken, sole),
    ensures
        invalid_sum(reports) == left_out_total(files, taken),
    decreases files.len(),
{
    if files.len() > 0 {
        let rest = files.drop_last();
        let part = taken.drop_last();
        if taken.last() {
            law_reports_count_all_left_out(reports.drop_last(), rows, rest, part, sole);
            assert(texts(reports.last().invalid@).len() == reports.last().invalid@.len());
        } else {
            law_reports_count_all_left_out(reports, rows, rest, part, sole);
        }
    }
}

/// Importing is idempotent: importing the same files again changes neither a row
/// nor a number in the log. Of the records none is counted as new and every one as
/// overwritten, and as many entries are left out as the first time.
pub proof fn law_importing_again_changes_nothing(
    before: Tables,
    after: Tables,
    again: Tables,
    files: Seq<(String, Contents)>,
    taken: Seq<bool>,
    first: ImportReport,
    second: ImportReport,
)
    requires
        files.len() == taken.len(),
        holds_import(before, after, files, taken),
        holds_import(after, again, files, taken),
        reports_import(first, before.rows, files, taken, true),
        reports_import(second, after.rows, files, taken, true),
    ensures
        again.rows == after.rows,
        log_counts(again.log) == log_counts(after.log),
        second.outcome.inserted == 0,
        second.outcome.updated == first.outcome.inserted + first.outcome.updated,
        second.invalid == first.invalid,
{
    assert forall|key: (Seq<char>, Seq<char>)|
        #![trigger again.rows.dom().contains(key)]
        #![trigger again.rows[key]]
        again.rows.contains_key(key) == after.rows.contains_key(key) && (after.rows.contains_key(
            key,
        ) ==> again.rows[key] == after.rows[key]) by {
        lemma_rows_after(before.rows, files, taken, key);
        lemma_rows_after(after.rows, files, taken, key);
    }
    assert(again.rows =~= after.rows);
    lemma_rows_after_covers(before.rows, files, taken);
    lemma_nothing_new_in_files(second.files@, after.rows, files, taken);
    law_reports_count_all_records(first.files@, before.rows, files, taken, true);
    law_reports_count_all_records(second.files@, after.rows, files, taken, true);
    law_reports_count_all_left_out(first.files@, before.rows, files, taken, true);
    law_reports_count_all_left_out(second.files@, after.rows, files, taken, true);
    let counts = log_counts(before.log);
    let once = counts_after(counts, files, taken);
    let twice = counts_after(once, files, taken);
    assert forall|file: Seq<char>|
        #![trigger twice.dom().contains(file)]
        #![trigger twice[file]]
        twice.contains_key(file) == once.contains_key(file) && (once.contains_key(file)
            ==> twice[file] == once[file]) by {
        lemma_counts_after(counts, files, taken, file);
        lemma_counts_after(once, files, taken, file);
    }
    assert(twice =~= once);
}

/// The number of files that could not be read.
pub open spec fn unreadable_count(files: Seq<(String, Contents)>) -> nat
    decreases files.len(),
{
    if files.len() == 0 {
        0
    } else {
        let before = unreadable_count(files.drop_last());
        if files.last().1 is Err {
            before + 1
        } else {
            before
        }
    }
}

/// Whether only files fail that cannot be read.
spec fn readable_taken(files: Seq<(String, Contents)>, taken: Seq<bool>) -> bool {
    forall|i: int| 0 <= i < files.len() ==> #[trigger] taken[i] == (files[i].1 is Ok)
}

/// At least the files that cannot be read fail; where there are no other failures,
/// all other files are taken in.
proof fn lemma_failures_count(
    failures: Seq<(String, String)>,
    files: Seq<(String, Contents)>,
    taken: Seq<bool>,
)
    requires
        files.len() == taken.len(),
        reports_failures(failures, files, taken),
        forall|i: int| 0 <= i < files.len() && #[trigger] taken[i] ==> files[i].1 is Ok,
    ensures
        failures.len() >= unreadable_count(files),
        failures.len() == unreadable_count(files) ==> readable_taken(files, taken),
    decreases files.len(),
{
    if files.len() > 0 {
        let rest = files.drop_last();
        let part = taken.drop_last();
        let n = files.len() - 1;
        assert forall|i: int| 0 <= i < rest.len() && #[trigger] part[i] implies rest[i].1 is Ok by {
            assert(taken[i] && rest[i] == files[i]);
        }
        if taken.last() {
            assert(taken[n]);
            lemma_failures_count(failures, rest, part);
        } else {
            lemma_failures_count(failures.drop_last(), rest, part);
        }
        if failures.len() == unreadable_count(files) {
            assert forall|i: int| 0 <= i < files.len() implies #[trigger] taken[i] == (
            files[i].1 is Ok) by {
                if i < n {
                    assert(part[i] == taken[i] && rest[i] == files[i]);
                }
            }
        }
    }
}

/// Importing a directory is idempotent: where no file failed in SQLite, importing
/// it again leaves every row and every number in the log as it was, counts no
/// record as new and every one as overwritten, and leaves out as many entries.
pub proof fn law_importing_a_directory_again_changes_nothing(
    before: Store,
    after: Store,
    again: Store,
    dir: Seq<char>,
    listing: Option<Vec<(String, Contents)>>,
    year_filter: Seq<i32>,
    first: ImportReport,
    second: ImportReport,
)
    requires
        before.sole(),
        dir_imported(before, after, dir, listing, year_filter, Ok(first)),
        dir_imported(after, again, dir, listing, year_filter, Ok(second)),
        first.failures@.len() == unreadable_count(asked_for(listed(listing), year_filter)),
        second.failures@.len() == unreadable_count(asked_for(listed(listing), year_filter)),
    ensures
        again@.rows == after@.rows,
        log_counts(again@.log) == log_counts(after@.log),
        second.outcome.inserted == 0,
        second.outcome.updated == first.outcome.inserted + first.outcome.updated,
        second.invalid == first.invalid,
{
    let files = asked_for(listed(listing), year_filter);
    let a = choose|taken: Seq<bool>| #[trigger] imported(before, after, files, taken, first);
    let b = choose|taken: Seq<bool>| #[trigger] imported(after, again, files, taken, second);
    lemma_failures_count(first.failures@, files, a);
    lemma_failures_count(second.failures@, files, b);
    assert(a =~= b) by {
        assert forall|i: int| 0 <= i < files.len() implies a[i] == b[i] by {
            assert(a[i] == (files[i].1 is Ok));
            assert(b[i] == (files[i].1 is Ok));
        }
    }
    law_importing_again_changes_nothing(
        before@,
        after@,
        again@,
        files,
        a,
        first,
        second,
    );
}

/// The number that the log gives last for a file.
spec fn last_count(
    files: Seq<(String, Contents)>,
    taken: Seq<bool>,
    file: Seq<char>,
) -> Option<i64>
    decreases files.len(),
{
    if files.len() == 0 {
        None
    } else if taken.last() && entries_of(files.last()).len() > 0 && files.last().0@ == file {
        Some(file_records(files.last()).len() as i64)
    } else {
        last_count(files.drop_last(), taken.drop_last(), file)
    }
}

proof fn lemma_counts_after(
    counts: Map<Seq<char>, i64>,
    files: Seq<(String, Contents)>,
    taken: Seq<bool>,
    file: Seq<char>,
)
    requires
        files.len() == taken.len(),
    ensures
        match last_count(files, taken, file) {
            Some(n) => counts_after(counts, files, taken).contains_key(file) && counts_after(
                counts,
                files,
                taken,
            )[file] == n,
            None => counts_after(counts, files, taken).contains_key(file) == counts.contains_key(
                file,
            ) && (counts.contains_key(file) ==> counts_after(counts, files, taken)[file]
                == counts[file]),
        },
    decreases files.len(),
{
    if files.len() > 0 {
        lemma_counts_after(counts, files.drop_last(), taken.drop_last(), file);
    }
}

/// A later file overrides an earlier one: a row says what the last file says that
/// has a record of its date and category.
pub proof fn law_later_file_overrides(
    rows: Rows,
    files: Seq<(String, Contents)>,
    taken: Seq<bool>,
    at: int,
    i: int,
)
    requires
        files.len() == taken.len(),
        0 <= at < files.len(),
        taken[at],
        0 <= i < file_records(files[at]).len(),
        forall|j: int|
            i < j < file_records(files[at]).len() ==> record_key(
                #[trigger] file_records(files[at])[j],
            ) != record_key(file_records(files[at])[i]),
        forall|later: int, j: int|
            at < later < files.len() && taken[later] && 0 <= j < file_records(files[later]).len()
                ==> record_key(#[trigger] file_records(files[later])[j]) != record_key(
                file_records(files[at])[i],
            ),
    ensures
        ({
            let record = file_records(files[at])[i];
            &&& rows_after(rows, files, taken).contains_key(record_key(record))
            &&& rows_after(rows, files, taken)[record_key(record)] == record_value(record)
        }),
    decreases files.len(),
{
    let record = file_records(files[at])[i];
    let key = record_key(record);
    let rest = files.drop_last();
    let part = taken.drop_last();
    let records = file_records(files.last());
    let before = rows_after(rows, rest, part);
    assert(files.last() == files[files.len() - 1]);
    if at == files.len() - 1 {
        lemma_last_write(records, i);
        lemma_written(before, records, key);
    } else {
        assert(rest[at] == files[at]);
        assert(part[at] == taken[at]);
        assert forall|later: int, j: int|
            at < later < rest.len() && part[later] && 0 <= j < file_records(rest[later]).len()
            implies record_key(#[trigger] file_records(rest[later])[j]) != key by {
            assert(rest[later] == files[later]);
            assert(taken[later]);
            assert(record_key(file_records(files[later])[j]) != key);
        }
        law_later_file_overrides(rows, rest, part, at, i);
        if taken.last() {
            assert(taken[files.len() - 1]);
            assert forall|j: int| 0 <= j < records.len() implies record_key(
                #[trigger] records[j],
            ) != key by {
                assert(record_key(file_records(files[files.len() - 1])[j]) != key);
            }
            lemma_nothing_written(records, key);
            lemma_written(before, records, key);
        }
    }
}

/// The records of a file have dates in their normal form.
proof fn lemma_records_are_normal(entries: Seq<RawEntry>, file: Seq<char>)
    ensures
        forall|i: int|
            0 <= i < records_of(entries, file).len() ==> is_normal(
                (#[trigger] records_of(entries, file)[i]).date,
            ),
    decreases entries.len(),
{
    if entries.len() > 0 {
        let rest = entries.drop_last();
        lemma_records_are_normal(rest, file);
        law_normal_form(entries.last().date);
        assert forall|i: int| 0 <= i < records_of(entries, file).len() implies is_normal(
            (#[trigger] records_of(entries, file)[i]).date,
        ) by {
            if i < records_of(rest, file).len() {
                assert(records_of(entries, file)[i] == records_of(rest, file)[i]);
            }
        }
    }
}

proof fn lemma_writing_keeps_rows(rows: Rows, records: Seq<RecordView>)
    requires
        well_kept(rows),
        forall|i: int| 0 <= i < records.len() ==> is_normal((#[trigger] records[i]).date),
    ensures
        well_kept(written(rows, records)),
    decreases records.len(),
{
    if records.len() > 0 {
        let rest = records.drop_last();
        assert forall|i: int| 0 <= i < rest.len() implies is_normal((#[trigger] rest[i]).date) by {
            assert(rest[i] == records[i]);
        }
        lemma_writing_keeps_rows(rows, rest);
        assert(records.last() == records[records.len() - 1]);
        law_category_round_trips(records.last().category, Seq::empty());
    }
}

/// Importing writes only rows with dates in their normal form and known
/// categories, whatever the files hold.
pub proof fn law_import_keeps_rows_well_kept(
    rows: Rows,
    files: Seq<(String, Contents)>,
    taken: Seq<bool>,
)
    requires
        well_kept(rows),
        files.len() == taken.len(),
    ensures
        well_kept(rows_after(rows, files, taken)),
    decreases files.len(),
{
    if files.len() > 0 {
        let file = files.last();
        law_import_keeps_rows_well_kept(rows, files.drop_last(), taken.drop_last());
        lemma_records_are_normal(entries_of(file), file.0@);
        lemma_writing_keeps_rows(
            rows_after(rows, files.drop_last(), taken.drop_last()),
            file_records(file),
        );
    }
}

// ---------------------------------------------------------------- the order of files

/// Whether no two items have the same name.
pub open spec fn names_differ<T>(items: Seq<(String, T)>) -> bool {
    forall|i: int, j: int|
        0 <= i < j < items.len() ==> (#[trigger] items[i]).0@ != (#[trigger] items[j]).0@
}

/// Whether a file is a data file.
spec fn is_data<T>() -> spec_fn((String, T)) -> bool {
    |file: (String, T)| is_data_name(file.0@)
}

/// The data files are those of the files that are data files, as often as they
/// occur.
proof fn lemma_data_files_chosen<T>(files: Seq<(String, T)>)
    ensures
        data_files(files).to_multiset() == files.to_multiset().filter(is_data::<T>()),
    decreases files.len(),
{
    broadcast use vstd::seq_lib::group_to_multiset_ensures;
    broadcast use vstd::multiset::group_multiset_axioms;

    if files.len() == 0 {
        assert(data_files(files).to_multiset() =~= files.to_multiset().filter(is_data::<T>()));
    } else {
        let tail = files.drop_first();
        lemma_data_files_chosen(tail);
        assert(files =~= tail.insert(0, files[0]));
        let rest = data_files(tail);
        if is_data_name(files[0].0@) {
            assert(data_files(files) =~= rest.insert(0, files[0]));
        }
        assert(data_files(files).to_multiset() =~= files.to_multiset().filter(is_data::<T>()));
    }
}

/// Two orders of the same items, both by name, are the same where no two items
/// have the same name.
proof fn lemma_one_order<T>(a: Seq<(String, T)>, b: Seq<(String, T)>)
    requires
        a.to_multiset() == b.to_multiset(),
        names_ascend(a),
        names_ascend(b),
        names_differ(a),
        names_differ(b),
    ensures
        a == b,
    decreases a.len(),
{
    broadcast use vstd::seq_lib::group_to_multiset_ensures;
    broadcast use vstd::multiset::group_multiset_axioms;

    assert(a.len() == a.to_multiset().len());
    assert(b.len() == b.to_multiset().len());
    if a.len() == 0 {
        assert(a =~= b);
    } else {
        let x = a.last();
        let y = b.last();
        let n = a.len() - 1;
        assert(b.to_multiset().contains(x)) by {
            assert(a.contains(x));
        }
        assert(a.to_multiset().contains(y)) by {
            assert(b.contains(y));
        }
        let i = choose|i: int| 0 <= i < b.len() && b[i] == x;
        let j = choose|j: int| 0 <= j < a.len() && a[j] == y;
        if i < n {
            assert(text_at_most(b[i].0@, b[n].0@));
            assert(b[i].0@ != b[n].0@);
            if j < n {
                assert(text_at_most(a[j].0@, a[n].0@));
                lemma_text_less_transitive(x.0@, y.0@, x.0@);
            }
            lemma_text_less_irreflexive(x.0@);
        }
        assert(x == y);
        assert(a =~= a.drop_last().insert(n, x));
        assert(b =~= b.drop_last().insert(n, x));
        let p = a.drop_last().to_multiset();
        let q = b.drop_last().to_multiset();
        assert(a.to_multiset() == p.insert(x));
        assert(b.to_multiset() == q.insert(x));
        assert(p =~= q) by {
            assert(p.insert(x).remove(x) =~= p);
            assert(q.insert(x).remove(x) =~= q);
        }
        lemma_one_order(a.drop_last(), b.drop_last());
    }
}

/// Items with different names keep them when their order changes.
proof fn lemma_names_still_differ<T>(a: Seq<(String, T)>, b: Seq<(String, T)>)
    requires
        a.to_multiset() == b.to_multiset(),
        names_differ(a),
    ensures
        names_differ(b),
{
    broadcast use vstd::seq_lib::group_to_multiset_ensures;
    broadcast use vstd::multiset::group_multiset_axioms;

    assert forall|i: int, j: int| 0 <= i < j < b.len() implies (#[trigger] b[i]).0@ != (
    #[trigger] b[j]).0@ by {
        if b[i].0@ == b[j].0@ {
            assert(b.contains(b[i]) && b.contains(b[j]));
            assert(a.to_multiset().contains(b[i]));
            assert(a.to_multiset().contains(b[j]));
            let p = choose|p: int| 0 <= p < a.len() && a[p] == b[i];
            let q = choose|q: int| 0 <= q < a.len() && a[q] == b[j];
            assert(p == q);
            lemma_twice(b, i, j);
            lemma_once(a, p);
        }
    }
}

/// An item that stands in two places occurs more than once.
proof fn lemma_twice<A>(s: Seq<A>, i: int, j: int)
    requires
        0 <= i < j < s.len(),
        s[i] == s[j],
    ensures
        s.to_multiset().count(s[i]) >= 2,
{
    broadcast use vstd::seq_lib::group_to_multiset_ensures;
    broadcast use vstd::multiset::group_multiset_axioms;

    let rest = s.remove(j);
    assert(s =~= rest.insert(j, s[j]));
    assert(rest[i] == s[i]);
    assert(rest.contains(s[i]));
}

/// An item with a name of its own occurs once.
proof fn lemma_once<T>(items: Seq<(String, T)>, p: int)
    requires
        0 <= p < items.len(),
        names_differ(items),
    ensures
        items.to_multiset().count(items[p]) == 1,
{
    broadcast use vstd::seq_lib::group_to_multiset_ensures;
    broadcast use vstd::multiset::group_multiset_axioms;

    let rest = items.remove(p);
    assert(items =~= rest.insert(p, items[p]));
    if rest.contains(items[p]) {
        let q = choose|q: int| 0 <= q < rest.len() && rest[q] == items[p];
        if q < p {
            assert(items[q] == rest[q]);
        } else {
            assert(items[q + 1] == rest[q]);
        }
    }
}

/// In which order a directory lists its files does not matter: the same files are
/// taken in, in the same order.
pub proof fn law_listing_order_does_not_matter(
    files: Seq<(String, Contents)>,
    other: Seq<(String, Contents)>,
    year_filter: Seq<i32>,
)
    requires
        files.to_multiset() == other.to_multiset(),
        names_differ(files),
    ensures
        asked_for(files, year_filter) == asked_for(other, year_filter),
{
    lemma_names_still_differ(files, other);
    let a = data_files(files);
    let b = data_files(other);
    lemma_data_files_chosen(files);
    lemma_data_files_chosen(other);
    lemma_data_names_differ(files);
    law_by_name_sorts(a);
    law_by_name_sorts(b);
    lemma_names_still_differ(a, by_name(a));
    lemma_names_still_differ(a, by_name(b));
    lemma_one_order(by_name(a), by_name(b));
}

/// Data files are files, and stand as far apart.
proof fn lemma_data_names_differ<T>(files: Seq<(String, T)>)
    requires
        names_differ(files),
    ensures
        names_differ(data_files(files)),
        forall|i: int|
            0 <= i < data_files(files).len() ==> files.contains(#[trigger] data_files(files)[i]),
    decreases files.len(),
{
    if files.len() > 0 {
        let tail = files.drop_first();
        assert forall|i: int, j: int| 0 <= i < j < tail.len() implies (#[trigger] tail[i]).0@ != (
        #[trigger] tail[j]).0@ by {
            assert(tail[i] == files[i + 1] && tail[j] == files[j + 1]);
        }
        lemma_data_names_differ(tail);
        let rest = data_files(tail);
        let all = data_files(files);
        let shift: int = if is_data_name(files[0].0@) {
            1
        } else {
            0
        };
        assert forall|i: int| 0 <= i < all.len() implies files.contains(#[trigger] all[i]) by {
            if i >= shift {
                assert(all[i] == rest[i - shift]);
                let k = choose|k: int| 0 <= k < tail.len() && tail[k] == rest[i - shift];
                assert(files[k + 1] == all[i]);
            }
        }
        assert forall|i: int, j: int| 0 <= i < j < all.len() implies (#[trigger] all[i]).0@ != (
        #[trigger] all[j]).0@ by {
            assert(all[j] == rest[j - shift]);
            if i >= shift {
                assert(all[i] == rest[i - shift]);
            } else {
                let k = choose|k: int| 0 <= k < tail.len() && tail[k] == rest[j - shift];
                assert(files[k + 1] == all[j]);
            }
        }
    }
}

} // verus!
