//! What is answered to requests for years and for several days, and to those that
//! are refused.

use vstd::prelude::*;

use crate::api::docs::{HealthResponse, YearsResponse};
use crate::api::{
    answered, batch, batch_response, complains, from_store, health, health_response, list_year,
    lists_year, lookup, not_found, of_category, tells_batch, year_by_query, year_response, years,
    years_response, ApiError, BatchItemError, BatchResponse, YearResponse,
};
use crate::db::{are_stats, Store, StoreError, StoreStats};
use crate::laws::days::{law_lookups_are_answered_right, tells};
use crate::laws::{
    has_record_of, law_data_available, law_year_listing, law_years_are_those_with_records,
    well_kept,
};
use crate::model::{
    category_text, date_complaint, law_category_round_trips, normal_date, record_views, Category,
    DayQuery, Record, RecordView,
};
use crate::sqlite::{dates_of, RowValue, Rows};
use crate::text::{decimal_text, integer_text};

verus! {

// ---------------------------------------------------------------- parts of a list

/// Whether positions ascend and lie below `n`.
pub open spec fn positions(at: Seq<int>, n: int) -> bool {
    &&& forall|k: int| 0 <= k < at.len() ==> 0 <= #[trigger] at[k] < n
    &&& forall|j: int, k: int| 0 <= j < k < at.len() ==> #[trigger] at[j] < #[trigger] at[k]
}

/// Whether a record says what another says.
pub open spec fn same_record(a: Record, b: Record) -> bool {
    &&& a.date@ == b.date@
    &&& a.category == b.category
    &&& a.name_en@ == b.name_en@
    &&& a.name_zh@ == b.name_zh@
    &&& a.statutory_days == b.statutory_days
    &&& (a.source_file is Some == b.source_file is Some)
    &&& (a.source_file matches Some(f) ==> f@ == b.source_file->0@)
}

/// Whether a list has the records at these positions, in order, all of one
/// category.
pub open spec fn picks(
    list: Seq<Record>,
    all: Seq<Record>,
    at: Seq<int>,
    category: Category,
) -> bool {
    &&& at.len() == list.len()
    &&& positions(at, all.len() as int)
    &&& forall|k: int|
        0 <= k < list.len() ==> same_record(#[trigger] list[k], all[at[k]]) && list[k].category
            == category
}

/// Whether a record stands in a list.
pub open spec fn has_record(list: Seq<Record>, record: Record) -> bool {
    exists|k: int| 0 <= k < list.len() && same_record(#[trigger] list[k], record)
}

/// Where the records of a category stand.
#[verifier::spinoff_prover]
proof fn lemma_of_category(records: Seq<RecordView>, category: Category) -> (at: Seq<int>)
    ensures
        at.len() == of_category(records, category).len(),
        positions(at, records.len() as int),
        forall|k: int|
            0 <= k < at.len() ==> of_category(records, category)[k] == records[#[trigger] at[k]]
                && records[at[k]].category == category,
        forall|i: int|
            0 <= i < records.len() && (#[trigger] records[i]).category == category ==> at.contains(
                i,
            ),
    decreases records.len(),
{
    if records.len() == 0 {
        Seq::empty()
    } else {
        let rest = records.drop_last();
        let n = records.len() - 1;
        let before = lemma_of_category(rest, category);
        if records.last().category == category {
            let at = before.push(n);
            assert forall|k: int| 0 <= k < at.len() implies of_category(records, category)[k]
                == records[#[trigger] at[k]] && records[at[k]].category == category by {
                if k < before.len() {
                    assert(of_category(records, category)[k] == of_category(rest, category)[k]);
                    assert(rest[before[k]] == records[at[k]]);
                }
            }
            assert forall|i: int|
                0 <= i < records.len() && (#[trigger] records[i]).category
                    == category implies at.contains(i) by {
                if i < n {
                    assert(rest[i] == records[i]);
                    assert(before.contains(i));
                    let k = choose|k: int| 0 <= k < before.len() && before[k] == i;
                    assert(at[k] == i);
                } else {
                    assert(at[before.len() as int] == i);
                }
            }
            at
        } else {
            assert forall|k: int| 0 <= k < before.len() implies of_category(records, category)[k]
                == records[#[trigger] before[k]] && records[before[k]].category == category by {
                assert(rest[before[k]] == records[before[k]]);
            }
            assert forall|i: int|
                0 <= i < records.len() && (#[trigger] records[i]).category
                    == category implies before.contains(i) by {
                assert(rest[i] == records[i]);
            }
            before
        }
    }
}

/// Records say the same where their views are the same.
#[verifier::spinoff_prover]
proof fn lemma_same_view(a: Record, b: Record)
    requires
        a@ == b@,
    ensures
        same_record(a, b),
{
}

/// A list with the records of a category has them all, in order.
#[verifier::spinoff_prover]
proof fn lemma_picks(list: Seq<Record>, all: Seq<Record>, category: Category)
    requires
        record_views(list) == of_category(record_views(all), category),
    ensures
        exists|at: Seq<int>| #[trigger] picks(list, all, at, category),
        forall|i: int|
            0 <= i < all.len() && (#[trigger] all[i]).category == category ==> has_record(
                list,
                all[i],
            ),
{
    let views = record_views(all);
    let at = lemma_of_category(views, category);
    assert(record_views(list).len() == list.len());
    assert forall|k: int| 0 <= k < list.len() implies same_record(#[trigger] list[k], all[at[k]])
        && list[k].category == category by {
        assert(record_views(list)[k] == list[k]@);
        assert(of_category(views, category)[k] == views[at[k]]);
        assert(views[at[k]] == all[at[k]]@);
        lemma_same_view(list[k], all[at[k]]);
    }
    assert(picks(list, all, at, category));
    assert forall|i: int| 0 <= i < all.len() && (#[trigger] all[i]).category
        == category implies has_record(list, all[i]) by {
        assert(views[i] == all[i]@);
        assert(views[i].category == category);
        assert(at.contains(i));
        let k = choose|k: int| 0 <= k < at.len() && at[k] == i;
        assert(same_record(list[k], all[at[k]]));
    }
}

// ---------------------------------------------------------------- years

/// The records of a year are parted into three lists: each record stands in the
/// list of its category, in the order in which it came, and nothing else does.
#[verifier::spinoff_prover]
pub proof fn law_a_year_is_parted(year: i32, records: Vec<Record>, r: YearResponse)
    requires
        call_ensures(year_response, (year, records), r),
    ensures
        r.year == year,
        r.total == records@.len(),
        r.total == r.holidays@.len() + r.makeup_workdays@.len() + r.in_lieu_days@.len(),
        r.data_available == (records@.len() > 0),
        exists|at: Seq<int>| #[trigger] picks(r.holidays@, records@, at, Category::Holiday),
        exists|at: Seq<int>| #[trigger] picks(r.makeup_workdays@, records@, at, Category::Workday),
        exists|at: Seq<int>| #[trigger] picks(r.in_lieu_days@, records@, at, Category::InLieu),
        forall|i: int|
            0 <= i < records@.len() ==> {
                let record = #[trigger] records@[i];
                match record.category {
                    Category::Holiday => has_record(r.holidays@, record),
                    Category::Workday => has_record(r.makeup_workdays@, record),
                    Category::InLieu => has_record(r.in_lieu_days@, record),
                }
            },
{
    lemma_picks(r.holidays@, records@, Category::Holiday);
    lemma_picks(r.makeup_workdays@, records@, Category::Workday);
    lemma_picks(r.in_lieu_days@, records@, Category::InLieu);
    crate::api::law_categories_part_the_year(record_views(records@));
    assert(record_views(r.holidays@).len() == r.holidays@.len());
    assert(record_views(r.makeup_workdays@).len() == r.makeup_workdays@.len());
    assert(record_views(r.in_lieu_days@).len() == r.in_lieu_days@.len());
}

/// Whether a record says what a row says.
pub open spec fn says_row(record: Record, date: Seq<char>, row: RowValue) -> bool {
    &&& record.date@ == date
    &&& record.name_en@ == row.name_en
    &&& record.name_zh@ == row.name_zh
    &&& record.statutory_days == row.statutory_days
    &&& (record.source_file is Some == row.source_file is Some)
    &&& (record.source_file matches Some(f) ==> f@ == row.source_file->0)
}

/// Whether a list has a row of the table.
pub open spec fn has_row(list: Seq<Record>, date: Seq<char>, row: RowValue) -> bool {
    exists|k: int| 0 <= k < list.len() && says_row(#[trigger] list[k], date, row)
}

/// Whether a list has the rows of the year with this category, each of them once,
/// by date, and nothing else.
pub open spec fn lists_rows(
    list: Seq<Record>,
    rows: Rows,
    year: int,
    category: Seq<char>,
) -> bool {
    &&& forall|date: Seq<char>| #[trigger]
        rows.contains_key((date, category)) && normal_date(date)->0.year == year ==> has_row(
            list,
            date,
            rows[(date, category)],
        )
    &&& forall|k: int|
        0 <= k < list.len() ==> {
            let date = (#[trigger] list[k]).date@;
            &&& rows.contains_key((date, category))
            &&& normal_date(date)->0.year == year
            &&& says_row(list[k], date, rows[(date, category)])
        }
    &&& forall|j: int, k: int|
        0 <= j < k < list.len() ==> crate::text::text_less(
            (#[trigger] list[j]).date@,
            (#[trigger] list[k]).date@,
        )
}

#[verifier::spinoff_prover]
proof fn lemma_lists_rows(
    list: Seq<Record>,
    records: Seq<RecordView>,
    rows: Rows,
    year: int,
    category: Category,
)
    requires
        well_kept(rows),
        0 <= year <= 9999,
        crate::db::are_year_records(rows, year, records),
        record_views(list) == of_category(records, category),
    ensures
        lists_rows(list, rows, year, category_text(category)),
{
    let text = category_text(category);
    let at = lemma_of_category(records, category);
    law_year_listing(rows, year, records);
    assert(record_views(list).len() == list.len());
    assert forall|k: int| 0 <= k < list.len() implies {
        let date = (#[trigger] list[k]).date@;
        &&& rows.contains_key((date, text))
        &&& normal_date(date)->0.year == year
        &&& says_row(list[k], date, rows[(date, text)])
        &&& list[k]@ == records[at[k]]
    } by {
        assert(record_views(list)[k] == list[k]@);
        assert(of_category(records, category)[k] == records[at[k]]);
        let record = records[at[k]];
        assert(crate::db::record_key(record) == (record.date, text));
        assert(rows[crate::db::record_key(record)] == crate::db::record_value(record));
    }
    assert forall|date: Seq<char>| #[trigger]
        rows.contains_key((date, text)) && normal_date(date)->0.year == year implies has_row(
        list,
        date,
        rows[(date, text)],
    ) by {
        let key = (date, text);
        let i = choose|i: int|
            0 <= i < records.len() && crate::db::record_key(#[trigger] records[i]) == key;
        law_category_round_trips(records[i].category, text);
        law_category_round_trips(category, text);
        assert(records[i].category == category);
        assert(at.contains(i));
        let k = choose|k: int| 0 <= k < at.len() && at[k] == i;
        assert(list[k]@ == records[at[k]]);
        assert(says_row(list[k], date, rows[key]));
    }
    assert forall|j: int, k: int| 0 <= j < k < list.len() implies crate::text::text_less(
        (#[trigger] list[j]).date@,
        (#[trigger] list[k]).date@,
    ) by {
        assert(list[j]@ == records[at[j]]);
        assert(list[k]@ == records[at[k]]);
        let a = records[at[j]];
        let b = records[at[k]];
        assert(at[j] < at[k]);
        assert(crate::sqlite::key_less(crate::db::record_key(a), crate::db::record_key(b)));
        crate::text::lemma_text_less_irreflexive(text);
    }
}

/// A request for a year between 1900 and 2999 is answered with all rows of that
/// year, in the lists of their categories; any other year is refused.
#[verifier::spinoff_prover]
pub proof fn law_years_are_listed_right(store: &Store, year: i32, r: Result<YearResponse, ApiError>)
    requires
        store.sole(),
        well_kept(store@.rows),
        call_ensures(list_year, (store, year), r),
    ensures
        year < 1900 || year > 2999 ==> (r matches Err(e) && e.status == 400 && e.code@
            == "invalid_year"@ && e.message@ == "年份超出合理范围（1900-2999）："@ + integer_text(
            year as int,
        )),
        1900 <= year <= 2999 ==> match r {
            Ok(body) => {
                &&& body.year == year
                &&& body.total == body.holidays@.len() + body.makeup_workdays@.len()
                    + body.in_lieu_days@.len()
                &&& body.data_available == has_record_of(store@.rows, year as int)
                &&& lists_rows(body.holidays@, store@.rows, year as int, "holiday"@)
                &&& lists_rows(body.makeup_workdays@, store@.rows, year as int, "workday"@)
                &&& lists_rows(body.in_lieu_days@, store@.rows, year as int, "in_lieu"@)
            },
            Err(e) => e.status == 500 && e.code@ == "internal_error"@,
        },
{
    if 1900 <= year <= 2999 {
        if let Ok(body) = r {
            let rows = store@.rows;
            let records = choose|records: Seq<RecordView>| #[trigger]
                lists_year(body, year as int, records) && crate::db::are_year_records(
                    rows,
                    year as int,
                    records,
                );
            law_year_listing(rows, year as int, records);
            law_data_available(rows, year as int);
            crate::api::law_categories_part_the_year(records);
            assert(record_views(body.holidays@).len() == body.holidays@.len());
            assert(record_views(body.makeup_workdays@).len() == body.makeup_workdays@.len());
            assert(record_views(body.in_lieu_days@).len() == body.in_lieu_days@.len());
            lemma_lists_rows(body.holidays@, records, rows, year as int, Category::Holiday);
            lemma_lists_rows(body.makeup_workdays@, records, rows, year as int, Category::Workday);
            lemma_lists_rows(body.in_lieu_days@, records, rows, year as int, Category::InLieu);
        }
    }
}

/// A year that is given as a parameter is answered as a year in the path.
#[verifier::spinoff_prover]
pub proof fn law_year_parameters_are_listed_right(
    store: &Store,
    year: Option<i32>,
    r: Result<YearResponse, ApiError>,
)
    requires
        store.sole(),
        well_kept(store@.rows),
        call_ensures(year_by_query, (store, year), r),
    ensures
        year is None ==> (r matches Err(e) && e.status == 400 && e.code@ == "missing_year"@
            && e.message@ == "缺少查询参数 year，例如 ?year=2026"@),
        year matches Some(y) ==> {
            &&& y < 1900 || y > 2999 ==> (r matches Err(e) && e.status == 400 && e.code@
                == "invalid_year"@ && e.message@ == "年份超出合理范围（1900-2999）："@
                + integer_text(y as int))
            &&& 1900 <= y <= 2999 ==> (r matches Err(e) ==> e.status == 500 && e.code@
                == "internal_error"@)
            &&& 1900 <= y <= 2999 ==> (r matches Ok(body) ==> {
                &&& body.year == y
                &&& body.total == body.holidays@.len() + body.makeup_workdays@.len()
                    + body.in_lieu_days@.len()
                &&& body.data_available == has_record_of(store@.rows, y as int)
                &&& lists_rows(body.holidays@, store@.rows, y as int, "holiday"@)
                &&& lists_rows(body.makeup_workdays@, store@.rows, y as int, "workday"@)
                &&& lists_rows(body.in_lieu_days@, store@.rows, y as int, "in_lieu"@)
            })
        },
{
    if let (Some(y), Ok(body)) = (year, r) {
        if 1900 <= y <= 2999 {
            let rows = store@.rows;
            let records = choose|records: Seq<RecordView>| #[trigger]
                lists_year(body, y as int, records) && crate::db::are_year_records(
                    rows,
                    y as int,
                    records,
                );
            law_year_listing(rows, y as int, records);
            law_data_available(rows, y as int);
            crate::api::law_categories_part_the_year(records);
            assert(record_views(body.holidays@).len() == body.holidays@.len());
            assert(record_views(body.makeup_workdays@).len() == body.makeup_workdays@.len());
            assert(record_views(body.in_lieu_days@).len() == body.in_lieu_days@.len());
            lemma_lists_rows(body.holidays@, records, rows, y as int, Category::Holiday);
            lemma_lists_rows(body.makeup_workdays@, records, rows, y as int, Category::Workday);
            lemma_lists_rows(body.in_lieu_days@, records, rows, y as int, Category::InLieu);
        }
    }
}

// ---------------------------------------------------------------- batches

/// Whether positions of two lists make up all positions below `n`.
pub open spec fn parts_of(at: Seq<int>, other: Seq<int>, n: int) -> bool {
    &&& positions(at, n)
    &&& positions(other, n)
    &&& at.len() + other.len() == n
    &&& forall|j: int, k: int|
        0 <= j < at.len() && 0 <= k < other.len() ==> #[trigger] at[j] != #[trigger] other[k]
}

/// Whether the results are those at one set of positions, unchanged and in order,
/// and the errors those at the others.
pub open spec fn batch_parted(
    dates: Seq<String>,
    found: Seq<Result<DayQuery, ApiError>>,
    r: BatchResponse,
    at: Seq<int>,
    bad: Seq<int>,
) -> bool {
    &&& parts_of(at, bad, found.len() as int)
    &&& at.len() == r.results@.len()
    &&& bad.len() == r.errors@.len()
    &&& forall|k: int|
        0 <= k < at.len() ==> (found[#[trigger] at[k]] matches Ok(q) && r.results@[k] == q)
    &&& forall|k: int|
        0 <= k < bad.len() ==> (found[#[trigger] bad[k]] matches Err(e) && {
            &&& r.errors@[k].date@ == dates[bad[k]]@
            &&& r.errors@[k].code@ == e.code@
            &&& r.errors@[k].message@ == e.message@
        })
}

/// Where the answers and the complaints of a batch stand.
#[verifier::spinoff_prover]
proof fn lemma_batch_parts(
    results: Seq<DayQuery>,
    errors: Seq<BatchItemError>,
    dates: Seq<String>,
    found: Seq<Result<DayQuery, ApiError>>,
) -> (r: (Seq<int>, Seq<int>))
    requires
        dates.len() == found.len(),
        results == answered(found),
        complains(errors, dates, found),
    ensures
        parts_of(r.0, r.1, found.len() as int),
        r.0.len() == results.len(),
        r.1.len() == errors.len(),
        forall|k: int|
            0 <= k < r.0.len() ==> (found[#[trigger] r.0[k]] matches Ok(q) && results[k] == q),
        forall|k: int|
            0 <= k < r.1.len() ==> (found[#[trigger] r.1[k]] matches Err(e) && {
                &&& errors[k].date@ == dates[r.1[k]]@
                &&& errors[k].code@ == e.code@
                &&& errors[k].message@ == e.message@
            }),
    decreases found.len(),
{
    if found.len() == 0 {
        (Seq::empty(), Seq::empty())
    } else {
        let n = found.len() - 1;
        let rest = found.drop_last();
        assert(found.last() == found[n]);
        match found.last() {
            Ok(q) => {
                assert(results.drop_last() =~= answered(rest));
                let (at, bad) = lemma_batch_parts(
                    results.drop_last(),
                    errors,
                    dates.drop_last(),
                    rest,
                );
                let all = at.push(n);
                assert forall|k: int| 0 <= k < all.len() implies (
                found[#[trigger] all[k]] matches Ok(q) && results[k] == q) by {
                    if k < at.len() {
                        assert(all[k] == at[k]);
                        assert(rest[at[k]] == found[at[k]]);
                        assert(results.drop_last()[k] == results[k]);
                    }
                }
                assert forall|k: int| 0 <= k < bad.len() implies (
                found[#[trigger] bad[k]] matches Err(e) && {
                    &&& errors[k].date@ == dates[bad[k]]@
                    &&& errors[k].code@ == e.code@
                    &&& errors[k].message@ == e.message@
                }) by {
                    assert(rest[bad[k]] == found[bad[k]]);
                    assert(dates.drop_last()[bad[k]] == dates[bad[k]]);
                }
                (all, bad)
            },
            Err(e) => {
                let (at, bad) = lemma_batch_parts(
                    results,
                    errors.drop_last(),
                    dates.drop_last(),
                    rest,
                );
                let all = bad.push(n);
                assert forall|k: int| 0 <= k < at.len() implies (
                found[#[trigger] at[k]] matches Ok(q) && results[k] == q) by {
                    assert(rest[at[k]] == found[at[k]]);
                }
                assert forall|k: int| 0 <= k < all.len() implies (
                found[#[trigger] all[k]] matches Err(e) && {
                    &&& errors[k].date@ == dates[all[k]]@
                    &&& errors[k].code@ == e.code@
                    &&& errors[k].message@ == e.message@
                }) by {
                    if k < bad.len() {
                        assert(all[k] == bad[k]);
                        assert(rest[bad[k]] == found[bad[k]]);
                        assert(dates.drop_last()[bad[k]] == dates[bad[k]]);
                        assert(errors.drop_last()[k] == errors[k]);
                    }
                }
                (at, all)
            },
        }
    }
}

/// What was found of the dates of a batch is handed on unchanged and in order: what
/// was answered among the results, what was refused among the errors.
#[verifier::spinoff_prover]
pub proof fn law_a_batch_hands_on_what_was_found(
    dates: &Vec<String>,
    found: Vec<Result<DayQuery, ApiError>>,
    r: BatchResponse,
)
    requires
        found@.len() == dates@.len(),
        call_ensures(batch_response, (dates, found), r),
    ensures
        r.total == dates@.len(),
        r.succeeded == r.results@.len(),
        r.failed == r.errors@.len(),
        exists|at: Seq<int>, bad: Seq<int>| #[trigger]
            batch_parted(dates@, found@, r, at, bad),
{
    crate::api::law_batch_accounts_for_all(r, dates@, found@);
    let (at, bad) = lemma_batch_parts(r.results@, r.errors@, dates@, found@);
    assert(batch_parted(dates@, found@, r, at, bad));
}

/// Whether each result of a batch is what the store says of its day, and each error
/// is one of a text that names no day, or of the store.
pub open spec fn batch_right(
    rows: Rows,
    dates: Seq<String>,
    r: BatchResponse,
    at: Seq<int>,
    bad: Seq<int>,
) -> bool {
    &&& parts_of(at, bad, dates.len() as int)
    &&& at.len() == r.results@.len()
    &&& bad.len() == r.errors@.len()
    &&& forall|k: int|
        0 <= k < at.len() ==> (normal_date(dates[#[trigger] at[k]]@) matches Some(day) && tells(
            rows,
            day,
            r.results@[k],
        ))
    &&& forall|k: int|
        0 <= k < bad.len() ==> {
            let raw = dates[#[trigger] bad[k]]@;
            &&& r.errors@[k].date@ == raw
            &&& normal_date(raw) is None ==> r.errors@[k].code@ == "invalid_date"@
                && r.errors@[k].message@ == date_complaint(raw)
            &&& normal_date(raw) is Some ==> r.errors@[k].code@ == "internal_error"@
        }
}

/// A batch of up to a thousand dates is answered date by date: each that names a
/// day as a single request for it, each that names none by an error.
#[verifier::spinoff_prover]
pub proof fn law_batches_are_answered_right(
    store: &Store,
    dates: &Vec<String>,
    r: Result<BatchResponse, ApiError>,
)
    requires
        store.sole(),
        call_ensures(batch, (store, dates), r),
    ensures
        dates@.len() == 0 ==> (r matches Err(e) && e.status == 400 && e.code@ == "empty_batch"@
            && e.message@ == "dates 不能为空"@),
        dates@.len() > 1000 ==> (r matches Err(e) && e.status == 400 && e.code@
            == "batch_too_large"@ && e.message@ == "单次最多查询 "@ + decimal_text(1000)
            + " 个日期，当前 "@ + decimal_text(dates@.len())),
        1 <= dates@.len() <= 1000 ==> (r matches Ok(body) && {
            &&& body.total == dates@.len()
            &&& body.succeeded == body.results@.len()
            &&& body.failed == body.errors@.len()
            &&& exists|at: Seq<int>, bad: Seq<int>| #[trigger]
                batch_right(store@.rows, dates@, body, at, bad)
        }),
{
    if 1 <= dates@.len() <= 1000 {
        let body = r->Ok_0;
        let found = choose|found: Seq<Result<DayQuery, ApiError>>| #[trigger]
            tells_batch(body, dates@, found) && forall|i: int|
                0 <= i < dates@.len() ==> crate::api::looked_up(
                    *store,
                    dates@[i]@,
                    #[trigger] found[i],
                ) && crate::api::asked(*store, dates@[i]@, found[i]);
        crate::api::law_batch_accounts_for_all(body, dates@, found);
        let (at, bad) = lemma_batch_parts(body.results@, body.errors@, dates@, found);
        assert forall|k: int| 0 <= k < at.len() implies (
        normal_date(dates@[#[trigger] at[k]]@) matches Some(day) && tells(
            store@.rows,
            day,
            body.results@[k],
        )) by {
            let i = at[k];
            lemma_asked(store, dates@[i]@, found[i]);
        }
        assert forall|k: int| 0 <= k < bad.len() implies {
            let raw = dates@[#[trigger] bad[k]]@;
            &&& body.errors@[k].date@ == raw
            &&& normal_date(raw) is None ==> body.errors@[k].code@ == "invalid_date"@
                && body.errors@[k].message@ == date_complaint(raw)
            &&& normal_date(raw) is Some ==> body.errors@[k].code@ == "internal_error"@
        } by {
            let i = bad[k];
            lemma_asked(store, dates@[i]@, found[i]);
        }
        assert(batch_right(store@.rows, dates@, body, at, bad));
    }
}

/// What a request for a date was answered.
#[verifier::spinoff_prover]
proof fn lemma_asked(store: &Store, date: Seq<char>, r: Result<DayQuery, ApiError>)
    requires
        store.sole(),
        crate::api::asked(*store, date, r),
        crate::api::looked_up(*store, date, r),
    ensures
        match normal_date(date) {
            Some(day) => match r {
                Ok(q) => tells(store@.rows, day, q),
                Err(e) => e.code@ == "internal_error"@,
            },
            None => r matches Err(e) && e.code@ == "invalid_date"@ && e.message@ == date_complaint(
                date,
            ),
        },
{
    let raw = choose|raw: &str| raw@ == date && #[trigger] call_ensures(lookup, (store, raw), r);
    law_lookups_are_answered_right(store, raw, r);
}

// ---------------------------------------------------------------- the state of the service

/// The health check tells how many rows and how many different dates there are,
/// and of which years there is a record, ascending.
#[verifier::spinoff_prover]
pub proof fn law_health_is_told_right(store: &Store, r: Result<HealthResponse, ApiError>)
    requires
        store.sole(),
        well_kept(store@.rows),
        call_ensures(health, (store,), r),
    ensures
        match r {
            Ok(body) => {
                &&& body.status@ == "ok"@
                &&& body.records == store@.rows.dom().len() as usize
                &&& body.dates == store@.rows.dom().map(
                    |key: (Seq<char>, Seq<char>)| key.0,
                ).len() as usize
                &&& forall|i: int, j: int|
                    0 <= i < j < body.years@.len() ==> body.years@[i] < body.years@[j]
                &&& forall|y: i32| #[trigger]
                    body.years@.contains(y) == has_record_of(store@.rows, y as int)
            },
            Err(e) => e.status == 500 && e.code@ == "internal_error"@,
        },
{
    if let Ok(body) = r {
        let rows = store@.rows;
        let stats = choose|stats: StoreStats| #[trigger]
            are_stats(rows, stats) && body.records == stats.total && body.dates
                == stats.distinct_dates && body.years == stats.years;
        assert(dates_of(rows) =~= rows.dom().map(|key: (Seq<char>, Seq<char>)| key.0));
        law_years_are_those_with_records(rows, body.years@);
    }
}

/// The health check hands on the overview of the store.
#[verifier::spinoff_prover]
pub proof fn law_health_hands_on_the_overview(stats: StoreStats, r: HealthResponse)
    requires
        call_ensures(health_response, (stats,), r),
    ensures
        r.status@ == "ok"@,
        r.records == stats.total,
        r.dates == stats.distinct_dates,
        r.years@ == stats.years@,
{
}

/// The years with records are listed, ascending, with their number.
#[verifier::spinoff_prover]
pub proof fn law_the_years_are_told_right(store: &Store, r: Result<YearsResponse, ApiError>)
    requires
        store.sole(),
        well_kept(store@.rows),
        call_ensures(years, (store,), r),
    ensures
        match r {
            Ok(body) => {
                &&& body.count == body.years@.len()
                &&& forall|i: int, j: int|
                    0 <= i < j < body.years@.len() ==> body.years@[i] < body.years@[j]
                &&& forall|y: i32| #[trigger]
                    body.years@.contains(y) == has_record_of(store@.rows, y as int)
            },
            Err(e) => e.status == 500 && e.code@ == "internal_error"@,
        },
{
    if let Ok(body) = r {
        law_years_are_those_with_records(store@.rows, body.years@);
    }
}

/// A list of years is handed on with its length.
#[verifier::spinoff_prover]
pub proof fn law_years_are_handed_on(list: Vec<i32>, r: YearsResponse)
    requires
        call_ensures(years_response, (list,), r),
    ensures
        r.count == list@.len(),
        r.years@ == list@,
{
}

// ---------------------------------------------------------------- errors

/// A refused request has status 400, the code and the message that it was given;
/// one without a route has status 404.
#[verifier::spinoff_prover]
pub proof fn law_refusals_say_why(
    code: &'static str,
    message: String,
    bad: ApiError,
    missing: ApiError,
    fallback: ApiError,
)
    requires
        call_ensures(ApiError::bad_request, (code, message), bad),
        call_ensures(ApiError::not_found, (message,), missing),
        call_ensures(not_found, (), fallback),
    ensures
        bad.status == 400 && bad.code@ == code@ && bad.message@ == message@,
        missing.status == 404 && missing.code@ == "not_found"@ && missing.message@ == message@,
        fallback.status == 404 && fallback.code@ == "not_found"@ && fallback.message@
            == "接口不存在，可用接口：GET /api/v1/years、GET /api/v1/holiday?date=、GET /api/v1/holidays?year=、POST /api/v1/holidays/batch"@,
{
}

/// What the store gave is handed on as it is; where it failed, the answer says so
/// with the words of the store.
#[verifier::spinoff_prover]
pub proof fn law_what_the_store_gave_is_handed_on<T>(
    found: Result<T, StoreError>,
    r: Result<T, ApiError>,
)
    requires
        call_ensures(from_store::<T>, (found,), r),
    ensures
        found matches Ok(v) ==> (r matches Ok(given) && given == v),
        found matches Err(cause) ==> (r matches Err(e) && e.status == 500 && e.code@
            == "internal_error"@ && forall|words: String| #[trigger]
            call_ensures(StoreError::message, (&cause,), words) ==> e.message@ == words@),
{
}

} // verus!
