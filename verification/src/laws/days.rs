//! What is said of a day, in terms of the rows of the table and the calendar.

use vstd::prelude::*;

use crate::api::{day_by_query, lookup, ApiError};
use crate::calendar::{
    law_weekdays_follow, law_written_day_reads_back, next_day, weekday_number, Date, Weekday,
};
use crate::db::{answer_in, day_query, last_of, Store, StoreError};
use crate::laws::texts::{gives_day, lemma_gives_day};
use crate::laws::{has_record_of, law_data_available, well_kept};
use crate::model::{
    category_named, category_text, date_complaint, is_weekend, lemma_category_texts_differ,
    normal_date, weekday_cn, Category, DayQuery, DayType, Festival,
};
use crate::sqlite::{DayRow, RowValue, Rows};

verus! {

/// Whether a festival is the one that a row names.
pub open spec fn names(festival: Option<Festival>, row: RowValue) -> bool {
    festival matches Some(f) && f.name_en@ == row.name_en && f.name_zh@ == row.name_zh
        && f.statutory_days == row.statutory_days
}

/// Whether an answer gives the day itself: its date, and its place in the week.
pub open spec fn tells_calendar(day: Date, q: DayQuery) -> bool {
    &&& q.date@ == day.written()
    &&& q.year == day.year
    &&& q.month == day.month
    &&& q.day == day.day
    &&& 1 <= q.day_of_week <= 7
    &&& q.day_of_week == weekday_number(day.year as int, day.month as int, day.day as int)
    &&& q.day_of_week == 1 ==> q.day_of_week_cn@ == "周一"@
    &&& q.day_of_week == 2 ==> q.day_of_week_cn@ == "周二"@
    &&& q.day_of_week == 3 ==> q.day_of_week_cn@ == "周三"@
    &&& q.day_of_week == 4 ==> q.day_of_week_cn@ == "周四"@
    &&& q.day_of_week == 5 ==> q.day_of_week_cn@ == "周五"@
    &&& q.day_of_week == 6 ==> q.day_of_week_cn@ == "周六"@
    &&& q.day_of_week == 7 ==> q.day_of_week_cn@ == "周日"@
    &&& q.is_weekend <==> q.day_of_week == 6 || q.day_of_week == 7
}

/// Whether an answer says what kind of day it is: a listed day off is a holiday; of
/// the others a listed day of work is one; the rest goes by the week.
pub open spec fn tells_kind(q: DayQuery) -> bool {
    &&& q.is_holiday ==> q.day_type == DayType::Holiday && q.is_rest_day
    &&& !q.is_holiday && q.is_makeup_workday ==> q.day_type == DayType::MakeupWorkday
        && !q.is_rest_day
    &&& !q.is_holiday && !q.is_makeup_workday && q.day_of_week >= 6 ==> q.day_type
        == DayType::Weekend && q.is_rest_day
    &&& !q.is_holiday && !q.is_makeup_workday && q.day_of_week <= 5 ==> q.day_type
        == DayType::Workday && !q.is_rest_day
}

/// Whether an answer says what the rows list of the day: each flag goes by the row
/// of its category, and the festival is that of the day off, or else of the day off
/// in lieu, or else of the day of work.
pub open spec fn tells_rows(rows: Rows, day: Date, q: DayQuery) -> bool {
    let off = (day.written(), "holiday"@);
    let lieu = (day.written(), "in_lieu"@);
    let work = (day.written(), "workday"@);
    &&& q.is_holiday <==> rows.contains_key(off)
    &&& q.is_in_lieu <==> rows.contains_key(lieu)
    &&& q.is_makeup_workday <==> rows.contains_key(work)
    &&& rows.contains_key(off) ==> names(q.festival, rows[off])
    &&& !rows.contains_key(off) && rows.contains_key(lieu) ==> names(q.festival, rows[lieu])
    &&& !rows.contains_key(off) && !rows.contains_key(lieu) && rows.contains_key(work) ==> names(
        q.festival,
        rows[work],
    )
    &&& q.festival is Some ==> rows.contains_key(off) || rows.contains_key(lieu)
        || rows.contains_key(work)
    &&& well_kept(rows) ==> (q.data_available <==> has_record_of(rows, day.year as int))
}

/// Whether an answer is right for a day and the rows of the table.
pub open spec fn tells(rows: Rows, day: Date, q: DayQuery) -> bool {
    &&& tells_calendar(day, q)
    &&& tells_kind(q)
    &&& tells_rows(rows, day, q)
}

#[verifier::spinoff_prover]
proof fn lemma_answer_tells(rows: Rows, day: Date, q: DayQuery)
    requires
        day.valid(),
        q@ == answer_in(rows, day),
    ensures
        tells(rows, day, q),
{
    lemma_category_texts_differ();
    if well_kept(rows) {
        law_data_available(rows, day.year as int);
    }
}

/// The store says of a day what the calendar and its rows say.
#[verifier::spinoff_prover]
pub proof fn law_days_are_answered_right(store: &Store, day: Date, r: Result<DayQuery, StoreError>)
    requires
        store.sole(),
        day.valid(),
        call_ensures(Store::query_day, (store, day), r),
    ensures
        r matches Ok(q) ==> tells(store@.rows, day, q),
{
    if let Ok(q) = r {
        lemma_answer_tells(store@.rows, day, q);
    }
}

/// A day that nothing is listed of is a day off exactly on a Saturday or a Sunday.
#[verifier::spinoff_prover]
pub proof fn law_plain_days_go_by_the_week(
    store: &Store,
    day: Date,
    r: Result<DayQuery, StoreError>,
)
    requires
        store.sole(),
        day.valid(),
        forall|category: Seq<char>| !#[trigger] store@.rows.contains_key((day.written(), category)),
        call_ensures(Store::query_day, (store, day), r),
    ensures
        r matches Ok(q) ==> {
            let n = weekday_number(day.year as int, day.month as int, day.day as int);
            &&& q.is_rest_day == (n == 6 || n == 7)
            &&& q.is_weekend == (n == 6 || n == 7)
            &&& q.day_type == (if n == 6 || n == 7 {
                DayType::Weekend
            } else {
                DayType::Workday
            })
            &&& !q.is_holiday && !q.is_in_lieu && !q.is_makeup_workday
            &&& q.festival is None
        },
{
    law_days_are_answered_right(store, day, r);
}

/// A request for a date is answered with what the store says of the day that it
/// names, and refused where it names none.
#[verifier::spinoff_prover]
pub proof fn law_lookups_are_answered_right(store: &Store, raw: &str, r: Result<DayQuery, ApiError>)
    requires
        store.sole(),
        call_ensures(lookup, (store, raw), r),
    ensures
        match normal_date(raw@) {
            Some(day) => match r {
                Ok(q) => tells(store@.rows, day, q),
                Err(e) => e.status == 500 && e.code@ == "internal_error"@,
            },
            None => r matches Err(e) && e.status == 400 && e.code@ == "invalid_date"@ && e.message@
                == date_complaint(raw@),
        },
{
    crate::model::law_normal_form(raw@);
    if let (Some(day), Ok(q)) = (normal_date(raw@), r) {
        lemma_answer_tells(store@.rows, day, q);
    }
}

/// A date that is given as a parameter is answered as a date in the path.
#[verifier::spinoff_prover]
pub proof fn law_date_parameters_are_answered_right(
    store: &Store,
    date: Option<String>,
    r: Result<DayQuery, ApiError>,
)
    requires
        store.sole(),
        call_ensures(day_by_query, (store, date), r),
    ensures
        match date {
            Some(raw) => match normal_date(raw@) {
                Some(day) => match r {
                    Ok(q) => tells(store@.rows, day, q),
                    Err(e) => e.status == 500 && e.code@ == "internal_error"@,
                },
                None => r matches Err(e) && e.status == 400 && e.code@ == "invalid_date"@
                    && e.message@ == date_complaint(raw@),
            },
            None => r matches Err(e) && e.status == 400 && e.code@ == "missing_date"@ && e.message@
                == "缺少查询参数 date，例如 ?date=2026-10-01"@,
        },
{
    if let Some(raw) = date {
        crate::model::law_normal_form(raw@);
        if let (Some(day), Ok(q)) = (normal_date(raw@), r) {
            lemma_answer_tells(store@.rows, day, q);
        }
    }
}

/// Whether a row of the day has this category.
pub open spec fn some_row(hits: Seq<DayRow>, category: Seq<char>) -> bool {
    exists|i: int| 0 <= i < hits.len() && (#[trigger] hits[i]).category@ == category
}

/// Whether a festival is that of the last row of this category.
pub open spec fn names_last_row(
    festival: Option<Festival>,
    hits: Seq<DayRow>,
    category: Seq<char>,
) -> bool {
    exists|i: int|
        0 <= i < hits.len() && (#[trigger] hits[i]).category@ == category && (festival matches Some(
            f,
        ) && f.name_en@ == hits[i].name_en@ && f.name_zh@ == hits[i].name_zh@ && f.statutory_days
            == hits[i].statutory_days) && forall|j: int|
            i < j < hits.len() ==> (#[trigger] hits[j]).category@ != category
}

/// The last row of a category, where there is one.
#[verifier::spinoff_prover]
proof fn lemma_last_of(hits: Seq<DayRow>, category: Category) -> (at: int)
    ensures
        last_of(hits, category) is Some == some_row(hits, category_text(category)),
        last_of(hits, category) is Some ==> {
            &&& 0 <= at < hits.len()
            &&& hits[at].category@ == category_text(category)
            &&& last_of(hits, category) == Some(crate::db::row_festival(hits[at]))
            &&& forall|j: int|
                at < j < hits.len() ==> (#[trigger] hits[j]).category@ != category_text(category)
        },
    decreases hits.len(),
{
    if hits.len() == 0 {
        0
    } else {
        let rest = hits.drop_last();
        let at = lemma_last_of(rest, category);
        crate::model::law_category_round_trips(category, hits.last().category@);
        assert(hits.last() == hits[hits.len() - 1]);
        if some_row(rest, category_text(category)) {
            let i = choose|i: int|
                0 <= i < rest.len() && (#[trigger] rest[i]).category@ == category_text(category);
            assert(hits[i] == rest[i]);
        }
        if some_row(hits, category_text(category)) && last_of(hits, category) is None {
            let i = choose|i: int|
                0 <= i < hits.len() && (#[trigger] hits[i]).category@ == category_text(category);
            assert(rest[i] == hits[i]);
        }
        if category_named(hits.last().category@) == Some(category) {
            hits.len() - 1
        } else {
            if last_of(hits, category) is Some {
                assert forall|j: int| at < j < hits.len() implies (#[trigger] hits[j]).category@
                    != category_text(category) by {
                    if j < rest.len() {
                        assert(rest[j] == hits[j]);
                    }
                }
            }
            at
        }
    }
}

/// Whatever rows come for a day, the answer goes by them and by the calendar.
#[verifier::spinoff_prover]
pub proof fn law_rows_are_answered_right(
    day: Date,
    hits: &Vec<DayRow>,
    data_available: bool,
    q: DayQuery,
)
    requires
        day.valid(),
        call_ensures(day_query, (day, hits, data_available), q),
    ensures
        tells_calendar(day, q),
        tells_kind(q),
        q.data_available == data_available,
        q.is_holiday == some_row(hits@, "holiday"@),
        q.is_in_lieu == some_row(hits@, "in_lieu"@),
        q.is_makeup_workday == some_row(hits@, "workday"@),
        q.festival is Some == (some_row(hits@, "holiday"@) || some_row(hits@, "in_lieu"@)
            || some_row(hits@, "workday"@)),
        q.is_holiday ==> names_last_row(q.festival, hits@, "holiday"@),
        !q.is_holiday && q.is_in_lieu ==> names_last_row(q.festival, hits@, "in_lieu"@),
        !q.is_holiday && !q.is_in_lieu && q.is_makeup_workday ==> names_last_row(
            q.festival,
            hits@,
            "workday"@,
        ),
{
    let h = lemma_last_of(hits@, Category::Holiday);
    let l = lemma_last_of(hits@, Category::InLieu);
    let w = lemma_last_of(hits@, Category::Workday);
    assert(q.is_holiday ==> hits@[h].category@ == "holiday"@);
    assert(q.is_in_lieu ==> hits@[l].category@ == "in_lieu"@);
    assert(q.is_makeup_workday ==> hits@[w].category@ == "workday"@);
}

// ---------------------------------------------------------------- the week

/// The days of the week are numbered from Monday, each has its own name, and the
/// last two make the weekend.
#[verifier::spinoff_prover]
pub proof fn law_days_of_the_week_are_told_apart(
    weekday: Weekday,
    number: u32,
    label: &str,
    weekend: bool,
)
    requires
        call_ensures(Weekday::number_from_monday, (weekday,), number),
        call_ensures(weekday_cn, (weekday,), label),
        call_ensures(is_weekend, (weekday,), weekend),
    ensures
        weekday == Weekday::Mon ==> number == 1 && label@ == "周一"@ && !weekend,
        weekday == Weekday::Tue ==> number == 2 && label@ == "周二"@ && !weekend,
        weekday == Weekday::Wed ==> number == 3 && label@ == "周三"@ && !weekend,
        weekday == Weekday::Thu ==> number == 4 && label@ == "周四"@ && !weekend,
        weekday == Weekday::Fri ==> number == 5 && label@ == "周五"@ && !weekend,
        weekday == Weekday::Sat ==> number == 6 && label@ == "周六"@ && weekend,
        weekday == Weekday::Sun ==> number == 7 && label@ == "周日"@ && weekend,
{
}

/// The day of the week and the written form of a day are those of the calendar: the
/// day after it has the next day of the week, and its digits give the day.
#[verifier::spinoff_prover]
pub proof fn law_days_have_their_place(day: Date, next: Date, r: Weekday, s: Weekday, text: String)
    requires
        day.valid(),
        next.valid(),
        (next.year as int, next.month as int, next.day as int) == next_day(
            day.year as int,
            day.month as int,
            day.day as int,
        ),
        call_ensures(Date::weekday, (day,), r),
        call_ensures(Date::weekday, (next,), s),
        call_ensures(Date::text, (day,), text),
    ensures
        r == Weekday::Mon ==> s == Weekday::Tue,
        r == Weekday::Tue ==> s == Weekday::Wed,
        r == Weekday::Wed ==> s == Weekday::Thu,
        r == Weekday::Thu ==> s == Weekday::Fri,
        r == Weekday::Fri ==> s == Weekday::Sat,
        r == Weekday::Sat ==> s == Weekday::Sun,
        r == Weekday::Sun ==> s == Weekday::Mon,
        day.year == 1 && day.month == 1 && day.day == 1 ==> r == Weekday::Mon,
        gives_day(text@, day.year as int, day.month as int, day.day as int),
{
    law_weekdays_follow(day.year as int, day.month as int, day.day as int);
    law_weekdays_follow(next.year as int, next.month as int, next.day as int);
    law_written_day_reads_back(day.year as int, day.month as int, day.day as int);
    lemma_gives_day(text@, day.year as int, day.month as int, day.day as int);
    if day.year == 1 && day.month == 1 && day.day == 1 {
        assert(crate::calendar::days_before_month(1, 1) == 0);
        assert(crate::calendar::day_number(1, 1, 1) == 1);
    }
}

} // verus!
