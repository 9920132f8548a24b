//! The answers of the REST interface.
//!
//! Each request has a function here that takes what the request says and gives
//! what is answered, or the error.

pub mod docs;

use vstd::prelude::*;
use vstd::string::*;

use crate::api::docs::{HealthResponse, YearsResponse};
use crate::db::{
    answer_from_rows, answer_in, are_stats, are_year_records, are_years, Store, StoreError,
    StoreStats,
};
use crate::model::{
    date_complaint, normal_date, normalize_date, record_views, Category, DayQuery, DayQueryView,
    Record, RecordView,
};
use crate::sqlite::{sql_error_text, DayRow};
use crate::text::{decimal, decimal_text, integer, integer_text};

verus! {

/// The greatest number of dates in one batch.
pub const BATCH_LIMIT: usize = 1000;

// ---------------------------------------------------------------- errors

/// An error, as it is answered: `{"error":{"code":"...","message":"..."}}`.
#[derive(Debug)]
pub struct ApiError {
    /// The status of the answer.
    pub status: u16,
    pub code: &'static str,
    pub message: String,
}

/// Whether an error has this status, code and message.
pub open spec fn is_error(e: ApiError, status: int, code: Seq<char>, message: Seq<char>) -> bool {
    &&& e.status == status
    &&& e.code@ == code
    &&& e.message@ == message
}

/// Whether an error says that SQLite failed.
pub open spec fn is_internal(e: ApiError) -> bool {
    exists|cause: rusqlite::Error|
        is_error(e, 500, "internal_error"@, #[trigger] sql_error_text(cause))
}

impl ApiError {
    /// The request cannot be answered.
    pub fn bad_request(code: &'static str, message: String) -> (r: Self)
        ensures
            is_error(r, 400, code@, message@),
    {
        ApiError { status: 400, code, message }
    }

    /// There is nothing under this path.
    pub fn not_found(message: String) -> (r: Self)
        ensures
            is_error(r, 404, "not_found"@, message@),
    {
        ApiError { status: 404, code: "not_found", message }
    }

    /// The request was in order, but the store failed.
    pub fn internal(err: &StoreError) -> (r: Self)
        ensures
            is_error(r, 500, "internal_error"@, crate::db::store_error_text(*err)),
    {
        ApiError { status: 500, code: "internal_error", message: err.message() }
    }
}

/// What is answered to a request for which there is no route.
pub open spec fn no_route_text() -> Seq<char> {
    "接口不存在，可用接口：GET /api/v1/years、GET /api/v1/holiday?date=、GET /api/v1/holidays?year=、POST /api/v1/holidays/batch"@
}

/// The answer to a request for which there is no route.
pub fn not_found() -> (r: ApiError)
    ensures
        is_error(r, 404, "not_found"@, no_route_text()),
{
    ApiError::not_found(
        String::from_str(
            "接口不存在，可用接口：GET /api/v1/years、GET /api/v1/holiday?date=、GET /api/v1/holidays?year=、POST /api/v1/holidays/batch",
        ),
    )
}

/// Hands on what the store gave, or answers that it failed.
pub fn from_store<T>(found: Result<T, StoreError>) -> (r: Result<T, ApiError>)
    ensures
        match found {
            Ok(v) => r == Ok::<T, ApiError>(v),
            Err(e) => r matches Err(error) && is_error(
                error,
                500,
                "internal_error"@,
                crate::db::store_error_text(e),
            ),
        },
{
    match found {
        Ok(v) => Ok(v),
        Err(e) => Err(ApiError::internal(&e)),
    }
}

// ---------------------------------------------------------------- the state of the service

/// The answer of the health check, given the overview of the store.
pub fn health_response(stats: StoreStats) -> (r: HealthResponse)
    ensures
        r.status@ == "ok"@,
        r.records == stats.total,
        r.dates == stats.distinct_dates,
        r.years == stats.years,
{
    HealthResponse {
        status: "ok",
        records: stats.total,
        dates: stats.distinct_dates,
        years: stats.years,
    }
}

/// Whether the answer of the health check says what the store holds.
pub open spec fn tells_health(store: Store, r: HealthResponse) -> bool {
    exists|stats: StoreStats| #[trigger]
        are_stats(store@.rows, stats) && r.records == stats.total && r.dates
            == stats.distinct_dates && r.years == stats.years
}

/// `GET /health`
pub fn health(store: &Store) -> (r: Result<HealthResponse, ApiError>)
    ensures
        r matches Ok(body) ==> body.status@ == "ok"@ && (store.sole() ==> tells_health(
            *store,
            body,
        )),
        r matches Err(e) ==> is_internal(e),
{
    match from_store(store.stats()) {
        Ok(stats) => Ok(health_response(stats)),
        Err(e) => Err(e),
    }
}

/// The answer that lists years.
pub fn years_response(years: Vec<i32>) -> (r: YearsResponse)
    ensures
        r.count == years@.len(),
        r.years == years,
{
    YearsResponse { count: years.len(), years }
}

/// `GET /api/v1/years`
pub fn years(store: &Store) -> (r: Result<YearsResponse, ApiError>)
    ensures
        r matches Ok(body) ==> body.count == body.years@.len() && (store.sole() ==> are_years(
            store@.rows,
            body.years@,
        )),
        r matches Err(e) ==> is_internal(e),
{
    match from_store(store.available_years()) {
        Ok(years) => Ok(years_response(years)),
        Err(e) => Err(e),
    }
}

// ---------------------------------------------------------------- a single day

/// Whether `q` is an answer that the store may give of a day: the one of its
/// rows, where nobody else writes to them.
pub open spec fn answers_day(store: Store, day: crate::calendar::Date, q: DayQueryView) -> bool {
    &&& exists|hits: Seq<DayRow>, data_available: bool|
        q == #[trigger] answer_from_rows(day, hits, data_available)
    &&& store.sole() ==> q == answer_in(store@.rows, day)
}

/// What is answered to a request for the day that a text names.
pub open spec fn looked_up(store: Store, raw: Seq<char>, r: Result<DayQuery, ApiError>) -> bool {
    match normal_date(raw) {
        None => r matches Err(e) && is_error(e, 400, "invalid_date"@, date_complaint(raw)),
        Some(day) => match r {
            Ok(q) => answers_day(store, day, q@),
            Err(e) => is_internal(e),
        },
    }
}

/// What is known of the day that a text names.
pub fn lookup(store: &Store, raw: &str) -> (r: Result<DayQuery, ApiError>)
    ensures
        looked_up(*store, raw@, r),
{
    match normalize_date(raw) {
        Ok((_, day)) => from_store(store.query_day(day)),
        Err(e) => Err(ApiError::bad_request("invalid_date", String::from_str(e.message()))),
    }
}

/// What is said where the date is missing.
pub open spec fn no_date_text() -> Seq<char> {
    "缺少查询参数 date，例如 ?date=2026-10-01"@
}

/// `GET /api/v1/holiday?date=`
pub fn day_by_query(store: &Store, date: Option<String>) -> (r: Result<DayQuery, ApiError>)
    ensures
        match date {
            None => r matches Err(e) && is_error(e, 400, "missing_date"@, no_date_text()),
            Some(raw) => looked_up(*store, raw@, r),
        },
{
    match date {
        Some(raw) => lookup(store, raw.as_str()),
        None => Err(
            ApiError::bad_request(
                "missing_date",
                String::from_str("缺少查询参数 date，例如 ?date=2026-10-01"),
            ),
        ),
    }
}

// ---------------------------------------------------------------- a whole year

/// The records of a year, by category.
#[derive(Debug)]
pub struct YearResponse {
    pub year: i32,
    /// Whether there is any data of the year.
    pub data_available: bool,
    pub total: usize,
    pub holidays: Vec<Record>,
    pub makeup_workdays: Vec<Record>,
    pub in_lieu_days: Vec<Record>,
}

/// The records of one category, in order.
pub open spec fn of_category(records: Seq<RecordView>, category: Category) -> Seq<RecordView>
    decreases records.len(),
{
    if records.len() == 0 {
        Seq::empty()
    } else {
        let before = of_category(records.drop_last(), category);
        if records.last().category == category {
            before.push(records.last())
        } else {
            before
        }
    }
}

/// Whether an answer lists these records of a year.
pub open spec fn lists_year(r: YearResponse, year: int, records: Seq<RecordView>) -> bool {
    &&& r.year == year
    &&& r.total == records.len()
    &&& r.data_available == (records.len() > 0)
    &&& record_views(r.holidays@) == of_category(records, Category::Holiday)
    &&& record_views(r.makeup_workdays@) == of_category(records, Category::Workday)
    &&& record_views(r.in_lieu_days@) == of_category(records, Category::InLieu)
}

/// Every record is listed in exactly one category.
pub proof fn law_categories_part_the_year(records: Seq<RecordView>)
    ensures
        records.len() == of_category(records, Category::Holiday).len() + of_category(
            records,
            Category::Workday,
        ).len() + of_category(records, Category::InLieu).len(),
        records.to_multiset() == of_category(records, Category::Holiday).to_multiset().add(
            of_category(records, Category::Workday).to_multiset(),
        ).add(of_category(records, Category::InLieu).to_multiset()),
    decreases records.len(),
{
    broadcast use vstd::seq_lib::group_to_multiset_ensures;
    broadcast use vstd::multiset::group_multiset_axioms;

    if records.len() > 0 {
        let rest = records.drop_last();
        law_categories_part_the_year(rest);
        assert(records =~= rest.push(records.last()));
    }
    assert(records.to_multiset() =~= of_category(records, Category::Holiday).to_multiset().add(
        of_category(records, Category::Workday).to_multiset(),
    ).add(of_category(records, Category::InLieu).to_multiset()));
}

/// The answer that lists the records of a year.
pub fn year_response(year: i32, records: Vec<Record>) -> (r: YearResponse)
    ensures
        lists_year(r, year as int, record_views(records@)),
{
    let ghost all = record_views(records@);
    let total: usize = records.len();
    let mut holidays: Vec<Record> = Vec::new();
    let mut makeup_workdays: Vec<Record> = Vec::new();
    let mut in_lieu_days: Vec<Record> = Vec::new();
    assert(all.take(0) =~= Seq::<RecordView>::empty());
    assert(record_views(holidays@) =~= Seq::<RecordView>::empty());
    for record in it: records.into_iter()
        invariant
            it.seq() == records@,
            all == record_views(records@),
            record_views(holidays@) == of_category(all.take(it.index()), Category::Holiday),
            record_views(makeup_workdays@) == of_category(all.take(it.index()), Category::Workday),
            record_views(in_lieu_days@) == of_category(all.take(it.index()), Category::InLieu),
    {
        let ghost part = all.take(it.index() + 1);
        assert(part.drop_last() =~= all.take(it.index()));
        assert(part.last() == record@);
        match record.category {
            Category::Holiday => {
                let ghost before = holidays@;
                holidays.push(record);
                assert(record_views(holidays@) =~= record_views(before).push(record@));
            },
            Category::Workday => {
                let ghost before = makeup_workdays@;
                makeup_workdays.push(record);
                assert(record_views(makeup_workdays@) =~= record_views(before).push(record@));
            },
            Category::InLieu => {
                let ghost before = in_lieu_days@;
                in_lieu_days.push(record);
                assert(record_views(in_lieu_days@) =~= record_views(before).push(record@));
            },
        }
    }
    assert(all.take(all.len() as int) =~= all);
    YearResponse {
        year,
        data_available: total > 0,
        total,
        holidays,
        makeup_workdays,
        in_lieu_days,
    }
}

/// What is said of a year that is out of range.
pub open spec fn year_range_text(year: int) -> Seq<char> {
    "年份超出合理范围（1900-2999）："@ + integer_text(year)
}

/// What is answered to a request for the records of a year.
pub open spec fn listed_year(store: Store, year: int, r: Result<YearResponse, ApiError>) -> bool {
    if 1900 <= year <= 2999 {
        match r {
            Ok(body) => exists|records: Seq<RecordView>| #[trigger]
                lists_year(body, year, records) && (store.sole() ==> are_year_records(
                    store@.rows,
                    year,
                    records,
                )),
            Err(e) => is_internal(e),
        }
    } else {
        r matches Err(e) && is_error(e, 400, "invalid_year"@, year_range_text(year))
    }
}

/// All records of a year, by category. The year must lie between 1900 and 2999.
pub fn list_year(store: &Store, year: i32) -> (r: Result<YearResponse, ApiError>)
    ensures
        listed_year(*store, year as int, r),
{
    if year < 1900 || year > 2999 {
        let mut message = String::from_str("年份超出合理范围（1900-2999）：");
        message.append(integer(year as i64).as_str());
        return Err(ApiError::bad_request("invalid_year", message));
    }
    match from_store(store.year_records(year)) {
        Ok(records) => {
            let ghost all = record_views(records@);
            let body = year_response(year, records);
            let r: Result<YearResponse, ApiError> = Ok(body);
            assert(lists_year(r->Ok_0, year as int, all));
            r
        },
        Err(e) => Err(e),
    }
}

/// What is said where the year is missing.
pub open spec fn no_year_text() -> Seq<char> {
    "缺少查询参数 year，例如 ?year=2026"@
}

/// `GET /api/v1/holidays?year=`
pub fn year_by_query(store: &Store, year: Option<i32>) -> (r: Result<YearResponse, ApiError>)
    ensures
        match year {
            None => r matches Err(e) && is_error(e, 400, "missing_year"@, no_year_text()),
            Some(year) => listed_year(*store, year as int, r),
        },
{
    match year {
        Some(year) => list_year(store, year),
        None => Err(
            ApiError::bad_request(
                "missing_year",
                String::from_str("缺少查询参数 year，例如 ?year=2026"),
            ),
        ),
    }
}

// ---------------------------------------------------------------- batches

/// A date of a batch that could not be answered.
#[derive(Debug)]
pub struct BatchItemError {
    pub date: String,
    pub code: &'static str,
    pub message: String,
}

/// The answer to a batch.
#[derive(Debug)]
pub struct BatchResponse {
    pub total: usize,
    pub succeeded: usize,
    pub failed: usize,
    pub results: Vec<DayQuery>,
    pub errors: Vec<BatchItemError>,
}

/// The answers, in order, of the dates that could be answered.
pub open spec fn answered(found: Seq<Result<DayQuery, ApiError>>) -> Seq<DayQuery>
    decreases found.len(),
{
    if found.len() == 0 {
        Seq::empty()
    } else {
        let before = answered(found.drop_last());
        match found.last() {
            Ok(q) => before.push(q),
            Err(_) => before,
        }
    }
}

/// Whether the errors, in order, are those of the dates that could not be answered.
pub open spec fn complains(
    errors: Seq<BatchItemError>,
    dates: Seq<String>,
    found: Seq<Result<DayQuery, ApiError>>,
) -> bool
    decreases found.len(),
{
    if found.len() == 0 {
        errors.len() == 0
    } else {
        match found.last() {
            Ok(_) => complains(errors, dates.drop_last(), found.drop_last()),
            Err(e) => {
                &&& errors.len() > 0
                &&& errors.last().date@ == dates.last()@
                &&& errors.last().code@ == e.code@
                &&& errors.last().message@ == e.message@
                &&& complains(errors.drop_last(), dates.drop_last(), found.drop_last())
            },
        }
    }
}

/// Whether an answer says what was found of the dates.
pub open spec fn tells_batch(
    r: BatchResponse,
    dates: Seq<String>,
    found: Seq<Result<DayQuery, ApiError>>,
) -> bool {
    &&& found.len() == dates.len()
    &&& r.total == dates.len()
    &&& r.succeeded == answered(found).len()
    &&& r.failed == dates.len() - answered(found).len()
    &&& r.results@ == answered(found)
    &&& complains(r.errors@, dates, found)
}

/// Every date of a batch is either answered or complained of.
pub proof fn law_batch_accounts_for_all(
    r: BatchResponse,
    dates: Seq<String>,
    found: Seq<Result<DayQuery, ApiError>>,
)
    requires
        tells_batch(r, dates, found),
    ensures
        r.total == r.succeeded + r.failed,
        r.succeeded == r.results@.len(),
        r.failed == r.errors@.len(),
{
    lemma_answered_or_not(r.errors@, dates, found);
}

proof fn lemma_answered_or_not(
    errors: Seq<BatchItemError>,
    dates: Seq<String>,
    found: Seq<Result<DayQuery, ApiError>>,
)
    requires
        complains(errors, dates, found),
    ensures
        answered(found).len() + errors.len() == found.len(),
    decreases found.len(),
{
    if found.len() > 0 {
        match found.last() {
            Ok(_) => {
                lemma_answered_or_not(errors, dates.drop_last(), found.drop_last());
            },
            Err(_) => {
                lemma_answered_or_not(errors.drop_last(), dates.drop_last(), found.drop_last());
            },
        }
    }
}

/// The answer to a batch, given what was found of each date.
pub fn batch_response(dates: &Vec<String>, found: Vec<Result<DayQuery, ApiError>>) -> (r:
    BatchResponse)
    requires
        found@.len() == dates@.len(),
    ensures
        tells_batch(r, dates@, found@),
{
    let ghost all = found@;
    let mut results: Vec<DayQuery> = Vec::new();
    let mut errors: Vec<BatchItemError> = Vec::new();
    let total: usize = dates.len();
    let mut i: usize = 0;
    assert(all.take(0) =~= Seq::<Result<DayQuery, ApiError>>::empty());
    for item in it: found.into_iter()
        invariant
            it.seq() == all,
            total == dates@.len(),
            all.len() == total,
            i == it.index(),
            results@ == answered(all.take(i as int)),
            complains(errors@, dates@.take(i as int), all.take(i as int)),
    {
        let ghost part = all.take(i + 1);
        assert(part.drop_last() =~= all.take(i as int));
        assert(dates@.take(i + 1).drop_last() =~= dates@.take(i as int));
        assert(part.last() == item);
        match item {
            Ok(q) => {
                results.push(q);
            },
            Err(e) => {
                let ghost before = errors@;
                errors.push(
                    BatchItemError { date: dates[i].clone(), code: e.code, message: e.message },
                );
                assert(errors@.drop_last() =~= before);
            },
        }
        i = i + 1;
    }
    assert(all.take(all.len() as int) =~= all);
    assert(dates@.take(dates@.len() as int) =~= dates@);
    proof {
        lemma_answered_or_not(errors@, dates@, all);
    }
    BatchResponse {
        total,
        succeeded: results.len(),
        failed: errors.len(),
        results,
        errors,
    }
}

/// What is said where a batch has too many dates.
pub open spec fn batch_limit_text(n: nat) -> Seq<char> {
    "单次最多查询 "@ + decimal_text(BATCH_LIMIT as nat) + " 个日期，当前 "@ + decimal_text(n)
}

/// Whether an answer was given to a request for this very date.
pub open spec fn asked(store: Store, date: Seq<char>, r: Result<DayQuery, ApiError>) -> bool {
    exists|raw: &str| raw@ == date && #[trigger] call_ensures(lookup, (&store, raw), r)
}

/// What is answered to a batch: each date is looked up for itself.
pub open spec fn batch_answered(
    store: Store,
    dates: Seq<String>,
    r: Result<BatchResponse, ApiError>,
) -> bool {
    if dates.len() == 0 {
        r matches Err(e) && is_error(e, 400, "empty_batch"@, "dates 不能为空"@)
    } else if dates.len() > BATCH_LIMIT {
        r matches Err(e) && is_error(e, 400, "batch_too_large"@, batch_limit_text(dates.len()))
    } else {
        r matches Ok(body) && exists|found: Seq<Result<DayQuery, ApiError>>| #[trigger]
            tells_batch(body, dates, found) && forall|i: int|
                0 <= i < dates.len() ==> looked_up(store, dates[i]@, #[trigger] found[i]) && asked(
                    store,
                    dates[i]@,
                    found[i],
                )
    }
}

/// `POST /api/v1/holidays/batch`
///
/// A date that is not valid does not stop the others; it is listed among the
/// errors.
pub fn batch(store: &Store, dates: &Vec<String>) -> (r: Result<BatchResponse, ApiError>)
    ensures
        batch_answered(*store, dates@, r),
{
    if dates.len() == 0 {
        return Err(ApiError::bad_request("empty_batch", String::from_str("dates 不能为空")));
    }
    if dates.len() > BATCH_LIMIT {
        let mut message = String::from_str("单次最多查询 ");
        message.append(decimal(BATCH_LIMIT as u64).as_str());
        message.append(" 个日期，当前 ");
        message.append(decimal(dates.len() as u64).as_str());
        return Err(ApiError::bad_request("batch_too_large", message));
    }
    let mut found: Vec<Result<DayQuery, ApiError>> = Vec::new();
    let mut i: usize = 0;
    while i < dates.len()
        invariant
            i <= dates@.len(),
            found@.len() == i,
            forall|k: int|
                0 <= k < i ==> looked_up(*store, dates@[k]@, #[trigger] found@[k]) && asked(
                    *store,
                    dates@[k]@,
                    found@[k],
                ),
        decreases dates@.len() - i,
    {
        found.push(lookup(store, dates[i].as_str()));
        i = i + 1;
    }
    let ghost all = found@;
    let r: Result<BatchResponse, ApiError> = Ok(batch_response(dates, found));
    assert(tells_batch(r->Ok_0, dates@, all));
    r
}

} // verus!
