//! The model: what a year's data file holds, what a record is, and what is
//! said of a single day.

use vstd::prelude::*;
use vstd::string::*;

use crate::calendar::{
    day_of, is_date_shaped, law_one_written_form, law_written_day_reads_back,
    lemma_date_shape_is_trimmed, month_of, names_calendar_day, parse_ymd, year_of, Date, Weekday,
};
use crate::record_map::RecordMap;
use crate::text::{
    chars_of, first_index, integer_text, last_index, law_integer_reads_back, parse_i64, parse_integer_64, quoted, quoted_text, same_text,
    split_first, split_last, trim, trimmed,
};

verus! {

// ---------------------------------------------------------------- categories

/// The category of a record, one for each collection of a data file.
#[derive(Debug, Clone, Copy, PartialEq, Eq, Structural)]
pub enum Category {
    /// A day off.
    Holiday,
    /// A day of work that makes up for a day off, mostly on a weekend.
    Workday,
    /// A day off that was traded for a day of work.
    InLieu,
}

/// How a category is written in the database.
pub open spec fn category_text(category: Category) -> Seq<char> {
    match category {
        Category::Holiday => "holiday"@,
        Category::Workday => "workday"@,
        Category::InLieu => "in_lieu"@,
    }
}

/// The category that a text names.
pub open spec fn category_named(s: Seq<char>) -> Option<Category> {
    if s == "holiday"@ {
        Some(Category::Holiday)
    } else if s == "workday"@ {
        Some(Category::Workday)
    } else if s == "in_lieu"@ {
        Some(Category::InLieu)
    } else {
        None
    }
}

impl Category {
    pub const ALL: [Category; 3] = [Category::Holiday, Category::Workday, Category::InLieu];

    /// How the category is written in the database.
    pub fn as_str(self) -> (r: &'static str)
        ensures
            r@ == category_text(self),
    {
        match self {
            Category::Holiday => "holiday",
            Category::Workday => "workday",
            Category::InLieu => "in_lieu",
        }
    }

    /// The category that a text names.
    pub fn parse(s: &str) -> (r: Option<Self>)
        ensures
            r == category_named(s@),
    {
        if same_text(s, "holiday") {
            Some(Category::Holiday)
        } else if same_text(s, "workday") {
            Some(Category::Workday)
        } else if same_text(s, "in_lieu") {
            Some(Category::InLieu)
        } else {
            None
        }
    }

    /// The category as the tables on the terminal show it.
    pub fn label_cn(self) -> (r: &'static str)
        ensures
            r@ == category_label(self),
    {
        match self {
            Category::Holiday => "放假",
            Category::Workday => "调休上班",
            Category::InLieu => "调休补假",
        }
    }
}

/// How a category is shown in a table.
pub open spec fn category_label(category: Category) -> Seq<char> {
    match category {
        Category::Holiday => "放假"@,
        Category::Workday => "调休上班"@,
        Category::InLieu => "调休补假"@,
    }
}

/// Each category is written differently.
pub proof fn lemma_category_texts_differ()
    ensures
        "holiday"@ != "workday"@,
        "holiday"@ != "in_lieu"@,
        "workday"@ != "in_lieu"@,
{
    reveal_strlit("holiday");
    reveal_strlit("workday");
    reveal_strlit("in_lieu");
    assert("holiday"@[0] != "workday"@[0]);
    assert("holiday"@[0] != "in_lieu"@[0]);
    assert("workday"@[0] != "in_lieu"@[0]);
}

/// A category is read back from how it is written, and a text that names a
/// category is how that category is written.
pub proof fn law_category_round_trips(category: Category, s: Seq<char>)
    ensures
        category_named(category_text(category)) == Some(category),
        category_named(s) matches Some(c) ==> s == category_text(c),
{
    lemma_category_texts_differ();
}

// ---------------------------------------------------------------- records

/// One record of the database.
#[derive(Debug, Clone, PartialEq, Eq)]
pub struct Record {
    /// The date in its normal form, `YYYY-MM-DD`.
    pub date: String,
    /// Day off, day of work, or day off in lieu.
    pub category: Category,
    /// The English name of the festival.
    pub name_en: String,
    /// The Chinese name of the festival.
    pub name_zh: String,
    /// The statutory days of the festival, not all the days off around it.
    pub statutory_days: i64,
    /// The file that the record came from; none where it was written by hand.
    pub source_file: Option<String>,
}

/// What a record says.
#[verifier::ext_equal]
pub struct RecordView {
    pub date: Seq<char>,
    pub category: Category,
    pub name_en: Seq<char>,
    pub name_zh: Seq<char>,
    pub statutory_days: i64,
    pub source_file: Option<Seq<char>>,
}

/// The text of an optional string.
pub open spec fn optional_text(s: Option<String>) -> Option<Seq<char>> {
    match s {
        Some(t) => Some(t@),
        None => None,
    }
}

impl View for Record {
    type V = RecordView;

    open spec fn view(&self) -> RecordView {
        RecordView {
            date: self.date@,
            category: self.category,
            name_en: self.name_en@,
            name_zh: self.name_zh@,
            statutory_days: self.statutory_days,
            source_file: optional_text(self.source_file),
        }
    }
}

/// What a list of records says.
pub open spec fn record_views(records: Seq<Record>) -> Seq<RecordView> {
    Seq::new(records.len(), |i: int| records[i]@)
}

/// The festival that a day belongs to.
#[derive(Debug, Clone, PartialEq, Eq)]
pub struct Festival {
    /// The English name of the festival.
    pub name_en: String,
    /// The Chinese name of the festival.
    pub name_zh: String,
    /// The statutory days of the festival, not all the days off around it.
    pub statutory_days: i64,
}

/// What is said of a festival.
#[verifier::ext_equal]
pub struct FestivalView {
    pub name_en: Seq<char>,
    pub name_zh: Seq<char>,
    pub statutory_days: i64,
}

impl View for Festival {
    type V = FestivalView;

    open spec fn view(&self) -> FestivalView {
        FestivalView {
            name_en: self.name_en@,
            name_zh: self.name_zh@,
            statutory_days: self.statutory_days,
        }
    }
}

/// What is said of an optional festival.
pub open spec fn optional_festival(f: Option<Festival>) -> Option<FestivalView> {
    match f {
        Some(festival) => Some(festival@),
        None => None,
    }
}

/// What kind of day it is.
#[derive(Debug, Clone, Copy, PartialEq, Eq, Structural)]
pub enum DayType {
    /// A statutory day off.
    Holiday,
    /// A day of work that makes up for a day off.
    MakeupWorkday,
    /// An ordinary weekend.
    Weekend,
    /// An ordinary day of work.
    Workday,
}

/// What is said of a single day.
#[derive(Debug, Clone)]
pub struct DayQuery {
    /// The date in its normal form, `YYYY-MM-DD`.
    pub date: String,
    pub year: i32,
    /// 1 to 12.
    pub month: u32,
    /// 1 to 31.
    pub day: u32,
    /// 1 for Monday to 7 for Sunday.
    pub day_of_week: u32,
    pub day_of_week_cn: &'static str,
    /// Whether it is a Saturday or a Sunday, whatever is made up for.
    pub is_weekend: bool,
    /// Whether the database has data of the year. Where it has none, nothing
    /// is known of the day, and it is not thereby a day of work.
    pub data_available: bool,
    pub day_type: DayType,
    /// Whether it is listed as a day off.
    pub is_holiday: bool,
    /// Whether it is a day of work that makes up for a day off.
    pub is_makeup_workday: bool,
    /// Whether the day off was traded for a day of work.
    pub is_in_lieu: bool,
    /// Whether there is no work: a day off, or a weekend that is not made up for.
    pub is_rest_day: bool,
    /// The festival, where a record of the day names one.
    pub festival: Option<Festival>,
}

/// What is said of a single day, in terms of mathematics.
#[verifier::ext_equal]
pub struct DayQueryView {
    pub date: Seq<char>,
    pub year: int,
    pub month: int,
    pub day: int,
    pub day_of_week: int,
    pub day_of_week_cn: Seq<char>,
    pub is_weekend: bool,
    pub data_available: bool,
    pub day_type: DayType,
    pub is_holiday: bool,
    pub is_makeup_workday: bool,
    pub is_in_lieu: bool,
    pub is_rest_day: bool,
    pub festival: Option<FestivalView>,
}

impl View for DayQuery {
    type V = DayQueryView;

    open spec fn view(&self) -> DayQueryView {
        DayQueryView {
            date: self.date@,
            year: self.year as int,
            month: self.month as int,
            day: self.day as int,
            day_of_week: self.day_of_week as int,
            day_of_week_cn: self.day_of_week_cn@,
            is_weekend: self.is_weekend,
            data_available: self.data_available,
            day_type: self.day_type,
            is_holiday: self.is_holiday,
            is_makeup_workday: self.is_makeup_workday,
            is_in_lieu: self.is_in_lieu,
            is_rest_day: self.is_rest_day,
            festival: optional_festival(self.festival),
        }
    }
}

/// The Chinese name of a day of the week.
pub open spec fn weekday_label(weekday_number: int) -> Seq<char> {
    if weekday_number == 1 {
        "周一"@
    } else if weekday_number == 2 {
        "周二"@
    } else if weekday_number == 3 {
        "周三"@
    } else if weekday_number == 4 {
        "周四"@
    } else if weekday_number == 5 {
        "周五"@
    } else if weekday_number == 6 {
        "周六"@
    } else {
        "周日"@
    }
}

/// The Chinese name of a day of the week.
pub fn weekday_cn(weekday: Weekday) -> (r: &'static str)
    ensures
        r@ == weekday_label(weekday.number()),
{
    match weekday {
        Weekday::Mon => "周一",
        Weekday::Tue => "周二",
        Weekday::Wed => "周三",
        Weekday::Thu => "周四",
        Weekday::Fri => "周五",
        Weekday::Sat => "周六",
        Weekday::Sun => "周日",
    }
}

/// Whether a day of the week belongs to the weekend.
pub fn is_weekend(weekday: Weekday) -> (r: bool)
    ensures
        r == (weekday.number() >= 6),
{
    matches!(weekday, Weekday::Sat | Weekday::Sun)
}

// ---------------------------------------------------------------- dates

/// Why a text is no date.
#[derive(Debug, Clone)]
pub struct DateError(String);

impl View for DateError {
    type V = Seq<char>;

    closed spec fn view(&self) -> Seq<char> {
        self.0@
    }
}

impl DateError {
    pub fn new(message: String) -> (r: Self)
        ensures
            r@ == message@,
    {
        DateError(message)
    }

    /// The message.
    pub fn message(&self) -> (r: &str)
        ensures
            r@ == self@,
    {
        self.0.as_str()
    }
}

/// The day that a text names: `YYYY-MM-DD`, with white space around it or not,
/// where the calendar has such a day.
pub open spec fn normal_date(raw: Seq<char>) -> Option<Date> {
    let s = trimmed(raw);
    if is_date_shaped(s) && names_calendar_day(s) {
        Some(
            Date { year: year_of(s) as i32, month: month_of(s) as u32, day: day_of(s) as u32 },
        )
    } else {
        None
    }
}

/// What is said of a text that names no day.
pub open spec fn date_complaint(raw: Seq<char>) -> Seq<char> {
    if is_date_shaped(trimmed(raw)) {
        "日期 "@ + quoted_text(raw) + " 不合法:"@ + "input is out of range"@
    } else {
        "日期格式应为 YYYY-MM-DD（如 2026-10-01），实际为 "@ + quoted_text(raw)
    }
}

/// Whether the characters have the shape of `YYYY-MM-DD`.
fn has_date_shape(cs: &Vec<char>) -> (r: bool)
    ensures
        r == is_date_shaped(cs@),
{
    if cs.len() != 10 || cs[4] != '-' || cs[7] != '-' {
        return false;
    }
    let mut i: usize = 0;
    while i < 10
        invariant
            cs@.len() == 10,
            cs@[4] == '-',
            cs@[7] == '-',
            i <= 10,
            forall|j: int|
                0 <= j < i && j != 4 && j != 7 ==> crate::text::is_digit(#[trigger] cs@[j]),
        decreases 10 - i,
    {
        if i != 4 && i != 7 && !('0' <= cs[i] && cs[i] <= '9') {
            assert(!crate::text::is_digit(cs@[i as int]));
            return false;
        }
        i = i + 1;
    }
    true
}

/// Checks a date and brings it into its normal form. It must be `YYYY-MM-DD`
/// and name a day that exists.
pub fn normalize_date(raw: &str) -> (r: Result<(String, Date), DateError>)
    ensures
        match r {
            Ok((text, day)) => normal_date(raw@) == Some(day) && day.valid() && text@
                == day.written(),
            Err(e) => normal_date(raw@) is None && e@ == date_complaint(raw@),
        },
{
    let s = trim(raw);
    let cs = chars_of(s);
    if !has_date_shape(&cs) {
        let mut message = String::from_str("日期格式应为 YYYY-MM-DD（如 2026-10-01），实际为 ");
        message.append(quoted(raw).as_str());
        return Err(DateError::new(message));
    }
    match parse_ymd(s) {
        Ok(day) => {
            let text = day.text();
            Ok((text, day))
        },
        Err(reason) => {
            let mut message = String::from_str("日期 ");
            message.append(quoted(raw).as_str());
            message.append(" 不合法:");
            message.append(reason.as_str());
            Err(DateError::new(message))
        },
    }
}

/// The normal form of a date is the text that was given, without the white
/// space around it; it names the same day, and is its own normal form.
pub proof fn law_normal_form(raw: Seq<char>)
    ensures
        normal_date(raw) matches Some(day) ==> {
            &&& day.valid()
            &&& day.written() == trimmed(raw)
            &&& normal_date(day.written()) == Some(day)
        },
{
    let s = trimmed(raw);
    if is_date_shaped(s) && names_calendar_day(s) {
        law_one_written_form(s);
        lemma_date_shape_is_trimmed(s);
    }
}

/// Every day that exists is named by how it is written, and by no other text
/// of ten characters.
pub proof fn law_days_have_one_name(day: Date, s: Seq<char>)
    requires
        day.valid(),
    ensures
        normal_date(day.written()) == Some(day),
        s.len() == 10 && normal_date(s) == Some(day) ==> s == day.written(),
{
    let text = day.written();
    law_written_day_reads_back(day.year as int, day.month as int, day.day as int);
    lemma_date_shape_is_trimmed(text);
    if s.len() == 10 && normal_date(s) == Some(day) {
        law_normal_form(s);
        lemma_trimmed_length(s);
    }
}

/// Trimming a text makes it shorter or leaves it as it is.
proof fn lemma_trimmed_length(s: Seq<char>)
    ensures
        trimmed(s).len() <= s.len(),
        trimmed(s).len() == s.len() ==> trimmed(s) == s,
{
    lemma_trim_left_length(s);
    lemma_trim_right_length(crate::text::trim_left(s));
}

proof fn lemma_trim_left_length(s: Seq<char>)
    ensures
        crate::text::trim_left(s).len() <= s.len(),
        crate::text::trim_left(s).len() == s.len() ==> crate::text::trim_left(s) == s,
    decreases s.len(),
{
    if s.len() > 0 {
        lemma_trim_left_length(s.drop_first());
    }
}

proof fn lemma_trim_right_length(s: Seq<char>)
    ensures
        crate::text::trim_right(s).len() <= s.len(),
        crate::text::trim_right(s).len() == s.len() ==> crate::text::trim_right(s) == s,
    decreases s.len(),
{
    if s.len() > 0 {
        lemma_trim_right_length(s.drop_last());
    }
}

// ---------------------------------------------------------------- values

/// What the value of an entry says.
#[derive(Debug, Clone, PartialEq, Eq)]
pub struct ParsedValue {
    pub name_en: String,
    pub name_zh: String,
    pub statutory_days: i64,
}

impl View for ParsedValue {
    type V = FestivalView;

    open spec fn view(&self) -> FestivalView {
        FestivalView {
            name_en: self.name_en@,
            name_zh: self.name_zh@,
            statutory_days: self.statutory_days,
        }
    }
}

/// What a value says, or what is wrong with it. The days stand behind the last
/// comma; the first comma before that one parts the English from the Chinese
/// name.
pub open spec fn value_meaning(raw: Seq<char>) -> Result<FestivalView, Seq<char>> {
    let s = trimmed(raw);
    let last = last_index(s, ',');
    let head = s.take(last);
    let days = trimmed(s.skip(last + 1));
    let first = first_index(head, ',');
    let name_en = trimmed(head.take(first));
    let name_zh = trimmed(head.skip(first + 1));
    if s.len() == 0 {
        Err("值为空"@)
    } else if last < 0 {
        Err("缺少法定天数分段："@ + quoted_text(s))
    } else if first == head.len() {
        Err("缺少中文名分段："@ + quoted_text(s))
    } else if parse_integer_64(days) is None {
        Err("法定天数不是整数："@ + quoted_text(days))
    } else if name_en.len() == 0 || name_zh.len() == 0 {
        Err("中英文名不能为空："@ + quoted_text(s))
    } else {
        Ok(
            FestivalView {
                name_en,
                name_zh,
                statutory_days: parse_integer_64(days)->0,
            },
        )
    }
}

/// The message `head`, followed by `text` in quotes.
fn complaint(head: &str, text: &str) -> (r: String)
    ensures
        r@ == head@ + quoted_text(text@),
{
    let mut out = String::from_str(head);
    out.append(quoted(text).as_str());
    out
}

/// Reads a value of the form `English name,Chinese name,statutory days`, such as
/// `Spring Festival,春节,4`.
///
/// The days are what stands behind the last comma, and the names are parted at
/// the first, so a comma in a name does not move the days.
pub fn parse_value(raw: &str) -> (r: Result<ParsedValue, String>)
    ensures
        match r {
            Ok(value) => value_meaning(raw@) == Ok::<FestivalView, Seq<char>>(value@),
            Err(reason) => value_meaning(raw@) == Err::<FestivalView, Seq<char>>(reason@),
        },
{
    let s = trim(raw);
    if s.is_empty() {
        return Err(String::from_str("值为空"));
    }
    let (head, tail) = match split_last(s, ',') {
        Some(parts) => parts,
        None => {
            return Err(complaint("缺少法定天数分段：", s));
        },
    };
    let (en, zh) = match split_first(head, ',') {
        Some(parts) => parts,
        None => {
            return Err(complaint("缺少中文名分段：", s));
        },
    };
    let days = trim(tail);
    proof {
        crate::text::lemma_first_index(head@, ',');
    }
    let statutory_days: i64 = match parse_i64(days) {
        Some(n) => n,
        None => {
            return Err(complaint("法定天数不是整数：", days));
        },
    };
    let name_en = trim(en);
    let name_zh = trim(zh);
    if name_en.is_empty() || name_zh.is_empty() {
        return Err(complaint("中英文名不能为空：", s));
    }
    Ok(
        ParsedValue {
            name_en: String::from_str(name_en),
            name_zh: String::from_str(name_zh),
            statutory_days,
        },
    )
}

proof fn lemma_first_index_at(a: Seq<char>, c: char, b: Seq<char>)
    requires
        forall|i: int| 0 <= i < a.len() ==> a[i] != c,
    ensures
        first_index(a + seq![c] + b, c) == a.len(),
{
    let s = a + seq![c] + b;
    crate::text::lemma_first_index(s, c);
    assert(s[a.len() as int] == c);
    let i = first_index(s, c);
    if i < a.len() {
        assert(s[i] == a[i]);
    }
}

proof fn lemma_last_index_at(a: Seq<char>, c: char, b: Seq<char>)
    requires
        forall|i: int| 0 <= i < b.len() ==> b[i] != c,
    ensures
        last_index(a + seq![c] + b, c) == a.len(),
{
    let s = a + seq![c] + b;
    crate::text::lemma_last_index(s, c);
    assert(s[a.len() as int] == c);
    let i = last_index(s, c);
    if i > a.len() {
        assert(s[i] == b[i - a.len() - 1]);
    }
}

/// A text without white space at its ends is its own trimmed form, and no other
/// text is.
proof fn lemma_trimmed_ends(s: Seq<char>)
    requires
        s.len() > 0,
    ensures
        (trimmed(s) == s) == (!crate::text::is_white_space(s[0]) && !crate::text::is_white_space(
            s.last(),
        )),
{
    if crate::text::is_white_space(s[0]) {
        lemma_trim_left_length(s.drop_first());
        lemma_trim_right_length(crate::text::trim_left(s));
    } else if crate::text::is_white_space(s.last()) {
        lemma_trim_right_length(s.drop_last());
    }
}

/// A value that is put together from two names and a number of days is read back
/// as these. The Chinese name may hold commas, the English name may not.
pub proof fn law_value_reads_back(name_en: Seq<char>, name_zh: Seq<char>, statutory_days: i64)
    requires
        name_en.len() > 0,
        name_zh.len() > 0,
        trimmed(name_en) == name_en,
        trimmed(name_zh) == name_zh,
        forall|i: int| 0 <= i < name_en.len() ==> name_en[i] != ',',
    ensures
        value_meaning(
            name_en + seq![','] + name_zh + seq![','] + integer_text(statutory_days as int),
        ) == Ok::<FestivalView, Seq<char>>(FestivalView { name_en, name_zh, statutory_days }),
{
    let days = integer_text(statutory_days as int);
    let head = name_en + seq![','] + name_zh;
    let s = head + seq![','] + days;
    law_integer_reads_back(statutory_days as int);
    assert forall|i: int| 0 <= i < days.len() implies days[i] != ',' by {
        assert(crate::text::is_digit(days[i]) || days[i] == '-');
    }
    lemma_trimmed_ends(name_en);
    lemma_trimmed_ends(name_zh);
    assert(s[0] == name_en[0]);
    assert(s.last() == days.last());
    assert(days.last() == days[days.len() - 1]);
    lemma_trimmed_ends(s);
    lemma_trimmed_ends(days);
    lemma_last_index_at(head, ',', days);
    lemma_first_index_at(name_en, ',', name_zh);
    assert(s.take(head.len() as int) =~= head);
    assert(s.skip(head.len() as int + 1) =~= days);
    assert(head.take(name_en.len() as int) =~= name_en);
    assert(head.skip(name_en.len() as int + 1) =~= name_zh);
}

// ---------------------------------------------------------------- data files

/// The data of one file, `YYYY.json`: three collections of entries, from dates
/// to values.
#[derive(Debug)]
pub struct YearFile {
    /// The days off.
    pub holidays: RecordMap,
    /// The days of work that make up for days off.
    pub workdays: RecordMap,
    /// The days off that were traded for days of work.
    pub in_lieu_days: RecordMap,
}

/// All entries of one category.
pub struct Entry<'a> {
    pub category: Category,
    pub records: &'a RecordMap,
}

/// One entry of a data file: its category, its date and its value.
#[verifier::ext_equal]
pub struct RawEntry {
    pub category: Category,
    pub date: Seq<char>,
    pub value: Seq<char>,
}

/// The entries of one collection, each with the category.
pub open spec fn tagged(category: Category, items: Seq<(Seq<char>, Seq<char>)>) -> Seq<RawEntry> {
    Seq::new(
        items.len(),
        |i: int| RawEntry { category, date: items[i].0, value: items[i].1 },
    )
}

impl View for YearFile {
    type V = Seq<RawEntry>;

    /// All entries, in the order in which they are taken in.
    open spec fn view(&self) -> Seq<RawEntry> {
        tagged(Category::Holiday, self.holidays@) + tagged(Category::Workday, self.workdays@)
            + tagged(Category::InLieu, self.in_lieu_days@)
    }
}

impl Default for YearFile {
    /// A file without entries.
    fn default() -> (r: Self)
        ensures
            r@.len() == 0,
    {
        YearFile::new()
    }
}

impl YearFile {
    /// A file without entries.
    pub fn new() -> (r: Self)
        ensures
            r@.len() == 0,
            r.holidays@.len() == 0,
            r.workdays@.len() == 0,
            r.in_lieu_days@.len() == 0,
    {
        YearFile {
            holidays: RecordMap::new(),
            workdays: RecordMap::new(),
            in_lieu_days: RecordMap::new(),
        }
    }

    /// The three collections, each with its category.
    pub fn entries(&self) -> (r: [Entry<'_>; 3])
        ensures
            r[0].category == Category::Holiday && *r[0].records == self.holidays,
            r[1].category == Category::Workday && *r[1].records == self.workdays,
            r[2].category == Category::InLieu && *r[2].records == self.in_lieu_days,
    {
        [
            Entry { category: Category::Holiday, records: &self.holidays },
            Entry { category: Category::Workday, records: &self.workdays },
            Entry { category: Category::InLieu, records: &self.in_lieu_days },
        ]
    }

    /// The number of entries in the file.
    pub fn len(&self) -> (r: usize)
        requires
            self@.len() <= usize::MAX,
        ensures
            r == self@.len(),
    {
        self.holidays.len() + self.workdays.len() + self.in_lieu_days.len()
    }

    /// Whether the file has no entries.
    pub fn is_empty(&self) -> (r: bool)
        ensures
            r == (self@.len() == 0),
    {
        self.holidays.is_empty() && self.workdays.is_empty() && self.in_lieu_days.is_empty()
    }
}

} // verus!
