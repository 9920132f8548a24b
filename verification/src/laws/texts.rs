//! How texts are read and written: numbers, dates and values, in terms of their
//! characters.

use vstd::prelude::*;

use crate::calendar::{is_date_shaped, Date};
use crate::model::{
    law_normal_form, normal_date, normalize_date, parse_value, value_meaning, Category, DateError,
    ParsedValue,
};
use crate::text::{
    decimal, decimal_text, digit, digits_value, first_index, integer, is_white_space, last_index,
    lemma_first_index, lemma_last_index, parse_i32, parse_i64, parse_integer_64, quoted_text,
    same_text, sorts_before, split_first, split_last, text_less, trim, trim_left, trim_right,
    trimmed,
};

verus! {

// ---------------------------------------------------------------- white space

/// Whether `text` stands at `from` in `raw`, with nothing but white space around it
/// and none at its own ends.
pub open spec fn stands_bare(raw: Seq<char>, text: Seq<char>, from: int) -> bool {
    &&& 0 <= from && from + text.len() <= raw.len()
    &&& forall|i: int| 0 <= i < text.len() ==> raw[from + i] == #[trigger] text[i]
    &&& forall|i: int|
        0 <= i < from || from + text.len() <= i < raw.len() ==> is_white_space(#[trigger] raw[i])
    &&& text.len() > 0 ==> !is_white_space(text[0]) && !is_white_space(text[text.len() - 1])
}

/// Whether `text` is what stands between the white space at the ends of `raw`.
pub open spec fn core_of(raw: Seq<char>, text: Seq<char>) -> bool {
    exists|from: int| #[trigger] stands_bare(raw, text, from)
}

#[verifier::spinoff_prover]
proof fn lemma_trim_left(s: Seq<char>) -> (n: int)
    ensures
        0 <= n <= s.len(),
        trim_left(s) == s.skip(n),
        forall|i: int| 0 <= i < n ==> is_white_space(#[trigger] s[i]),
        n < s.len() ==> !is_white_space(s[n]),
    decreases s.len(),
{
    if s.len() > 0 && is_white_space(s[0]) {
        let rest = s.drop_first();
        let n = lemma_trim_left(rest);
        assert(rest.skip(n) =~= s.skip(n + 1));
        assert forall|i: int| 0 <= i < n + 1 implies is_white_space(#[trigger] s[i]) by {
            if i > 0 {
                assert(s[i] == rest[i - 1]);
            }
        }
        n + 1
    } else {
        assert(s.skip(0) =~= s);
        0
    }
}

#[verifier::spinoff_prover]
proof fn lemma_trim_right(s: Seq<char>) -> (n: int)
    ensures
        0 <= n <= s.len(),
        trim_right(s) == s.take(n),
        forall|i: int| n <= i < s.len() ==> is_white_space(#[trigger] s[i]),
        n > 0 ==> !is_white_space(s[n - 1]),
    decreases s.len(),
{
    if s.len() > 0 && is_white_space(s.last()) {
        let rest = s.drop_last();
        let n = lemma_trim_right(rest);
        assert(rest.take(n) =~= s.take(n));
        assert forall|i: int| n <= i < s.len() implies is_white_space(#[trigger] s[i]) by {
            if i < s.len() - 1 {
                assert(s[i] == rest[i]);
            }
        }
        n
    } else {
        assert(s.take(s.len() as int) =~= s);
        s.len() as int
    }
}

#[verifier::spinoff_prover]
pub proof fn lemma_trimmed_is_core(raw: Seq<char>)
    ensures
        core_of(raw, trimmed(raw)),
{
    let from = lemma_trim_left(raw);
    let left = raw.skip(from);
    let n = lemma_trim_right(left);
    let text = left.take(n);
    assert forall|i: int|
        0 <= i < from || from + text.len() <= i < raw.len() implies is_white_space(
        #[trigger] raw[i],
    ) by {
        if i >= from {
            assert(raw[i] == left[i - from]);
        }
    }
    if n > 0 {
        assert(text[0] == raw[from]);
        assert(text[n - 1] == left[n - 1]);
    }
    assert(stands_bare(raw, text, from));
}

#[verifier::spinoff_prover]
pub proof fn lemma_one_core(raw: Seq<char>, a: Seq<char>, b: Seq<char>)
    requires
        core_of(raw, a),
        core_of(raw, b),
    ensures
        a == b,
{
    let i = choose|i: int| #[trigger] stands_bare(raw, a, i);
    let j = choose|j: int| #[trigger] stands_bare(raw, b, j);
    if a.len() > 0 {
        assert(raw[i + 0] == a[0]);
        assert(raw[i + (a.len() - 1)] == a[a.len() - 1]);
    }
    if b.len() > 0 {
        assert(raw[j + 0] == b[0]);
        assert(raw[j + (b.len() - 1)] == b[b.len() - 1]);
    }
    if a.len() > 0 && b.len() > 0 {
        assert(i == j);
        assert(a.len() == b.len());
        assert forall|k: int| 0 <= k < a.len() implies a[k] == b[k] by {
            assert(raw[i + k] == a[k]);
            assert(raw[j + k] == b[k]);
        }
    }
    assert(a =~= b);
}

/// Trimming leaves what stands between the white space at the ends, and that alone.
#[verifier::spinoff_prover]
pub proof fn law_ends_are_trimmed(raw: &str, r: &str)
    requires
        call_ensures(trim, (raw,), r),
    ensures
        core_of(raw@, r@),
        forall|text: Seq<char>| #[trigger] core_of(raw@, text) ==> text == r@,
{
    lemma_trimmed_is_core(raw@);
    assert forall|text: Seq<char>| #[trigger] core_of(raw@, text) implies text == r@ by {
        lemma_one_core(raw@, text, r@);
    }
}

// ---------------------------------------------------------------- parts

pub open spec fn lacks(text: Seq<char>, c: char) -> bool {
    forall|i: int| 0 <= i < text.len() ==> #[trigger] text[i] != c
}

/// A text is parted at the first separator: none stands before it.
#[verifier::spinoff_prover]
pub proof fn law_texts_are_parted_at_the_first(s: &str, sep: char, r: Option<(&str, &str)>)
    requires
        call_ensures(split_first, (s, sep), r),
    ensures
        match r {
            Some((head, tail)) => s@ == head@ + seq![sep] + tail@ && lacks(head@, sep),
            None => lacks(s@, sep),
        },
{
    lemma_first_index(s@, sep);
    if let Some((head, tail)) = r {
        assert(s@ =~= head@ + seq![sep] + tail@);
    }
}

/// A text is parted at the last separator: none stands behind it.
#[verifier::spinoff_prover]
pub proof fn law_texts_are_parted_at_the_last(s: &str, sep: char, r: Option<(&str, &str)>)
    requires
        call_ensures(split_last, (s, sep), r),
    ensures
        match r {
            Some((head, tail)) => s@ == head@ + seq![sep] + tail@ && lacks(tail@, sep),
            None => lacks(s@, sep),
        },
{
    lemma_last_index(s@, sep);
    if let Some((head, tail)) = r {
        assert(s@ =~= head@ + seq![sep] + tail@);
    }
}

// ---------------------------------------------------------------- numbers

/// The number that digits stand for, read from the left.
pub open spec fn read_digits(s: Seq<char>) -> int {
    s.fold_left(0int, |value: int, c: char| value * 10 + (c as int - '0' as int))
}

/// Whether a text writes a number in digits alone.
pub open spec fn writes_digits(s: Seq<char>, value: int) -> bool {
    &&& s.len() > 0
    &&& forall|i: int| 0 <= i < s.len() ==> '0' <= #[trigger] s[i] <= '9'
    &&& read_digits(s) == value
}

/// Whether a text writes a number in digits, with a sign in front or without.
pub open spec fn writes_number(s: Seq<char>, value: int) -> bool {
    ||| writes_digits(s, value)
    ||| s.len() > 0 && s[0] == '+' && writes_digits(s.skip(1), value)
    ||| s.len() > 0 && s[0] == '-' && writes_digits(s.skip(1), -value)
}

#[verifier::spinoff_prover]
pub proof fn lemma_read_digits(s: Seq<char>)
    ensures
        read_digits(s) == digits_value(s),
    decreases s.len(),
{
    if s.len() > 0 {
        lemma_read_digits(s.drop_last());
    }
}

#[verifier::spinoff_prover]
pub proof fn lemma_number_read(s: Seq<char>, value: int)
    ensures
        writes_number(s, value) == (crate::text::parse_integer(s) == Some(value)),
{
    lemma_read_digits(s);
    if s.len() > 0 {
        assert(s.skip(1) =~= s.drop_first());
        lemma_read_digits(s.skip(1));
        assert(forall|i: int| 0 <= i < s.len() ==> crate::text::is_digit(#[trigger] s[i]) == ('0'
            <= s[i] <= '9'));
    }
}

/// A number is read from how it is written; what writes none that fits is refused.
#[verifier::spinoff_prover]
pub proof fn law_numbers_are_read_right(s: &str, r: Option<i64>)
    requires
        call_ensures(parse_i64, (s,), r),
    ensures
        match r {
            Some(value) => writes_number(s@, value as int),
            None => forall|value: int|
                i64::MIN <= value <= i64::MAX ==> !#[trigger] writes_number(s@, value),
        },
{
    if let Some(value) = r {
        lemma_number_read(s@, value as int);
    }
    assert forall|value: int| r is None && i64::MIN <= value <= i64::MAX implies !#[trigger]
        writes_number(s@, value) by {
        lemma_number_read(s@, value);
    }
}

/// A number of 32 bits is read from how it is written; what writes none that fits
/// is refused.
#[verifier::spinoff_prover]
pub proof fn law_small_numbers_are_read_right(s: &str, r: Option<i32>)
    requires
        call_ensures(parse_i32, (s,), r),
    ensures
        match r {
            Some(value) => writes_number(s@, value as int),
            None => forall|value: int|
                i32::MIN <= value <= i32::MAX ==> !#[trigger] writes_number(s@, value),
        },
{
    if let Some(value) = r {
        lemma_number_read(s@, value as int);
    }
    assert forall|value: int| r is None && i32::MIN <= value <= i32::MAX implies !#[trigger]
        writes_number(s@, value) by {
        lemma_number_read(s@, value);
    }
}

#[verifier::spinoff_prover]
proof fn lemma_decimal_written(n: nat)
    ensures
        writes_digits(decimal_text(n), n as int),
        decimal_text(n)[0] == '0' ==> n == 0,
        decimal_text(n).len() > 1 ==> n >= 10,
    decreases n,
{
    let s = decimal_text(n);
    reveal_with_fuel(digits_value, 2);
    lemma_read_digits(s);
    if n >= 10 {
        let rest = decimal_text(n / 10);
        lemma_decimal_written(n / 10);
        lemma_read_digits(rest);
        assert(s.drop_last() =~= rest);
        assert(s[0] == rest[0]);
        assert forall|i: int| 0 <= i < s.len() implies '0' <= #[trigger] s[i] <= '9' by {
            if i < rest.len() {
                assert(s[i] == rest[i]);
            }
        }
    } else {
        assert(s.drop_last() =~= Seq::<char>::empty());
    }
}

/// A number is written in digits, without zeros in front.
#[verifier::spinoff_prover]
pub proof fn law_numbers_are_written_right(n: u64, r: String)
    requires
        call_ensures(decimal, (n,), r),
    ensures
        writes_digits(r@, n as int),
        r@[0] == '0' ==> r@.len() == 1,
{
    lemma_decimal_written(n as nat);
}

/// A number below zero is written with a minus sign in front of its digits.
#[verifier::spinoff_prover]
pub proof fn law_signed_numbers_are_written_right(n: i64, r: String)
    requires
        call_ensures(integer, (n,), r),
    ensures
        n >= 0 ==> writes_digits(r@, n as int) && (r@[0] == '0' ==> r@.len() == 1),
        n < 0 ==> r@.len() > 1 && r@[0] == '-' && writes_digits(r@.skip(1), -n) && r@[1] != '0',
{
    if n < 0 {
        let digits = decimal_text((-n) as nat);
        lemma_decimal_written((-n) as nat);
        assert(r@.skip(1) =~= digits);
    } else {
        lemma_decimal_written(n as nat);
    }
}

/// A digit stands for the number that it is given for.
#[verifier::spinoff_prover]
pub proof fn law_digits_are_written_right(n: u64, r: char)
    requires
        n < 10,
        call_ensures(digit, (n,), r),
    ensures
        '0' <= r <= '9',
        r as int - '0' as int == n,
{
}

// ---------------------------------------------------------------- order

/// Whether two texts agree in their first `k` characters, and the first text then
/// ends, or has the lesser character.
pub open spec fn comes_first_at(a: Seq<char>, b: Seq<char>, k: int) -> bool {
    &&& 0 <= k <= a.len()
    &&& k < b.len()
    &&& forall|i: int| 0 <= i < k ==> a[i] == #[trigger] b[i]
    &&& k < a.len() ==> a[k] < b[k]
}

#[verifier::spinoff_prover]
proof fn lemma_comes_first(a: Seq<char>, b: Seq<char>)
    ensures
        text_less(a, b) == exists|k: int| #[trigger] comes_first_at(a, b, k),
    decreases b.len(),
{
    if b.len() > 0 && a.len() > 0 && a[0] == b[0] {
        let x = a.drop_first();
        let y = b.drop_first();
        lemma_comes_first(x, y);
        if text_less(a, b) {
            let k = choose|k: int| #[trigger] comes_first_at(x, y, k);
            assert forall|i: int| 0 <= i < k + 1 implies a[i] == #[trigger] b[i] by {
                if i > 0 {
                    assert(x[i - 1] == y[i - 1]);
                }
            }
            assert(comes_first_at(a, b, k + 1));
        }
        if exists|k: int| #[trigger] comes_first_at(a, b, k) {
            let k = choose|k: int| #[trigger] comes_first_at(a, b, k);
            assert forall|i: int| 0 <= i < k - 1 implies x[i] == #[trigger] y[i] by {
                assert(a[i + 1] == b[i + 1]);
            }
            assert(comes_first_at(x, y, k - 1));
        }
    } else if b.len() > 0 {
        if text_less(a, b) {
            assert(comes_first_at(a, b, 0));
        }
        if exists|k: int| #[trigger] comes_first_at(a, b, k) {
            let k = choose|k: int| #[trigger] comes_first_at(a, b, k);
            if k > 0 {
                assert(a[0] == b[0]);
            }
        }
    }
}

/// Texts sort by the first character in which they differ, and a text comes before
/// those that it starts.
#[verifier::spinoff_prover]
pub proof fn law_texts_sort_right(a: &str, b: &str, r: bool)
    requires
        call_ensures(sorts_before, (a, b), r),
    ensures
        r == exists|k: int| #[trigger] comes_first_at(a@, b@, k),
{
    lemma_comes_first(a@, b@);
}

/// Two texts are the same where they have the same characters.
#[verifier::spinoff_prover]
pub proof fn law_texts_are_told_apart(a: &str, b: &str, r: bool)
    requires
        call_ensures(same_text, (a, b), r),
    ensures
        r == (a@.len() == b@.len() && forall|i: int| 0 <= i < a@.len() ==> a@[i] == b@[i]),
{
    if a@.len() == b@.len() && forall|i: int| 0 <= i < a@.len() ==> a@[i] == b@[i] {
        assert(a@ =~= b@);
    }
}

// ---------------------------------------------------------------- categories

/// A category is written, read and shown under names of its own.
#[verifier::spinoff_prover]
pub proof fn law_categories_are_named_right(category: Category, text: &str, label: &str)
    requires
        call_ensures(Category::as_str, (category,), text),
        call_ensures(Category::label_cn, (category,), label),
    ensures
        category == Category::Holiday ==> text@ == "holiday"@ && label@ == "放假"@,
        category == Category::Workday ==> text@ == "workday"@ && label@ == "调休上班"@,
        category == Category::InLieu ==> text@ == "in_lieu"@ && label@ == "调休补假"@,
        forall|r: Option<Category>| #[trigger]
            call_ensures(Category::parse, (text,), r) ==> r == Some(category),
{
    crate::model::lemma_category_texts_differ();
}

/// No text but these names a category.
#[verifier::spinoff_prover]
pub proof fn law_no_other_category_is_known(text: &str, r: Option<Category>)
    requires
        call_ensures(Category::parse, (text,), r),
    ensures
        r == Some(Category::Holiday) <==> text@ == "holiday"@,
        r == Some(Category::Workday) <==> text@ == "workday"@,
        r == Some(Category::InLieu) <==> text@ == "in_lieu"@,
{
    crate::model::lemma_category_texts_differ();
}

/// All categories are listed, each of them once.
#[verifier::spinoff_prover]
pub proof fn law_all_categories_are_listed()
    ensures
        Category::ALL[0] == Category::Holiday,
        Category::ALL[1] == Category::Workday,
        Category::ALL[2] == Category::InLieu,
{
}

// ---------------------------------------------------------------- dates

/// Whether a text gives a year in four digits, a month and a day in two each.
pub open spec fn gives_day(text: Seq<char>, year: int, month: int, day: int) -> bool {
    &&& text.len() == 10
    &&& text[4] == '-'
    &&& text[7] == '-'
    &&& writes_digits(text.subrange(0, 4), year)
    &&& writes_digits(text.subrange(5, 7), month)
    &&& writes_digits(text.subrange(8, 10), day)
}

/// Whether there is such a day: a month has 31 days or 30, and February has 28, or
/// 29 in a leap year.
pub open spec fn day_exists(year: int, month: int, day: int) -> bool {
    &&& 1 <= month <= 12
    &&& 1 <= day <= 31
    &&& month == 4 || month == 6 || month == 9 || month == 11 ==> day <= 30
    &&& month == 2 ==> day <= 29
    &&& month == 2 && day == 29 ==> year % 4 == 0 && (year % 100 == 0 ==> year % 400 == 0)
}

/// Whether a text names a day, with white space around it or without.
pub open spec fn names_day(raw: Seq<char>, year: int, month: int, day: int) -> bool {
    exists|text: Seq<char>| #[trigger] core_of(raw, text) && gives_day(text, year, month, day)
}

#[verifier::spinoff_prover]
pub proof fn lemma_gives_day(text: Seq<char>, year: int, month: int, day: int)
    ensures
        gives_day(text, year, month, day) == (is_date_shaped(text) && year
            == crate::calendar::year_of(text) && month == crate::calendar::month_of(text) && day
            == crate::calendar::day_of(text)),
{
    if text.len() == 10 {
        let y = text.subrange(0, 4);
        let m = text.subrange(5, 7);
        let d = text.subrange(8, 10);
        lemma_read_digits(y);
        lemma_read_digits(m);
        lemma_read_digits(d);
        if gives_day(text, year, month, day) {
            assert forall|i: int| 0 <= i < 10 && i != 4 && i != 7 implies crate::text::is_digit(
                #[trigger] text[i],
            ) by {
                if i < 4 {
                    assert(y[i] == text[i]);
                } else if i < 7 {
                    assert(m[i - 5] == text[i]);
                } else {
                    assert(d[i - 8] == text[i]);
                }
            }
        }
        if is_date_shaped(text) {
            assert(forall|i: int| 0 <= i < 4 ==> crate::text::is_digit(#[trigger] y[i]));
            assert(forall|i: int| 0 <= i < 2 ==> crate::text::is_digit(#[trigger] m[i]));
            assert(forall|i: int| 0 <= i < 2 ==> crate::text::is_digit(#[trigger] d[i]));
        }
    }
}

#[verifier::spinoff_prover]
proof fn lemma_year_range(text: Seq<char>)
    requires
        is_date_shaped(text),
    ensures
        0 <= crate::calendar::year_of(text) <= 9999,
        0 <= crate::calendar::month_of(text) <= 99,
        0 <= crate::calendar::day_of(text) <= 99,
{
    reveal_with_fuel(digits_value, 5);
    assert(crate::text::is_digit(text[0]) && crate::text::is_digit(text[1]));
    assert(crate::text::is_digit(text[2]) && crate::text::is_digit(text[3]));
    assert(crate::text::is_digit(text[5]) && crate::text::is_digit(text[6]));
    assert(crate::text::is_digit(text[8]) && crate::text::is_digit(text[9]));
}

/// A text names a day where its characters give one that exists.
#[verifier::spinoff_prover]
pub proof fn law_days_are_named_by_their_digits(raw: Seq<char>)
    ensures
        match normal_date(raw) {
            Some(day) => names_day(raw, day.year as int, day.month as int, day.day as int)
                && day_exists(day.year as int, day.month as int, day.day as int),
            None => forall|year: int, month: int, day: int| #[trigger]
                names_day(raw, year, month, day) ==> !day_exists(year, month, day),
        },
{
    let s = trimmed(raw);
    lemma_trimmed_is_core(raw);
    if is_date_shaped(s) {
        lemma_year_range(s);
    }
    if let Some(day) = normal_date(raw) {
        lemma_gives_day(s, day.year as int, day.month as int, day.day as int);
    }
    assert forall|year: int, month: int, day: int|
        normal_date(raw) is None && #[trigger] names_day(raw, year, month, day) implies !day_exists(
        year,
        month,
        day,
    ) by {
        let text = choose|text: Seq<char>| #[trigger]
            core_of(raw, text) && gives_day(text, year, month, day);
        lemma_one_core(raw, text, s);
        lemma_gives_day(text, year, month, day);
    }
}

/// A date is brought into the form in which it was given, without the white space;
/// what names no day is refused, and the complaint quotes it.
#[verifier::spinoff_prover]
pub proof fn law_dates_are_read_right(raw: &str, r: Result<(String, Date), DateError>)
    requires
        call_ensures(normalize_date, (raw,), r),
    ensures
        match r {
            Ok((text, day)) => {
                &&& core_of(raw@, text@)
                &&& gives_day(text@, day.year as int, day.month as int, day.day as int)
                &&& day_exists(day.year as int, day.month as int, day.day as int)
            },
            Err(e) => {
                &&& forall|year: int, month: int, day: int| #[trigger]
                    names_day(raw@, year, month, day) ==> !day_exists(year, month, day)
                &&& (exists|year: int, month: int, day: int| #[trigger]
                    names_day(raw@, year, month, day)) ==> e@ == "日期 "@ + quoted_text(raw@)
                    + " 不合法:"@ + "input is out of range"@
                &&& (forall|year: int, month: int, day: int| !#[trigger]
                    names_day(raw@, year, month, day)) ==> e@
                    == "日期格式应为 YYYY-MM-DD（如 2026-10-01），实际为 "@ + quoted_text(raw@)
            },
        },
{
    let s = trimmed(raw@);
    lemma_trimmed_is_core(raw@);
    law_days_are_named_by_their_digits(raw@);
    law_normal_form(raw@);
    match r {
        Ok((text, day)) => {
            lemma_gives_day(s, day.year as int, day.month as int, day.day as int);
        },
        Err(e) => {
            if is_date_shaped(s) {
                let year = crate::calendar::year_of(s);
                let month = crate::calendar::month_of(s);
                let day = crate::calendar::day_of(s);
                lemma_gives_day(s, year, month, day);
                assert(names_day(raw@, year, month, day));
            } else {
                assert forall|year: int, month: int, day: int| !#[trigger]
                    names_day(raw@, year, month, day) by {
                    if names_day(raw@, year, month, day) {
                        let text = choose|text: Seq<char>| #[trigger]
                            core_of(raw@, text) && gives_day(text, year, month, day);
                        lemma_one_core(raw@, text, s);
                        lemma_gives_day(text, year, month, day);
                    }
                }
            }
        },
    }
}

// ---------------------------------------------------------------- values

/// Whether a value has three parts with commas between them, with white space around
/// it all or without. The second part alone may hold commas of its own.
pub open spec fn has_parts(raw: Seq<char>, en: Seq<char>, zh: Seq<char>, days: Seq<char>) -> bool {
    &&& core_of(raw, en + seq![','] + zh + seq![','] + days)
    &&& lacks(en, ',')
    &&& lacks(days, ',')
}

/// Whether a text writes a number of 64 bits.
pub open spec fn writes_some_number(text: Seq<char>) -> bool {
    exists|n: i64| #[trigger] writes_number(text, n as int)
}

#[verifier::spinoff_prover]
proof fn lemma_some_number(text: Seq<char>)
    ensures
        writes_some_number(text) == (parse_integer_64(text) is Some),
        parse_integer_64(text) matches Some(n) ==> writes_number(text, n as int),
{
    if let Some(n) = parse_integer_64(text) {
        lemma_number_read(text, n as int);
    }
    if writes_some_number(text) {
        let n = choose|n: i64| #[trigger] writes_number(text, n as int);
        lemma_number_read(text, n as int);
    }
}

#[verifier::spinoff_prover]
proof fn lemma_parts(s: Seq<char>, en: Seq<char>, zh: Seq<char>, days: Seq<char>)
    requires
        s == en + seq![','] + zh + seq![','] + days,
        lacks(en, ','),
        lacks(days, ','),
    ensures
        last_index(s, ',') == en.len() + 1 + zh.len(),
        s.take(last_index(s, ',')) == en + seq![','] + zh,
        s.skip(last_index(s, ',') + 1) == days,
        first_index(en + seq![','] + zh, ',') == en.len(),
        (en + seq![','] + zh).take(en.len() as int) == en,
        (en + seq![','] + zh).skip(en.len() as int + 1) == zh,
{
    let head = en + seq![','] + zh;
    let n = head.len() as int;
    lemma_last_index(s, ',');
    assert(s[n] == ',');
    let last = last_index(s, ',');
    if last > n {
        assert(s[last] == days[last - n - 1]);
    }
    assert(s.take(n) =~= head);
    assert(s.skip(n + 1) =~= days);
    lemma_first_index(head, ',');
    let first = first_index(head, ',');
    assert(head[en.len() as int] == ',');
    if first < en.len() {
        assert(head[first] == en[first]);
    }
    assert(head.take(en.len() as int) =~= en);
    assert(head.skip(en.len() as int + 1) =~= zh);
}

/// A value in three parts gives the English name, the Chinese name and the days, in
/// this order; it is refused where the days are no number, or a name is missing.
#[verifier::spinoff_prover]
pub proof fn law_values_are_read_right(
    raw: &str,
    en: Seq<char>,
    zh: Seq<char>,
    days: Seq<char>,
    name_en: Seq<char>,
    name_zh: Seq<char>,
    number: Seq<char>,
    r: Result<ParsedValue, String>,
)
    requires
        has_parts(raw@, en, zh, days),
        core_of(en, name_en),
        core_of(zh, name_zh),
        core_of(days, number),
        call_ensures(parse_value, (raw,), r),
    ensures
        r is Ok <==> writes_some_number(number) && name_en.len() > 0 && name_zh.len() > 0,
        r matches Ok(value) ==> {
            &&& value.name_en@ == name_en
            &&& value.name_zh@ == name_zh
            &&& writes_number(number, value.statutory_days as int)
        },
        r matches Err(reason) ==> if writes_some_number(number) {
            reason@ == "中英文名不能为空："@ + quoted_text(en + seq![','] + zh + seq![','] + days)
        } else {
            reason@ == "法定天数不是整数："@ + quoted_text(number)
        },
{
    let s = en + seq![','] + zh + seq![','] + days;
    lemma_trimmed_is_core(raw@);
    lemma_one_core(raw@, trimmed(raw@), s);
    lemma_parts(s, en, zh, days);
    lemma_trimmed_is_core(en);
    lemma_one_core(en, trimmed(en), name_en);
    lemma_trimmed_is_core(zh);
    lemma_one_core(zh, trimmed(zh), name_zh);
    lemma_trimmed_is_core(days);
    lemma_one_core(days, trimmed(days), number);
    lemma_some_number(number);
    if let Ok(value) = r {
        assert(value@.name_en == value.name_en@);
    }
}

/// What a value means is read off its three parts.
#[verifier::spinoff_prover]
pub proof fn law_values_mean_their_parts(
    raw: Seq<char>,
    en: Seq<char>,
    zh: Seq<char>,
    days: Seq<char>,
)
    requires
        has_parts(raw, en, zh, days),
    ensures
        value_meaning(raw) matches Ok(value) ==> core_of(en, value.name_en) && core_of(
            zh,
            value.name_zh,
        ) && exists|number: Seq<char>| #[trigger]
            core_of(days, number) && writes_number(number, value.statutory_days as int),
{
    let s = en + seq![','] + zh + seq![','] + days;
    lemma_trimmed_is_core(raw);
    lemma_one_core(raw, trimmed(raw), s);
    lemma_parts(s, en, zh, days);
    lemma_trimmed_is_core(en);
    lemma_trimmed_is_core(zh);
    lemma_trimmed_is_core(days);
    lemma_some_number(trimmed(days));
}

/// A value that lacks a part is refused, and the complaint says which.
#[verifier::spinoff_prover]
pub proof fn law_values_need_three_parts(raw: &str, text: Seq<char>, r: Result<ParsedValue, String>)
    requires
        core_of(raw@, text),
        call_ensures(parse_value, (raw,), r),
    ensures
        text.len() == 0 ==> (r matches Err(reason) && reason@ == "值为空"@),
        text.len() > 0 && lacks(text, ',') ==> (r matches Err(reason) && reason@
            == "缺少法定天数分段："@ + quoted_text(text)),
        forall|a: Seq<char>, b: Seq<char>|
            #![trigger lacks(a, ','), lacks(b, ',')]
            text == a + seq![','] + b && lacks(a, ',') && lacks(b, ',') ==> (r matches Err(reason)
                && reason@ == "缺少中文名分段："@ + quoted_text(text)),
        r is Ok ==> exists|en: Seq<char>, zh: Seq<char>, days: Seq<char>| #[trigger]
            has_parts(raw@, en, zh, days),
{
    lemma_trimmed_is_core(raw@);
    lemma_one_core(raw@, trimmed(raw@), text);
    lemma_last_index(text, ',');
    let last = last_index(text, ',');
    assert forall|a: Seq<char>, b: Seq<char>|
        #![trigger lacks(a, ','), lacks(b, ',')]
        text == a + seq![','] + b && lacks(a, ',') && lacks(b, ',') implies r matches Err(reason)
        && reason@ == "缺少中文名分段："@ + quoted_text(text) by {
        let n = a.len() as int;
        assert(text[n] == ',');
        if last > n {
            assert(text[last] == b[last - n - 1]);
        }
        assert(text.take(n) =~= a);
        lemma_first_index(a, ',');
    }
    if r is Ok {
        let head = text.take(last);
        lemma_first_index(head, ',');
        let first = first_index(head, ',');
        let en = head.take(first);
        let zh = head.skip(first + 1);
        let days = text.skip(last + 1);
        assert(text =~= en + seq![','] + zh + seq![','] + days);
        assert(has_parts(raw@, en, zh, days));
    }
}

} // verus!
