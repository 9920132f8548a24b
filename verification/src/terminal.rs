//! What is shown on the terminal. A Chinese character takes two columns there, so
//! tables are laid out by columns and not by characters.

use vstd::prelude::*;
use vstd::string::*;

use crate::text::{chars_of, integer, integer_text};

verus! {

// ---------------------------------------------------------------- columns

/// The number of columns that a text takes.
pub uninterp spec fn text_columns(text: Seq<char>) -> usize;

/// `unicode_width::UnicodeWidthStr::width`: the number of columns that a text
/// takes. Which text takes how many is left unsaid.
#[verifier::external_body]
pub(crate) fn text_width(text: &str) -> (r: usize)
    ensures
        r == text_columns(text@),
{
    unicode_width::UnicodeWidthStr::width(text)
}

/// The number of columns that a character takes; none where it is a control
/// character.
pub uninterp spec fn char_columns(c: char) -> Option<usize>;

/// `unicode_width::UnicodeWidthChar::width`: the number of columns that a
/// character takes, 1 for those of ASCII, and none for control characters. For the
/// others it is named, not spelled out.
#[verifier::external_body]
pub(crate) fn char_width(c: char) -> (r: Option<usize>)
    ensures
        r == char_columns(c),
        r is None <==> (c < ' ' || '\u{7f}' <= c < '\u{a0}'),
        ' ' <= c < '\u{7f}' ==> r == Some(1usize),
{
    unicode_width::UnicodeWidthChar::width(c)
}

/// `n` spaces, none where `n` is negative.
pub open spec fn spaces(n: int) -> Seq<char> {
    if n <= 0 {
        Seq::empty()
    } else {
        Seq::new(n as nat, |i: int| ' ')
    }
}

/// As many spaces as are missing from `columns` to `width`.
fn fill(columns: usize, width: usize) -> (r: String)
    ensures
        r@ == spaces(width - columns),
{
    let mut out = String::new();
    let mut i: usize = columns;
    assert(out@ =~= spaces(0));
    while i < width
        invariant
            columns <= i,
            i <= width || i == columns,
            out@ == spaces(i - columns),
        decreases width - i,
    {
        out.push(' ');
        i = i + 1;
        assert(out@ =~= spaces(i - columns));
    }
    assert(out@ =~= spaces(width - columns));
    out
}

/// A text of so many columns, filled up to the width on the right.
pub fn pad_from(text: &str, columns: usize, width: usize) -> (r: String)
    ensures
        r@ == text@ + spaces(width - columns),
{
    let mut out = String::from_str(text);
    out.append(fill(columns, width).as_str());
    out
}

/// A text of so many columns, filled up to the width on the left.
pub fn padr_from(text: &str, columns: usize, width: usize) -> (r: String)
    ensures
        r@ == spaces(width - columns) + text@,
{
    let mut out = fill(columns, width);
    out.append(text);
    out
}

/// A text, filled up to the width on the right.
pub open spec fn padded(text: Seq<char>, width: int) -> Seq<char> {
    text + spaces(width - text_columns(text))
}

/// A text, filled up to the width on the left.
pub open spec fn padded_left(text: Seq<char>, width: int) -> Seq<char> {
    spaces(width - text_columns(text)) + text
}

/// Fills a text up to the width on the right.
pub fn pad(text: &str, width: usize) -> (r: String)
    ensures
        r@ == padded(text@, width as int),
{
    pad_from(text, text_width(text), width)
}

/// Fills a text up to the width on the left.
pub fn padr(text: &str, width: usize) -> (r: String)
    ensures
        r@ == padded_left(text@, width as int),
{
    padr_from(text, text_width(text), width)
}

// ---------------------------------------------------------------- cutting

/// The number of columns that the first `n` characters take.
pub open spec fn columns_of(widths: Seq<usize>, n: int) -> int
    decreases n,
{
    if n <= 0 {
        0
    } else {
        columns_of(widths, n - 1) + widths[n - 1]
    }
}

/// How many of the characters from `i` on fit, where `used` columns are taken.
pub open spec fn fitting(widths: Seq<usize>, i: int, used: int, limit: int) -> int
    decreases widths.len() - i,
{
    if 0 <= i < widths.len() && used + widths[i] <= limit {
        1 + fitting(widths, i + 1, used + widths[i], limit)
    } else {
        0
    }
}

/// The characters that fit in `limit` columns, and a sign that there were more.
pub open spec fn cut_text(text: Seq<char>, widths: Seq<usize>, limit: int) -> Seq<char> {
    text.take(fitting(widths, 0, 0, limit)).push('…')
}

/// The characters that fit in `limit` columns, and a sign that there were more;
/// `widths` gives the columns of each character.
pub fn cut(text: &str, widths: &Vec<usize>, limit: usize) -> (r: String)
    requires
        widths@.len() == text@.len(),
    ensures
        r@ == cut_text(text@, widths@, limit as int),
{
    let cs = chars_of(text);
    let mut out = String::new();
    let mut used: usize = 0;
    let mut i: usize = 0;
    assert(text@.take(0) =~= Seq::<char>::empty());
    while i < cs.len() && widths[i] <= limit - used
        invariant
            cs@ == text@,
            widths@.len() == text@.len(),
            i <= text@.len(),
            used <= limit,
            out@ == text@.take(i as int),
            fitting(widths@, 0, 0, limit as int) == i + fitting(
                widths@,
                i as int,
                used as int,
                limit as int,
            ),
        decreases text@.len() - i,
    {
        out.push(cs[i]);
        used = used + widths[i];
        i = i + 1;
        assert(out@ =~= text@.take(i as int));
    }
    out.push('…');
    out
}

/// What is cut off is as little as possible: the characters that stay take no more
/// than `limit` columns, and one more would.
pub proof fn law_cut_fits(widths: Seq<usize>, limit: int)
    requires
        0 <= limit,
    ensures
        ({
            let n = fitting(widths, 0, 0, limit);
            &&& 0 <= n <= widths.len()
            &&& columns_of(widths, n) <= limit
            &&& n < widths.len() ==> columns_of(widths, n + 1) > limit
        }),
{
    lemma_fitting(widths, 0, limit);
}

proof fn lemma_fitting(widths: Seq<usize>, i: int, limit: int)
    requires
        0 <= i <= widths.len(),
        columns_of(widths, i) <= limit,
    ensures
        ({
            let n = i + fitting(widths, i, columns_of(widths, i), limit);
            &&& i <= n <= widths.len()
            &&& columns_of(widths, n) <= limit
            &&& n < widths.len() ==> columns_of(widths, n + 1) > limit
        }),
    decreases widths.len() - i,
{
    if i < widths.len() && columns_of(widths, i) + widths[i] <= limit {
        lemma_fitting(widths, i + 1, limit);
    }
}

/// The columns of a character, 0 where it has none.
pub open spec fn shown_columns(c: char) -> usize {
    match char_columns(c) {
        Some(w) => w,
        None => 0,
    }
}

/// The columns of each character of a text.
pub open spec fn widths_of(text: Seq<char>) -> Seq<usize> {
    Seq::new(text.len(), |i: int| shown_columns(text[i]))
}

/// The columns of each character of a text.
fn char_widths(text: &str) -> (r: Vec<usize>)
    ensures
        r@ == widths_of(text@),
{
    let cs = chars_of(text);
    let mut out: Vec<usize> = Vec::new();
    let mut i: usize = 0;
    while i < cs.len()
        invariant
            cs@ == text@,
            i <= text@.len(),
            out@ == widths_of(text@).take(i as int),
        decreases text@.len() - i,
    {
        let w: usize = match char_width(cs[i]) {
            Some(w) => w,
            None => 0,
        };
        out.push(w);
        i = i + 1;
        assert(out@ =~= widths_of(text@).take(i as int));
    }
    assert(widths_of(text@).take(text@.len() as int) =~= widths_of(text@));
    out
}

/// A text, cut where it does not fit in the width; no character is cut in half.
pub open spec fn truncated(text: Seq<char>, max_width: int) -> Seq<char> {
    if text_columns(text) <= max_width {
        text
    } else {
        cut_text(
            text,
            widths_of(text),
            if max_width == 0 {
                0
            } else {
                max_width - 1
            },
        )
    }
}

/// Cuts a text that does not fit in the width.
pub fn truncate(text: &str, max_width: usize) -> (r: String)
    ensures
        r@ == truncated(text@, max_width as int),
{
    if text_width(text) <= max_width {
        return String::from_str(text);
    }
    let limit: usize = if max_width == 0 {
        0
    } else {
        max_width - 1
    };
    cut(text, &char_widths(text), limit)
}

// ---------------------------------------------------------------- years

/// The years from `start` to `end`.
pub open spec fn range_text(start: int, end: int) -> Seq<char> {
    if start == end {
        integer_text(start)
    } else {
        integer_text(start) + "-"@ + integer_text(end)
    }
}

/// The years from `start` to `end`.
pub fn format_range(start: i32, end: i32) -> (r: String)
    ensures
        r@ == range_text(start as int, end as int),
{
    if start == end {
        integer(start as i64)
    } else {
        let mut out = integer(start as i64);
        out.append("-");
        out.append(integer(end as i64).as_str());
        out
    }
}

/// The position up to which the years from `i` on follow one another.
pub open spec fn run_end(years: Seq<i32>, i: int) -> int
    decreases years.len() - i,
{
    if 0 <= i && i + 1 < years.len() && years[i + 1] == years[i] + 1 {
        run_end(years, i + 1)
    } else {
        i
    }
}

/// The years from position `i` on, those that follow one another as a range.
pub open spec fn summary_from(years: Seq<i32>, i: int) -> Seq<char>
    decreases years.len() - i,
    when 0 <= i < years.len()
    via summary_from_decreases
{
    let end = run_end(years, i);
    let range = range_text(years[i] as int, years[end] as int);
    if end + 1 < years.len() {
        range + ", "@ + summary_from(years, end + 1)
    } else {
        range
    }
}

proof fn lemma_run_end(years: Seq<i32>, i: int)
    requires
        0 <= i < years.len(),
    ensures
        i <= run_end(years, i) < years.len(),
    decreases years.len() - i,
{
    if i + 1 < years.len() && years[i + 1] == years[i] + 1 {
        lemma_run_end(years, i + 1);
    }
}

#[via_fn]
proof fn summary_from_decreases(years: Seq<i32>, i: int) {
    lemma_run_end(years, i);
}

/// The years in short, such as `2004-2026`.
pub open spec fn years_summary(years: Seq<i32>) -> Seq<char> {
    if years.len() == 0 {
        "-"@
    } else {
        summary_from(years, 0)
    }
}

/// The years in short: those that follow one another are shown as a range.
pub fn summarize_years(years: &Vec<i32>) -> (r: String)
    ensures
        r@ == years_summary(years@),
{
    if years.len() == 0 {
        return String::from_str("-");
    }
    let mut out = String::new();
    let mut start: usize = 0;
    let mut i: usize = 1;
    assert(out@ + summary_from(years@, 0) =~= summary_from(years@, 0));
    while i < years.len()
        invariant
            start < i <= years@.len(),
            run_end(years@, start as int) == run_end(years@, i - 1),
            years@[i - 1] == years@[start as int] + (i - 1 - start),
            summary_from(years@, 0) == out@ + summary_from(years@, start as int),
        decreases years@.len() - i,
    {
        let prev: i32 = years[i - 1];
        if prev == i32::MAX || years[i] != prev + 1 {
            let ghost before = out@;
            let ghost range = range_text(years@[start as int] as int, prev as int);
            assert(run_end(years@, start as int) == i - 1);
            out.append(format_range(years[start], prev).as_str());
            out.append(", ");
            assert(before + (range + ", "@ + summary_from(years@, i as int)) =~= out@
                + summary_from(years@, i as int));
            start = i;
        }
        i = i + 1;
    }
    proof {
        lemma_run_end(years@, start as int);
    }
    out.append(format_range(years[start], years[i - 1]).as_str());
    out
}

} // verus!
