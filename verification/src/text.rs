//! Text, seen as a sequence of characters: trimming, splitting, numbers in
//! decimal and the order in which texts sort.

use vstd::prelude::*;
use vstd::string::*;

verus! {

/// `String::push` appends one character.
pub assume_specification[ String::push ](s: &mut String, c: char)
    ensures
        final(s)@ == old(s)@.push(c),
;

/// The characters with the Unicode property `White_Space`.
pub open spec fn is_white_space(c: char) -> bool {
    let n = c as int;
    ||| 0x9 <= n <= 0xd
    ||| n == 0x20
    ||| n == 0x85
    ||| n == 0xa0
    ||| n == 0x1680
    ||| 0x2000 <= n <= 0x200a
    ||| n == 0x2028
    ||| n == 0x2029
    ||| n == 0x202f
    ||| n == 0x205f
    ||| n == 0x3000
}

/// `char::is_whitespace` tests for the Unicode property `White_Space`.
pub assume_specification[ char::is_whitespace ](c: char) -> (r: bool)
    ensures
        r == is_white_space(c),
;

/// What `format!("{:?}")` makes of a text: the text in double quotes, with
/// the characters that need it escaped.
pub uninterp spec fn quoted_text(s: Seq<char>) -> Seq<char>;

/// The text in double quotes, as `format!("{:?}")` writes it. The result is
/// named, not spelled out: which characters are escaped is left unsaid.
#[verifier::external_body]
pub(crate) fn quoted(s: &str) -> (r: String)
    ensures
        r@ == quoted_text(s@),
{
    format!("{s:?}")
}

// ---------------------------------------------------------------- characters

/// The characters of a text, in order.
pub fn chars_of(s: &str) -> (r: Vec<char>)
    ensures
        r@ == s@,
{
    let mut out: Vec<char> = Vec::new();
    for c in it: s.chars()
        invariant
            it.seq() == s@,
            out@ == s@.take(it.index() as int),
    {
        out.push(c);
        assert(s@.take(it.index() as int).push(c) =~= s@.take(it.index() + 1));
    }
    assert(s@.take(s@.len() as int) =~= s@);
    out
}

// ---------------------------------------------------------------- trimming

/// `s` without the white space that it starts with.
pub open spec fn trim_left(s: Seq<char>) -> Seq<char>
    decreases s.len(),
{
    if s.len() > 0 && is_white_space(s[0]) {
        trim_left(s.drop_first())
    } else {
        s
    }
}

/// `s` without the white space that it ends with.
pub open spec fn trim_right(s: Seq<char>) -> Seq<char>
    decreases s.len(),
{
    if s.len() > 0 && is_white_space(s.last()) {
        trim_right(s.drop_last())
    } else {
        s
    }
}

/// `s` without the white space at either end.
pub open spec fn trimmed(s: Seq<char>) -> Seq<char> {
    trim_right(trim_left(s))
}

/// The text without the white space at either end.
pub fn trim(s: &str) -> (r: &str)
    ensures
        r@ == trimmed(s@),
{
    let cs = chars_of(s);
    let n: usize = cs.len();
    let mut from: usize = 0;
    assert(s@.skip(0) =~= s@);
    while from < n && cs[from].is_whitespace()
        invariant
            cs@ == s@,
            n == s@.len(),
            from <= n,
            trim_left(s@) == trim_left(s@.skip(from as int)),
        decreases n - from,
    {
        assert(s@.skip(from as int).drop_first() =~= s@.skip(from + 1));
        from = from + 1;
    }
    let ghost left = s@.skip(from as int);
    assert(left == trim_left(s@));
    let mut to: usize = n;
    assert(s@.subrange(from as int, n as int) =~= left);
    while to > from && cs[to - 1].is_whitespace()
        invariant
            cs@ == s@,
            n == s@.len(),
            from <= to <= n,
            trim_right(left) == trim_right(s@.subrange(from as int, to as int)),
        decreases to,
    {
        assert(s@.subrange(from as int, to as int).drop_last() =~= s@.subrange(
            from as int,
            to - 1,
        ));
        to = to - 1;
    }
    s.substring_char(from, to)
}

// ---------------------------------------------------------------- splitting

/// The position of the first `c` in `s`, or `s.len()` where there is none.
pub open spec fn first_index(s: Seq<char>, c: char) -> int
    decreases s.len(),
{
    if s.len() == 0 || s[0] == c {
        0
    } else {
        1 + first_index(s.drop_first(), c)
    }
}

/// The position of the last `c` in `s`, or `-1` where there is none.
pub open spec fn last_index(s: Seq<char>, c: char) -> int
    decreases s.len(),
{
    if s.len() == 0 {
        -1
    } else if s.last() == c {
        s.len() - 1
    } else {
        last_index(s.drop_last(), c)
    }
}

/// `first_index` is the least position that holds `c`.
pub proof fn lemma_first_index(s: Seq<char>, c: char)
    ensures
        0 <= first_index(s, c) <= s.len(),
        first_index(s, c) < s.len() ==> s[first_index(s, c)] == c,
        forall|i: int| 0 <= i < first_index(s, c) ==> s[i] != c,
    decreases s.len(),
{
    if s.len() > 0 && s[0] != c {
        let rest = s.drop_first();
        lemma_first_index(rest, c);
        assert forall|i: int| 0 <= i < first_index(s, c) implies s[i] != c by {
            if i > 0 {
                assert(s[i] == rest[i - 1]);
            }
        }
    }
}

/// `last_index` is the greatest position that holds `c`.
pub proof fn lemma_last_index(s: Seq<char>, c: char)
    ensures
        -1 <= last_index(s, c) < s.len(),
        last_index(s, c) >= 0 ==> s[last_index(s, c)] == c,
        forall|i: int| last_index(s, c) < i < s.len() ==> s[i] != c,
    decreases s.len(),
{
    if s.len() > 0 && s.last() != c {
        let rest = s.drop_last();
        lemma_last_index(rest, c);
        assert forall|i: int| last_index(s, c) < i < s.len() implies s[i] != c by {
            if i < s.len() - 1 {
                assert(s[i] == rest[i]);
            }
        }
    }
}

/// The text before the first `sep` and the text after it.
pub fn split_first<'a>(s: &'a str, sep: char) -> (r: Option<(&'a str, &'a str)>)
    ensures
        match r {
            Some((head, tail)) => {
                let i = first_index(s@, sep);
                i < s@.len() && head@ == s@.take(i) && tail@ == s@.skip(i + 1)
            },
            None => first_index(s@, sep) == s@.len(),
        },
{
    let cs = chars_of(s);
    let n: usize = cs.len();
    let mut i: usize = 0;
    assert(s@.skip(0) =~= s@);
    while i < n
        invariant
            cs@ == s@,
            n == s@.len(),
            i <= n,
            first_index(s@, sep) == i + first_index(s@.skip(i as int), sep),
        decreases n - i,
    {
        if cs[i] == sep {
            assert(s@.subrange(0, i as int) =~= s@.take(i as int));
            assert(s@.subrange(i + 1, n as int) =~= s@.skip(i + 1));
            return Some((s.substring_char(0, i), s.substring_char(i + 1, n)));
        }
        assert(s@.skip(i as int).drop_first() =~= s@.skip(i + 1));
        i = i + 1;
    }
    None
}

/// The text before the last `sep` and the text after it.
pub fn split_last<'a>(s: &'a str, sep: char) -> (r: Option<(&'a str, &'a str)>)
    ensures
        match r {
            Some((head, tail)) => {
                let i = last_index(s@, sep);
                i >= 0 && head@ == s@.take(i) && tail@ == s@.skip(i + 1)
            },
            None => last_index(s@, sep) == -1,
        },
{
    let cs = chars_of(s);
    let n: usize = cs.len();
    let mut i: usize = n;
    assert(s@.take(n as int) =~= s@);
    while i > 0
        invariant
            cs@ == s@,
            n == s@.len(),
            i <= n,
            last_index(s@, sep) == last_index(s@.take(i as int), sep),
        decreases i,
    {
        let at: usize = i - 1;
        if cs[at] == sep {
            assert(s@.take(i as int).last() == sep);
            assert(s@.subrange(0, at as int) =~= s@.take(at as int));
            assert(s@.subrange(at + 1, n as int) =~= s@.skip(at + 1));
            return Some((s.substring_char(0, at), s.substring_char(at + 1, n)));
        }
        assert(s@.take(i as int).drop_last() =~= s@.take(at as int));
        i = at;
    }
    None
}

// ---------------------------------------------------------------- numbers

pub open spec fn is_digit(c: char) -> bool {
    '0' <= c <= '9'
}

pub open spec fn all_digits(s: Seq<char>) -> bool {
    forall|i: int| 0 <= i < s.len() ==> is_digit(#[trigger] s[i])
}

/// The number that a digit stands for.
pub open spec fn digit_value(c: char) -> int {
    c as int - '0' as int
}

/// The digit that stands for `n`, where `n` is below ten.
pub open spec fn digit_char(n: int) -> char {
    ('0' as int + n) as char
}

/// The number that a row of digits stands for.
pub open spec fn digits_value(s: Seq<char>) -> int
    decreases s.len(),
{
    if s.len() == 0 {
        0
    } else {
        digits_value(s.drop_last()) * 10 + digit_value(s.last())
    }
}

/// The number that `s` writes in decimal, with an optional sign in front.
pub open spec fn parse_integer(s: Seq<char>) -> Option<int> {
    let negative = s.len() > 0 && s[0] == '-';
    let signed = negative || (s.len() > 0 && s[0] == '+');
    let digits = if signed {
        s.drop_first()
    } else {
        s
    };
    if digits.len() == 0 || !all_digits(digits) {
        None
    } else if negative {
        Some(-digits_value(digits))
    } else {
        Some(digits_value(digits))
    }
}

/// `parse_integer`, where the number fits in 64 bits.
pub open spec fn parse_integer_64(s: Seq<char>) -> Option<i64> {
    match parse_integer(s) {
        Some(v) => if i64::MIN <= v <= i64::MAX {
            Some(v as i64)
        } else {
            None
        },
        None => None,
    }
}

/// `parse_integer`, where the number fits in 32 bits.
pub open spec fn parse_integer_32(s: Seq<char>) -> Option<i32> {
    match parse_integer(s) {
        Some(v) => if i32::MIN <= v <= i32::MAX {
            Some(v as i32)
        } else {
            None
        },
        None => None,
    }
}

proof fn lemma_digits_value_nonneg(s: Seq<char>)
    requires
        all_digits(s),
    ensures
        digits_value(s) >= 0,
    decreases s.len(),
{
    if s.len() > 0 {
        assert(all_digits(s.drop_last()));
        lemma_digits_value_nonneg(s.drop_last());
    }
}

/// One more digit makes a number ten times as great, and adds the digit.
proof fn lemma_one_more_digit(digits: Seq<char>, n: int)
    requires
        0 <= n < digits.len(),
        all_digits(digits.take(n)),
        is_digit(digits[n]),
    ensures
        all_digits(digits.take(n + 1)),
        digits_value(digits.take(n + 1)) == digits_value(digits.take(n)) * 10 + digit_value(
            digits[n],
        ),
        digits_value(digits.take(n)) >= 0,
        0 <= digit_value(digits[n]) <= 9,
{
    let before = digits.take(n);
    let after = digits.take(n + 1);
    assert(after.drop_last() =~= before);
    assert(after.last() == digits[n]);
    assert forall|k: int| 0 <= k < after.len() implies is_digit(#[trigger] after[k]) by {
        if k < n {
            assert(after[k] == before[k]);
        }
    }
    lemma_digits_value_nonneg(before);
}

/// The 64-bit number that a text writes in decimal.
#[verifier::spinoff_prover]
#[verifier::rlimit(40)]
pub fn parse_i64(s: &str) -> (r: Option<i64>)
    ensures
        r == parse_integer_64(s@),
{
    let cs = chars_of(s);
    let n: usize = cs.len();
    let negative: bool = n > 0 && cs[0] == '-';
    let signed: bool = negative || (n > 0 && cs[0] == '+');
    let start: usize = if signed {
        1
    } else {
        0
    };
    if start == n {
        return None;
    }
    let ghost digits = s@.skip(start as int);
    assert(signed ==> s@.drop_first() =~= digits);
    assert(!signed ==> s@ =~= digits);
    let mut i: usize = start;
    // The magnitude of the digits read so far, or any number above the
    // magnitude of `i64::MIN` once they exceed it.
    let mut magnitude: u128 = 0;
    assert(digits.take(0) =~= Seq::<char>::empty());
    while i < n
        invariant
            cs@ == s@,
            n == s@.len(),
            start <= i <= n,
            start <= 1,
            digits == s@.skip(start as int),
            digits == (if signed {
                s@.drop_first()
            } else {
                s@
            }),
            negative == (s@.len() > 0 && s@[0] == '-'),
            signed == (negative || (s@.len() > 0 && s@[0] == '+')),
            digits.len() == n - start,
            all_digits(digits.take(i - start)),
            magnitude <= 0x8000_0000_0000_0000 ==> magnitude == digits_value(digits.take(i - start)),
            magnitude > 0x8000_0000_0000_0000 ==> digits_value(digits.take(i - start))
                > 0x8000_0000_0000_0000,
            magnitude <= 0x8000_0000_0000_0000 * 10 + 9,
        decreases n - i,
    {
        let c: char = cs[i];
        assert(digits[i - start] == c);
        if !('0' <= c && c <= '9') {
            assert(!is_digit(digits[i - start]));
            assert(!all_digits(digits));
            return None;
        }
        proof {
            lemma_one_more_digit(digits, i - start);
        }
        if magnitude <= 0x8000_0000_0000_0000 {
            magnitude = magnitude * 10 + (c as u32 - '0' as u32) as u128;
        }
        i = i + 1;
    }
    assert(digits.take(digits.len() as int) =~= digits);
    if magnitude > 0x8000_0000_0000_0000 {
        None
    } else if negative {
        Some((-(magnitude as i128)) as i64)
    } else if magnitude == 0x8000_0000_0000_0000 {
        None
    } else {
        Some(magnitude as i64)
    }
}

/// The 32-bit number that a text writes in decimal.
pub fn parse_i32(s: &str) -> (r: Option<i32>)
    ensures
        r == parse_integer_32(s@),
{
    match parse_i64(s) {
        Some(v) => {
            if i32::MIN as i64 <= v && v <= i32::MAX as i64 {
                Some(v as i32)
            } else {
                None
            }
        },
        None => None,
    }
}

/// `n` in decimal.
pub open spec fn decimal_text(n: nat) -> Seq<char>
    decreases n,
{
    if n < 10 {
        seq![digit_char(n as int)]
    } else {
        decimal_text(n / 10).push(digit_char((n % 10) as int))
    }
}

/// `n` in decimal, with a minus sign in front where it is negative.
pub open spec fn integer_text(n: int) -> Seq<char> {
    if n < 0 {
        seq!['-'] + decimal_text((-n) as nat)
    } else {
        decimal_text(n as nat)
    }
}

proof fn lemma_decimal_reads_back(n: nat)
    ensures
        decimal_text(n).len() > 0,
        all_digits(decimal_text(n)),
        digits_value(decimal_text(n)) == n,
    decreases n,
{
    reveal_with_fuel(digits_value, 2);
    if n >= 10 {
        let rest = decimal_text(n / 10);
        let all = decimal_text(n);
        lemma_decimal_reads_back(n / 10);
        assert(all.drop_last() =~= rest);
        assert forall|i: int| 0 <= i < all.len() implies is_digit(#[trigger] all[i]) by {
            if i < rest.len() {
                assert(all[i] == rest[i]);
            }
        }
    } else {
        assert(decimal_text(n).drop_last() =~= Seq::<char>::empty());
    }
}

/// A number can be read back from how it is written; it is written in digits,
/// with a minus sign in front of them or not.
pub proof fn law_integer_reads_back(n: int)
    ensures
        parse_integer(integer_text(n)) == Some(n),
        integer_text(n).len() > 0,
        forall|i: int|
            0 <= i < integer_text(n).len() ==> is_digit(#[trigger] integer_text(n)[i])
                || integer_text(n)[i] == '-',
{
    let s = integer_text(n);
    if n < 0 {
        let digits = decimal_text((-n) as nat);
        lemma_decimal_reads_back((-n) as nat);
        assert(s.drop_first() =~= digits);
        assert forall|i: int| 0 <= i < s.len() implies is_digit(#[trigger] s[i]) || s[i] == '-' by {
            if i > 0 {
                assert(s[i] == digits[i - 1]);
            }
        }
    } else {
        lemma_decimal_reads_back(n as nat);
        assert(is_digit(s[0]));
    }
}

/// The digit that stands for `n`.
pub fn digit(n: u64) -> (r: char)
    requires
        n < 10,
    ensures
        r == digit_char(n as int),
{
    (48u8 + n as u8) as char
}

/// `n` in decimal.
pub fn decimal(n: u64) -> (r: String)
    ensures
        r@ == decimal_text(n as nat),
    decreases n,
{
    if n < 10 {
        let mut out = String::new();
        out.push(digit(n));
        assert(out@ =~= decimal_text(n as nat));
        out
    } else {
        let mut out = decimal(n / 10);
        out.push(digit(n % 10));
        out
    }
}

/// `n` in decimal, with a minus sign in front where it is negative.
pub fn integer(n: i64) -> (r: String)
    ensures
        r@ == integer_text(n as int),
{
    if n < 0 {
        let mut out = String::new();
        out.push('-');
        let magnitude: u64 = (-(n as i128)) as u64;
        let digits = decimal(magnitude);
        out.append(digits.as_str());
        assert(out@ =~= integer_text(n as int));
        out
    } else {
        decimal(n as u64)
    }
}

// ---------------------------------------------------------------- order

/// The order in which texts sort: by the first character in which they
/// differ, a text before every longer one that it starts.
pub open spec fn text_less(a: Seq<char>, b: Seq<char>) -> bool
    decreases b.len(),
{
    if b.len() == 0 {
        false
    } else if a.len() == 0 {
        true
    } else if a[0] == b[0] {
        text_less(a.drop_first(), b.drop_first())
    } else {
        a[0] < b[0]
    }
}

pub open spec fn text_at_most(a: Seq<char>, b: Seq<char>) -> bool {
    a == b || text_less(a, b)
}

/// No text comes before itself.
pub proof fn lemma_text_less_irreflexive(a: Seq<char>)
    ensures
        !text_less(a, a),
    decreases a.len(),
{
    if a.len() > 0 {
        lemma_text_less_irreflexive(a.drop_first());
    }
}

/// What comes before a text comes before all that follow that text.
pub proof fn lemma_text_less_transitive(a: Seq<char>, b: Seq<char>, c: Seq<char>)
    requires
        text_less(a, b),
        text_less(b, c),
    ensures
        text_less(a, c),
    decreases c.len(),
{
    if a.len() > 0 && a[0] == b[0] && b[0] == c[0] {
        lemma_text_less_transitive(a.drop_first(), b.drop_first(), c.drop_first());
    }
}

/// Of two different texts one comes first.
pub proof fn lemma_text_less_total(a: Seq<char>, b: Seq<char>)
    ensures
        a == b || text_less(a, b) || text_less(b, a),
    decreases a.len(),
{
    if a.len() == 0 {
        assert(b.len() == 0 ==> a =~= b);
    } else if b.len() > 0 && a[0] == b[0] {
        lemma_text_less_total(a.drop_first(), b.drop_first());
        if a.drop_first() == b.drop_first() {
            assert(a =~= seq![a[0]] + a.drop_first());
            assert(b =~= seq![b[0]] + b.drop_first());
        }
    }
}

/// Whether the first text sorts before the second.
pub fn sorts_before(a: &str, b: &str) -> (r: bool)
    ensures
        r == text_less(a@, b@),
{
    let x = chars_of(a);
    let y = chars_of(b);
    let mut i: usize = 0;
    assert(a@.skip(0) =~= a@);
    assert(b@.skip(0) =~= b@);
    while i < x.len() && i < y.len()
        invariant
            x@ == a@,
            y@ == b@,
            i <= a@.len(),
            i <= b@.len(),
            text_less(a@, b@) == text_less(a@.skip(i as int), b@.skip(i as int)),
        decreases a@.len() - i,
    {
        if x[i] != y[i] {
            return x[i] < y[i];
        }
        assert(a@.skip(i as int).drop_first() =~= a@.skip(i + 1));
        assert(b@.skip(i as int).drop_first() =~= b@.skip(i + 1));
        i = i + 1;
    }
    x.len() < y.len()
}

/// Whether two texts are the same.
pub fn same_text(a: &str, b: &str) -> (r: bool)
    ensures
        r == (a@ == b@),
{
    proof {
        lemma_text_less_total(a@, b@);
        lemma_text_less_irreflexive(a@);
    }
    !sorts_before(a, b) && !sorts_before(b, a)
}

} // verus!
