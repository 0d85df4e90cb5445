//! Calendar dates as plain values, with the arithmetic the catalog queries
//! need: validity of a year/month/day triple, a day index on the time line,
//! shifting a date by a number of days, and `YYYY-MM-DD` formatting.

use chrono::Datelike;
use vstd::prelude::*;
use vstd::string::StringExecFns;

verus! {

/// A date of the proleptic Gregorian calendar, held as plain values.
///
/// The library restricts itself to years `0..=9999`: every date it meets
/// travels over the wire as `YYYY-MM-DD`, which carries exactly four year
/// digits.
#[derive(Clone, Copy, Debug, PartialEq, Eq, Structural)]
pub struct Date {
    pub year: u32,
    pub month: u32,
    pub day: u32,
}

pub open spec fn is_leap_year(y: int) -> bool {
    (y % 4 == 0 && y % 100 != 0) || y % 400 == 0
}

pub open spec fn days_in_month(y: int, m: int) -> int {
    if m == 2 {
        if is_leap_year(y) {
            29
        } else {
            28
        }
    } else if m == 4 || m == 6 || m == 9 || m == 11 {
        30
    } else {
        31
    }
}

pub open spec fn year_length(y: int) -> int {
    if is_leap_year(y) {
        366
    } else {
        365
    }
}

/// Days on the time line strictly before January 1 of year `y`,
/// counted from 0000-01-01.
pub open spec fn days_before_year(y: nat) -> int
    decreases y,
{
    if y == 0 {
        0
    } else {
        days_before_year((y - 1) as nat) + year_length(y - 1)
    }
}

/// Days of year `y` strictly before the first of month `m`.
pub open spec fn days_before_month(y: int, m: int) -> int
    decreases m,
{
    if m <= 1 {
        0
    } else {
        days_before_month(y, m - 1) + days_in_month(y, m - 1)
    }
}

/// Zero-based position of a date on the time line; 0000-01-01 is day 0.
/// Two valid dates are one apart exactly when they are consecutive days.
pub open spec fn date_index(d: Date) -> int {
    days_before_year(d.year as nat) + days_before_month(d.year as int, d.month as int) + d.day - 1
}

impl Date {
    /// The dates this library works on: a real day of the calendar whose
    /// year has at most four digits.
    pub open spec fn wf(self) -> bool {
        &&& self.year <= 9999
        &&& 1 <= self.month <= 12
        &&& 1 <= self.day <= days_in_month(self.year as int, self.month as int)
    }
}

pub fn leap_year(y: u32) -> (r: bool)
    ensures
        r == is_leap_year(y as int),
{
    (y % 4 == 0 && y % 100 != 0) || y % 400 == 0
}

pub fn month_length(y: u32, m: u32) -> (r: u32)
    requires
        1 <= m <= 12,
    ensures
        r == days_in_month(y as int, m as int),
{
    if m == 2 {
        if leap_year(y) {
            29
        } else {
            28
        }
    } else if m == 4 || m == 6 || m == 9 || m == 11 {
        30
    } else {
        31
    }
}

/// The one constructor of `Date`: yields a date exactly when the triple is a
/// real calendar day with a four-digit year.
pub fn date_from_ymd(year: u32, month: u32, day: u32) -> (r: Option<Date>)
    ensures
        match r {
            Some(d) => d == (Date { year, month, day }) && d.wf(),
            None => !(Date { year, month, day }).wf(),
        },
{
    if year <= 9999 && 1 <= month && month <= 12 && 1 <= day && day <= month_length(year, month) {
        Some(Date { year, month, day })
    } else {
        None
    }
}

/// The character for one decimal digit.
pub open spec fn digit_char(n: int) -> char {
    if n == 0 {
        '0'
    } else if n == 1 {
        '1'
    } else if n == 2 {
        '2'
    } else if n == 3 {
        '3'
    } else if n == 4 {
        '4'
    } else if n == 5 {
        '5'
    } else if n == 6 {
        '6'
    } else if n == 7 {
        '7'
    } else if n == 8 {
        '8'
    } else {
        '9'
    }
}

pub open spec fn spec_two_digits(n: int) -> Seq<char> {
    seq![digit_char(n / 10 % 10), digit_char(n % 10)]
}

pub open spec fn spec_four_digits(n: int) -> Seq<char> {
    seq![
        digit_char(n / 1000 % 10),
        digit_char(n / 100 % 10),
        digit_char(n / 10 % 10),
        digit_char(n % 10),
    ]
}

/// The catalog's wire form of a date: `YYYY-MM-DD`, zero padded.
pub open spec fn spec_format_date(d: Date) -> Seq<char> {
    spec_four_digits(d.year as int) + seq!['-'] + spec_two_digits(d.month as int) + seq!['-']
        + spec_two_digits(d.day as int)
}

pub fn digit_str(n: u32) -> (r: &'static str)
    requires
        n < 10,
    ensures
        r@ =~= seq![digit_char(n as int)],
{
    let r = match n {
        0 => "0",
        1 => "1",
        2 => "2",
        3 => "3",
        4 => "4",
        5 => "5",
        6 => "6",
        7 => "7",
        8 => "8",
        _ => "9",
    };
    proof {
        reveal_strlit("0");
        reveal_strlit("1");
        reveal_strlit("2");
        reveal_strlit("3");
        reveal_strlit("4");
        reveal_strlit("5");
        reveal_strlit("6");
        reveal_strlit("7");
        reveal_strlit("8");
        reveal_strlit("9");
    }
    r
}

fn push_two_digits(s: &mut String, n: u32)
    requires
        n < 100,
    ensures
        final(s)@ == old(s)@ + spec_two_digits(n as int),
{
    s.append(digit_str(n / 10));
    s.append(digit_str(n % 10));
    proof {
        assert(final(s)@ =~= old(s)@ + spec_two_digits(n as int));
    }
}

fn push_four_digits(s: &mut String, n: u32)
    requires
        n < 10000,
    ensures
        final(s)@ == old(s)@ + spec_four_digits(n as int),
{
    s.append(digit_str(n / 1000));
    s.append(digit_str(n / 100 % 10));
    s.append(digit_str(n / 10 % 10));
    s.append(digit_str(n % 10));
    proof {
        assert(final(s)@ =~= old(s)@ + spec_four_digits(n as int));
    }
}

/// Formats a date as the catalog expects it: `YYYY-MM-DD`.
pub fn format_date(d: &Date) -> (r: String)
    requires
        d.wf(),
    ensures
        r@ == spec_format_date(*d),
{
    let mut s = String::new();
    push_four_digits(&mut s, d.year);
    s.append("-");
    push_two_digits(&mut s, d.month);
    s.append("-");
    push_two_digits(&mut s, d.day);
    proof {
        reveal_strlit("-");
        assert(s@ =~= spec_format_date(*d));
    }
    s
}

/// Relies on `chrono::NaiveDate` (`from_ymd_opt`, `checked_add_days`,
/// `checked_sub_days` and the `Datelike` accessors) for proleptic-Gregorian
/// day arithmetic: the result is the calendar day `n` days after (or before)
/// the given one.  The `requires` keeps the inputs where chrono's documented
/// range guarantees a result, so the calls cannot fail — and where at most
/// one year boundary can be crossed, so the result's year stays four digits.
#[verifier::external_body]
fn gregorian_shift_days(year: u32, month: u32, day: u32, later: bool, n: u32) -> (r: (
    u32,
    u32,
    u32,
))
    requires
        (Date { year, month, day }).wf(),
        1 <= year <= 9998,
        n <= 365,
    ensures
        (Date { year: r.0, month: r.1, day: r.2 }).wf(),
        later ==> date_index(Date { year: r.0, month: r.1, day: r.2 }) == date_index(
            Date { year, month, day },
        ) + n,
        !later ==> date_index(Date { year: r.0, month: r.1, day: r.2 }) == date_index(
            Date { year, month, day },
        ) - n,
{
    let base = chrono::NaiveDate::from_ymd_opt(year as i32, month, day).unwrap();
    let shifted = if later {
        base.checked_add_days(chrono::Days::new(n as u64)).unwrap()
    } else {
        base.checked_sub_days(chrono::Days::new(n as u64)).unwrap()
    };
    (shifted.year() as u32, shifted.month(), shifted.day())
}

pub open spec fn is_ascii_digit(c: char) -> bool {
    0x30 <= c as u32 && c as u32 <= 0x39
}

pub open spec fn digit_val(c: char) -> int {
    c as u32 - 0x30
}

pub open spec fn all_digits(s: Seq<char>) -> bool {
    forall|i: int| 0 <= i < s.len() ==> is_ascii_digit(#[trigger] s[i])
}

/// The value of a run of decimal digits, most significant first.
pub open spec fn digits_val(s: Seq<char>) -> int
    decreases s.len(),
{
    if s.len() == 0 {
        0
    } else {
        digits_val(s.drop_last()) * 10 + digit_val(s.last())
    }
}

pub proof fn lemma_digits_val_range(s: Seq<char>)
    requires
        all_digits(s),
    ensures
        0 <= digits_val(s),
        s.len() <= 1 ==> digits_val(s) < 10,
        s.len() <= 2 ==> digits_val(s) < 100,
        s.len() <= 3 ==> digits_val(s) < 1000,
        s.len() <= 4 ==> digits_val(s) < 10000,
    decreases s.len(),
{
    if s.len() > 0 {
        assert(all_digits(s.drop_last())) by {
            assert(forall|i: int| 0 <= i < s.len() - 1 ==> #[trigger] s.drop_last()[i] == s[i]);
        }
        lemma_digits_val_range(s.drop_last());
        assert(0 <= digit_val(s.last()) < 10);
    }
}

pub fn exec_is_digit(c: char) -> (r: bool)
    ensures
        r == is_ascii_digit(c),
{
    let u = c as u32;
    0x30 <= u && u <= 0x39
}

/// Reads the decimal value of `s[from..to]`, all digits.
pub fn read_digits(s: &str, from: usize, to: usize) -> (v: u32)
    requires
        from <= to <= s@.len(),
        to - from <= 4,
        all_digits(s@.subrange(from as int, to as int)),
    ensures
        v == digits_val(s@.subrange(from as int, to as int)),
        v < 10000,
        to - from <= 2 ==> v < 100,
{
    proof {
        lemma_digits_val_range(s@.subrange(from as int, to as int));
    }
    let mut v: u32 = 0;
    let mut i: usize = from;
    while i < to
        invariant
            from <= i <= to <= s@.len(),
            to - from <= 4,
            all_digits(s@.subrange(from as int, to as int)),
            v == digits_val(s@.subrange(from as int, i as int)),
            v < 10000,
        decreases to - i,
    {
        let c = s.get_char(i);
        proof {
            assert(s@.subrange(from as int, to as int)[i - from] == s@[i as int]);
            let part = s@.subrange(from as int, i + 1);
            assert(part.drop_last() =~= s@.subrange(from as int, i as int));
            assert(part.last() == s@[i as int]);
            assert(all_digits(part)) by {
                assert(forall|k: int|
                    0 <= k < part.len() ==> part[k] == s@.subrange(from as int, to as int)[
                        k + from - from]);
            }
            lemma_digits_val_range(part);
        }
        v = v * 10 + (c as u32 - 0x30);
        i = i + 1;
    }
    proof {
        lemma_digits_val_range(s@.subrange(from as int, to as int));
    }
    v
}

/// A date put together from parsed parts: a value exactly when the parts
/// make a real calendar day with a four-digit year.
pub open spec fn spec_date_from_parts(y: int, m: int, d: int) -> Option<Date> {
    if 0 <= y <= 9999 && 0 <= m && 0 <= d && (Date {
        year: y as u32,
        month: m as u32,
        day: d as u32,
    }).wf() {
        Some(Date { year: y as u32, month: m as u32, day: d as u32 })
    } else {
        None
    }
}

/// Whether `s` is exactly `DDDD sep1 D{ml} sep2 D{dl} tail`, with digit runs
/// of the given widths.
pub open spec fn spec_ymd_shape(
    s: Seq<char>,
    sep1: char,
    sep2: char,
    tail: Seq<char>,
    ml: int,
    dl: int,
) -> bool {
    &&& s.len() == 6 + ml + dl + tail.len()
    &&& all_digits(s.subrange(0, 4))
    &&& s[4] == sep1
    &&& all_digits(s.subrange(5, 5 + ml))
    &&& s[5 + ml] == sep2
    &&& all_digits(s.subrange(6 + ml, 6 + ml + dl))
    &&& s.subrange(6 + ml + dl, s.len() as int) == tail
}

/// The year, month and day read from a whole string of the shape
/// `DDDD sep1 D{1,2} sep2 D{1,2} tail`, month and day taken as wide as the
/// text allows; `None` if the string has no such shape.
pub open spec fn spec_parse_ymd(s: Seq<char>, sep1: char, sep2: char, tail: Seq<char>) -> Option<
    (int, int, int),
> {
    if spec_ymd_shape(s, sep1, sep2, tail, 2, 2) {
        Some(
            (
                digits_val(s.subrange(0, 4)),
                digits_val(s.subrange(5, 7)),
                digits_val(s.subrange(8, 10)),
            ),
        )
    } else if spec_ymd_shape(s, sep1, sep2, tail, 2, 1) {
        Some(
            (
                digits_val(s.subrange(0, 4)),
                digits_val(s.subrange(5, 7)),
                digits_val(s.subrange(8, 9)),
            ),
        )
    } else if spec_ymd_shape(s, sep1, sep2, tail, 1, 2) {
        Some(
            (
                digits_val(s.subrange(0, 4)),
                digits_val(s.subrange(5, 6)),
                digits_val(s.subrange(7, 9)),
            ),
        )
    } else if spec_ymd_shape(s, sep1, sep2, tail, 1, 1) {
        Some(
            (
                digits_val(s.subrange(0, 4)),
                digits_val(s.subrange(5, 6)),
                digits_val(s.subrange(7, 8)),
            ),
        )
    } else {
        None
    }
}

/// Tries one digit-width pair of the `DDDD sep1 D{ml} sep2 D{dl} tail`
/// shape against the whole string.
fn try_ymd_shape(s: &str, sep1: char, sep2: char, tail: &str, ml: usize, dl: usize) -> (r: Option<
    (u32, u32, u32),
>)
    requires
        1 <= ml <= 2,
        1 <= dl <= 2,
    ensures
        match r {
            Some(t) => spec_ymd_shape(s@, sep1, sep2, tail@, ml as int, dl as int) && t.0
                == digits_val(s@.subrange(0, 4)) && t.1 == digits_val(
                s@.subrange(5, 5 + ml as int),
            ) && t.2 == digits_val(s@.subrange(6 + ml as int, 6 + ml as int + dl as int)) && t.0
                < 10000 && t.1 < 100 && t.2 < 100,
            None => !spec_ymd_shape(s@, sep1, sep2, tail@, ml as int, dl as int),
        },
{
    let n = s.unicode_len();
    let tn = tail.unicode_len();
    if n < 6 + ml + dl || n - (6 + ml + dl) != tn {
        return None;
    }
    let mut i: usize = 0;
    while i < 4
        invariant
            i <= 4,
            n == s@.len(),
            n == 6 + ml + dl + tn,
            ml <= 2,
            dl <= 2,
            forall|k: int| 0 <= k < i ==> is_ascii_digit(#[trigger] s@.subrange(0, 4)[k]),
        decreases 4 - i,
    {
        proof {
            assert(s@.subrange(0, 4)[i as int] == s@[i as int]);
        }
        if !exec_is_digit(s.get_char(i)) {
            proof {
                assert(s@.subrange(0, 4)[i as int] == s@[i as int]);
            }
            return None;
        }
        i = i + 1;
    }
    if s.get_char(4) != sep1 {
        return None;
    }
    let mut i: usize = 0;
    while i < ml
        invariant
            i <= ml,
            n == s@.len(),
            n == 6 + ml + dl + tn,
            ml <= 2,
            dl <= 2,
            forall|k: int| 0 <= k < i ==> is_ascii_digit(#[trigger] s@.subrange(5, 5 + ml as int)[k]),
        decreases ml - i,
    {
        proof {
            assert(s@.subrange(5, 5 + ml as int)[i as int] == s@[5 + i]);
        }
        if !exec_is_digit(s.get_char(5 + i)) {
            return None;
        }
        i = i + 1;
    }
    if s.get_char(5 + ml) != sep2 {
        return None;
    }
    let mut i: usize = 0;
    while i < dl
        invariant
            i <= dl,
            n == s@.len(),
            n == 6 + ml + dl + tn,
            ml <= 2,
            dl <= 2,
            forall|k: int|
                0 <= k < i ==> is_ascii_digit(
                    #[trigger] s@.subrange(6 + ml as int, 6 + ml as int + dl as int)[k],
                ),
        decreases dl - i,
    {
        proof {
            assert(s@.subrange(6 + ml as int, 6 + ml as int + dl as int)[i as int] == s@[6 + ml
                + i]);
        }
        if !exec_is_digit(s.get_char(6 + ml + i)) {
            return None;
        }
        i = i + 1;
    }
    let rest = s.substring_char(6 + ml + dl, n);
    if !crate::text::str_eq(rest, tail) {
        return None;
    }
    let y = read_digits(s, 0, 4);
    let m = read_digits(s, 5, 5 + ml);
    let d = read_digits(s, 6 + ml, 6 + ml + dl);
    proof {
        lemma_digits_val_range(s@.subrange(5, 5 + ml as int));
        lemma_digits_val_range(s@.subrange(6 + ml as int, 6 + ml as int + dl as int));
    }
    Some((y, m, d))
}

/// Reads a whole string of the shape `DDDD sep1 D{1,2} sep2 D{1,2} tail`
/// into a calendar date; `None` when the shape or the calendar rejects it.
pub fn parse_ymd_text(s: &str, sep1: char, sep2: char, tail: &str) -> (r: Option<Date>)
    ensures
        match spec_parse_ymd(s@, sep1, sep2, tail@) {
            Some(t) => r == spec_date_from_parts(t.0, t.1, t.2),
            None => r is None,
        },
{
    let parts = if let Some(p) = try_ymd_shape(s, sep1, sep2, tail, 2, 2) {
        Some(p)
    } else if let Some(p) = try_ymd_shape(s, sep1, sep2, tail, 2, 1) {
        Some(p)
    } else if let Some(p) = try_ymd_shape(s, sep1, sep2, tail, 1, 2) {
        Some(p)
    } else if let Some(p) = try_ymd_shape(s, sep1, sep2, tail, 1, 1) {
        Some(p)
    } else {
        None
    };
    match parts {
        Some((y, m, d)) => date_from_ymd(y, m, d),
        None => None,
    }
}

/// Parses the catalog's own date form `YYYY-MM-DD`.
pub fn parse_date_iso(s: &str) -> (r: Option<Date>)
    ensures
        match spec_parse_ymd(s@, '-', '-', Seq::empty()) {
            Some(t) => r == spec_date_from_parts(t.0, t.1, t.2),
            None => r is None,
        },
{
    proof {
        reveal_strlit("");
        assert(""@ =~= Seq::<char>::empty());
    }
    parse_ymd_text(s, '-', '-', "")
}

/// Parses the CJK date form `YYYY年MM月DD日`.
pub fn parse_date_cjk(s: &str) -> (r: Option<Date>)
    ensures
        match spec_parse_ymd(s@, '年', '月', "日"@) {
            Some(t) => r == spec_date_from_parts(t.0, t.1, t.2),
            None => r is None,
        },
{
    parse_ymd_text(s, '年', '月', "日")
}

/// The calendar day `n` days after (`later`) or before (`!later`) `d`.
pub fn date_shifted_by(d: &Date, later: bool, n: u32) -> (r: Date)
    requires
        d.wf(),
        1 <= d.year <= 9998,
        n <= 365,
    ensures
        r.wf(),
        later ==> date_index(r) == date_index(*d) + n,
        !later ==> date_index(r) == date_index(*d) - n,
{
    let (y, m, dd) = gregorian_shift_days(d.year, d.month, d.day, later, n);
    Date { year: y, month: m, day: dd }
}

} // verus!
