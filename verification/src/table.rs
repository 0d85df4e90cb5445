//! Reading the listing table: finding date patterns in free text, deciding
//! whether a listed date is still undetermined, naming the season a table
//! covers, and turning the table's rows into works.

use crate::dates::{Date, all_digits, date_from_ymd, digits_val, is_ascii_digit, exec_is_digit,
    read_digits, spec_date_from_parts};
use crate::models::AnimeWork;
use vstd::prelude::*;
use vstd::string::StrSliceExecFns;
use vstd::string::StringExecFns;

verus! {

/// The day-of-week characters a listed date may carry in parentheses.
pub open spec fn is_weekday_char(c: char) -> bool {
    c == '月' || c == '火' || c == '水' || c == '木' || c == '金' || c == '土' || c == '日'
}

pub fn exec_is_weekday(c: char) -> (r: bool)
    ensures
        r == is_weekday_char(c),
{
    c == '月' || c == '火' || c == '水' || c == '木' || c == '金' || c == '土' || c == '日'
}

/// Four digits starting at `p`.
pub open spec fn digits4_at(s: Seq<char>, p: int) -> bool {
    p + 4 <= s.len() && all_digits(s.subrange(p, p + 4))
}

/// A parenthesized day-of-week mark starting at `q`.
pub open spec fn weekday_mark_at(s: Seq<char>, q: int) -> bool {
    q + 3 <= s.len() && s[q] == '(' && is_weekday_char(s[q + 1]) && s[q + 2] == ')'
}

/// The year, month and day of a full date pattern starting at `p`:
/// `DDDD sep1 D{1,2} sep2 D{1,2}`, the month and day as wide as the text
/// allows, followed — when `wd` asks for it — by a parenthesized day-of-week
/// mark.  `None` when no such pattern starts here.
pub open spec fn spec_ymd_match_at(s: Seq<char>, p: int, sep1: char, sep2: char, wd: bool) -> Option<
    (int, int, int),
> {
    if !(0 <= p && digits4_at(s, p) && p + 5 <= s.len() && s[p + 4] == sep1) {
        None
    } else {
        let y = digits_val(s.subrange(p, p + 4));
        if p + 8 <= s.len() && is_ascii_digit(s[p + 5]) && is_ascii_digit(s[p + 6]) && s[p + 7]
            == sep2 {
            // Two month digits.
            let m = digits_val(s.subrange(p + 5, p + 7));
            spec_day_match_at(s, p + 8, y, m, wd)
        } else if p + 7 <= s.len() && is_ascii_digit(s[p + 5]) && s[p + 6] == sep2 {
            // One month digit.
            let m = digits_val(s.subrange(p + 5, p + 6));
            spec_day_match_at(s, p + 7, y, m, wd)
        } else {
            None
        }
    }
}

/// The day part starting at `q`: two digits if the text allows them — and,
/// when a day-of-week mark is required, still leaves one — else one digit.
pub open spec fn spec_day_match_at(s: Seq<char>, q: int, y: int, m: int, wd: bool) -> Option<
    (int, int, int),
> {
    if q + 2 <= s.len() && is_ascii_digit(s[q]) && is_ascii_digit(s[q + 1]) && (!wd
        || weekday_mark_at(s, q + 2)) {
        Some((y, m, digits_val(s.subrange(q, q + 2))))
    } else if q + 1 <= s.len() && is_ascii_digit(s[q]) && (!wd || weekday_mark_at(s, q + 1)) {
        Some((y, m, digits_val(s.subrange(q, q + 1))))
    } else {
        None
    }
}

/// The first position at or after `p` where the full date pattern matches.
pub open spec fn spec_find_ymd(s: Seq<char>, p: int, sep1: char, sep2: char, wd: bool) -> Option<
    int,
>
    decreases s.len() - p,
{
    if p < 0 || p >= s.len() {
        None
    } else if spec_ymd_match_at(s, p, sep1, sep2, wd) is Some {
        Some(p)
    } else {
        spec_find_ymd(s, p + 1, sep1, sep2, wd)
    }
}

/// Tries the full date pattern at one position.
fn ymd_match_at(s: &str, n: usize, p: usize, sep1: char, sep2: char, wd: bool) -> (r: Option<
    (u32, u32, u32),
>)
    requires
        n == s@.len(),
        p < n,
    ensures
        match r {
            Some(t) => spec_ymd_match_at(s@, p as int, sep1, sep2, wd) == Some(
                (t.0 as int, t.1 as int, t.2 as int),
            ) && t.0 < 10000 && t.1 < 100 && t.2 < 100,
            None => spec_ymd_match_at(s@, p as int, sep1, sep2, wd) is None,
        },
{
    if n - p < 5 {
        return None;
    }
    let mut k: usize = 0;
    while k < 4
        invariant
            k <= 4,
            n == s@.len(),
            p + 5 <= n,
            forall|j: int| 0 <= j < k ==> is_ascii_digit(#[trigger] s@.subrange(p as int, p + 4)[j]),
        decreases 4 - k,
    {
        proof {
            assert(s@.subrange(p as int, p + 4)[k as int] == s@[p + k]);
        }
        if !exec_is_digit(s.get_char(p + k)) {
            return None;
        }
        k = k + 1;
    }
    if s.get_char(p + 4) != sep1 {
        return None;
    }
    let y = read_digits(s, p, p + 4);
    if n - p >= 8 && exec_is_digit(s.get_char(p + 5)) && exec_is_digit(s.get_char(p + 6))
        && s.get_char(p + 7) == sep2 {
        let m = read_digits(s, p + 5, p + 7);
        day_match_at(s, n, p + 8, y, m, wd)
    } else if n - p >= 7 && exec_is_digit(s.get_char(p + 5)) && s.get_char(p + 6) == sep2 {
        let m = read_digits(s, p + 5, p + 6);
        day_match_at(s, n, p + 7, y, m, wd)
    } else {
        None
    }
}

fn weekday_mark(s: &str, n: usize, q: usize) -> (r: bool)
    requires
        n == s@.len(),
        q <= n,
    ensures
        r == weekday_mark_at(s@, q as int),
{
    n - q >= 3 && s.get_char(q) == '(' && exec_is_weekday(s.get_char(q + 1)) && s.get_char(q + 2)
        == ')'
}

fn day_match_at(s: &str, n: usize, q: usize, y: u32, m: u32, wd: bool) -> (r: Option<
    (u32, u32, u32),
>)
    requires
        n == s@.len(),
        q <= n,
        y < 10000,
        m < 100,
    ensures
        match r {
            Some(t) => spec_day_match_at(s@, q as int, y as int, m as int, wd) == Some(
                (t.0 as int, t.1 as int, t.2 as int),
            ) && t.0 == y && t.1 == m && t.2 < 100,
            None => spec_day_match_at(s@, q as int, y as int, m as int, wd) is None,
        },
{
    if n - q >= 2 && exec_is_digit(s.get_char(q)) && exec_is_digit(s.get_char(q + 1)) && (!wd
        || weekday_mark(s, n, q + 2)) {
        proof {
            assert(all_digits(s@.subrange(q as int, q + 2))) by {
                assert(s@.subrange(q as int, q + 2)[0] == s@[q as int]);
                assert(s@.subrange(q as int, q + 2)[1] == s@[q + 1]);
            }
        }
        let d = read_digits(s, q, q + 2);
        proof {
            crate::dates::lemma_digits_val_range(s@.subrange(q as int, q + 2));
        }
        Some((y, m, d))
    } else if n - q >= 1 && exec_is_digit(s.get_char(q)) && (!wd || weekday_mark(s, n, q + 1)) {
        proof {
            assert(all_digits(s@.subrange(q as int, q + 1))) by {
                assert(s@.subrange(q as int, q + 1)[0] == s@[q as int]);
            }
        }
        let d = read_digits(s, q, q + 1);
        proof {
            crate::dates::lemma_digits_val_range(s@.subrange(q as int, q + 1));
        }
        Some((y, m, d))
    } else {
        None
    }
}

/// Finds the leftmost full date pattern and reads its values.
fn find_ymd(s: &str, sep1: char, sep2: char, wd: bool) -> (r: Option<(u32, u32, u32)>)
    ensures
        match r {
            Some(t) => exists|p: int|
                spec_find_ymd(s@, 0, sep1, sep2, wd) == Some(p) && spec_ymd_match_at(
                    s@,
                    p,
                    sep1,
                    sep2,
                    wd,
                ) == Some((t.0 as int, t.1 as int, t.2 as int)) && t.0 < 10000 && t.1 < 100 && t.2
                    < 100,
            None => spec_find_ymd(s@, 0, sep1, sep2, wd) is None,
        },
{
    let n = s.unicode_len();
    let mut p: usize = 0;
    while p < n
        invariant
            p <= n,
            n == s@.len(),
            spec_find_ymd(s@, 0, sep1, sep2, wd) == spec_find_ymd(s@, p as int, sep1, sep2, wd),
        decreases n - p,
    {
        match ymd_match_at(s, n, p, sep1, sep2, wd) {
            Some(t) => {
                return Some(t);
            },
            None => {},
        }
        p = p + 1;
    }
    None
}

/// The date a listed air-date text carries, in falling order of precision:
/// a full date with a day-of-week mark, a bare full date, a CJK year-month
/// (read as that month's first day), a slashed year-month likewise — each
/// sought anywhere in the text — and otherwise nothing.  A match whose
/// values name no real calendar day yields nothing.
pub open spec fn spec_parse_air_date(s: Seq<char>) -> Option<Date> {
    match spec_find_ymd(s, 0, '/', '/', true) {
        Some(p) => match spec_ymd_match_at(s, p, '/', '/', true) {
            Some(t) => spec_date_from_parts(t.0, t.1, t.2),
            None => None,
        },
        None => match spec_find_ymd(s, 0, '/', '/', false) {
            Some(p) => match spec_ymd_match_at(s, p, '/', '/', false) {
                Some(t) => spec_date_from_parts(t.0, t.1, t.2),
                None => None,
            },
            None => match spec_find_ym(s, 0, '年', "月"@) {
                Some(p) => match spec_ym_match_at(s, p, '年', "月"@) {
                    Some(t) => spec_date_from_parts(t.0, t.1, 1),
                    None => None,
                },
                None => match spec_find_ym(s, 0, '/', Seq::empty()) {
                    Some(p) => match spec_ym_match_at(s, p, '/', Seq::empty()) {
                        Some(t) => spec_date_from_parts(t.0, t.1, 1),
                        None => None,
                    },
                    None => None,
                },
            },
        },
    }
}

/// The year and month of a year-month pattern starting at `p`:
/// `DDDD sep1 D{1,2}` followed by the terminator text, the month as wide as
/// the text allows.
pub open spec fn spec_ym_match_at(s: Seq<char>, p: int, sep1: char, term: Seq<char>) -> Option<
    (int, int),
> {
    if !(0 <= p && digits4_at(s, p) && p + 5 <= s.len() && s[p + 4] == sep1) {
        None
    } else {
        let y = digits_val(s.subrange(p, p + 4));
        if p + 7 + term.len() <= s.len() && is_ascii_digit(s[p + 5]) && is_ascii_digit(s[p + 6])
            && s.subrange(p + 7, p + 7 + term.len()) == term {
            Some((y, digits_val(s.subrange(p + 5, p + 7))))
        } else if p + 6 + term.len() <= s.len() && is_ascii_digit(s[p + 5]) && s.subrange(
            p + 6,
            p + 6 + term.len(),
        ) == term {
            Some((y, digits_val(s.subrange(p + 5, p + 6))))
        } else {
            None
        }
    }
}

pub open spec fn spec_find_ym(s: Seq<char>, p: int, sep1: char, term: Seq<char>) -> Option<int>
    decreases s.len() - p,
{
    if p < 0 || p >= s.len() {
        None
    } else if spec_ym_match_at(s, p, sep1, term) is Some {
        Some(p)
    } else {
        spec_find_ym(s, p + 1, sep1, term)
    }
}

fn term_at(s: &str, n: usize, q: usize, term: &str) -> (r: bool)
    requires
        n == s@.len(),
        q <= n,
    ensures
        r == (q + term@.len() <= s@.len() && s@.subrange(q as int, q + term@.len()) == term@),
{
    let tn = term.unicode_len();
    if n - q < tn {
        return false;
    }
    let mut k: usize = 0;
    while k < tn
        invariant
            k <= tn,
            n == s@.len(),
            tn == term@.len(),
            q + tn <= n,
            forall|j: int| 0 <= j < k ==> s@[q + j] == term@[j],
        decreases tn - k,
    {
        if s.get_char(q + k) != term.get_char(k) {
            proof {
                assert(s@.subrange(q as int, q + term@.len())[k as int] == s@[q + k]);
            }
            return false;
        }
        k = k + 1;
    }
    proof {
        assert(s@.subrange(q as int, q + term@.len()) =~= term@);
    }
    true
}

fn ym_match_at(s: &str, n: usize, p: usize, sep1: char, term: &str) -> (r: Option<(u32, u32)>)
    requires
        n == s@.len(),
        p < n,
    ensures
        match r {
            Some(t) => spec_ym_match_at(s@, p as int, sep1, term@) == Some(
                (t.0 as int, t.1 as int),
            ) && t.0 < 10000 && t.1 < 100,
            None => spec_ym_match_at(s@, p as int, sep1, term@) is None,
        },
{
    if n - p < 5 {
        return None;
    }
    let mut k: usize = 0;
    while k < 4
        invariant
            k <= 4,
            n == s@.len(),
            p + 5 <= n,
            forall|j: int| 0 <= j < k ==> is_ascii_digit(#[trigger] s@.subrange(p as int, p + 4)[j]),
        decreases 4 - k,
    {
        proof {
            assert(s@.subrange(p as int, p + 4)[k as int] == s@[p + k]);
        }
        if !exec_is_digit(s.get_char(p + k)) {
            return None;
        }
        k = k + 1;
    }
    if s.get_char(p + 4) != sep1 {
        return None;
    }
    let y = read_digits(s, p, p + 4);
    if n - p >= 7 && exec_is_digit(s.get_char(p + 5)) && exec_is_digit(s.get_char(p + 6))
        && term_at(s, n, p + 7, term) {
        let m = read_digits(s, p + 5, p + 7);
        Some((y, m))
    } else if n - p >= 6 && exec_is_digit(s.get_char(p + 5)) && term_at(s, n, p + 6, term) {
        let m = read_digits(s, p + 5, p + 6);
        Some((y, m))
    } else {
        None
    }
}

/// Finds the leftmost year-month pattern and reads its values, also handing
/// back where it starts and how wide its month is.
fn find_ym(s: &str, sep1: char, term: &str) -> (r: Option<(u32, u32, usize, usize)>)
    ensures
        match r {
            Some(t) => spec_find_ym(s@, 0, sep1, term@) == Some(t.2 as int) && spec_ym_match_at(
                s@,
                t.2 as int,
                sep1,
                term@,
            ) == Some((t.0 as int, t.1 as int)) && t.0 < 10000 && t.1 < 100 && (t.3 == 1 || t.3
                == 2) && t.2 + 5 + t.3 <= s@.len() && all_digits(
                s@.subrange(t.2 + 5, t.2 + 5 + t.3),
            ) && t.1 == digits_val(s@.subrange(t.2 + 5, t.2 + 5 + t.3)) && digits4_at(
                s@,
                t.2 as int,
            ) && t.0 == digits_val(s@.subrange(t.2 as int, t.2 + 4)) && spec_ym_month_span(
                s@,
                t.2 as int,
                term@,
            ) == s@.subrange(t.2 + 5, t.2 + 5 + t.3),
            None => spec_find_ym(s@, 0, sep1, term@) is None,
        },
{
    let n = s.unicode_len();
    let mut p: usize = 0;
    while p < n
        invariant
            p <= n,
            n == s@.len(),
            spec_find_ym(s@, 0, sep1, term@) == spec_find_ym(s@, p as int, sep1, term@),
        decreases n - p,
    {
        match ym_match_at(s, n, p, sep1, term) {
            Some((y, m)) => {
                let ml: usize = if n - p >= 7 && exec_is_digit(s.get_char(p + 5)) && exec_is_digit(
                    s.get_char(p + 6),
                ) && term_at(s, n, p + 7, term) {
                    2
                } else {
                    1
                };
                proof {
                    if ml == 2 {
                        assert(all_digits(s@.subrange(p + 5, p + 7))) by {
                            assert(s@.subrange(p + 5, p + 7)[0] == s@[p + 5]);
                            assert(s@.subrange(p + 5, p + 7)[1] == s@[p + 6]);
                        }
                    } else {
                        assert(all_digits(s@.subrange(p + 5, p + 6))) by {
                            assert(s@.subrange(p + 5, p + 6)[0] == s@[p + 5]);
                        }
                    }
                }
                return Some((y, m, p, ml));
            },
            None => {},
        }
        p = p + 1;
    }
    None
}

/// Reads the air date out of a listed date text, trying the patterns from
/// most to least specific, anywhere in the text.
pub fn parse_air_date(date_str: &str) -> (r: Option<Date>)
    ensures
        r == spec_parse_air_date(date_str@),
{
    if let Some((y, m, d)) = find_ymd(date_str, '/', '/', true) {
        return date_from_ymd(y, m, d);
    }
    if let Some((y, m, d)) = find_ymd(date_str, '/', '/', false) {
        return date_from_ymd(y, m, d);
    }
    if let Some((y, m, _p, _ml)) = find_ym(date_str, '年', "月") {
        return date_from_ymd(y, m, 1);
    }
    proof {
        reveal_strlit("");
        assert(""@ =~= Seq::<char>::empty());
    }
    if let Some((y, m, _p, _ml)) = find_ym(date_str, '/', "") {
        return date_from_ymd(y, m, 1);
    }
    None
}

/// Whether a listed date is still undetermined: no full `YYYY/M/D` date
/// occurs anywhere in it.
pub fn is_undetermined_date(date_str: &str) -> (r: bool)
    ensures
        r == (spec_find_ymd(date_str@, 0, '/', '/', false) is None),
{
    match find_ymd(date_str, '/', '/', false) {
        Some(_) => false,
        None => true,
    }
}

/// The first position at or after `j` holding a non-space character.
pub open spec fn spec_skip_spaces(s: Seq<char>, j: int) -> int
    decreases s.len() - j,
{
    if j < 0 || j >= s.len() {
        j
    } else if crate::text::is_space_char(s[j]) {
        spec_skip_spaces(s, j + 1)
    } else {
        j
    }
}

pub open spec fn is_season_char(c: char) -> bool {
    c == '秋' || c == '冬' || c == '春' || c == '夏'
}

/// The first month of the quarter a season character names.
pub open spec fn spec_season_month(c: char) -> Seq<char> {
    if c == '春' {
        "04"@
    } else if c == '夏' {
        "07"@
    } else if c == '秋' {
        "10"@
    } else {
        "01"@
    }
}

/// Whether `DDDD年`, optional whitespace and a season character start at `p`.
pub open spec fn spec_season_match_at(s: Seq<char>, p: int) -> bool {
    &&& 0 <= p
    &&& digits4_at(s, p)
    &&& p + 5 <= s.len()
    &&& s[p + 4] == '年'
    &&& spec_skip_spaces(s, p + 5) < s.len()
    &&& is_season_char(s[spec_skip_spaces(s, p + 5)])
}

pub open spec fn spec_find_season(s: Seq<char>, p: int) -> Option<int>
    decreases s.len() - p,
{
    if p < 0 || p >= s.len() {
        None
    } else if spec_season_match_at(s, p) {
        Some(p)
    } else {
        spec_find_season(s, p + 1)
    }
}

fn skip_spaces(s: &str, n: usize, j: usize) -> (r: usize)
    requires
        n == s@.len(),
        j <= n,
    ensures
        r == spec_skip_spaces(s@, j as int),
        j <= r <= n,
{
    let mut k: usize = j;
    while k < n && crate::text::is_space(s.get_char(k))
        invariant
            j <= k <= n,
            n == s@.len(),
            spec_skip_spaces(s@, j as int) == spec_skip_spaces(s@, k as int),
        decreases n - k,
    {
        k = k + 1;
    }
    k
}

fn season_match_at(s: &str, n: usize, p: usize) -> (r: Option<char>)
    requires
        n == s@.len(),
        p < n,
    ensures
        match r {
            Some(c) => spec_season_match_at(s@, p as int) && c == s@[spec_skip_spaces(s@, p + 5)],
            None => !spec_season_match_at(s@, p as int),
        },
{
    if n - p < 5 {
        return None;
    }
    let mut k: usize = 0;
    while k < 4
        invariant
            k <= 4,
            n == s@.len(),
            p + 5 <= n,
            forall|j: int| 0 <= j < k ==> is_ascii_digit(#[trigger] s@.subrange(p as int, p + 4)[j]),
        decreases 4 - k,
    {
        proof {
            assert(s@.subrange(p as int, p + 4)[k as int] == s@[p + k]);
        }
        if !exec_is_digit(s.get_char(p + k)) {
            return None;
        }
        k = k + 1;
    }
    if s.get_char(p + 4) != '年' {
        return None;
    }
    let j = skip_spaces(s, n, p + 5);
    if j < n {
        let c = s.get_char(j);
        if c == '秋' || c == '冬' || c == '春' || c == '夏' {
            return Some(c);
        }
    }
    None
}

fn season_month_str(c: char) -> (r: &'static str)
    ensures
        r@ == spec_season_month(c),
{
    let r = if c == '春' {
        "04"
    } else if c == '夏' {
        "07"
    } else if c == '秋' {
        "10"
    } else {
        "01"
    };
    proof {
        reveal_strlit("04");
        reveal_strlit("07");
        reveal_strlit("10");
        reveal_strlit("01");
    }
    r
}

/// The month span of the leftmost year-month pattern, as it stands in the
/// text (so a zero-padded month keeps its padding).
pub open spec fn spec_ym_month_span(s: Seq<char>, p: int, term: Seq<char>) -> Seq<char> {
    if p + 7 + term.len() <= s.len() && is_ascii_digit(s[p + 5]) && is_ascii_digit(s[p + 6])
        && s.subrange(p + 7, p + 7 + term.len()) == term {
        s.subrange(p + 5, p + 7)
    } else {
        s.subrange(p + 5, p + 6)
    }
}

/// The season name a table title yields, patterns from most to least
/// specific: an explicit `YYYY年M月新番`, a `YYYY年M月` (both echoed with
/// their own digits), a `YYYY年` followed by a season character (mapped to
/// its quarter's first month), and finally the season the given current
/// year and month fall in.
pub open spec fn spec_season_name(title: Seq<char>, now_year: int, now_month: int) -> Seq<char> {
    match spec_find_ym(title, 0, '年', "月新番"@) {
        Some(p) => title.subrange(p, p + 4) + "年"@ + spec_ym_month_span(title, p, "月新番"@)
            + "月新番"@,
        None => match spec_find_ym(title, 0, '年', "月"@) {
            Some(p) => title.subrange(p, p + 4) + "年"@ + spec_ym_month_span(title, p, "月"@)
                + "月新番"@,
            None => match spec_find_season(title, 0) {
                Some(p) => title.subrange(p, p + 4) + "年"@ + spec_season_month(
                    title[spec_skip_spaces(title, p + 5)],
                ) + "月新番"@,
                None => crate::text::spec_decimal(now_year) + "年"@ + (if 1 <= now_month
                    && now_month <= 3 {
                    "01"@
                } else if 4 <= now_month && now_month <= 6 {
                    "04"@
                } else if 7 <= now_month && now_month <= 9 {
                    "07"@
                } else {
                    "10"@
                }) + "月新番"@,
            },
        },
    }
}

/// Names the season a table covers, from its title where the title says,
/// else from the given current year and month.
pub fn extract_season_name_from_table_title(
    table_title: &str,
    now_year: u32,
    now_month: u32,
) -> (r: String)
    ensures
        r@ == spec_season_name(table_title@, now_year as int, now_month as int),
{
    let n = table_title.unicode_len();
    if let Some((_y, _m, p, ml)) = find_ym(table_title, '年', "月新番") {
        let mut out = String::new();
        out.append(table_title.substring_char(p, p + 4));
        out.append("年");
        out.append(table_title.substring_char(p + 5, p + 5 + ml));
        out.append("月新番");
        proof {
            reveal_strlit("月新番");
            assert(out@ =~= spec_season_name(table_title@, now_year as int, now_month as int));
        }
        return out;
    }
    if let Some((_y, _m, p, ml)) = find_ym(table_title, '年', "月") {
        let mut out = String::new();
        out.append(table_title.substring_char(p, p + 4));
        out.append("年");
        out.append(table_title.substring_char(p + 5, p + 5 + ml));
        out.append("月新番");
        proof {
            reveal_strlit("月");
            assert(out@ =~= spec_season_name(table_title@, now_year as int, now_month as int));
        }
        return out;
    }
    let mut p: usize = 0;
    while p < n
        invariant
            p <= n,
            n == table_title@.len(),
            spec_find_season(table_title@, 0) == spec_find_season(table_title@, p as int),
            spec_find_ym(table_title@, 0, '年', "月新番"@) is None,
            spec_find_ym(table_title@, 0, '年', "月"@) is None,
        decreases n - p,
    {
        if let Some(c) = season_match_at(table_title, n, p) {
            let mut out = String::new();
            out.append(table_title.substring_char(p, p + 4));
            out.append("年");
            out.append(season_month_str(c));
            out.append("月新番");
            proof {
                assert(out@ =~= spec_season_name(
                    table_title@,
                    now_year as int,
                    now_month as int,
                ));
            }
            return out;
        }
        p = p + 1;
    }
    let mut out = String::new();
    crate::text::push_decimal(&mut out, now_year as u64);
    out.append("年");
    if 1 <= now_month && now_month <= 3 {
        out.append("01");
    } else if 4 <= now_month && now_month <= 6 {
        out.append("04");
    } else if 7 <= now_month && now_month <= 9 {
        out.append("07");
    } else {
        out.append("10");
    }
    out.append("月新番");
    proof {
        assert(out@ =~= spec_season_name(table_title@, now_year as int, now_month as int));
    }
    out
}

/// Whether `pat` occurs anywhere in `s`.
pub open spec fn spec_contains(s: Seq<char>, pat: Seq<char>) -> bool {
    exists|p: int| 0 <= p && p + pat.len() <= s.len() && #[trigger] s.subrange(p, p + pat.len())
        == pat
}

pub fn text_contains(s: &str, pat: &str) -> (r: bool)
    ensures
        r == spec_contains(s@, pat@),
{
    let n = s.unicode_len();
    let pn = pat.unicode_len();
    if pn > n {
        return false;
    }
    if pn == 0 {
        proof {
            assert(spec_contains(s@, pat@)) by {
                assert(s@.subrange(0, 0 + pat@.len() as int) =~= pat@);
            }
        }
        return true;
    }
    let mut p: usize = 0;
    while p <= n - pn
        invariant
            1 <= pn <= n,
            p <= n - pn + 1,
            n == s@.len(),
            pn == pat@.len(),
            forall|q: int| 0 <= q < p ==> #[trigger] s@.subrange(q, q + pat@.len()) != pat@,
        decreases n - p,
    {
        if term_at(s, n, p, pat) {
            return true;
        }
        p = p + 1;
    }
    proof {
        assert forall|q: int| 0 <= q && q + pat@.len() <= s@.len() implies #[trigger] s@.subrange(
            q,
            q + pat@.len(),
        ) != pat@ by {
            assert(q < p);
        }
    }
    false
}

/// Whether a header cell names the title column.
pub open spec fn is_title_cell(c: Seq<char>) -> bool {
    spec_contains(c, "作品名"@) || spec_contains(c, "タイトル"@)
}

/// Whether a header cell names the air-date column (a title cell wins).
pub open spec fn is_date_cell(c: Seq<char>) -> bool {
    !is_title_cell(c) && spec_contains(c, "放送開始日"@)
}

/// The position the scan settles on: the last matching cell, if any.
pub open spec fn spec_header_col(
    h: Seq<Seq<char>>,
    i: int,
    acc: Option<int>,
    want_title: bool,
) -> Option<int>
    decreases h.len() - i,
{
    if i < 0 || i >= h.len() {
        acc
    } else {
        let hit = if want_title {
            is_title_cell(h[i])
        } else {
            is_date_cell(h[i])
        };
        spec_header_col(h, i + 1, if hit {
            Some(i)
        } else {
            acc
        }, want_title)
    }
}

fn header_col(header: &Vec<String>, want_title: bool) -> (r: Option<usize>)
    ensures
        match r {
            Some(k) => spec_header_col(header.deep_view(), 0, None, want_title) == Some(k as int)
                && k < header@.len(),
            None => spec_header_col(header.deep_view(), 0, None, want_title) is None,
        },
{
    let ghost h = header.deep_view();
    let mut acc: Option<usize> = None;
    let mut i: usize = 0;
    while i < header.len()
        invariant
            i <= h.len(),
            h == header.deep_view(),
            h.len() == header@.len(),
            match acc {
                Some(k) => k < i,
                None => true,
            },
            spec_header_col(h, 0, None, want_title) == spec_header_col(
                h,
                i as int,
                match acc {
                    Some(k) => Some(k as int),
                    None => None,
                },
                want_title,
            ),
        decreases h.len() - i,
    {
        proof {
            assert(h[i as int] == header@[i as int]@);
        }
        let cell = &header[i];
        let hit = if want_title {
            text_contains(cell.as_str(), "作品名") || text_contains(cell.as_str(), "タイトル")
        } else {
            !(text_contains(cell.as_str(), "作品名") || text_contains(cell.as_str(), "タイトル"))
                && text_contains(cell.as_str(), "放送開始日")
        };
        if hit {
            acc = Some(i);
        }
        i = i + 1;
    }
    acc
}

/// Whether a data row yields a work: both columns present, the title cell
/// non-empty, and the date cell already carrying a determined date.
pub open spec fn spec_row_kept(row: Seq<Seq<char>>, tc: int, dc: int) -> bool {
    &&& tc < row.len()
    &&& dc < row.len()
    &&& row[tc].len() > 0
    &&& spec_find_ymd(row[dc], 0, '/', '/', false) is Some
}

/// The rows that yield works, in order.
pub open spec fn spec_kept_rows(rows: Seq<Seq<Seq<char>>>, tc: int, dc: int) -> Seq<
    Seq<Seq<char>>,
>
    decreases rows.len(),
{
    if rows.len() == 0 {
        Seq::empty()
    } else {
        spec_kept_rows(rows.drop_last(), tc, dc) + (if spec_row_kept(rows.last(), tc, dc) {
            seq![rows.last()]
        } else {
            Seq::empty()
        })
    }
}

/// The title column of this header: the last cell naming it, else the first
/// column.
pub open spec fn spec_title_col(h: Seq<Seq<char>>) -> int {
    match spec_header_col(h, 0, None, true) {
        Some(k) => k,
        None => 0,
    }
}

/// The date column of this header: the last cell naming it, else the second
/// column.
pub open spec fn spec_date_col(h: Seq<Seq<char>>) -> int {
    match spec_header_col(h, 0, None, false) {
        Some(k) => k,
        None => 1,
    }
}

/// Turns a table's rows into works: locates the title and air-date columns
/// from the header cells, keeps every row with a non-empty title and a
/// determined date, and reads each kept row's air date.  Keywords start
/// empty; the title-cleaning stage fills them later.
pub fn parse_table_works(header: &Vec<String>, rows: &Vec<Vec<String>>) -> (r: Vec<AnimeWork>)
    ensures
        ({
            let tc = spec_title_col(header.deep_view());
            let dc = spec_date_col(header.deep_view());
            let kept = spec_kept_rows(rows.deep_view(), tc, dc);
            &&& r@.len() == kept.len()
            &&& forall|k: int|
                0 <= k < kept.len() ==> {
                    &&& (#[trigger] r@[k]).original_title@ == kept[k][tc]
                    &&& r@[k].cleaned_title@ == kept[k][tc]
                    &&& r@[k].air_date == spec_parse_air_date(kept[k][dc])
                    &&& r@[k].keywords.deep_view() =~= Seq::<Seq<char>>::empty()
                }
        }),
{
    let ghost h = header.deep_view();
    let ghost rdv = rows.deep_view();
    let tc = match header_col(header, true) {
        Some(k) => k,
        None => 0,
    };
    let dc = match header_col(header, false) {
        Some(k) => k,
        None => 1,
    };
    let mut r: Vec<AnimeWork> = Vec::new();
    let mut k: usize = 0;
    while k < rows.len()
        invariant
            k <= rdv.len(),
            h == header.deep_view(),
            rdv == rows.deep_view(),
            rdv.len() == rows@.len(),
            tc == spec_title_col(h),
            dc == spec_date_col(h),
            ({
                let kept = spec_kept_rows(rdv.take(k as int), tc as int, dc as int);
                &&& r@.len() == kept.len()
                &&& forall|j: int|
                    0 <= j < kept.len() ==> {
                        &&& (#[trigger] r@[j]).original_title@ == kept[j][tc as int]
                        &&& r@[j].cleaned_title@ == kept[j][tc as int]
                        &&& r@[j].air_date == spec_parse_air_date(kept[j][dc as int])
                        &&& r@[j].keywords.deep_view() =~= Seq::<Seq<char>>::empty()
                    }
            }),
        decreases rdv.len() - k,
    {
        let ghost row_v = rdv[k as int];
        proof {
            assert(row_v == rows@[k as int].deep_view());
            assert(rdv.take(k + 1).drop_last() =~= rdv.take(k as int));
            assert(rdv.take(k + 1).last() == row_v);
        }
        let row = &rows[k];
        if tc < row.len() && dc < row.len() {
            proof {
                assert(row_v[tc as int] == rows@[k as int]@[tc as int]@);
                assert(row_v[dc as int] == rows@[k as int]@[dc as int]@);
            }
            let title = &row[tc];
            let date = &row[dc];
            if title.as_str().unicode_len() > 0 && !is_undetermined_date(date.as_str()) {
                let air_date = parse_air_date(date.as_str());
                let work = AnimeWork {
                    original_title: title.clone(),
                    cleaned_title: title.clone(),
                    air_date,
                    keywords: Vec::new(),
                };
                proof {
                    assert(work.keywords.deep_view() =~= Seq::<Seq<char>>::empty());
                    assert(spec_row_kept(row_v, tc as int, dc as int));
                }
                r.push(work);
            } else {
                proof {
                    assert(!spec_row_kept(row_v, tc as int, dc as int));
                }
            }
        } else {
            proof {
                assert(!spec_row_kept(row_v, tc as int, dc as int));
            }
        }
        proof {
            let kept = spec_kept_rows(rdv.take(k + 1), tc as int, dc as int);
            let kept0 = spec_kept_rows(rdv.take(k as int), tc as int, dc as int);
            if spec_row_kept(row_v, tc as int, dc as int) {
                assert(kept =~= kept0 + seq![row_v]);
            } else {
                assert(kept =~= kept0);
            }
        }
        k = k + 1;
    }
    proof {
        assert(rdv.take(rdv.len() as int) =~= rdv);
    }
    r
}

} // verus!
