//! The date scanner: `digits "/" digits "/" digits`, interpreted as a
//! year / month / day-of-month triple and checked against the proleptic
//! Gregorian calendar.
//!
//! The year group may hold one to four digits, the month and day groups
//! one or two; month and day therefore accept both padded and unpadded
//! forms.  Digit runs of any other width, and triples that name no real
//! calendar day, are format errors.

use vstd::prelude::*;
use vstd::slice::slice_subrange;

use crate::chars::{dec_value, digit_run_len, is_digit, lemma_digit_run_len, scan_digit_run};
use crate::error::{err_at, ContextLabel, ErrorKind, ParseError};

verus! {

/// A validated calendar date.  The parser only produces values for which
/// `Date::valid` holds.
#[derive(Debug, Clone, Copy, PartialEq, Eq, Structural)]
pub struct Date {
    pub year: u32,
    pub month: u32,
    pub day: u32,
}

/// A leap year in the proleptic Gregorian calendar.
pub open spec fn is_leap_year(y: nat) -> bool {
    y % 4 == 0 && (y % 100 != 0 || y % 400 == 0)
}

/// How many days the given month of the given year has.
pub open spec fn days_in_month(y: nat, m: nat) -> nat {
    if m == 2 {
        if is_leap_year(y) {
            29
        } else {
            28
        }
    } else if m == 4 || m == 6 || m == 9 || m == 11 {
        30
    } else {
        31
    }
}

/// A real calendar day: the month is in range and the day fits the month,
/// leap-year February included.
pub open spec fn valid_ymd(y: nat, m: nat, d: nat) -> bool {
    1 <= m <= 12 && 1 <= d <= days_in_month(y, m)
}

impl Date {
    /// Whether this triple names a real calendar day.
    pub open spec fn valid(self) -> bool {
        valid_ymd(self.year as nat, self.month as nat, self.day as nat)
    }

    /// Whether this date falls strictly before `other`.
    pub open spec fn spec_before(self, other: Date) -> bool {
        ||| self.year < other.year
        ||| (self.year == other.year && self.month < other.month)
        ||| (self.year == other.year && self.month == other.month && self.day < other.day)
    }

    /// Compares two dates chronologically.
    pub fn before(&self, other: &Date) -> (r: bool)
        ensures
            r == self.spec_before(*other),
    {
        self.year < other.year || (self.year == other.year && self.month < other.month) || (
        self.year == other.year && self.month == other.month && self.day < other.day)
    }
}

/// Whether the given year / month / day triple names a real calendar day.
pub fn check_ymd(y: u32, m: u32, d: u32) -> (r: bool)
    ensures
        r == valid_ymd(y as nat, m as nat, d as nat),
{
    if m < 1 || m > 12 || d < 1 {
        return false;
    }
    let leap = y % 4 == 0 && (y % 100 != 0 || y % 400 == 0);
    let limit: u32 = if m == 2 {
        if leap {
            29
        } else {
            28
        }
    } else if m == 4 || m == 6 || m == 9 || m == 11 {
        30
    } else {
        31
    };
    d <= limit
}

/// Where the month digits start: just past the year run and its slash.
pub open spec fn month_off(s: Seq<char>) -> nat {
    digit_run_len(s) + 1
}

/// Where the day digits start: just past the month run and its slash.
pub open spec fn day_off(s: Seq<char>) -> nat {
    month_off(s) + digit_run_len(s.skip(month_off(s) as int)) + 1
}

/// Whether `s` begins with the `digits "/" digits "/" digits` shape.
pub open spec fn date_shape(s: Seq<char>) -> bool {
    let y = digit_run_len(s);
    let m = digit_run_len(s.skip(month_off(s) as int));
    let d = digit_run_len(s.skip(day_off(s) as int));
    &&& y > 0
    &&& y < s.len()
    &&& s[y as int] == '/'
    &&& m > 0
    &&& month_off(s) + m < s.len()
    &&& s[month_off(s) + m as int] == '/'
    &&& d > 0
}

/// How many characters the date at the front of `s` spans.
pub open spec fn date_len(s: Seq<char>) -> nat {
    day_off(s) + digit_run_len(s.skip(day_off(s) as int))
}

/// Whether the three digit runs have interpretable widths: up to four
/// year digits and up to two month and day digits.
pub open spec fn date_widths_ok(s: Seq<char>) -> bool {
    &&& digit_run_len(s) <= 4
    &&& digit_run_len(s.skip(month_off(s) as int)) <= 2
    &&& digit_run_len(s.skip(day_off(s) as int)) <= 2
}

/// The triple named by the three digit runs of `s`.
pub open spec fn date_value(s: Seq<char>) -> Date {
    Date {
        year: dec_value(s.take(digit_run_len(s) as int)) as u32,
        month: dec_value(
            s.skip(month_off(s) as int).take(digit_run_len(s.skip(month_off(s) as int)) as int),
        ) as u32,
        day: dec_value(
            s.skip(day_off(s) as int).take(digit_run_len(s.skip(day_off(s) as int)) as int),
        ) as u32,
    }
}

/// What scanning a date from `s` yields: the consumed length and the
/// validated triple, or the kind of failure.  A missing digit run is a
/// lexical error; a malformed shape, an over-wide digit run, and a triple
/// that names no real calendar day are format errors.
pub open spec fn spec_date(s: Seq<char>) -> Result<(nat, Date), ErrorKind> {
    if !date_shape(s) {
        if digit_run_len(s) == 0 || (digit_run_len(s) < s.len() && s[digit_run_len(s) as int]
            == '/' && digit_run_len(s.skip(month_off(s) as int)) == 0) || (date_mid_shape(s)
            && digit_run_len(s.skip(day_off(s) as int)) == 0) {
            Err(ErrorKind::LexicalError)
        } else {
            Err(ErrorKind::FormatError)
        }
    } else if !(date_widths_ok(s) && date_value(s).valid()) {
        Err(ErrorKind::FormatError)
    } else {
        Ok((date_len(s), date_value(s)))
    }
}

/// Whether the year and month groups with their slashes are in place, so
/// that only the day run remains to be checked.
pub open spec fn date_mid_shape(s: Seq<char>) -> bool {
    let y = digit_run_len(s);
    let m = digit_run_len(s.skip(month_off(s) as int));
    &&& y > 0
    &&& y < s.len()
    &&& s[y as int] == '/'
    &&& m > 0
    &&& month_off(s) + m < s.len()
    &&& s[month_off(s) + m as int] == '/'
}

/// A date never runs past the end of the input.
pub proof fn lemma_date_len_le(s: Seq<char>)
    requires
        date_shape(s),
    ensures
        date_len(s) <= s.len(),
{
    lemma_digit_run_len(s);
    lemma_digit_run_len(s.skip(month_off(s) as int));
    lemma_digit_run_len(s.skip(day_off(s) as int));
}

/// A shaped date with one-to-four year digits and one-or-two month and
/// day digits is accepted exactly when its triple names a real calendar
/// day: padded and unpadded month and day forms parse alike.
pub proof fn lemma_date_accepts_valid(s: Seq<char>)
    requires
        date_shape(s),
        date_widths_ok(s),
        date_value(s).valid(),
    ensures
        spec_date(s) == Ok::<(nat, Date), ErrorKind>((date_len(s), date_value(s))),
{
}

/// A shaped date whose triple is out of range is rejected: a month of
/// thirteen or more, a day of thirty-two or more, and any other triple
/// that names no real calendar day all make the scan fail.
pub proof fn lemma_date_rejects_invalid(s: Seq<char>)
    requires
        date_shape(s),
        date_value(s).month >= 13 || date_value(s).day >= 32 || !date_value(s).valid(),
    ensures
        spec_date(s) is Err,
{
}

/// Reads the value of a digit run of at most four digits.
pub(crate) fn run_value(digits: &[char]) -> (v: u32)
    requires
        digits@.len() <= 4,
        forall|i: int| 0 <= i < digits@.len() ==> is_digit(#[trigger] digits@[i]),
    ensures
        v == dec_value(digits@),
{
    let mut v: u32 = 0;
    let mut i: usize = 0;
    proof {
        assert(digits@.take(0) =~= Seq::<char>::empty());
        lemma_dec_value_bound(digits@);
    }
    while i < digits.len()
        invariant
            0 <= i <= digits@.len() <= 4,
            forall|j: int| 0 <= j < digits@.len() ==> is_digit(#[trigger] digits@[j]),
            v == dec_value(digits@.take(i as int)),
            v < 10000,
        decreases digits@.len() - i,
    {
        let c = digits[i];
        proof {
            assert(digits@.take(i + 1).drop_last() =~= digits@.take(i as int));
            assert(digits@.take(i + 1).last() == digits@[i as int]);
            lemma_dec_value_bound(digits@.take(i + 1));
        }
        v = v * 10 + (c as u32 - 48);
        i = i + 1;
    }
    proof {
        assert(digits@.take(digits@.len() as int) =~= digits@);
    }
    v
}

/// The value of a short digit run is small: fewer than `10^k` for a run
/// of `k <= 4` digits.
pub proof fn lemma_dec_value_bound(s: Seq<char>)
    requires
        forall|i: int| 0 <= i < s.len() ==> is_digit(#[trigger] s[i]),
    ensures
        s.len() <= 1 ==> dec_value(s) < 10,
        s.len() <= 2 ==> dec_value(s) < 100,
        s.len() <= 3 ==> dec_value(s) < 1000,
        s.len() <= 4 ==> dec_value(s) < 10000,
    decreases s.len(),
{
    if s.len() > 0 {
        lemma_dec_value_bound(s.drop_last());
    }
}

/// Scans the date at the front of `input` and interprets it.
///
/// Succeeds exactly when the `digits "/" digits "/" digits` shape is
/// present, the runs have interpretable widths, and the triple names a
/// real calendar day; the consumed text is exactly the three runs and
/// their slashes.
pub fn date(input: &[char]) -> (r: Result<(&[char], Date), ParseError>)
    ensures
        match r {
            Ok((leftover, value)) => {
                &&& spec_date(input@) == Ok::<_, ErrorKind>((date_len(input@), value))
                &&& value.valid()
                &&& leftover@ == input@.skip(date_len(input@) as int)
            },
            Err(e) => {
                &&& spec_date(input@) is Err
                &&& e@ == err_at(
                    spec_date(input@)->Err_0,
                    input@.len(),
                    ContextLabel::Date,
                )
            },
        },
{
    let n = input.len();
    let y_len = scan_digit_run(input);
    proof {
        lemma_digit_run_len(input@);
    }
    if y_len == 0 {
        return Err(ParseError::new(ErrorKind::LexicalError, n, ContextLabel::Date));
    }
    if y_len == n || input[y_len] != '/' {
        return Err(ParseError::new(ErrorKind::FormatError, n, ContextLabel::Date));
    }
    let m_start = y_len + 1;
    let m_slice = slice_subrange(input, m_start, n);
    proof {
        assert(m_slice@ =~= input@.skip(month_off(input@) as int));
    }
    let m_len = scan_digit_run(m_slice);
    proof {
        lemma_digit_run_len(input@.skip(month_off(input@) as int));
    }
    if m_len == 0 {
        return Err(ParseError::new(ErrorKind::LexicalError, n, ContextLabel::Date));
    }
    if m_start + m_len == n || input[m_start + m_len] != '/' {
        return Err(ParseError::new(ErrorKind::FormatError, n, ContextLabel::Date));
    }
    let d_start = m_start + m_len + 1;
    let d_slice = slice_subrange(input, d_start, n);
    proof {
        assert(d_slice@ =~= input@.skip(day_off(input@) as int));
    }
    let d_len = scan_digit_run(d_slice);
    proof {
        lemma_digit_run_len(input@.skip(day_off(input@) as int));
    }
    if d_len == 0 {
        return Err(ParseError::new(ErrorKind::LexicalError, n, ContextLabel::Date));
    }
    if y_len > 4 || m_len > 2 || d_len > 2 {
        return Err(ParseError::new(ErrorKind::FormatError, n, ContextLabel::Date));
    }
    let y_digits = slice_subrange(input, 0, y_len);
    let m_digits = slice_subrange(input, m_start, m_start + m_len);
    let d_digits = slice_subrange(input, d_start, d_start + d_len);
    proof {
        assert(y_digits@ =~= input@.take(digit_run_len(input@) as int));
        assert(m_digits@ =~= input@.skip(month_off(input@) as int).take(
            digit_run_len(input@.skip(month_off(input@) as int)) as int,
        ));
        assert(d_digits@ =~= input@.skip(day_off(input@) as int).take(
            digit_run_len(input@.skip(day_off(input@) as int)) as int,
        ));
    }
    let year = run_value(y_digits);
    let month = run_value(m_digits);
    let day = run_value(d_digits);
    let value = Date { year, month, day };
    if !check_ymd(year, month, day) {
        return Err(ParseError::new(ErrorKind::FormatError, n, ContextLabel::Date));
    }
    let leftover = slice_subrange(input, d_start + d_len, n);
    proof {
        assert(leftover@ =~= input@.skip(date_len(input@) as int));
    }
    Ok((leftover, value))
}

} // verus!
