//! Durations as XML Schema writes them: `P1DT2H30M5.5S`.

use vstd::prelude::*;
use vstd::slice::slice_subrange;

use crate::decimal;
use crate::decimal::{capped_value, digits_end_from, parse_scaled};
use crate::number;
use crate::text;
use crate::text::{chars_of, digit, to_lower_char};

verus! {

/// The text is neither a duration nor a number.
#[derive(Debug)]
pub struct InvalidDuration;

/// Whether `c` is the letter `l` (in lower case) in either case.
pub open spec fn is_letter(c: char, l: char) -> bool {
    text::lower_char(c) == l || (l == 's' && c == '\u{17f}')
}

/// The first position at or after `from` that holds neither a digit nor a point.
pub open spec fn seconds_end(s: Seq<char>, from: int) -> int
    decreases s.len() - from,
{
    if 0 <= from < s.len() && (text::is_digit(s[from]) || s[from] == '.') {
        seconds_end(s, from + 1)
    } else {
        from
    }
}

/// A field at position `i`: its value text, and the position after it. A field
/// that is not there has an empty value and takes no room.
pub open spec fn field_at(s: Seq<char>, i: int, end: int, l: char) -> (Seq<char>, int) {
    if i <= end < s.len() && is_letter(s[end], l) {
        (s.subrange(i, end), end + 1)
    } else {
        (Seq::empty(), i)
    }
}

/// A field of digits with the letter `l` at position `i`.
pub open spec fn field(s: Seq<char>, i: int, l: char) -> (Seq<char>, int) {
    field_at(s, i, decimal::digits_end(s, i), l)
}

/// The value texts of a duration's fields.
#[verifier::ext_equal]
pub struct XsFields {
    pub negative: bool,
    pub years: Seq<char>,
    pub months: Seq<char>,
    pub days: Seq<char>,
    pub hours: Seq<char>,
    pub minutes: Seq<char>,
    pub seconds: Seq<char>,
}

/// The fields of a duration: an optional minus sign, `P`, years, months and days,
/// then after `T` hours, minutes and seconds. Every field may be missing.
pub open spec fn xs_fields(s: Seq<char>) -> Option<XsFields> {
    let negative = s.len() > 0 && s[0] == '-';
    let p = if negative {
        1int
    } else {
        0int
    };
    if p < s.len() && is_letter(s[p], 'p') {
        let (years, i1) = field(s, p + 1, 'y');
        let (months, i2) = field(s, i1, 'm');
        let (days, i3) = field(s, i2, 'd');
        if i3 < s.len() && is_letter(s[i3], 't') {
            let (hours, i4) = field(s, i3 + 1, 'h');
            let (minutes, i5) = field(s, i4, 'm');
            let (seconds, i6) = field_at(s, i5, seconds_end(s, i5), 's');
            if i6 == s.len() {
                Some(XsFields { negative, years, months, days, hours, minutes, seconds })
            } else {
                None
            }
        } else if i3 == s.len() {
            Some(
                XsFields {
                    negative,
                    years,
                    months,
                    days,
                    hours: Seq::empty(),
                    minutes: Seq::empty(),
                    seconds: Seq::empty(),
                },
            )
        } else {
            None
        }
    } else {
        None
    }
}

/// The milliseconds of the seconds field, where it writes a number or is empty.
pub open spec fn seconds_millis(s: Seq<char>) -> Option<int> {
    if s.len() == 0 {
        Some(0)
    } else {
        decimal::scaled_text(s, 1000)
    }
}

/// The milliseconds of the fields before the seconds: a year counts 31 556 908
/// seconds and a month 2 629 739.
pub open spec fn whole_millis(f: XsFields) -> nat {
    1000 * (number::dec_value(f.years) * 31_556_908 + number::dec_value(f.months) * 2_629_739
        + number::dec_value(f.days) * 86_400 + number::dec_value(f.hours) * 3600
        + number::dec_value(f.minutes) * 60)
}

/// The duration in milliseconds, held to the range of `i64`. A text that is not a
/// duration is read as a number of hours.
pub open spec fn xs_duration(s: Seq<char>) -> Option<int> {
    match xs_fields(s) {
        Some(f) => match seconds_millis(f.seconds) {
            Some(ms) => {
                let total = whole_millis(f) + ms;
                let held = if total > i64::MAX {
                    i64::MAX as int
                } else {
                    total
                };
                Some(
                    if f.negative {
                        -held
                    } else {
                        held
                    },
                )
            },
            None => None,
        },
        None => decimal::scaled_text(s, 3_600_000),
    }
}

fn letter(c: char, l: char) -> (r: bool)
    ensures
        r == is_letter(c, l),
{
    to_lower_char(c) == l || (l == 's' && c == '\u{17f}')
}

fn seconds_end_from(s: &[char], from: usize) -> (r: usize)
    requires
        from <= s.len(),
    ensures
        r == seconds_end(s@, from as int),
        from <= r <= s.len(),
{
    let mut i: usize = from;
    while i < s.len() && (digit(s[i]) || s[i] == '.')
        invariant
            from <= i <= s.len(),
            seconds_end(s@, from as int) == seconds_end(s@, i as int),
        decreases s.len() - i,
    {
        i += 1;
    }
    i
}

fn take_field_at<'a>(s: &'a [char], i: usize, end: usize, l: char) -> (r: (&'a [char], usize))
    requires
        i <= end <= s.len(),
    ensures
        (r.0@, r.1 as int) == field_at(s@, i as int, end as int, l),
        i <= r.1 <= s.len(),
{
    if end < s.len() && letter(s[end], l) {
        (slice_subrange(s, i, end), end + 1)
    } else {
        let none = slice_subrange(s, i, i);
        assert(none@ =~= Seq::empty());
        (none, i)
    }
}

fn take_field<'a>(s: &'a [char], i: usize, l: char) -> (r: (&'a [char], usize))
    requires
        i <= s.len(),
    ensures
        (r.0@, r.1 as int) == field(s@, i as int, l),
        i <= r.1 <= s.len(),
        number::all_digits(r.0@),
{
    let end: usize = digits_end_from(s, i);
    proof {
        decimal::lemma_digits_end(s@, i as int);
    }
    take_field_at(s, i, end, l)
}

/// The value of a run of digits, held to the range of `i64`.
fn whole(d: &[char]) -> (r: u128)
    requires
        number::all_digits(d@),
    ensures
        r == decimal::held(number::dec_value(d@), 0x7fff_ffff_ffff_ffff),
        r <= 0x7fff_ffff_ffff_ffff,
{
    match capped_value(d, 0x7fff_ffff_ffff_ffff) {
        Some(v) => v as u128,
        None => 0,
    }
}

proof fn lemma_seconds_not_negative(s: Seq<char>, i: int)
    requires
        0 <= i <= s.len(),
    ensures
        i <= seconds_end(s, i) <= s.len(),
        forall|j: int|
            i <= j < seconds_end(s, i) ==> text::is_digit(#[trigger] s[j]) || s[j] == '.',
    decreases s.len() - i,
{
    if i < s.len() && (text::is_digit(s[i]) || s[i] == '.') {
        lemma_seconds_not_negative(s, i + 1);
    }
}

/// Digits and points never write a negative number.
proof fn lemma_plain_number(s: Seq<char>)
    requires
        s.len() > 0,
        text::is_digit(s[0]) || s[0] == '.',
    ensures
        decimal::parsed_decimal(s) matches Some(v) ==> decimal::scaled(v, 1000) >= 0,
{
    reveal_strlit("inf");
    reveal_strlit("infinity");
    reveal_strlit("nan");
    let word = text::lower(s);
    assert(word[0] == text::lower_char(s[0]));
}

/// The total of the fields in milliseconds.
fn total_millis(
    years: &[char],
    months: &[char],
    days: &[char],
    hours: &[char],
    minutes: &[char],
    seconds_ms: i64,
) -> (r: i64)
    requires
        number::all_digits(years@),
        number::all_digits(months@),
        number::all_digits(days@),
        number::all_digits(hours@),
        number::all_digits(minutes@),
        seconds_ms >= 0,
    ensures
        r >= 0,
        r == decimal::held(
            (1000 * (number::dec_value(years@) * 31_556_908 + number::dec_value(months@) * 2_629_739
                + number::dec_value(days@) * 86_400 + number::dec_value(hours@) * 3600
                + number::dec_value(minutes@) * 60) + seconds_ms) as nat,
            0x7fff_ffff_ffff_ffff,
        ),
{
    let total: u128 = 1000 * (whole(years) * 31_556_908 + whole(months) * 2_629_739 + whole(days)
        * 86_400 + whole(hours) * 3600 + whole(minutes) * 60) + seconds_ms as u128;
    if total > 0x7fff_ffff_ffff_ffff {
        i64::MAX
    } else {
        total as i64
    }
}

/// Reads a duration, in milliseconds.
pub fn parse_xs_duration(value: &str) -> (r: Result<i64, InvalidDuration>)
    ensures
        match r {
            Ok(v) => xs_duration(value@) == Some(v as int),
            Err(_) => xs_duration(value@) is None,
        },
{
    let cs = chars_of(value);
    let s = cs.as_slice();
    let negative: bool = s.len() > 0 && s[0] == '-';
    let p: usize = if negative {
        1
    } else {
        0
    };
    let mut matched: bool = false;
    let mut millis: Option<i64> = None;
    if p < s.len() && letter(s[p], 'p') {
        let (years, i1) = take_field(s, p + 1, 'y');
        let (months, i2) = take_field(s, i1, 'm');
        let (days, i3) = take_field(s, i2, 'd');
        if i3 < s.len() && letter(s[i3], 't') {
            let (hours, i4) = take_field(s, i3 + 1, 'h');
            let (minutes, i5) = take_field(s, i4, 'm');
            let end: usize = seconds_end_from(s, i5);
            let (seconds, i6) = take_field_at(s, i5, end, 's');
            if i6 == s.len() {
                matched = true;
                let ms: Option<i64> = if seconds.len() == 0 {
                    Some(0)
                } else {
                    proof {
                        lemma_seconds_not_negative(s@, i5 as int);
                        assert(text::is_digit(s@[i5 as int]) || s@[i5 as int] == '.');
                        assert(seconds@[0] == s@[i5 as int]);
                        lemma_plain_number(seconds@);
                    }
                    parse_scaled(seconds, 1000)
                };
                millis = match ms {
                    Some(v) => Some(total_millis(years, months, days, hours, minutes, v)),
                    None => None,
                };
            }
        } else if i3 == s.len() {
            matched = true;
            let none = slice_subrange(s, 0, 0);
            assert(none@ =~= Seq::empty());
            millis = Some(total_millis(years, months, days, none, none, 0));
        }
    }
    if matched {
        match millis {
            Some(v) => Ok(
                if negative {
                    -v
                } else {
                    v
                },
            ),
            None => Err(InvalidDuration),
        }
    } else {
        match parse_scaled(s, 3_600_000) {
            Some(v) => Ok(v),
            None => Err(InvalidDuration),
        }
    }
}

} // verus!
