//! Presentation rules shared by the screens: the candidate calendar, candidate toggling,
//! labels, user-facing failure messages and share-button state.

use vstd::prelude::*;
use vstd::string::*;
use crate::domain::account::AccountAuthErrors;
use crate::domain::event::{
    candidates_view, copy_candidate, CandidateInput, EventCreationErrors, EVENT_CANDIDATE_MAX_COUNT,
};
use crate::domain::organizer::{CandidateSummaryFact, OrganizerEventSummary};
use crate::domain::response::{Availability, AvailabilityResponseErrors};
use crate::domain::fields::{
    days_in_month, four_char_number, is_leap_year, is_local_time, local_time_is_valid,
    parse_two_chars, two_char_number,
};
use crate::text::{
    all_digits, char_is_ascii_digit, decimal, digits_value, is_ascii_digit, push_char,
    find_char, first_index, lemma_first_index, push_decimal, str_eq, trim, trimmed,
};

verus! {

/// The time a candidate picked on the calendar starts at unless changed.
pub const DEFAULT_CANDIDATE_TIME: &'static str = "19:00";

/// One Gregorian month used only to lay out the inline candidate calendar.
#[derive(Clone, Copy, Debug, PartialEq, Eq, Structural)]
pub struct CalendarMonth {
    pub year: i32,
    pub month: u8,
}

/// Years 1 to 9999 and months 1 to 12.
pub open spec fn is_calendar_month(year: int, month: int) -> bool {
    1 <= year <= 9999 && 1 <= month <= 12
}

/// The month of a `YYYY-MM-DD` date: ten characters with `-` at positions 4 and 7, a year
/// of four digits (or `+` and three), a month and a day of two digits (or `+` and one),
/// naming an existing day of a month of years 1 to 9999.
pub open spec fn iso_date_month(v: Seq<char>) -> Option<CalendarMonth> {
    if v.len() == 10 && v[4] == '-' && v[7] == '-' {
        match (
            four_char_number(v.take(4)),
            two_char_number(v[5], v[6]),
            two_char_number(v[8], v[9]),
        ) {
            (Some(y), Some(m), Some(d)) => if is_calendar_month(y as int, m as int) && 1 <= d
                <= days_in_month(y as int, m as int) {
                Some(CalendarMonth { year: y as i32, month: m as u8 })
            } else {
                None
            },
            _ => None,
        }
    } else {
        None
    }
}

/// `s` padded on the left with zeros to `width` characters.
pub open spec fn zero_padded(s: Seq<char>, width: int) -> Seq<char> {
    if s.len() < width {
        Seq::new((width - s.len()) as nat, |i: int| '0') + s
    } else {
        s
    }
}

/// An integer as `{}` writes it.
pub open spec fn int_text(n: int) -> Seq<char> {
    if n >= 0 {
        decimal(n as nat)
    } else {
        seq!['-'] + decimal((-n) as nat)
    }
}

/// An integer as `{:04}` writes it: zero-padded to four characters, sign included.
pub open spec fn year_text(n: int) -> Seq<char> {
    if n >= 0 {
        zero_padded(decimal(n as nat), 4)
    } else {
        seq!['-'] + zero_padded(decimal((-n) as nat), 3)
    }
}

/// Days from 1970-01-01 to the given proleptic Gregorian date, counted from March-based
/// years in 400-year eras.
#[verifier::opaque]
pub open spec fn days_from_civil(y: int, m: int, d: int) -> int {
    let ay = y - (if m <= 2 {
        1int
    } else {
        0int
    });
    let era = ay / 400;
    let yoe = ay - era * 400;
    let sm = m + (if m > 2 {
        -3int
    } else {
        9int
    });
    let doy = (153 * sm + 2) / 5 + d - 1;
    let doe = yoe * 365 + yoe / 4 - yoe / 100 + doy;
    era * 146097 + doe - 719468
}

/// The weekday of a date, Sunday being zero.
pub open spec fn weekday_of(y: int, m: int, d: int) -> int {
    (days_from_civil(y, m, d) + 4) % 7
}

/// 1970-01-01 was a Thursday.
#[verifier::spinoff_prover]
pub proof fn lemma_epoch_is_thursday()
    ensures
        days_from_civil(1970, 1, 1) == 0,
        weekday_of(1970, 1, 1) == 4,
{
    reveal(days_from_civil);
    assert(days_from_civil(1970, 1, 1) == 0);
}

/// Within a month each day falls one weekday after the day before it.
#[verifier::spinoff_prover]
pub proof fn lemma_next_day_next_weekday(y: int, m: int, d: int)
    ensures
        days_from_civil(y, m, d + 1) == days_from_civil(y, m, d) + 1,
        weekday_of(y, m, d + 1) == (weekday_of(y, m, d) + 1) % 7,
{
    reveal(days_from_civil);
}

/// The first of a month falls one weekday after the last day of the month before it,
/// for the months that share a March-based year (all but March and January).
#[verifier::spinoff_prover]
pub proof fn lemma_next_month_next_weekday(y: int, m: int)
    requires
        1 <= m <= 11,
        m != 2,
    ensures
        days_from_civil(y, m + 1, 1) == days_from_civil(y, m, days_in_month(y, m)) + 1,
        weekday_of(y, m + 1, 1) == (weekday_of(y, m, days_in_month(y, m)) + 1) % 7,
{
    reveal(days_from_civil);
    let d = days_in_month(y, m);
    let sm = m + (if m > 2 { -3int } else { 9int });
    assert((153 * (sm + 1) + 2) / 5 == (153 * sm + 2) / 5 + d) by {
        if m == 1 {
        } else if m == 3 {
        } else if m == 4 {
        } else if m == 5 {
        } else if m == 6 {
        } else if m == 7 {
        } else if m == 8 {
        } else if m == 9 {
        } else if m == 10 {
        } else {
        }
    }
    assert(days_from_civil(y, m + 1, 1) == days_from_civil(y, m, d) + 1);
}

/// The year turns over without a jump: 1 January follows 31 December by one weekday.
#[verifier::spinoff_prover]
pub proof fn lemma_new_year_next_weekday(y: int)
    ensures
        days_from_civil(y + 1, 1, 1) == days_from_civil(y, 12, 31) + 1,
        weekday_of(y + 1, 1, 1) == (weekday_of(y, 12, 31) + 1) % 7,
{
    reveal(days_from_civil);
}

#[verifier::spinoff_prover]
proof fn lemma_step_quotient(x: int, n: int)
    requires
        1 <= x,
        n == 4 || n == 100,
    ensures
        x / n - (x - 1) / n == if x % n == 0 {
            1int
        } else {
            0int
        },
{
}

#[verifier::spinoff_prover]
proof fn lemma_multiple_of_400(k: int)
    ensures
        (400 * k) % 4 == 0,
        (400 * k) % 100 == 0,
        (400 * k) % 400 == 0,
        (400 * k) / 400 == k,
{
    assert((400 * k) % 4 == 0) by {
        vstd::arithmetic::div_mod::lemma_mod_multiples_basic(100 * k, 4);
    }
    assert((400 * k) % 100 == 0) by {
        vstd::arithmetic::div_mod::lemma_mod_multiples_basic(4 * k, 100);
    }
    vstd::arithmetic::div_mod::lemma_mod_multiples_basic(k, 400);
    vstd::arithmetic::div_mod::lemma_div_multiples_vanish(k, 400);
}

#[verifier::rlimit(50)]
#[verifier::spinoff_prover]
proof fn lemma_february_in_400th_year(y: int)
    requires
        (y - 1) - ((y - 1) / 400) * 400 == 399,
    ensures
        days_from_civil(y, 3, 1) == days_from_civil(y, 2, days_in_month(y, 2)) + 1,
{
    reveal(days_from_civil);
    let era = (y - 1) / 400;
    assert(y == 400 * (era + 1));
    lemma_multiple_of_400(era + 1);
    assert(days_in_month(y, 2) == 29);
    assert(days_from_civil(y, 3, 1) == (era + 1) * 146097 - 719468);
    assert(days_from_civil(y, 2, 29) == era * 146097 + 146096 - 719468);
}

#[verifier::rlimit(50)]
#[verifier::spinoff_prover]
proof fn lemma_february_in_other_years(y: int)
    requires
        (y - 1) - ((y - 1) / 400) * 400 != 399,
    ensures
        days_from_civil(y, 3, 1) == days_from_civil(y, 2, days_in_month(y, 2)) + 1,
{
    reveal(days_from_civil);
    let era = (y - 1) / 400;
    let x = (y - 1) - era * 400 + 1;
    assert(1 <= x < 400);
    assert(y == 400 * era + x);
    vstd::arithmetic::div_mod::lemma_div_multiples_vanish_fancy(era, x, 400);
    vstd::arithmetic::div_mod::lemma_mod_multiples_vanish(100 * era, x, 4);
    vstd::arithmetic::div_mod::lemma_mod_multiples_vanish(4 * era, x, 100);
    vstd::arithmetic::div_mod::lemma_mod_multiples_vanish(era, x, 400);
    assert(y % 4 == x % 4);
    assert(y % 100 == x % 100);
    assert(y % 400 == x % 400);
    assert(y / 400 == era);
    lemma_step_quotient(x, 4);
    lemma_step_quotient(x, 100);
    let dim = days_in_month(y, 2);
    assert(days_from_civil(y, 3, 1) == era * 146097 + x * 365 + x / 4 - x / 100 - 719468);
    assert(days_from_civil(y, 2, dim) == era * 146097 + (x - 1) * 365 + (x - 1) / 4 - (x - 1)
        / 100 + 336 + dim - 719468);
}

/// 1 March follows the last day of February by one weekday, leap year or not.
#[verifier::rlimit(50)]
#[verifier::spinoff_prover]
pub proof fn lemma_march_follows_february(y: int)
    ensures
        days_from_civil(y, 3, 1) == days_from_civil(y, 2, days_in_month(y, 2)) + 1,
        weekday_of(y, 3, 1) == (weekday_of(y, 2, days_in_month(y, 2)) + 1) % 7,
{
    if (y - 1) - ((y - 1) / 400) * 400 == 399 {
        lemma_february_in_400th_year(y);
    } else {
        lemma_february_in_other_years(y);
    }
}

fn parse_four_chars(s: &str) -> (r: Option<u32>)
    requires
        s@.len() == 4,
    ensures
        match r {
            Some(v) => four_char_number(s@) == Some(v as nat),
            None => four_char_number(s@) is None,
        },
{
    let c0 = s.get_char(0);
    let c1 = s.get_char(1);
    let c2 = s.get_char(2);
    let c3 = s.get_char(3);
    let ghost v = s@;
    assert(v =~= seq![c0, c1, c2, c3]);
    assert(v.drop_first() =~= seq![c1, c2, c3]);
    assert(seq![c1, c2].drop_last() =~= seq![c1]);
    assert(seq![c1, c2, c3].drop_last() =~= seq![c1, c2]);
    assert(seq![c0, c1].drop_last() =~= seq![c0]);
    assert(seq![c0, c1, c2].drop_last() =~= seq![c0, c1]);
    assert(seq![c0, c1, c2, c3].drop_last() =~= seq![c0, c1, c2]);
    assert(seq![c1].drop_last() =~= Seq::<char>::empty());
    assert(seq![c0].drop_last() =~= Seq::<char>::empty());
    let tail = char_is_ascii_digit(c1) && char_is_ascii_digit(c2) && char_is_ascii_digit(c3);
    if !tail {
        proof {
            if !is_ascii_digit(c1) {
                assert(!is_ascii_digit(v[1]) && !is_ascii_digit(v.drop_first()[0]));
            } else if !is_ascii_digit(c2) {
                assert(!is_ascii_digit(v[2]) && !is_ascii_digit(v.drop_first()[1]));
            } else {
                assert(!is_ascii_digit(v[3]) && !is_ascii_digit(v.drop_first()[2]));
            }
        }
        return None;
    }
    let low = (c1 as u32 - 48) * 100 + (c2 as u32 - 48) * 10 + (c3 as u32 - 48);
    if char_is_ascii_digit(c0) {
        let value = (c0 as u32 - 48) * 1000 + low;
        assert(four_char_number(v) == Some(value as nat)) by {
            reveal_with_fuel(digits_value, 5);
            assert(all_digits(v));
        }
        Some(value)
    } else if c0 == '+' {
        assert(four_char_number(v) == Some(low as nat)) by {
            reveal_with_fuel(digits_value, 5);
            assert(!is_ascii_digit(v[0]));
            assert(all_digits(v.drop_first()));
        }
        Some(low)
    } else {
        assert(!is_ascii_digit(v[0]));
        None
    }
}

/// Zero-pad `digits` to `width` characters onto `out`.
fn push_padded(out: &mut String, n: u64, width: usize)
    requires
        width <= 8,
    ensures
        final(out)@ == old(out)@ + zero_padded(decimal(n as nat), width as int),
{
    let mut digits = String::new();
    push_decimal(&mut digits, n);
    let len = digits.as_str().unicode_len();
    let ghost start = out@;
    if len < width {
        let mut k: usize = 0;
        while k < width - len
            invariant
                len < width <= 8,
                k <= width - len,
                out@ == start + Seq::new(k as nat, |i: int| '0'),
            decreases width - len - k,
        {
            push_char(out, '0');
            assert(Seq::new((k + 1) as nat, |i: int| '0') =~= Seq::new(k as nat, |i: int| '0').push(
                '0',
            ));
            k = k + 1;
        }
    }
    let ghost mid = out@;
    let text = out.clone().concat(digits.as_str());
    *out = text;
    proof {
        assert(digits@ =~= Seq::<char>::empty() + decimal(n as nat));
        if len < width {
            assert(out@ =~= start + (Seq::new((width - len) as nat, |i: int| '0') + decimal(
                n as nat,
            )));
        } else {
            assert(out@ =~= start + decimal(n as nat));
        }
    }
}

impl CalendarMonth {
    pub fn new(year: i32, month: u8) -> (r: Option<Self>)
        ensures
            r == if is_calendar_month(year as int, month as int) {
                Some(CalendarMonth { year, month })
            } else {
                None
            },
    {
        if 1 <= year && year <= 9999 && 1 <= month && month <= 12 {
            Some(CalendarMonth { year, month })
        } else {
            None
        }
    }

    /// The month of a `YYYY-MM-DD` date that names an existing day.
    pub fn from_iso_date(value: &str) -> (r: Option<Self>)
        ensures
            r == iso_date_month(value@),
    {
        if value.unicode_len() != 10 || value.get_char(4) != '-' || value.get_char(7) != '-' {
            return None;
        }
        let year_part = value.substring_char(0, 4);
        proof {
            assert(year_part@ =~= value@.take(4));
        }
        let year = match parse_four_chars(year_part) {
            Some(y) => y,
            None => return None,
        };
        let month = match parse_two_chars(value.get_char(5), value.get_char(6)) {
            Some(m) => m,
            None => return None,
        };
        let day = match parse_two_chars(value.get_char(8), value.get_char(9)) {
            Some(d) => d,
            None => return None,
        };
        if year < 1 || year > 9999 || month < 1 || month > 12 {
            return None;
        }
        let m = CalendarMonth { year: year as i32, month: month as u8 };
        if day < 1 || day > m.days_in_month() as u32 {
            return None;
        }
        Some(m)
    }

    pub fn previous(self) -> (r: Option<Self>)
        ensures
            r == if self.month > 1 {
                if is_calendar_month(self.year as int, self.month - 1) {
                    Some(CalendarMonth { year: self.year, month: (self.month - 1) as u8 })
                } else {
                    None
                }
            } else if is_calendar_month(self.year - 1, 12) {
                Some(CalendarMonth { year: (self.year - 1) as i32, month: 12 })
            } else {
                None
            },
    {
        if self.month > 1 {
            Self::new(self.year, self.month - 1)
        } else {
            match self.year.checked_sub(1) {
                Some(y) => Self::new(y, 12),
                None => None,
            }
        }
    }

    pub fn next(self) -> (r: Option<Self>)
        ensures
            r == if self.month < 12 {
                if is_calendar_month(self.year as int, self.month + 1) {
                    Some(CalendarMonth { year: self.year, month: (self.month + 1) as u8 })
                } else {
                    None
                }
            } else if is_calendar_month(self.year + 1, 1) {
                Some(CalendarMonth { year: (self.year + 1) as i32, month: 1 })
            } else {
                None
            },
    {
        if self.month < 12 {
            Self::new(self.year, self.month + 1)
        } else {
            match self.year.checked_add(1) {
                Some(y) => Self::new(y, 1),
                None => None,
            }
        }
    }

    pub fn days_in_month(self) -> (d: u8)
        requires
            1 <= self.month <= 12,
        ensures
            d == days_in_month(self.year as int, self.month as int),
    {
        let month = self.month;
        if month == 1 || month == 3 || month == 5 || month == 7 || month == 8 || month == 10
            || month == 12 {
            31
        } else if month == 4 || month == 6 || month == 9 || month == 11 {
            30
        } else if is_gregorian_leap_year(self.year) {
            29
        } else {
            28
        }
    }

    /// Sunday-first offset for the first day of this month.
    pub fn leading_blank_days(self) -> (n: u8)
        ensures
            n == weekday_of(self.year as int, self.month as int, 1),
    {
        weekday_index(self.year, self.month, 1)
    }

    /// The date `YYYY-MM-DD` of `day` in this month, if the month has that day.
    pub fn iso_date(self, day: u8) -> (r: Option<String>)
        requires
            1 <= self.month <= 12,
        ensures
            match r {
                Some(t) => 1 <= day <= days_in_month(self.year as int, self.month as int) && t@
                    == year_text(self.year as int) + seq!['-'] + zero_padded(
                    decimal(self.month as nat),
                    2,
                ) + seq!['-'] + zero_padded(decimal(day as nat), 2),
                None => !(1 <= day <= days_in_month(self.year as int, self.month as int)),
            },
    {
        if day < 1 || day > self.days_in_month() {
            return None;
        }
        let mut out = String::new();
        if self.year >= 0 {
            push_padded(&mut out, self.year as u64, 4);
        } else {
            push_char(&mut out, '-');
            let magnitude = (0 - (self.year as i64)) as u64;
            push_padded(&mut out, magnitude, 3);
        }
        push_char(&mut out, '-');
        push_padded(&mut out, self.month as u64, 2);
        push_char(&mut out, '-');
        push_padded(&mut out, day as u64, 2);
        proof {
            let y = self.year as int;
            if y >= 0 {
                assert(Seq::<char>::empty() + zero_padded(decimal(y as nat), 4) =~= year_text(y));
            } else {
                assert(seq!['-'] + zero_padded(decimal((-y) as nat), 3) =~= year_text(y));
            }
        }
        assert(out@ =~= year_text(self.year as int) + seq!['-'] + zero_padded(
            decimal(self.month as nat),
            2,
        ) + seq!['-'] + zero_padded(decimal(day as nat), 2));
        Some(out)
    }

    /// The month's heading, `{year}年{month}月`.
    pub fn label(self) -> (s: String)
        ensures
            s@ == int_text(self.year as int) + "年"@ + decimal(self.month as nat) + "月"@,
    {
        let mut out = String::new();
        if self.year < 0 {
            push_char(&mut out, '-');
            push_decimal(&mut out, (0 - (self.year as i64)) as u64);
        } else {
            push_decimal(&mut out, self.year as u64);
        }
        let out = out.concat("年");
        let mut out = out;
        push_decimal(&mut out, self.month as u64);
        let out = out.concat("月");
        proof {
            let y = self.year as int;
            if y >= 0 {
                assert(Seq::<char>::empty() + decimal(y as nat) =~= int_text(y));
            } else {
                assert(seq!['-'] + decimal((-y) as nat) =~= int_text(y));
            }
        }
        out
    }
}

#[verifier::spinoff_prover]
fn is_gregorian_leap_year(year: i32) -> (b: bool)
    ensures
        b == is_leap_year(year as int),
{
    let shifted: i64 = year as i64 + 400 * 5_368_720;
    proof {
        let y = year as int;
        vstd::arithmetic::div_mod::lemma_mod_multiples_vanish(536_872_000, y, 4);
        vstd::arithmetic::div_mod::lemma_mod_multiples_vanish(21_474_880, y, 100);
        vstd::arithmetic::div_mod::lemma_mod_multiples_vanish(5_368_720, y, 400);
    }
    shifted % 4 == 0 && (shifted % 100 != 0 || shifted % 400 == 0)
}

/// Weekday index where Sunday is zero, valid for the proleptic Gregorian calendar.
#[verifier::rlimit(30)]
#[verifier::spinoff_prover]
fn weekday_index(year: i32, month: u8, day: u8) -> (w: u8)
    ensures
        w == weekday_of(year as int, month as int, day as int),
{
    let ay: i64 = year as i64 - if month <= 2 {
        1
    } else {
        0
    };
    let shifted: i64 = ay + 400 * 5_368_720;
    let era: i64 = shifted / 400;
    let yoe: i64 = shifted - era * 400;
    let sm: i64 = month as i64 + if month > 2 {
        -3
    } else {
        9
    };
    let doy: i64 = (153 * sm + 2) / 5 + day as i64 - 1;
    let doe: i64 = yoe * 365 + yoe / 4 - yoe / 100 + doy;
    let days: i64 = era * 146097 + doe - 719468;
    proof {
        reveal(days_from_civil);
        let y = year as int;
        let m = month as int;
        let a = y - (if m <= 2 { 1int } else { 0int });
        assert(ay == a);
        assert(era == a / 400 + 5_368_720);
        assert(yoe == a - (a / 400) * 400);
        assert(days == days_from_civil(y, m, day as int) + 5_368_720 * 146097);
        assert(days + 4 >= 0);
        assert((days + 4) % 7 == (days_from_civil(y, m, day as int) + 4) % 7);
    }
    ((days + 4) % 7) as u8
}

/// The Japanese name of weekday `index`, Sunday being zero.
pub fn weekday_name(index: u8) -> (s: &'static str)
    requires
        index < 7,
    ensures
        s@ == (if index == 0 {
            "日曜日"@
        } else if index == 1 {
            "月曜日"@
        } else if index == 2 {
            "火曜日"@
        } else if index == 3 {
            "水曜日"@
        } else if index == 4 {
            "木曜日"@
        } else if index == 5 {
            "金曜日"@
        } else {
            "土曜日"@
        }),
{
    if index == 0 {
        "日曜日"
    } else if index == 1 {
        "月曜日"
    } else if index == 2 {
        "火曜日"
    } else if index == 3 {
        "水曜日"
    } else if index == 4 {
        "木曜日"
    } else if index == 5 {
        "金曜日"
    } else {
        "土曜日"
    }
}

/// The Japanese name of weekday `index`, Sunday being zero.
pub open spec fn weekday_text(index: int) -> Seq<char> {
    if index == 0 {
        "日曜日"@
    } else if index == 1 {
        "月曜日"@
    } else if index == 2 {
        "火曜日"@
    } else if index == 3 {
        "水曜日"@
    } else if index == 4 {
        "木曜日"@
    } else if index == 5 {
        "金曜日"@
    } else {
        "土曜日"@
    }
}

/// Whether the calendar day `local_date` is already a candidate at `candidate_time`, both
/// compared after trimming.
pub open spec fn day_selected(
    candidates: Seq<CandidateInput>,
    local_date: Seq<char>,
    candidate_time: Seq<char>,
) -> bool {
    exists|k: int|
        0 <= k < candidates.len() && trimmed(#[trigger] candidates[k].local_date@) == local_date
            && trimmed(candidates[k].local_time@) == trimmed(candidate_time)
}

/// Whether a calendar day shows as selected: some candidate has its date and the time the
/// calendar adds.
pub fn calendar_day_selected(candidates: &[CandidateInput], local_date: &str, candidate_time: &str) -> (b:
    bool)
    ensures
        b == day_selected(candidates@, local_date@, candidate_time@),
{
    let time = trim(candidate_time);
    let mut k: usize = 0;
    while k < candidates.len()
        invariant
            k <= candidates@.len(),
            time@ == trimmed(candidate_time@),
            forall|q: int|
                0 <= q < k ==> !(trimmed(#[trigger] candidates@[q].local_date@) == local_date@
                    && trimmed(candidates@[q].local_time@) == time@),
        decreases candidates.len() - k,
    {
        let d = trim(candidates[k].local_date.as_str());
        let t = trim(candidates[k].local_time.as_str());
        if crate::text::str_eq(d.as_str(), local_date) && crate::text::str_eq(t.as_str(), time.as_str()) {
            return true;
        }
        k = k + 1;
    }
    false
}

impl CalendarMonth {
    /// The accessible label of `day`'s button: its date, weekday and the time it adds, then
    /// whether pressing it adds or removes the candidate.
    pub fn day_label(self, day: u8, candidate_time: &str, selected: bool) -> (s: String)
        requires
            1 <= day <= 31,
        ensures
            s@ == int_text(self.year as int) + "年"@ + decimal(self.month as nat) + "月"@ + decimal(
                day as nat,
            ) + "日 "@ + weekday_text(
                (weekday_of(self.year as int, self.month as int, 1) + day - 1) % 7,
            ) + " "@ + trimmed(candidate_time@) + "の"@ + (if selected {
                "候補から削除"@
            } else {
                "候補に追加"@
            }),
    {
        let blank = self.leading_blank_days();
        let index: u8 = ((blank as u32 + day as u32 - 1) % 7) as u8;
        let mut out = self.label();
        push_decimal(&mut out, day as u64);
        let out = out.concat("日 ").concat(weekday_name(index)).concat(" ");
        let time = trim(candidate_time);
        let out = out.concat(time.as_str()).concat("の");
        if selected {
            out.concat("候補から削除")
        } else {
            out.concat("候補に追加")
        }
    }
}

/// Whether `value` is a 24-hour `HH:MM` time.
pub fn valid_calendar_time(value: &str) -> (b: bool)
    ensures
        b == is_local_time(value@),
{
    local_time_is_valid(value)
}

// ---------------------------------------------------------------------------
// Toggling calendar candidates
// ---------------------------------------------------------------------------

/// Lexicographic order of texts by character, the order `String` compares in.
pub open spec fn text_le(a: Seq<char>, b: Seq<char>) -> bool
    decreases a.len(),
{
    if a.len() == 0 {
        true
    } else if b.len() == 0 {
        false
    } else if a[0] != b[0] {
        a[0] < b[0]
    } else {
        text_le(a.drop_first(), b.drop_first())
    }
}

/// Candidates ordered by date, then by time.
pub open spec fn candidate_le(x: (Seq<char>, Seq<char>), y: (Seq<char>, Seq<char>)) -> bool {
    if x.0 != y.0 {
        text_le(x.0, y.0)
    } else {
        text_le(x.1, y.1)
    }
}

pub open spec fn candidates_sorted(v: Seq<(Seq<char>, Seq<char>)>) -> bool {
    forall|i: int, j: int| 0 <= i < j < v.len() ==> candidate_le(v[i], v[j])
}

pub proof fn lemma_text_le_total(a: Seq<char>, b: Seq<char>)
    ensures
        text_le(a, b) || text_le(b, a),
        text_le(a, b) && text_le(b, a) ==> a == b,
    decreases a.len(),
{
    if a.len() > 0 && b.len() > 0 && a[0] == b[0] {
        lemma_text_le_total(a.drop_first(), b.drop_first());
        if text_le(a, b) && text_le(b, a) {
            assert(a =~= seq![a[0]] + a.drop_first());
            assert(b =~= seq![b[0]] + b.drop_first());
        }
    } else if a.len() == 0 && b.len() == 0 {
        assert(a =~= b);
    }
}

pub proof fn lemma_text_le_transitive(a: Seq<char>, b: Seq<char>, c: Seq<char>)
    requires
        text_le(a, b),
        text_le(b, c),
    ensures
        text_le(a, c),
    decreases a.len(),
{
    if a.len() > 0 && b.len() > 0 && c.len() > 0 && a[0] == b[0] && b[0] == c[0] {
        lemma_text_le_transitive(a.drop_first(), b.drop_first(), c.drop_first());
    }
}

pub proof fn lemma_candidate_le_order(
    x: (Seq<char>, Seq<char>),
    y: (Seq<char>, Seq<char>),
    z: (Seq<char>, Seq<char>),
)
    ensures
        candidate_le(x, y) || candidate_le(y, x),
        candidate_le(x, y) && candidate_le(y, z) ==> candidate_le(x, z),
{
    lemma_text_le_total(x.0, y.0);
    lemma_text_le_total(x.1, y.1);
    lemma_text_le_total(y.0, z.0);
    lemma_text_le_total(x.0, z.0);
    if candidate_le(x, y) && candidate_le(y, z) {
        if x.0 == y.0 && y.0 == z.0 {
            lemma_text_le_transitive(x.1, y.1, z.1);
        } else if x.0 == y.0 {
            lemma_text_le_transitive(x.0, y.0, z.0);
        } else if y.0 == z.0 {
            lemma_text_le_transitive(x.0, y.0, z.0);
        } else {
            lemma_text_le_transitive(x.0, y.0, z.0);
            if x.0 == z.0 {
                lemma_text_le_total(x.0, y.0);
            }
        }
    }
}

/// Whether `a` comes no later than `b` in lexicographic order.
pub fn text_less_or_equal(a: &str, b: &str) -> (r: bool)
    ensures
        r == text_le(a@, b@),
{
    let n = a.unicode_len();
    let m = b.unicode_len();
    let mut i: usize = 0;
    assert(a@.skip(0) =~= a@ && b@.skip(0) =~= b@);
    while i < n && i < m && a.get_char(i) == b.get_char(i)
        invariant
            n == a@.len(),
            m == b@.len(),
            i <= n,
            i <= m,
            text_le(a@, b@) == text_le(a@.skip(i as int), b@.skip(i as int)),
        decreases n - i,
    {
        assert(a@.skip(i as int).drop_first() =~= a@.skip(i + 1));
        assert(b@.skip(i as int).drop_first() =~= b@.skip(i + 1));
        i = i + 1;
    }
    if i == n {
        true
    } else if i == m {
        false
    } else {
        a.get_char(i) < b.get_char(i)
    }
}

fn candidate_less_or_equal(x: &CandidateInput, y: &CandidateInput) -> (r: bool)
    ensures
        r == candidate_le(x@, y@),
{
    if crate::text::str_eq(x.local_date.as_str(), y.local_date.as_str()) {
        text_less_or_equal(x.local_time.as_str(), y.local_time.as_str())
    } else {
        text_less_or_equal(x.local_date.as_str(), y.local_date.as_str())
    }
}

/// The candidates in date-and-time order.
fn sort_candidates(items: &Vec<CandidateInput>) -> (r: Vec<CandidateInput>)
    ensures
        candidates_sorted(candidates_view(r@)),
        candidates_view(r@).to_multiset() == candidates_view(items@).to_multiset(),
{
    let mut r: Vec<CandidateInput> = Vec::new();
    let mut i: usize = 0;
    assert(candidates_view(items@).take(0) =~= Seq::<(Seq<char>, Seq<char>)>::empty());
    assert(candidates_view(r@) =~= Seq::<(Seq<char>, Seq<char>)>::empty());
    while i < items.len()
        invariant
            i <= items@.len(),
            candidates_sorted(candidates_view(r@)),
            candidates_view(r@).to_multiset() == candidates_view(items@).take(
                i as int,
            ).to_multiset(),
        decreases items.len() - i,
    {
        let x = copy_candidate(&items[i]);
        let ghost rv = candidates_view(r@);
        let mut p: usize = 0;
        while p < r.len() && candidate_less_or_equal(&r[p], &x)
            invariant
                p <= r@.len(),
                rv == candidates_view(r@),
                forall|q: int| 0 <= q < p ==> candidate_le(rv[q], x@),
            decreases r.len() - p,
        {
            p = p + 1;
        }
        proof {
            if p < r@.len() {
                lemma_candidate_le_order(rv[p as int], x@, x@);
                assert forall|q: int| p <= q < rv.len() implies candidate_le(x@, rv[q]) by {
                    lemma_candidate_le_order(x@, rv[p as int], rv[q]);
                }
            }
        }
        r.insert(p, x);
        proof {
            let nv = candidates_view(r@);
            assert(nv =~= rv.insert(p as int, x@));
            assert forall|a: int, b: int| 0 <= a < b < nv.len() implies candidate_le(
                nv[a],
                nv[b],
            ) by {
                if a < p && b == p {
                } else if a == p && b > p {
                } else if a < p && b > p {
                    lemma_candidate_le_order(rv[a], x@, rv[b - 1]);
                } else if b < p {
                } else {
                }
            }
            assert(candidates_view(items@).take(i + 1) =~= candidates_view(items@).take(
                i as int,
            ).push(x@));
            vstd::seq_lib::to_multiset_insert(rv, p as int, x@);
            vstd::seq_lib::to_multiset_build(candidates_view(items@).take(i as int), x@);
        }
        i = i + 1;
    }
    assert(candidates_view(items@).take(items@.len() as int) =~= candidates_view(items@));
    r
}

#[derive(Clone, Copy, Debug, PartialEq, Eq, Structural)]
pub enum CalendarCandidateChange {
    Added,
    Removed,
}

pub open spec fn msg_calendar_date() -> Seq<char> {
    "日付を正しく入力してください。"@
}

pub open spec fn msg_calendar_time() -> Seq<char> {
    "時刻は24時間表記のHH:MMで入力してください。"@
}

pub open spec fn msg_calendar_count() -> Seq<char> {
    "候補日時は20件以内で入力してください。"@
}

/// A candidate whose trimmed date and time are `date` and `time`.
pub open spec fn candidate_matches(c: (Seq<char>, Seq<char>), date: Seq<char>, time: Seq<char>) -> bool {
    trimmed(c.0) == date && trimmed(c.1) == time
}

/// Two sorted candidate lists holding the same candidates are the same list.
proof fn lemma_sorted_candidates_unique(a: Seq<(Seq<char>, Seq<char>)>, b: Seq<(Seq<char>, Seq<char>)>)
    requires
        candidates_sorted(a),
        candidates_sorted(b),
        a.to_multiset() == b.to_multiset(),
    ensures
        a == b,
    decreases a.len(),
{
    broadcast use vstd::seq_lib::to_multiset_remove, vstd::seq_lib::to_multiset_contains,
        vstd::seq_lib::to_multiset_len;

    assert(a.len() == a.to_multiset().len() && b.len() == b.to_multiset().len());
    if a.len() == 0 {
        assert(b.len() == 0);
        assert(a =~= b);
    } else {
        assert(b.len() == a.len());
        assert(a.to_multiset().count(a[0]) > 0);
        assert(b.contains(a[0]));
        let j = choose|j: int| 0 <= j < b.len() && b[j] == a[0];
        assert(b.to_multiset().count(b[0]) > 0);
        assert(a.contains(b[0]));
        let k = choose|k: int| 0 <= k < a.len() && a[k] == b[0];
        if j > 0 {
            assert(candidate_le(b[0], b[j]));
        }
        if k > 0 {
            assert(candidate_le(a[0], a[k]));
        }
        lemma_text_le_total(a[0].0, b[0].0);
        lemma_text_le_total(a[0].1, b[0].1);
        assert(a[0] == b[0]);
        let a1 = a.remove(0);
        let b1 = b.remove(0);
        assert(a1.to_multiset() == a.to_multiset().remove(a[0]));
        assert(b1.to_multiset() == b.to_multiset().remove(b[0]));
        assert forall|x: int, y: int| 0 <= x < y < a1.len() implies candidate_le(a1[x], a1[y]) by {
            assert(a1[x] == a[x + 1] && a1[y] == a[y + 1]);
        }
        assert forall|x: int, y: int| 0 <= x < y < b1.len() implies candidate_le(b1[x], b1[y]) by {
            assert(b1[x] == b[x + 1] && b1[y] == b[y + 1]);
        }
        lemma_sorted_candidates_unique(a1, b1);
        assert(a =~= seq![a[0]] + a1);
        assert(b =~= seq![b[0]] + b1);
    }
}

/// Pressing a calendar day twice restores the candidates: when a date and time were added
/// to sorted candidates that held no match for them, giving any sorted list with those
/// candidates plus the new one, that list holds exactly one match, and removing it gives
/// back the candidates as they were.
pub proof fn lemma_toggle_twice_restores(
    before: Seq<(Seq<char>, Seq<char>)>,
    after: Seq<(Seq<char>, Seq<char>)>,
    date: Seq<char>,
    time: Seq<char>,
)
    requires
        candidates_sorted(before),
        forall|k: int| 0 <= k < before.len() ==> !candidate_matches(#[trigger] before[k], date, time),
        trimmed(date) == date,
        trimmed(time) == time,
        candidates_sorted(after),
        after.to_multiset() == before.push((date, time)).to_multiset(),
    ensures
        exists|i: int|
            0 <= i < after.len() && candidate_matches(#[trigger] after[i], date, time) && (forall|
                j: int,
            |
                0 <= j < after.len() && j != i ==> !candidate_matches(after[j], date, time))
                && after.remove(i) == before,
{
    broadcast use vstd::seq_lib::to_multiset_remove, vstd::seq_lib::to_multiset_contains,
        vstd::seq_lib::to_multiset_build;

    let pair = (date, time);
    assert(before.push(pair).to_multiset() == before.to_multiset().insert(pair));
    assert(after.to_multiset().count(pair) > 0);
    assert(after.contains(pair));
    let i = choose|i: int| 0 <= i < after.len() && after[i] == pair;
    assert(candidate_matches(after[i], date, time));
    assert(!before.contains(pair)) by {
        if before.contains(pair) {
            let k = choose|k: int| 0 <= k < before.len() && before[k] == pair;
            assert(candidate_matches(before[k], date, time));
        }
    }
    assert(before.to_multiset().count(pair) == 0);
    assert forall|j: int| 0 <= j < after.len() && j != i implies !candidate_matches(after[j], date, time) by {
        if candidate_matches(after[j], date, time) {
            if after[j] == pair {
                let rest = after.remove(i);
                assert(rest.to_multiset() == after.to_multiset().remove(pair));
                assert(rest.to_multiset() == before.to_multiset());
                let jj = if j < i { j } else { j - 1 };
                assert(rest[jj] == pair);
                assert(rest.contains(pair));
            } else {
                assert(after.to_multiset().count(after[j]) > 0);
                assert(before.push(pair).to_multiset().count(after[j]) > 0);
                assert(before.to_multiset().count(after[j]) > 0);
                assert(before.contains(after[j]));
                let k = choose|k: int| 0 <= k < before.len() && before[k] == after[j];
                assert(candidate_matches(before[k], date, time));
            }
        }
    }
    let rest = after.remove(i);
    assert(rest.to_multiset() == after.to_multiset().remove(pair));
    assert(rest.to_multiset() =~= before.to_multiset());
    assert forall|x: int, y: int| 0 <= x < y < rest.len() implies candidate_le(rest[x], rest[y]) by {
        let xx = if x < i { x } else { x + 1 };
        let yy = if y < i { y } else { y + 1 };
        assert(rest[x] == after[xx] && rest[y] == after[yy]);
    }
    lemma_sorted_candidates_unique(rest, before);
}

/// Toggle one exact calendar-selected date and base-time pair: an existing candidate with
/// that date and time (after trimming) is removed, the first such one; otherwise the pair
/// is added and the candidates are put in date-and-time order.
pub fn toggle_calendar_candidate(
    candidates: &mut Vec<CandidateInput>,
    local_date: &str,
    local_time: &str,
) -> (r: Result<CalendarCandidateChange, String>)
    ensures
        ({
            let d = trimmed(local_date@);
            let t = trimmed(local_time@);
            let v = candidates_view(old(candidates)@);
            let w = candidates_view(final(candidates)@);
            if iso_date_month(d) is None {
                r matches Err(e) && e@ == msg_calendar_date() && w == v
            } else if !is_local_time(t) {
                r matches Err(e) && e@ == msg_calendar_time() && w == v
            } else if exists|i: int| 0 <= i < v.len() && candidate_matches(#[trigger] v[i], d, t) {
                &&& r == Ok::<CalendarCandidateChange, String>(CalendarCandidateChange::Removed)
                &&& exists|i: int|
                    0 <= i < v.len() && candidate_matches(#[trigger] v[i], d, t) && (forall|j: int|
                        0 <= j < i ==> !candidate_matches(v[j], d, t)) && w == v.remove(i)
            } else if v.len() >= EVENT_CANDIDATE_MAX_COUNT {
                r matches Err(e) && e@ == msg_calendar_count() && w == v
            } else {
                &&& r == Ok::<CalendarCandidateChange, String>(CalendarCandidateChange::Added)
                &&& candidates_sorted(w)
                &&& w.to_multiset() == v.push((d, t)).to_multiset()
            }
        }),
{
    let date = trim(local_date);
    let time = trim(local_time);
    let ghost v = candidates_view(candidates@);
    if CalendarMonth::from_iso_date(date.as_str()).is_none() {
        return Err(String::from_str("日付を正しく入力してください。"));
    }
    if !valid_calendar_time(time.as_str()) {
        return Err(String::from_str("時刻は24時間表記のHH:MMで入力してください。"));
    }
    let mut i: usize = 0;
    while i < candidates.len()
        invariant
            v == candidates_view(candidates@),
            v == candidates_view(old(candidates)@),
            date@ == trimmed(local_date@),
            time@ == trimmed(local_time@),
            iso_date_month(date@) is Some,
            is_local_time(time@),
            i <= v.len(),
            forall|j: int| 0 <= j < i ==> !candidate_matches(v[j], date@, time@),
        decreases candidates.len() - i,
    {
        let cd = trim(candidates[i].local_date.as_str());
        let ct = trim(candidates[i].local_time.as_str());
        if crate::text::str_eq(cd.as_str(), date.as_str()) && crate::text::str_eq(
            ct.as_str(),
            time.as_str(),
        ) {
            assert(candidate_matches(v[i as int], date@, time@));
            candidates.remove(i);
            assert(candidates_view(candidates@) =~= v.remove(i as int));
            return Ok(CalendarCandidateChange::Removed);
        }
        i = i + 1;
    }
    if candidates.len() >= EVENT_CANDIDATE_MAX_COUNT {
        return Err(String::from_str("候補日時は20件以内で入力してください。"));
    }
    candidates.push(CandidateInput { local_date: date, local_time: time });
    let sorted = sort_candidates(candidates);
    proof {
        assert(candidates_view(candidates@) =~= v.push((trimmed(local_date@), trimmed(local_time@))));
    }
    *candidates = sorted;
    Ok(CalendarCandidateChange::Added)
}

// ---------------------------------------------------------------------------
// Scores, labels, messages and share state
// ---------------------------------------------------------------------------

/// The suggestion score of one availability: two for ○, one for △.
pub open spec fn availability_points(a: Availability) -> int {
    match a {
        Availability::Available => 2,
        Availability::Maybe => 1,
        Availability::Unavailable => 0,
    }
}

pub open spec fn suggestion_score(v: Seq<Availability>) -> int
    decreases v.len(),
{
    if v.len() == 0 {
        0
    } else {
        suggestion_score(v.drop_last()) + availability_points(v.last())
    }
}

proof fn lemma_suggestion_score_bound(v: Seq<Availability>)
    ensures
        0 <= suggestion_score(v) <= 2 * v.len(),
    decreases v.len(),
{
    if v.len() > 0 {
        lemma_suggestion_score_bound(v.drop_last());
    }
}

/// A column's suggestion score is two points for each ○ answer and one for each △, so
/// one ○ is worth two △ and × counts nothing.
pub proof fn lemma_suggestion_score_counts(v: Seq<Availability>)
    ensures
        suggestion_score(v) == 2 * v.filter(|a: Availability| a == Availability::Available).len()
            + v.filter(|a: Availability| a == Availability::Maybe).len(),
    decreases v.len(),
{
    reveal(Seq::filter);
    if v.len() > 0 {
        lemma_suggestion_score_counts(v.drop_last());
    }
}

/// Two points for each ○ and one for each △.
pub fn candidate_suggestion_score(availabilities: &[Availability]) -> (n: u32)
    requires
        2 * availabilities@.len() <= u32::MAX,
    ensures
        n == suggestion_score(availabilities@),
        n == 2 * availabilities@.filter(|a: Availability| a == Availability::Available).len()
            + availabilities@.filter(|a: Availability| a == Availability::Maybe).len(),
{
    proof {
        lemma_suggestion_score_counts(availabilities@);
    }
    let mut total: u32 = 0;
    let mut i: usize = 0;
    while i < availabilities.len()
        invariant
            i <= availabilities@.len(),
            2 * availabilities@.len() <= u32::MAX,
            total == suggestion_score(availabilities@.take(i as int)),
        decreases availabilities.len() - i,
    {
        proof {
            assert(availabilities@.take(i + 1).drop_last() =~= availabilities@.take(i as int));
            lemma_suggestion_score_bound(availabilities@.take(i as int));
        }
        let points: u32 = match availabilities[i] {
            Availability::Available => 2,
            Availability::Maybe => 1,
            Availability::Unavailable => 0,
        };
        total = total + points;
        i = i + 1;
    }
    assert(availabilities@.take(availabilities@.len() as int) =~= availabilities@);
    total
}

/// The `k`-th piece of `s` split at every `c`, if `s` has that many pieces.
pub open spec fn nth_part(s: Seq<char>, c: char, k: nat) -> Option<Seq<char>>
    decreases k,
{
    let i = first_index(s, c);
    if k == 0 {
        Some(s.take(i))
    } else if i >= s.len() {
        None
    } else {
        nth_part(s.skip(i + 1), c, (k - 1) as nat)
    }
}

/// The value `u8::from_str` reads from `s`: an optional `+`, then at least one digit,
/// at most 255.
pub open spec fn u8_text_value(s: Seq<char>) -> Option<nat> {
    let body = if s.len() > 0 && s[0] == '+' {
        s.drop_first()
    } else {
        s
    };
    if body.len() > 0 && all_digits(body) && digits_value(body) <= 255 {
        Some(digits_value(body))
    } else {
        None
    }
}

/// `u8::from_str`.
pub fn parse_u8_text(s: &str) -> (r: Option<u8>)
    ensures
        match r {
            Some(v) => u8_text_value(s@) == Some(v as nat),
            None => u8_text_value(s@) is None,
        },
{
    let n = s.unicode_len();
    let start: usize = if n > 0 && s.get_char(0) == '+' {
        1
    } else {
        0
    };
    let ghost body = s@.skip(start as int);
    proof {
        if start == 1 {
            assert(body =~= s@.drop_first());
        } else {
            assert(body =~= s@);
        }
    }
    if start >= n {
        return None;
    }
    let mut value: u32 = 0;
    let mut i: usize = start;
    while i < n
        invariant
            n == s@.len(),
            start <= i <= n,
            body == s@.skip(start as int),
            body == (if s@.len() > 0 && s@[0] == '+' {
                s@.drop_first()
            } else {
                s@
            }),
            all_digits(s@.subrange(start as int, i as int)),
            value == digits_value(s@.subrange(start as int, i as int)),
            value <= 255,
        decreases n - i,
    {
        let c = s.get_char(i);
        let ghost before = s@.subrange(start as int, i as int);
        let ghost after = s@.subrange(start as int, i + 1);
        assert(after.drop_last() =~= before);
        if !char_is_ascii_digit(c) {
            proof {
                assert(body[i - start] == c);
                assert(!all_digits(body));
            }
            return None;
        }
        value = value * 10 + (c as u32 - 48);
        if value > 255 {
            proof {
                assert(body.take(i + 1 - start) =~= after);
                if all_digits(body) {
                    crate::text::lemma_digits_value_prefix(body, i + 1 - start);
                }
            }
            return None;
        }
        i = i + 1;
    }
    assert(s@.subrange(start as int, n as int) =~= body);
    Some(value as u8)
}

/// Piece `k` of `s` split at `c`, as `(start, end)` character positions.
fn nth_part_bounds(s: &str, c: char, k: usize) -> (r: Option<(usize, usize)>)
    ensures
        match r {
            Some((a, b)) => a <= b <= s@.len() && nth_part(s@, c, k as nat) == Some(
                s@.subrange(a as int, b as int),
            ),
            None => nth_part(s@, c, k as nat) is None,
        },
{
    let n = s.unicode_len();
    let mut start: usize = 0;
    let mut left: usize = k;
    assert(s@.skip(0) =~= s@);
    loop
        invariant
            n == s@.len(),
            start <= n,
            left <= k,
            nth_part(s@, c, k as nat) == nth_part(s@.skip(start as int), c, left as nat),
        decreases left,
    {
        let ghost rest = s@.skip(start as int);
        let end = find_char(s, c, start);
        proof {
            lemma_first_index(rest, c, end - start);
            assert(rest.take(end - start) =~= s@.subrange(start as int, end as int));
        }
        if left == 0 {
            return Some((start, end));
        }
        if end >= n {
            return None;
        }
        proof {
            assert(rest.skip(end - start + 1) =~= s@.skip(end + 1));
        }
        start = end + 1;
        left = left - 1;
    }
}

/// A month or day number as displayed: the number, or `?` when it does not read as one.
pub open spec fn shown_number(part: Option<Seq<char>>) -> Seq<char> {
    match part {
        Some(p) => match u8_text_value(p) {
            Some(v) => decimal(v),
            None => seq!['?'],
        },
        None => seq!['?'],
    }
}

fn push_shown_number(out: &mut String, s: &str, k: usize)
    ensures
        final(out)@ == old(out)@ + shown_number(nth_part(s@, '-', k as nat)),
{
    match nth_part_bounds(s, '-', k) {
        Some((a, b)) => {
            let part = s.substring_char(a, b);
            match parse_u8_text(part) {
                Some(v) => push_decimal(out, v as u64),
                None => push_char(out, '?'),
            }
        },
        None => push_char(out, '?'),
    }
}

/// A local start as `{year}年{month}月{day}日 {time}`, reading the date's `-`-separated
/// pieces; a month or day that does not read as a number shows as `?`.
pub fn format_local_start(local_date: &str, local_time: &str) -> (s: String)
    ensures
        s@ == nth_part(local_date@, '-', 0)->0 + "年"@ + shown_number(
            nth_part(local_date@, '-', 1),
        ) + "月"@ + shown_number(nth_part(local_date@, '-', 2)) + "日 "@ + local_time@,
{
    let year_end = find_char(local_date, '-', 0);
    proof {
        lemma_first_index(local_date@, '-', year_end as int);
        assert(local_date@.subrange(0, year_end as int) =~= local_date@.take(year_end as int));
    }
    let out = String::from_str(local_date.substring_char(0, year_end)).concat("年");
    let mut out = out;
    push_shown_number(&mut out, local_date, 1);
    let out = out.concat("月");
    let mut out = out;
    push_shown_number(&mut out, local_date, 2);
    out.concat("日 ").concat(local_time)
}

/// User-visible state after attempting native share or its copy fallback.
#[derive(Clone, Copy, Debug, PartialEq, Eq, Structural)]
pub enum ShareActionState {
    ReadyToShare,
    ReadyToCopy,
    InProgress,
    ShareStarted,
    UrlCopied,
    ManualCopy,
}

impl Default for ShareActionState {
    fn default() -> (s: Self)
        ensures
            s == ShareActionState::ReadyToShare,
    {
        ShareActionState::ReadyToShare
    }
}

/// Start at most one browser share or copy operation at a time.
pub fn begin_share_action(current: ShareActionState) -> (r: Option<ShareActionState>)
    ensures
        r == if current == ShareActionState::InProgress {
            None
        } else {
            Some(ShareActionState::InProgress)
        },
{
    if current != ShareActionState::InProgress {
        Some(ShareActionState::InProgress)
    } else {
        None
    }
}

/// The state that the browser script's result leads to.
pub open spec fn share_result_state(current: ShareActionState, result: Seq<char>) -> ShareActionState {
    if result == "started"@ {
        ShareActionState::ShareStarted
    } else if result == "copied"@ {
        ShareActionState::UrlCopied
    } else if result == "cancelled"@ || result == "failed"@ {
        ShareActionState::ReadyToCopy
    } else if result == "manual"@ {
        ShareActionState::ManualCopy
    } else if current == ShareActionState::ReadyToCopy {
        ShareActionState::ManualCopy
    } else {
        ShareActionState::ReadyToCopy
    }
}

/// Keep UI labels aligned with the result sent by the browser script.
pub fn next_share_action_state(current: ShareActionState, result: &str) -> (s: ShareActionState)
    ensures
        s == share_result_state(current, result@),
{
    if str_eq(result, "started") {
        ShareActionState::ShareStarted
    } else if str_eq(result, "copied") {
        ShareActionState::UrlCopied
    } else if str_eq(result, "cancelled") || str_eq(result, "failed") {
        ShareActionState::ReadyToCopy
    } else if str_eq(result, "manual") {
        ShareActionState::ManualCopy
    } else if current == ShareActionState::ReadyToCopy {
        ShareActionState::ManualCopy
    } else {
        ShareActionState::ReadyToCopy
    }
}

/// The label of an availability in an account's event trace.
pub fn availability_trace_label(availability: Availability) -> (s: &'static str)
    ensures
        s@ == match availability {
            Availability::Available => "○ 行ける"@,
            Availability::Maybe => "△ 条件次第"@,
            Availability::Unavailable => "× 難しい"@,
        },
{
    match availability {
        Availability::Available => "○ 行ける",
        Availability::Maybe => "△ 条件次第",
        Availability::Unavailable => "× 難しい",
    }
}

/// The sentence that explains a candidate's summary fact.
pub fn candidate_fact_label(fact: &CandidateSummaryFact) -> (s: &'static str)
    ensures
        s@ == match *fact {
            CandidateSummaryFact::EveryoneAvailable => "回答した全員が○です"@,
            CandidateSummaryFact::EveryoneAvailableIncludingMaybe =>
                "△を含めると、回答した全員が参加できそうです"@,
            CandidateSummaryFact::OneUnavailable => "×が1件あります"@,
            CandidateSummaryFact::UniqueMostAvailable => "○が最も多い候補です"@,
        },
{
    match fact {
        CandidateSummaryFact::EveryoneAvailable => "回答した全員が○です",
        CandidateSummaryFact::EveryoneAvailableIncludingMaybe =>
            "△を含めると、回答した全員が参加できそうです",
        CandidateSummaryFact::OneUnavailable => "×が1件あります",
        CandidateSummaryFact::UniqueMostAvailable => "○が最も多い候補です",
    }
}

/// Stable public guidance for private continuation-create failures, by HTTP status.
pub fn event_continuation_failure_message(status: u16) -> (s: String)
    ensures
        s@ == if status == 401 || status == 403 {
            "ログインの有効期限を確認できませんでした。入力内容は残っています。もう一度ログインしてください。"@
        } else if status == 409 {
            "別の次回イベントが先に作成されました。入力内容は残っています。最新の続き情報を読み直してください。"@
        } else {
            "次回イベントを保存できませんでした。入力内容は残っています。もう一度お試しください。"@
        },
{
    if status == 401 || status == 403 {
        String::from_str(
            "ログインの有効期限を確認できませんでした。入力内容は残っています。もう一度ログインしてください。",
        )
    } else if status == 409 {
        String::from_str(
            "別の次回イベントが先に作成されました。入力内容は残っています。最新の続き情報を読み直してください。",
        )
    } else {
        String::from_str(
            "次回イベントを保存できませんでした。入力内容は残っています。もう一度お試しください。",
        )
    }
}

/// Registration guidance without replaying private transport or database details.
pub fn account_registration_failure_message(status: u16) -> (s: String)
    ensures
        s@ == if status == 409 {
            "このログインIDは使えません。別のログインIDをお試しください。"@
        } else if status == 429 {
            "アカウント作成をしばらく試せません。時間を置いてお試しください。"@
        } else {
            "アカウントを作成できませんでした。入力内容は残っています。もう一度お試しください。"@
        },
{
    if status == 409 {
        String::from_str("このログインIDは使えません。別のログインIDをお試しください。")
    } else if status == 429 {
        String::from_str("アカウント作成をしばらく試せません。時間を置いてお試しください。")
    } else {
        String::from_str(
            "アカウントを作成できませんでした。入力内容は残っています。もう一度お試しください。",
        )
    }
}

/// Login guidance that keeps generic credentials distinct from throttling and outages.
pub fn account_login_failure_message(status: u16) -> (s: String)
    ensures
        s@ == if status == 401 {
            "ログインIDまたはpasswordを確認してください。"@
        } else if status == 429 {
            "ログインをしばらく試せません。時間を置いてお試しください。"@
        } else {
            "ログインできませんでした。入力内容は残っています。もう一度お試しください。"@
        },
{
    if status == 401 {
        String::from_str("ログインIDまたはpasswordを確認してください。")
    } else if status == 429 {
        String::from_str("ログインをしばらく試せません。時間を置いてお試しください。")
    } else {
        String::from_str("ログインできませんでした。入力内容は残っています。もう一度お試しください。")
    }
}

/// Comment-submission guidance; `server_status` is the status of a server-side error, if
/// the failure was one.
pub fn response_comment_failure_message(server_status: Option<u16>) -> (s: String)
    ensures
        s@ == if server_status == Some(409u16) {
            "先のひとことは送信済みです。変更した内容は保存されていません。回答は完了しています。"@
        } else {
            "ひとことを送れませんでした。内容は残っています。もう一度お試しください。"@
        },
{
    match server_status {
        Some(409) => String::from_str(
            "先のひとことは送信済みです。変更した内容は保存されていません。回答は完了しています。",
        ),
        _ => String::from_str("ひとことを送れませんでした。内容は残っています。もう一度お試しください。"),
    }
}

/// The form field that receives focus for the first account error.
pub fn first_account_error_target(errors: &AccountAuthErrors, registration: bool) -> (s: &'static str)
    ensures
        s@ == if errors.login_id is Some {
            if registration {
                "register-login-id"@
            } else {
                "login-id"@
            }
        } else if errors.password is Some {
            if registration {
                "register-password"@
            } else {
                "login-password"@
            }
        } else if errors.password_confirmation is Some {
            "register-password-confirmation"@
        } else {
            "account-error-summary"@
        },
{
    if errors.login_id.is_some() {
        if registration {
            "register-login-id"
        } else {
            "login-id"
        }
    } else if errors.password.is_some() {
        if registration {
            "register-password"
        } else {
            "login-password"
        }
    } else if errors.password_confirmation.is_some() {
        "register-password-confirmation"
    } else {
        "account-error-summary"
    }
}

/// The form field that receives focus for the first continuation error.
pub fn first_continuation_error_target(errors: &EventCreationErrors) -> (s: &'static str)
    ensures
        s@ == if errors.name is Some {
            "continuation-event-name"@
        } else if errors.organizer_note is Some {
            "continuation-organizer-note"@
        } else if errors.candidates is Some {
            "continuation-candidate-date"@
        } else if errors.time_zone is Some {
            "continuation-time-zone-error"@
        } else {
            "continuation-submit"@
        },
{
    if errors.name.is_some() {
        "continuation-event-name"
    } else if errors.organizer_note.is_some() {
        "continuation-organizer-note"
    } else if errors.candidates.is_some() {
        "continuation-candidate-date"
    } else if errors.time_zone.is_some() {
        "continuation-time-zone-error"
    } else {
        "continuation-submit"
    }
}

/// The form field that receives focus for the first response error.
pub fn first_response_error_target(errors: &AvailabilityResponseErrors) -> (s: String)
    ensures
        s@ == if errors.respondent_name is Some {
            "respondent-name"@
        } else if errors.candidate_ids@.len() > 0 {
            "availability-"@ + int_text(errors.candidate_ids@[0] as int) + "-available"@
        } else {
            "response-heading"@
        },
{
    if errors.respondent_name.is_some() {
        String::from_str("respondent-name")
    } else if errors.candidate_ids.len() > 0 {
        let id = errors.candidate_ids[0];
        let mut out = String::from_str("availability-");
        let ghost start = out@;
        if id < 0 {
            push_char(&mut out, '-');
            let magnitude: u64 = if id == i64::MIN {
                9_223_372_036_854_775_808
            } else {
                (0 - id) as u64
            };
            push_decimal(&mut out, magnitude);
            assert(out@ =~= start + int_text(id as int));
        } else {
            push_decimal(&mut out, id as u64);
            assert(out@ =~= start + int_text(id as int));
        }
        out.concat("-available")
    } else {
        String::from_str("response-heading")
    }
}

/// The JSON text of the string `s`.
pub uninterp spec fn json_string(s: Seq<char>) -> Seq<char>;

/// `serde_json::to_string(s)`: `s` as a JSON string literal.  Serialising a string into
/// memory cannot fail.
#[verifier::external_body]
fn json_quote(s: &str) -> (q: String)
    ensures
        q@ == json_string(s@),
{
    serde_json::to_string(s).expect("a string always serializes")
}

pub open spec fn share_script_text(event_name: Seq<char>, share_url: Seq<char>) -> Seq<char> {
    "(() => { const data = { title: "@ + json_string(event_name) + ", text: "@ + json_string(
        event_name + "の日程が決まりました。"@,
    ) + ", url: new URL("@ + json_string(share_url) + ", window.location.origin).href }; const send = value => dioxus.send(value); try { if (typeof navigator.share !== 'function' || (typeof navigator.canShare === 'function' && !navigator.canShare(data))) { if (typeof navigator.clipboard === 'object' && typeof navigator.clipboard.writeText === 'function') { navigator.clipboard.writeText(data.url).then(() => send('copied')).catch(() => send('manual')); } else { send('manual'); } return; } navigator.share(data).then(() => send('started')).catch(error => send(error && error.name === 'AbortError' ? 'cancelled' : 'failed')); } catch (_) { send('failed'); } })()"@
}

/// JavaScript started directly by one user action: native share, then unsupported copy
/// only.
pub fn decided_event_share_script(event_name: &str, share_url: &str) -> (s: String)
    ensures
        s@ == share_script_text(event_name@, share_url@),
{
    let title = json_quote(event_name);
    let sentence = String::from_str(event_name).concat("の日程が決まりました。");
    let text = json_quote(sentence.as_str());
    let url = json_quote(share_url);
    String::from_str("(() => { const data = { title: ").concat(title.as_str()).concat(", text: ").concat(text.as_str()).concat(
        ", url: new URL(",
    ).concat(url.as_str()).concat(", window.location.origin).href }; const send = value => dioxus.send(value); try { if (typeof navigator.share !== 'function' || (typeof navigator.canShare === 'function' && !navigator.canShare(data))) { if (typeof navigator.clipboard === 'object' && typeof navigator.clipboard.writeText === 'function') { navigator.clipboard.writeText(data.url).then(() => send('copied')).catch(() => send('manual')); } else { send('manual'); } return; } navigator.share(data).then(() => send('started')).catch(error => send(error && error.name === 'AbortError' ? 'cancelled' : 'failed')); } catch (_) { send('failed'); } })()")
}

pub open spec fn copy_script_text(share_url: Seq<char>) -> Seq<char> {
    "(() => { const url = new URL("@ + json_string(share_url) + ", window.location.origin).href; try { if (typeof navigator.clipboard !== 'object' || typeof navigator.clipboard.writeText !== 'function') { dioxus.send('manual'); return; } navigator.clipboard.writeText(url).then(() => dioxus.send('copied')).catch(() => dioxus.send('manual')); } catch (_) { dioxus.send('manual'); } })()"@
}

/// JavaScript for the explicit copy retry after share cancellation or failure.
pub fn decided_event_copy_script(share_url: &str) -> (s: String)
    ensures
        s@ == copy_script_text(share_url@),
{
    let url = json_quote(share_url);
    String::from_str("(() => { const url = new URL(").concat(url.as_str()).concat(", window.location.origin).href; try { if (typeof navigator.clipboard !== 'object' || typeof navigator.clipboard.writeText !== 'function') { dioxus.send('manual'); return; } navigator.clipboard.writeText(url).then(() => dioxus.send('copied')).catch(() => dioxus.send('manual')); } catch (_) { dioxus.send('manual'); } })()")
}

/// A path `events/{id}` (leading slashes ignored) with a non-empty identifier and
/// nothing after it.
pub open spec fn is_public_event_path_text(path: Seq<char>) -> bool {
    let p = path.skip(leading_slashes(path));
    &&& nth_part(p, '/', 0) == Some("events"@)
    &&& nth_part(p, '/', 1) matches Some(id) && id.len() > 0
    &&& nth_part(p, '/', 2) is None
}

/// The number of `/` characters that begin `s`.
pub open spec fn leading_slashes(s: Seq<char>) -> int
    decreases s.len(),
{
    if s.len() > 0 && s[0] == '/' {
        1 + leading_slashes(s.drop_first())
    } else {
        0
    }
}

/// Whether a cloud path is a shared event page, open to visitors without access.
pub fn is_public_event_path(path: &str) -> (b: bool)
    ensures
        b == is_public_event_path_text(path@),
{
    let n = path.unicode_len();
    let mut start: usize = 0;
    assert(path@.skip(0) =~= path@);
    while start < n && path.get_char(start) == '/'
        invariant
            n == path@.len(),
            start <= n,
            leading_slashes(path@) == start + leading_slashes(path@.skip(start as int)),
        decreases n - start,
    {
        assert(path@.skip(start as int).drop_first() =~= path@.skip(start + 1));
        start = start + 1;
    }
    let rest = path.substring_char(start, n);
    assert(rest@ =~= path@.skip(leading_slashes(path@)));
    let first = nth_part_bounds(rest, '/', 0);
    let second = nth_part_bounds(rest, '/', 1);
    let third = nth_part_bounds(rest, '/', 2);
    match (first, second, third) {
        (Some((a, b)), Some((c, d)), None) => str_eq(rest.substring_char(a, b), "events") && d
            > c,
        _ => false,
    }
}

/// The epoch that follows `epoch`: one more, wrapping to zero after the largest.
pub open spec fn next_epoch(epoch: u64) -> u64 {
    if epoch == u64::MAX {
        0
    } else {
        (epoch + 1) as u64
    }
}

/// The epoch reached from `epoch` after `n` further requests.
pub open spec fn epoch_after(epoch: u64, n: nat) -> u64
    decreases n,
{
    if n == 0 {
        epoch
    } else {
        next_epoch(epoch_after(epoch, (n - 1) as nat))
    }
}

/// The organizer summary screen's request bookkeeping. Each load, recovery or decision
/// takes a new epoch, and only the reply to the latest epoch may change the screen. A
/// manual refresh remembers the epoch it started with, so that only its own reply ends
/// it.
#[derive(Clone, Copy, Debug, PartialEq, Eq)]
pub struct SummaryRequests {
    pub epoch: u64,
    pub refreshing: bool,
    pub refresh_epoch: Option<u64>,
}

impl SummaryRequests {
    /// A refresh is running exactly while it has an epoch of its own.
    pub open spec fn wf(&self) -> bool {
        self.refreshing == self.refresh_epoch is Some
    }

    /// No request yet, and no refresh.
    pub fn new() -> (r: Self)
        ensures
            r.epoch == 0,
            !r.refreshing,
            r.refresh_epoch is None,
            r.wf(),
    {
        SummaryRequests { epoch: 0, refreshing: false, refresh_epoch: None }
    }

    /// Starts a request: the next epoch becomes the latest one and is returned.
    pub fn begin_summary_request(&mut self) -> (request_epoch: u64)
        ensures
            request_epoch == next_epoch(old(self).epoch),
            final(self).epoch == request_epoch,
            final(self).refreshing == old(self).refreshing,
            final(self).refresh_epoch == old(self).refresh_epoch,
    {
        let request_epoch = self.epoch.wrapping_add(1);
        self.epoch = request_epoch;
        request_epoch
    }

    /// Whether the reply to `request_epoch` may still change the screen.
    pub fn summary_request_is_current(&self, request_epoch: u64) -> (b: bool)
        ensures
            b == (self.epoch == request_epoch),
    {
        self.epoch == request_epoch
    }

    /// Starts a manual refresh, unless one is already running: it takes a new epoch and
    /// remembers it.
    pub fn begin_summary_refresh(&mut self) -> (r: Option<u64>)
        requires
            old(self).wf(),
        ensures
            final(self).wf(),
            old(self).refreshing ==> r is None && *final(self) == *old(self),
            !old(self).refreshing ==> r == Some(next_epoch(old(self).epoch)) && *final(self)
                == (SummaryRequests {
                epoch: next_epoch(old(self).epoch),
                refreshing: true,
                refresh_epoch: Some(next_epoch(old(self).epoch)),
            }),
    {
        if self.refreshing {
            return None;
        }
        self.refreshing = true;
        let request_epoch = self.begin_summary_request();
        self.refresh_epoch = Some(request_epoch);
        Some(request_epoch)
    }

    /// A recovery or a decision takes over the screen: any refresh stops counting.
    pub fn supersede_summary_refresh(&mut self)
        ensures
            final(self).epoch == old(self).epoch,
            !final(self).refreshing,
            final(self).refresh_epoch is None,
            final(self).wf(),
    {
        self.refresh_epoch = None;
        self.refreshing = false;
    }

    /// The refresh that started with `request_epoch` has its reply: it ends, if it is
    /// still the refresh that runs; otherwise nothing changes.
    pub fn finish_summary_refresh(&mut self, request_epoch: u64)
        requires
            old(self).wf(),
        ensures
            final(self).wf(),
            final(self).epoch == old(self).epoch,
            old(self).refresh_epoch == Some(request_epoch) ==> !final(self).refreshing
                && final(self).refresh_epoch is None,
            old(self).refresh_epoch != Some(request_epoch) ==> *final(self) == *old(self),
    {
        if self.refresh_epoch == Some(request_epoch) {
            self.refresh_epoch = None;
            self.refreshing = false;
        }
    }
}

/// Later requests make an earlier one stale: after `n` further requests, fewer than
/// there are epochs, the reply to the earlier epoch no longer changes the screen.
pub proof fn lemma_later_request_makes_earlier_stale(epoch: u64, n: nat)
    requires
        0 < n < 0x1_0000_0000_0000_0000,
    ensures
        epoch_after(epoch, n) != epoch,
{
    lemma_epoch_after_value(epoch, n);
}

proof fn lemma_epoch_after_value(epoch: u64, n: nat)
    ensures
        epoch_after(epoch, n) as int == (epoch + n) % 0x1_0000_0000_0000_0000,
    decreases n,
{
    if n > 0 {
        lemma_epoch_after_value(epoch, (n - 1) as nat);
    }
}

/// Whether a failed summary request means that the organizer capability was refused: the
/// server answered 404 or 422. `server_status` is the status of a server-side error, if
/// the failure was one.
pub fn organizer_authority_was_rejected(server_status: Option<u16>) -> (b: bool)
    ensures
        b == (server_status == Some(404u16) || server_status == Some(422u16)),
{
    match server_status {
        Some(code) => code == 404 || code == 422,
        None => false,
    }
}

/// What loading the organizer summary with the capability kept in the browser came to.
#[derive(Clone, Debug, PartialEq, Eq)]
pub enum StoredOrganizerSummaryLoad {
    MissingCapability,
    RejectedCapability,
    Loaded(Box<OrganizerEventSummary>),
    Failed,
}

/// Classifies the summary request made with the stored capability: `reply` is the summary
/// or the failure's server status, if it had one.
pub fn stored_summary_load(reply: Result<OrganizerEventSummary, Option<u16>>) -> (l:
    StoredOrganizerSummaryLoad)
    ensures
        match reply {
            Ok(summary) => l == StoredOrganizerSummaryLoad::Loaded(Box::new(summary)),
            Err(status) => if status == Some(404u16) || status == Some(422u16) {
                l == StoredOrganizerSummaryLoad::RejectedCapability
            } else {
                l == StoredOrganizerSummaryLoad::Failed
            },
        },
{
    match reply {
        Ok(summary) => StoredOrganizerSummaryLoad::Loaded(Box::new(summary)),
        Err(status) => if organizer_authority_was_rejected(status) {
            StoredOrganizerSummaryLoad::RejectedCapability
        } else {
            StoredOrganizerSummaryLoad::Failed
        },
    }
}

} // verus!
