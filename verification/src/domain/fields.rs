//! Shape checks for identifiers, capabilities, dates and times.

use vstd::prelude::*;
use vstd::string::*;
use crate::text::{
    all_digits, char_is_ascii_alphanumeric, char_is_ascii_digit, char_is_lower_hex, digits_value,
    is_ascii_alphanumeric, is_ascii_digit, is_lower_hex,
};

verus! {

/// A public identifier: 1 to 64 ASCII letters, digits or hyphens.
pub open spec fn is_public_id(s: Seq<char>) -> bool {
    &&& 1 <= s.len() <= 64
    &&& forall|i: int| 0 <= i < s.len() ==> #[trigger] is_ascii_alphanumeric(s[i]) || s[i] == '-'
}

/// A bearer capability: exactly 64 lowercase hexadecimal digits.
pub open spec fn is_capability(s: Seq<char>) -> bool {
    &&& s.len() == 64
    &&& forall|i: int| 0 <= i < s.len() ==> #[trigger] is_lower_hex(s[i])
}

/// The characters an IANA time-zone name may use, at most 64 of them.
pub open spec fn is_time_zone_shape(s: Seq<char>) -> bool {
    &&& 1 <= s.len() <= 64
    &&& forall|i: int|
        0 <= i < s.len() ==> #[trigger] is_ascii_alphanumeric(s[i]) || s[i] == '/' || s[i] == '_'
            || s[i] == '-' || s[i] == '+'
}

/// Whether the time-zone database that the server ships knows `name`.
pub uninterp spec fn known_time_zone(name: Seq<char>) -> bool;

/// A time-zone name of a safe shape that the time-zone database knows.
pub open spec fn is_time_zone_name(s: Seq<char>) -> bool {
    is_time_zone_shape(s) && known_time_zone(s)
}

/// What `u8::from_str` yields for a two-character ASCII text: two digits, or `+` and a digit.
pub open spec fn two_char_number(a: char, b: char) -> Option<nat> {
    if is_ascii_digit(a) && is_ascii_digit(b) {
        Some(((a as int - '0' as int) * 10 + (b as int - '0' as int)) as nat)
    } else if a == '+' && is_ascii_digit(b) {
        Some((b as int - '0' as int) as nat)
    } else {
        None
    }
}

/// What `i32::from_str` yields for a four-character text free of `-`: four digits, or `+` and three.
pub open spec fn four_char_number(s: Seq<char>) -> Option<nat> {
    if all_digits(s) {
        Some(digits_value(s))
    } else if s[0] == '+' && all_digits(s.drop_first()) {
        Some(digits_value(s.drop_first()))
    } else {
        None
    }
}

/// A 24-hour `HH:MM` wall-clock time.
pub open spec fn is_local_time(s: Seq<char>) -> bool {
    &&& s.len() == 5
    &&& s[2] == ':'
    &&& two_char_number(s[0], s[1]) matches Some(h) && h < 24
    &&& two_char_number(s[3], s[4]) matches Some(m) && m < 60
}

pub open spec fn is_leap_year(y: int) -> bool {
    y % 4 == 0 && (y % 100 != 0 || y % 400 == 0)
}

/// Days in month `m` (1 to 12) of the proleptic Gregorian year `y`.
pub open spec fn days_in_month(y: int, m: int) -> int {
    if m == 2 {
        if is_leap_year(y) { 29 } else { 28 }
    } else if m == 4 || m == 6 || m == 9 || m == 11 {
        30
    } else {
        31
    }
}

/// A `YYYY-MM-DD` date of the proleptic Gregorian calendar, from year 1 on.
pub open spec fn is_local_date(s: Seq<char>) -> bool {
    &&& s.len() == 10
    &&& s[4] == '-'
    &&& s[7] == '-'
    &&& four_char_number(s.take(4)) matches Some(y) && y >= 1
    &&& two_char_number(s[5], s[6]) matches Some(m) && 1 <= m <= 12
    &&& two_char_number(s[8], s[9]) matches Some(d)
    &&& 1 <= two_char_number(s[8], s[9])->0 <= days_in_month(
        four_char_number(s.take(4))->0 as int,
        two_char_number(s[5], s[6])->0 as int,
    )
}

pub fn public_id_is_valid(s: &str) -> (b: bool)
    ensures
        b == is_public_id(s@),
{
    let n = s.unicode_len();
    if n < 1 || n > 64 {
        return false;
    }
    let mut i: usize = 0;
    while i < n
        invariant
            n == s@.len(),
            i <= n,
            forall|k: int| 0 <= k < i ==> #[trigger] is_ascii_alphanumeric(s@[k]) || s@[k] == '-',
        decreases n - i,
    {
        let c = s.get_char(i);
        if !(char_is_ascii_alphanumeric(c) || c == '-') {
            return false;
        }
        i = i + 1;
    }
    true
}

pub fn capability_is_valid(s: &str) -> (b: bool)
    ensures
        b == is_capability(s@),
{
    let n = s.unicode_len();
    if n != 64 {
        return false;
    }
    let mut i: usize = 0;
    while i < n
        invariant
            n == s@.len(),
            i <= n,
            forall|k: int| 0 <= k < i ==> #[trigger] is_lower_hex(s@[k]),
        decreases n - i,
    {
        if !char_is_lower_hex(s.get_char(i)) {
            return false;
        }
        i = i + 1;
    }
    true
}

pub fn time_zone_shape_is_valid(s: &str) -> (b: bool)
    ensures
        b == is_time_zone_shape(s@),
{
    let n = s.unicode_len();
    if n < 1 || n > 64 {
        return false;
    }
    let mut i: usize = 0;
    while i < n
        invariant
            n == s@.len(),
            i <= n,
            forall|k: int|
                0 <= k < i ==> #[trigger] is_ascii_alphanumeric(s@[k]) || s@[k] == '/' || s@[k]
                    == '_' || s@[k] == '-' || s@[k] == '+',
        decreases n - i,
    {
        let c = s.get_char(i);
        if !(char_is_ascii_alphanumeric(c) || c == '/' || c == '_' || c == '-' || c == '+') {
            return false;
        }
        i = i + 1;
    }
    true
}

/// `name.parse::<chrono_tz::Tz>().is_ok()`: whether the bundled IANA database knows `name`.
#[verifier::external_body]
pub(crate) fn time_zone_is_known(name: &str) -> (b: bool)
    ensures
        b == known_time_zone(name@),
{
    name.parse::<chrono_tz::Tz>().is_ok()
}

/// A safe-shaped time-zone name that the bundled database knows.
pub fn time_zone_name_is_valid(s: &str) -> (b: bool)
    ensures
        b == is_time_zone_name(s@),
{
    if !time_zone_shape_is_valid(s) {
        return false;
    }
    time_zone_is_known(s)
}

fn char_digit_value(c: char) -> (v: u32)
    requires
        is_ascii_digit(c),
    ensures
        v == c as int - '0' as int,
{
    c as u32 - 48
}

pub fn parse_two_chars(a: char, b: char) -> (r: Option<u32>)
    ensures
        r matches Some(v) ==> two_char_number(a, b) == Some(v as nat),
        r is None ==> two_char_number(a, b) is None,
{
    if char_is_ascii_digit(a) && char_is_ascii_digit(b) {
        Some(char_digit_value(a) * 10 + char_digit_value(b))
    } else if a == '+' && char_is_ascii_digit(b) {
        Some(char_digit_value(b))
    } else {
        None
    }
}

pub fn local_time_is_valid(s: &str) -> (b: bool)
    ensures
        b == is_local_time(s@),
{
    if s.unicode_len() != 5 || s.get_char(2) != ':' {
        return false;
    }
    match (parse_two_chars(s.get_char(0), s.get_char(1)), parse_two_chars(s.get_char(3), s.get_char(4))) {
        (Some(h), Some(m)) => h < 24 && m < 60,
        _ => false,
    }
}

pub fn days_of_month(y: u32, m: u32) -> (d: u32)
    requires
        1 <= m <= 12,
    ensures
        d == days_in_month(y as int, m as int),
{
    if m == 2 {
        if y % 4 == 0 && (y % 100 != 0 || y % 400 == 0) {
            29
        } else {
            28
        }
    } else if m == 4 || m == 6 || m == 9 || m == 11 {
        30
    } else {
        31
    }
}

pub fn local_date_is_valid(s: &str) -> (b: bool)
    ensures
        b == is_local_date(s@),
{
    if s.unicode_len() != 10 || s.get_char(4) != '-' || s.get_char(7) != '-' {
        return false;
    }
    let c0 = s.get_char(0);
    let c1 = s.get_char(1);
    let c2 = s.get_char(2);
    let c3 = s.get_char(3);
    let ghost y4 = s@.take(4);
    assert(y4.drop_first() =~= seq![c1, c2, c3]);
    assert(y4 =~= seq![c0, c1, c2, c3]);
    assert(seq![c1, c2].drop_last() =~= seq![c1]);
    assert(seq![c1, c2, c3].drop_last() =~= seq![c1, c2]);
    assert(seq![c0, c1].drop_last() =~= seq![c0]);
    assert(seq![c0, c1, c2].drop_last() =~= seq![c0, c1]);
    assert(seq![c0, c1, c2, c3].drop_last() =~= seq![c0, c1, c2]);
    assert(seq![c1].drop_last() =~= Seq::<char>::empty());
    assert(seq![c0].drop_last() =~= Seq::<char>::empty());
    let tail_digits = char_is_ascii_digit(c1) && char_is_ascii_digit(c2) && char_is_ascii_digit(c3);
    let year: u32 = if char_is_ascii_digit(c0) && tail_digits {
        char_digit_value(c0) * 1000 + char_digit_value(c1) * 100 + char_digit_value(c2) * 10
            + char_digit_value(c3)
    } else if c0 == '+' && tail_digits {
        char_digit_value(c1) * 100 + char_digit_value(c2) * 10 + char_digit_value(c3)
    } else {
        assert(!all_digits(y4)) by {
            if !is_ascii_digit(c0) {
                assert(!is_ascii_digit(y4[0]));
            } else if !is_ascii_digit(c1) {
                assert(!is_ascii_digit(y4[1]));
            } else if !is_ascii_digit(c2) {
                assert(!is_ascii_digit(y4[2]));
            } else {
                assert(!is_ascii_digit(y4[3]));
            }
        }
        assert(y4[0] != '+' || !all_digits(y4.drop_first())) by {
            if c0 == '+' {
                if !is_ascii_digit(c1) {
                    assert(!is_ascii_digit(y4.drop_first()[0]));
                } else if !is_ascii_digit(c2) {
                    assert(!is_ascii_digit(y4.drop_first()[1]));
                } else {
                    assert(!is_ascii_digit(y4.drop_first()[2]));
                }
            }
        }
        return false;
    };
    assert(four_char_number(y4) == Some(year as nat)) by {
        reveal_with_fuel(digits_value, 5);
        if is_ascii_digit(c0) && tail_digits {
            assert(all_digits(y4));
        } else {
            assert(!is_ascii_digit(y4[0]));
            assert(all_digits(y4.drop_first()));
        }
    }
    if year < 1 {
        return false;
    }
    match (parse_two_chars(s.get_char(5), s.get_char(6)), parse_two_chars(s.get_char(8), s.get_char(9))) {
        (Some(m), Some(d)) => {
            if m < 1 || m > 12 {
                return false;
            }
            1 <= d && d <= days_of_month(year, m)
        },
        _ => false,
    }
}

} // verus!
