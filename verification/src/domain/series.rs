//! Recurring-activity names of the strict form `name #N`.

use vstd::prelude::*;
use vstd::string::*;
use crate::text::{
    all_digits, decimal, digits_value, is_ascii_digit, is_white_space, lemma_decimal_digits,
    lemma_trimmed_ends, lemma_trimmed_identity, char_is_white_space, parse_digits_u64, push_char,
    push_decimal, str_all_digits, trim, trimmed,
};

verus! {

pub const EVENT_NAME_MAX_CHARS: usize = 100;

/// `k` starts a ` #` separator followed by nothing but (at least one) ASCII digit.
pub open spec fn is_series_split(s: Seq<char>, k: int) -> bool {
    &&& 0 <= k
    &&& k + 2 < s.len()
    &&& s[k] == ' '
    &&& s[k + 1] == '#'
    &&& all_digits(s.subrange(k + 2, s.len() as int))
}

/// The base and positive number of a name ending exactly in ` #N`: no zero padding, a
/// non-empty base not ending in white space, and `N` within `u64`.
pub open spec fn series_suffix(s: Seq<char>) -> Option<(Seq<char>, nat)> {
    if exists|k: int| is_series_split(s, k) {
        let k = choose|k: int| is_series_split(s, k);
        let base = s.take(k);
        let digits = s.subrange(k + 2, s.len() as int);
        if base.len() > 0 && !is_white_space(base.last()) && digits[0] != '0' && digits_value(
            digits,
        ) <= u64::MAX && digits_value(digits) > 0 {
            Some((base, digits_value(digits)))
        } else {
            None
        }
    } else {
        None
    }
}

/// The next name of a strictly numbered activity, when it fits in an event name.
pub open spec fn suggested_next_name(name: Seq<char>) -> Option<Seq<char>> {
    match series_suffix(trimmed(name)) {
        Some((base, n)) => if n + 1 <= u64::MAX && (base + seq![' ', '#'] + decimal(n + 1)).len()
            <= EVENT_NAME_MAX_CHARS {
            Some(base + seq![' ', '#'] + decimal(n + 1))
        } else {
            None
        },
        None => None,
    }
}

/// The display label of the activity an event name belongs to.
pub open spec fn series_name(name: Seq<char>) -> Seq<char> {
    match series_suffix(trimmed(name)) {
        Some((base, _)) => base,
        None => trimmed(name),
    }
}

pub proof fn lemma_series_split_unique(s: Seq<char>, k1: int, k2: int)
    requires
        is_series_split(s, k1),
        is_series_split(s, k2),
    ensures
        k1 == k2,
{
    if k1 < k2 {
        assert(k2 != k1 + 1);
        assert(s.subrange(k1 + 2, s.len() as int)[k2 - k1 - 2] == s[k2]);
        assert(is_ascii_digit(s.subrange(k1 + 2, s.len() as int)[k2 - k1 - 2]));
    } else if k2 < k1 {
        assert(k1 != k2 + 1);
        assert(s.subrange(k2 + 2, s.len() as int)[k1 - k2 - 2] == s[k1]);
        assert(is_ascii_digit(s.subrange(k2 + 2, s.len() as int)[k1 - k2 - 2]));
    }
}

proof fn lemma_no_series_split(s: Seq<char>, k: int)
    requires
        0 <= k,
        k + 1 < s.len(),
        s[k] == ' ',
        s[k + 1] == '#',
        forall|j: int| k < j < s.len() - 1 ==> !(#[trigger] s[j] == ' ' && s[j + 1] == '#'),
        !(k + 2 < s.len() && all_digits(s.subrange(k + 2, s.len() as int))),
    ensures
        !exists|k2: int| is_series_split(s, k2),
{
    assert forall|k2: int| !is_series_split(s, k2) by {
        if is_series_split(s, k2) {
            if k2 < k {
                assert(k != k2 + 1);
                assert(s.subrange(k2 + 2, s.len() as int)[k - k2 - 2] == s[k]);
                assert(is_ascii_digit(s.subrange(k2 + 2, s.len() as int)[k - k2 - 2]));
            } else if k2 > k {
                assert(s[k2] == ' ' && s[k2 + 1] == '#');
            }
        }
    }
}

/// Split off a strict trailing ` #N` with a positive, unpadded `N`.
pub fn strict_series_suffix(event_name: &str) -> (r: Option<(&str, u64)>)
    ensures
        match r {
            Some((base, n)) => series_suffix(event_name@) == Some((base@, n as nat)),
            None => series_suffix(event_name@) is None,
        },
{
    let ghost s = event_name@;
    let len = event_name.unicode_len();
    if len < 2 {
        assert(!exists|k: int| is_series_split(s, k));
        return None;
    }
    let mut j: usize = len - 1;
    let mut found = false;
    while j > 0
        invariant_except_break
            !found,
            forall|k: int| j <= k < len - 1 ==> !(#[trigger] s[k] == ' ' && s[k + 1] == '#'),
        invariant
            len == s.len(),
            s == event_name@,
            len >= 2,
            j < len,
        ensures
            found ==> j + 1 < len && s[j as int] == ' ' && s[j + 1] == '#' && forall|k: int|
                j < k < len - 1 ==> !(#[trigger] s[k] == ' ' && s[k + 1] == '#'),
            !found ==> forall|k: int| 0 <= k < len - 1 ==> !(#[trigger] s[k] == ' ' && s[k + 1] == '#'),
        decreases j,
    {
        j = j - 1;
        if event_name.get_char(j) == ' ' && event_name.get_char(j + 1) == '#' {
            found = true;
            break;
        }
    }
    if !found {
        assert forall|k: int| !is_series_split(s, k) by {
            if is_series_split(s, k) {
                assert(s[k] == ' ' && s[k + 1] == '#');
            }
        }
        return None;
    }
    let k = j;
    assert(s[k as int] == ' ' && s[k + 1] == '#');
    if k + 2 >= len {
        proof {
            lemma_no_series_split(s, k as int);
        }
        return None;
    }
    let digits = event_name.substring_char(k + 2, len);
    if !str_all_digits(digits) {
        proof {
            lemma_no_series_split(s, k as int);
        }
        return None;
    }
    assert(is_series_split(s, k as int));
    proof {
        let c = choose|k2: int| is_series_split(s, k2);
        lemma_series_split_unique(s, c, k as int);
    }
    let base = event_name.substring_char(0, k);
    assert(base@ =~= s.take(k as int));
    if k == 0 || char_is_white_space(base.get_char(k - 1)) || digits.get_char(0) == '0' {
        return None;
    }
    match parse_digits_u64(digits) {
        Some(number) => {
            if number > 0 {
                Some((base, number))
            } else {
                None
            }
        },
        None => None,
    }
}

/// Suggest only an exact, positive, unpadded trailing ` #N` successor.
pub fn suggest_next_event_name(event_name: &str) -> (r: Option<String>)
    ensures
        match r {
            Some(s) => suggested_next_name(event_name@) == Some(s@),
            None => suggested_next_name(event_name@) is None,
        },
{
    let trimmed_name = trim(event_name);
    match strict_series_suffix(trimmed_name.as_str()) {
        None => None,
        Some((base, number)) => {
            if number == u64::MAX {
                return None;
            }
            let next = number + 1;
            let mut suggestion = String::from_str(base);
            push_char(&mut suggestion, ' ');
            push_char(&mut suggestion, '#');
            push_decimal(&mut suggestion, next);
            assert(suggestion@ =~= base@ + seq![' ', '#'] + decimal(next as nat));
            if suggestion.unicode_len() <= EVENT_NAME_MAX_CHARS {
                Some(suggestion)
            } else {
                None
            }
        },
    }
}

/// Derive a display label without making the event name the series identity.
pub fn derive_event_series_name(event_name: &str) -> (r: String)
    ensures
        r@ == series_name(event_name@),
{
    let trimmed_name = trim(event_name);
    match strict_series_suffix(trimmed_name.as_str()) {
        Some((base, _)) => String::from_str(base),
        None => trimmed_name,
    }
}

/// A suggested next name belongs to the same activity as the name it continues, and its
/// number is one more.
pub proof fn lemma_suggestion_continues_series(name: Seq<char>)
    requires
        suggested_next_name(name) is Some,
    ensures
        series_suffix(suggested_next_name(name)->0) == Some(
            (series_name(name), (series_suffix(trimmed(name))->0).1 + 1),
        ),
        series_name(suggested_next_name(name)->0) == series_name(name),
{
    let t = trimmed(name);
    let (base, n) = series_suffix(t)->0;
    let m = n + 1;
    let s = base + seq![' ', '#'] + decimal(m);
    let k = choose|k: int| is_series_split(t, k);
    lemma_trimmed_ends(name);
    lemma_decimal_digits(m);
    let k2 = base.len() as int;
    assert(s.subrange(k2 + 2, s.len() as int) =~= decimal(m));
    assert(s[k2] == ' ' && s[k2 + 1] == '#');
    assert(is_series_split(s, k2));
    assert(s.take(k2) =~= base);
    let c = choose|c: int| is_series_split(s, c);
    lemma_series_split_unique(s, c, k2);
    assert(base[0] == t[0]);
    assert(s[0] == base[0]);
    assert(s.last() == decimal(m).last());
    assert(is_ascii_digit(decimal(m)[decimal(m).len() - 1]));
    lemma_trimmed_identity(s);
    assert(series_suffix(s) == Some((base, m)));
}

} // verus!
