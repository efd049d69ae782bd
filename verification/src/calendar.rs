//! Small, deterministic iCalendar serialization for one decided event.

use vstd::prelude::*;
use chrono::{Offset, TimeZone};
use vstd::string::*;
use vstd::utf8::{encode_scalar, encode_utf8};
use crate::domain::event::ORGANIZER_NOTE_MAX_CHARS;
use crate::domain::fields::{
    is_time_zone_shape, known_time_zone, time_zone_is_known, time_zone_shape_is_valid,
};
use crate::domain::series::EVENT_NAME_MAX_CHARS;
use crate::text::{char_is_control, is_control, push_char, str_contains_char, trim, trimmed};

verus! {

/// Octets allowed on one physical content line, line break excluded.
pub const CONTENT_LINE_OCTETS: usize = 75;

/// Minutes searched backwards for the wall-clock offset in force before a gap.
pub const GAP_SEARCH_MINUTES: i64 = 2880;

// ---------------------------------------------------------------------------
// TEXT escaping
// ---------------------------------------------------------------------------

/// What one character of a TEXT value becomes; `None` for a forbidden control character.
pub open spec fn escape_piece(c: char) -> Option<Seq<char>> {
    if c == '\\' {
        Some(seq!['\\', '\\'])
    } else if c == ',' {
        Some(seq!['\\', ','])
    } else if c == ';' {
        Some(seq!['\\', ';'])
    } else if c == '\r' || c == '\n' {
        Some(seq!['\\', 'n'])
    } else if c == '\t' {
        Some(seq!['\t'])
    } else if is_control(c) {
        None
    } else {
        Some(seq![c])
    }
}

/// The characters that one escape step consumes: a CR directly followed by LF counts as
/// one line break.
pub open spec fn escape_step(s: Seq<char>) -> int {
    if s.len() > 1 && s[0] == '\r' && s[1] == '\n' {
        2
    } else {
        1
    }
}

/// RFC 5545 TEXT escaping of `s`; `None` when `s` holds a control character other than
/// tab, CR or LF.
pub open spec fn escaped(s: Seq<char>) -> Option<Seq<char>>
    decreases s.len(),
{
    if s.len() == 0 {
        Some(Seq::empty())
    } else {
        match (escape_piece(s[0]), escaped(s.skip(escape_step(s)))) {
            (Some(p), Some(r)) => Some(p + r),
            _ => None,
        }
    }
}

pub open spec fn prepend(a: Seq<char>, o: Option<Seq<char>>) -> Option<Seq<char>> {
    match o {
        Some(x) => Some(a + x),
        None => None,
    }
}

/// Whether a line break (CR or LF) occurs in `s`.
pub open spec fn has_line_break(s: Seq<char>) -> bool {
    s.contains('\r') || s.contains('\n')
}

/// Escaped TEXT never holds a line break: every CR and LF became `\n`.
pub proof fn lemma_escaped_has_no_line_break(s: Seq<char>)
    ensures
        escaped(s) matches Some(t) ==> !has_line_break(t),
    decreases s.len(),
{
    if s.len() > 0 {
        lemma_escaped_has_no_line_break(s.skip(escape_step(s)));
        if let (Some(p), Some(r)) = (escape_piece(s[0]), escaped(s.skip(escape_step(s)))) {
            let t = p + r;
            assert forall|i: int| 0 <= i < t.len() implies t[i] != '\r' && t[i] != '\n' by {
                if i >= p.len() {
                    assert(t[i] == r[i - p.len()]);
                    assert(!r.contains(r[i - p.len()]) ==> false);
                }
            }
        }
    }
}

/// Escaping fails exactly when `s` holds a control character other than tab, CR and LF.
pub proof fn lemma_escaped_fails_on_control(s: Seq<char>)
    ensures
        escaped(s) is None <==> exists|i: int|
            0 <= i < s.len() && #[trigger] escape_piece(s[i]) is None,
    decreases s.len(),
{
    if s.len() > 0 {
        let k = escape_step(s);
        let rest = s.skip(k);
        lemma_escaped_fails_on_control(rest);
        if escape_piece(s[0]) is None {
            assert(escape_piece(s[0]) is None);
        } else if escaped(rest) is None {
            let j = choose|j: int| 0 <= j < rest.len() && #[trigger] escape_piece(rest[j]) is None;
            assert(rest[j] == s[j + k]);
        } else {
            assert forall|i: int| 0 <= i < s.len() implies !(#[trigger] escape_piece(s[i]) is None) by {
                if i >= k {
                    assert(s[i] == rest[i - k]);
                } else if i == 1 {
                    assert(s[1] == '\n');
                }
            }
        }
    }
}

/// Escape a TEXT property value.
pub fn escape_text(value: &str) -> (r: Option<String>)
    ensures
        match r {
            Some(t) => escaped(value@) == Some(t@),
            None => escaped(value@) is None,
        },
{
    let n = value.unicode_len();
    let mut out = String::new();
    let mut i: usize = 0;
    proof {
        assert(value@.skip(0) =~= value@);
        if let Some(x) = escaped(value@) {
            assert(out@ + x =~= x);
        }
    }
    while i < n
        invariant
            n == value@.len(),
            i <= n,
            escaped(value@) == prepend(out@, escaped(value@.skip(i as int))),
        decreases n - i,
    {
        let ghost rest = value@.skip(i as int);
        let c = value.get_char(i);
        let two = c == '\r' && i + 1 < n && value.get_char(i + 1) == '\n';
        let step: usize = if two {
            2
        } else {
            1
        };
        assert(rest[0] == c);
        assert(escape_step(rest) == step);
        assert(rest.skip(step as int) =~= value@.skip(i + step));
        let ghost before = out@;
        if c == '\\' {
            push_char(&mut out, '\\');
            push_char(&mut out, '\\');
        } else if c == ',' {
            push_char(&mut out, '\\');
            push_char(&mut out, ',');
        } else if c == ';' {
            push_char(&mut out, '\\');
            push_char(&mut out, ';');
        } else if c == '\r' || c == '\n' {
            push_char(&mut out, '\\');
            push_char(&mut out, 'n');
        } else if c == '\t' {
            push_char(&mut out, '\t');
        } else if char_is_control(c) {
            return None;
        } else {
            push_char(&mut out, c);
        }
        proof {
            let p = escape_piece(c)->0;
            assert(out@ =~= before + p);
            match escaped(value@.skip(i + step)) {
                Some(x) => {
                    assert(before + (p + x) =~= out@ + x);
                },
                None => {},
            }
        }
        i = i + step;
    }
    assert(value@.skip(n as int) =~= Seq::<char>::empty());
    assert(out@ + Seq::<char>::empty() =~= out@);
    Some(out)
}

// ---------------------------------------------------------------------------
// Content-line folding
// ---------------------------------------------------------------------------

/// UTF-8 octets of one character.
pub open spec fn char_octets(c: char) -> nat {
    encode_scalar(c as u32).len()
}

/// UTF-8 octets of a text.
pub open spec fn octets(s: Seq<char>) -> nat {
    encode_utf8(s).len()
}

/// The number of leading characters of `s` whose octets fit in `budget`.
pub open spec fn fit(s: Seq<char>, budget: int) -> nat
    decreases s.len(),
{
    if s.len() == 0 || char_octets(s[0]) > budget {
        0
    } else {
        1 + fit(s.drop_first(), budget - char_octets(s[0]))
    }
}

pub proof fn lemma_char_octets(c: char)
    ensures
        1 <= char_octets(c) <= 4,
        char_octets(c) == (if c <= '\u{7F}' {
            1nat
        } else if c <= '\u{7FF}' {
            2nat
        } else if c <= '\u{FFFF}' {
            3nat
        } else {
            4nat
        }),
{
    vstd::utf8::char_is_scalar(c);
}

pub proof fn lemma_fit_bounds(s: Seq<char>, budget: int)
    ensures
        fit(s, budget) <= s.len(),
        budget >= 4 && s.len() > 0 ==> fit(s, budget) > 0,
    decreases s.len(),
{
    if s.len() > 0 {
        lemma_char_octets(s[0]);
        lemma_fit_bounds(s.drop_first(), budget - char_octets(s[0]));
    }
}

/// The octets the content of a physical line may take: the whole budget on the first
/// line, one less on each continuation line, whose leading space takes one.
pub open spec fn line_budget(first: bool) -> int {
    if first {
        CONTENT_LINE_OCTETS as int
    } else {
        CONTENT_LINE_OCTETS as int - 1
    }
}

/// The contents of the physical lines after folding: each line greedily takes as many
/// characters as fit in its budget.
pub open spec fn chunks(s: Seq<char>, first: bool) -> Seq<Seq<char>>
    decreases s.len(),
{
    if s.len() == 0 {
        Seq::empty()
    } else {
        let n = fit(s, line_budget(first));
        if n == 0 {
            Seq::empty()
        } else {
            proof {
                lemma_fit_bounds(s, line_budget(first));
            }
            seq![s.take(n as int)] + chunks(s.skip(n as int), false)
        }
    }
}

pub open spec fn line_break() -> Seq<char> {
    seq!['\r', '\n']
}

/// A line break followed by the space that marks a continuation line.
pub open spec fn fold_break() -> Seq<char> {
    seq!['\r', '\n', ' ']
}

/// The chunks joined by folding breaks.
pub open spec fn joined(cs: Seq<Seq<char>>) -> Seq<char>
    decreases cs.len(),
{
    if cs.len() == 0 {
        Seq::empty()
    } else if cs.len() == 1 {
        cs[0]
    } else {
        joined(cs.drop_last()) + fold_break() + cs.last()
    }
}

/// The chunks put back together.
pub open spec fn concatenated(cs: Seq<Seq<char>>) -> Seq<char>
    decreases cs.len(),
{
    if cs.len() == 0 {
        Seq::empty()
    } else {
        cs[0] + concatenated(cs.drop_first())
    }
}

/// A content line folded into physical lines, each ended by CRLF.
pub open spec fn folded_line(s: Seq<char>) -> Seq<char> {
    joined(chunks(s, true)) + line_break()
}

pub proof fn lemma_octets_step(s: Seq<char>)
    requires
        s.len() > 0,
    ensures
        octets(s) == char_octets(s[0]) + octets(s.drop_first()),
{
}

/// The characters that `fit` keeps take at most `budget` octets.
pub proof fn lemma_fit_octets(s: Seq<char>, budget: int)
    ensures
        octets(s.take(fit(s, budget) as int)) <= if budget < 0 {
            0
        } else {
            budget
        },
    decreases s.len(),
{
    let n = fit(s, budget);
    lemma_fit_bounds(s, budget);
    if n == 0 {
        assert(s.take(0) =~= Seq::<char>::empty());
    } else {
        let t = s.take(n as int);
        lemma_fit_octets(s.drop_first(), budget - char_octets(s[0]));
        assert(t.drop_first() =~= s.drop_first().take(n - 1));
        lemma_octets_step(t);
    }
}

/// Folding keeps every character: the physical lines' contents put together are the
/// content line again.
pub proof fn lemma_chunks_concatenate(s: Seq<char>, first: bool)
    ensures
        concatenated(chunks(s, first)) == s,
    decreases s.len(),
{
    if s.len() > 0 {
        lemma_fit_bounds(s, line_budget(first));
        let n = fit(s, line_budget(first));
        lemma_chunks_concatenate(s.skip(n as int), false);
        assert(chunks(s, first).drop_first() =~= chunks(s.skip(n as int), false));
        assert(s.take(n as int) + s.skip(n as int) =~= s);
    }
}

/// No physical line is empty or longer than allowed: the first takes at most 75 octets,
/// each continuation line at most 74 after its leading space.
pub proof fn lemma_chunks_fit(s: Seq<char>, first: bool)
    ensures
        forall|i: int|
            0 <= i < chunks(s, first).len() ==> #[trigger] chunks(s, first)[i].len() > 0
                && octets(chunks(s, first)[i]) <= line_budget(first && i == 0),
    decreases s.len(),
{
    if s.len() > 0 {
        let b = line_budget(first);
        lemma_fit_bounds(s, b);
        lemma_fit_octets(s, b);
        let n = fit(s, b);
        let rest = chunks(s.skip(n as int), false);
        lemma_chunks_fit(s.skip(n as int), false);
        let cs = chunks(s, first);
        assert forall|i: int| 0 <= i < cs.len() implies #[trigger] cs[i].len() > 0 && octets(cs[i])
            <= line_budget(first && i == 0) by {
            if i > 0 {
                assert(cs[i] == rest[i - 1]);
            }
        }
    }
}

/// Calendar output is all-or-nothing when persisted data cannot be represented safely.
#[derive(Clone, Copy, Debug, PartialEq, Eq, Structural)]
pub enum IcalendarError {
    InvalidData,
}

impl IcalendarError {
    /// The error's description.
    pub fn message(&self) -> (s: &'static str)
        ensures
            s@ == "event data cannot form a safe iCalendar object"@,
    {
        "event data cannot form a safe iCalendar object"
    }
}

fn char_width(c: char) -> (w: usize)
    ensures
        w == char_octets(c),
{
    proof {
        lemma_char_octets(c);
    }
    if c <= '\u{7F}' {
        1
    } else if c <= '\u{7FF}' {
        2
    } else if c <= '\u{FFFF}' {
        3
    } else {
        4
    }
}

/// The joined chunks with one more chunk after them.
proof fn lemma_joined_push(cs: Seq<Seq<char>>, c: Seq<char>)
    ensures
        joined(cs.push(c)) == if cs.len() == 0 {
            c
        } else {
            joined(cs) + fold_break() + c
        },
{
    assert(cs.push(c).drop_last() =~= cs);
}

/// Append `content_line`, folded into physical lines of at most 75 octets and ended by
/// CRLF, to `output`; a content line that holds a line break is refused.
pub fn append_folded_content_line(output: &mut String, content_line: &str) -> (r: Result<
    (),
    IcalendarError,
>)
    ensures
        has_line_break(content_line@) ==> r == Err::<(), IcalendarError>(
            IcalendarError::InvalidData,
        ) && final(output)@ == old(output)@,
        !has_line_break(content_line@) ==> r == Ok::<(), IcalendarError>(()) && final(output)@
            == old(output)@ + folded_line(content_line@),
{
    if str_contains_char(content_line, '\r') || str_contains_char(content_line, '\n') {
        return Err(IcalendarError::InvalidData);
    }
    let ghost line = content_line@;
    let ghost start = output@;
    let ghost mut done: Seq<Seq<char>> = Seq::empty();
    let n = content_line.unicode_len();
    let mut i: usize = 0;
    let mut first = true;
    assert(line.skip(0) =~= line);
    assert(done + chunks(line, true) =~= chunks(line, true));
    while i < n
        invariant
            n == line.len(),
            line == content_line@,
            i <= n,
            chunks(line, true) == done + chunks(line.skip(i as int), first),
            output@ == start + joined(done),
            first <==> done.len() == 0,
        decreases n - i,
    {
        let limit: usize = if first {
            CONTENT_LINE_OCTETS
        } else {
            CONTENT_LINE_OCTETS - 1
        };
        let mut used: usize = 0;
        let mut j: usize = i;
        assert(line.skip(j as int) =~= line.skip(i as int));
        while j < n && used + char_width(content_line.get_char(j)) <= limit
            invariant
                n == line.len(),
                line == content_line@,
                i <= j <= n,
                used <= limit,
                limit == line_budget(first),
                fit(line.skip(i as int), limit as int) == (j - i) + fit(
                    line.skip(j as int),
                    limit - used,
                ),
            decreases n - j,
        {
            let ghost rest = line.skip(j as int);
            let w = char_width(content_line.get_char(j));
            assert(rest[0] == line[j as int]);
            assert(rest.drop_first() =~= line.skip(j + 1));
            used = used + w;
            j = j + 1;
        }
        proof {
            let rest = line.skip(j as int);
            if j < n {
                assert(rest[0] == line[j as int]);
            }
            assert(fit(rest, limit - used) == 0);
            lemma_fit_bounds(line.skip(i as int), limit as int);
        }
        let ghost chunk = line.subrange(i as int, j as int);
        let ghost before = output@;
        if !first {
            push_char(output, '\r');
            push_char(output, '\n');
            push_char(output, ' ');
        }
        let ghost sep = output@;
        let mut k: usize = i;
        while k < j
            invariant
                line == content_line@,
                i <= k <= j <= n,
                n == line.len(),
                output@ == sep + line.subrange(i as int, k as int),
            decreases j - k,
        {
            push_char(output, content_line.get_char(k));
            assert(line.subrange(i as int, k + 1) =~= line.subrange(i as int, k as int).push(
                line[k as int],
            ));
            k = k + 1;
        }
        proof {
            lemma_joined_push(done, chunk);
            let tail = line.skip(i as int);
            assert(tail.take(j - i) =~= chunk);
            assert(tail.skip(j - i) =~= line.skip(j as int));
            assert(chunks(tail, first) =~= seq![chunk] + chunks(line.skip(j as int), false));
            assert(done + (seq![chunk] + chunks(line.skip(j as int), false)) =~= done.push(chunk)
                + chunks(line.skip(j as int), false));
            if first {
                assert(output@ =~= start + joined(done.push(chunk)));
            } else {
                assert(output@ =~= start + joined(done.push(chunk)));
            }
            done = done.push(chunk);
        }
        i = j;
        first = false;
    }
    proof {
        assert(line.skip(n as int) =~= Seq::<char>::empty());
        assert(done + Seq::<Seq<char>>::empty() =~= done);
    }
    let ghost body = output@;
    push_char(output, '\r');
    push_char(output, '\n');
    assert(output@ =~= start + folded_line(line));
    Ok(())
}

// ---------------------------------------------------------------------------
// Event data, time zones and the rendered object
// ---------------------------------------------------------------------------

/// All public data needed to generate one non-recurring calendar event.
#[derive(Clone, Debug, PartialEq, Eq)]
pub struct IcalendarEvent {
    pub public_id: String,
    pub name: String,
    pub organizer_note: Option<String>,
    pub time_zone: String,
    pub local_date: String,
    pub local_time: String,
    pub generated_at_utc: String,
}

/// Whether `uuid::Uuid::parse_str` accepts `text`.
pub uninterp spec fn uuid_parses(text: Seq<char>) -> bool;

/// The format of a UTC stamp in the file: `20260918T100000Z`.
pub const COMPACT_UTC_FORMAT: &'static str = "%Y%m%dT%H%M%SZ";

/// The format a candidate's local date and time are read in together.
pub const LOCAL_DATE_TIME_FORMAT: &'static str = "%Y-%m-%d %H:%M";

/// Whether chrono reads `text` as a date-time in the format `format`.
pub uninterp spec fn naive_date_time_parses(text: Seq<char>, format: Seq<char>) -> bool;

/// The date-time that chrono reads from `text` in the format `format`, as seconds since
/// 1970-01-01T00:00 on the same wall clock.
pub uninterp spec fn naive_date_time_seconds(text: Seq<char>, format: Seq<char>) -> Option<int>;

/// Whether chrono reads `text` as a UTC stamp.
pub open spec fn compact_utc_parses(text: Seq<char>) -> bool {
    naive_date_time_parses(text, COMPACT_UTC_FORMAT@)
}

/// The wall-clock seconds that chrono reads from a candidate's local date and time.
pub open spec fn naive_local_seconds(text: Seq<char>) -> Option<int> {
    naive_date_time_seconds(text, LOCAL_DATE_TIME_FORMAT@)
}

/// What the time-zone database says of a wall-clock time.
#[derive(Clone, Copy, Debug, PartialEq, Eq, Structural)]
pub enum ZoneLookup {
    /// The time occurs once, at this offset (local minus UTC, in seconds).
    Single(i32),
    /// The time occurs twice, at the earlier and at the later offset.
    Ambiguous(i32, i32),
    /// The time falls in a gap and never occurs.
    Gap,
    /// The zone is unknown or the time lies outside the representable range.
    Invalid,
}

/// What `chrono_tz` answers for the wall-clock time `local_seconds` in `zone`.
pub uninterp spec fn zone_offsets(zone: Seq<char>, local_seconds: int) -> ZoneLookup;

/// The UTC instant `utc_seconds` formatted by chrono in the format `format`, if chrono can
/// represent the instant.
pub uninterp spec fn utc_formatted(utc_seconds: int, format: Seq<char>) -> Option<Seq<char>>;

/// The UTC instant `utc_seconds` as a UTC stamp, if chrono can represent it.
pub open spec fn compact_utc_text(utc_seconds: int) -> Option<Seq<char>> {
    utc_formatted(utc_seconds, COMPACT_UTC_FORMAT@)
}

/// `uuid::Uuid::parse_str(text).is_ok()`: simple, hyphenated, URN and braced forms are
/// accepted; the exact grammar is the crate's.
#[verifier::external_body]
pub(crate) fn uuid_text_parses(text: &str) -> (b: bool)
    ensures
        b == uuid_parses(text@),
{
    uuid::Uuid::parse_str(text).is_ok()
}

/// `NaiveDateTime::parse_from_str(text, format).is_ok()`.
#[verifier::external_body]
fn naive_date_time_text_parses(text: &str, format: &str) -> (b: bool)
    ensures
        b == naive_date_time_parses(text@, format@),
{
    chrono::NaiveDateTime::parse_from_str(text, format).is_ok()
}

/// `NaiveDateTime::parse_from_str(text, format)`, taken as seconds since the epoch on the
/// same wall clock.
#[verifier::external_body]
fn parse_naive_date_time(text: &str, format: &str) -> (r: Option<i64>)
    ensures
        naive_date_time_seconds(text@, format@) == match r {
            Some(x) => Some(x as int),
            None => None::<int>,
        },
{
    chrono::NaiveDateTime::parse_from_str(text, format).ok().map(
        |t| t.and_utc().timestamp(),
    )
}

/// `zone.parse::<chrono_tz::Tz>()` and then `from_local_datetime` on the wall-clock time
/// `local_seconds`, with each resulting offset as `local_minus_utc`.
#[verifier::external_body]
pub(crate) fn lookup_zone_offsets(zone: &str, local_seconds: i64) -> (r: ZoneLookup)
    ensures
        r == zone_offsets(zone@, local_seconds as int),
{
    let (Ok(tz), Some(at)) = (zone.parse::<chrono_tz::Tz>(), chrono::DateTime::from_timestamp(local_seconds, 0)) else {
        return ZoneLookup::Invalid;
    };
    match tz.from_local_datetime(&at.naive_utc()) {
        chrono::LocalResult::Single(t) => ZoneLookup::Single(t.offset().fix().local_minus_utc()),
        chrono::LocalResult::Ambiguous(a, b) => ZoneLookup::Ambiguous(
            a.offset().fix().local_minus_utc(),
            b.offset().fix().local_minus_utc(),
        ),
        chrono::LocalResult::None => ZoneLookup::Gap,
    }
}

/// `DateTime::<Utc>::from_timestamp(utc_seconds, 0)` formatted in the format `format`.
/// Rendering an invalid format panics, so only the UTC stamp's format is taken.
#[verifier::external_body]
fn format_utc(utc_seconds: i64, format: &str) -> (r: Option<String>)
    requires
        format@ == COMPACT_UTC_FORMAT@,
    ensures
        utc_formatted(utc_seconds as int, format@) == match r {
            Some(t) => Some(t@),
            None => None::<Seq<char>>,
        },
{
    chrono::DateTime::from_timestamp(utc_seconds, 0).map(|t| t.format(format).to_string())
}

/// Everything an event must satisfy before it is rendered.
pub open spec fn event_fields_valid(e: IcalendarEvent) -> bool {
    &&& uuid_parses(e.public_id@)
    &&& trimmed(e.name@).len() > 0
    &&& e.name@.len() <= EVENT_NAME_MAX_CHARS
    &&& (e.organizer_note matches Some(n) ==> n@.len() <= ORGANIZER_NOTE_MAX_CHARS)
    &&& is_time_zone_shape(e.time_zone@)
    &&& octets(e.generated_at_utc@) == 16
    &&& compact_utc_parses(e.generated_at_utc@)
}

/// Refuse event data that cannot form a safe calendar object.
pub fn validate_event(event: &IcalendarEvent) -> (r: Result<(), IcalendarError>)
    ensures
        r is Ok <==> event_fields_valid(*event),
        r is Err ==> r == Err::<(), IcalendarError>(IcalendarError::InvalidData),
{
    if !uuid_text_parses(event.public_id.as_str()) {
        return Err(IcalendarError::InvalidData);
    }
    let name = trim(event.name.as_str());
    let note_too_long = match &event.organizer_note {
        Some(note) => note.as_str().unicode_len() > ORGANIZER_NOTE_MAX_CHARS,
        None => false,
    };
    if name.as_str().unicode_len() == 0 || event.name.as_str().unicode_len()
        > EVENT_NAME_MAX_CHARS || note_too_long || !time_zone_shape_is_valid(
        event.time_zone.as_str(),
    ) || event.generated_at_utc.as_str().as_bytes().len() != 16 || !naive_date_time_text_parses(
        event.generated_at_utc.as_str(),
        COMPACT_UTC_FORMAT,
    ) {
        return Err(IcalendarError::InvalidData);
    }
    Ok(())
}

/// `x`, when it fits in an `i64`.
pub open spec fn in_i64(x: int) -> Option<int> {
    if i64::MIN <= x <= i64::MAX {
        Some(x)
    } else {
        None
    }
}

/// The offset in force just before a gap: searching back minute by minute, from one
/// minute before `local` up to `GAP_SEARCH_MINUTES`, the first wall-clock time that
/// exists gives it (the later offset where that time occurs twice).
pub open spec fn gap_offset_from(zone: Seq<char>, local: int, m: int) -> Option<int>
    decreases GAP_SEARCH_MINUTES + 1 - m,
{
    if m < 1 || m > GAP_SEARCH_MINUTES {
        None
    } else {
        match in_i64(local - 60 * m) {
            None => None,
            Some(prior) => match zone_offsets(zone, prior) {
                ZoneLookup::Single(o) => Some(o as int),
                ZoneLookup::Ambiguous(_, last) => Some(last as int),
                ZoneLookup::Gap => gap_offset_from(zone, local, m + 1),
                ZoneLookup::Invalid => None,
            },
        }
    }
}

/// Whether chrono's `FixedOffset::east_opt` accepts `seconds`.
pub open spec fn fixed_offset_accepts(seconds: int) -> bool {
    -86_400 < seconds < 86_400
}

/// The UTC instant at which the wall-clock time `local` starts in `zone`: the earlier
/// instant for a repeated time, and for a time inside a gap the instant that the offset
/// in force just before the gap gives it.
pub open spec fn event_start_utc(zone: Seq<char>, local: int) -> Option<int> {
    match zone_offsets(zone, local) {
        ZoneLookup::Single(o) => in_i64(local - o),
        ZoneLookup::Ambiguous(first, _) => in_i64(local - first),
        ZoneLookup::Gap => match gap_offset_from(zone, local, 1) {
            Some(o) => if fixed_offset_accepts(o) {
                in_i64(local - o)
            } else {
                None
            },
            None => None,
        },
        ZoneLookup::Invalid => None,
    }
}

/// Search backwards from `local` for the offset in force just before a gap.
pub fn offset_immediately_before_gap(time_zone: &str, local_seconds: i64) -> (r: Result<
    i32,
    IcalendarError,
>)
    ensures
        match r {
            Ok(o) => gap_offset_from(time_zone@, local_seconds as int, 1) == Some(o as int),
            Err(e) => e == IcalendarError::InvalidData && gap_offset_from(
                time_zone@,
                local_seconds as int,
                1,
            ) is None,
        },
{
    let mut minutes: i64 = 1;
    while minutes <= GAP_SEARCH_MINUTES
        invariant
            1 <= minutes <= GAP_SEARCH_MINUTES + 1,
            gap_offset_from(time_zone@, local_seconds as int, 1) == gap_offset_from(
                time_zone@,
                local_seconds as int,
                minutes as int,
            ),
        decreases GAP_SEARCH_MINUTES + 1 - minutes,
    {
        let prior = match local_seconds.checked_sub(60 * minutes) {
            Some(p) => p,
            None => return Err(IcalendarError::InvalidData),
        };
        match lookup_zone_offsets(time_zone, prior) {
            ZoneLookup::Single(o) => return Ok(o),
            ZoneLookup::Ambiguous(_, last) => return Ok(last),
            ZoneLookup::Gap => {},
            ZoneLookup::Invalid => return Err(IcalendarError::InvalidData),
        }
        minutes = minutes + 1;
    }
    Err(IcalendarError::InvalidData)
}

/// A wall-clock time that occurs once in its zone starts at that time minus the zone's
/// offset from UTC, east or west; one that occurs twice starts at its first occurrence,
/// under the earlier offset. UTC is thus behind the wall clock east of Greenwich and ahead
/// of it to the west.
pub proof fn lemma_start_is_wall_clock_minus_offset(zone: Seq<char>, local: int)
    requires
        i64::MIN <= local <= i64::MAX,
    ensures
        zone_offsets(zone, local) matches ZoneLookup::Single(o) ==> event_start_utc(zone, local)
            == (if i64::MIN <= local - o <= i64::MAX {
            Some(local - o)
        } else {
            None::<int>
        }),
        zone_offsets(zone, local) matches ZoneLookup::Single(o) && o < 0
            && local - o <= i64::MAX ==> (event_start_utc(zone, local) matches Some(t) && t > local),
        zone_offsets(zone, local) matches ZoneLookup::Single(o) && o > 0
            && i64::MIN <= local - o ==> (event_start_utc(zone, local) matches Some(t) && t < local),
        zone_offsets(zone, local) matches ZoneLookup::Ambiguous(first, later) ==> event_start_utc(
            zone,
            local,
        ) == (if i64::MIN <= local - first <= i64::MAX {
            Some(local - first)
        } else {
            None::<int>
        }),
        zone_offsets(zone, local) is Invalid ==> event_start_utc(zone, local) is None,
{
}

/// The UTC start, in seconds since the epoch, of the wall-clock time `local_seconds` in
/// `time_zone`.
pub fn resolve_event_start(time_zone: &str, local_seconds: i64) -> (r: Result<
    i64,
    IcalendarError,
>)
    ensures
        zone_offsets(time_zone@, local_seconds as int) matches ZoneLookup::Single(o) ==> (
        r matches Ok(t) ==> t == local_seconds - o),
        zone_offsets(time_zone@, local_seconds as int) matches ZoneLookup::Ambiguous(first, later)
            ==> (r matches Ok(t) ==> t == local_seconds - first),
        match r {
            Ok(t) => event_start_utc(time_zone@, local_seconds as int) == Some(t as int),
            Err(e) => e == IcalendarError::InvalidData && event_start_utc(
                time_zone@,
                local_seconds as int,
            ) is None,
        },
{
    match lookup_zone_offsets(time_zone, local_seconds) {
        ZoneLookup::Single(o) => match local_seconds.checked_sub(o as i64) {
            Some(t) => Ok(t),
            None => Err(IcalendarError::InvalidData),
        },
        ZoneLookup::Ambiguous(first, _) => match local_seconds.checked_sub(first as i64) {
            Some(t) => Ok(t),
            None => Err(IcalendarError::InvalidData),
        },
        ZoneLookup::Gap => {
            let seconds = match offset_immediately_before_gap(time_zone, local_seconds) {
                Ok(o) => o,
                Err(e) => return Err(e),
            };
            if !(-86_400 < seconds && seconds < 86_400) {
                return Err(IcalendarError::InvalidData);
            }
            match local_seconds.checked_sub(seconds as i64) {
                Some(t) => Ok(t),
                None => Err(IcalendarError::InvalidData),
            }
        },
        ZoneLookup::Invalid => Err(IcalendarError::InvalidData),
    }
}

/// The content lines of the calendar object, before folding.
pub open spec fn calendar_lines(
    e: IcalendarEvent,
    start: Seq<char>,
    summary: Seq<char>,
    description: Option<Seq<char>>,
) -> Seq<Seq<char>> {
    let head = seq![
        "BEGIN:VCALENDAR"@,
        "PRODID:-//TSUNORU//Schedule Coordination//JA"@,
        "VERSION:2.0"@,
        "CALSCALE:GREGORIAN"@,
        "BEGIN:VEVENT"@,
        "UID:urn:uuid:"@ + e.public_id@,
        "DTSTAMP:"@ + e.generated_at_utc@,
        "DTSTART:"@ + start,
        "SUMMARY:"@ + summary,
    ];
    let middle = match description {
        Some(d) => seq!["DESCRIPTION:"@ + d],
        None => Seq::empty(),
    };
    head + middle + seq!["END:VEVENT"@, "END:VCALENDAR"@]
}

/// Every line folded in turn; `None` when one of them holds a line break.
pub open spec fn folded_lines(lines: Seq<Seq<char>>) -> Option<Seq<char>>
    decreases lines.len(),
{
    if lines.len() == 0 {
        Some(Seq::empty())
    } else if has_line_break(lines.last()) {
        None
    } else {
        match folded_lines(lines.drop_last()) {
            Some(d) => Some(d + folded_line(lines.last())),
            None => None,
        }
    }
}

/// The wall-clock text that is read as the event's local start.
pub open spec fn local_text(e: IcalendarEvent) -> Seq<char> {
    e.local_date@ + seq![' '] + e.local_time@
}

/// The escaped description: present only for a non-empty note.
pub open spec fn description_of(note: Option<String>) -> Option<Option<Seq<char>>> {
    match note {
        Some(n) => if n@.len() == 0 {
            Some(None)
        } else {
            match escaped(n@) {
                Some(d) => Some(Some(d)),
                None => None,
            }
        },
        None => Some(None),
    }
}

/// The complete calendar object for `e`, or `None` where an event field is invalid, its
/// start cannot be placed in its time zone, or its name or note cannot be escaped.
pub open spec fn rendered(e: IcalendarEvent) -> Option<Seq<char>> {
    if !event_fields_valid(e) {
        None
    } else {
        match naive_local_seconds(local_text(e)) {
            None => None,
            Some(local) => if !known_time_zone(e.time_zone@) {
                None
            } else {
                match event_start_utc(e.time_zone@, local) {
                    None => None,
                    Some(utc) => match compact_utc_text(utc) {
                        None => None,
                        Some(start) => match escaped(e.name@) {
                            None => None,
                            Some(summary) => match description_of(e.organizer_note) {
                                None => None,
                                Some(description) => folded_lines(
                                    calendar_lines(e, start, summary, description),
                                ),
                            },
                        },
                    },
                }
            },
        }
    }
}

fn prefixed(prefix: &str, rest: &str) -> (r: String)
    ensures
        r@ == prefix@ + rest@,
{
    String::from_str(prefix).concat(rest)
}

/// Render one complete UTF-8 iCalendar object with CRLF content lines.
pub fn render_icalendar(event: &IcalendarEvent) -> (r: Result<String, IcalendarError>)
    ensures
        match r {
            Ok(t) => rendered(*event) == Some(t@),
            Err(e) => e == IcalendarError::InvalidData && rendered(*event) is None,
        },
{
    match validate_event(event) {
        Ok(()) => {},
        Err(e) => return Err(e),
    }
    let mut text = event.local_date.clone();
    push_char(&mut text, ' ');
    let text = text.concat(event.local_time.as_str());
    proof {
        assert(text@ =~= local_text(*event));
    }
    let local = match parse_naive_date_time(text.as_str(), LOCAL_DATE_TIME_FORMAT) {
        Some(l) => l,
        None => return Err(IcalendarError::InvalidData),
    };
    if !time_zone_is_known(event.time_zone.as_str()) {
        return Err(IcalendarError::InvalidData);
    }
    let start_utc = match resolve_event_start(event.time_zone.as_str(), local) {
        Ok(t) => t,
        Err(e) => return Err(e),
    };
    let start = match format_utc(start_utc, COMPACT_UTC_FORMAT) {
        Some(t) => t,
        None => return Err(IcalendarError::InvalidData),
    };
    let summary = match escape_text(event.name.as_str()) {
        Some(t) => t,
        None => return Err(IcalendarError::InvalidData),
    };
    let description: Option<String> = match &event.organizer_note {
        Some(note) => if note.as_str().unicode_len() == 0 {
            None
        } else {
            match escape_text(note.as_str()) {
                Some(t) => Some(t),
                None => return Err(IcalendarError::InvalidData),
            }
        },
        None => None,
    };
    let ghost description_view: Option<Seq<char>> = match &description {
        Some(d) => Some(d@),
        None => None,
    };
    assert(description_of(event.organizer_note) == Some(description_view));
    let mut lines: Vec<String> = Vec::new();
    lines.push(String::from_str("BEGIN:VCALENDAR"));
    lines.push(String::from_str("PRODID:-//TSUNORU//Schedule Coordination//JA"));
    lines.push(String::from_str("VERSION:2.0"));
    lines.push(String::from_str("CALSCALE:GREGORIAN"));
    lines.push(String::from_str("BEGIN:VEVENT"));
    lines.push(prefixed("UID:urn:uuid:", event.public_id.as_str()));
    lines.push(prefixed("DTSTAMP:", event.generated_at_utc.as_str()));
    lines.push(prefixed("DTSTART:", start.as_str()));
    lines.push(prefixed("SUMMARY:", summary.as_str()));
    match &description {
        Some(d) => lines.push(prefixed("DESCRIPTION:", d.as_str())),
        None => {},
    }
    lines.push(String::from_str("END:VEVENT"));
    lines.push(String::from_str("END:VCALENDAR"));
    let ghost expected = calendar_lines(*event, start@, summary@, description_view);
    assert(lines@.map_values(|l: String| l@) =~= expected);
    let mut output = String::new();
    let mut k: usize = 0;
    assert(expected.take(0) =~= Seq::<Seq<char>>::empty());
    assert(rendered(*event) == folded_lines(expected));
    while k < lines.len()
        invariant
            rendered(*event) == folded_lines(expected),
            k <= lines@.len(),
            lines@.map_values(|l: String| l@) == expected,
            folded_lines(expected.take(k as int)) == Some(output@),
        decreases lines.len() - k,
    {
        let ghost line = lines@[k as int]@;
        assert(expected[k as int] == line);
        assert(expected.take(k + 1).drop_last() =~= expected.take(k as int));
        match append_folded_content_line(&mut output, lines[k].as_str()) {
            Ok(()) => {},
            Err(e) => {
                proof {
                    assert(expected.take(k + 1).last() == line);
                    lemma_folded_lines_prefix_fails(expected, k as int + 1);
                }
                return Err(e);
            },
        }
        k = k + 1;
    }
    assert(expected.take(lines@.len() as int) =~= expected);
    Ok(output)
}

/// Once some prefix of the lines cannot be folded, neither can all of them.
proof fn lemma_folded_lines_prefix_fails(lines: Seq<Seq<char>>, k: int)
    requires
        0 < k <= lines.len(),
        folded_lines(lines.take(k)) is None,
    ensures
        folded_lines(lines) is None,
    decreases lines.len() - k,
{
    if k < lines.len() {
        assert(lines.take(k + 1).drop_last() =~= lines.take(k));
        lemma_folded_lines_prefix_fails(lines, k + 1);
    } else {
        assert(lines.take(k) =~= lines);
    }
}

} // verus!
