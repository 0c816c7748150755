//! Calendar dates of posts and the three places a post's date is read from:
//! a timestamp in the post markup, a numeric date in the title, and the
//! moment the archive was captured.

use vstd::prelude::*;
use vstd::string::*;
use chrono::{Datelike, Timelike};
use crate::scan::{ByteClass, class_at, has_at, is_class_at, run_end, lemma_run_end, skip_run, word_at};
use crate::utf8_bytes::from_chars;

verus! {

/// The first year that a date can hold.
pub const MIN_YEAR: i32 = -262143;

/// The last year that a date can hold.
pub const MAX_YEAR: i32 = 262142;

/// Whether February has 29 days in the year `year`.
pub open spec fn is_leap_year(year: int) -> bool {
    year % 4 == 0 && (year % 100 != 0 || year % 400 == 0)
}

/// The number of days of the month `month` of the year `year`.
pub open spec fn days_in_month(year: int, month: int) -> int {
    if month == 2 {
        if is_leap_year(year) {
            29
        } else {
            28
        }
    } else if month == 4 || month == 6 || month == 9 || month == 11 {
        30
    } else {
        31
    }
}

/// Whether the proleptic Gregorian calendar has the day `day` of month `month` of `year`.
pub open spec fn is_calendar_date(year: int, month: int, day: int) -> bool {
    &&& MIN_YEAR <= year <= MAX_YEAR
    &&& 1 <= month <= 12
    &&& 1 <= day <= days_in_month(year, month)
}

/// A calendar date.
#[derive(Clone, Copy, Debug, PartialEq, Eq, Structural)]
pub struct PostDate {
    pub year: i32,
    pub month: u32,
    pub day: u32,
}

/// The date of the given year, month and day, if the calendar has it.
pub open spec fn calendar_date(year: int, month: int, day: int) -> Option<PostDate> {
    if is_calendar_date(year, month, day) {
        Some(PostDate { year: year as i32, month: month as u32, day: day as u32 })
    } else {
        None
    }
}

impl PostDate {
    /// Whether the date exists in the calendar.
    pub open spec fn well_formed(self) -> bool {
        is_calendar_date(self.year as int, self.month as int, self.day as int)
    }

    /// Whether `self` is an earlier day than `other`.
    pub open spec fn is_before(self, other: PostDate) -> bool {
        ||| self.year < other.year
        ||| (self.year == other.year && self.month < other.month)
        ||| (self.year == other.year && self.month == other.month && self.day < other.day)
    }

    /// The date of the given year, month and day, or `None` where the
    /// calendar has no such day.
    pub fn from_ymd_opt(year: i32, month: u32, day: u32) -> (r: Option<PostDate>)
        ensures
            r == calendar_date(year as int, month as int, day as int),
            r matches Some(d) ==> d.well_formed(),
    {
        if year < MIN_YEAR || year > MAX_YEAR || month < 1 || month > 12 || day < 1 {
            return None;
        }
        let leap: bool = year % 4 == 0 && (year % 100 != 0 || year % 400 == 0);
        let last: u32 = if month == 2 {
            if leap {
                29
            } else {
                28
            }
        } else if month == 4 || month == 6 || month == 9 || month == 11 {
            30
        } else {
            31
        };
        if day > last {
            return None;
        }
        Some(PostDate { year, month, day })
    }

    /// Compares two dates by year, then month, then day.
    pub fn precedes(&self, other: &PostDate) -> (r: bool)
        ensures
            r == self.is_before(*other),
    {
        self.year < other.year || (self.year == other.year && (self.month < other.month || (
        self.month == other.month && self.day < other.day)))
    }
}

/// The moment an archive was captured, as the archive states it: the
/// calendar date and the time of day at the stated offset from UTC.
#[derive(Clone, Copy, Debug, PartialEq, Eq, Structural)]
pub struct CaptureTime {
    /// The calendar date at the stated offset.
    pub date: PostDate,
    /// Seconds since midnight at the stated offset.
    pub second_of_day: u32,
    /// Nanoseconds since that second; a thousand million and more in a
    /// leap second.
    pub nanosecond: u32,
    /// The stated offset, in seconds east of UTC.
    pub offset_seconds: i32,
}

impl CaptureTime {
    /// Whether the date exists, the time is within the day or its leap
    /// second, and the offset is less than a day.
    pub open spec fn well_formed(self) -> bool {
        &&& self.date.well_formed()
        &&& self.second_of_day < 86400
        &&& self.nanosecond < 2_000_000_000
        &&& -86400 < self.offset_seconds < 86400
    }

    /// Midnight UTC of the first day of 1970.
    pub open spec fn epoch() -> CaptureTime {
        CaptureTime {
            date: PostDate { year: 1970, month: 1, day: 1 },
            second_of_day: 0,
            nanosecond: 0,
            offset_seconds: 0,
        }
    }
}

impl Default for CaptureTime {
    fn default() -> (r: CaptureTime)
        ensures
            r == CaptureTime::epoch(),
            r.well_formed(),
    {
        CaptureTime {
            date: PostDate { year: 1970, month: 1, day: 1 },
            second_of_day: 0,
            nanosecond: 0,
            offset_seconds: 0,
        }
    }
}

/// The moment that `chrono::DateTime::parse_from_rfc2822` reads in a text;
/// `None` where it reads none.
pub uninterp spec fn rfc2822_reading(text: Seq<char>) -> Option<CaptureTime>;

/// `chrono::DateTime::parse_from_rfc2822`, with `None` for its error, and
/// the moment given by its local date, its second of the day, its
/// nanosecond and its offset, which are those of a moment that exists.
#[verifier::external_body]
pub(crate) fn parse_rfc2822(text: &str) -> (r: Option<CaptureTime>)
    ensures
        r == rfc2822_reading(text@),
        r matches Some(t) ==> t.well_formed(),
{
    let moment = chrono::DateTime::parse_from_rfc2822(text).ok()?;
    let local = moment.naive_local();
    Some(CaptureTime {
        date: PostDate { year: local.year(), month: local.month(), day: local.day() },
        second_of_day: local.num_seconds_from_midnight(),
        nanosecond: local.nanosecond(),
        offset_seconds: moment.offset().local_minus_utc(),
    })
}

/// The date that `chrono::NaiveDate::parse_and_remainder` reads at the start
/// of a text, for a format; `None` where it reads none.
pub uninterp spec fn date_reading(text: Seq<char>, format: Seq<char>) -> Option<PostDate>;

/// `chrono::NaiveDate::parse_and_remainder`, with `None` for its error and
/// without the remainder: the date that is read is a day of the calendar.
#[verifier::external_body]
pub(crate) fn parse_date_prefix(text: &str, format: &str) -> (r: Option<PostDate>)
    ensures
        r == date_reading(text@, format@),
        r matches Some(d) ==> d.well_formed(),
{
    let (date, _) = chrono::NaiveDate::parse_and_remainder(text, format).ok()?;
    Some(PostDate { year: date.year(), month: date.month(), day: date.day() })
}

/// The number that a string of decimal digits writes.
pub open spec fn decimal_value(digits: Seq<u8>) -> nat
    decreases digits.len(),
{
    if digits.len() == 0 {
        0
    } else {
        decimal_value(digits.drop_last()) * 10 + (digits.last() - 48) as nat
    }
}

/// More digits never write a smaller number.
proof fn lemma_decimal_value_grows(s: Seq<u8>, start: int, mid: int, end: int)
    requires
        0 <= start <= mid <= end <= s.len(),
        forall|k: int| start <= k < end ==> ByteClass::Digit.holds(#[trigger] s[k]),
    ensures
        decimal_value(s.subrange(start, mid)) <= decimal_value(s.subrange(start, end)),
    decreases end - mid,
{
    if mid < end {
        lemma_decimal_value_grows(s, start, mid, end - 1);
        assert(s.subrange(start, end).drop_last() =~= s.subrange(start, end - 1));
    }
}

/// The largest number that `read_number` hands out.
pub const NUMBER_LIMIT: u32 = 999_999;

/// The number written by the digits of `bytes` from `start` to `end`, or
/// `None` where it is over `NUMBER_LIMIT`.
fn read_number(bytes: &[u8], start: usize, end: usize) -> (r: Option<u32>)
    requires
        start <= end <= bytes@.len(),
        forall|k: int| start <= k < end ==> ByteClass::Digit.holds(#[trigger] bytes@[k]),
    ensures
        match r {
            Some(v) => v == decimal_value(bytes@.subrange(start as int, end as int)) && v
                <= NUMBER_LIMIT,
            None => decimal_value(bytes@.subrange(start as int, end as int)) > NUMBER_LIMIT,
        },
{
    let mut value: u32 = 0;
    let mut i: usize = start;
    while i < end
        invariant
            start <= i <= end <= bytes@.len(),
            forall|k: int| start <= k < end ==> ByteClass::Digit.holds(#[trigger] bytes@[k]),
            value == decimal_value(bytes@.subrange(start as int, i as int)),
            value <= NUMBER_LIMIT,
        decreases end - i,
    {
        let digit: u32 = (bytes[i] - 48) as u32;
        proof {
            assert(bytes@.subrange(start as int, i + 1).drop_last() =~= bytes@.subrange(
                start as int,
                i as int,
            ));
        }
        if value > (NUMBER_LIMIT - digit) / 10 {
            proof {
                lemma_decimal_value_grows(bytes@, start as int, i + 1, end as int);
            }
            return None;
        }
        value = value * 10 + digit;
        i += 1;
    }
    Some(value)
}

/// The three digit strings of a date `month/day/year` that starts at offset
/// `i` of a title: each is as long as the digits go.
pub open spec fn title_date_at(s: Seq<u8>, i: int) -> Option<(Seq<u8>, Seq<u8>, Seq<u8>)> {
    let month_end = run_end(s, i, ByteClass::Digit);
    let day_end = run_end(s, month_end + 1, ByteClass::Digit);
    let year_end = run_end(s, day_end + 1, ByteClass::Digit);
    if 0 <= i < month_end && class_at(s, month_end, ByteClass::Slash) && month_end + 1 < day_end
        && class_at(s, day_end, ByteClass::Slash) && day_end + 1 < year_end {
        Some(
            (
                s.subrange(i, month_end),
                s.subrange(month_end + 1, day_end),
                s.subrange(day_end + 1, year_end),
            ),
        )
    } else {
        None
    }
}

/// The digit strings of the first date `month/day/year` at or after offset `i`.
pub open spec fn first_title_date(s: Seq<u8>, i: int) -> Option<(Seq<u8>, Seq<u8>, Seq<u8>)>
    decreases s.len() - i,
{
    if i < 0 || i >= s.len() {
        None
    } else if title_date_at(s, i) is Some {
        title_date_at(s, i)
    } else {
        first_title_date(s, i + 1)
    }
}

/// The year that a title's year number stands for: a number under 100
/// counts from 2000.
pub open spec fn full_year(written: int) -> int {
    if written < 100 {
        written + 2000
    } else {
        written
    }
}

/// The date that a title states: the first `month/day/year` in it, read as
/// a calendar date; `None` where there is none or the calendar has no such day.
pub open spec fn title_date(s: Seq<u8>) -> Option<PostDate> {
    match first_title_date(s, 0) {
        Some((month, day, year)) => calendar_date(
            full_year(decimal_value(year) as int),
            decimal_value(month) as int,
            decimal_value(day) as int,
        ),
        None => None,
    }
}

/// The date `month/day/year` that starts at offset `i`, as three numbers,
/// each `None` where it is over `NUMBER_LIMIT`.
fn read_title_date_at(bytes: &[u8], i: usize) -> (r: Option<(Option<u32>, Option<u32>, Option<u32>)>)
    requires
        i < bytes@.len(),
    ensures
        match title_date_at(bytes@, i as int) {
            Some((month, day, year)) => r matches Some((m, d, y)) && number_is(m, month)
                && number_is(d, day) && number_is(y, year),
            None => r is None,
        },
{
    proof {
        lemma_run_end(bytes@, i as int, ByteClass::Digit);
    }
    let month_end: usize = skip_run(bytes, i, ByteClass::Digit);
    if month_end == i || !is_class_at(bytes, month_end, ByteClass::Slash) {
        return None;
    }
    let day_end: usize = skip_run(bytes, month_end + 1, ByteClass::Digit);
    if day_end == month_end + 1 || !is_class_at(bytes, day_end, ByteClass::Slash) {
        return None;
    }
    proof {
        lemma_run_end(bytes@, month_end + 1, ByteClass::Digit);
    }
    let year_end: usize = skip_run(bytes, day_end + 1, ByteClass::Digit);
    if year_end == day_end + 1 {
        return None;
    }
    proof {
        lemma_run_end(bytes@, day_end + 1, ByteClass::Digit);
    }
    let month = read_number(bytes, i, month_end);
    let day = read_number(bytes, month_end + 1, day_end);
    let year = read_number(bytes, day_end + 1, year_end);
    Some((month, day, year))
}

/// Whether `read` is what `read_number` makes of the digits `digits`.
pub open spec fn number_is(read: Option<u32>, digits: Seq<u8>) -> bool {
    match read {
        Some(v) => v == decimal_value(digits) && v <= NUMBER_LIMIT,
        None => decimal_value(digits) > NUMBER_LIMIT,
    }
}

/// The date that a title states.
///
/// The first `month/day/year` of decimal digits in the title is read; a
/// year under 100 counts from 2000. The result is `None` where the title
/// holds no such text, or where the calendar has no such day.
pub fn date_from_title(title: &[u8]) -> (r: Option<PostDate>)
    ensures
        r == title_date(title@),
        r matches Some(d) ==> d.well_formed(),
{
    let mut i: usize = 0;
    while i < title.len()
        invariant
            i <= title@.len(),
            first_title_date(title@, i as int) == first_title_date(title@, 0),
        decreases title@.len() - i,
    {
        match read_title_date_at(title, i) {
            Some((Some(month), Some(day), Some(year))) => {
                let full: u32 = if year < 100 {
                    year + 2000
                } else {
                    year
                };
                return PostDate::from_ymd_opt(full as i32, month, day);
            },
            Some(_) => {
                return None;
            },
            None => {},
        }
        i += 1;
    }
    None
}

/// The characters that a string of ASCII bytes writes.
pub open spec fn ascii_text(bytes: Seq<u8>) -> Seq<char> {
    Seq::new(bytes.len(), |k: int| bytes[k] as char)
}

/// Where the date of a marked-up timestamp stands, if one starts at offset `i`.
///
/// A timestamp is an opening `<span` tag, optional white space, and a text
/// such as `Jul 13, 2023, 7:31:18 PM` that runs up to the closing tag: a
/// capital and two small letters, a space, the day's digits, a comma and a
/// space, four digits of year, a comma and a space, one or two digits of
/// hour, and two digits each of minutes and seconds after colons; then at
/// least one more byte, and `AM` or `PM` right before `</span>`. The result
/// spans the month, the day and the year.
pub open spec fn timestamp_at(s: Seq<u8>, i: int) -> Option<(int, int)> {
    let tag_end = run_end(s, i + 5, ByteClass::BeforeGt);
    let month = run_end(s, tag_end + 1, ByteClass::Space);
    let day_end = run_end(s, month + 4, ByteClass::Digit);
    let hour = day_end + 8;
    let minute = if class_at(s, hour + 1, ByteClass::Digit) {
        hour + 3
    } else {
        hour + 2
    };
    let tail = minute + 5;
    let close = run_end(s, tail, ByteClass::BeforeLt);
    if has_at(s, i, "<span".spec_bytes()) && tag_end < s.len() && class_at(
        s,
        month,
        ByteClass::Upper,
    ) && class_at(s, month + 1, ByteClass::Lower) && class_at(s, month + 2, ByteClass::Lower)
        && has_at(s, month + 3, " ".spec_bytes()) && month + 4 < day_end && has_at(
        s,
        day_end,
        ", ".spec_bytes(),
    ) && class_at(s, day_end + 2, ByteClass::Digit) && class_at(s, day_end + 3, ByteClass::Digit)
        && class_at(s, day_end + 4, ByteClass::Digit) && class_at(s, day_end + 5, ByteClass::Digit)
        && has_at(s, day_end + 6, ", ".spec_bytes()) && class_at(s, hour, ByteClass::Digit)
        && has_at(s, minute - 1, ":".spec_bytes()) && class_at(s, minute, ByteClass::Digit)
        && class_at(s, minute + 1, ByteClass::Digit) && has_at(s, minute + 2, ":".spec_bytes())
        && class_at(s, minute + 3, ByteClass::Digit) && class_at(s, minute + 4, ByteClass::Digit)
        && tail + 3 <= close && (has_at(s, close - 2, "AM".spec_bytes()) || has_at(
        s,
        close - 2,
        "PM".spec_bytes(),
    )) && has_at(s, close, "</span>".spec_bytes()) {
        Some((month, day_end + 6))
    } else {
        None
    }
}

/// Where the date of the first marked-up timestamp at or after offset `i` stands.
pub open spec fn first_timestamp(s: Seq<u8>, i: int) -> Option<(int, int)>
    decreases s.len() - i,
{
    if i < 0 || i >= s.len() {
        None
    } else if timestamp_at(s, i) is Some {
        timestamp_at(s, i)
    } else {
        first_timestamp(s, i + 1)
    }
}

/// The date that post markup states: the date of its first marked-up
/// timestamp, as far as the month, the day and the year go.
pub open spec fn html_date(s: Seq<u8>) -> Option<PostDate> {
    match first_timestamp(s, 0) {
        Some((from, to)) => date_reading(ascii_text(s.subrange(from, to)), "%b %d, %Y"@),
        None => None,
    }
}

/// The words of a timestamp have as many bytes as characters.
proof fn lemma_word_lengths()
    ensures
        "<span".spec_bytes().len() == 5,
        " ".spec_bytes().len() == 1,
        ", ".spec_bytes().len() == 2,
        ":".spec_bytes().len() == 1,
        "AM".spec_bytes().len() == 2,
        "PM".spec_bytes().len() == 2,
        "</span>".spec_bytes().len() == 7,
{
    reveal_strlit("<span");
    reveal_strlit(" ");
    reveal_strlit(", ");
    reveal_strlit(":");
    reveal_strlit("AM");
    reveal_strlit("PM");
    reveal_strlit("</span>");
    broadcast use vstd::string::is_ascii_spec_bytes;
    assert(is_ascii("<span"));
    assert(is_ascii(" "));
    assert(is_ascii(", "));
    assert(is_ascii(":"));
    assert(is_ascii("AM"));
    assert(is_ascii("PM"));
    assert(is_ascii("</span>"));
}

/// Looks for a marked-up timestamp that starts at offset `i`.
fn read_timestamp_at(bytes: &[u8], i: usize) -> (r: Option<(usize, usize)>)
    requires
        i < bytes@.len(),
    ensures
        match timestamp_at(bytes@, i as int) {
            Some((from, to)) => r matches Some(found) && found.0 == from && found.1 == to && from
                <= to <= bytes@.len(),
            None => r is None,
        },
{
    let n: usize = bytes.len();
    proof {
        lemma_word_lengths();
    }
    if !word_at(bytes, i, "<span") {
        return None;
    }
    let tag_end: usize = skip_run(bytes, i + 5, ByteClass::BeforeGt);
    if tag_end >= n {
        return None;
    }
    let month: usize = skip_run(bytes, tag_end + 1, ByteClass::Space);
    if !(is_class_at(bytes, month, ByteClass::Upper) && is_class_at(
        bytes,
        month + 1,
        ByteClass::Lower,
    ) && is_class_at(bytes, month + 2, ByteClass::Lower) && word_at(bytes, month + 3, " ")) {
        return None;
    }
    let day_end: usize = skip_run(bytes, month + 4, ByteClass::Digit);
    if !(month + 4 < day_end && word_at(bytes, day_end, ", ") && is_class_at(
        bytes,
        day_end + 2,
        ByteClass::Digit,
    ) && is_class_at(bytes, day_end + 3, ByteClass::Digit) && is_class_at(
        bytes,
        day_end + 4,
        ByteClass::Digit,
    ) && is_class_at(bytes, day_end + 5, ByteClass::Digit) && word_at(bytes, day_end + 6, ", ")) {
        return None;
    }
    let hour: usize = day_end + 8;
    if !is_class_at(bytes, hour, ByteClass::Digit) || n - hour < 7 {
        return None;
    }
    let minute: usize = if is_class_at(bytes, hour + 1, ByteClass::Digit) {
        hour + 3
    } else {
        hour + 2
    };
    if !(word_at(bytes, minute - 1, ":") && is_class_at(bytes, minute, ByteClass::Digit)
        && is_class_at(bytes, minute + 1, ByteClass::Digit) && word_at(bytes, minute + 2, ":")
        && is_class_at(bytes, minute + 3, ByteClass::Digit) && is_class_at(
        bytes,
        minute + 4,
        ByteClass::Digit,
    )) {
        return None;
    }
    let tail: usize = minute + 5;
    let close: usize = skip_run(bytes, tail, ByteClass::BeforeLt);
    if close - tail < 3 {
        return None;
    }
    if !((word_at(bytes, close - 2, "AM") || word_at(bytes, close - 2, "PM")) && word_at(
        bytes,
        close,
        "</span>",
    )) {
        return None;
    }
    Some((month, day_end + 6))
}

/// The string that writes the ASCII bytes of `bytes` from `from` to `to`.
fn ascii_string(bytes: &[u8], from: usize, to: usize) -> (r: String)
    requires
        from <= to <= bytes@.len(),
    ensures
        r@ == ascii_text(bytes@.subrange(from as int, to as int)),
{
    let mut chars: Vec<char> = Vec::new();
    let mut k: usize = from;
    while k < to
        invariant
            from <= k <= to <= bytes@.len(),
            chars@ == ascii_text(bytes@.subrange(from as int, k as int)),
        decreases to - k,
    {
        chars.push(bytes[k] as char);
        k += 1;
    }
    from_chars(&chars)
}

/// The date that post markup states.
///
/// The markup is searched for its first marked-up timestamp, and the month,
/// the day and the year at its start are read as `%b %d, %Y`. The result is
/// `None` where the markup holds no timestamp, or where those three do not
/// name a day of the calendar.
pub fn date_from_html(html: &[u8]) -> (r: Option<PostDate>)
    ensures
        r == html_date(html@),
        r matches Some(d) ==> d.well_formed(),
{
    let mut i: usize = 0;
    while i < html.len()
        invariant
            i <= html@.len(),
            first_timestamp(html@, i as int) == first_timestamp(html@, 0),
        decreases html@.len() - i,
    {
        match read_timestamp_at(html, i) {
            Some((from, to)) => {
                let text = ascii_string(html, from, to);
                return parse_date_prefix(text.as_str(), "%b %d, %Y");
            },
            None => {},
        }
        i += 1;
    }
    None
}

/// The date of a post: the date that the post markup states, else the date
/// that the title states, else the calendar date of the capture.
pub open spec fn resolved_date(in_post: Option<PostDate>, title: Seq<u8>, capture: CaptureTime) -> PostDate {
    match in_post {
        Some(date) => date,
        None => match title_date(title) {
            Some(date) => date,
            None => capture.date,
        },
    }
}

/// Picks the date of a post from the three places that may state it, in
/// this order: the post markup, the title, the capture.
pub fn resolve_post_date(in_post: Option<PostDate>, title: &[u8], capture: &CaptureTime) -> (r: PostDate)
    ensures
        r == resolved_date(in_post, title@, *capture),
        in_post is None && title_date(title@) is None ==> r == capture.date,
        (in_post matches Some(d) ==> d.well_formed()) && capture.well_formed()
            ==> r.well_formed(),
{
    match in_post {
        Some(date) => date,
        None => match date_from_title(title) {
            Some(date) => date,
            None => capture.date,
        },
    }
}

} // verus!
